//! How the text views look: the colour scheme of their buffers and their font.
use vstd::prelude::*;

use crate::text::{decimal, decimal_of, extend, extend_str, string_of};

verus! {

broadcast use vstd::string::group_string_axioms;

/// The style scheme that matches the system's light or dark appearance.
pub fn style_scheme_name(is_dark: bool) -> (name: &'static str)
    ensures
        name@ == if is_dark {
            "Adwaita-dark"@
        } else {
            "Adwaita"@
        },
{
    if is_dark {
        "Adwaita-dark"
    } else {
        "Adwaita"
    }
}

/// The decimal notation of a whole number, with a minus sign when it is negative.
pub open spec fn signed_decimal(n: int) -> Seq<char> {
    if n < 0 {
        "-"@ + decimal((-n) as nat)
    } else {
        decimal(n as nat)
    }
}

/// The font family used when the font names none.
pub open spec fn default_font_family() -> Seq<char> {
    "Adwaita Mono"@
}

/// The style sheet that gives the text views their font.
pub open spec fn font_style_sheet(family: Option<Seq<char>>, size: int) -> Seq<char> {
    let family = match family {
        Some(f) => f,
        None => default_font_family(),
    };
    ".custom-font { font-family: "@ + family + "; font-size: "@ + signed_decimal(size)
        + "pt; }"@
}

/// The style sheet that gives the text views their font (see `font_style_sheet`).
pub fn font_css(family: Option<&str>, size: i32) -> (css: String)
    ensures
        css@ == font_style_sheet(
            match family {
                Some(f) => Some(f@),
                None => None,
            },
            size as int,
        ),
{
    let mut out: Vec<char> = Vec::new();
    extend_str(&mut out, ".custom-font { font-family: ");
    match family {
        Some(f) => extend_str(&mut out, f),
        None => extend_str(&mut out, "Adwaita Mono"),
    }
    extend_str(&mut out, "; font-size: ");
    if size < 0 {
        extend_str(&mut out, "-");
        let magnitude: u64 = (0 - (size as i64)) as u64;
        extend(&mut out, &decimal_of(magnitude));
    } else {
        extend(&mut out, &decimal_of(size as u64));
    }
    extend_str(&mut out, "pt; }");
    string_of(&out)
}

} // verus!
