use alter_ego_tools::view_style::{font_css, style_scheme_name};

#[test]
fn scheme_follows_dark_mode() {
    assert_eq!(style_scheme_name(true), "Adwaita-dark");
    assert_eq!(style_scheme_name(false), "Adwaita");
}

#[test]
fn font_style_sheet() {
    assert_eq!(
        font_css(Some("Fira Code"), 12288),
        ".custom-font { font-family: Fira Code; font-size: 12288pt; }"
    );
    assert_eq!(
        font_css(None, -5),
        ".custom-font { font-family: Adwaita Mono; font-size: -5pt; }"
    );
    assert_eq!(
        font_css(None, i32::MIN),
        ".custom-font { font-family: Adwaita Mono; font-size: -2147483648pt; }"
    );
}
