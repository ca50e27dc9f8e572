//! The colour theme the user picks, as stored in the settings and shown in the chooser.
use vstd::prelude::*;

use crate::text::{chars_of, same_chars};

verus! {

broadcast use vstd::string::group_string_axioms;

/// The colour theme of the application.
#[derive(Debug, Clone, Copy, PartialEq, Eq, Structural)]
pub enum Theme {
    System,
    Light,
    Dark,
}

impl Theme {
    /// The name under which the theme is stored.
    pub open spec fn name(self) -> Seq<char> {
        match self {
            Theme::System => "System"@,
            Theme::Light => "Light"@,
            Theme::Dark => "Dark"@,
        }
    }

    /// The position of the theme in the chooser.
    pub open spec fn index(self) -> u32 {
        match self {
            Theme::System => 0,
            Theme::Light => 1,
            Theme::Dark => 2,
        }
    }

    /// The name under which the theme is stored (see `name`).
    pub fn to_string(&self) -> (s: String)
        ensures
            s@ == self.name(),
    {
        match self {
            Theme::System => String::from_str("System"),
            Theme::Light => String::from_str("Light"),
            Theme::Dark => String::from_str("Dark"),
        }
    }
}

/// The theme stored under `name`: `Light`, `Dark`, and `System` for any other name.
pub open spec fn theme_named(name: Seq<char>) -> Theme {
    if name == "Light"@ {
        Theme::Light
    } else if name == "Dark"@ {
        Theme::Dark
    } else {
        Theme::System
    }
}

/// The theme at position `index` in the chooser, `System` past the last position.
pub open spec fn theme_at(index: u32) -> Theme {
    if index == 1 {
        Theme::Light
    } else if index == 2 {
        Theme::Dark
    } else {
        Theme::System
    }
}

impl Default for Theme {
    fn default() -> (t: Self)
        ensures
            t == Theme::System,
    {
        Theme::System
    }
}

impl<'a> From<&'a str> for Theme {
    fn from(value: &'a str) -> (t: Self) {
        let n = chars_of(value);
        if same_chars(&n, &chars_of("Light")) {
            Theme::Light
        } else if same_chars(&n, &chars_of("Dark")) {
            Theme::Dark
        } else {
            Theme::System
        }
    }
}

impl<'a> vstd::std_specs::convert::FromSpecImpl<&'a str> for Theme {
    open spec fn obeys_from_spec() -> bool {
        true
    }

    open spec fn from_spec(value: &'a str) -> Self {
        theme_named(value@)
    }
}

impl From<u32> for Theme {
    fn from(value: u32) -> (t: Self) {
        match value {
            0 => Theme::System,
            1 => Theme::Light,
            2 => Theme::Dark,
            _ => Theme::System,
        }
    }
}

impl vstd::std_specs::convert::FromSpecImpl<u32> for Theme {
    open spec fn obeys_from_spec() -> bool {
        true
    }

    open spec fn from_spec(value: u32) -> Self {
        theme_at(value)
    }
}

impl From<Theme> for u32 {
    fn from(value: Theme) -> (n: Self) {
        match value {
            Theme::System => 0,
            Theme::Light => 1,
            Theme::Dark => 2,
        }
    }
}

impl vstd::std_specs::convert::FromSpecImpl<Theme> for u32 {
    open spec fn obeys_from_spec() -> bool {
        true
    }

    open spec fn from_spec(value: Theme) -> Self {
        value.index()
    }
}

/// A theme saved by its position in the chooser and read back by position is the same theme.
pub proof fn lemma_index_round_trip(t: Theme)
    ensures
        theme_at(t.index()) == t,
{
}

/// Every position of the chooser is the position of the theme read back from it.
pub proof fn lemma_position_round_trip(index: u32)
    requires
        index < 3,
    ensures
        theme_at(index).index() == index,
{
}

/// A theme saved by its name and read back by name is the same theme.
pub proof fn lemma_name_round_trip(t: Theme)
    ensures
        theme_named(t.name()) == t,
{
    reveal_strlit("System");
    reveal_strlit("Light");
    reveal_strlit("Dark");
    assert("System"@.len() == 6 && "Light"@.len() == 5 && "Dark"@.len() == 4);
}

} // verus!
