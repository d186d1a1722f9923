//! Color themes: a name and a set of colors, with two built in.
pub mod colors;

use vstd::prelude::*;
use colors::{ThemeColors, dark_colors, light_colors};
use crate::text::string_of;

verus! {

/// A named color theme.
#[derive(Debug, Clone)]
pub struct Theme {
    /// The theme's name, such as `default-dark`.
    pub name: String,
    /// Its colors.
    pub colors: ThemeColors,
}

/// Whether `name` names a built-in theme.
pub open spec fn is_builtin_theme(name: Seq<char>) -> bool {
    name == "default-dark"@ || name == "default-light"@
}

/// The built-in theme called `name`: `default-dark` or `default-light`;
/// `None` for any other name.
pub fn get_builtin_theme(name: &str) -> (res: Option<Theme>)
    ensures
        res is Some <==> is_builtin_theme(name@),
        name@ == "default-dark"@ ==> (res matches Some(t) && t.name@ == name@ && t.colors == dark_colors()),
        name@ == "default-light"@ ==> (res matches Some(t) && t.name@ == name@ && t.colors == light_colors()),
{
    let dark = string_of("default-dark");
    let light = string_of("default-light");
    let given = string_of(name);
    proof {
        reveal_strlit("default-dark");
        reveal_strlit("default-light");
    }
    if given == dark {
        Some(Theme { name: given, colors: ThemeColors::default_dark() })
    } else if given == light {
        Some(Theme { name: given, colors: ThemeColors::default_light() })
    } else {
        None
    }
}

/// The names of the built-in themes.
pub fn list_builtin_themes() -> (res: Vec<String>)
    ensures
        res@.len() == 2,
        res@[0]@ == "default-dark"@,
        res@[1]@ == "default-light"@,
{
    let mut v: Vec<String> = Vec::new();
    v.push(string_of("default-dark"));
    v.push(string_of("default-light"));
    v
}

} // verus!
