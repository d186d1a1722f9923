//! The colors of a theme.
use vstd::prelude::*;

verus! {

/// A terminal color: a named ANSI color or an RGB triple.
#[derive(Debug, Clone, Copy, PartialEq, Eq, Structural)]
pub enum Color {
    /// ANSI cyan (color 6).
    Cyan,
    /// A 24-bit color.
    Rgb(u8, u8, u8),
}

/// Every color the interface draws with.
#[derive(Debug, Clone, Copy, PartialEq, Eq, Structural)]
pub struct ThemeColors {
    /// Object keys.
    pub key: Color,
    /// String values.
    pub string: Color,
    /// Number values.
    pub number: Color,
    /// `true` and `false`.
    pub boolean: Color,
    /// `null`.
    pub null: Color,
    /// The editor background.
    pub background: Color,
    /// Ordinary text.
    pub foreground: Color,
    /// The cursor line indicator.
    pub cursor: Color,
    /// The status line background.
    pub status_line_bg: Color,
    /// The status line text.
    pub status_line_fg: Color,
    /// Error messages.
    pub error: Color,
    /// Warnings.
    pub warning: Color,
    /// Informational messages.
    pub info: Color,
    /// The background of search matches.
    pub search_highlight: Color,
    /// Collapsed container previews.
    pub preview: Color,
}

/// The colors of the dark theme.
pub open spec fn dark_colors() -> ThemeColors {
    ThemeColors {
        key: Color::Rgb(92, 133, 255),
        string: Color::Rgb(184, 255, 167),
        number: Color::Rgb(184, 255, 167),
        boolean: Color::Rgb(255, 255, 85),
        null: Color::Rgb(128, 128, 128),
        background: Color::Rgb(0, 0, 0),
        foreground: Color::Rgb(184, 255, 167),
        cursor: Color::Rgb(92, 133, 255),
        status_line_bg: Color::Rgb(20, 20, 20),
        status_line_fg: Color::Rgb(184, 255, 167),
        error: Color::Rgb(255, 85, 85),
        warning: Color::Rgb(255, 255, 85),
        info: Color::Rgb(92, 133, 255),
        search_highlight: Color::Rgb(255, 255, 85),
        preview: Color::Cyan,
    }
}

/// The colors of the light theme.
pub open spec fn light_colors() -> ThemeColors {
    ThemeColors {
        key: Color::Rgb(166, 38, 164),
        string: Color::Rgb(80, 161, 79),
        number: Color::Rgb(152, 104, 1),
        boolean: Color::Rgb(1, 132, 188),
        null: Color::Rgb(160, 30, 170),
        background: Color::Rgb(250, 250, 250),
        foreground: Color::Rgb(56, 58, 66),
        cursor: Color::Rgb(82, 139, 255),
        status_line_bg: Color::Rgb(238, 238, 238),
        status_line_fg: Color::Rgb(56, 58, 66),
        error: Color::Rgb(202, 18, 67),
        warning: Color::Rgb(152, 104, 1),
        info: Color::Rgb(1, 132, 188),
        search_highlight: Color::Rgb(220, 220, 220),
        preview: Color::Rgb(1, 132, 188),
    }
}

impl ThemeColors {
    /// The dark color scheme: bright text on black.
    pub fn default_dark() -> (res: Self)
        ensures
            res == dark_colors(),
    {
        ThemeColors {
            key: Color::Rgb(92, 133, 255),
            string: Color::Rgb(184, 255, 167),
            number: Color::Rgb(184, 255, 167),
            boolean: Color::Rgb(255, 255, 85),
            null: Color::Rgb(128, 128, 128),
            background: Color::Rgb(0, 0, 0),
            foreground: Color::Rgb(184, 255, 167),
            cursor: Color::Rgb(92, 133, 255),
            status_line_bg: Color::Rgb(20, 20, 20),
            status_line_fg: Color::Rgb(184, 255, 167),
            error: Color::Rgb(255, 85, 85),
            warning: Color::Rgb(255, 255, 85),
            info: Color::Rgb(92, 133, 255),
            search_highlight: Color::Rgb(255, 255, 85),
            preview: Color::Cyan,
        }
    }

    /// The light color scheme: dark text on an off-white background.
    pub fn default_light() -> (res: Self)
        ensures
            res == light_colors(),
    {
        ThemeColors {
            key: Color::Rgb(166, 38, 164),
            string: Color::Rgb(80, 161, 79),
            number: Color::Rgb(152, 104, 1),
            boolean: Color::Rgb(1, 132, 188),
            null: Color::Rgb(160, 30, 170),
            background: Color::Rgb(250, 250, 250),
            foreground: Color::Rgb(56, 58, 66),
            cursor: Color::Rgb(82, 139, 255),
            status_line_bg: Color::Rgb(238, 238, 238),
            status_line_fg: Color::Rgb(56, 58, 66),
            error: Color::Rgb(202, 18, 67),
            warning: Color::Rgb(152, 104, 1),
            info: Color::Rgb(1, 132, 188),
            search_highlight: Color::Rgb(220, 220, 220),
            preview: Color::Rgb(1, 132, 188),
        }
    }
}

} // verus!
