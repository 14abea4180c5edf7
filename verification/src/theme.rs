//! The colour theme of the interactive screen and the settings file it is
//! read from.
use vstd::prelude::*;

verus! {

/// A colour of the screen.
#[derive(Clone, Copy, Debug, PartialEq, Eq, Structural)]
pub enum ThemeColor {
    Black,
    Gray,
    Red,
    Rgb(u8, u8, u8),
}

/// The two accent colours: the background of highlights and the text on it.
#[derive(Clone, Copy, Debug, PartialEq, Eq, Structural)]
pub struct Theme {
    pub accent_bg: ThemeColor,
    pub accent_fg: ThemeColor,
}

impl Theme {
    /// Light blue highlights with black text.
    pub open spec fn spec_default() -> Theme {
        Theme { accent_bg: ThemeColor::Rgb(173, 216, 230), accent_fg: ThemeColor::Black }
    }
}

impl Default for Theme {
    fn default() -> (t: Self)
        ensures
            t == Theme::spec_default(),
    {
        Theme { accent_bg: ThemeColor::Rgb(173, 216, 230), accent_fg: ThemeColor::Black }
    }
}

/// A colour of the settings file.
#[derive(Clone, Copy, Debug, PartialEq, Eq, Structural)]
pub struct RgbSetting {
    pub r: u8,
    pub g: u8,
    pub b: u8,
}

impl RgbSetting {
    pub fn to_color(&self) -> (c: ThemeColor)
        ensures
            c == ThemeColor::Rgb(self.r, self.g, self.b),
    {
        ThemeColor::Rgb(self.r, self.g, self.b)
    }
}

/// The contents of the settings file: the accent colour and, optionally, the
/// colour of text on it.
#[derive(Clone, Copy, Debug, PartialEq, Eq, Structural)]
pub struct SettingFile {
    pub accent_color: RgbSetting,
    pub accent_text_color: Option<RgbSetting>,
}

/// The theme that a settings file gives; `None` stands for a file that could
/// not be found, written, read or understood.
pub open spec fn theme_of(parsed: Option<SettingFile>) -> Theme {
    match parsed {
        None => Theme::spec_default(),
        Some(f) => Theme {
            accent_bg: ThemeColor::Rgb(f.accent_color.r, f.accent_color.g, f.accent_color.b),
            accent_fg: match f.accent_text_color {
                Some(c) => ThemeColor::Rgb(c.r, c.g, c.b),
                None => ThemeColor::Black,
            },
        },
    }
}

/// The settings file written where none exists: the default theme.
pub fn default_setting_toml() -> (s: &'static str)
    ensures
        s@ == "[accent_color]\nr = 173\ng = 216\nb = 230\n\n[accent_text_color]\nr = 0\ng = 0\nb = 0\n"@,
{
    "[accent_color]\nr = 173\ng = 216\nb = 230\n\n[accent_text_color]\nr = 0\ng = 0\nb = 0\n"
}

/// The theme from the settings file's contents, or the default theme where
/// there are none.
pub fn load_theme(parsed: Option<SettingFile>) -> (t: Theme)
    ensures
        t == theme_of(parsed),
{
    match parsed {
        None => Theme::default(),
        Some(f) => Theme {
            accent_bg: f.accent_color.to_color(),
            accent_fg: match f.accent_text_color {
                Some(c) => c.to_color(),
                None => ThemeColor::Black,
            },
        },
    }
}

} // verus!
