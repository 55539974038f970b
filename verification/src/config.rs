//! The user's display settings, kept between sessions.
use std::path::PathBuf;
use vstd::prelude::*;
use crate::app::{AccentColor, App, AppView, UiTheme, clamp_font_size};
use crate::model::{copy_string, owned, PresentationView};

verus! {

/// The name of the file, in the working directory, that holds the settings.
pub const SETTINGS_FILE: &'static str = ".slidecli-settings.json";

#[verifier::external_type_specification]
#[verifier::external_body]
pub struct ExPathBuf(PathBuf);

/// The path that `PathBuf::from` makes of the text `s`.
pub uninterp spec fn path_of(s: Seq<char>) -> PathBuf;

/// `PathBuf::from` on a string: the path written as `s`. It depends on `s` alone; a
/// `PathBuf` has no model here, so the result is only named.
#[verifier::external_body]
fn path_from(s: &str) -> (r: PathBuf)
    ensures
        r == path_of(s@),
{
    PathBuf::from(s)
}

/// Where the settings are kept: `SETTINGS_FILE` in the working directory.
pub fn settings_path() -> (r: PathBuf)
    ensures
        r == path_of(SETTINGS_FILE@),
{
    path_from(SETTINGS_FILE)
}

/// The settings that outlive a session.
#[derive(Debug, Clone, PartialEq)]
pub struct UiSettings {
    pub font_name: String,
    pub font_size: u8,
    pub ui_theme: UiTheme,
    pub accent_color: AccentColor,
}

/// The mathematical model of [`UiSettings`].
pub struct UiSettingsView {
    pub font_name: Seq<char>,
    pub font_size: u8,
    pub ui_theme: UiTheme,
    pub accent_color: AccentColor,
}

impl View for UiSettings {
    type V = UiSettingsView;

    open spec fn view(&self) -> UiSettingsView {
        UiSettingsView {
            font_name: self.font_name@,
            font_size: self.font_size,
            ui_theme: self.ui_theme,
            accent_color: self.accent_color,
        }
    }
}

/// The settings of the editor `v`.
pub open spec fn settings_of(v: AppView) -> UiSettingsView {
    UiSettingsView {
        font_name: v.presentation.font_name,
        font_size: v.presentation.font_size,
        ui_theme: v.ui_theme,
        accent_color: v.accent_color,
    }
}

/// The editor `v` with the settings `s` applied; the font size is kept within 8 to 72.
pub open spec fn apply_s(s: UiSettingsView, v: AppView) -> AppView {
    AppView {
        presentation: PresentationView {
            font_name: s.font_name,
            font_size: clamp_font_size(s.font_size as int),
            ..v.presentation
        },
        ui_theme: s.ui_theme,
        accent_color: s.accent_color,
        ..v
    }
}

impl UiSettings {
    /// The settings of `app`.
    pub fn from_app(app: &App) -> (r: UiSettings)
        ensures
            r@ == settings_of(app@),
    {
        UiSettings {
            font_name: copy_string(&app.presentation.font_name),
            font_size: app.presentation.font_size,
            ui_theme: app.ui_theme,
            accent_color: app.accent_color,
        }
    }

    /// Applies these settings to `app`.
    pub fn apply_to_app(&self, app: &mut App)
        ensures
            final(app)@ == apply_s(self@, old(app)@),
    {
        app.presentation.font_name = copy_string(&self.font_name);
        app.presentation.font_size = if self.font_size < 8 {
            8
        } else if self.font_size > 72 {
            72
        } else {
            self.font_size
        };
        app.ui_theme = self.ui_theme;
        app.accent_color = self.accent_color;
    }
}

/// Reading the settings of the editor and applying them again changes nothing.
pub proof fn law_apply_own_settings(v: AppView)
    requires
        8 <= v.presentation.font_size <= 72,
    ensures
        apply_s(settings_of(v), v) == v,
{
}

/// Settings whose font size is within 8 to 72 are read back exactly as applied.
pub proof fn law_settings_read_back(s: UiSettingsView, v: AppView)
    requires
        8 <= s.font_size <= 72,
    ensures
        settings_of(apply_s(s, v)) == s,
{
}

} // verus!
