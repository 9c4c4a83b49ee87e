//! User settings: the directories scanned for importable files and the
//! appearance of the interface.

use vstd::prelude::*;

verus! {

/// The appearance settings.
#[derive(Debug, Clone)]
pub struct ThemeSettings {
    /// Name of the theme preset.
    pub preset: String,
    /// Color overrides: CSS variable name, then color value.
    pub custom_colors: Vec<(String, String)>,
    /// Font family of the text.
    pub font_family: String,
    /// Font size in pixels.
    pub font_size: u32,
    /// Monospace font family.
    pub mono_font: String,
}

/// The preset used when none is set.
pub fn default_theme() -> (r: String)
    ensures
        r@ == "dark"@,
{
    String::from_str("dark")
}

/// The font family used when none is set.
pub fn default_font_family() -> (r: String)
    ensures
        r@ == "Inter, system-ui, -apple-system, sans-serif"@,
{
    String::from_str("Inter, system-ui, -apple-system, sans-serif")
}

/// The font size used when none is set.
pub fn default_font_size() -> (r: u32)
    ensures
        r == 16,
{
    16
}

/// The monospace font family used when none is set.
pub fn default_mono_font() -> (r: String)
    ensures
        r@ == "JetBrains Mono, Fira Code, Consolas, monospace"@,
{
    String::from_str("JetBrains Mono, Fira Code, Consolas, monospace")
}

impl Default for ThemeSettings {
    fn default() -> (r: ThemeSettings)
        ensures
            r.preset@ == "dark"@,
            r.custom_colors@.len() == 0,
            r.font_family@ == "Inter, system-ui, -apple-system, sans-serif"@,
            r.font_size == 16,
            r.mono_font@ == "JetBrains Mono, Fira Code, Consolas, monospace"@,
    {
        ThemeSettings {
            preset: default_theme(),
            custom_colors: Vec::new(),
            font_family: default_font_family(),
            font_size: default_font_size(),
            mono_font: default_mono_font(),
        }
    }
}

/// All settings.
#[derive(Debug, Clone)]
pub struct Config {
    /// Directories selected for scanning.
    pub scan_directories: Vec<String>,
    /// Appearance.
    pub theme: ThemeSettings,
}

impl Default for Config {
    fn default() -> (r: Config)
        ensures
            r.scan_directories@.len() == 0,
            r.theme.font_size == 16,
    {
        Config { scan_directories: Vec::new(), theme: ThemeSettings::default() }
    }
}

impl Config {
    /// Whether any directory is selected for scanning.
    pub fn has_scan_directories(&self) -> (r: bool)
        ensures
            r == (self.scan_directories@.len() > 0),
    {
        self.scan_directories.len() > 0
    }

    /// Selects the directories to scan, replacing the previous selection.
    pub fn set_scan_directories(&mut self, dirs: Vec<String>)
        ensures
            final(self).scan_directories@ == dirs@,
            final(self).theme == old(self).theme,
    {
        self.scan_directories = dirs;
    }

    /// Clears the selection of directories to scan.
    pub fn clear_scan_directories(&mut self)
        ensures
            final(self).scan_directories@.len() == 0,
            final(self).theme == old(self).theme,
    {
        self.scan_directories.clear();
    }
}

} // verus!
