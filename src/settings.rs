//! Dashboard tabs and the theme preference.

use vstd::prelude::*;

verus! {

/// The tabs of the dashboard.
#[derive(Clone, Copy, Debug, PartialEq, Eq, Structural)]
pub enum DashboardTab {
    Overview,
    Models,
    Projects,
    Sessions,
    Timeline,
}

impl DashboardTab {
    /// Every tab, in display order.
    pub fn all() -> (r: Vec<Self>)
        ensures
            r@ == seq![
                DashboardTab::Overview,
                DashboardTab::Models,
                DashboardTab::Projects,
                DashboardTab::Sessions,
                DashboardTab::Timeline,
            ],
    {
        let r = vec![
            DashboardTab::Overview,
            DashboardTab::Models,
            DashboardTab::Projects,
            DashboardTab::Sessions,
            DashboardTab::Timeline,
        ];
        assert(r@ =~= seq![
            DashboardTab::Overview,
            DashboardTab::Models,
            DashboardTab::Projects,
            DashboardTab::Sessions,
            DashboardTab::Timeline,
        ]);
        r
    }

    /// The heading of a tab.
    pub open spec fn title_text(self) -> Seq<char> {
        match self {
            DashboardTab::Overview => "Overview"@,
            DashboardTab::Models => "Models"@,
            DashboardTab::Projects => "Projects"@,
            DashboardTab::Sessions => "Sessions"@,
            DashboardTab::Timeline => "Timeline"@,
        }
    }

    pub fn title(&self) -> (r: &'static str)
        ensures
            r@ == self.title_text(),
    {
        match self {
            DashboardTab::Overview => "Overview",
            DashboardTab::Models => "Models",
            DashboardTab::Projects => "Projects",
            DashboardTab::Sessions => "Sessions",
            DashboardTab::Timeline => "Timeline",
        }
    }
}

/// Light, dark, or whatever the system uses.
#[derive(Clone, Copy, Debug, PartialEq, Eq, Structural)]
pub enum ThemeMode {
    Light,
    Dark,
    System,
}

/// The user's theme preference.
#[derive(Clone, Copy, Debug, PartialEq, Eq, Structural)]
pub struct ThemeSettings {
    pub mode: ThemeMode,
    /// Follow the system theme when the mode is `System`.
    pub auto_switch: bool,
}

impl Default for ThemeSettings {
    fn default() -> (r: Self)
        ensures
            r.mode == ThemeMode::System,
            r.auto_switch,
    {
        ThemeSettings { mode: ThemeMode::System, auto_switch: true }
    }
}

/// The mode in effect: an explicit mode as it is; `System` follows the
/// detected system theme when switching is on, else (or when none was
/// detected) light.
pub open spec fn effective_mode_of(s: ThemeSettings, system_theme: Option<ThemeMode>) -> ThemeMode {
    match s.mode {
        ThemeMode::System => if s.auto_switch {
            match system_theme {
                Some(m) => m,
                None => ThemeMode::Light,
            }
        } else {
            ThemeMode::Light
        },
        m => m,
    }
}

/// The mode a toggle switches to from the mode in effect.
pub open spec fn toggled(m: ThemeMode) -> ThemeMode {
    match m {
        ThemeMode::Light => ThemeMode::Dark,
        ThemeMode::Dark => ThemeMode::Light,
        ThemeMode::System => ThemeMode::Light,
    }
}

impl ThemeSettings {
    /// The mode in effect, given the system theme as detected (if any).
    pub fn effective_mode(&self, system_theme: Option<ThemeMode>) -> (r: ThemeMode)
        ensures
            r == effective_mode_of(*self, system_theme),
    {
        match self.mode {
            ThemeMode::System => if self.auto_switch {
                match system_theme {
                    Some(m) => m,
                    None => ThemeMode::Light,
                }
            } else {
                ThemeMode::Light
            },
            m => m,
        }
    }

    /// Chooses a mode.
    pub fn set_mode(&mut self, mode: ThemeMode)
        ensures
            final(self).mode == mode,
            final(self).auto_switch == old(self).auto_switch,
    {
        self.mode = mode;
    }

    /// Switches between light and dark, starting from the mode in effect.
    pub fn toggle_mode(&mut self, system_theme: Option<ThemeMode>)
        ensures
            final(self).mode == toggled(effective_mode_of(*old(self), system_theme)),
            final(self).auto_switch == old(self).auto_switch,
    {
        let new_mode = match self.effective_mode(system_theme) {
            ThemeMode::Light => ThemeMode::Dark,
            ThemeMode::Dark => ThemeMode::Light,
            ThemeMode::System => ThemeMode::Light,
        };
        self.set_mode(new_mode);
    }
}

/// The palette a mode shows: the light one for light and for an
/// unresolved system mode, the dark one for dark.
#[derive(Clone, Copy, Debug, PartialEq, Eq, Structural)]
pub enum Palette {
    Light,
    Dark,
}

pub open spec fn palette_for(mode: ThemeMode) -> Palette {
    match mode {
        ThemeMode::Dark => Palette::Dark,
        _ => Palette::Light,
    }
}

/// The theme state of the running dashboard: the settings and the palette
/// in use.
#[derive(Clone, Copy, Debug)]
pub struct ThemeRegistry {
    pub settings: ThemeSettings,
    pub palette: Palette,
}

impl ThemeRegistry {
    /// The palette of the mode in effect.
    fn palette_of(mode: ThemeMode) -> (r: Palette)
        ensures
            r == palette_for(mode),
    {
        match mode {
            ThemeMode::Dark => Palette::Dark,
            _ => Palette::Light,
        }
    }

    /// The state for loaded settings and the detected system theme.
    pub fn new(settings: ThemeSettings, system_theme: Option<ThemeMode>) -> (r: Self)
        ensures
            r.settings == settings,
            r.palette == palette_for(effective_mode_of(settings, system_theme)),
    {
        ThemeRegistry { settings, palette: Self::palette_of(settings.effective_mode(system_theme)) }
    }

    /// The palette in use.
    pub fn colors(&self) -> (r: Palette)
        ensures
            r == self.palette,
    {
        self.palette
    }

    /// The mode in effect.
    pub fn mode(&self, system_theme: Option<ThemeMode>) -> (r: ThemeMode)
        ensures
            r == effective_mode_of(self.settings, system_theme),
    {
        self.settings.effective_mode(system_theme)
    }

    /// Switches between light and dark, and the palette with it.
    pub fn toggle_mode(&mut self, system_theme: Option<ThemeMode>)
        ensures
            final(self).settings.mode == toggled(effective_mode_of(old(self).settings, system_theme)),
            final(self).settings.auto_switch == old(self).settings.auto_switch,
            final(self).palette == palette_for(effective_mode_of(final(self).settings, system_theme)),
    {
        self.settings.toggle_mode(system_theme);
        self.palette = Self::palette_of(self.settings.effective_mode(system_theme));
    }

    /// The mode in effect is dark.
    pub fn is_dark(&self, system_theme: Option<ThemeMode>) -> (r: bool)
        ensures
            r == (effective_mode_of(self.settings, system_theme) == ThemeMode::Dark),
    {
        match self.mode(system_theme) {
            ThemeMode::Dark => true,
            _ => false,
        }
    }
}

} // verus!
