use usage_dashboard::models::TimeRange;
use usage_dashboard::settings::{DashboardTab, Palette, ThemeMode, ThemeRegistry, ThemeSettings};

#[test]
fn tabs_in_order_with_titles() {
    let tabs = DashboardTab::all();
    assert_eq!(tabs.len(), 5);
    let titles: Vec<&str> = tabs.iter().map(|t| t.title()).collect();
    assert_eq!(titles, vec!["Overview", "Models", "Projects", "Sessions", "Timeline"]);
}

#[test]
fn time_range_labels() {
    assert_eq!(TimeRange::AllTime.label(), "All Time");
    assert_eq!(TimeRange::Last7Days.label(), "7 Days");
    assert_eq!(TimeRange::Last30Days.label(), "30 Days");
}

#[test]
fn theme_effective_mode_and_toggle() {
    let mut s = ThemeSettings::default();
    assert_eq!(s.mode, ThemeMode::System);
    assert!(s.auto_switch);
    assert_eq!(s.effective_mode(Some(ThemeMode::Dark)), ThemeMode::Dark);
    assert_eq!(s.effective_mode(None), ThemeMode::Light);
    s.toggle_mode(Some(ThemeMode::Dark));
    assert_eq!(s.mode, ThemeMode::Light);
    s.toggle_mode(None);
    assert_eq!(s.mode, ThemeMode::Dark);
    s.set_mode(ThemeMode::System);
    s.auto_switch = false;
    assert_eq!(s.effective_mode(Some(ThemeMode::Dark)), ThemeMode::Light);
}

#[test]
fn registry_palette_follows_toggles() {
    let system = Some(ThemeMode::Dark);
    let mut r = ThemeRegistry::new(ThemeSettings::default(), system);
    assert_eq!(r.colors(), Palette::Dark);
    assert!(r.is_dark(system));
    r.toggle_mode(system);
    assert_eq!(r.settings.mode, ThemeMode::Light);
    assert_eq!(r.colors(), Palette::Light);
    assert!(!r.is_dark(system));
    r.toggle_mode(system);
    assert_eq!(r.mode(system), ThemeMode::Dark);
    assert_eq!(r.colors(), Palette::Dark);
}
