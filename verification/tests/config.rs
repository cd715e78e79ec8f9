use yeet::config::{
    default_anchor_top, default_initial_results, default_max_results, default_min_score,
    default_score_threshold_bits, default_terminal, default_true, default_width, AppearanceConfig,
    AppsConfig, Config, CustomApp, GeneralConfig, SearchConfig,
};

fn strings(items: &[&str]) -> Vec<String> {
    items.iter().map(|s| s.to_string()).collect()
}

fn custom(name: &str) -> CustomApp {
    CustomApp { name: name.to_string(), command: name.to_string(), icon: None, keywords: Vec::new() }
}

fn defaults() -> Config {
    Config {
        general: GeneralConfig::default(),
        appearance: AppearanceConfig::default(),
        search: SearchConfig::default(),
        apps: AppsConfig::default(),
    }
}

#[test]
fn defaults_have_the_documented_values() {
    assert_eq!(default_max_results(), 8);
    assert_eq!(default_initial_results(), 8);
    assert_eq!(default_terminal(), "alacritty");
    assert_eq!(default_width(), 500);
    assert_eq!(default_anchor_top(), 200);
    assert_eq!(default_min_score(), 30);
    assert_eq!(f64::from_bits(default_score_threshold_bits()), 0.6);
    assert!(default_true());
}

#[test]
fn default_sections() {
    let general = GeneralConfig::default();
    assert_eq!(general.monitor, 0);
    assert_eq!(general.max_results, 8);
    assert_eq!(general.initial_results, 8);
    assert_eq!(general.terminal, "alacritty");
    let appearance = AppearanceConfig::default();
    assert_eq!((appearance.width, appearance.anchor_top), (500, 200));
    let search = SearchConfig::default();
    assert_eq!(search.min_score, 30);
    assert_eq!(f64::from_bits(search.score_threshold_bits), 0.6);
    assert!(search.prefer_prefix);
    let apps = AppsConfig::default();
    assert!(apps.extra_dirs.is_empty());
    assert!(apps.exclude.is_empty());
    assert!(apps.favorites.is_empty());
    assert!(apps.custom.is_empty());
}

#[test]
fn merge_takes_the_users_sections() {
    let mut config = defaults();
    let mut user = defaults();
    user.general.max_results = 12;
    user.general.terminal = "kitty".to_string();
    user.general.monitor = 1;
    user.appearance.width = 600;
    user.search.min_score = 5;
    user.search.prefer_prefix = false;
    user.search.score_threshold_bits = 0.25f64.to_bits();
    config.merge(user);
    assert_eq!(config.general.max_results, 12);
    assert_eq!(config.general.initial_results, 8);
    assert_eq!(config.general.terminal, "kitty");
    assert_eq!(config.general.monitor, 1);
    assert_eq!(config.appearance.width, 600);
    assert_eq!(config.appearance.anchor_top, 200);
    assert_eq!(config.search.min_score, 5);
    assert!(!config.search.prefer_prefix);
    assert_eq!(f64::from_bits(config.search.score_threshold_bits), 0.25);
}

#[test]
fn merge_keeps_lists_that_the_user_left_empty() {
    let mut config = defaults();
    config.apps.extra_dirs = strings(&["/opt/apps"]);
    config.apps.exclude = strings(&["htop.desktop"]);
    config.apps.favorites = strings(&["Firefox"]);
    config.apps.custom = vec![custom("built-in")];
    config.merge(defaults());
    assert_eq!(config.apps.extra_dirs, strings(&["/opt/apps"]));
    assert_eq!(config.apps.exclude, strings(&["htop.desktop"]));
    assert_eq!(config.apps.favorites, strings(&["Firefox"]));
    assert_eq!(config.apps.custom.len(), 1);
    assert_eq!(config.apps.custom[0].name, "built-in");
}

#[test]
fn merge_replaces_lists_and_adds_custom_apps() {
    let mut config = defaults();
    config.apps.extra_dirs = strings(&["/opt/apps"]);
    config.apps.exclude = strings(&["htop.desktop"]);
    config.apps.favorites = strings(&["Firefox"]);
    config.apps.custom = vec![custom("built-in")];
    let mut user = defaults();
    user.apps.extra_dirs = strings(&["/home/me/apps", "/srv/apps"]);
    user.apps.exclude = strings(&["nvtop.desktop"]);
    user.apps.favorites = strings(&["Alacritty", "Zed"]);
    user.apps.custom = vec![custom("mine"), custom("other")];
    config.merge(user);
    assert_eq!(config.apps.extra_dirs, strings(&["/home/me/apps", "/srv/apps"]));
    assert_eq!(config.apps.exclude, strings(&["nvtop.desktop"]));
    assert_eq!(config.apps.favorites, strings(&["Alacritty", "Zed"]));
    let names: Vec<&str> = config.apps.custom.iter().map(|c| c.name.as_str()).collect();
    assert_eq!(names, vec!["built-in", "mine", "other"]);
}
