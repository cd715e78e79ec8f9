use yeet::catalog::{build_catalog, discover_apps, read_descriptors, sort_apps, text_precedes, DescriptorFile};
use yeet::config::{AppearanceConfig, AppsConfig, Config, CustomApp, GeneralConfig, SearchConfig};
use yeet::desktop::{App, LaunchStrategy};
use yeet::entry::{read_descriptor, Descriptor};

fn descriptor(name: &str) -> Descriptor {
    Descriptor {
        name: Some(name.to_string()),
        command: Some(format!("{} %u", name.to_lowercase())),
        arguments: Some(vec![name.to_lowercase()]),
        icon: None,
        comment: None,
        keywords: Vec::new(),
        terminal: false,
        no_display: false,
        hidden: false,
    }
}

fn custom(name: &str) -> CustomApp {
    CustomApp { name: name.to_string(), command: format!("{} --run", name), icon: None, keywords: Vec::new() }
}

fn strings(items: &[&str]) -> Vec<String> {
    items.iter().map(|s| s.to_string()).collect()
}

fn names(apps: &[App]) -> Vec<String> {
    apps.iter().map(|a| a.name.clone()).collect()
}

fn file(path: &str, contents: &str) -> DescriptorFile {
    DescriptorFile { path: path.to_string(), contents: contents.to_string() }
}

const FIREFOX: &str = "[Desktop Entry]\nType=Application\nName=Firefox\nName[en]=Firefox Browser\nName[fr]=Renard\nComment=Browse the web\nExec=firefox %u\nIcon=firefox\nTerminal=false\nKeywords=web;browser;\n";

#[test]
fn catalog_puts_favorites_first_then_by_name_without_case() {
    let descriptors = vec![descriptor("Zed"), descriptor("Alacritty"), descriptor("Firefox"), descriptor("ark")];
    let mut apps = AppsConfig::default();
    apps.favorites = strings(&["Zed", "Alacritty"]);
    let listing = build_catalog(&descriptors, &apps);
    assert_eq!(names(&listing), vec!["Alacritty", "Zed", "ark", "Firefox"]);
}

#[test]
fn catalog_without_favorites_is_alphabetical_without_case() {
    let descriptors = vec![descriptor("Zed"), descriptor("alacritty"), descriptor("Firefox"), descriptor("ark")];
    let listing = build_catalog(&descriptors, &AppsConfig::default());
    assert_eq!(names(&listing), vec!["alacritty", "ark", "Firefox", "Zed"]);
}

#[test]
fn catalog_keeps_ties_in_the_order_found() {
    let mut first = descriptor("Editor");
    first.icon = Some("one".to_string());
    let mut second = descriptor("EDITOR");
    second.icon = Some("two".to_string());
    let mut third = descriptor("editor");
    third.icon = Some("three".to_string());
    let listing = build_catalog(&vec![first, second, third], &AppsConfig::default());
    let icons: Vec<String> = listing.iter().map(|a| a.icon.clone().unwrap()).collect();
    assert_eq!(icons, vec!["one", "two", "three"]);
}

#[test]
fn excluded_names_never_appear() {
    let descriptors = vec![descriptor("Zed"), descriptor("Alacritty"), descriptor("Firefox")];
    let mut apps = AppsConfig::default();
    apps.exclude = strings(&["Firefox", "Zed"]);
    apps.favorites = strings(&["Zed"]);
    let listing = build_catalog(&descriptors, &apps);
    assert_eq!(names(&listing), vec!["Alacritty"]);
}

#[test]
fn exclusion_goes_by_the_exact_name() {
    let descriptors = vec![descriptor("Firefox"), descriptor("firefox")];
    let mut apps = AppsConfig::default();
    apps.exclude = strings(&["firefox"]);
    assert_eq!(names(&build_catalog(&descriptors, &apps)), vec!["Firefox"]);
}

#[test]
fn custom_apps_are_not_excluded() {
    let descriptors = vec![descriptor("Firefox")];
    let mut apps = AppsConfig::default();
    apps.exclude = strings(&["Firefox", "Mine"]);
    apps.custom = vec![custom("Mine"), custom("Firefox")];
    let listing = build_catalog(&descriptors, &apps);
    assert_eq!(names(&listing), vec!["Firefox", "Mine"]);
    assert!(listing.iter().all(|a| matches!(a.launch_strategy, LaunchStrategy::ShellLine(_))));
}

#[test]
fn custom_apps_come_after_descriptors_among_ties() {
    let mut apps = AppsConfig::default();
    apps.custom = vec![custom("Editor")];
    let listing = build_catalog(&vec![descriptor("Editor")], &apps);
    assert!(matches!(listing[0].launch_strategy, LaunchStrategy::Direct(_)));
    assert!(matches!(listing[1].launch_strategy, LaunchStrategy::ShellLine(_)));
}

#[test]
fn rejected_descriptors_are_dropped() {
    let mut hidden = descriptor("Hidden");
    hidden.hidden = true;
    let mut nameless = descriptor("Nameless");
    nameless.name = None;
    let mut empty = descriptor("Empty");
    empty.arguments = Some(Vec::new());
    let listing = build_catalog(&vec![hidden, descriptor("Shown"), nameless, empty], &AppsConfig::default());
    assert_eq!(names(&listing), vec!["Shown"]);
}

#[test]
fn empty_catalog() {
    assert!(build_catalog(&Vec::new(), &AppsConfig::default()).is_empty());
}

#[test]
fn sort_apps_orders_by_lower_case_not_by_code_point() {
    let apps: Vec<App> = ["b", "C", "a", "É", "z"].iter().map(|n| App::from_custom(&custom(n))).collect();
    assert_eq!(names(&sort_apps(&apps, &Vec::new())), vec!["a", "b", "C", "z", "É"]);
    assert_eq!(names(&sort_apps(&apps, &strings(&["z", "C"]))), vec!["C", "z", "a", "b", "É"]);
}

#[test]
fn text_order_is_by_code_point_and_length() {
    let v = |s: &str| s.chars().collect::<Vec<char>>();
    assert!(text_precedes(&v(""), &v("")));
    assert!(text_precedes(&v(""), &v("a")));
    assert!(!text_precedes(&v("a"), &v("")));
    assert!(text_precedes(&v("ab"), &v("abc")));
    assert!(!text_precedes(&v("abc"), &v("ab")));
    assert!(text_precedes(&v("abc"), &v("abd")));
    assert!(!text_precedes(&v("b"), &v("abc")));
    assert!(text_precedes(&v("same"), &v("same")));
    for (a, b) in [("z", "é"), ("é", "z"), ("\u{ffff}", "\u{10000}"), ("ab", "a\u{1f600}")] {
        assert_eq!(text_precedes(&v(a), &v(b)), a <= b);
    }
}

#[test]
fn read_descriptor_reads_the_fields_of_an_entry() {
    let d = read_descriptor("/usr/share/applications/firefox.desktop", FIREFOX).unwrap();
    assert_eq!(d.name, Some("Firefox Browser".to_string()));
    assert_eq!(d.command, Some("firefox %u".to_string()));
    assert_eq!(d.arguments, Some(vec!["firefox".to_string()]));
    assert_eq!(d.icon, Some("firefox".to_string()));
    assert_eq!(d.comment, Some("Browse the web".to_string()));
    assert_eq!(d.keywords, vec!["web", "browser", ""]);
    assert!(!d.terminal);
    assert!(!d.no_display);
    assert!(!d.hidden);
}

#[test]
fn read_descriptor_falls_back_to_the_plain_name() {
    let text = "[Desktop Entry]\nName=Editor\nName[de]=Bearbeiter\nExec=edit --new \"%f\"\nTerminal=true\nHidden=true\nNoDisplay=yes\n";
    let d = read_descriptor("/usr/share/applications/editor.desktop", text).unwrap();
    assert_eq!(d.name, Some("Editor".to_string()));
    assert_eq!(d.comment, None);
    assert_eq!(d.icon, None);
    assert!(d.keywords.is_empty());
    assert!(d.terminal);
    assert!(d.hidden);
    assert!(!d.no_display);
    assert_eq!(d.arguments, Some(vec!["edit".to_string(), "--new".to_string(), "\"%f\"".to_string()]));
}

#[test]
fn read_descriptor_resolves_field_codes_in_the_arguments() {
    let text = "[Desktop Entry]\nName=Viewer\nIcon=viewer-icon\nExec=viewer --icon %i --name %c --file %k %F %d\n";
    let d = read_descriptor("/opt/viewer.desktop", text).unwrap();
    assert_eq!(
        d.arguments,
        Some(
            ["viewer", "--icon", "viewer-icon", "--name", "Viewer", "--file", "/opt/viewer.desktop"]
                .iter()
                .map(|s| s.to_string())
                .collect::<Vec<String>>()
        )
    );
}

#[test]
fn read_descriptor_without_a_usable_command() {
    let d = read_descriptor("/a/x.desktop", "[Desktop Entry]\nName=X\n").unwrap();
    assert_eq!(d.command, None);
    assert_eq!(d.arguments, None);
    let d = read_descriptor("/a/x.desktop", "[Desktop Entry]\nName=X\nExec=%u\n").unwrap();
    assert_eq!(d.command, Some("%u".to_string()));
    assert_eq!(d.arguments, None);
    let d = read_descriptor("/a/x.desktop", "[Desktop Entry]\nName=X\nExec=A=b run\n").unwrap();
    assert_eq!(d.arguments, None);
    let d = read_descriptor("/a/x.desktop", "[Desktop Entry]\nName=X\nExec=\"run\n").unwrap();
    assert_eq!(d.arguments, None);
}

#[test]
fn read_descriptor_rejects_what_is_no_descriptor() {
    assert!(read_descriptor("/usr/share/applications/firefox.txt", FIREFOX).is_none());
    assert!(read_descriptor("/a/x.desktop", "Name=X\n[Desktop Entry]\n").is_none());
    assert!(read_descriptor("/a/x.desktop", "[Desktop Entry]\nName=X\\\n").is_none());
}

#[test]
fn read_descriptor_reads_other_groups_as_not_the_entry() {
    let text = "[Desktop Action new]\nName=New\nExec=x --new\n";
    let d = read_descriptor("/a/x.desktop", text).unwrap();
    assert_eq!(d.name, None);
    assert_eq!(d.command, None);
}

#[test]
fn read_descriptors_passes_over_broken_files() {
    let files = vec![
        file("/a/one.desktop", "[Desktop Entry]\nName=One\nExec=one\n"),
        file("/a/broken.desktop", "Name=Broken\n"),
        file("/a/two.desktop", "[Desktop Entry]\nName=Two\nExec=two\n"),
    ];
    let descriptors = read_descriptors(&files);
    let found: Vec<Option<String>> = descriptors.iter().map(|d| d.name.clone()).collect();
    assert_eq!(found, vec![Some("One".to_string()), Some("Two".to_string())]);
}

#[test]
fn discover_apps_builds_the_catalog_from_files() {
    let files = vec![
        file("/usr/share/applications/zed.desktop", "[Desktop Entry]\nName=Zed\nExec=zed %F\n"),
        file("/usr/share/applications/firefox.desktop", FIREFOX),
        file("/usr/share/applications/secret.desktop", "[Desktop Entry]\nName=Secret\nExec=secret\nNoDisplay=true\n"),
        file("/usr/share/applications/htop.desktop", "[Desktop Entry]\nName=Htop\nExec=htop\nTerminal=true\n"),
        file("/usr/share/applications/bad.desktop", "[Desktop Entry]\nName=Bad\nExec=%f\n"),
    ];
    let config = Config {
        general: GeneralConfig::default(),
        appearance: AppearanceConfig::default(),
        search: SearchConfig::default(),
        apps: AppsConfig {
            extra_dirs: Vec::new(),
            exclude: strings(&["Htop"]),
            favorites: strings(&["Zed", "My Script"]),
            custom: vec![custom("My Script")],
        },
    };
    let listing = discover_apps(&config, &files);
    assert_eq!(names(&listing), vec!["My Script", "Zed", "Firefox Browser"]);
    assert_eq!(listing[2].command, "firefox");
    match &listing[1].launch_strategy {
        LaunchStrategy::Direct(argv) => assert_eq!(argv, &vec!["zed".to_string()]),
        LaunchStrategy::ShellLine(_) => panic!("a descriptor must be started directly"),
    }
    match &listing[0].launch_strategy {
        LaunchStrategy::ShellLine(line) => assert_eq!(line, "My Script --run"),
        LaunchStrategy::Direct(_) => panic!("a configured application must be a shell line"),
    }
}

#[test]
fn descriptors_that_share_a_name_are_treated_alike() {
    let mut one = descriptor("Files");
    one.icon = Some("one".to_string());
    let mut two = descriptor("Files");
    two.icon = Some("two".to_string());
    let mut apps = AppsConfig::default();
    apps.favorites = strings(&["Files"]);
    let listing = build_catalog(&vec![descriptor("Alpha"), one, two], &apps);
    let icons: Vec<Option<String>> = listing.iter().map(|a| a.icon.clone()).collect();
    assert_eq!(icons, vec![Some("one".to_string()), Some("two".to_string()), None]);

    let mut one = descriptor("Files");
    one.icon = Some("one".to_string());
    let mut two = descriptor("Files");
    two.icon = Some("two".to_string());
    let mut apps = AppsConfig::default();
    apps.exclude = strings(&["Files"]);
    assert_eq!(names(&build_catalog(&vec![descriptor("Alpha"), one, two], &apps)), vec!["Alpha"]);
}
