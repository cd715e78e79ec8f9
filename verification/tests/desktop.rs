use yeet::config::CustomApp;
use yeet::desktop::{clean_exec, normalize, App, LaunchStrategy};
use yeet::entry::Descriptor;

fn descriptor(name: &str, command: &str, arguments: &[&str]) -> Descriptor {
    Descriptor {
        name: Some(name.to_string()),
        command: Some(command.to_string()),
        arguments: Some(arguments.iter().map(|a| a.to_string()).collect()),
        icon: None,
        comment: None,
        keywords: Vec::new(),
        terminal: false,
        no_display: false,
        hidden: false,
    }
}

#[test]
fn clean_exec_preserves_plain_commands() {
    assert_eq!(clean_exec("firefox"), "firefox");
    assert_eq!(clean_exec("/usr/bin/app --flag"), "/usr/bin/app --flag");
}

#[test]
fn clean_exec_removes_field_codes() {
    assert_eq!(clean_exec("firefox %u"), "firefox");
    assert_eq!(clean_exec("app %U"), "app");
    assert_eq!(clean_exec("app %f %F"), "app");
    assert_eq!(clean_exec("code %F --new-window"), "code  --new-window");
}

#[test]
fn clean_exec_preserves_escaped_percent() {
    assert_eq!(clean_exec("echo 100%%"), "echo 100%");
    assert_eq!(clean_exec("app --format=%%d"), "app --format=%d");
}

#[test]
fn clean_exec_preserves_non_field_code_percent() {
    assert_eq!(clean_exec("app --ratio=50%x"), "app --ratio=50%x");
    assert_eq!(clean_exec("echo %z"), "echo %z");
}

#[test]
fn clean_exec_handles_trailing_percent() {
    assert_eq!(clean_exec("app %"), "app");
}

#[test]
fn clean_exec_strips_every_field_code() {
    for code in ["f", "F", "u", "U", "d", "D", "n", "N", "i", "c", "k", "v", "m"] {
        assert_eq!(clean_exec(&format!("app %{} end", code)), "app  end");
    }
}

#[test]
fn clean_exec_of_nothing_is_nothing() {
    assert_eq!(clean_exec(""), "");
    assert_eq!(clean_exec("%"), "");
    assert_eq!(clean_exec("   "), "");
    assert_eq!(clean_exec("%u"), "");
}

#[test]
fn clean_exec_trims_unicode_white_space() {
    assert_eq!(clean_exec("\u{a0}\tapp\u{2003}\u{3000}\n"), "app");
    assert_eq!(clean_exec("\u{200b}app"), "\u{200b}app");
}

#[test]
fn clean_exec_reads_percent_units_left_to_right() {
    assert_eq!(clean_exec("a%%%u"), "a%");
    assert_eq!(clean_exec("a%%u"), "a%u");
    assert_eq!(clean_exec("100%% %"), "100%");
}

#[test]
fn custom_apps_are_left_to_a_shell() {
    let custom = CustomApp {
        name: "My Script".to_string(),
        command: "/home/user/scripts/my-script.sh --flag | tee log".to_string(),
        icon: Some("utilities-terminal".to_string()),
        keywords: vec!["script".to_string(), "custom".to_string()],
    };
    let app = App::from_custom(&custom);
    assert_eq!(app.name, "My Script");
    assert_eq!(app.command, "/home/user/scripts/my-script.sh --flag | tee log");
    assert_eq!(app.icon, Some("utilities-terminal".to_string()));
    assert_eq!(app.description, None);
    assert_eq!(app.keywords, vec!["script", "custom"]);
    assert!(!app.runs_in_terminal);
    match app.launch_strategy {
        LaunchStrategy::ShellLine(line) => {
            assert_eq!(line, "/home/user/scripts/my-script.sh --flag | tee log")
        }
        LaunchStrategy::Direct(_) => panic!("a configured application must be a shell line"),
    }
}

#[test]
fn custom_app_with_plain_command_is_still_a_shell_line() {
    let custom = CustomApp {
        name: "Plain".to_string(),
        command: "firefox".to_string(),
        icon: None,
        keywords: Vec::new(),
    };
    assert!(matches!(App::from_custom(&custom).launch_strategy, LaunchStrategy::ShellLine(_)));
}

#[test]
fn descriptors_are_started_directly() {
    let mut d = descriptor("Firefox", "firefox %u", &["firefox"]);
    d.icon = Some("firefox".to_string());
    d.comment = Some("Browse the web".to_string());
    d.keywords = vec!["web".to_string()];
    d.terminal = true;
    let app = normalize(&d).expect("the descriptor stands for an application");
    assert_eq!(app.name, "Firefox");
    assert_eq!(app.command, "firefox");
    assert_eq!(app.icon, Some("firefox".to_string()));
    assert_eq!(app.description, Some("Browse the web".to_string()));
    assert_eq!(app.keywords, vec!["web"]);
    assert!(app.runs_in_terminal);
    match app.launch_strategy {
        LaunchStrategy::Direct(argv) => assert_eq!(argv, vec!["firefox"]),
        LaunchStrategy::ShellLine(_) => panic!("a descriptor must be started directly"),
    }
}

#[test]
fn hidden_descriptors_are_rejected() {
    let mut d = descriptor("Firefox", "firefox", &["firefox"]);
    d.hidden = true;
    assert!(normalize(&d).is_none());
    let mut d = descriptor("Firefox", "firefox", &["firefox"]);
    d.no_display = true;
    assert!(normalize(&d).is_none());
}

#[test]
fn incomplete_descriptors_are_rejected() {
    let mut d = descriptor("Firefox", "firefox", &["firefox"]);
    d.name = None;
    assert!(normalize(&d).is_none());
    let mut d = descriptor("Firefox", "firefox", &["firefox"]);
    d.command = None;
    assert!(normalize(&d).is_none());
    let mut d = descriptor("Firefox", "firefox", &["firefox"]);
    d.arguments = None;
    assert!(normalize(&d).is_none());
    let d = descriptor("Firefox", "%u", &[]);
    assert!(normalize(&d).is_none());
}

#[test]
fn search_text_joins_name_description_and_keywords() {
    let mut d = descriptor("Firefox", "firefox", &["firefox"]);
    d.comment = Some("Browse the web".to_string());
    d.keywords = vec!["web".to_string(), "browser".to_string()];
    let app = normalize(&d).unwrap();
    assert_eq!(app.search_text(), "Firefox Browse the web web browser");
}

#[test]
fn search_text_without_description() {
    let mut d = descriptor("Files", "nautilus", &["nautilus"]);
    d.keywords = vec!["folder".to_string(), "".to_string()];
    let app = normalize(&d).unwrap();
    assert_eq!(app.search_text(), "Files folder ");
    let d = descriptor("Files", "nautilus", &["nautilus"]);
    assert_eq!(normalize(&d).unwrap().search_text(), "Files");
}

#[test]
fn duplicate_keeps_every_field() {
    let mut d = descriptor("Firefox", "firefox", &["firefox", "--new-window"]);
    d.icon = Some("firefox".to_string());
    d.comment = Some("Browse".to_string());
    d.keywords = vec!["web".to_string()];
    d.terminal = true;
    let app = normalize(&d).unwrap();
    let copy = app.duplicate();
    assert_eq!(copy.name, app.name);
    assert_eq!(copy.command, app.command);
    assert_eq!(copy.icon, app.icon);
    assert_eq!(copy.description, app.description);
    assert_eq!(copy.keywords, app.keywords);
    assert_eq!(copy.runs_in_terminal, app.runs_in_terminal);
    match (copy.launch_strategy, app.launch_strategy) {
        (LaunchStrategy::Direct(a), LaunchStrategy::Direct(b)) => assert_eq!(a, b),
        _ => panic!("the strategy changed"),
    }
}
