use yeet::desktop::{App, LaunchStrategy};
use yeet::launch::{launch_app, name_to_record, LaunchError};

fn app(strategy: LaunchStrategy, runs_in_terminal: bool) -> App {
    App {
        name: "Editor".to_string(),
        command: "edit".to_string(),
        icon: None,
        description: None,
        keywords: Vec::new(),
        runs_in_terminal,
        launch_strategy: strategy,
    }
}

fn strings(items: &[&str]) -> Vec<String> {
    items.iter().map(|s| s.to_string()).collect()
}

#[test]
fn direct_launch_with_empty_argv_is_invalid_input() {
    let result = launch_app(&app(LaunchStrategy::Direct(Vec::new()), false), "alacritty");
    assert_eq!(result.err(), Some(LaunchError::InvalidInput));
    let result = launch_app(&app(LaunchStrategy::Direct(Vec::new()), true), "alacritty");
    assert_eq!(result.err(), Some(LaunchError::InvalidInput));
}

#[test]
fn direct_launch_runs_the_program_without_a_shell() {
    let a = app(LaunchStrategy::Direct(strings(&["edit", "--new", "a b; rm -rf /"])), false);
    let command = launch_app(&a, "alacritty").unwrap();
    assert_eq!(command.program, "edit");
    assert_eq!(command.arguments, strings(&["--new", "a b; rm -rf /"]));
    let a = app(LaunchStrategy::Direct(strings(&["edit"])), false);
    let command = launch_app(&a, "alacritty").unwrap();
    assert_eq!(command.program, "edit");
    assert!(command.arguments.is_empty());
}

#[test]
fn direct_launch_in_a_terminal_wraps_the_arguments() {
    let a = app(LaunchStrategy::Direct(strings(&["htop", "-d", "5"])), true);
    let command = launch_app(&a, "alacritty").unwrap();
    assert_eq!(command.program, "alacritty");
    assert_eq!(command.arguments, strings(&["-e", "htop", "-d", "5"]));
}

#[test]
fn shell_line_is_handed_to_sh() {
    let a = app(LaunchStrategy::ShellLine("notify-send hi && edit".to_string()), false);
    let command = launch_app(&a, "alacritty").unwrap();
    assert_eq!(command.program, "sh");
    assert_eq!(command.arguments, strings(&["-c", "notify-send hi && edit"]));
}

#[test]
fn shell_line_in_a_terminal_is_wrapped() {
    let a = app(LaunchStrategy::ShellLine("htop -d 5".to_string()), true);
    let command = launch_app(&a, "kitty").unwrap();
    assert_eq!(command.program, "sh");
    assert_eq!(command.arguments, strings(&["-c", "kitty -e htop -d 5"]));
}

#[test]
fn empty_shell_line_is_still_launched() {
    let a = app(LaunchStrategy::ShellLine(String::new()), false);
    let command = launch_app(&a, "").unwrap();
    assert_eq!(command.arguments, strings(&["-c", ""]));
}

#[test]
fn history_is_recorded_only_after_a_spawn() {
    let a = app(LaunchStrategy::ShellLine("edit".to_string()), false);
    assert_eq!(name_to_record(&a, true), Some("Editor".to_string()));
    assert_eq!(name_to_record(&a, false), None);
}
