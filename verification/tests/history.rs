use yeet::history::{
    compact_events, load_history, parse_events, parse_line, record_launch, render_events,
    sort_events, trim_history, History, HistoryEvent,
};

fn ev(timestamp: u64, name: &str) -> HistoryEvent {
    HistoryEvent { timestamp, name: name.to_string() }
}

fn pairs(events: &[HistoryEvent]) -> Vec<(u64, String)> {
    events.iter().map(|e| (e.timestamp, e.name.clone())).collect()
}

#[test]
fn load_parses_valid_lines() {
    let input = "1000\tfirefox\n2000\tterminal\n3000\tfirefox\n";
    let history = load_history(input);

    assert_eq!(history.len(), 2);
    assert_eq!(history.get("firefox"), Some(3000));
    assert_eq!(history.get("terminal"), Some(2000));
}

#[test]
fn load_skips_malformed_lines() {
    let input = "not_a_number\tfirefox\n\nbadline\n1500\tvalid_app\n";
    let history = load_history(input);

    assert_eq!(history.len(), 1);
    assert_eq!(history.get("valid_app"), Some(1500));
}

#[test]
fn trim_keeps_only_max_lines() {
    let mut content = String::new();
    for i in 0..10u64 {
        content.push_str(&format!("{}\tapp_{}\n", i * 100, i));
    }

    let entries = parse_events(&content);
    assert_eq!(entries.len(), 10);

    let remaining = trim_history(&content, 5).expect("ten events are more than five");
    let line_count = remaining.lines().count();
    assert_eq!(line_count, 5);

    assert!(remaining.contains("app_9"));
    assert!(remaining.contains("app_5"));
    assert!(!remaining.contains("app_0"));
    assert_eq!(remaining, "500\tapp_5\n600\tapp_6\n700\tapp_7\n800\tapp_8\n900\tapp_9\n");
}

#[test]
fn load_keeps_the_latest_time_stamp_whatever_the_order() {
    let history = load_history("3000\tfirefox\n1000\tfirefox\n2000\tfirefox\n");
    assert_eq!(history.len(), 1);
    assert_eq!(history.get("firefox"), Some(3000));
}

#[test]
fn load_of_nothing_is_empty() {
    let history = load_history("");
    assert_eq!(history.len(), 0);
    assert_eq!(history.get("firefox"), None);
}

#[test]
fn load_knows_a_launch_at_time_zero() {
    let history = load_history("0\tfirefox\n");
    assert_eq!(history.get("firefox"), Some(0));
}

#[test]
fn load_reads_a_last_line_without_line_feed() {
    let history = load_history("1\ta\n2\tb");
    assert_eq!(history.get("b"), Some(2));
    assert_eq!(history.len(), 2);
}

#[test]
fn load_drops_a_carriage_return_before_a_line_feed() {
    let history = load_history("1\ta\r\n2\tb\r\n");
    assert_eq!(history.get("a"), Some(1));
    assert_eq!(history.get("b"), Some(2));
    assert_eq!(history.get("a\r"), None);
}

#[test]
fn parse_line_reads_time_stamp_and_name() {
    let e = parse_line("1700000000\tFirefox Web Browser").unwrap();
    assert_eq!(e.timestamp, 1_700_000_000);
    assert_eq!(e.name, "Firefox Web Browser");
}

#[test]
fn parse_line_rejects_what_is_no_event() {
    assert!(parse_line("").is_none());
    assert!(parse_line("badline").is_none());
    assert!(parse_line("not_a_number\tfirefox").is_none());
    assert!(parse_line("\tfirefox").is_none());
    assert!(parse_line("12 \tfirefox").is_none());
    assert!(parse_line(" 12\tfirefox").is_none());
    assert!(parse_line("-12\tfirefox").is_none());
    assert!(parse_line("1.5\tfirefox").is_none());
    assert!(parse_line("+\tfirefox").is_none());
}

#[test]
fn parse_line_wants_exactly_two_fields() {
    assert!(parse_line("12\tfire\tfox").is_none());
    assert!(parse_line("12\t\t").is_none());
    let e = parse_line("12\t").unwrap();
    assert_eq!((e.timestamp, e.name.as_str()), (12, ""));
}

#[test]
fn parse_line_reads_numbers_as_the_standard_library_does() {
    assert_eq!(parse_line("+12\ta").unwrap().timestamp, 12);
    assert_eq!(parse_line("007\ta").unwrap().timestamp, 7);
    assert_eq!(parse_line("0\ta").unwrap().timestamp, 0);
    assert_eq!(parse_line("18446744073709551615\ta").unwrap().timestamp, u64::MAX);
    assert!(parse_line("18446744073709551616\ta").is_none());
    assert!(parse_line("99999999999999999999999\ta").is_none());
    assert!(parse_line("\u{0661}\u{0662}\ta").is_none());
    for text in ["+12", "007", "18446744073709551615", "18446744073709551616", "", "+", "-1", "1_0"] {
        let line = format!("{}\ta", text);
        assert_eq!(parse_line(&line).map(|e| e.timestamp), text.parse::<u64>().ok());
    }
}

#[test]
fn record_launch_writes_one_line() {
    assert_eq!(record_launch(1700000000, "firefox"), "1700000000\tfirefox\n");
    assert_eq!(record_launch(0, "a b"), "0\ta b\n");
    assert_eq!(record_launch(u64::MAX, ""), "18446744073709551615\t\n");
}

#[test]
fn record_then_load_reflects_the_new_event() {
    let before = "1000\tfirefox\n2000\tterminal\n";
    let after = format!("{}{}", before, record_launch(5000, "firefox"));
    let history = load_history(&after);
    assert_eq!(history.get("firefox"), Some(5000));
    assert_eq!(history.get("terminal"), Some(2000));
    assert_eq!(history.len(), 2);

    let after = format!("{}{}", before, record_launch(5000, "editor"));
    let history = load_history(&after);
    assert_eq!(history.get("editor"), Some(5000));
    assert_eq!(history.len(), 3);

    let history = load_history(&record_launch(7, "first"));
    assert_eq!(history.get("first"), Some(7));
}

#[test]
fn record_then_load_keeps_a_later_time_stamp() {
    let after = format!("9000\tfirefox\n{}", record_launch(5000, "firefox"));
    assert_eq!(load_history(&after).get("firefox"), Some(9000));
}

#[test]
fn a_name_with_a_tab_does_not_come_back() {
    let history = load_history(&record_launch(5, "fire\tfox"));
    assert_eq!(history.len(), 0);
}

#[test]
fn history_observes_events_one_by_one() {
    let mut history = History::new();
    assert_eq!(history.len(), 0);
    history.observe(10, "a".to_string());
    history.observe(5, "a".to_string());
    history.observe(7, "b".to_string());
    history.observe(20, "a".to_string());
    assert_eq!(history.get("a"), Some(20));
    assert_eq!(history.get("b"), Some(7));
    assert_eq!(history.get("c"), None);
    assert_eq!(history.len(), 2);
    history.observe_line("30\tb");
    history.observe_line("nonsense");
    assert_eq!(history.get("b"), Some(30));
    assert_eq!(history.len(), 2);
}

#[test]
fn compaction_keeps_the_most_recent_in_ascending_order() {
    let events: Vec<HistoryEvent> =
        [50, 10, 90, 30, 70, 20, 100, 60, 40, 80].iter().map(|t| ev(*t, &format!("app_{}", t))).collect();
    let kept = compact_events(&events, 5);
    assert_eq!(
        pairs(&kept),
        vec![
            (60, "app_60".to_string()),
            (70, "app_70".to_string()),
            (80, "app_80".to_string()),
            (90, "app_90".to_string()),
            (100, "app_100".to_string()),
        ]
    );
}

#[test]
fn compaction_leaves_a_short_ledger_alone() {
    let content = "3\tc\n1\ta\n2\tb\n";
    assert_eq!(trim_history(content, 3), None);
    assert_eq!(trim_history(content, 4), None);
    assert_eq!(trim_history("", 0), None);
    assert_eq!(trim_history("junk\n\n", 0), None);
    let events = parse_events(content);
    let kept = compact_events(&events, 3);
    assert_eq!(pairs(&kept), pairs(&events));
}

#[test]
fn compaction_twice_is_compaction_once() {
    let content = "5\te\n1\ta\n4\td\n2\tb\n3\tc\n";
    let once = trim_history(content, 3).unwrap();
    assert_eq!(once, "3\tc\n4\td\n5\te\n");
    assert_eq!(trim_history(&once, 3), None);
    let events = parse_events(content);
    let kept = compact_events(&events, 3);
    assert_eq!(pairs(&compact_events(&kept, 3)), pairs(&kept));
}

#[test]
fn compaction_to_nothing() {
    assert_eq!(trim_history("1\ta\n", 0), Some(String::new()));
}

#[test]
fn compaction_counts_events_not_lines() {
    assert_eq!(trim_history("1\ta\njunk\n\n2\tb\n", 2), None);
    assert_eq!(trim_history("1\ta\njunk\n\n2\tb\n", 1), Some("2\tb\n".to_string()));
}

#[test]
fn compaction_breaks_ties_by_the_order_of_recording() {
    let events = vec![ev(5, "first"), ev(9, "new"), ev(5, "second"), ev(5, "third"), ev(1, "old")];
    let kept = compact_events(&events, 3);
    assert_eq!(
        pairs(&kept),
        vec![(5, "first".to_string()), (5, "second".to_string()), (9, "new".to_string())]
    );
}

#[test]
fn sorting_is_stable_both_ways() {
    let events = vec![ev(2, "a"), ev(1, "b"), ev(2, "c"), ev(1, "d")];
    assert_eq!(
        pairs(&sort_events(&events, false)),
        vec![(1, "b".to_string()), (1, "d".to_string()), (2, "a".to_string()), (2, "c".to_string())]
    );
    assert_eq!(
        pairs(&sort_events(&events, true)),
        vec![(2, "a".to_string()), (2, "c".to_string()), (1, "b".to_string()), (1, "d".to_string())]
    );
    assert!(sort_events(&Vec::new(), true).is_empty());
}

#[test]
fn render_and_parse_round_trip() {
    let events = vec![ev(3, "c c"), ev(1, "a"), ev(2, "")];
    let content = render_events(&events);
    assert_eq!(content, "3\tc c\n1\ta\n2\t\n");
    assert_eq!(pairs(&parse_events(&content)), pairs(&events));
    assert_eq!(render_events(&Vec::new()), "");
}

#[test]
fn event_duplicate_is_equal() {
    let e = ev(42, "firefox");
    let d = e.duplicate();
    assert_eq!((d.timestamp, d.name), (42, "firefox".to_string()));
}

#[test]
fn a_name_with_a_line_feed_is_cut_in_two() {
    let history = load_history(&record_launch(5, "fire\nfox"));
    assert_eq!(history.get("fire"), Some(5));
    assert_eq!(history.get("fire\nfox"), None);
    assert_eq!(history.len(), 1);
}

#[test]
fn a_line_appended_to_an_unfinished_line_is_lost_with_it() {
    let after = format!("1\ta{}", record_launch(2, "b"));
    let history = load_history(&after);
    assert_eq!(history.len(), 0);
}

#[test]
fn history_entries_lists_every_name_once() {
    let history = load_history("1\tb\n5\ta\n3\tb\n2\ta\n9\tc\n");
    let mut entries: Vec<(String, u64)> =
        history.entries().into_iter().map(|e| (e.name, e.timestamp)).collect();
    entries.sort();
    assert_eq!(
        entries,
        vec![("a".to_string(), 5), ("b".to_string(), 3), ("c".to_string(), 9)]
    );
    assert!(History::new().entries().is_empty());
}
