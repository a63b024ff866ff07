use kaval::control::TerminationError;
use kaval::models::IpAddress;
use kaval::session::should_auto_refresh;
use kaval::{Action, App, KeyInput, Mode, PortEntry, Protocol, ServiceCategory, SortField};

fn entry(port: u16, pid: u32, name: &str, label: Option<&'static str>) -> PortEntry {
    PortEntry {
        protocol: Protocol::Tcp,
        local_addr: IpAddress {
            text: String::from("0.0.0.0"),
            unspecified: true,
            loopback_v4: false,
        },
        port,
        pid,
        process_name: String::from(name),
        process_cmd: String::new(),
        cpu_tenths: 0,
        memory_bytes: 0,
        uptime_secs: 0,
        known_service: label,
        category: ServiceCategory::Unknown,
    }
}

fn push_query(app: &mut App, q: &str) {
    for c in q.chars() {
        app.push_filter_char(c);
    }
}

#[test]
fn port_query_matches_as_substring_of_port_text() {
    let mut app = App::new();
    app.set_entries(vec![
        entry(5432, 1, "postgres", Some("PostgreSQL")),
        entry(54321, 2, "node", None),
        entry(80, 3, "nginx", Some("Nginx")),
    ]);
    push_query(&mut app, "5432");
    // 5432 and 54321 both contain "5432" in their port text
    assert_eq!(app.filtered.len(), 2);
    let ports: Vec<u16> = app.filtered.iter().map(|&i| app.entries[i].port).collect();
    assert_eq!(ports, vec![5432, 54321]);
}

#[test]
fn name_and_label_queries_match_case_insensitively() {
    let mut app = App::new();
    app.set_entries(vec![
        entry(5432, 1, "postgres", None),
        entry(9999, 2, "node", Some("PostgreSQL")),
        entry(80, 3, "nginx", None),
    ]);
    push_query(&mut app, "Postgres");
    assert_eq!(app.filtered.len(), 2);
    let pids: Vec<u32> = app.filtered.iter().map(|&i| app.entries[i].pid).collect();
    assert_eq!(pids, vec![1, 2]);
}

#[test]
fn empty_query_shows_every_entry_in_sort_order() {
    let mut app = App::new();
    app.set_entries(vec![entry(443, 1, "a", None), entry(80, 2, "b", None)]);
    assert_eq!(app.filtered, vec![0, 1]);
    // default order is by ascending port
    assert_eq!(app.entries[0].port, 80);
    assert_eq!(app.entries[1].port, 443);
}

#[test]
fn reapplying_the_same_query_gives_the_same_view() {
    let mut app = App::new();
    app.set_entries(vec![
        entry(5432, 1, "postgres", None),
        entry(80, 2, "nginx", None),
        entry(54321, 3, "node", None),
    ]);
    push_query(&mut app, "54");
    let first = app.filtered.clone();
    app.apply_filter();
    assert_eq!(app.filtered, first);
}

#[test]
fn selection_clamps_when_view_shrinks() {
    let mut app = App::new();
    app.set_entries(vec![
        entry(80, 1, "nginx", None),
        entry(5432, 2, "postgres", None),
        entry(8080, 3, "node", None),
    ]);
    app.move_selection(2);
    assert_eq!(app.selected, Some(2));
    // narrow to one match: the selection clamps to the last valid index
    push_query(&mut app, "postgres");
    assert_eq!(app.filtered.len(), 1);
    assert_eq!(app.selected, Some(0));
}

#[test]
fn selection_clears_when_view_empties() {
    let mut app = App::new();
    app.set_entries(vec![entry(80, 1, "nginx", None)]);
    assert_eq!(app.selected, Some(0));
    push_query(&mut app, "zzz");
    assert_eq!(app.filtered.len(), 0);
    assert_eq!(app.selected, None);
}

#[test]
fn selection_invariant_survives_sort_cycling() {
    let mut app = App::new();
    app.set_entries(vec![
        entry(80, 1, "zeta", None),
        entry(5432, 2, "alpha", None),
        entry(8080, 3, "mid", None),
    ]);
    app.move_selection(5);
    assert_eq!(app.selected, Some(2));
    app.cycle_sort();
    assert_eq!(app.sort_field, SortField::ProcessName);
    let sel = app.selected.unwrap();
    assert!(sel < app.filtered.len());
    assert_eq!(app.entries[0].process_name.as_str(), "alpha");
}

#[test]
fn move_selection_clamps_and_ignores_empty_view() {
    let mut app = App::new();
    app.move_selection(1);
    assert_eq!(app.selected, None);
    app.set_entries(vec![entry(80, 1, "a", None), entry(81, 2, "b", None)]);
    app.move_selection(-5);
    assert_eq!(app.selected, Some(0));
    app.move_selection(100);
    assert_eq!(app.selected, Some(1));
    app.move_selection(-1);
    assert_eq!(app.selected, Some(0));
}

#[test]
fn failed_kill_sets_status_and_forces_no_refresh() {
    let mut app = App::new();
    app.set_entries(vec![entry(80, 1, "nginx", None)]);
    let do_refresh = app.note_kill_result(
        Err(TerminationError::ProcessNotFound),
        999,
        "ghost",
        1234,
        false,
        1_000,
    );
    assert!(!do_refresh);
    let text = app.status_text(1_000).expect("status should be visible");
    assert_eq!(text.as_str(), "Kill failed: Process with PID 999 not found");
}

#[test]
fn successful_kill_sets_status_and_requests_refresh() {
    let mut app = App::new();
    let do_refresh = app.note_kill_result(Ok(()), 42, "node", 3000, false, 5_000);
    assert!(do_refresh);
    let text = app.status_text(5_100).expect("status should be visible");
    assert_eq!(text.as_str(), "Killed node (PID 42) on port 3000");
    let forced = app.note_kill_result(Ok(()), 42, "node", 3000, true, 6_000);
    assert!(forced);
    assert_eq!(app.status_text(6_000).unwrap().as_str(), "Force killed node (PID 42) on port 3000");
}

#[test]
fn permission_denied_message_hints_at_escalation() {
    let mut app = App::new();
    app.note_kill_result(Err(TerminationError::PermissionDenied), 7, "root-thing", 80, true, 0);
    assert_eq!(
        app.status_text(0).unwrap().as_str(),
        "Kill failed: Failed to kill PID 7. Try running with sudo."
    );
}

#[test]
fn status_expires_after_three_seconds() {
    let mut app = App::new();
    app.set_scan_error("boom", 10_000);
    assert_eq!(app.status_text(10_000).unwrap().as_str(), "Scan error: boom");
    assert!(app.status_text(12_999).is_some());
    assert!(app.status_text(13_000).is_none());
}

#[test]
fn scan_error_keeps_existing_entries() {
    let mut app = App::new();
    app.set_entries(vec![entry(80, 1, "nginx", None)]);
    app.set_scan_error("socket table unavailable", 0);
    assert_eq!(app.entries.len(), 1);
    assert_eq!(app.filtered.len(), 1);
    assert_eq!(app.selected, Some(0));
}

#[test]
fn auto_refresh_interval_is_two_seconds() {
    assert!(!should_auto_refresh(1_000, 2_999));
    assert!(should_auto_refresh(1_000, 3_000));
    assert!(should_auto_refresh(1_000, 10_000));
    assert!(!should_auto_refresh(5_000, 1_000));
}

#[test]
fn slash_enters_filter_edit_and_escape_leaves_it() {
    let mut app = App::new();
    app.set_entries(vec![entry(80, 1, "nginx", None)]);
    let a = app.handle_key(KeyInput::Char('/'), 0);
    assert!(matches!(a, Action::Nothing));
    assert_eq!(app.mode, Mode::FilterEdit);
    let a2 = app.handle_key(KeyInput::Char('n'), 0);
    assert!(matches!(a2, Action::Nothing));
    assert_eq!(app.filter_text, vec!['n']);
    let a3 = app.handle_key(KeyInput::Esc, 0);
    assert!(matches!(a3, Action::Nothing));
    assert_eq!(app.mode, Mode::Normal);
    // backspace removed nothing; the query still holds the character
    assert_eq!(app.filter_text, vec!['n']);
}

#[test]
fn kill_confirmation_flow() {
    let mut app = App::new();
    app.set_entries(vec![entry(3000, 77, "node", None)]);
    let a = app.handle_key(KeyInput::CtrlX, 0);
    assert!(matches!(a, Action::Nothing));
    assert_eq!(app.mode, Mode::ConfirmKill { target: 0 });
    // any key other than y cancels without acting
    let cancel = app.handle_key(KeyInput::Char('n'), 0);
    assert!(matches!(cancel, Action::Nothing));
    assert_eq!(app.mode, Mode::Normal);
    // confirming yields a graceful kill of the selected entry
    app.handle_key(KeyInput::CtrlX, 0);
    let confirm = app.handle_key(KeyInput::Char('y'), 0);
    match confirm {
        Action::Kill { pid, forced, name, port } => {
            assert_eq!(pid, 77);
            assert!(!forced);
            assert_eq!(name.as_str(), "node");
            assert_eq!(port, 3000);
        },
        _ => panic!("expected a kill action"),
    }
    assert_eq!(app.mode, Mode::Normal);
}

#[test]
fn force_kill_bypasses_confirmation() {
    let mut app = App::new();
    app.set_entries(vec![entry(3000, 77, "node", None)]);
    let a = app.handle_key(KeyInput::CtrlK, 0);
    match a {
        Action::Kill { pid, forced, .. } => {
            assert_eq!(pid, 77);
            assert!(forced);
        },
        _ => panic!("expected a kill action"),
    }
    assert_eq!(app.mode, Mode::Normal);
}

#[test]
fn kill_shortcut_without_selection_does_nothing() {
    let mut app = App::new();
    let a = app.handle_key(KeyInput::CtrlX, 0);
    assert!(matches!(a, Action::Nothing));
    assert_eq!(app.mode, Mode::Normal);
    let b = app.handle_key(KeyInput::CtrlK, 0);
    assert!(matches!(b, Action::Nothing));
}

#[test]
fn quit_shortcuts() {
    let mut app = App::new();
    assert!(matches!(app.handle_key(KeyInput::CtrlQ, 0), Action::Quit));
    assert!(matches!(app.handle_key(KeyInput::CtrlC, 0), Action::Quit));
    assert!(matches!(app.handle_key(KeyInput::Esc, 0), Action::Quit));
    // escape in filter-edit mode only leaves the mode
    app.handle_key(KeyInput::Char('/'), 0);
    assert!(matches!(app.handle_key(KeyInput::Esc, 0), Action::Nothing));
}

#[test]
fn protocol_toggle_cycles_and_requests_refresh() {
    let mut app = App::new();
    assert!(app.show_tcp && app.show_udp);
    assert!(matches!(app.handle_key(KeyInput::CtrlT, 0), Action::Refresh));
    assert!(app.show_tcp && !app.show_udp);
    app.handle_key(KeyInput::CtrlT, 0);
    assert!(!app.show_tcp && app.show_udp);
    app.handle_key(KeyInput::CtrlT, 0);
    assert!(app.show_tcp && app.show_udp);
}

#[test]
fn manual_refresh_sets_status() {
    let mut app = App::new();
    assert!(matches!(app.handle_key(KeyInput::CtrlR, 500), Action::Refresh));
    assert_eq!(app.status_text(500).unwrap().as_str(), "Refreshed");
}

#[test]
fn sort_shortcut_advances_the_key() {
    let mut app = App::new();
    app.set_entries(vec![entry(80, 1, "b", None), entry(81, 2, "a", None)]);
    app.handle_key(KeyInput::CtrlS, 0);
    assert_eq!(app.sort_field, SortField::ProcessName);
    assert_eq!(app.entries[0].process_name.as_str(), "a");
}

#[test]
fn movement_keys_in_normal_mode() {
    let mut app = App::new();
    app.set_entries(vec![entry(1, 1, "a", None), entry(2, 2, "b", None), entry(3, 3, "c", None)]);
    app.handle_key(KeyInput::Down, 0);
    assert_eq!(app.selected, Some(1));
    app.handle_key(KeyInput::Char('j'), 0);
    assert_eq!(app.selected, Some(2));
    app.handle_key(KeyInput::Char('k'), 0);
    assert_eq!(app.selected, Some(1));
    app.handle_key(KeyInput::Up, 0);
    assert_eq!(app.selected, Some(0));
}

#[test]
fn selected_entry_follows_the_filter_view() {
    let mut app = App::new();
    app.set_entries(vec![
        entry(80, 1, "nginx", None),
        entry(5432, 2, "postgres", None),
    ]);
    push_query(&mut app, "post");
    let e = app.selected_entry().expect("one entry matches");
    assert_eq!(e.pid, 2);
}

#[test]
fn detail_toggle() {
    let mut app = App::new();
    assert!(!app.show_detail);
    app.handle_key(KeyInput::CtrlD, 0);
    assert!(app.show_detail);
    app.handle_key(KeyInput::CtrlD, 0);
    assert!(!app.show_detail);
}
