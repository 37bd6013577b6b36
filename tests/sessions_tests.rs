use desk_platform::sessions::{
    available_session_ids, list_sessions, parse_u32_units, session_names, NO_CONSOLE,
};

fn units(s: &str) -> Vec<u16> {
    s.encode_utf16().collect()
}

fn text(u: &[u16]) -> String {
    String::from_utf16(u).unwrap()
}

fn padded(s: &str, total: usize) -> Vec<u16> {
    let mut v = units(s);
    v.resize(total, 0);
    v
}

#[test]
fn console_then_listed_sessions() {
    let listing = padded("Console:1,RDP-Tcp#0:2", 64);
    assert_eq!(available_session_ids(1, &listing), vec![1, 2]);
    let entries = list_sessions(1, &listing);
    assert_eq!(entries.len(), 2);
    assert_eq!(entries[0].sid, 1);
    assert_eq!(text(&entries[0].station), "Console");
    assert_eq!(entries[1].sid, 2);
    assert_eq!(text(&entries[1].station), "RDP-Tcp#0");
}

#[test]
fn malformed_entries_are_skipped() {
    let listing = padded("a:b,c:3:4,d:+5,e:,f:4294967296,g:4294967295, h:6 ", 80);
    assert_eq!(available_session_ids(NO_CONSOLE, &listing), vec![5, 4294967295, 6]);
    let entries = list_sessions(NO_CONSOLE, &listing);
    assert_eq!(text(&entries[2].station), " h");
}

#[test]
fn nul_inside_trailing_space_is_kept() {
    // NULs are trimmed before white space, so this NUL stays in the entry.
    let listing = units("x:7\u{0} ");
    assert_eq!(available_session_ids(NO_CONSOLE, &listing), Vec::<u32>::new());
    assert_eq!(available_session_ids(NO_CONSOLE, &units("x:7 \u{0}")), vec![7]);
}

#[test]
fn empty_listing_leaves_console_only() {
    assert_eq!(available_session_ids(4, &vec![0u16; 16]), vec![4]);
    assert_eq!(available_session_ids(NO_CONSOLE, &vec![]), Vec::<u32>::new());
}

#[test]
fn repeated_ids_are_listed_once() {
    let listing = units("RDP:1,RDP:1,Services:3,Other:3");
    assert_eq!(available_session_ids(1, &listing), vec![1, 3]);
    let entries = list_sessions(1, &listing);
    assert_eq!(text(&entries[1].station), "Services");
}

#[test]
fn number_reading() {
    let s = units("+42|0017|+|x1|4294967295|4294967296");
    assert_eq!(parse_u32_units(&s, 0, 3), Some(42));
    assert_eq!(parse_u32_units(&s, 4, 8), Some(17));
    assert_eq!(parse_u32_units(&s, 9, 10), None);
    assert_eq!(parse_u32_units(&s, 11, 13), None);
    assert_eq!(parse_u32_units(&s, 14, 24), Some(4294967295));
    assert_eq!(parse_u32_units(&s, 25, 35), None);
    assert_eq!(parse_u32_units(&s, 3, 3), None);
}

#[test]
fn display_names_tell_sessions_apart() {
    let entries = list_sessions(1, &units("Console:1,RDP-Tcp:2,RDP-Tcp:12345"));
    let users = vec![units("alice"), vec![], vec![]];
    let names = session_names(&entries, &users, 12345);
    let names: Vec<String> = names.iter().map(|n| text(n)).collect();
    assert_eq!(
        names,
        vec![
            "Console: alice".to_string(),
            "RDP-Tcp (sid = 2)".to_string(),
            "RDP-Tcp (sid = 12345) (running)".to_string(),
        ]
    );
}

#[test]
fn display_names_without_users_or_current() {
    let entries = list_sessions(0, &units("RDP-Tcp:2"));
    let users = vec![vec![], units("bob")];
    let names = session_names(&entries, &users, 0);
    assert_eq!(text(&names[0]), "Console");
    assert_eq!(text(&names[1]), "RDP-Tcp: bob");
}
