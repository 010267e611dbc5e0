use o_::console::{
    assert_line, count, count_all_reset, count_reset, debug, error, group, group_collapsed,
    group_end, info, log, print, profile, profile_end, table, time_line, time_stamp,
    time_started, trace, warn, ConsoleState,
};

fn s(v: &[&str]) -> Vec<String> {
    v.iter().map(|x| x.to_string()).collect()
}

#[test]
fn plain_and_marked_lines() {
    let c = ConsoleState::default();
    assert_eq!(log(&c, &s(&["a", "b"])), "a b");
    assert_eq!(print(&c, &s(&["  x  "])), "x");
    assert_eq!(o_::console::println(&c, &s(&[])), "");
    assert_eq!(info(&c, &s(&["hi"])), "ℹ️ hi");
    assert_eq!(warn(&c, &s(&["careful"])), "⚠️ careful");
    assert_eq!(error(&c, &s(&["bad", "thing"])), "❌ bad thing");
    assert_eq!(debug(&c, &s(&[])), "🐛");
}

#[test]
fn groups_indent_only_what_is_not_trimmed() {
    let mut c = ConsoleState::default();
    assert_eq!(group(&mut c, "outer"), "outer");
    assert_eq!(group_collapsed(&mut c, "inner"), "  inner (collapsed)");
    assert_eq!(c.depth(), 2);
    assert_eq!(log(&c, &s(&["x"])), "x");
    assert_eq!(trace(&c, &s(&["a", "b"])), s(&["    Trace:", "      0: a", "      1: b"]));
    assert_eq!(group_end(&mut c), None);
    assert_eq!(group_end(&mut c), None);
    assert_eq!(group_end(&mut c), Some("No group to end".to_string()));
    assert_eq!(c.depth(), 0);
}

#[test]
fn assertions() {
    let c = ConsoleState::default();
    assert_eq!(assert_line(&c, true, &s(&["x"])), None);
    assert_eq!(assert_line(&c, false, &s(&["x", "y"])), Some("❌ x y".to_string()));
    assert_eq!(assert_line(&c, false, &s(&[])), Some("❌ Assertion failed".to_string()));
}

#[test]
fn counters() {
    let mut c = ConsoleState::default();
    assert_eq!(count(&mut c, "a"), "a: 1");
    assert_eq!(count(&mut c, "a"), "a: 2");
    assert_eq!(count(&mut c, "b"), "b: 1");
    assert_eq!(count_reset(&mut c, "a"), "a: 0");
    assert_eq!(count(&mut c, "a"), "a: 1");
    count_all_reset(&mut c);
    assert_eq!(count(&mut c, "b"), "b: 1");
}

#[test]
fn timers_and_profiles() {
    assert_eq!(time_started("t"), "t: timer started");
    assert_eq!(time_line("t", Some(12), false), "t: 12ms");
    assert_eq!(time_line("t", Some(0), true), "t: 0ms - timer ended");
    assert_eq!(time_line("t", None, true), "Timer 't' does not exist");
    assert_eq!(time_stamp("now", 1700000000000), "now: 1700000000000ms");
    assert_eq!(profile("p"), "Profile 'p' started");
    assert_eq!(profile_end("p"), "Profile 'p' ended");
}

#[test]
fn tables_pad_columns() {
    let mut c = ConsoleState::default();
    let rows = vec![s(&["alice", "30"]), s(&["bo", "7"]), s(&["é"])];
    assert_eq!(
        table(&c, &s(&["name", "age"]), &rows),
        s(&["name  | age", "alice | 30 ", "bo    | 7  ", "é    "])
    );
    group(&mut c, "g");
    assert_eq!(table(&c, &s(&["h"]), &[]), s(&["  h"]));
}
