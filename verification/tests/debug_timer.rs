use std::time::Duration;

use deeper::debug::{DebugTimer, DebugTimerInfo, TimerInfo};

fn labels(infos: &[TimerInfo]) -> Vec<String> {
    infos.iter().map(|t| t.label.clone()).collect()
}

#[test]
fn test() {
    let mut timer = DebugTimer::new();

    assert_eq!(timer.current_gen(), 0);
    assert!(timer.stack_len() == 0);
    assert!(timer.popped_len() == 0);

    timer.push("A");
    assert_eq!(timer.current_gen(), 1);
    timer.push("a1");
    assert_eq!(timer.current_gen(), 2);

    assert_eq!(timer.stack_len(), 2);
    assert!(timer.popped_len() == 0);

    timer.push("a1.b");
    assert_eq!(timer.current_gen(), 3);
    timer.pop();
    assert_eq!(timer.current_gen(), 2);

    assert!(timer.popped_len() != 0);

    timer.pop();
    assert_eq!(timer.current_gen(), 1);

    timer.push("a2");
    assert_eq!(timer.current_gen(), 2);
    timer.pop();
    assert_eq!(timer.current_gen(), 1);

    timer.pop();
    assert_eq!(timer.current_gen(), 0);

    timer.push("B");
    timer.pop();

    assert_eq!(timer.current_gen(), 0);

    timer.push("C");
    timer.push("c1");
    timer.pop();
    timer.push("c2");
    timer.pop();

    let info = timer.finish();

    assert_eq!(labels(&info.roots), vec!["A", "B", "C"]);
    assert_eq!(labels(&info.roots[0].children), vec!["a1", "a2"]);
    assert_eq!(labels(&info.roots[0].children[0].children), vec!["a1.b"]);
    assert!(info.roots[0].children[1].children.is_empty());
    assert!(info.roots[1].children.is_empty());
    assert_eq!(labels(&info.roots[2].children), vec!["c1", "c2"]);
}

#[test]
fn pop_on_empty_timer_changes_nothing() {
    let mut timer = DebugTimer::new();
    timer.pop();
    assert_eq!(timer.current_gen(), 0);
    assert_eq!(timer.stack_len(), 0);
    assert_eq!(timer.popped_len(), 0);
}

#[test]
fn finish_stops_running_timers_innermost_first() {
    let mut timer = DebugTimer::new();
    timer.push("outer");
    timer.push("middle");
    timer.push("inner");
    let info = timer.finish();
    assert_eq!(labels(&info.roots), vec!["outer"]);
    assert_eq!(labels(&info.roots[0].children), vec!["middle"]);
    assert_eq!(labels(&info.roots[0].children[0].children), vec!["inner"]);
}

#[test]
fn push_then_pop_restores_depth() {
    let mut timer = DebugTimer::new();
    timer.push("x");
    let depth = timer.current_gen();
    timer.push("y");
    timer.pop();
    assert_eq!(timer.current_gen(), depth);
    assert_eq!(timer.stack_len(), 1);
    assert_eq!(timer.popped_len(), 1);
}

#[test]
fn grouping_closes_a_tree_after_each_outermost_timer() {
    let d = Duration::from_millis(1);
    let records = vec![
        ("p".to_string(), d, 1),
        ("q".to_string(), d, 0),
        ("r".to_string(), d, 0),
        ("s".to_string(), d, 1),
    ];
    let info = DebugTimerInfo::new(records);
    // the last group has no outermost timer to close it: its last record is its root
    assert_eq!(labels(&info.roots), vec!["q", "r", "s"]);
    assert_eq!(labels(&info.roots[0].children), vec!["p"]);
    assert!(info.roots[2].children.is_empty());
}

#[test]
fn timer_info_takes_the_last_record_as_root() {
    let records = vec![
        ("leaf".to_string(), Duration::from_millis(2), 2),
        ("child".to_string(), Duration::from_millis(3), 1),
        ("root".to_string(), Duration::from_millis(7), 0),
    ];
    let t = TimerInfo::new(&records);
    assert_eq!(t.label, "root");
    assert_eq!(t.duration, Duration::from_millis(7));
    assert_eq!(labels(&t.children), vec!["child"]);
    assert_eq!(t.children[0].duration, Duration::from_millis(3));
    assert_eq!(labels(&t.children[0].children), vec!["leaf"]);
}
