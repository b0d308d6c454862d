use pacmanlog::{transactions, Aggregator, Entry, Message, Transaction};

fn entry(line: &str) -> Entry {
    Entry::parse(line).unwrap()
}

fn group(lines: &[&str]) -> Vec<Transaction> {
    transactions(lines.iter().map(|l| entry(l)).collect())
}

#[test]
fn scenario_complete_transaction() {
    let ts = group(&[
        "[2024-01-01T00:00:00+0000] [PACMAN] transaction started",
        "[2024-01-01T00:00:01+0000] [ALPM] installed foo (1.0)",
        "[2024-01-01T00:00:02+0000] [PACMAN] transaction completed",
    ]);
    assert_eq!(ts.len(), 1);
    let t = &ts[0];
    assert_eq!(t.installed().len(), 1);
    assert_eq!(t.installed()[0].name(), "foo");
    assert_eq!(t.installed()[0].version(), "1.0");
    assert!(t.completion().is_some());
    assert_eq!(t.completion().unwrap().message(), &Message::TransactionCompleted);
    assert_eq!(t.start().message(), &Message::TransactionStarted);
}

#[test]
fn scenario_missing_completion() {
    let ts = group(&[
        "[2024-01-01T00:00:00+0000] [PACMAN] transaction started",
        "[2024-01-01T00:00:01+0000] [ALPM] installed foo (1.0)",
    ]);
    assert_eq!(ts.len(), 1);
    assert!(ts[0].completion().is_none());
    assert!(ts[0].end().is_none());
    assert_eq!(ts[0].installed().len(), 1);
    assert_eq!(ts[0].installed()[0].name(), "foo");
    assert_eq!(ts[0].installed()[0].version(), "1.0");
}

#[test]
fn scenario_two_starts() {
    let ts = group(&[
        "[2024-01-01T00:00:00+0000] [PACMAN] transaction started",
        "[2024-01-01T00:00:01+0000] [PACMAN] transaction started",
    ]);
    assert_eq!(ts.len(), 2);
    let first = &ts[0];
    assert!(first.installed().is_empty());
    assert!(first.upgraded().is_empty());
    assert!(first.reinstalled().is_empty());
    assert!(first.removed().is_empty());
    assert!(first.completion().is_none());
    assert_eq!(ts[1].begin().second(), 1);
}

#[test]
fn scenario_install_before_any_start() {
    let ts = group(&["[2024-01-01T00:00:00+0000] [ALPM] installed foo (1.0)"]);
    assert!(ts.is_empty());
}

#[test]
fn scenario_upgrade_inside_transaction() {
    let ts = group(&[
        "[2024-01-01T00:00:00+0000] [PACMAN] transaction started",
        "[2024-01-01T00:00:01+0000] [ALPM] upgraded foo (1.0 -> 2.0)",
    ]);
    assert_eq!(ts.len(), 1);
    let t = &ts[0];
    assert_eq!(t.upgraded().len(), 1);
    assert_eq!(t.upgraded()[0].name(), "foo");
    assert_eq!(t.upgraded()[0].old_version(), "1.0");
    assert_eq!(t.upgraded()[0].new_version(), "2.0");
    assert_eq!(t.packages(), vec!["foo".to_string()]);
    assert_eq!(t.retained(), vec!["foo".to_string()]);
}

#[test]
fn scenario_removal_inside_transaction() {
    let ts = group(&[
        "[2024-01-01T00:00:00+0000] [PACMAN] transaction started",
        "[2024-01-01T00:00:01+0000] [ALPM] removed foo (1.0)",
    ]);
    assert_eq!(ts.len(), 1);
    let t = &ts[0];
    assert_eq!(t.removed().len(), 1);
    assert_eq!(t.removed()[0].name(), "foo");
    assert_eq!(t.removed()[0].version(), "1.0");
    assert!(t.packages().contains(&"foo".to_string()));
    assert!(!t.retained().contains(&"foo".to_string()));
}

#[test]
fn aggregator_hands_out_on_next_start_and_at_the_end() {
    let mut a = Aggregator::new();
    assert!(!a.is_within_transaction());
    assert!(a.push(entry("[2024-01-01T00:00:00+0000] [PACMAN] transaction started")).is_none());
    assert!(a.is_within_transaction());
    assert!(a.push(entry("[2024-01-01T00:00:01+0000] [ALPM] installed foo (1.0)")).is_none());
    assert!(a.push(entry("[2024-01-01T00:00:02+0000] [PACMAN] transaction completed")).is_none());
    assert!(!a.is_within_transaction());
    let first = a.push(entry("[2024-01-01T00:00:03+0000] [PACMAN] transaction started"));
    let first = first.expect("the first transaction is handed out");
    assert_eq!(first.installed().len(), 1);
    assert_eq!(first.end().unwrap().second(), 2);
    assert!(a.push(entry("[2024-01-01T00:00:04+0000] [ALPM] removed bar (2.0)")).is_none());
    let last = a.finish().expect("the pending transaction is handed out");
    assert_eq!(last.removed()[0].name(), "bar");
    assert_eq!(last.begin().second(), 3);
}

#[test]
fn aggregator_without_start_hands_out_nothing() {
    let mut a = Aggregator::new();
    assert!(a.push(entry("[2024-01-01T00:00:00+0000] [ALPM] installed foo (1.0)")).is_none());
    assert!(a.push(entry("[2024-01-01T00:00:01+0000] [ALPM] running 'hook'")).is_none());
    assert!(a.finish().is_none());
}
