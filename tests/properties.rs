use pacmanlog::{transactions, Entry, Message, Transaction};

fn entry(line: &str) -> Entry {
    Entry::parse(line).unwrap()
}

fn group(lines: &[&str]) -> Vec<Transaction> {
    transactions(lines.iter().map(|l| entry(l)).collect())
}

#[test]
fn one_transaction_per_start_marker() {
    let lines = [
        "[2024-01-01T00:00:00+0000] [ALPM] installed early (1)",
        "[2024-01-01T00:00:01+0000] [PACMAN] transaction started",
        "[2024-01-01T00:00:02+0000] [ALPM] installed a (1)",
        "[2024-01-01T00:00:03+0000] [PACMAN] transaction completed",
        "[2024-01-01T00:00:04+0000] [PACMAN] transaction started",
        "[2024-01-01T00:00:05+0000] [PACMAN] transaction started",
        "[2024-01-01T00:00:06+0000] [ALPM] removed b (2)",
    ];
    let starts = lines.iter().filter(|l| l.ends_with("transaction started")).count();
    assert_eq!(group(&lines).len(), starts);
    assert_eq!(starts, 3);
}

#[test]
fn completion_absent_exactly_without_marker() {
    let ts = group(&[
        "[2024-01-01T00:00:00+0000] [PACMAN] transaction started",
        "[2024-01-01T00:00:01+0000] [PACMAN] transaction completed",
        "[2024-01-01T00:00:02+0000] [PACMAN] transaction started",
        "[2024-01-01T00:00:03+0000] [ALPM] installed a (1)",
        "[2024-01-01T00:00:04+0000] [PACMAN] transaction started",
    ]);
    assert_eq!(ts.len(), 3);
    assert!(ts[0].completion().is_some());
    assert!(ts[1].completion().is_none());
    assert!(ts[2].completion().is_none());
}

#[test]
fn last_of_several_completions_kept() {
    let ts = group(&[
        "[2024-01-01T00:00:00+0000] [PACMAN] transaction started",
        "[2024-01-01T00:00:01+0000] [PACMAN] transaction completed",
        "[2024-01-01T00:00:07+0000] [PACMAN] transaction completed",
    ]);
    assert_eq!(ts.len(), 1);
    assert_eq!(ts[0].end().unwrap().second(), 7);
}

#[test]
fn operations_outside_transactions_dropped() {
    let ts = group(&[
        "[2024-01-01T00:00:00+0000] [ALPM] installed before (1)",
        "[2024-01-01T00:00:01+0000] [PACMAN] transaction started",
        "[2024-01-01T00:00:02+0000] [ALPM] installed inside (1)",
        "[2024-01-01T00:00:03+0000] [PACMAN] transaction completed",
        "[2024-01-01T00:00:04+0000] [ALPM] installed after (1)",
        "[2024-01-01T00:00:05+0000] [ALPM] upgraded after (1 -> 2)",
        "[2024-01-01T00:00:06+0000] [ALPM] reinstalled after (1)",
        "[2024-01-01T00:00:07+0000] [ALPM] removed after (1)",
    ]);
    assert_eq!(ts.len(), 1);
    assert_eq!(ts[0].packages(), vec!["inside".to_string()]);
    assert!(ts[0].upgraded().is_empty());
    assert!(ts[0].reinstalled().is_empty());
    assert!(ts[0].removed().is_empty());
}

#[test]
fn retained_and_packages_differ_by_removed() {
    let ts = group(&[
        "[2024-01-01T00:00:00+0000] [PACMAN] transaction started",
        "[2024-01-01T00:00:01+0000] [ALPM] upgraded u (1 -> 2)",
        "[2024-01-01T00:00:02+0000] [ALPM] removed foo (1)",
        "[2024-01-01T00:00:03+0000] [ALPM] installed foo (2)",
        "[2024-01-01T00:00:04+0000] [ALPM] reinstalled r (3)",
        "[2024-01-01T00:00:05+0000] [ALPM] installed i (4)",
    ]);
    let t = &ts[0];
    let packages = t.packages();
    let retained = t.retained();
    assert_eq!(packages, vec!["foo", "i", "r", "foo", "u"]);
    assert_eq!(retained, vec!["foo", "i", "r", "u"]);
    assert!(retained.iter().all(|n| packages.contains(n)));
    let mut rest = packages.clone();
    for n in &retained {
        let k = rest.iter().position(|m| m == n).unwrap();
        rest.remove(k);
    }
    let removed: Vec<String> = t.removed().iter().map(|p| p.name().to_string()).collect();
    assert_eq!(rest, removed);
    assert_eq!(t.len(), 5);
    assert!(!t.is_empty());
}

#[test]
fn other_text_reads_again_as_itself() {
    let m = Message::parse("running 'systemd-update.hook'...").unwrap();
    let Message::Other(text) = &m else { panic!("expected other text") };
    assert_eq!(text, "running 'systemd-update.hook'...");
    assert_eq!(Message::parse(text).unwrap(), m);
}

#[test]
fn hooks_gathered_into_the_pending_transaction() {
    let ts = group(&[
        "[2024-01-01T00:00:00+0000] [ALPM] running 'dropped.hook'...",
        "[2024-01-01T00:00:01+0000] [PACMAN] transaction started",
        "[2024-01-01T00:00:02+0000] [ALPM-SCRIPTLET] generating locales",
        "[2024-01-01T00:00:03+0000] [PACMAN] Running 'pacman -Syu'",
        "[2024-01-01T00:00:04+0000] [PACMAN] transaction completed",
        "[2024-01-01T00:00:05+0000] [ALPM] running 'late.hook'...",
        "[2024-01-01T00:00:06+0000] [PACMAN] starting full system upgrade",
    ]);
    assert_eq!(ts.len(), 1);
    let hooks = ts[0].hooks();
    assert_eq!(hooks.len(), 2);
    assert_eq!(hooks[0].message(), &Message::Other("generating locales".to_string()));
    assert_eq!(hooks[1].message(), &Message::Other("running 'late.hook'...".to_string()));
}

#[test]
fn duplicates_kept_in_order() {
    let ts = group(&[
        "[2024-01-01T00:00:00+0000] [PACMAN] transaction started",
        "[2024-01-01T00:00:01+0000] [ALPM] installed a (1)",
        "[2024-01-01T00:00:02+0000] [ALPM] installed b (1)",
        "[2024-01-01T00:00:03+0000] [ALPM] installed a (1)",
    ]);
    let names: Vec<&str> = ts[0].installed().iter().map(|p| p.name()).collect();
    assert_eq!(names, vec!["a", "b", "a"]);
}

#[test]
fn empty_log_has_no_transaction() {
    assert!(transactions(Vec::new()).is_empty());
}

#[test]
fn begin_and_end_times() {
    let ts = group(&[
        "[2024-03-04T05:06:07+0200] [PACMAN] transaction started",
        "[2024-03-04T05:08:09+0200] [PACMAN] transaction completed",
    ]);
    let begin = ts[0].begin();
    assert_eq!((begin.year(), begin.month(), begin.day()), (2024, 3, 4));
    assert_eq!((begin.hour(), begin.minute(), begin.second()), (5, 6, 7));
    assert_eq!(begin.offset_seconds(), 7200);
    let end = ts[0].end().unwrap();
    assert_eq!((end.minute(), end.second()), (8, 9));
}

#[test]
fn dropping_all_outside_operations_keeps_transactions() {
    let full = [
        "[2024-01-01T00:00:00+0000] [ALPM] installed before (1)",
        "[2024-01-01T00:00:01+0000] [PACMAN] transaction started",
        "[2024-01-01T00:00:02+0000] [ALPM] installed inside (1)",
        "[2024-01-01T00:00:03+0000] [PACMAN] transaction completed",
        "[2024-01-01T00:00:04+0000] [ALPM] removed after (1)",
        "[2024-01-01T00:00:05+0000] [ALPM] running 'late.hook'...",
        "[2024-01-01T00:00:06+0000] [PACMAN] transaction started",
        "[2024-01-01T00:00:07+0000] [ALPM] upgraded next (1 -> 2)",
    ];
    let kept: Vec<&str> = full.iter().enumerate().filter(|(k, _)| *k != 0 && *k != 4).map(|(_, l)| *l).collect();
    assert_eq!(group(&full), group(&kept));
    assert_eq!(group(&full).len(), 2);
}
