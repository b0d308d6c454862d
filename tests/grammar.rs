use pacmanlog::message::package::Missing as PackageMissing;
use pacmanlog::message::upgrade::Missing as UpgradeMissing;
use pacmanlog::message::Error as MessageError;
use pacmanlog::{Entry, Error, Issuer, Message, Package, Timestamp, Upgrade};

#[test]
fn package_reads_name_and_version() {
    let p = Package::parse("linux (6.1.1-arch1-1)").unwrap();
    assert_eq!(p.name(), "linux");
    assert_eq!(p.version(), "6.1.1-arch1-1");
}

#[test]
fn package_name_taken_as_long_as_it_can_be() {
    let p = Package::parse("foo (bar) (1.0)").unwrap();
    assert_eq!(p.name(), "foo (bar)");
    assert_eq!(p.version(), "1.0");
}

#[test]
fn package_malformed_texts() {
    for text in ["foo", "foo (1.0", "foo ()", " (1.0)", "foo(1.0)", "", "foo (1\n.0)"] {
        assert_eq!(
            Package::parse(text),
            Err(PackageMissing::NameAndVersion(text.to_string())),
            "{text:?}"
        );
    }
}

#[test]
fn upgrade_reads_three_parts() {
    let u = Upgrade::parse("glibc (2.36-1 -> 2.36-2)").unwrap();
    assert_eq!(u.name(), "glibc");
    assert_eq!(u.old_version(), "2.36-1");
    assert_eq!(u.new_version(), "2.36-2");
}

#[test]
fn upgrade_takes_name_then_old_version_as_long_as_they_can_be() {
    let u = Upgrade::parse("a (x) (1 -> 2 -> 3)").unwrap();
    assert_eq!(u.name(), "a (x)");
    assert_eq!(u.old_version(), "1 -> 2");
    assert_eq!(u.new_version(), "3");
}

#[test]
fn upgrade_malformed_texts() {
    for text in ["foo (1.0)", "foo (1.0 -> )", "foo ( -> 2.0)", "foo (1.0 -> 2.0", "(1 -> 2)"] {
        assert_eq!(
            Upgrade::parse(text),
            Err(UpgradeMissing::NameAndVersions(text.to_string())),
            "{text:?}"
        );
    }
}

#[test]
fn message_operations() {
    let Message::Installed(p) = Message::parse("installed foo (1.0)").unwrap() else { panic!() };
    assert_eq!((p.name(), p.version()), ("foo", "1.0"));
    let Message::Reinstalled(p) = Message::parse("reinstalled foo (1.0)").unwrap() else {
        panic!()
    };
    assert_eq!((p.name(), p.version()), ("foo", "1.0"));
    let Message::Removed(p) = Message::parse("removed foo (1.0)").unwrap() else { panic!() };
    assert_eq!((p.name(), p.version()), ("foo", "1.0"));
    let Message::Upgraded(u) = Message::parse("upgraded foo (1.0 -> 2.0)").unwrap() else {
        panic!()
    };
    assert_eq!((u.name(), u.old_version(), u.new_version()), ("foo", "1.0", "2.0"));
}

#[test]
fn message_markers() {
    assert_eq!(Message::parse("transaction started"), Ok(Message::TransactionStarted));
    assert_eq!(Message::parse("transaction completed"), Ok(Message::TransactionCompleted));
    assert_eq!(
        Message::parse("starting full system upgrade"),
        Ok(Message::StartingFullSystemUpgrade)
    );
    assert_eq!(
        Message::parse("transaction started now"),
        Ok(Message::Other("transaction started now".to_string()))
    );
    assert_eq!(Message::parse(""), Ok(Message::Other(String::new())));
}

#[test]
fn message_errors() {
    assert_eq!(Message::parse("installed"), Err(MessageError::MissingParameters));
    assert_eq!(Message::parse("removed"), Err(MessageError::MissingParameters));
    assert_eq!(
        Message::parse("installed foo"),
        Err(MessageError::Package(PackageMissing::NameAndVersion("foo".to_string())))
    );
    assert_eq!(
        Message::parse("installed "),
        Err(MessageError::Package(PackageMissing::NameAndVersion(String::new())))
    );
    assert_eq!(
        Message::parse("upgraded foo (1.0)"),
        Err(MessageError::Upgrade(UpgradeMissing::NameAndVersions("foo (1.0)".to_string())))
    );
}

#[test]
fn issuer_classification() {
    assert_eq!(Issuer::from("ALPM".to_string()), Issuer::Alpm);
    assert_eq!(Issuer::from("ALPM-SCRIPTLET".to_string()), Issuer::AlpmScriptlet);
    assert_eq!(Issuer::from("PACMAN".to_string()), Issuer::Pacman);
    assert_eq!(Issuer::from("alpm".to_string()), Issuer::Other("alpm".to_string()));
}

#[test]
fn entry_reads_three_parts() {
    let e = Entry::parse("[2024-01-02T03:04:05+0000] [ALPM-SCRIPTLET] installed foo (1.0)").unwrap();
    assert_eq!(e.issuer(), &Issuer::AlpmScriptlet);
    let Message::Installed(p) = e.message() else { panic!() };
    assert_eq!(p.name(), "foo");
    let t = e.timestamp();
    assert_eq!((t.year(), t.month(), t.day(), t.hour(), t.minute(), t.second()), (2024, 1, 2, 3, 4, 5));
    assert_eq!(t.offset_seconds(), 0);
}

#[test]
fn entry_message_may_hold_brackets() {
    let e = Entry::parse("[2024-01-02T03:04:05+0000] [PACMAN] Running 'pacman -S [x]'").unwrap();
    assert_eq!(e.issuer(), &Issuer::Pacman);
    assert_eq!(e.message(), &Message::Other("Running 'pacman -S [x]'".to_string()));
}

#[test]
fn entry_starts_at_first_bracket() {
    let e = Entry::parse("junk [2024-01-02T03:04:05+0000] [FOO] hello").unwrap();
    assert_eq!(e.issuer(), &Issuer::Other("FOO".to_string()));
    assert_eq!(e.message(), &Message::Other("hello".to_string()));
}

#[test]
fn entry_malformed_line() {
    for line in ["hello", "[2024-01-02T03:04:05+0000] [ALPM]", "[] [ALPM] x", "[t] [] x"] {
        assert_eq!(Entry::parse(line), Err(Error::MalformedEntry(line.to_string())), "{line:?}");
    }
}

#[test]
fn entry_invalid_timestamp() {
    assert!(matches!(
        Entry::parse("[yesterday] [ALPM] installed foo (1.0)"),
        Err(Error::InvalidTimestamp(_))
    ));
    assert!(matches!(
        Entry::parse("[2024-01-02 03:04:05+0000] [ALPM] transaction started"),
        Err(Error::InvalidTimestamp(_))
    ));
}

#[test]
fn entry_invalid_message() {
    assert_eq!(
        Entry::parse("[2024-01-02T03:04:05+0000] [ALPM] installed"),
        Err(Error::InvalidMessage(MessageError::MissingParameters))
    );
}

#[test]
fn timestamp_parts_and_offset() {
    let t = Timestamp::parse("1999-12-31T23:59:58-0130").unwrap();
    assert_eq!(t.year(), 1999);
    assert_eq!(t.month(), 12);
    assert_eq!(t.day(), 31);
    assert_eq!(t.hour(), 23);
    assert_eq!(t.minute(), 59);
    assert_eq!(t.second(), 58);
    assert_eq!(t.offset_seconds(), -5400);
    assert!(Timestamp::parse("1999-13-31T23:59:58+0000").is_err());
    assert!(Timestamp::parse("1999-12-31T23:59:58").is_err());
}

#[test]
fn entry_from_parts() {
    let t = Timestamp::parse("2024-01-02T03:04:05+0000").unwrap();
    let e = Entry::from_parts(t, "ALPM", "removed foo (1.0)").unwrap();
    assert_eq!(e.timestamp(), t);
    assert_eq!(e.issuer(), &Issuer::Alpm);
    assert!(matches!(e.message(), Message::Removed(_)));
    assert_eq!(
        Entry::from_parts(t, "ALPM", "upgraded foo"),
        Err(Error::InvalidMessage(MessageError::Upgrade(UpgradeMissing::NameAndVersions(
            "foo".to_string()
        ))))
    );
}

#[test]
fn entry_message_keeps_bracketed_words() {
    let e = Entry::parse("[2024-01-01T00:00:00+0000] [ALPM-SCRIPTLET] foo [bar] baz").unwrap();
    assert_eq!(e.issuer(), &Issuer::AlpmScriptlet);
    assert_eq!(e.message(), &Message::Other("foo [bar] baz".to_string()));
    let e = Entry::parse("[2024-01-01T00:00:00+0000] [ALPM] [x] [y] installed").unwrap();
    assert_eq!(e.issuer(), &Issuer::Alpm);
    assert_eq!(e.message(), &Message::Other("[x] [y] installed".to_string()));
}
