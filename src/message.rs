use vstd::prelude::*;

pub mod package;
pub mod upgrade;

pub use package::Package;
pub use upgrade::Upgrade;

use crate::text::{chars_of, range_equals, substring};
use package::{is_package_text, reads_as_package};
use upgrade::{is_upgrade_text, reads_as_upgrade};

verus! {

/// Why a message text could not be read.
#[derive(Clone, Debug, PartialEq, Eq, Hash)]
pub enum Error {
    /// The operand of an install, reinstall or removal is malformed.
    Package(package::Missing),
    /// The operand of an upgrade is malformed.
    Upgrade(upgrade::Missing),
    /// An operation keyword is not followed by its operand.
    MissingParameters,
}

/// What a log entry says.
#[derive(Clone, Debug, PartialEq, Eq, Hash)]
pub enum Message {
    /// A full system upgrade begins.
    StartingFullSystemUpgrade,
    /// A transaction begins.
    TransactionStarted,
    /// A package was installed.
    Installed(Package),
    /// A package was upgraded.
    Upgraded(Upgrade),
    /// A package was reinstalled.
    Reinstalled(Package),
    /// A package was removed.
    Removed(Package),
    /// A transaction ends.
    TransactionCompleted,
    /// Any other text, kept whole.
    Other(String),
}

/// Where the first word of `t` ends: at its first space, or at its end.
pub open spec fn word_end(t: Seq<char>) -> int
    decreases t.len(),
{
    if t.len() == 0 || t[0] == ' ' {
        0
    } else {
        1 + word_end(t.drop_first())
    }
}

/// The first word of `t`.
pub open spec fn command_of(t: Seq<char>) -> Seq<char> {
    t.take(word_end(t))
}

/// What follows the first space of `t`, if `t` has a space.
pub open spec fn operand_of(t: Seq<char>) -> Option<Seq<char>> {
    if word_end(t) < t.len() {
        Some(t.skip(word_end(t) + 1))
    } else {
        None
    }
}

/// `w` is one of the words that name a package operation and take an operand.
pub open spec fn is_operation_word(w: Seq<char>) -> bool {
    w == "installed"@ || w == "upgraded"@ || w == "reinstalled"@ || w == "removed"@
}

/// Reading `t` as a message gives `r`.
///
/// A text whose first word names a package operation gives that operation with the operand
/// read after the first space, or an error where the operand is absent or malformed. The
/// three fixed phrases give their markers, and every other text is kept whole.
pub open spec fn parsed_message(t: Seq<char>, r: Result<Message, Error>) -> bool {
    let cmd = command_of(t);
    if is_operation_word(cmd) {
        match operand_of(t) {
            None => r == Err::<Message, Error>(Error::MissingParameters),
            Some(o) => if cmd == "upgraded"@ {
                match r {
                    Ok(Message::Upgraded(u)) => reads_as_upgrade(o, u@),
                    Err(Error::Upgrade(upgrade::Missing::NameAndVersions(s))) => {
                        !is_upgrade_text(o) && s@ == o
                    },
                    _ => false,
                }
            } else {
                match r {
                    Ok(Message::Installed(p)) => cmd == "installed"@ && reads_as_package(o, p@),
                    Ok(Message::Reinstalled(p)) => cmd == "reinstalled"@ && reads_as_package(o, p@),
                    Ok(Message::Removed(p)) => cmd == "removed"@ && reads_as_package(o, p@),
                    Err(Error::Package(package::Missing::NameAndVersion(s))) => {
                        !is_package_text(o) && s@ == o
                    },
                    _ => false,
                }
            },
        }
    } else if t == "starting full system upgrade"@ {
        r == Ok::<Message, Error>(Message::StartingFullSystemUpgrade)
    } else if t == "transaction started"@ {
        r == Ok::<Message, Error>(Message::TransactionStarted)
    } else if t == "transaction completed"@ {
        r == Ok::<Message, Error>(Message::TransactionCompleted)
    } else {
        r matches Ok(Message::Other(s)) && s@ == t
    }
}

proof fn lemma_word_end(t: Seq<char>, k: int)
    requires
        0 <= k <= t.len(),
        forall|j: int| 0 <= j < k ==> t[j] != ' ',
        k == t.len() || t[k] == ' ',
    ensures
        word_end(t) == k,
    decreases k,
{
    if k > 0 {
        assert forall|j: int| 0 <= j < k - 1 implies t.drop_first()[j] != ' ' by {
            assert(t.drop_first()[j] == t[j + 1]);
        }
        lemma_word_end(t.drop_first(), k - 1);
    }
}

impl Message {
    /// Whether the message installs, upgrades, reinstalls or removes a package.
    pub fn is_operation(&self) -> (r: bool)
        ensures
            r == (self is Installed || self is Upgraded || self is Reinstalled || self is Removed),
    {
        matches!(
            self,
            Message::Installed(_) | Message::Upgraded(_) | Message::Reinstalled(_) | Message::Removed(_)
        )
    }

    /// Reads a message text: an operation keyword with its operand, one of the fixed marker
    /// phrases, or any other text.
    pub fn parse(text: &str) -> (r: Result<Message, Error>)
        ensures
            parsed_message(text@, r),
    {
        let c = chars_of(text);
        let n = c.len();
        let mut k: usize = 0;
        while k < n && c[k] != ' '
            invariant
                c@ == text@,
                n == c@.len(),
                k <= n,
                forall|j: int| 0 <= j < k ==> c@[j] != ' ',
            decreases n - k,
        {
            k += 1;
        }
        proof {
            lemma_word_end(text@, k as int);
            reveal_strlit("installed");
            reveal_strlit("upgraded");
            reveal_strlit("reinstalled");
            reveal_strlit("removed");
        }
        let is_installed = range_equals(&c, 0, k, &chars_of("installed"));
        let is_upgraded = range_equals(&c, 0, k, &chars_of("upgraded"));
        let is_reinstalled = range_equals(&c, 0, k, &chars_of("reinstalled"));
        let is_removed = range_equals(&c, 0, k, &chars_of("removed"));
        if is_installed || is_upgraded || is_reinstalled || is_removed {
            if k == n {
                return Err(Error::MissingParameters);
            }
            let operand = substring(text, k + 1, n);
            if is_upgraded {
                return match Upgrade::parse(operand.as_str()) {
                    Ok(u) => Ok(Message::Upgraded(u)),
                    Err(e) => Err(Error::Upgrade(e)),
                };
            }
            return match Package::parse(operand.as_str()) {
                Ok(p) => if is_installed {
                    Ok(Message::Installed(p))
                } else if is_reinstalled {
                    Ok(Message::Reinstalled(p))
                } else {
                    Ok(Message::Removed(p))
                },
                Err(e) => Err(Error::Package(e)),
            };
        }
        if range_equals(&c, 0, n, &chars_of("starting full system upgrade")) {
            assert(c@.subrange(0, n as int) =~= c@);
            Ok(Message::StartingFullSystemUpgrade)
        } else if range_equals(&c, 0, n, &chars_of("transaction started")) {
            assert(c@.subrange(0, n as int) =~= c@);
            Ok(Message::TransactionStarted)
        } else if range_equals(&c, 0, n, &chars_of("transaction completed")) {
            assert(c@.subrange(0, n as int) =~= c@);
            Ok(Message::TransactionCompleted)
        } else {
            assert(c@.subrange(0, n as int) =~= c@);
            Ok(Message::Other(text.to_owned()))
        }
    }
}

/// Text that reads as no known message reads again as itself: reading the kept text once more
/// gives a message of no known kind holding the same text.
pub proof fn law_other_text_rereads(t: Seq<char>, s: String, r: Result<Message, Error>)
    requires
        parsed_message(t, Ok(Message::Other(s))),
        parsed_message(s@, r),
    ensures
        r matches Ok(Message::Other(again)) && again@ == s@,
{
}

impl core::str::FromStr for Message {
    type Err = Error;

    fn from_str(text: &str) -> Result<Message, Error> {
        Message::parse(text)
    }
}

} // verus!
