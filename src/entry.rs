use vstd::prelude::*;

use crate::error::Error;
use crate::issuer::Issuer;
use crate::message::{parsed_message, Message};
use crate::text::{chars_of, substring};
use crate::timestamp::{parsed_timestamp, Timestamp, TIME_FORMAT};

verus! {

/// What an [`Entry`] holds.
pub struct EntryView {
    pub timestamp: Timestamp,
    pub issuer: Issuer,
    pub message: Message,
}

/// One line of the log: when, who, and what.
#[derive(Clone, Debug, PartialEq, Eq, Hash)]
pub struct Entry {
    pub(crate) timestamp: Timestamp,
    pub(crate) issuer: Issuer,
    pub(crate) message: Message,
}

impl View for Entry {
    type V = EntryView;

    open(crate) spec fn view(&self) -> EntryView {
        EntryView { timestamp: self.timestamp, issuer: self.issuer, message: self.message }
    }
}

/// `s` holds `] [` at `a`: the timestamp's bracket closes and the issuer's opens.
pub open spec fn separator_at(s: Seq<char>, a: int) -> bool {
    s[a] == ']' && s[a + 1] == ' ' && s[a + 2] == '['
}

/// `s` holds `] ` at `b`: the issuer's bracket closes.
pub open spec fn closer_at(s: Seq<char>, b: int) -> bool {
    s[b] == ']' && s[b + 1] == ' '
}

/// Cutting `s` at `i`, `a` and `b` reads `[<timestamp>] [<issuer>] <message>` from `i` on: `[` at
/// `i`, the timestamp up to `a`, `] [` at `a`, the issuer up to `b`, `] ` at `b`, then the
/// message. Timestamp, issuer and message are not empty and hold no line break.
pub open spec fn line_split(s: Seq<char>, i: int, a: int, b: int) -> bool {
    &&& 0 <= i && i + 1 < a && a + 3 < b && b + 2 < s.len()
    &&& s[i] == '['
    &&& separator_at(s, a)
    &&& closer_at(s, b)
    &&& forall|k: int| i < k <= b + 2 ==> s[k] != '\n'
}

/// `s` holds an entry somewhere.
pub open spec fn is_entry_line(s: Seq<char>) -> bool {
    exists|i: int, a: int, b: int| line_split(s, i, a, b)
}

/// The cut that reading `s` takes: it starts as early as it can, the timestamp ends at the first
/// `] [`, and the issuer at the first `] ` after it, so that the message keeps any brackets.
pub open spec fn first_line_split(s: Seq<char>, i: int, a: int, b: int) -> bool {
    &&& line_split(s, i, a, b)
    &&& forall|i2: int, a2: int, b2: int| #[trigger]
        line_split(s, i2, a2, b2) ==> i < i2 || (i == i2 && (a < a2 || (a2 == a && b <= b2)))
}

/// The message that starts at `from` ends at `e`: at the first line break, or at the end of `s`.
pub open spec fn message_end(s: Seq<char>, from: int, e: int) -> bool {
    &&& from < e <= s.len()
    &&& e == s.len() || s[e] == '\n'
    &&& forall|k: int| from <= k < e ==> s[k] != '\n'
}

/// `token` names `issuer`: one of the three known names, or any other token kept whole.
pub open spec fn names_issuer(token: Seq<char>, issuer: Issuer) -> bool {
    if token == "ALPM"@ {
        issuer == Issuer::Alpm
    } else if token == "ALPM-SCRIPTLET"@ {
        issuer == Issuer::AlpmScriptlet
    } else if token == "PACMAN"@ {
        issuer == Issuer::Pacman
    } else {
        issuer matches Issuer::Other(t) && t@ == token
    }
}

/// Reading an entry from its three parts gives `r`, once the timestamp has been read as `t`.
pub open spec fn assembled_entry(
    t: Timestamp,
    issuer: Seq<char>,
    message: Seq<char>,
    r: Result<Entry, Error>,
) -> bool {
    match r {
        Ok(entry) => {
            &&& entry@.timestamp == t
            &&& names_issuer(issuer, entry@.issuer)
            &&& parsed_message(message, Ok(entry@.message))
        },
        Err(Error::InvalidMessage(e)) => parsed_message(message, Err(e)),
        _ => false,
    }
}

/// Reading `s` as an entry gives `r`.
pub open spec fn parsed_entry(s: Seq<char>, r: Result<Entry, Error>) -> bool {
    if !is_entry_line(s) {
        r matches Err(Error::MalformedEntry(t)) && t@ == s
    } else {
        exists|i: int, a: int, b: int, e: int|
            {
                &&& #[trigger] first_line_split(s, i, a, b)
                &&& #[trigger] message_end(s, b + 2, e)
                &&& match parsed_timestamp(s.subrange(i + 1, a), TIME_FORMAT@) {
                    None => r matches Err(Error::InvalidTimestamp(_)),
                    Some(t) => assembled_entry(
                        t,
                        s.subrange(a + 3, b),
                        s.subrange(b + 2, e),
                        r,
                    ),
                }
            }
    }
}

/// Where a line of `c` that holds position `i` ends: the first line break after `i`, or the end.
fn line_end(c: &Vec<char>, i: usize) -> (e: usize)
    requires
        i < c.len(),
    ensures
        i < e <= c.len(),
        e == c.len() || c@[e as int] == '\n',
        forall|k: int| i < k < e ==> c@[k] != '\n',
{
    let mut e: usize = i + 1;
    while e < c.len() && c[e] != '\n'
        invariant
            i < e <= c.len(),
            forall|k: int| i < k < e ==> c@[k] != '\n',
        decreases c.len() - e,
    {
        e += 1;
    }
    e
}

/// The first `b` from `lo` on where `c` holds `] ` with a character after it before `e`.
fn first_closer(c: &Vec<char>, lo: usize, e: usize) -> (r: Option<usize>)
    requires
        e <= c.len(),
    ensures
        match r {
            Some(b) => lo <= b && b + 3 <= e && closer_at(c@, b as int) && forall|j: int|
                lo <= j < b ==> !#[trigger] closer_at(c@, j),
            None => forall|j: int| lo <= j && j + 3 <= e ==> !#[trigger] closer_at(c@, j),
        },
{
    let mut b: usize = lo;
    while b < e && e - b >= 3
        invariant
            lo <= b,
            e <= c.len(),
            forall|j: int| lo <= j < b ==> !#[trigger] closer_at(c@, j),
        decreases e - b,
    {
        if c[b] == ']' && c[b + 1] == ' ' {
            return Some(b);
        }
        b += 1;
    }
    None
}

/// The first `a` from `lo` up to `hi` where `c` holds `] [`.
fn first_separator(c: &Vec<char>, lo: usize, hi: usize) -> (r: Option<usize>)
    requires
        hi + 3 <= c.len(),
    ensures
        match r {
            Some(a) => lo <= a <= hi && separator_at(c@, a as int) && forall|j: int|
                lo <= j < a ==> !#[trigger] separator_at(c@, j),
            None => forall|j: int| lo <= j <= hi ==> !#[trigger] separator_at(c@, j),
        },
{
    let mut a: usize = lo;
    while a <= hi
        invariant
            lo <= a,
            hi + 3 <= c.len(),
            forall|j: int| lo <= j < a ==> !#[trigger] separator_at(c@, j),
        decreases hi + 1 - a,
    {
        if c[a] == ']' && c[a + 1] == ' ' && c[a + 2] == '[' {
            return Some(a);
        }
        a += 1;
    }
    None
}

/// Finds the cut that reading `c` as an entry takes, with the end of its message.
fn split_line(c: &Vec<char>) -> (r: Option<(usize, usize, usize, usize)>)
    ensures
        match r {
            Some((i, a, b, e)) => first_line_split(c@, i as int, a as int, b as int) && message_end(
                c@,
                b + 2,
                e as int,
            ),
            None => !is_entry_line(c@),
        },
{
    let n = c.len();
    let mut i: usize = 0;
    while i < n
        invariant
            n == c@.len(),
            i <= n,
            forall|i2: int, a2: int, b2: int| #[trigger] line_split(c@, i2, a2, b2) ==> i <= i2,
        decreases n - i,
    {
        if c[i] != '[' {
            i += 1;
            continue;
        }
        let e = line_end(c, i);
        // A cut from `i` ends its timestamp at the first `] [` of the line, and its issuer at the
        // first `] ` after that; a cut from later in the line could also start at `i`.
        if e - i > 8 {
            if let Some(a) = first_separator(c, i + 2, e - 7) {
                if let Some(b) = first_closer(c, a + 4, e) {
                    assert(line_split(c@, i as int, a as int, b as int));
                    assert forall|i2: int, a2: int, b2: int| #[trigger]
                        line_split(c@, i2, a2, b2) implies i < i2 || (i == i2 && (a < a2 || (a2
                        == a && b <= b2))) by {
                        if i2 == i {
                            assert(b2 + 3 <= e) by {
                                if b2 + 3 > e {
                                    assert(c@[e as int] != '\n');
                                }
                            }
                            assert(separator_at(c@, a2));
                            assert(closer_at(c@, b2));
                        }
                    }
                    return Some((i, a, b, e));
                }
            }
        }
        assert forall|i2: int, a2: int, b2: int| #[trigger] line_split(c@, i2, a2, b2) implies e
            <= i2 by {
            if i2 < e {
                assert(b2 + 3 <= e) by {
                    if b2 + 3 > e {
                        assert(c@[e as int] != '\n');
                    }
                }
                assert(line_split(c@, i as int, a2, b2));
                assert(closer_at(c@, b2));
                assert(separator_at(c@, a2));
            }
        }
        i = e;
    }
    None
}

impl Entry {
    /// Builds an entry from its timestamp and the texts of its issuer and message.
    pub fn from_parts(timestamp: Timestamp, issuer: &str, message: &str) -> (r: Result<
        Entry,
        Error,
    >)
        ensures
            assembled_entry(timestamp, issuer@, message@, r),
    {
        let message = match Message::parse(message) {
            Ok(m) => m,
            Err(e) => {
                return Err(Error::InvalidMessage(e));
            },
        };
        Ok(Entry { timestamp, issuer: Issuer::from(issuer.to_owned()), message })
    }

    /// Reads a log line `[<timestamp>] [<issuer>] <message>`. The line is read from its first
    /// `[` that starts an entry; the timestamp runs to the first `] [`, the issuer to the first
    /// `] ` after it, and the message, brackets and all, to the end of the line.
    pub fn parse(line: &str) -> (r: Result<Entry, Error>)
        ensures
            parsed_entry(line@, r),
    {
        let c = chars_of(line);
        match split_line(&c) {
            None => Err(Error::MalformedEntry(line.to_owned())),
            Some((i, a, b, e)) => {
                let timestamp = substring(line, i + 1, a);
                let r = match Timestamp::parse(timestamp.as_str()) {
                    Err(err) => Err(Error::InvalidTimestamp(err)),
                    Ok(t) => Entry::from_parts(
                        t,
                        substring(line, a + 3, b).as_str(),
                        substring(line, b + 2, e).as_str(),
                    ),
                };
                assert(first_line_split(line@, i as int, a as int, b as int));
                assert(message_end(line@, b + 2, e as int));
                r
            },
        }
    }

    /// Returns the entry's timestamp.
    pub fn timestamp(&self) -> (r: Timestamp)
        ensures
            r == self@.timestamp,
    {
        self.timestamp
    }

    /// Returns the entry's issuer.
    pub fn issuer(&self) -> (r: &Issuer)
        ensures
            *r == self@.issuer,
    {
        &self.issuer
    }

    /// Returns the entry's message.
    pub fn message(&self) -> (r: &Message)
        ensures
            *r == self@.message,
    {
        &self.message
    }
}

impl core::str::FromStr for Entry {
    type Err = Error;

    fn from_str(line: &str) -> Result<Entry, Error> {
        Entry::parse(line)
    }
}

} // verus!
