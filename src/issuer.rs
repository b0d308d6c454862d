use vstd::prelude::*;

use crate::text::{chars_of, range_equals};

verus! {

/// Issuer of a log entry.
#[derive(Clone, Debug, PartialEq, Eq, Hash)]
pub enum Issuer {
    /// Entry was issued by `ALPM`.
    Alpm,
    /// Entry was issued by an `ALPM` scriptlet.
    AlpmScriptlet,
    /// Entry was issued by `pacman`.
    Pacman,
    /// Entry was issued by something else.
    Other(String),
}

/// The issuer that a bracketed token names.
pub open spec fn issuer_of(token: String) -> Issuer {
    if token@ == "ALPM"@ {
        Issuer::Alpm
    } else if token@ == "ALPM-SCRIPTLET"@ {
        Issuer::AlpmScriptlet
    } else if token@ == "PACMAN"@ {
        Issuer::Pacman
    } else {
        Issuer::Other(token)
    }
}

impl From<String> for Issuer {
    /// Classifies a token; an unknown one is kept as it is.
    fn from(token: String) -> (r: Issuer) {
        let c = chars_of(token.as_str());
        let n = c.len();
        if range_equals(&c, 0, n, &chars_of("ALPM")) {
            assert(c@.subrange(0, n as int) =~= c@);
            Issuer::Alpm
        } else if range_equals(&c, 0, n, &chars_of("ALPM-SCRIPTLET")) {
            assert(c@.subrange(0, n as int) =~= c@);
            Issuer::AlpmScriptlet
        } else if range_equals(&c, 0, n, &chars_of("PACMAN")) {
            assert(c@.subrange(0, n as int) =~= c@);
            Issuer::Pacman
        } else {
            assert(c@.subrange(0, n as int) =~= c@);
            Issuer::Other(token)
        }
    }
}

impl vstd::std_specs::convert::FromSpecImpl<String> for Issuer {
    open spec fn obeys_from_spec() -> bool {
        true
    }

    open spec fn from_spec(token: String) -> Issuer {
        issuer_of(token)
    }
}

} // verus!
