use vstd::prelude::*;

use crate::text::{chars_of, is_single_line, single_line, substring};

verus! {

/// Why a text does not read as `<name> (<old> -> <new>)`.
#[derive(Clone, Debug, PartialEq, Eq, Hash)]
pub enum Missing {
    /// The text does not read as a name followed by a parenthesized pair of versions; it is
    /// carried along.
    NameAndVersions(String),
}

/// What an [`Upgrade`] holds.
pub struct UpgradeView {
    pub name: Seq<char>,
    pub old_version: Seq<char>,
    pub new_version: Seq<char>,
}

/// A package upgrade: a name, the version before and the version after.
#[derive(Clone, Debug, PartialEq, Eq, Hash)]
pub struct Upgrade {
    pub(crate) name: String,
    pub(crate) old_version: String,
    pub(crate) new_version: String,
}

impl View for Upgrade {
    type V = UpgradeView;

    open(crate) spec fn view(&self) -> UpgradeView {
        UpgradeView { name: self.name@, old_version: self.old_version@, new_version: self.new_version@ }
    }
}

/// `t` holds ` (` at `p`.
pub open spec fn opening_at(t: Seq<char>, p: int) -> bool {
    t[p] == ' ' && t[p + 1] == '('
}

/// `t` holds ` -> ` at `q`.
pub open spec fn arrow_at(t: Seq<char>, q: int) -> bool {
    t[q] == ' ' && t[q + 1] == '-' && t[q + 2] == '>' && t[q + 3] == ' '
}

/// Cutting `t` at `p` and `q` reads it as `<name> (<old> -> <new>)`: the name is `t[0..p]`, the
/// old version `t[p+2..q]`, the new one runs from `q+4` to the closing parenthesis that ends
/// `t`. No part is empty, and `t` holds no line break.
pub open spec fn upgrade_split(t: Seq<char>, p: int, q: int) -> bool {
    &&& single_line(t)
    &&& 1 <= p && p + 2 < q && q + 5 < t.len()
    &&& opening_at(t, p)
    &&& arrow_at(t, q)
    &&& t[t.len() - 1] == ')'
}

/// `t` reads as `<name> (<old> -> <new>)`.
pub open spec fn is_upgrade_text(t: Seq<char>) -> bool {
    exists|p: int, q: int| upgrade_split(t, p, q)
}

/// `t` reads as `<name> (<old> -> <new>)` with the parts of `v`: the name is taken as long as
/// it can be, then the old version as long as it can be.
pub open spec fn reads_as_upgrade(t: Seq<char>, v: UpgradeView) -> bool {
    let p = v.name.len() as int;
    let q = p + 2 + v.old_version.len();
    &&& upgrade_split(t, p, q)
    &&& v.name == t.take(p)
    &&& v.old_version == t.subrange(p + 2, q)
    &&& v.new_version == t.subrange(q + 4, t.len() - 1)
    &&& forall|p_alt: int, q_alt: int|
        #[trigger] upgrade_split(t, p_alt, q_alt) ==> p_alt < p || (p_alt == p && q_alt <= q)
}

impl Upgrade {
    /// Returns the name of the upgraded package.
    pub fn name(&self) -> (r: &str)
        ensures
            r@ == self@.name,
    {
        self.name.as_str()
    }

    /// Returns the version before the upgrade.
    pub fn old_version(&self) -> (r: &str)
        ensures
            r@ == self@.old_version,
    {
        self.old_version.as_str()
    }

    /// Returns the version after the upgrade.
    pub fn new_version(&self) -> (r: &str)
        ensures
            r@ == self@.new_version,
    {
        self.new_version.as_str()
    }

    /// Reads `text` as `<name> (<old> -> <new>)`. The name is taken as long as it can be, then
    /// the old version.
    pub fn parse(text: &str) -> (r: Result<Upgrade, Missing>)
        ensures
            r is Ok <==> is_upgrade_text(text@),
            r matches Ok(upgrade) ==> reads_as_upgrade(text@, upgrade@),
            r matches Err(Missing::NameAndVersions(t)) ==> t@ == text@,
    {
        let c = chars_of(text);
        let n = c.len();
        if n < 10 || c[n - 1] != ')' || !is_single_line(&c) {
            return Err(Missing::NameAndVersions(text.to_owned()));
        }
        // The arrow: the last one that leaves room for the other parts.
        let mut q: usize = n - 6;
        loop
            invariant
                c@ == text@,
                n == c@.len(),
                n >= 10,
                4 <= q <= n - 6,
                forall|j: int| q < j <= n - 6 ==> !#[trigger] arrow_at(text@, j),
            ensures
                4 <= q <= n - 6,
                arrow_at(text@, q as int),
                forall|j: int| q < j <= n - 6 ==> !#[trigger] arrow_at(text@, j),
            decreases q,
        {
            if c[q] == ' ' && c[q + 1] == '-' && c[q + 2] == '>' && c[q + 3] == ' ' {
                break;
            }
            if q == 4 {
                assert forall|p_alt: int, q_alt: int| !upgrade_split(text@, p_alt, q_alt) by {
                    if upgrade_split(text@, p_alt, q_alt) {
                        assert(arrow_at(text@, q_alt));
                    }
                }
                return Err(Missing::NameAndVersions(text.to_owned()));
            }
            q -= 1;
        }
        // The opening parenthesis: the last one before that arrow.
        let mut p: usize = q - 3;
        loop
            invariant
                c@ == text@,
                n == c@.len(),
                n >= 10,
                c@[n - 1] == ')',
                single_line(c@),
                4 <= q <= n - 6,
                arrow_at(text@, q as int),
                forall|j: int| q < j <= n - 6 ==> !#[trigger] arrow_at(text@, j),
                1 <= p <= q - 3,
                forall|j: int| p < j <= q - 3 ==> !#[trigger] opening_at(text@, j),
            decreases p,
        {
            if c[p] == ' ' && c[p + 1] == '(' {
                let upgrade = Upgrade {
                    name: substring(text, 0, p),
                    old_version: substring(text, p + 2, q),
                    new_version: substring(text, q + 4, n - 1),
                };
                assert(upgrade_split(text@, p as int, q as int));
                assert forall|p_alt: int, q_alt: int| #[trigger]
                    upgrade_split(text@, p_alt, q_alt) implies p_alt < p || (p_alt == p && q_alt <= q) by {
                    assert(arrow_at(text@, q_alt));
                    assert(opening_at(text@, p_alt));
                }
                return Ok(upgrade);
            }
            if p == 1 {
                assert forall|p_alt: int, q_alt: int| !upgrade_split(text@, p_alt, q_alt) by {
                    if upgrade_split(text@, p_alt, q_alt) {
                        assert(arrow_at(text@, q_alt));
                        assert(opening_at(text@, p_alt));
                    }
                }
                return Err(Missing::NameAndVersions(text.to_owned()));
            }
            p -= 1;
        }
    }
}

impl core::str::FromStr for Upgrade {
    type Err = Missing;

    fn from_str(text: &str) -> Result<Upgrade, Missing> {
        Upgrade::parse(text)
    }
}

} // verus!
