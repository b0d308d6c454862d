use vstd::prelude::*;

use crate::text::{chars_of, is_single_line, single_line, substring};

verus! {

/// Why a text does not read as `<name> (<version>)`.
#[derive(Clone, Debug, PartialEq, Eq, Hash)]
pub enum Missing {
    /// The text does not read as a name followed by a parenthesized version; it is carried along.
    NameAndVersion(String),
}

/// What a [`Package`] holds.
pub struct PackageView {
    pub name: Seq<char>,
    pub version: Seq<char>,
}

/// A package name together with a version.
#[derive(Clone, Debug, PartialEq, Eq, Hash)]
pub struct Package {
    pub(crate) name: String,
    pub(crate) version: String,
}

impl View for Package {
    type V = PackageView;

    open(crate) spec fn view(&self) -> PackageView {
        PackageView { name: self.name@, version: self.version@ }
    }
}

/// Cutting `t` at `p` reads it as `<name> (<version>)`: the name is `t[0..p]`, then come a space
/// and an opening parenthesis, the version, and a closing parenthesis that ends `t`. Name and
/// version are not empty, and `t` holds no line break.
pub open spec fn package_split(t: Seq<char>, p: int) -> bool {
    &&& single_line(t)
    &&& 1 <= p && p + 3 < t.len()
    &&& t[p] == ' ' && t[p + 1] == '('
    &&& t[t.len() - 1] == ')'
}

/// `t` reads as `<name> (<version>)`.
pub open spec fn is_package_text(t: Seq<char>) -> bool {
    exists|p: int| package_split(t, p)
}

/// `t` reads as `<name> (<version>)` with the name and version of `v`, the name taken as long as
/// it can be.
pub open spec fn reads_as_package(t: Seq<char>, v: PackageView) -> bool {
    let p = v.name.len() as int;
    &&& package_split(t, p)
    &&& v.name == t.take(p)
    &&& v.version == t.subrange(p + 2, t.len() - 1)
    &&& forall|q: int| p < q ==> !#[trigger] package_split(t, q)
}

impl Package {
    /// Returns the package's name.
    pub fn name(&self) -> (r: &str)
        ensures
            r@ == self@.name,
    {
        self.name.as_str()
    }

    /// Returns the package's version.
    pub fn version(&self) -> (r: &str)
        ensures
            r@ == self@.version,
    {
        self.version.as_str()
    }

    /// Reads `text` as `<name> (<version>)`. The name is taken as long as it can be, so that it
    /// may itself hold a parenthesized part.
    pub fn parse(text: &str) -> (r: Result<Package, Missing>)
        ensures
            r is Ok <==> is_package_text(text@),
            r matches Ok(package) ==> reads_as_package(text@, package@),
            r matches Err(Missing::NameAndVersion(t)) ==> t@ == text@,
    {
        let c = chars_of(text);
        let n = c.len();
        if n < 5 || c[n - 1] != ')' || !is_single_line(&c) {
            return Err(Missing::NameAndVersion(text.to_owned()));
        }
        let mut p: usize = n - 4;
        loop
            invariant
                c@ == text@,
                n == c@.len(),
                n >= 5,
                c@[n - 1] == ')',
                single_line(c@),
                1 <= p <= n - 4,
                forall|q: int| p < q ==> !#[trigger] package_split(text@, q),
            decreases p,
        {
            if c[p] == ' ' && c[p + 1] == '(' {
                let package = Package { name: substring(text, 0, p), version: substring(text, p + 2, n - 1) };
                assert(package_split(text@, p as int));
                return Ok(package);
            }
            if p == 1 {
                assert forall|q: int| !package_split(text@, q) by {
                    if package_split(text@, q) && q == 1 {
                        assert(c@[1] == ' ' && c@[2] == '(');
                    }
                }
                return Err(Missing::NameAndVersion(text.to_owned()));
            }
            p -= 1;
        }
    }
}

impl core::str::FromStr for Package {
    type Err = Missing;

    fn from_str(text: &str) -> Result<Package, Missing> {
        Package::parse(text)
    }
}

} // verus!
