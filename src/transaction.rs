use vstd::prelude::*;

use crate::entry::Entry;
use crate::message::{Message, Package, Upgrade};
use crate::timestamp::Timestamp;

verus! {

/// What a [`Transaction`] holds.
pub struct TransactionView {
    pub start: Entry,
    pub installed: Seq<Package>,
    pub upgraded: Seq<Upgrade>,
    pub reinstalled: Seq<Package>,
    pub removed: Seq<Package>,
    pub completion: Option<Entry>,
    pub hooks: Seq<Entry>,
}

/// The package operations that one transaction of the log performed, between its start marker
/// and, where the log has one, its completion marker.
#[derive(Clone, Debug, PartialEq, Eq, Hash)]
pub struct Transaction {
    pub(crate) start: Entry,
    pub(crate) installed: Vec<Package>,
    pub(crate) upgraded: Vec<Upgrade>,
    pub(crate) reinstalled: Vec<Package>,
    pub(crate) removed: Vec<Package>,
    pub(crate) completion: Option<Entry>,
    pub(crate) hooks: Vec<Entry>,
}

impl View for Transaction {
    type V = TransactionView;

    open(crate) spec fn view(&self) -> TransactionView {
        TransactionView {
            start: self.start,
            installed: self.installed@,
            upgraded: self.upgraded@,
            reinstalled: self.reinstalled@,
            removed: self.removed@,
            completion: self.completion,
            hooks: self.hooks@,
        }
    }
}

/// The names of the packages in `ps`, in order.
pub open spec fn package_names(ps: Seq<Package>) -> Seq<Seq<char>> {
    ps.map_values(|p: Package| p@.name)
}

/// The names of the upgraded packages in `us`, in order.
pub open spec fn upgrade_names(us: Seq<Upgrade>) -> Seq<Seq<char>> {
    us.map_values(|u: Upgrade| u@.name)
}

impl TransactionView {
    /// The start is a start marker, and the completion, if any, a completion marker.
    pub open spec fn wf(self) -> bool {
        &&& self.start@.message is TransactionStarted
        &&& self.completion matches Some(c) ==> c@.message is TransactionCompleted
    }

    /// The names of all packages that the transaction touched: installed, reinstalled,
    /// removed, then upgraded.
    pub open spec fn package_names(self) -> Seq<Seq<char>> {
        package_names(self.installed) + package_names(self.reinstalled) + package_names(
            self.removed,
        ) + upgrade_names(self.upgraded)
    }

    /// The names of the packages that the system keeps: installed, reinstalled, then upgraded.
    pub open spec fn retained_names(self) -> Seq<Seq<char>> {
        package_names(self.installed) + package_names(self.reinstalled) + upgrade_names(
            self.upgraded,
        )
    }
}

/// Appends the names of `ps` to `names`.
fn push_package_names(names: &mut Vec<String>, ps: &Vec<Package>)
    ensures
        final(names)@.map_values(|s: String| s@) == old(names)@.map_values(|s: String| s@)
            + package_names(ps@),
{
    let ghost start = names@.map_values(|s: String| s@);
    let mut k: usize = 0;
    while k < ps.len()
        invariant
            k <= ps.len(),
            names@.map_values(|s: String| s@) == start + package_names(ps@.take(k as int)),
        decreases ps.len() - k,
    {
        let name = ps[k].name().to_owned();
        let ghost prev = names@;
        names.push(name);
        proof {
            assert(ps@.take(k + 1) =~= ps@.take(k as int).push(ps@[k as int]));
            assert(names@.map_values(|s: String| s@) =~= prev.map_values(|s: String| s@).push(
                ps@[k as int]@.name,
            ));
            assert(package_names(ps@.take(k + 1)) =~= package_names(ps@.take(k as int)).push(
                ps@[k as int]@.name,
            ));
        }
        k += 1;
    }
    assert(ps@.take(ps.len() as int) =~= ps@);
}

/// Appends the names of `us` to `names`.
fn push_upgrade_names(names: &mut Vec<String>, us: &Vec<Upgrade>)
    ensures
        final(names)@.map_values(|s: String| s@) == old(names)@.map_values(|s: String| s@)
            + upgrade_names(us@),
{
    let ghost start = names@.map_values(|s: String| s@);
    let mut k: usize = 0;
    while k < us.len()
        invariant
            k <= us.len(),
            names@.map_values(|s: String| s@) == start + upgrade_names(us@.take(k as int)),
        decreases us.len() - k,
    {
        let name = us[k].name().to_owned();
        let ghost prev = names@;
        names.push(name);
        proof {
            assert(us@.take(k + 1) =~= us@.take(k as int).push(us@[k as int]));
            assert(names@.map_values(|s: String| s@) =~= prev.map_values(|s: String| s@).push(
                us@[k as int]@.name,
            ));
            assert(upgrade_names(us@.take(k + 1)) =~= upgrade_names(us@.take(k as int)).push(
                us@[k as int]@.name,
            ));
        }
        k += 1;
    }
    assert(us@.take(us.len() as int) =~= us@);
}

impl Transaction {
    /// Returns the entry that started the transaction.
    pub fn start(&self) -> (r: &Entry)
        ensures
            *r == self@.start,
    {
        &self.start
    }

    /// Returns the entry that completed the transaction, if the log has one.
    pub fn completion(&self) -> (r: Option<&Entry>)
        ensures
            match r {
                Some(c) => self@.completion == Some(*c),
                None => self@.completion is None,
            },
    {
        self.completion.as_ref()
    }

    /// Returns the time at which the transaction started.
    pub fn begin(&self) -> (r: Timestamp)
        ensures
            r == self@.start@.timestamp,
    {
        self.start.timestamp()
    }

    /// Returns the time at which the transaction completed, if the log has it.
    pub fn end(&self) -> (r: Option<Timestamp>)
        ensures
            r == match self@.completion {
                Some(c) => Some(c@.timestamp),
                None => None::<Timestamp>,
            },
    {
        match &self.completion {
            Some(c) => Some(c.timestamp()),
            None => None,
        }
    }

    /// Returns the installed packages, in the order of the log.
    pub fn installed(&self) -> (r: &[Package])
        ensures
            r@ == self@.installed,
    {
        self.installed.as_slice()
    }

    /// Returns the upgrades, in the order of the log.
    pub fn upgraded(&self) -> (r: &[Upgrade])
        ensures
            r@ == self@.upgraded,
    {
        self.upgraded.as_slice()
    }

    /// Returns the reinstalled packages, in the order of the log.
    pub fn reinstalled(&self) -> (r: &[Package])
        ensures
            r@ == self@.reinstalled,
    {
        self.reinstalled.as_slice()
    }

    /// Returns the removed packages, in the order of the log.
    pub fn removed(&self) -> (r: &[Package])
        ensures
            r@ == self@.removed,
    {
        self.removed.as_slice()
    }

    /// Returns the hook entries gathered with the transaction, in the order of the log.
    pub fn hooks(&self) -> (r: &[Entry])
        ensures
            r@ == self@.hooks,
    {
        self.hooks.as_slice()
    }

    /// Returns the names of all packages that the transaction touched: installed, reinstalled,
    /// removed, then upgraded.
    pub fn packages(&self) -> (r: Vec<String>)
        ensures
            r@.map_values(|s: String| s@) == self@.package_names(),
    {
        let mut names: Vec<String> = Vec::new();
        push_package_names(&mut names, &self.installed);
        push_package_names(&mut names, &self.reinstalled);
        push_package_names(&mut names, &self.removed);
        push_upgrade_names(&mut names, &self.upgraded);
        assert(names@.map_values(|s: String| s@) =~= self@.package_names());
        names
    }

    /// Returns the names of the packages that the system keeps after the transaction:
    /// installed, reinstalled, then upgraded.
    pub fn retained(&self) -> (r: Vec<String>)
        ensures
            r@.map_values(|s: String| s@) == self@.retained_names(),
    {
        let mut names: Vec<String> = Vec::new();
        push_package_names(&mut names, &self.installed);
        push_package_names(&mut names, &self.reinstalled);
        push_upgrade_names(&mut names, &self.upgraded);
        assert(names@.map_values(|s: String| s@) =~= self@.retained_names());
        names
    }

    /// Returns how many package operations the transaction holds.
    pub fn len(&self) -> (r: usize)
        ensures
            r == self@.package_names().len(),
    {
        self.packages().len()
    }

    /// Whether the transaction holds no package operation.
    pub fn is_empty(&self) -> (r: bool)
        ensures
            r == (self@.package_names().len() == 0),
    {
        self.len() == 0
    }
}

/// The retained packages are among those the transaction touched, and what the touched ones
/// hold beyond the retained ones is exactly the removed ones, counting repeats.
pub proof fn law_retained_within_packages(t: TransactionView)
    ensures
        t.retained_names().to_multiset().subset_of(t.package_names().to_multiset()),
        t.package_names().to_multiset().sub(t.retained_names().to_multiset()) == package_names(
            t.removed,
        ).to_multiset(),
        forall|n: Seq<char>| t.retained_names().contains(n) ==> t.package_names().contains(n),
{
    broadcast use vstd::seq_lib::lemma_multiset_commutative;
    broadcast use vstd::multiset::group_multiset_axioms;
    broadcast use vstd::seq_lib::group_to_multiset_ensures;

    let i = package_names(t.installed);
    let r = package_names(t.reinstalled);
    let d = package_names(t.removed);
    let u = upgrade_names(t.upgraded);
    let all = i.to_multiset().add(r.to_multiset()).add(d.to_multiset()).add(u.to_multiset());
    let kept = i.to_multiset().add(r.to_multiset()).add(u.to_multiset());
    assert(t.package_names().to_multiset() =~= all);
    assert(t.retained_names().to_multiset() =~= kept);
    assert(all.sub(kept) =~= d.to_multiset());
    assert forall|n: Seq<char>| t.retained_names().contains(n) implies t.package_names().contains(
        n,
    ) by {
        assert(t.retained_names().to_multiset().count(n) > 0);
        assert(t.package_names().to_multiset().count(n) > 0);
    }
}

} // verus!
