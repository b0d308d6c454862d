use vstd::prelude::*;

use crate::entry::Entry;
use crate::issuer::Issuer;
use crate::message::{Message, Package, Upgrade};
use crate::transaction::{Transaction, TransactionView};

verus! {

/// `e` marks the start of a transaction.
pub open spec fn is_start(e: Entry) -> bool {
    e@.message is TransactionStarted
}

/// `e` marks the completion of a transaction.
pub open spec fn is_completion(e: Entry) -> bool {
    e@.message is TransactionCompleted
}

/// `e` installs, upgrades, reinstalls or removes a package.
pub open spec fn is_operation(e: Entry) -> bool {
    ||| e@.message is Installed
    ||| e@.message is Upgraded
    ||| e@.message is Reinstalled
    ||| e@.message is Removed
}

/// `e` is a hook: a message of no known kind, issued by ALPM or one of its scriptlets.
pub open spec fn is_hook(e: Entry) -> bool {
    &&& e@.message is Other
    &&& (e@.issuer is Alpm || e@.issuer is AlpmScriptlet)
}

/// No entry of `es` marks a start.
pub open spec fn no_start(es: Seq<Entry>) -> bool {
    forall|k: int| 0 <= k < es.len() ==> !is_start(#[trigger] es[k])
}

/// Some entry of `es` marks a completion.
pub open spec fn has_completion(es: Seq<Entry>) -> bool {
    exists|k: int| 0 <= k < es.len() && is_completion(#[trigger] es[k])
}

/// How many entries of `es` mark a start.
pub open spec fn count_starts(es: Seq<Entry>) -> nat
    decreases es.len(),
{
    if es.len() == 0 {
        0
    } else {
        (if is_start(es[0]) { 1nat } else { 0nat }) + count_starts(es.drop_first())
    }
}

/// Where the first start marker of `es` stands, or `es.len()` where it has none.
pub open spec fn first_start(es: Seq<Entry>) -> nat
    decreases es.len(),
{
    if es.len() == 0 || is_start(es[0]) {
        0
    } else {
        1 + first_start(es.drop_first())
    }
}

/// Where the first completion marker of `es` stands, or `es.len()` where it has none.
pub open spec fn first_completion(es: Seq<Entry>) -> nat
    decreases es.len(),
{
    if es.len() == 0 || is_completion(es[0]) {
        0
    } else {
        1 + first_completion(es.drop_first())
    }
}

/// The entries of a transaction's span that come before its first completion marker: the
/// ones whose operations the transaction records.
pub open spec fn open_part(span: Seq<Entry>) -> Seq<Entry> {
    span.take(first_completion(span) as int)
}

/// The packages that the entries of `es` install, in order.
pub open spec fn installed_in(es: Seq<Entry>) -> Seq<Package>
    decreases es.len(),
{
    if es.len() == 0 {
        seq![]
    } else {
        match es.last()@.message {
            Message::Installed(p) => installed_in(es.drop_last()).push(p),
            _ => installed_in(es.drop_last()),
        }
    }
}

/// The upgrades that the entries of `es` perform, in order.
pub open spec fn upgraded_in(es: Seq<Entry>) -> Seq<Upgrade>
    decreases es.len(),
{
    if es.len() == 0 {
        seq![]
    } else {
        match es.last()@.message {
            Message::Upgraded(u) => upgraded_in(es.drop_last()).push(u),
            _ => upgraded_in(es.drop_last()),
        }
    }
}

/// The packages that the entries of `es` reinstall, in order.
pub open spec fn reinstalled_in(es: Seq<Entry>) -> Seq<Package>
    decreases es.len(),
{
    if es.len() == 0 {
        seq![]
    } else {
        match es.last()@.message {
            Message::Reinstalled(p) => reinstalled_in(es.drop_last()).push(p),
            _ => reinstalled_in(es.drop_last()),
        }
    }
}

/// The packages that the entries of `es` remove, in order.
pub open spec fn removed_in(es: Seq<Entry>) -> Seq<Package>
    decreases es.len(),
{
    if es.len() == 0 {
        seq![]
    } else {
        match es.last()@.message {
            Message::Removed(p) => removed_in(es.drop_last()).push(p),
            _ => removed_in(es.drop_last()),
        }
    }
}

/// The hook entries of `es`, in order.
pub open spec fn hooks_in(es: Seq<Entry>) -> Seq<Entry>
    decreases es.len(),
{
    if es.len() == 0 {
        seq![]
    } else if is_hook(es.last()) {
        hooks_in(es.drop_last()).push(es.last())
    } else {
        hooks_in(es.drop_last())
    }
}

/// The last completion marker of `es`, if it has one.
pub open spec fn last_completion(es: Seq<Entry>) -> Option<Entry>
    decreases es.len(),
{
    if es.len() == 0 {
        None
    } else if is_completion(es.last()) {
        Some(es.last())
    } else {
        last_completion(es.drop_last())
    }
}

/// The transaction that the start marker `start` opens, over `span`, the entries that follow it
/// up to the next start marker or the end of the log. It records the operations before the first
/// completion marker of the span, keeps the last completion marker, and gathers all hooks.
pub open spec fn transaction_of(start: Entry, span: Seq<Entry>) -> TransactionView {
    let open = open_part(span);
    TransactionView {
        start,
        installed: installed_in(open),
        upgraded: upgraded_in(open),
        reinstalled: reinstalled_in(open),
        removed: removed_in(open),
        completion: last_completion(span),
        hooks: hooks_in(span),
    }
}

/// The transactions of the log `es`: one for each start marker, in order, each over the entries
/// up to the next start marker. Entries before the first start marker belong to none.
pub open spec fn transactions_of(es: Seq<Entry>) -> Seq<TransactionView>
    decreases es.len(),
{
    if es.len() == 0 {
        seq![]
    } else if is_start(es[0]) {
        let rest = es.drop_first();
        seq![transaction_of(es[0], rest.take(first_start(rest) as int))] + transactions_of(rest)
    } else {
        transactions_of(es.drop_first())
    }
}

/// The transactions of `es` that are known to be finished: all but the last, which a later
/// entry could still change.
pub open spec fn finished_transactions(es: Seq<Entry>) -> Seq<TransactionView> {
    let all = transactions_of(es);
    if all.len() == 0 {
        all
    } else {
        all.drop_last()
    }
}

/// The view of `t` as a sequence of none or one transaction.
pub open spec fn emitted(t: Option<Transaction>) -> Seq<TransactionView> {
    match t {
        Some(t) => seq![t@],
        None => seq![],
    }
}

proof fn lemma_first_start(es: Seq<Entry>)
    ensures
        first_start(es) <= es.len(),
        forall|k: int| 0 <= k < first_start(es) ==> !is_start(#[trigger] es[k]),
        first_start(es) < es.len() ==> is_start(es[first_start(es) as int]),
    decreases es.len(),
{
    if es.len() > 0 && !is_start(es[0]) {
        lemma_first_start(es.drop_first());
        assert forall|k: int| 0 <= k < first_start(es) implies !is_start(#[trigger] es[k]) by {
            if k > 0 {
                assert(es[k] == es.drop_first()[k - 1]);
            }
        }
    }
}

proof fn lemma_first_completion(es: Seq<Entry>)
    ensures
        first_completion(es) <= es.len(),
        forall|k: int| 0 <= k < first_completion(es) ==> !is_completion(#[trigger] es[k]),
        first_completion(es) < es.len() ==> is_completion(es[first_completion(es) as int]),
        first_completion(es) < es.len() <==> has_completion(es),
    decreases es.len(),
{
    if es.len() > 0 && !is_completion(es[0]) {
        lemma_first_completion(es.drop_first());
        assert forall|k: int| 0 <= k < first_completion(es) implies !is_completion(
            #[trigger] es[k],
        ) by {
            if k > 0 {
                assert(es[k] == es.drop_first()[k - 1]);
            }
        }
        if has_completion(es) {
            let k = choose|k: int| 0 <= k < es.len() && is_completion(#[trigger] es[k]);
            assert(es.drop_first()[k - 1] == es[k]);
        }
        if has_completion(es.drop_first()) {
            let k = choose|k: int|
                0 <= k < es.drop_first().len() && is_completion(#[trigger] es.drop_first()[k]);
            assert(es[k + 1] == es.drop_first()[k]);
        }
    }
}

/// Without a start marker, `es` holds no transaction.
proof fn lemma_no_start(es: Seq<Entry>)
    requires
        no_start(es),
    ensures
        transactions_of(es) == Seq::<TransactionView>::empty(),
        first_start(es) == es.len(),
    decreases es.len(),
{
    lemma_first_start(es);
    if es.len() > 0 {
        assert(!is_start(es[0]));
        assert forall|k: int| 0 <= k < es.drop_first().len() implies !is_start(
            #[trigger] es.drop_first()[k],
        ) by {
            assert(es.drop_first()[k] == es[k + 1]);
        }
        lemma_no_start(es.drop_first());
    }
}

proof fn lemma_first_start_concat(a: Seq<Entry>, x: Seq<Entry>)
    ensures
        first_start(a + x) == if first_start(a) < a.len() {
            first_start(a)
        } else {
            a.len() + first_start(x)
        },
    decreases a.len(),
{
    if a.len() == 0 {
        assert(a + x =~= x);
    } else {
        assert((a + x)[0] == a[0]);
        if !is_start(a[0]) {
            assert((a + x).drop_first() =~= a.drop_first() + x);
            lemma_first_start_concat(a.drop_first(), x);
        }
    }
}

/// Entries without a start marker, put before a log, change none of its transactions.
proof fn lemma_prefix_without_start(a: Seq<Entry>, x: Seq<Entry>)
    requires
        no_start(a),
    ensures
        transactions_of(a + x) == transactions_of(x),
    decreases a.len(),
{
    if a.len() == 0 {
        assert(a + x =~= x);
    } else {
        assert((a + x)[0] == a[0]);
        assert(!is_start(a[0]));
        assert((a + x).drop_first() =~= a.drop_first() + x);
        assert forall|k: int| 0 <= k < a.drop_first().len() implies !is_start(
            #[trigger] a.drop_first()[k],
        ) by {
            assert(a.drop_first()[k] == a[k + 1]);
        }
        lemma_prefix_without_start(a.drop_first(), x);
    }
}

/// Cutting a log just before a start marker, or at its end, cuts its transactions there.
proof fn lemma_transactions_concat(a: Seq<Entry>, x: Seq<Entry>)
    requires
        x.len() == 0 || is_start(x[0]),
    ensures
        transactions_of(a + x) == transactions_of(a) + transactions_of(x),
    decreases a.len(),
{
    if a.len() == 0 {
        assert(a + x =~= x);
        assert(transactions_of(a) + transactions_of(x) =~= transactions_of(x));
    } else {
        let rest = a.drop_first();
        assert((a + x)[0] == a[0]);
        assert((a + x).drop_first() =~= rest + x);
        lemma_transactions_concat(rest, x);
        if is_start(a[0]) {
            lemma_first_start_concat(rest, x);
            lemma_first_start(rest);
            if x.len() > 0 {
                lemma_first_start(x);
            }
            assert((rest + x).take(first_start(rest + x) as int) =~= rest.take(
                first_start(rest) as int,
            ));
            assert(transactions_of(a + x) =~= transactions_of(a) + transactions_of(x));
        }
    }
}

/// A start marker followed by entries without one makes up a single transaction.
proof fn lemma_single_transaction(start: Entry, span: Seq<Entry>)
    requires
        is_start(start),
        no_start(span),
    ensures
        transactions_of(seq![start] + span) == seq![transaction_of(start, span)],
{
    let es = seq![start] + span;
    assert(es[0] == start);
    assert(es.drop_first() =~= span);
    lemma_no_start(span);
    assert(span.take(span.len() as int) =~= span);
    assert(transactions_of(es) =~= seq![transaction_of(start, span)]);
}

/// The transactions of a log made of entries before a start marker, the marker, its span,
/// and entries from the next start marker on.
proof fn lemma_decompose(before: Seq<Entry>, start: Entry, span: Seq<Entry>, after: Seq<Entry>)
    requires
        is_start(start),
        no_start(span),
        after.len() == 0 || is_start(after[0]),
    ensures
        transactions_of(before + seq![start] + span + after) == transactions_of(before) + seq![
            transaction_of(start, span),
        ] + transactions_of(after),
{
    let own = seq![start] + span;
    assert(before + seq![start] + span + after =~= before + (own + after));
    assert((own + after)[0] == start);
    lemma_transactions_concat(before, own + after);
    lemma_transactions_concat(own, after);
    lemma_single_transaction(start, span);
}

proof fn lemma_last_completion(es: Seq<Entry>)
    ensures
        last_completion(es) is None <==> !has_completion(es),
        last_completion(es) matches Some(c) ==> is_completion(c),
    decreases es.len(),
{
    if es.len() > 0 {
        let before = es.drop_last();
        lemma_last_completion(before);
        if has_completion(before) {
            let k = choose|k: int| 0 <= k < before.len() && is_completion(#[trigger] before[k]);
            assert(es[k] == before[k]);
        }
        if has_completion(es) && !is_completion(es.last()) {
            let k = choose|k: int| 0 <= k < es.len() && is_completion(#[trigger] es[k]);
            assert(before[k] == es[k]);
        }
    }
}

/// The log `es` has exactly one transaction for each start marker.
pub proof fn law_one_transaction_per_start(es: Seq<Entry>)
    ensures
        transactions_of(es).len() == count_starts(es),
    decreases es.len(),
{
    if es.len() > 0 {
        law_one_transaction_per_start(es.drop_first());
    }
}

/// Each transaction of a log starts with a start marker, and its completion, where it has one,
/// is a completion marker.
pub proof fn law_transactions_well_formed(es: Seq<Entry>)
    ensures
        forall|k: int| 0 <= k < transactions_of(es).len() ==> (#[trigger] transactions_of(es)[k]).wf(),
    decreases es.len(),
{
    if es.len() > 0 {
        let rest = es.drop_first();
        law_transactions_well_formed(rest);
        if is_start(es[0]) {
            let first = transaction_of(es[0], rest.take(first_start(rest) as int));
            lemma_last_completion(rest.take(first_start(rest) as int));
            assert(first.wf());
            assert(transactions_of(es) == seq![first] + transactions_of(rest));
            assert forall|k: int| 0 <= k < transactions_of(es).len() implies (
            #[trigger] transactions_of(es)[k]).wf() by {
                if k > 0 {
                    assert(transactions_of(es)[k] == transactions_of(rest)[k - 1]);
                }
            }
        } else {
            assert(transactions_of(es) == transactions_of(rest));
        }
    }
}

/// The transaction opened by `start`, whose span runs up to the next start marker or the end of
/// the log, is the one after those of the entries before it; it has no completion exactly when
/// no completion marker stands in its span.
pub proof fn law_completion_absent(
    before: Seq<Entry>,
    start: Entry,
    span: Seq<Entry>,
    after: Seq<Entry>,
)
    requires
        is_start(start),
        no_start(span),
        after.len() == 0 || is_start(after[0]),
    ensures
        ({
            let all = transactions_of(before + seq![start] + span + after);
            let k = count_starts(before) as int;
            &&& k < all.len()
            &&& all[k] == transaction_of(start, span)
            &&& all[k].completion is None <==> !has_completion(span)
        }),
{
    lemma_decompose(before, start, span, after);
    law_one_transaction_per_start(before);
    lemma_last_completion(span);
}

/// An operation before the first start marker belongs to no transaction: the log without it has
/// the same transactions.
pub proof fn law_operation_before_start(before: Seq<Entry>, op: Entry, after: Seq<Entry>)
    requires
        no_start(before),
        is_operation(op),
    ensures
        transactions_of(before + seq![op] + after) == transactions_of(before + after),
{
    let lead = before.push(op);
    assert forall|k: int| 0 <= k < lead.len() implies !is_start(#[trigger] lead[k]) by {
        if k < before.len() {
            assert(lead[k] == before[k]);
        }
    }
    assert(before + seq![op] + after =~= lead + after);
    lemma_prefix_without_start(lead, after);
    lemma_prefix_without_start(before, after);
}

proof fn lemma_installed_concat(a: Seq<Entry>, b: Seq<Entry>)
    ensures
        installed_in(a + b) == installed_in(a) + installed_in(b),
        upgraded_in(a + b) == upgraded_in(a) + upgraded_in(b),
        reinstalled_in(a + b) == reinstalled_in(a) + reinstalled_in(b),
        removed_in(a + b) == removed_in(a) + removed_in(b),
        hooks_in(a + b) == hooks_in(a) + hooks_in(b),
    decreases b.len(),
{
    if b.len() == 0 {
        assert(a + b =~= a);
        assert(installed_in(a) + installed_in(b) =~= installed_in(a));
        assert(upgraded_in(a) + upgraded_in(b) =~= upgraded_in(a));
        assert(reinstalled_in(a) + reinstalled_in(b) =~= reinstalled_in(a));
        assert(removed_in(a) + removed_in(b) =~= removed_in(a));
        assert(hooks_in(a) + hooks_in(b) =~= hooks_in(a));
    } else {
        assert((a + b).drop_last() =~= a + b.drop_last());
        assert((a + b).last() == b.last());
        lemma_installed_concat(a, b.drop_last());
        assert(installed_in(a + b) =~= installed_in(a) + installed_in(b));
        assert(upgraded_in(a + b) =~= upgraded_in(a) + upgraded_in(b));
        assert(reinstalled_in(a + b) =~= reinstalled_in(a) + reinstalled_in(b));
        assert(removed_in(a + b) =~= removed_in(a) + removed_in(b));
        assert(hooks_in(a + b) =~= hooks_in(a) + hooks_in(b));
    }
}

proof fn lemma_last_completion_concat(a: Seq<Entry>, b: Seq<Entry>)
    ensures
        last_completion(a + b) == if has_completion(b) {
            last_completion(b)
        } else {
            last_completion(a)
        },
    decreases b.len(),
{
    lemma_last_completion(b);
    if b.len() == 0 {
        assert(a + b =~= a);
    } else {
        assert((a + b).drop_last() =~= a + b.drop_last());
        assert((a + b).last() == b.last());
        lemma_last_completion_concat(a, b.drop_last());
        lemma_last_completion(b.drop_last());
    }
}

/// An operation after a transaction's completion marker, and before the next start marker,
/// belongs to no transaction: the log without it has the same transactions.
pub proof fn law_operation_after_completion(
    before: Seq<Entry>,
    start: Entry,
    span: Seq<Entry>,
    op: Entry,
    after: Seq<Entry>,
)
    requires
        is_start(start),
        no_start(span),
        has_completion(span),
        is_operation(op),
    ensures
        transactions_of(before + seq![start] + span + seq![op] + after) == transactions_of(
            before + seq![start] + span + after,
        ),
{
    lemma_first_start(after);
    let j = first_start(after) as int;
    let tail = after.take(j);
    let next = after.skip(j);
    assert(no_start(tail));
    assert(after =~= tail + next);
    let with_op = span + seq![op] + tail;
    let without = span + tail;
    assert forall|k: int| 0 <= k < with_op.len() implies !is_start(#[trigger] with_op[k]) by {
        if k < span.len() {
            assert(with_op[k] == span[k]);
        } else if k > span.len() {
            assert(with_op[k] == tail[k - span.len() - 1]);
        }
    }
    assert forall|k: int| 0 <= k < without.len() implies !is_start(#[trigger] without[k]) by {
        if k < span.len() {
            assert(without[k] == span[k]);
        } else {
            assert(without[k] == tail[k - span.len()]);
        }
    }
    assert(before + seq![start] + span + seq![op] + after =~= before + seq![start] + with_op
        + next);
    assert(before + seq![start] + span + after =~= before + seq![start] + without + next);
    lemma_decompose(before, start, with_op, next);
    lemma_decompose(before, start, without, next);
    // Both spans open with `span`, which already holds a completion marker.
    lemma_first_completion(span);
    lemma_first_completion(with_op);
    lemma_first_completion(without);
    let c = first_completion(span) as int;
    assert(with_op[c] == span[c]);
    assert(without[c] == span[c]);
    assert forall|k: int| 0 <= k < c implies with_op[k] == span[k] && without[k] == span[k] by {}
    assert(first_completion(with_op) == c) by {
        if first_completion(with_op) < c {
            assert(with_op[first_completion(with_op) as int] == span[first_completion(
                with_op,
            ) as int]);
        }
    }
    assert(first_completion(without) == c) by {
        if first_completion(without) < c {
            assert(without[first_completion(without) as int] == span[first_completion(
                without,
            ) as int]);
        }
    }
    assert(open_part(with_op) =~= open_part(span));
    assert(open_part(without) =~= open_part(span));
    // The last completion marker and the hooks do not see the operation either.
    lemma_last_completion_concat(span + seq![op], tail);
    lemma_last_completion_concat(span, seq![op]);
    lemma_last_completion_concat(span, tail);
    assert(!has_completion(seq![op])) by {
        if has_completion(seq![op]) {
            let k = choose|k: int| 0 <= k < 1 && is_completion(#[trigger] seq![op][k]);
        }
    }
    lemma_last_completion(seq![op]);
    lemma_installed_concat(span + seq![op], tail);
    lemma_installed_concat(span, seq![op]);
    lemma_installed_concat(span, tail);
    assert(hooks_in(seq![op]) =~= Seq::<Entry>::empty()) by {
        assert(seq![op].drop_last() =~= Seq::<Entry>::empty());
        assert(seq![op].last() == op);
        assert(hooks_in(Seq::<Entry>::empty()) =~= Seq::<Entry>::empty());
    }
    assert(hooks_in(span + seq![op]) =~= hooks_in(span));
    assert(transaction_of(start, with_op) == transaction_of(start, without));
}

proof fn lemma_extend_span(span: Seq<Entry>, e: Entry)
    ensures
        has_completion(span.push(e)) == (has_completion(span) || is_completion(e)),
        !has_completion(span) ==> open_part(span) == span,
        open_part(span.push(e)) == if has_completion(span) || is_completion(e) {
            open_part(span)
        } else {
            span.push(e)
        },
        last_completion(span.push(e)) == if is_completion(e) {
            Some(e)
        } else {
            last_completion(span)
        },
{
    let longer = span.push(e);
    assert(longer.drop_last() =~= span);
    assert(longer.last() == e);
    lemma_first_completion(span);
    lemma_first_completion(longer);
    assert forall|k: int| 0 <= k < span.len() implies longer[k] == span[k] by {}
    if has_completion(span) {
        let k = choose|k: int| 0 <= k < span.len() && is_completion(#[trigger] span[k]);
        assert(is_completion(longer[k]));
    }
    if is_completion(e) {
        assert(is_completion(longer[span.len() as int]));
    }
    if has_completion(longer) && !is_completion(e) {
        let k = choose|k: int| 0 <= k < longer.len() && is_completion(#[trigger] longer[k]);
        assert(k < span.len());
        assert(is_completion(span[k]));
    }
    let c = first_completion(span) as int;
    if has_completion(span) {
        assert(is_completion(longer[c]));
        assert(first_completion(longer) == c) by {
            if first_completion(longer) < c {
                assert(span[first_completion(longer) as int] == longer[first_completion(
                    longer,
                ) as int]);
            }
        }
        assert(open_part(longer) =~= open_part(span));
    } else {
        assert(span.take(span.len() as int) =~= span);
        assert(longer.take(longer.len() as int) =~= longer);
        if is_completion(e) {
            assert(first_completion(longer) == span.len());
            assert(open_part(longer) =~= span);
        }
    }
}

proof fn lemma_extend_lists(es: Seq<Entry>, e: Entry)
    ensures
        installed_in(es.push(e)) == match e@.message {
            Message::Installed(p) => installed_in(es).push(p),
            _ => installed_in(es),
        },
        upgraded_in(es.push(e)) == match e@.message {
            Message::Upgraded(u) => upgraded_in(es).push(u),
            _ => upgraded_in(es),
        },
        reinstalled_in(es.push(e)) == match e@.message {
            Message::Reinstalled(p) => reinstalled_in(es).push(p),
            _ => reinstalled_in(es),
        },
        removed_in(es.push(e)) == match e@.message {
            Message::Removed(p) => removed_in(es).push(p),
            _ => removed_in(es),
        },
        hooks_in(es.push(e)) == if is_hook(e) {
            hooks_in(es).push(e)
        } else {
            hooks_in(es)
        },
{
    assert(es.push(e).drop_last() =~= es);
    assert(es.push(e).last() == e);
}

/// The transaction `t` once the entry `e`, which is not a start marker, has joined its span: an
/// operation is recorded while `t` has no completion, a completion marker replaces the one kept,
/// and a hook is gathered.
pub open spec fn extend(t: TransactionView, e: Entry) -> TransactionView {
    let open = t.completion is None;
    TransactionView {
        start: t.start,
        installed: match e@.message {
            Message::Installed(p) if open => t.installed.push(p),
            _ => t.installed,
        },
        upgraded: match e@.message {
            Message::Upgraded(u) if open => t.upgraded.push(u),
            _ => t.upgraded,
        },
        reinstalled: match e@.message {
            Message::Reinstalled(p) if open => t.reinstalled.push(p),
            _ => t.reinstalled,
        },
        removed: match e@.message {
            Message::Removed(p) if open => t.removed.push(p),
            _ => t.removed,
        },
        completion: if is_completion(e) {
            Some(e)
        } else {
            t.completion
        },
        hooks: if is_hook(e) {
            t.hooks.push(e)
        } else {
            t.hooks
        },
    }
}

/// The transactions `ts` of a log once the entry `e` has been appended to it: a start marker
/// opens a new transaction, and any other entry joins the last one, if there is one.
pub open spec fn step(ts: Seq<TransactionView>, e: Entry) -> Seq<TransactionView> {
    if is_start(e) {
        ts.push(transaction_of(e, seq![]))
    } else if ts.len() == 0 {
        ts
    } else {
        ts.drop_last().push(extend(ts.last(), e))
    }
}

/// After the entries `prefix`, no transaction is open: none has started, or the last one has met
/// a completion marker.
pub open spec fn outside_transaction(prefix: Seq<Entry>) -> bool
    decreases prefix.len(),
{
    if prefix.len() == 0 {
        true
    } else if is_start(prefix.last()) {
        false
    } else if is_completion(prefix.last()) {
        true
    } else {
        outside_transaction(prefix.drop_last())
    }
}

/// The log `es` without its operations that stand outside every transaction: before the first
/// start marker, or after a completion marker and before the next start marker.
pub open spec fn without_dropped(es: Seq<Entry>) -> Seq<Entry>
    decreases es.len(),
{
    if es.len() == 0 {
        es
    } else if is_operation(es.last()) && outside_transaction(es.drop_last()) {
        without_dropped(es.drop_last())
    } else {
        without_dropped(es.drop_last()).push(es.last())
    }
}

proof fn lemma_extend_transaction(start: Entry, span: Seq<Entry>, e: Entry)
    ensures
        transaction_of(start, span.push(e)) == extend(transaction_of(start, span), e),
{
    lemma_extend_span(span, e);
    lemma_extend_lists(span, e);
    lemma_last_completion(span);
    if !has_completion(span) {
        if is_completion(e) {
            assert(open_part(span.push(e)) == span);
        }
    }
}

/// Appending an entry to a log takes its transactions one step.
proof fn lemma_push(es: Seq<Entry>, e: Entry)
    ensures
        transactions_of(es.push(e)) == step(transactions_of(es), e),
    decreases es.len(),
{
    let longer = es.push(e);
    if es.len() == 0 {
        assert(longer.drop_first() =~= Seq::<Entry>::empty());
        assert(longer[0] == e);
        let empty = Seq::<Entry>::empty();
        assert(transactions_of(empty) =~= Seq::<TransactionView>::empty());
        if is_start(e) {
            assert(longer =~= seq![e] + empty);
            lemma_single_transaction(e, empty);
            assert(empty =~= seq![]);
            assert(transactions_of(longer) =~= step(transactions_of(es), e));
        } else {
            assert(transactions_of(longer) == transactions_of(empty));
        }
    } else {
        let rest = es.drop_first();
        assert(longer[0] == es[0]);
        assert(longer.drop_first() =~= rest.push(e));
        lemma_push(rest, e);
        if is_start(es[0]) {
            lemma_first_start(rest);
            lemma_first_start_concat(rest, seq![e]);
            assert(rest.push(e) =~= rest + seq![e]);
            lemma_first_start(seq![e]);
            if first_start(rest) < rest.len() {
                assert(rest.push(e).take(first_start(rest.push(e)) as int) =~= rest.take(
                    first_start(rest) as int,
                ));
                lemma_no_start_transactions_nonempty(rest);
                assert(transactions_of(longer) =~= step(transactions_of(es), e));
            } else {
                assert(rest.take(first_start(rest) as int) =~= rest);
                assert(no_start(rest));
                lemma_no_start(rest);
                if is_start(e) {
                    assert(first_start(rest.push(e)) == rest.len());
                    assert(rest.push(e).take(rest.len() as int) =~= rest);
                    assert(transactions_of(longer) =~= step(transactions_of(es), e));
                } else {
                    assert(first_start(seq![e]) == 1) by {
                        assert(seq![e].drop_first() =~= Seq::<Entry>::empty());
                    }
                    assert(rest.push(e).take(rest.push(e).len() as int) =~= rest.push(e));
                    lemma_extend_transaction(es[0], rest, e);
                    assert(transactions_of(rest.push(e)) =~= Seq::<TransactionView>::empty());
                    assert(transactions_of(longer) =~= step(transactions_of(es), e));
                }
            }
        }
    }
}

/// A log with a start marker has a transaction.
proof fn lemma_no_start_transactions_nonempty(es: Seq<Entry>)
    requires
        first_start(es) < es.len(),
    ensures
        transactions_of(es).len() > 0,
    decreases es.len(),
{
    if !is_start(es[0]) {
        lemma_no_start_transactions_nonempty(es.drop_first());
    }
}

/// No transaction is open after `prefix` exactly when its transactions are none, or the last
/// one has a completion.
proof fn lemma_outside_transaction(prefix: Seq<Entry>)
    ensures
        outside_transaction(prefix) <==> (transactions_of(prefix).len() == 0 || transactions_of(
            prefix,
        ).last().completion is Some),
    decreases prefix.len(),
{
    if prefix.len() > 0 {
        let before = prefix.drop_last();
        let e = prefix.last();
        assert(before.push(e) =~= prefix);
        lemma_push(before, e);
        lemma_outside_transaction(before);
    }
}

/// Operations before the first start marker, or after a completion marker and before the next
/// start marker, belong to no transaction: the log without all of them has the same
/// transactions.
pub proof fn law_dropped_operations(es: Seq<Entry>)
    ensures
        transactions_of(without_dropped(es)) == transactions_of(es),
    decreases es.len(),
{
    if es.len() > 0 {
        let before = es.drop_last();
        let e = es.last();
        assert(before.push(e) =~= es);
        law_dropped_operations(before);
        lemma_push(before, e);
        if is_operation(e) && outside_transaction(before) {
            lemma_outside_transaction(before);
            let ts = transactions_of(before);
            if ts.len() > 0 {
                assert(extend(ts.last(), e) == ts.last());
                assert(ts.drop_last().push(ts.last()) =~= ts);
            }
        } else {
            lemma_push(without_dropped(before), e);
        }
    }
}

/// The state of grouping a log into transactions, one entry at a time: the transaction that the
/// last start marker opened, with what it has recorded so far.
pub struct Aggregator {
    start: Option<Entry>,
    completion: Option<Entry>,
    installed: Vec<Package>,
    upgraded: Vec<Upgrade>,
    reinstalled: Vec<Package>,
    removed: Vec<Package>,
    hooks: Vec<Entry>,
    /// The entries taken so far.
    seen: Ghost<Seq<Entry>>,
    /// The entries taken before the pending start marker.
    before: Ghost<Seq<Entry>>,
    /// The entries taken after the pending start marker.
    span: Ghost<Seq<Entry>>,
}

impl Aggregator {
    /// The entries taken so far, in order.
    pub closed spec fn history(&self) -> Seq<Entry> {
        self.seen@
    }

    /// The pending transaction is the last one of the entries taken so far, as far as they go.
    pub closed spec fn wf(&self) -> bool {
        match self.start {
            None => no_start(self.seen@),
            Some(s) => {
                &&& is_start(s)
                &&& no_start(self.span@)
                &&& self.seen@ == self.before@ + seq![s] + self.span@
                &&& self.completion == last_completion(self.span@)
                &&& self.installed@ == installed_in(open_part(self.span@))
                &&& self.upgraded@ == upgraded_in(open_part(self.span@))
                &&& self.reinstalled@ == reinstalled_in(open_part(self.span@))
                &&& self.removed@ == removed_in(open_part(self.span@))
                &&& self.hooks@ == hooks_in(self.span@)
            },
        }
    }

    proof fn lemma_pending(&self)
        requires
            self.wf(),
        ensures
            self.start is None ==> transactions_of(self.history()) == Seq::<TransactionView>::empty(),
            self.start matches Some(s) ==> transactions_of(self.history()) == transactions_of(
                self.before@,
            ) + seq![transaction_of(s, self.span@)],
    {
        match self.start {
            None => lemma_no_start(self.seen@),
            Some(s) => {
                let empty = Seq::<Entry>::empty();
                assert(self.seen@ =~= self.before@ + seq![s] + self.span@ + empty);
                lemma_decompose(self.before@, s, self.span@, empty);
                assert(transactions_of(empty) =~= Seq::<TransactionView>::empty());
                assert(transactions_of(self.before@) + seq![transaction_of(s, self.span@)]
                    + transactions_of(empty) =~= transactions_of(self.before@) + seq![
                    transaction_of(s, self.span@),
                ]);
            },
        }
    }

    /// An aggregator that has taken no entry.
    pub fn new() -> (r: Aggregator)
        ensures
            r.wf(),
            r.history() == Seq::<Entry>::empty(),
    {
        Aggregator {
            start: None,
            completion: None,
            installed: Vec::new(),
            upgraded: Vec::new(),
            reinstalled: Vec::new(),
            removed: Vec::new(),
            hooks: Vec::new(),
            seen: Ghost(Seq::empty()),
            before: Ghost(Seq::empty()),
            span: Ghost(Seq::empty()),
        }
    }

    /// Whether an operation taken now would be recorded: a transaction is pending and has not
    /// met its completion marker.
    pub fn is_within_transaction(&self) -> (r: bool)
        requires
            self.wf(),
        ensures
            r == (transactions_of(self.history()).len() > 0 && transactions_of(
                self.history(),
            ).last().completion is None),
    {
        proof {
            self.lemma_pending();
        }
        self.start.is_some() && self.completion.is_none()
    }

    /// Hands out the pending transaction, if any, and leaves none pending. With none pending,
    /// nothing changes.
    fn take_pending(&mut self) -> (r: Option<Transaction>)
        requires
            old(self).wf(),
        ensures
            match old(self).start {
                None => r is None && *final(self) == *old(self),
                Some(s) => {
                    &&& r matches Some(t) && t@ == transaction_of(s, old(self).span@)
                    &&& final(self).start is None
                    &&& final(self).completion is None
                    &&& final(self).installed@ == Seq::<Package>::empty()
                    &&& final(self).upgraded@ == Seq::<Upgrade>::empty()
                    &&& final(self).reinstalled@ == Seq::<Package>::empty()
                    &&& final(self).removed@ == Seq::<Package>::empty()
                    &&& final(self).hooks@ == Seq::<Entry>::empty()
                    &&& final(self).seen == old(self).seen
                    &&& final(self).before == old(self).before
                    &&& final(self).span == old(self).span
                },
            },
    {
        if self.start.is_none() {
            return None;
        }
        let start = self.start.take().unwrap();
        let mut installed: Vec<Package> = Vec::new();
        let mut upgraded: Vec<Upgrade> = Vec::new();
        let mut reinstalled: Vec<Package> = Vec::new();
        let mut removed: Vec<Package> = Vec::new();
        let mut hooks: Vec<Entry> = Vec::new();
        std::mem::swap(&mut installed, &mut self.installed);
        std::mem::swap(&mut upgraded, &mut self.upgraded);
        std::mem::swap(&mut reinstalled, &mut self.reinstalled);
        std::mem::swap(&mut removed, &mut self.removed);
        std::mem::swap(&mut hooks, &mut self.hooks);
        Some(
            Transaction {
                start,
                installed,
                upgraded,
                reinstalled,
                removed,
                completion: self.completion.take(),
                hooks,
            },
        )
    }

    /// Takes the next entry of the log. A start marker hands out the pending transaction, if
    /// any, and opens a new one; a completion marker is kept, the last one winning; an operation
    /// is recorded where a transaction is pending and not yet complete, and dropped elsewhere;
    /// a hook is gathered; anything else is passed over.
    pub fn push(&mut self, entry: Entry) -> (r: Option<Transaction>)
        requires
            old(self).wf(),
        ensures
            final(self).wf(),
            final(self).history() == old(self).history().push(entry),
            finished_transactions(final(self).history()) == finished_transactions(
                old(self).history(),
            ) + emitted(r),
    {
        proof {
            self.lemma_pending();
        }
        let ghost old_seen = self.seen@;
        let ghost old_span = self.span@;
        let within = self.start.is_some() && self.completion.is_none();
        let hook_issuer = matches!(entry.issuer, Issuer::Alpm | Issuer::AlpmScriptlet);
        match &entry.message {
            Message::TransactionStarted => {
                let pending = self.take_pending();
                self.completion = None;
                self.installed.clear();
                self.upgraded.clear();
                self.reinstalled.clear();
                self.removed.clear();
                self.hooks.clear();
                proof {
                    let single = seq![entry];
                    assert(single[0] == entry);
                    lemma_transactions_concat(old_seen, single);
                    lemma_single_transaction(entry, Seq::empty());
                    assert(single =~= seq![entry] + Seq::<Entry>::empty());
                    assert(old_seen.push(entry) =~= old_seen + single);
                    self.before = Ghost(old_seen);
                    self.span = Ghost(Seq::empty());
                    self.seen = Ghost(old_seen.push(entry));
                    let empty = Seq::<Entry>::empty();
                    assert(empty.take(0) =~= empty);
                    assert(open_part(empty) =~= empty);
                    assert(installed_in(empty) =~= Seq::<Package>::empty());
                    assert(upgraded_in(empty) =~= Seq::<Upgrade>::empty());
                    assert(reinstalled_in(empty) =~= Seq::<Package>::empty());
                    assert(removed_in(empty) =~= Seq::<Package>::empty());
                    assert(hooks_in(empty) =~= Seq::<Entry>::empty());
                    assert(last_completion(empty) is None);
                }
                self.start = Some(entry);
                assert(self.seen@ =~= self.before@ + seq![entry] + self.span@);
                assert(finished_transactions(self.seen@) =~= finished_transactions(old_seen)
                    + emitted(pending));
                return pending;
            },
            Message::TransactionCompleted => {
                self.completion = Some(entry);
            },
            Message::Other(_) => {
                if hook_issuer {
                    self.hooks.push(entry);
                }
            },
            Message::StartingFullSystemUpgrade => {},
            _ => {
                if within {
                    match entry.message {
                        Message::Installed(p) => self.installed.push(p),
                        Message::Upgraded(u) => self.upgraded.push(u),
                        Message::Reinstalled(p) => self.reinstalled.push(p),
                        Message::Removed(p) => self.removed.push(p),
                        _ => {},
                    }
                }
            },
        }
        proof {
            self.seen = Ghost(old_seen.push(entry));
            self.span = Ghost(old_span.push(entry));
            lemma_extend_span(old_span, entry);
            lemma_extend_lists(old_span, entry);
            lemma_last_completion(old_span);
            if self.start is None {
                assert forall|k: int| 0 <= k < self.seen@.len() implies !is_start(
                    #[trigger] self.seen@[k],
                ) by {
                    if k < old_seen.len() {
                        assert(self.seen@[k] == old_seen[k]);
                    }
                }
                lemma_no_start(self.seen@);
            } else {
                assert forall|k: int| 0 <= k < self.span@.len() implies !is_start(
                    #[trigger] self.span@[k],
                ) by {
                    if k < old_span.len() {
                        assert(self.span@[k] == old_span[k]);
                    }
                }
                assert(self.seen@ =~= self.before@ + seq![self.start->Some_0] + self.span@);
            }
            self.lemma_pending();
        }
        None
    }

    /// Ends the log: hands out the pending transaction, if any.
    pub fn finish(self) -> (r: Option<Transaction>)
        requires
            self.wf(),
        ensures
            finished_transactions(self.history()) + emitted(r) == transactions_of(self.history()),
    {
        proof {
            self.lemma_pending();
        }
        let mut aggregator = self;
        let r = aggregator.take_pending();
        assert(finished_transactions(self.history()) + emitted(r) =~= transactions_of(
            self.history(),
        ));
        r
    }
}

/// Groups the entries of a log into its transactions.
pub fn transactions(entries: Vec<Entry>) -> (r: Vec<Transaction>)
    ensures
        r@.map_values(|t: Transaction| t@) == transactions_of(entries@),
{
    let ghost all = entries@;
    let mut aggregator = Aggregator::new();
    let mut out: Vec<Transaction> = Vec::new();
    for entry in iter: entries.into_iter()
        invariant
            aggregator.wf(),
            iter.seq() == all,
            aggregator.history() == all.take(iter.index()),
            out@.map_values(|t: Transaction| t@) == finished_transactions(aggregator.history()),
    {
        let ghost before = out@;
        let ghost history = aggregator.history();
        let emitted_now = aggregator.push(entry);
        if let Some(t) = emitted_now {
            out.push(t);
        }
        assert(out@.map_values(|t: Transaction| t@) =~= before.map_values(|t: Transaction| t@)
            + emitted(emitted_now));
        assert(all.take(iter.index() + 1) =~= history.push(entry));
    }
    let ghost before = out@;
    let last = aggregator.finish();
    if let Some(t) = last {
        out.push(t);
    }
    assert(out@.map_values(|t: Transaction| t@) =~= before.map_values(|t: Transaction| t@)
        + emitted(last));
    assert(all.take(all.len() as int) =~= all);
    out
}

} // verus!
