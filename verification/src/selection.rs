//! Putting models in order and spreading a selection over those who train them.
use vstd::prelude::*;

use crate::catalog::{CatalogEntry, CatalogEntryView, MIN_RECOMMENDATIONS};
use crate::text::text_eq;
use crate::throughput::{is_usable, MIN_USABLE_TOKENS_PER_SEC};

verus! {

/// How many of the entries stand before one that reads `active` per token, when
/// it is placed behind all that read no more.
pub open spec fn place(s: Seq<CatalogEntryView>, active: u128) -> nat
    decreases s.len(),
{
    if s.len() == 0 || s.last().active_size_gb <= active {
        s.len()
    } else {
        place(s.drop_last(), active)
    }
}

/// The entries ordered by what they read per token. Among equals the order is
/// kept.
pub open spec fn lightest_first(s: Seq<CatalogEntryView>) -> Seq<CatalogEntryView>
    decreases s.len(),
{
    if s.len() == 0 {
        s
    } else {
        let before = lightest_first(s.drop_last());
        before.insert(place(before, s.last().active_size_gb) as int, s.last())
    }
}

/// Whether a model is fast enough to offer, as far as that is known.
pub open spec fn usable(e: CatalogEntryView) -> bool {
    match e.est_tokens_per_sec {
        Some(est) => est.reaches(MIN_USABLE_TOKENS_PER_SEC as int),
        None => true,
    }
}

/// How many of the entries are kept: as many as are fast enough, but not fewer
/// than the least number of recommendations while there are that many.
pub open spec fn kept_count(s: Seq<CatalogEntryView>) -> nat {
    let fast = s.filter(|e: CatalogEntryView| usable(e)).len();
    let wanted = if fast < MIN_RECOMMENDATIONS {
        MIN_RECOMMENDATIONS as nat
    } else {
        fast
    };
    if wanted < s.len() {
        wanted
    } else {
        s.len()
    }
}

/// The entries without the slow end.
pub open spec fn fast_end(s: Seq<CatalogEntryView>) -> Seq<CatalogEntryView> {
    s.take(kept_count(s) as int)
}

/// Those who train the models, in the order in which they first appear.
pub open spec fn vendors(s: Seq<CatalogEntryView>) -> Seq<Seq<char>>
    decreases s.len(),
{
    if s.len() == 0 {
        Seq::empty()
    } else {
        let before = vendors(s.drop_last());
        if before.contains(s.last().origin) {
            before
        } else {
            before.push(s.last().origin)
        }
    }
}

/// The models of one vendor.
pub open spec fn models_of(s: Seq<CatalogEntryView>, origin: Seq<char>) -> Seq<CatalogEntryView> {
    s.filter(|e: CatalogEntryView| e.origin == origin)
}

/// The models, vendor by vendor.
pub open spec fn by_vendor(s: Seq<CatalogEntryView>) -> Seq<Seq<CatalogEntryView>> {
    Seq::new(vendors(s).len(), |i: int| models_of(s, vendors(s)[i]))
}

/// The entry at index `n` of each group that has one.
pub open spec fn nth_of_each(groups: Seq<Seq<CatalogEntryView>>, n: nat) -> Seq<CatalogEntryView>
    decreases groups.len(),
{
    if groups.len() == 0 {
        Seq::empty()
    } else {
        let before = nth_of_each(groups.drop_last(), n);
        if n < groups.last().len() {
            before.push(groups.last()[n as int])
        } else {
            before
        }
    }
}

/// The first of each group, then the second of each, and so on for `n` rounds.
pub open spec fn rounds(groups: Seq<Seq<CatalogEntryView>>, n: nat) -> Seq<CatalogEntryView>
    decreases n,
{
    if n == 0 {
        Seq::empty()
    } else {
        rounds(groups, (n - 1) as nat) + nth_of_each(groups, (n - 1) as nat)
    }
}

/// The entries, dealt out by taking one of each vendor in turn.
pub open spec fn spread(s: Seq<CatalogEntryView>) -> Seq<CatalogEntryView> {
    rounds(by_vendor(s), s.len())
}

/// See [`lightest_first`].
pub fn sort_by_weight(entries: &Vec<CatalogEntry>) -> (r: Vec<CatalogEntry>)
    ensures
        r.deep_view() == lightest_first(entries.deep_view()),
{
    let mut r: Vec<CatalogEntry> = Vec::new();
    let ghost all = entries.deep_view();
    let n: usize = entries.len();
    assert(r.deep_view() =~= lightest_first(all.take(0)));
    for i in 0..n
        invariant
            n == entries@.len(),
            all == entries.deep_view(),
            r.deep_view() == lightest_first(all.take(i as int)),
    {
        let active: u128 = entries[i].active_size_gb;
        let ghost before = r.deep_view();
        let mut at: usize = r.len();
        assert(before.take(at as int) =~= before);
        while at > 0 && r[at - 1].active_size_gb > active
            invariant
                before == r.deep_view(),
                at <= r@.len(),
                place(before, active) == place(before.take(at as int), active),
            ensures
                at <= r@.len(),
                at == place(before, active),
            decreases at,
        {
            assert(before.take(at as int).drop_last() =~= before.take(at - 1));
            assert(before.take(at as int).last() == r@[at - 1]@);
            at -= 1;
        }
        r.insert(at, entries[i].clone());
        assert(all.take(i + 1).drop_last() =~= all.take(i as int));
        assert(all.take(i + 1).last() == entries@[i as int]@);
        assert(r.deep_view() =~= before.insert(at as int, all[i as int]));
    }
    assert(all.take(n as int) =~= all);
    r
}

/// See [`fast_end`].
pub fn trim_slow(entries: Vec<CatalogEntry>) -> (r: Vec<CatalogEntry>)
    ensures
        r.deep_view() == fast_end(entries.deep_view()),
{
    let ghost all = entries.deep_view();
    let ghost pred = |e: CatalogEntryView| usable(e);
    let mut r: Vec<CatalogEntry> = entries;
    let n: usize = r.len();
    let mut fast: usize = 0;
    assert(all.take(0).filter(pred).len() == 0) by {
        reveal(Seq::filter);
    }
    for i in 0..n
        invariant
            n == r@.len(),
            all == r.deep_view(),
            pred == (|e: CatalogEntryView| usable(e)),
            fast == all.take(i as int).filter(pred).len(),
            fast <= i,
    {
        assert(all.take(i + 1).drop_last() =~= all.take(i as int));
        assert(all.take(i + 1).last() == r@[i as int]@);
        proof {
            reveal(Seq::filter);
        }
        let good: bool = match &r[i].est_tokens_per_sec {
            Some(est) => is_usable(est),
            None => true,
        };
        if good {
            fast += 1;
        }
    }
    assert(all.take(n as int) =~= all);
    if fast < MIN_RECOMMENDATIONS {
        fast = MIN_RECOMMENDATIONS;
    }
    r.truncate(fast);
    assert(r.deep_view() =~= fast_end(all));
    r
}

/// The models of one vendor.
struct Group {
    origin: String,
    models: Vec<CatalogEntry>,
}

/// The groups as vendors and their models.
spec fn origins_of(groups: Seq<Group>) -> Seq<Seq<char>> {
    Seq::new(groups.len(), |i: int| groups[i].origin@)
}

spec fn models_in(groups: Seq<Group>) -> Seq<Seq<CatalogEntryView>> {
    Seq::new(groups.len(), |i: int| groups[i].models.deep_view())
}

/// Where the group of a vendor stands.
fn find_group(groups: &Vec<Group>, origin: &str) -> (r: usize)
    ensures
        r <= groups@.len(),
        r < groups@.len() ==> groups@[r as int].origin@ == origin@,
        r == groups@.len() ==> !origins_of(groups@).contains(origin@),
{
    let n: usize = groups.len();
    for i in 0..n
        invariant
            n == groups@.len(),
            forall|k: int| 0 <= k < i ==> (#[trigger] groups@[k]).origin@ != origin@,
    {
        if text_eq(groups[i].origin.as_str(), origin) {
            return i;
        }
    }
    assert(!origins_of(groups@).contains(origin@)) by {
        if origins_of(groups@).contains(origin@) {
            let k = choose|k: int|
                0 <= k < origins_of(groups@).len() && origins_of(groups@)[k] == origin@;
            assert(groups@[k].origin@ == origin@);
        }
    }
    n
}

proof fn lemma_vendors_distinct(s: Seq<CatalogEntryView>)
    ensures
        vendors(s).no_duplicates(),
        forall|i: int|
            0 <= i < s.len() ==> vendors(s).contains((#[trigger] s[i]).origin),
        vendors(s).len() <= s.len(),
    decreases s.len(),
{
    if s.len() > 0 {
        let before = vendors(s.drop_last());
        lemma_vendors_distinct(s.drop_last());
        assert forall|i: int| 0 <= i < s.len() implies vendors(s).contains(
            (#[trigger] s[i]).origin,
        ) by {
            if i < s.len() - 1 {
                assert(s.drop_last()[i] == s[i]);
                let k = before.index_of(s[i].origin);
                assert(vendors(s)[k] == s[i].origin);
            } else if before.contains(s[i].origin) {
            } else {
                assert(vendors(s)[before.len() as int] == s[i].origin);
            }
        }
    }
}

/// How the groups grow with one more model.
proof fn lemma_group_step(s: Seq<CatalogEntryView>, e: CatalogEntryView)
    ensures
        vendors(s.push(e)) == if vendors(s).contains(e.origin) {
            vendors(s)
        } else {
            vendors(s).push(e.origin)
        },
        forall|k: int|
            0 <= k < vendors(s).len() ==> #[trigger] by_vendor(s.push(e))[k] == if vendors(s)[k]
                == e.origin {
                by_vendor(s)[k].push(e)
            } else {
                by_vendor(s)[k]
            },
        !vendors(s).contains(e.origin) ==> by_vendor(s.push(e)) == by_vendor(s).push(seq![e]),
{
    assert(s.push(e).drop_last() =~= s);
    reveal(Seq::filter);
    if !vendors(s).contains(e.origin) {
        lemma_vendors_distinct(s);
        assert(models_of(s, e.origin).len() == 0) by {
            let pred = |x: CatalogEntryView| x.origin == e.origin;
            assert forall|i: int| 0 <= i < s.len() implies !pred(#[trigger] s[i]) by {
                assert(vendors(s).contains(s[i].origin));
            }
            s.lemma_all_neg_filter_empty(pred);
        }
        assert(models_of(s.push(e), e.origin) =~= seq![e]);
        assert forall|k: int| 0 <= k < vendors(s).len() implies vendors(s)[k] != e.origin by {
            assert(vendors(s).contains(vendors(s)[k]));
        }
        assert(by_vendor(s.push(e)) =~= by_vendor(s).push(seq![e]));
    }
}

/// See [`by_vendor`].
fn group_by_vendor(entries: &Vec<CatalogEntry>) -> (r: Vec<Group>)
    ensures
        origins_of(r@) == vendors(entries.deep_view()),
        models_in(r@) == by_vendor(entries.deep_view()),
{
    let mut groups: Vec<Group> = Vec::new();
    let ghost all = entries.deep_view();
    let n: usize = entries.len();
    assert(origins_of(groups@) =~= vendors(all.take(0)));
    assert(models_in(groups@) =~= by_vendor(all.take(0)));
    for i in 0..n
        invariant
            n == entries@.len(),
            all == entries.deep_view(),
            origins_of(groups@) == vendors(all.take(i as int)),
            models_in(groups@) == by_vendor(all.take(i as int)),
    {
        let ghost s = all.take(i as int);
        let ghost e = all[i as int];
        let ghost before = groups@;
        proof {
            lemma_group_step(s, e);
            lemma_vendors_distinct(s);
            assert(all.take(i + 1) =~= s.push(e));
        }
        let at: usize = find_group(&groups, entries[i].origin.as_str());
        if at < groups.len() {
            groups[at].models.push(entries[i].clone());
            proof {
                assert(origins_of(before)[at as int] == e.origin);
                assert(groups@[at as int].models.deep_view() =~= models_in(before)[at as int].push(
                    e,
                ));
                assert(origins_of(groups@) =~= vendors(s.push(e)));
                assert forall|k: int| 0 <= k < before.len() implies models_in(groups@)[k]
                    == by_vendor(s.push(e))[k] by {
                    if k != at {
                        assert(vendors(s)[k] != vendors(s)[at as int]);
                    }
                }
                assert(models_in(groups@) =~= by_vendor(s.push(e)));
            }
        } else {
            let mut models: Vec<CatalogEntry> = Vec::new();
            models.push(entries[i].clone());
            assert(models.deep_view() =~= seq![e]);
            groups.push(Group { origin: entries[i].origin.clone(), models });
            assert(origins_of(groups@) =~= vendors(s.push(e)));
            assert(models_in(groups@) =~= by_vendor(s.push(e)));
        }
    }
    assert(all.take(n as int) =~= all);
    groups
}

/// See [`spread`].
pub fn spread_over_vendors(entries: &Vec<CatalogEntry>) -> (r: Vec<CatalogEntry>)
    ensures
        r.deep_view() == spread(entries.deep_view()),
{
    let groups: Vec<Group> = group_by_vendor(entries);
    let ghost by = by_vendor(entries.deep_view());
    let n: usize = entries.len();
    let count: usize = groups.len();
    let mut r: Vec<CatalogEntry> = Vec::new();
    assert(r.deep_view() =~= rounds(by, 0));
    for round in 0..n
        invariant
            count == groups@.len(),
            by == models_in(groups@),
            r.deep_view() == rounds(by, round as nat),
    {
        let ghost before = r.deep_view();
        assert(r.deep_view() =~= before + nth_of_each(by.take(0), round as nat));
        for k in 0..count
            invariant
                count == groups@.len(),
                by == models_in(groups@),
                r.deep_view() == before + nth_of_each(by.take(k as int), round as nat),
        {
            assert(by.take(k + 1).drop_last() =~= by.take(k as int));
            assert(by.take(k + 1).last() == groups@[k as int].models.deep_view());
            let ghost so_far = r.deep_view();
            if round < groups[k].models.len() {
                r.push(groups[k].models[round].clone());
                assert(r.deep_view() =~= so_far.push(by[k as int][round as int]));
                assert(r.deep_view() =~= before + nth_of_each(by.take(k + 1), round as nat));
            }
        }
        assert(by.take(count as int) =~= by);
    }
    r
}

/// Whether the entries are ordered by what they read per token.
pub open spec fn by_weight(s: Seq<CatalogEntryView>) -> bool {
    forall|i: int, j: int|
        0 <= i <= j < s.len() ==> (#[trigger] s[i]).active_size_gb <= (
        #[trigger] s[j]).active_size_gb
}

/// The entries that read a given amount per token.
pub open spec fn of_weight(s: Seq<CatalogEntryView>, active: u128) -> Seq<CatalogEntryView> {
    s.filter(|e: CatalogEntryView| e.active_size_gb == active)
}

proof fn lemma_place(s: Seq<CatalogEntryView>, active: u128)
    requires
        by_weight(s),
    ensures
        place(s, active) <= s.len(),
        forall|i: int| 0 <= i < place(s, active) ==> (#[trigger] s[i]).active_size_gb <= active,
        forall|i: int|
            place(s, active) <= i < s.len() ==> (#[trigger] s[i]).active_size_gb > active,
    decreases s.len(),
{
    if s.len() > 0 && s.last().active_size_gb > active {
        let before = s.drop_last();
        assert(by_weight(before));
        lemma_place(before, active);
        assert forall|i: int| 0 <= i < place(s, active) implies (
        #[trigger] s[i]).active_size_gb <= active by {
            assert(before[i] == s[i]);
        }
        assert forall|i: int| place(s, active) <= i < s.len() implies (
        #[trigger] s[i]).active_size_gb > active by {
            if i < before.len() {
                assert(before[i] == s[i]);
            }
        }
    }
}

/// Ordering by weight only changes the order, puts the lightest first, and keeps
/// the order of entries of one weight.
pub proof fn law_lightest_first(s: Seq<CatalogEntryView>)
    ensures
        by_weight(lightest_first(s)),
        lightest_first(s).to_multiset() == s.to_multiset(),
        lightest_first(s).len() == s.len(),
        forall|active: u128| #[trigger]
            of_weight(lightest_first(s), active) == of_weight(s, active),
    decreases s.len(),
{
    if s.len() > 0 {
        let rest = s.drop_last();
        let e = s.last();
        let before = lightest_first(rest);
        let at = place(before, e.active_size_gb) as int;
        law_lightest_first(rest);
        lemma_place(before, e.active_size_gb);
        let after = before.insert(at, e);
        assert(after == lightest_first(s));
        assert forall|i: int, j: int| 0 <= i <= j < after.len() implies (
        #[trigger] after[i]).active_size_gb <= (#[trigger] after[j]).active_size_gb by {
            let k = if i < at {
                i
            } else {
                i - 1
            };
            let l = if j < at {
                j
            } else {
                j - 1
            };
            if i != at && j != at {
                assert(after[i] == before[k]);
                assert(after[j] == before[l]);
            }
        }
        vstd::seq_lib::to_multiset_insert(before, at, e);
        vstd::seq_lib::to_multiset_build(rest, e);
        assert(rest.push(e) =~= s);
        assert forall|active: u128| #[trigger] of_weight(after, active) == of_weight(s, active) by {
            let pred = |x: CatalogEntryView| x.active_size_gb == active;
            let low = before.take(at);
            let high = before.skip(at);
            assert(after =~= low.push(e) + high);
            assert(before =~= low + high);
            Seq::filter_distributes_over_add(low.push(e), high, pred);
            Seq::filter_distributes_over_add(low, high, pred);
            low.lemma_filter_push(e, pred);
            rest.lemma_filter_push(e, pred);
            assert(of_weight(before, active) == of_weight(rest, active));
            if active == e.active_size_gb {
                assert forall|i: int| 0 <= i < high.len() implies !pred(#[trigger] high[i]) by {
                    assert(high[i] == before[at + i]);
                }
                high.lemma_all_neg_filter_empty(pred);
                assert(high.filter(pred) =~= Seq::empty());
                assert(low.filter(pred).push(e) + Seq::empty() =~= (low.filter(pred)
                    + Seq::empty()).push(e));
            }
        }
    } else {
        assert(lightest_first(s) =~= s);
    }
}

/// Where a condition holds of an entry only if it holds of all before it, those
/// of which it holds come first.
pub proof fn lemma_filter_is_prefix(
    s: Seq<CatalogEntryView>,
    pred: spec_fn(CatalogEntryView) -> bool,
)
    requires
        forall|i: int, j: int|
            0 <= i <= j < s.len() && pred(#[trigger] s[j]) ==> pred(#[trigger] s[i]),
    ensures
        s.filter(pred).len() <= s.len(),
        forall|i: int| 0 <= i < s.filter(pred).len() ==> pred(#[trigger] s[i]),
        forall|i: int| s.filter(pred).len() <= i < s.len() ==> !pred(#[trigger] s[i]),
    decreases s.len(),
{
    reveal(Seq::filter);
    if s.len() > 0 {
        let rest = s.drop_last();
        assert forall|i: int, j: int|
            0 <= i <= j < rest.len() && pred(#[trigger] rest[j]) implies pred(
            #[trigger] rest[i],
        ) by {
            assert(rest[i] == s[i] && rest[j] == s[j]);
        }
        lemma_filter_is_prefix(rest, pred);
        assert forall|i: int| 0 <= i < rest.len() implies rest[i] == s[i] by {}
        if pred(s.last()) {
            assert forall|i: int| 0 <= i < rest.len() implies pred(#[trigger] s[i]) by {
                assert(pred(s[s.len() - 1]));
            }
            if rest.filter(pred).len() < rest.len() {
                let k = rest.filter(pred).len() as int;
                assert(!pred(rest[k]));
                assert(pred(s[k]));
            }
        }
        assert forall|i: int| 0 <= i < s.filter(pred).len() implies pred(#[trigger] s[i]) by {
            if i < rest.filter(pred).len() {
                assert(pred(rest[i]));
            }
        }
        assert forall|i: int| s.filter(pred).len() <= i < s.len() implies !pred(
            #[trigger] s[i],
        ) by {
            if i < rest.len() {
                assert(!pred(rest[i]));
            }
        }
    }
}

/// The first `n` of each group, group by group.
spec fn heads(groups: Seq<Seq<CatalogEntryView>>, n: nat) -> Seq<CatalogEntryView>
    decreases groups.len(),
{
    if groups.len() == 0 {
        Seq::empty()
    } else {
        let last = groups.last();
        heads(groups.drop_last(), n) + last.take(
            if n < last.len() {
                n as int
            } else {
                last.len() as int
            },
        )
    }
}

proof fn lemma_heads_step(groups: Seq<Seq<CatalogEntryView>>, n: nat)
    ensures
        heads(groups, n + 1).to_multiset() == heads(groups, n).to_multiset().add(
            nth_of_each(groups, n).to_multiset(),
        ),
    decreases groups.len(),
{
    broadcast use {vstd::seq_lib::lemma_multiset_commutative, vstd::seq_lib::to_multiset_build};

    let before = groups.drop_last();
    if groups.len() > 0 {
        lemma_heads_step(before, n);
        let last = groups.last();
        if n < last.len() {
            assert(last.take((n + 1) as int) =~= last.take(n as int).push(last[n as int]));
            assert(heads(groups, n + 1).to_multiset() =~= heads(groups, n).to_multiset().add(
                nth_of_each(groups, n).to_multiset(),
            ));
        } else {
            assert(heads(groups, n + 1).to_multiset() =~= heads(groups, n).to_multiset().add(
                nth_of_each(groups, n).to_multiset(),
            ));
        }
    } else {
        assert(heads(groups, n + 1) =~= Seq::empty());
        assert(heads(groups, n) =~= Seq::empty());
        assert(nth_of_each(groups, n) =~= Seq::empty());
        assert(Seq::<CatalogEntryView>::empty().to_multiset().add(
            Seq::<CatalogEntryView>::empty().to_multiset(),
        ) =~= Seq::<CatalogEntryView>::empty().to_multiset()) by {
            vstd::seq_lib::to_multiset_len(Seq::<CatalogEntryView>::empty());
        }
    }
}

proof fn lemma_rounds_are_heads(groups: Seq<Seq<CatalogEntryView>>, n: nat)
    ensures
        rounds(groups, n).to_multiset() == heads(groups, n).to_multiset(),
    decreases n,
{
    broadcast use vstd::seq_lib::lemma_multiset_commutative;

    if n > 0 {
        lemma_rounds_are_heads(groups, (n - 1) as nat);
        lemma_heads_step(groups, (n - 1) as nat);
    } else {
        lemma_no_heads(groups);
    }
}

proof fn lemma_no_heads(groups: Seq<Seq<CatalogEntryView>>)
    ensures
        heads(groups, 0) == Seq::<CatalogEntryView>::empty(),
    decreases groups.len(),
{
    if groups.len() > 0 {
        lemma_no_heads(groups.drop_last());
        assert(heads(groups, 0) =~= Seq::empty());
    }
}

proof fn lemma_heads_grow(
    groups: Seq<Seq<CatalogEntryView>>,
    k: int,
    e: CatalogEntryView,
    n: nat,
)
    requires
        0 <= k < groups.len(),
        groups[k].len() < n,
    ensures
        heads(groups.update(k, groups[k].push(e)), n).to_multiset() == heads(
            groups,
            n,
        ).to_multiset().insert(e),
    decreases groups.len(),
{
    broadcast use {vstd::seq_lib::lemma_multiset_commutative, vstd::seq_lib::to_multiset_build};

    let grown = groups.update(k, groups[k].push(e));
    if k == groups.len() - 1 {
        assert(grown.drop_last() =~= groups.drop_last());
        assert(grown.last().take(grown.last().len() as int) =~= grown.last());
        assert(groups.last().take(groups.last().len() as int) =~= groups.last());
        assert(heads(grown, n).to_multiset() =~= heads(groups, n).to_multiset().insert(e));
    } else {
        lemma_heads_grow(groups.drop_last(), k, e, n);
        assert(grown.drop_last() =~= groups.drop_last().update(k, groups[k].push(e)));
        assert(heads(grown, n).to_multiset() =~= heads(groups, n).to_multiset().insert(e));
    }
}

proof fn lemma_groups_hold_all(s: Seq<CatalogEntryView>, n: nat)
    requires
        s.len() <= n,
    ensures
        heads(by_vendor(s), n).to_multiset() == s.to_multiset(),
    decreases s.len(),
{
    broadcast use {vstd::seq_lib::lemma_multiset_commutative, vstd::seq_lib::to_multiset_build};

    if s.len() > 0 {
        let rest = s.drop_last();
        let e = s.last();
        let groups = by_vendor(rest);
        lemma_groups_hold_all(rest, n);
        lemma_group_step(rest, e);
        lemma_vendors_distinct(rest);
        assert(rest.push(e) =~= s);
        if vendors(rest).contains(e.origin) {
            let k = vendors(rest).index_of(e.origin);
            rest.lemma_filter_len(|x: CatalogEntryView| x.origin == e.origin);
            lemma_heads_grow(groups, k, e, n);
            assert(by_vendor(s) =~= groups.update(k, groups[k].push(e)));
        } else {
            assert(by_vendor(s).drop_last() =~= groups);
            assert(seq![e].take(1) =~= Seq::empty().push(e));
            assert(heads(by_vendor(s), n) =~= heads(groups, n).push(e));
        }
    } else {
        assert(by_vendor(s) =~= Seq::empty());
        assert(heads(by_vendor(s), n) =~= s);
    }
}

/// Spreading a selection over vendors neither adds nor drops nor repeats a
/// model.
pub proof fn law_spread_keeps_all(s: Seq<CatalogEntryView>)
    ensures
        spread(s).to_multiset() == s.to_multiset(),
        spread(s).len() == s.len(),
{
    lemma_rounds_are_heads(by_vendor(s), s.len());
    lemma_groups_hold_all(s, s.len());
    vstd::seq_lib::to_multiset_len(s);
    vstd::seq_lib::to_multiset_len(spread(s));
}

/// Whether each group holds the models of one vendor, and no two groups those of
/// the same.
spec fn named_groups(groups: Seq<Seq<CatalogEntryView>>, names: Seq<Seq<char>>) -> bool {
    &&& groups.len() == names.len()
    &&& names.no_duplicates()
    &&& forall|g: int, m: int|
        0 <= g < groups.len() && 0 <= m < groups[g].len() ==> (
        #[trigger] groups[g][m]).origin == names[g]
}

/// [`named_groups`], with each group by weight.
spec fn grouped(groups: Seq<Seq<CatalogEntryView>>, names: Seq<Seq<char>>) -> bool {
    &&& named_groups(groups, names)
    &&& forall|g: int| 0 <= g < groups.len() ==> by_weight(#[trigger] groups[g])
}

/// Whether an entry is one of the first `n` of its group.
spec fn dealt(groups: Seq<Seq<CatalogEntryView>>, n: nat, e: CatalogEntryView) -> bool {
    exists|g: int, m: int|
        0 <= g < groups.len() && 0 <= m < n && m < groups[g].len() && #[trigger] groups[g][m] == e
}

/// Whether of two models of one vendor the lighter comes first.
pub open spec fn lighter_leads(s: Seq<CatalogEntryView>) -> bool {
    forall|i: int, j: int|
        0 <= i < j < s.len() && (#[trigger] s[i]).origin == (#[trigger] s[j]).origin
            ==> s[i].active_size_gb <= s[j].active_size_gb
}

proof fn lemma_nth_of_each(
    groups: Seq<Seq<CatalogEntryView>>,
    names: Seq<Seq<char>>,
    n: nat,
)
    requires
        grouped(groups, names),
    ensures
        ({
            let turn = nth_of_each(groups, n);
            &&& forall|i: int|
                0 <= i < turn.len() ==> exists|g: int|
                    0 <= g < groups.len() && n < groups[g].len() && (#[trigger] groups[g])[n as int]
                        == #[trigger] turn[i]
            &&& forall|i: int, j: int|
                0 <= i < j < turn.len() ==> (#[trigger] turn[i]).origin != (
                #[trigger] turn[j]).origin
        }),
    decreases groups.len(),
{
    if groups.len() > 0 {
        let rest = groups.drop_last();
        let rest_names = names.drop_last();
        assert(grouped(rest, rest_names)) by {
            assert forall|g: int| 0 <= g < rest.len() implies by_weight(#[trigger] rest[g]) by {
                assert(rest[g] == groups[g]);
            }
            assert forall|g: int, m: int|
                0 <= g < rest.len() && 0 <= m < rest[g].len() implies (
            #[trigger] rest[g][m]).origin == rest_names[g] by {
                assert(rest[g] == groups[g]);
                assert(groups[g][m].origin == names[g]);
            }
        }
        lemma_nth_of_each(rest, rest_names, n);
        let before = nth_of_each(rest, n);
        let turn = nth_of_each(groups, n);
        assert forall|i: int| 0 <= i < turn.len() implies exists|g: int|
            0 <= g < groups.len() && n < groups[g].len() && (#[trigger] groups[g])[n as int]
                == #[trigger] turn[i] by {
            if i < before.len() {
                let g = choose|g: int|
                    0 <= g < rest.len() && n < rest[g].len() && (#[trigger] rest[g])[n as int]
                        == before[i];
                assert(groups[g] == rest[g]);
                assert(turn[i] == before[i]);
            } else {
                assert(groups[groups.len() - 1][n as int] == turn[i]);
            }
        }
        assert forall|i: int, j: int| 0 <= i < j < turn.len() implies (
        #[trigger] turn[i]).origin != (#[trigger] turn[j]).origin by {
            assert(turn[i] == before[i]);
            if j < before.len() {
                assert(turn[j] == before[j]);
            } else {
                let g = choose|g: int|
                    0 <= g < rest.len() && n < rest[g].len() && (#[trigger] rest[g])[n as int]
                        == before[i];
                assert(rest[g] == groups[g]);
                assert(groups[g][n as int].origin == names[g]);
                assert(groups[groups.len() - 1][n as int].origin == names[groups.len() - 1]);
            }
        }
    }
}

proof fn lemma_rounds_order(
    groups: Seq<Seq<CatalogEntryView>>,
    names: Seq<Seq<char>>,
    n: nat,
)
    requires
        grouped(groups, names),
    ensures
        forall|i: int|
            0 <= i < rounds(groups, n).len() ==> dealt(groups, n, #[trigger] rounds(groups, n)[i]),
        lighter_leads(rounds(groups, n)),
    decreases n,
{
    if n > 0 {
        let last = (n - 1) as nat;
        let before = rounds(groups, last);
        let turn = nth_of_each(groups, last);
        let all = rounds(groups, n);
        lemma_rounds_order(groups, names, last);
        lemma_nth_of_each(groups, names, last);
        assert forall|i: int| 0 <= i < all.len() implies dealt(groups, n, #[trigger] all[i]) by {
            if i < before.len() {
                assert(dealt(groups, last, before[i]));
                let (g, m) = choose|g: int, m: int|
                    0 <= g < groups.len() && 0 <= m < last && m < groups[g].len()
                        && #[trigger] groups[g][m] == before[i];
                assert(groups[g][m] == all[i]);
            } else {
                let g = choose|g: int|
                    0 <= g < groups.len() && last < groups[g].len() && (
                    #[trigger] groups[g])[last as int] == turn[i - before.len()];
                assert(groups[g][last as int] == all[i]);
            }
        }
        assert forall|i: int, j: int|
            0 <= i < j < all.len() && (#[trigger] all[i]).origin == (
            #[trigger] all[j]).origin implies all[i].active_size_gb <= all[j].active_size_gb by {
            if j < before.len() {
                assert(all[i] == before[i] && all[j] == before[j]);
            } else {
                let b = choose|g: int|
                    0 <= g < groups.len() && last < groups[g].len() && (
                    #[trigger] groups[g])[last as int] == turn[j - before.len()];
                assert(groups[b][last as int] == all[j]);
                if i < before.len() {
                    assert(dealt(groups, last, before[i]));
                    let (g, m) = choose|g: int, m: int|
                        0 <= g < groups.len() && 0 <= m < last && m < groups[g].len()
                            && #[trigger] groups[g][m] == before[i];
                    assert(groups[g][m] == all[i]);
                    assert(names[g] == names[b]);
                    assert(g == b);
                    assert(by_weight(groups[g]));
                } else {
                    assert(turn[i - before.len()].origin != turn[j - before.len()].origin);
                }
            }
        }
    }
}

proof fn lemma_filter_by_weight(
    s: Seq<CatalogEntryView>,
    pred: spec_fn(CatalogEntryView) -> bool,
)
    requires
        by_weight(s),
    ensures
        by_weight(s.filter(pred)),
        s.filter(pred).len() > 0 ==> s.len() > 0 && s.filter(pred).last().active_size_gb
            <= s.last().active_size_gb,
    decreases s.len(),
{
    reveal(Seq::filter);
    if s.len() > 0 {
        let rest = s.drop_last();
        assert(by_weight(rest));
        lemma_filter_by_weight(rest, pred);
        let before = rest.filter(pred);
        if before.len() > 0 {
            assert(rest.last() == s[s.len() - 2]);
            assert(s[s.len() - 2].active_size_gb <= s[s.len() - 1].active_size_gb);
            assert forall|i: int| 0 <= i < before.len() implies (
            #[trigger] before[i]).active_size_gb <= s.last().active_size_gb by {
                assert(before[i].active_size_gb <= before[before.len() - 1].active_size_gb);
            }
        }
    }
}

proof fn lemma_grouped(s: Seq<CatalogEntryView>)
    requires
        by_weight(s),
    ensures
        grouped(by_vendor(s), vendors(s)),
{
    lemma_vendors_distinct(s);
    assert forall|g: int| 0 <= g < by_vendor(s).len() implies by_weight(
        #[trigger] by_vendor(s)[g],
    ) by {
        lemma_filter_by_weight(s, |e: CatalogEntryView| e.origin == vendors(s)[g]);
    }
    assert forall|g: int, m: int|
        0 <= g < by_vendor(s).len() && 0 <= m < by_vendor(s)[g].len() implies (
    #[trigger] by_vendor(s)[g][m]).origin == vendors(s)[g] by {
        s.lemma_filter_pred(|e: CatalogEntryView| e.origin == vendors(s)[g], m);
    }
}

/// In a selection spread over vendors, the lighter of two models of one vendor
/// comes first: each vendor leads with its lightest.
pub proof fn law_vendors_lead_with_their_lightest(s: Seq<CatalogEntryView>)
    requires
        by_weight(s),
    ensures
        lighter_leads(spread(s)),
{
    lemma_grouped(s);
    lemma_rounds_order(by_vendor(s), vendors(s), s.len());
}

proof fn lemma_vendors_have_models(s: Seq<CatalogEntryView>)
    ensures
        forall|g: int| 0 <= g < by_vendor(s).len() ==> (#[trigger] by_vendor(s)[g]).len() > 0,
    decreases s.len(),
{
    if s.len() > 0 {
        let rest = s.drop_last();
        lemma_vendors_have_models(rest);
        lemma_group_step(rest, s.last());
        assert(rest.push(s.last()) =~= s);
        assert forall|g: int| 0 <= g < by_vendor(s).len() implies (
        #[trigger] by_vendor(s)[g]).len() > 0 by {
            if g < vendors(rest).len() {
                assert(by_vendor(rest)[g].len() > 0);
            }
        }
    }
}

proof fn lemma_first_of_each(groups: Seq<Seq<CatalogEntryView>>)
    requires
        forall|g: int| 0 <= g < groups.len() ==> (#[trigger] groups[g]).len() > 0,
    ensures
        nth_of_each(groups, 0).len() == groups.len(),
        forall|g: int| 0 <= g < groups.len() ==> #[trigger] nth_of_each(groups, 0)[g] == groups[g][0],
    decreases groups.len(),
{
    if groups.len() > 0 {
        let rest = groups.drop_last();
        assert forall|g: int| 0 <= g < rest.len() implies (#[trigger] rest[g]).len() > 0 by {
            assert(rest[g] == groups[g]);
        }
        lemma_first_of_each(rest);
        assert(groups.last() == groups[groups.len() - 1]);
        assert forall|g: int| 0 <= g < groups.len() implies #[trigger] nth_of_each(groups, 0)[g]
            == groups[g][0] by {
            if g < rest.len() {
                assert(nth_of_each(rest, 0)[g] == rest[g][0]);
            }
        }
    }
}

proof fn lemma_rounds_begin(groups: Seq<Seq<CatalogEntryView>>, n: nat)
    requires
        n >= 1,
    ensures
        rounds(groups, n).len() >= nth_of_each(groups, 0).len(),
        forall|i: int|
            0 <= i < nth_of_each(groups, 0).len() ==> #[trigger] rounds(groups, n)[i]
                == nth_of_each(groups, 0)[i],
    decreases n,
{
    if n > 1 {
        lemma_rounds_begin(groups, (n - 1) as nat);
    } else {
        assert(rounds(groups, 0) =~= Seq::empty());
    }
}

/// A selection spread over vendors begins with one model of each vendor, in the
/// order in which the vendors first appear, before any vendor comes again.
pub proof fn law_every_vendor_gets_a_turn(s: Seq<CatalogEntryView>)
    ensures
        vendors(s).no_duplicates(),
        vendors(s).len() <= spread(s).len(),
        forall|i: int|
            0 <= i < s.len() ==> vendors(s).contains((#[trigger] s[i]).origin),
        forall|k: int|
            0 <= k < vendors(s).len() ==> (#[trigger] spread(s)[k]).origin == vendors(s)[k],
{
    lemma_vendors_distinct(s);
    if s.len() > 0 {
        let groups = by_vendor(s);
        lemma_vendors_have_models(s);
        lemma_first_of_each(groups);
        lemma_rounds_begin(groups, s.len());
        assert forall|k: int| 0 <= k < vendors(s).len() implies (#[trigger] spread(s)[k]).origin
            == vendors(s)[k] by {
            assert(spread(s)[k] == nth_of_each(groups, 0)[k]);
            s.lemma_filter_pred(|e: CatalogEntryView| e.origin == vendors(s)[k], 0);
        }
    }
}

/// How many of the entries are one vendor's.
pub open spec fn count_of(s: Seq<CatalogEntryView>, origin: Seq<char>) -> nat {
    models_of(s, origin).len()
}

proof fn lemma_count_add(a: Seq<CatalogEntryView>, b: Seq<CatalogEntryView>, origin: Seq<char>)
    ensures
        count_of(a + b, origin) == count_of(a, origin) + count_of(b, origin),
{
    Seq::filter_distributes_over_add(a, b, |e: CatalogEntryView| e.origin == origin);
}

/// A turn brings one model of each vendor that has one left.
proof fn lemma_turn_counts(
    groups: Seq<Seq<CatalogEntryView>>,
    names: Seq<Seq<char>>,
    n: nat,
    origin: Seq<char>,
)
    requires
        named_groups(groups, names),
    ensures
        !names.contains(origin) ==> count_of(nth_of_each(groups, n), origin) == 0,
        forall|g: int|
            0 <= g < groups.len() && #[trigger] names[g] == origin ==> count_of(
                nth_of_each(groups, n),
                origin,
            ) == if n < groups[g].len() {
                1nat
            } else {
                0nat
            },
    decreases groups.len(),
{
    let pred = |e: CatalogEntryView| e.origin == origin;
    if groups.len() == 0 {
        reveal(Seq::filter);
        assert(nth_of_each(groups, n) =~= Seq::empty());
    } else {
        let rest = groups.drop_last();
        let rest_names = names.drop_last();
        assert(named_groups(rest, rest_names)) by {
            assert forall|g: int, m: int|
                0 <= g < rest.len() && 0 <= m < rest[g].len() implies (
            #[trigger] rest[g][m]).origin == rest_names[g] by {
                assert(groups[g][m].origin == names[g]);
            }
        }
        lemma_turn_counts(rest, rest_names, n, origin);
        let before = nth_of_each(rest, n);
        let last = groups.last();
        if n < last.len() {
            assert(groups[groups.len() - 1][n as int].origin == names[groups.len() - 1]);
            before.lemma_filter_push(last[n as int], pred);
        }
        if names.last() == origin {
            assert(!rest_names.contains(origin)) by {
                if rest_names.contains(origin) {
                    let k = rest_names.index_of(origin);
                    assert(names[k] == names[names.len() - 1]);
                }
            }
            assert forall|g: int| 0 <= g < groups.len() && #[trigger] names[g] == origin implies g
                == groups.len() - 1 by {}
        } else {
            assert(rest_names.contains(origin) ==> names.contains(origin)) by {
                if rest_names.contains(origin) {
                    let k = rest_names.index_of(origin);
                    assert(names[k] == origin);
                }
            }
            assert forall|g: int| 0 <= g < groups.len() && #[trigger] names[g] == origin implies g
                < rest.len() && rest_names[g] == origin && rest[g] == groups[g] by {}
        }
    }
}

/// After `n` rounds each vendor has had `n` turns, or as many as it has models.
proof fn lemma_round_counts(
    groups: Seq<Seq<CatalogEntryView>>,
    names: Seq<Seq<char>>,
    n: nat,
    g: int,
)
    requires
        named_groups(groups, names),
        0 <= g < groups.len(),
    ensures
        count_of(rounds(groups, n), names[g]) == if n < groups[g].len() {
            n
        } else {
            groups[g].len()
        },
    decreases n,
{
    if n == 0 {
        reveal(Seq::filter);
        assert(rounds(groups, 0) =~= Seq::empty());
    } else {
        let before = (n - 1) as nat;
        lemma_round_counts(groups, names, before, g);
        lemma_turn_counts(groups, names, before, names[g]);
        lemma_count_add(rounds(groups, before), nth_of_each(groups, before), names[g]);
    }
}

/// The round in which a selection is cut off: each vendor has had its turn in
/// all rounds before it.
proof fn lemma_cut_off_counts(
    groups: Seq<Seq<CatalogEntryView>>,
    names: Seq<Seq<char>>,
    n: nat,
    k: int,
) -> (round: nat)
    requires
        named_groups(groups, names),
        0 <= k <= rounds(groups, n).len(),
    ensures
        forall|g: int|
            0 <= g < groups.len() ==> {
                let had = count_of(rounds(groups, n).take(k), #[trigger] names[g]);
                &&& had <= round + 1
                &&& had <= groups[g].len()
                &&& had >= round || had == groups[g].len()
            },
    decreases n,
{
    let all = rounds(groups, n);
    if n == 0 {
        assert forall|g: int| 0 <= g < groups.len() implies count_of(
            all.take(k),
            #[trigger] names[g],
        ) == 0 by {
            reveal(Seq::filter);
        }
        0
    } else {
        let before = rounds(groups, (n - 1) as nat);
        let turn = nth_of_each(groups, (n - 1) as nat);
        if k <= before.len() {
            assert(all.take(k) =~= before.take(k));
            lemma_cut_off_counts(groups, names, (n - 1) as nat, k)
        } else {
            let some = turn.take(k - before.len());
            assert(all.take(k) =~= before + some);
            assert forall|g: int| 0 <= g < groups.len() implies {
                let had = count_of(all.take(k), #[trigger] names[g]);
                &&& had <= n
                &&& had <= groups[g].len()
                &&& had >= n - 1 || had == groups[g].len()
            } by {
                let pred = |e: CatalogEntryView| e.origin == names[g];
                lemma_round_counts(groups, names, (n - 1) as nat, g);
                lemma_turn_counts(groups, names, (n - 1) as nat, names[g]);
                lemma_count_add(before, some, names[g]);
                turn.lemma_filter_take_len(pred, k - before.len());
            }
            (n - 1) as nat
        }
    }
}

/// Vendors take fair turns: wherever a selection spread over vendors is cut off,
/// no vendor is more than one model ahead of another that has models left.
pub proof fn law_vendors_take_fair_turns(
    s: Seq<CatalogEntryView>,
    n: int,
    a: Seq<char>,
    b: Seq<char>,
)
    requires
        0 <= n <= spread(s).len(),
        vendors(s).contains(a),
        vendors(s).contains(b),
    ensures
        count_of(spread(s).take(n), a) <= count_of(spread(s).take(n), b) + 1 || count_of(
            spread(s).take(n),
            b,
        ) == count_of(s, b),
{
    let groups = by_vendor(s);
    let names = vendors(s);
    lemma_vendors_distinct(s);
    assert forall|g: int, m: int|
        0 <= g < groups.len() && 0 <= m < groups[g].len() implies (
    #[trigger] groups[g][m]).origin == names[g] by {
        s.lemma_filter_pred(|e: CatalogEntryView| e.origin == names[g], m);
    }
    let round = lemma_cut_off_counts(groups, names, s.len(), n);
    let i = names.index_of(a);
    let j = names.index_of(b);
    assert(names[i] == a && names[j] == b);
}

proof fn lemma_leaders_by_weight(s: Seq<CatalogEntryView>)
    requires
        by_weight(s),
    ensures
        forall|g: int, h: int|
            0 <= g <= h < by_vendor(s).len() ==> (#[trigger] by_vendor(s)[g])[0].active_size_gb <= (
            #[trigger] by_vendor(s)[h])[0].active_size_gb,
        forall|g: int|
            0 <= g < by_vendor(s).len() ==> (#[trigger] by_vendor(s)[g])[0].active_size_gb
                <= s.last().active_size_gb,
    decreases s.len(),
{
    if s.len() > 0 {
        let rest = s.drop_last();
        let e = s.last();
        assert(rest.push(e) =~= s);
        assert forall|i: int, j: int| 0 <= i <= j < rest.len() implies (
        #[trigger] rest[i]).active_size_gb <= (#[trigger] rest[j]).active_size_gb by {
            assert(rest[i] == s[i] && rest[j] == s[j]);
        }
        lemma_leaders_by_weight(rest);
        lemma_group_step(rest, e);
        lemma_vendors_have_models(rest);
        if rest.len() > 0 {
            assert(s[rest.len() - 1].active_size_gb <= s[s.len() - 1].active_size_gb);
        }
        assert forall|g: int| 0 <= g < by_vendor(rest).len() implies (
        #[trigger] by_vendor(s)[g])[0] == by_vendor(rest)[g][0] by {
            assert(by_vendor(rest)[g].len() > 0);
        }
        assert forall|g: int| 0 <= g < by_vendor(s).len() implies (
        #[trigger] by_vendor(s)[g])[0].active_size_gb <= e.active_size_gb by {
            if g < by_vendor(rest).len() {
                assert(rest.len() > 0);
                assert(by_vendor(rest)[g][0].active_size_gb <= rest.last().active_size_gb);
            }
        }
        assert forall|g: int, h: int| 0 <= g <= h < by_vendor(s).len() implies (
        #[trigger] by_vendor(s)[g])[0].active_size_gb <= (
        #[trigger] by_vendor(s)[h])[0].active_size_gb by {
            if h < by_vendor(rest).len() {
                assert(by_vendor(rest)[g][0].active_size_gb
                    <= by_vendor(rest)[h][0].active_size_gb);
            } else {
                assert(by_vendor(s)[h] == seq![e]);
            }
        }
    }
}

/// In a selection spread over vendors, the vendors come in the order of their
/// lightest models, so that the lightest of all comes first.
pub proof fn law_lighter_vendors_come_first(s: Seq<CatalogEntryView>)
    requires
        by_weight(s),
    ensures
        forall|i: int, j: int|
            0 <= i <= j < vendors(s).len() ==> (#[trigger] spread(s)[i]).active_size_gb <= (
            #[trigger] spread(s)[j]).active_size_gb,
        s.len() > 0 ==> vendors(s).len() > 0,
{
    lemma_vendors_distinct(s);
    if s.len() > 0 {
        let groups = by_vendor(s);
        assert(vendors(s).contains(s[0].origin));
        lemma_vendors_have_models(s);
        lemma_first_of_each(groups);
        lemma_rounds_begin(groups, s.len());
        lemma_leaders_by_weight(s);
        assert forall|i: int, j: int| 0 <= i <= j < vendors(s).len() implies (
        #[trigger] spread(s)[i]).active_size_gb <= (#[trigger] spread(s)[j]).active_size_gb by {
            assert(spread(s)[i] == nth_of_each(groups, 0)[i]);
            assert(spread(s)[j] == nth_of_each(groups, 0)[j]);
            assert(groups[i][0].active_size_gb <= groups[j][0].active_size_gb);
        }
    }
}

} // verus!
