use vstd::prelude::*;

verus! {

/// The abstract content of a configuration: the hosted zone, the record
/// names that are kept pointed at the current address, and their TTL.
pub struct ConfigView {
    pub zone_id: Seq<char>,
    pub records: Seq<Seq<char>>,
    pub ttl: i64,
}

/// The configuration file of the updater.
#[derive(Debug, PartialEq, Eq)]
pub struct Config {
    pub zone_id: String,
    pub records: Vec<String>,
    pub ttl: i64,
}

impl View for Config {
    type V = ConfigView;

    open spec fn view(&self) -> ConfigView {
        ConfigView { zone_id: self.zone_id@, records: self.records.deep_view(), ttl: self.ttl }
    }
}

/// The predicate "is not one of `list`".
pub open spec fn not_in(list: Seq<Seq<char>>) -> spec_fn(Seq<char>) -> bool {
    |r: Seq<char>| !list.contains(r)
}

/// The records after adding `added` to `current`: the current ones in their
/// order, then each added one that was not configured yet, in its order.
pub open spec fn records_after_add(current: Seq<Seq<char>>, added: Seq<Seq<char>>) -> Seq<Seq<char>> {
    current + added.filter(not_in(current))
}

/// The records after removing every one of `removed` from `current`, the rest
/// keeping their order.
pub open spec fn records_after_remove(current: Seq<Seq<char>>, removed: Seq<Seq<char>>) -> Seq<Seq<char>> {
    current.filter(not_in(removed))
}

/// Filtering a sequence extended by one element.
pub proof fn lemma_filter_push(s: Seq<Seq<char>>, p: spec_fn(Seq<char>) -> bool, e: Seq<char>)
    ensures
        s.push(e).filter(p) == (if p(e) { s.filter(p).push(e) } else { s.filter(p) }),
{
    reveal(Seq::filter);
    assert(s.push(e).drop_last() =~= s);
}

/// Whether `list` holds a string equal to `item`.
pub fn contains_string(list: &Vec<String>, item: &String) -> (found: bool)
    ensures
        found == list.deep_view().contains(item@),
{
    let mut i: usize = 0;
    while i < list.len()
        invariant
            i <= list.len(),
            forall|j: int| 0 <= j < i ==> list.deep_view()[j] != item@,
        decreases list.len() - i,
    {
        if list[i] == *item {
            assert(list.deep_view()[i as int] == item@);
            return true;
        }
        i = i + 1;
    }
    false
}

/// The strings of `candidates` that `exclude` does not hold, in order.
pub fn strings_not_in(candidates: &Vec<String>, exclude: &Vec<String>) -> (kept: Vec<String>)
    ensures
        kept.deep_view() == candidates.deep_view().filter(not_in(exclude.deep_view())),
{
    let ghost p = not_in(exclude.deep_view());
    let mut kept: Vec<String> = Vec::new();
    let mut i: usize = 0;
    assert(candidates.deep_view().take(0) =~= Seq::<Seq<char>>::empty());
    proof {
        reveal(Seq::filter);
    }
    while i < candidates.len()
        invariant
            i <= candidates.len(),
            p == not_in(exclude.deep_view()),
            kept.deep_view() == candidates.deep_view().take(i as int).filter(p),
        decreases candidates.len() - i,
    {
        let item = &candidates[i];
        let present = contains_string(exclude, item);
        proof {
            lemma_filter_push(candidates.deep_view().take(i as int), p, item@);
            assert(candidates.deep_view().take(i as int).push(item@)
                =~= candidates.deep_view().take(i + 1));
        }
        if !present {
            kept.push(item.clone());
            assert(kept.deep_view() =~= candidates.deep_view().take(i as int).filter(p).push(item@));
        }
        i = i + 1;
    }
    assert(candidates.deep_view().take(i as int) =~= candidates.deep_view());
    kept
}


/// An element is in a filtered sequence exactly when it is in the sequence
/// and passes the predicate.
pub proof fn lemma_filter_contains_iff(s: Seq<Seq<char>>, p: spec_fn(Seq<char>) -> bool, x: Seq<char>)
    ensures
        s.filter(p).contains(x) <==> (s.contains(x) && p(x)),
{
    if s.filter(p).contains(x) {
        s.lemma_filter_contains_rev(p, x);
        let i = choose|i: int| 0 <= i < s.filter(p).len() && s.filter(p)[i] == x;
        s.lemma_filter_pred(p, i);
    }
    if s.contains(x) && p(x) {
        let i = choose|i: int| 0 <= i < s.len() && s[i] == x;
        s.lemma_filter_contains(p, i);
    }
}

/// Filtering by a predicate that every element passes changes nothing.
pub proof fn lemma_filter_all_pass(s: Seq<Seq<char>>, p: spec_fn(Seq<char>) -> bool)
    requires
        forall|i: int| 0 <= i < s.len() ==> p(#[trigger] s[i]),
    ensures
        s.filter(p) == s,
    decreases s.len(),
{
    reveal(Seq::filter);
    if s.len() > 0 {
        lemma_filter_all_pass(s.drop_last(), p);
        assert(p(s[s.len() - 1]));
        assert(s.drop_last().push(s.last()) =~= s);
    }
}

/// Filtering by a predicate that no element passes leaves nothing.
pub proof fn lemma_filter_none_pass(s: Seq<Seq<char>>, p: spec_fn(Seq<char>) -> bool)
    requires
        forall|i: int| 0 <= i < s.len() ==> !p(#[trigger] s[i]),
    ensures
        s.filter(p) == Seq::<Seq<char>>::empty(),
    decreases s.len(),
{
    reveal(Seq::filter);
    if s.len() > 0 {
        lemma_filter_none_pass(s.drop_last(), p);
        assert(!p(s[s.len() - 1]));
    } else {
        assert(s.filter(p) =~= Seq::<Seq<char>>::empty());
    }
}

/// Filtering keeps a sequence free of repetitions.
pub proof fn lemma_filter_no_duplicates(s: Seq<Seq<char>>, p: spec_fn(Seq<char>) -> bool)
    requires
        s.no_duplicates(),
    ensures
        s.filter(p).no_duplicates(),
    decreases s.len(),
{
    reveal(Seq::filter);
    if s.len() > 0 {
        let rest = s.drop_last();
        assert(rest.no_duplicates());
        lemma_filter_no_duplicates(rest, p);
        if p(s.last()) {
            lemma_filter_contains_iff(rest, p, s.last());
            assert(!rest.contains(s.last()));
            let f = rest.filter(p);
            assert forall|i: int, j: int| 0 <= i < j < f.push(s.last()).len()
                implies f.push(s.last())[i] != f.push(s.last())[j] by {
                if j == f.len() {
                    assert(f.contains(f[i]));
                }
            }
        }
    }
}

/// Law: adding records keeps every configured record, in its place, and
/// afterwards a record is configured exactly when it was before or was added.
pub proof fn law_add_keeps_and_includes(current: Seq<Seq<char>>, added: Seq<Seq<char>>)
    ensures
        records_after_add(current, added).take(current.len() as int) == current,
        forall|r: Seq<char>| #[trigger] records_after_add(current, added).contains(r)
            <==> (current.contains(r) || added.contains(r)),
{
    let res = records_after_add(current, added);
    assert(res.take(current.len() as int) =~= current);
    assert forall|r: Seq<char>| #[trigger] res.contains(r)
        <==> (current.contains(r) || added.contains(r)) by {
        lemma_filter_contains_iff(added, not_in(current), r);
        let f = added.filter(not_in(current));
        if res.contains(r) {
            let i = choose|i: int| 0 <= i < res.len() && res[i] == r;
            if i >= current.len() {
                assert(f[i - current.len()] == r);
                assert(f.contains(r));
            } else {
                assert(current[i] == r);
            }
        }
        if current.contains(r) {
            let i = choose|i: int| 0 <= i < current.len() && current[i] == r;
            assert(res[i] == r);
        } else if added.contains(r) {
            assert(f.contains(r));
            let k = choose|k: int| 0 <= k < f.len() && f[k] == r;
            assert(res[current.len() + k] == r);
        }
    }
}

/// Law: adding the same records a second time changes nothing.
pub proof fn law_add_idempotent(current: Seq<Seq<char>>, added: Seq<Seq<char>>)
    ensures
        records_after_add(records_after_add(current, added), added) == records_after_add(current, added),
{
    let once = records_after_add(current, added);
    law_add_keeps_and_includes(current, added);
    assert forall|i: int| 0 <= i < added.len() implies !#[trigger] not_in(once)(added[i]) by {
        assert(added.contains(added[i]));
        assert(once.contains(added[i]));
    }
    lemma_filter_none_pass(added, not_in(once));
    assert(once + Seq::<Seq<char>>::empty() =~= once);
}

/// Law: a configuration free of repetitions stays so when a list of distinct
/// records is added.
pub proof fn law_add_no_duplicates(current: Seq<Seq<char>>, added: Seq<Seq<char>>)
    requires
        current.no_duplicates(),
        added.no_duplicates(),
    ensures
        records_after_add(current, added).no_duplicates(),
{
    let f = added.filter(not_in(current));
    let res = records_after_add(current, added);
    lemma_filter_no_duplicates(added, not_in(current));
    assert forall|i: int, j: int| 0 <= i < j < res.len() implies res[i] != res[j] by {
        if i < current.len() && j >= current.len() {
            assert(f.contains(f[j - current.len()]));
            lemma_filter_contains_iff(added, not_in(current), f[j - current.len()]);
            assert(current.contains(current[i]));
        } else if i >= current.len() {
            assert(res[i] == f[i - current.len()]);
            assert(res[j] == f[j - current.len()]);
        }
    }
}

/// Law: after removing records, a record is configured exactly when it was
/// before and was not removed.
pub proof fn law_remove_excludes(current: Seq<Seq<char>>, removed: Seq<Seq<char>>)
    ensures
        forall|r: Seq<char>| #[trigger] records_after_remove(current, removed).contains(r)
            <==> (current.contains(r) && !removed.contains(r)),
{
    assert forall|r: Seq<char>| #[trigger] records_after_remove(current, removed).contains(r)
        <==> (current.contains(r) && !removed.contains(r)) by {
        lemma_filter_contains_iff(current, not_in(removed), r);
    }
}

/// Law: removing records a second time changes nothing.
pub proof fn law_remove_idempotent(current: Seq<Seq<char>>, removed: Seq<Seq<char>>)
    ensures
        records_after_remove(records_after_remove(current, removed), removed)
            == records_after_remove(current, removed),
{
    let once = records_after_remove(current, removed);
    assert forall|i: int| 0 <= i < once.len() implies #[trigger] not_in(removed)(once[i]) by {
        current.lemma_filter_pred(not_in(removed), i);
    }
    lemma_filter_all_pass(once, not_in(removed));
}

/// Law: removing the records that were just added gives what removing them
/// from the configuration before the addition gives; when none of them was
/// configured before, that is the configuration before the addition.
pub proof fn law_remove_undoes_add(current: Seq<Seq<char>>, added: Seq<Seq<char>>)
    ensures
        records_after_remove(records_after_add(current, added), added)
            == records_after_remove(current, added),
        (forall|r: Seq<char>| #[trigger] added.contains(r) ==> !current.contains(r))
            ==> records_after_remove(records_after_add(current, added), added) == current,
{
    let f = added.filter(not_in(current));
    reveal(Seq::filter);
    Seq::filter_distributes_over_add(current, f, not_in(added));
    assert forall|i: int| 0 <= i < f.len() implies !#[trigger] not_in(added)(f[i]) by {
        assert(f.contains(f[i]));
        lemma_filter_contains_iff(added, not_in(current), f[i]);
    }
    lemma_filter_none_pass(f, not_in(added));
    assert(current.filter(not_in(added)) + Seq::<Seq<char>>::empty() =~= current.filter(not_in(added)));
    if forall|r: Seq<char>| #[trigger] added.contains(r) ==> !current.contains(r) {
        assert forall|i: int| 0 <= i < current.len() implies #[trigger] not_in(added)(current[i]) by {
            assert(current.contains(current[i]));
        }
        lemma_filter_all_pass(current, not_in(added));
    }
}

/// Whether `selected` is the in-order selection of the elements of `s` that
/// `keep` accepts: `selected[k]` is `s[idx[k]]` for positions `idx` that
/// increase strictly, and every position of `s` whose element is accepted is
/// one of them.
pub open spec fn is_ordered_selection(
    selected: Seq<Seq<char>>,
    s: Seq<Seq<char>>,
    keep: spec_fn(Seq<char>) -> bool,
) -> bool {
    exists|idx: Seq<int>| {
        &&& #[trigger] idx.len() == selected.len()
        &&& forall|k: int| 0 <= k < idx.len() ==> 0 <= #[trigger] idx[k] < s.len()
        &&& forall|k: int, l: int| 0 <= k < l < idx.len() ==> #[trigger] idx[k] < #[trigger] idx[l]
        &&& forall|k: int| 0 <= k < idx.len() ==> #[trigger] selected[k] == s[idx[k]] && keep(s[idx[k]])
        &&& forall|i: int| 0 <= i < s.len() && keep(#[trigger] s[i]) ==> exists|k: int|
            0 <= k < idx.len() && #[trigger] idx[k] == i
    }
}

/// The positions that `filter` keeps.
spec fn kept_positions(s: Seq<Seq<char>>, p: spec_fn(Seq<char>) -> bool) -> Seq<int>
    decreases s.len(),
{
    if s.len() == 0 {
        Seq::empty()
    } else if p(s.last()) {
        kept_positions(s.drop_last(), p).push(s.len() - 1)
    } else {
        kept_positions(s.drop_last(), p)
    }
}

proof fn lemma_filter_is_ordered_selection(s: Seq<Seq<char>>, p: spec_fn(Seq<char>) -> bool)
    ensures
        ({
            let f = s.filter(p);
            let idx = kept_positions(s, p);
            &&& idx.len() == f.len()
            &&& forall|k: int| 0 <= k < idx.len() ==> 0 <= #[trigger] idx[k] < s.len()
            &&& forall|k: int, l: int| 0 <= k < l < idx.len() ==> #[trigger] idx[k] < #[trigger] idx[l]
            &&& forall|k: int| 0 <= k < idx.len() ==> #[trigger] f[k] == s[idx[k]] && p(s[idx[k]])
            &&& forall|i: int| 0 <= i < s.len() && p(#[trigger] s[i]) ==> exists|k: int|
                0 <= k < idx.len() && #[trigger] idx[k] == i
        }),
    decreases s.len(),
{
    reveal(Seq::filter);
    if s.len() > 0 {
        let init = s.drop_last();
        lemma_filter_is_ordered_selection(init, p);
        let f = s.filter(p);
        let idx = kept_positions(s, p);
        let fi = init.filter(p);
        let ii = kept_positions(init, p);
        assert forall|k: int| 0 <= k < ii.len() implies #[trigger] s[ii[k]] == init[ii[k]] by {}
        assert forall|k: int| 0 <= k < idx.len() implies #[trigger] f[k] == s[idx[k]] && p(s[idx[k]]) by {
            if k < ii.len() {
                assert(idx[k] == ii[k]);
                assert(f[k] == fi[k]);
                assert(s[ii[k]] == init[ii[k]]);
            }
        }
        assert forall|k: int, l: int| 0 <= k < l < idx.len() implies #[trigger] idx[k] < #[trigger] idx[l] by {
            if l < ii.len() {
                assert(idx[k] == ii[k] && idx[l] == ii[l]);
            } else {
                assert(idx[k] == ii[k]);
            }
        }
        assert forall|i: int| 0 <= i < s.len() && p(#[trigger] s[i]) implies exists|k: int|
            0 <= k < idx.len() && #[trigger] idx[k] == i by {
            if i < init.len() {
                assert(s[i] == init[i]);
                let k = choose|k: int| 0 <= k < ii.len() && #[trigger] ii[k] == i;
                assert(idx[k] == ii[k]);
            } else {
                assert(idx[idx.len() - 1] == i);
            }
        }
    }
}

/// Law: removing records keeps, in their order, exactly the configured
/// records that are not among the removed ones.
pub proof fn law_remove_keeps_order(current: Seq<Seq<char>>, removed: Seq<Seq<char>>)
    ensures
        is_ordered_selection(
            records_after_remove(current, removed),
            current,
            |r: Seq<char>| !removed.contains(r),
        ),
{
    let keep = |r: Seq<char>| !removed.contains(r);
    assert(not_in(removed) == keep);
    lemma_filter_is_ordered_selection(current, keep);
    let idx = kept_positions(current, keep);
    assert(idx.len() == records_after_remove(current, removed).len());
}

/// Law: adding records leaves the configured records first, unchanged, and
/// appends, in the order entered, exactly the entered records that were not
/// configured.
pub proof fn law_add_appends_in_order(current: Seq<Seq<char>>, added: Seq<Seq<char>>)
    ensures
        records_after_add(current, added).take(current.len() as int) == current,
        is_ordered_selection(
            records_after_add(current, added).skip(current.len() as int),
            added,
            |r: Seq<char>| !current.contains(r),
        ),
{
    let keep = |r: Seq<char>| !current.contains(r);
    assert(not_in(current) == keep);
    let res = records_after_add(current, added);
    assert(res.take(current.len() as int) =~= current);
    assert(res.skip(current.len() as int) =~= added.filter(keep));
    lemma_filter_is_ordered_selection(added, keep);
    let idx = kept_positions(added, keep);
    assert(idx.len() == res.skip(current.len() as int).len());
}

} // verus!
