use vstd::prelude::*;
use crate::config::Config;

verus! {

/// The fully qualified form of a record name, as the hosted zone stores it:
/// the name followed by a dot.
pub open spec fn fqdn_spec(record: Seq<char>) -> Seq<char> {
    record + "."@
}

/// The fully qualified form of `record` (see `fqdn_spec`).
pub fn fqdn(record: &str) -> (name: String)
    ensures
        name@ == fqdn_spec(record@),
{
    let mut name = record.to_owned();
    name.append(".");
    name
}

/// An upsert of an `A` record set: the name, its TTL, and the address that
/// its one resource record holds.
#[derive(Debug, PartialEq, Eq)]
pub struct RecordUpsert {
    pub name: String,
    pub ttl: i64,
    pub value: String,
}

/// The upserts that point each of `records` at the address `ip`, one per
/// record, in order, each with the TTL `ttl`.
pub fn upserts_for(records: &Vec<String>, ttl: i64, ip: &str) -> (changes: Vec<RecordUpsert>)
    ensures
        changes.len() == records.len(),
        forall|i: int| 0 <= i < changes.len() ==> {
            &&& (#[trigger] changes[i]).name@ == fqdn_spec(records.deep_view()[i])
            &&& changes[i].ttl == ttl
            &&& changes[i].value@ == ip@
        },
{
    let mut changes: Vec<RecordUpsert> = Vec::new();
    let n = records.len();
    let mut i: usize = 0;
    while i < n
        invariant
            n == records.len(),
            i <= n,
            changes.len() == i,
            forall|k: int| 0 <= k < i ==> {
                &&& (#[trigger] changes[k]).name@ == fqdn_spec(records.deep_view()[k])
                &&& changes[k].ttl == ttl
                &&& changes[k].value@ == ip@
            },
        decreases n - i,
    {
        let name = fqdn(records[i].as_str());
        changes.push(RecordUpsert { name, ttl, value: ip.to_owned() });
        i = i + 1;
    }
    changes
}

/// The upserts that point every configured record at the address `ip`, one
/// per record, in the configured order, each with the configured TTL.
pub fn upsert_changes(config: &Config, ip: &str) -> (changes: Vec<RecordUpsert>)
    ensures
        changes.len() == config@.records.len(),
        forall|i: int| 0 <= i < changes.len() ==> {
            &&& (#[trigger] changes[i]).name@ == fqdn_spec(config@.records[i])
            &&& changes[i].ttl == config@.ttl
            &&& changes[i].value@ == ip@
        },
{
    upserts_for(&config.records, config.ttl, ip)
}

/// What the removal needs to know of a record set found in the hosted zone:
/// its name and whether it is of type `A`.
#[derive(Debug, PartialEq, Eq)]
pub struct RecordSetSummary {
    pub name: String,
    pub is_type_a: bool,
}

/// The position of the record set that a lookup by the fully qualified name
/// `name` finds among the `A` record sets of `current`: the last one with
/// that name, when there is one.
pub open spec fn a_record_named(current: Seq<RecordSetSummary>, name: Seq<char>) -> Option<int>
    decreases current.len(),
{
    if current.len() == 0 {
        None
    } else if current.last().is_type_a && current.last().name@ == name {
        Some(current.len() - 1)
    } else {
        a_record_named(current.drop_last(), name)
    }
}

/// The record sets to delete, by position in `current`, to remove `records`
/// from the hosted zone: for each of `records` in order, the `A` record set
/// of that name, when there is one.
pub open spec fn deletion_plan(current: Seq<RecordSetSummary>, records: Seq<Seq<char>>) -> Seq<int>
    decreases records.len(),
{
    if records.len() == 0 {
        Seq::empty()
    } else {
        let rest = deletion_plan(current, records.drop_last());
        match a_record_named(current, fqdn_spec(records.last())) {
            Some(i) => rest.push(i),
            None => rest,
        }
    }
}

/// Looks up the `A` record set named `name` (see `a_record_named`).
pub fn find_a_record(current: &Vec<RecordSetSummary>, name: &String) -> (found: Option<usize>)
    ensures
        found matches Some(j) ==> a_record_named(current@, name@) == Some(j as int),
        found is None ==> a_record_named(current@, name@) is None,
{
    let mut i: usize = current.len();
    assert(current@.take(i as int) =~= current@);
    while i > 0
        invariant
            i <= current.len(),
            a_record_named(current@, name@) == a_record_named(current@.take(i as int), name@),
        decreases i,
    {
        let entry = &current[i - 1];
        let ghost prefix = current@.take(i as int);
        assert(prefix.drop_last() =~= current@.take(i - 1));
        assert(prefix.last() == current@[i - 1]);
        if entry.is_type_a && entry.name == *name {
            return Some(i - 1);
        }
        i = i - 1;
    }
    None
}

/// The record sets of `current` to delete to remove `records` from the
/// hosted zone (see `deletion_plan`), by position in `current`.
pub fn deletions(current: &Vec<RecordSetSummary>, records: &Vec<String>) -> (plan: Vec<usize>)
    ensures
        plan.len() == deletion_plan(current@, records.deep_view()).len(),
        forall|k: int| 0 <= k < plan.len()
            ==> #[trigger] plan[k] as int == deletion_plan(current@, records.deep_view())[k],
{
    let mut plan: Vec<usize> = Vec::new();
    let n = records.len();
    let mut i: usize = 0;
    assert(records.deep_view().take(0) =~= Seq::<Seq<char>>::empty());
    while i < n
        invariant
            n == records.len(),
            i <= n,
            plan.len() == deletion_plan(current@, records.deep_view().take(i as int)).len(),
            forall|k: int| 0 <= k < plan.len()
                ==> #[trigger] plan[k] as int == deletion_plan(current@, records.deep_view().take(i as int))[k],
        decreases n - i,
    {
        let name = fqdn(records[i].as_str());
        let ghost before = records.deep_view().take(i as int);
        let ghost after = records.deep_view().take(i + 1);
        assert(after.drop_last() =~= before);
        assert(after.last() == records[i as int]@);
        let ghost rest = deletion_plan(current@, before);
        assert(name@ == fqdn_spec(after.last()));
        assert(deletion_plan(current@, after) == match a_record_named(current@, fqdn_spec(after.last())) {
            Some(j) => rest.push(j),
            None => rest,
        });
        match find_a_record(current, &name) {
            Some(j) => {
                plan.push(j);
                assert(deletion_plan(current@, after) == rest.push(j as int));
            },
            None => {
                assert(deletion_plan(current@, after) == rest);
            },
        }
        i = i + 1;
    }
    assert(records.deep_view().take(n as int) =~= records.deep_view());
    plan
}


/// What a lookup by name finds is an `A` record set of that name, and it
/// finds nothing only when there is none.
pub proof fn lemma_a_record_named(current: Seq<RecordSetSummary>, name: Seq<char>)
    ensures
        a_record_named(current, name) matches Some(i) ==> {
            &&& 0 <= i < current.len()
            &&& current[i].is_type_a
            &&& current[i].name@ == name
        },
        a_record_named(current, name) matches Some(i) ==> forall|i2: int|
            i < i2 < current.len() ==> !(#[trigger] current[i2].is_type_a && current[i2].name@ == name),
        a_record_named(current, name) is None ==> forall|i: int|
            0 <= i < current.len() ==> !(#[trigger] current[i].is_type_a && current[i].name@ == name),
    decreases current.len(),
{
    if current.len() > 0 {
        lemma_a_record_named(current.drop_last(), name);
        if let Some(i) = a_record_named(current, name) {
            assert forall|i2: int| i < i2 < current.len()
                implies !(#[trigger] current[i2].is_type_a && current[i2].name@ == name) by {
                if i2 < current.len() - 1 {
                    assert(current.drop_last()[i2] == current[i2]);
                }
            }
        }
        if a_record_named(current, name) is None {
            assert forall|i: int| 0 <= i < current.len()
                implies !(#[trigger] current[i].is_type_a && current[i].name@ == name) by {
                if i < current.len() - 1 {
                    assert(current.drop_last()[i] == current[i]);
                }
            }
        }
    }
}

/// Law: removing records from the hosted zone deletes only `A` record sets
/// named after one of the removed records, and deletes nothing exactly when
/// none of the removed records has an `A` record set in the zone.
pub proof fn law_deletion_targets(current: Seq<RecordSetSummary>, records: Seq<Seq<char>>)
    ensures
        forall|k: int| 0 <= k < deletion_plan(current, records).len() ==> {
            let i = #[trigger] deletion_plan(current, records)[k];
            &&& 0 <= i < current.len()
            &&& current[i].is_type_a
            &&& exists|j: int| 0 <= j < records.len() && current[i].name@ == fqdn_spec(records[j])
        },
        deletion_plan(current, records).len() == 0 <==> forall|j: int| 0 <= j < records.len()
            ==> #[trigger] a_record_named(current, fqdn_spec(records[j])) is None,
    decreases records.len(),
{
    if records.len() > 0 {
        let init = records.drop_last();
        law_deletion_targets(current, init);
        let rest = deletion_plan(current, init);
        let plan = deletion_plan(current, records);
        let last = records.last();
        lemma_a_record_named(current, fqdn_spec(last));
        assert forall|k: int| 0 <= k < plan.len() implies {
            let i = #[trigger] plan[k];
            &&& 0 <= i < current.len()
            &&& current[i].is_type_a
            &&& exists|j: int| 0 <= j < records.len() && current[i].name@ == fqdn_spec(records[j])
        } by {
            if k < rest.len() {
                assert(plan[k] == rest[k]);
                let i = rest[k];
                let j = choose|j: int| 0 <= j < init.len() && current[i].name@ == fqdn_spec(init[j]);
                assert(records[j] == init[j]);
            } else {
                assert(records[records.len() - 1] == last);
            }
        }
        if a_record_named(current, fqdn_spec(last)) is None {
            assert forall|j: int| 0 <= j < records.len() && j < init.len()
                implies #[trigger] records[j] == init[j] by {}
            if plan.len() == 0 {
                assert forall|j: int| 0 <= j < records.len()
                    implies #[trigger] a_record_named(current, fqdn_spec(records[j])) is None by {
                    if j < init.len() {
                        assert(records[j] == init[j]);
                        assert(a_record_named(current, fqdn_spec(init[j])) is None);
                    }
                }
            } else {
                let j = choose|j: int| 0 <= j < init.len() && !(a_record_named(current, fqdn_spec(init[j])) is None);
                assert(records[j] == init[j]);
            }
        } else {
            assert(a_record_named(current, fqdn_spec(records[records.len() - 1])) is Some);
        }
    }
}


/// Law: the fully qualified name of a record is the record followed by
/// exactly one dot.
pub proof fn law_fqdn_appends_one_dot(record: Seq<char>)
    ensures
        fqdn_spec(record).len() == record.len() + 1,
        fqdn_spec(record).take(record.len() as int) == record,
        fqdn_spec(record).last() == '.',
{
    reveal_strlit(".");
    assert(fqdn_spec(record).take(record.len() as int) =~= record);
}

/// Whether position `i` holds an `A` record set named `name` and no later
/// position does.
pub open spec fn is_last_a_set_named(current: Seq<RecordSetSummary>, i: int, name: Seq<char>) -> bool {
    &&& 0 <= i < current.len()
    &&& current[i].is_type_a
    &&& current[i].name@ == name
    &&& forall|i2: int| i < i2 < current.len()
        ==> !(#[trigger] current[i2].is_type_a && current[i2].name@ == name)
}

/// The removed records (by position) that a deletion plan serves, in order.
spec fn plan_sources(current: Seq<RecordSetSummary>, records: Seq<Seq<char>>) -> Seq<int>
    decreases records.len(),
{
    if records.len() == 0 {
        Seq::empty()
    } else {
        let rest = plan_sources(current, records.drop_last());
        match a_record_named(current, fqdn_spec(records.last())) {
            Some(_) => rest.push(records.len() - 1),
            None => rest,
        }
    }
}

proof fn lemma_plan_sources(current: Seq<RecordSetSummary>, records: Seq<Seq<char>>)
    ensures
        ({
            let plan = deletion_plan(current, records);
            let js = plan_sources(current, records);
            &&& js.len() == plan.len()
            &&& forall|k: int| 0 <= k < js.len() ==> 0 <= #[trigger] js[k] < records.len()
            &&& forall|k: int, l: int| 0 <= k < l < js.len() ==> #[trigger] js[k] < #[trigger] js[l]
            &&& forall|k: int| 0 <= k < plan.len() ==> {
                is_last_a_set_named(current, #[trigger] plan[k], records[js[k]] + "."@)
            }
            &&& forall|j: int| #![trigger records[j]] 0 <= j < records.len() && (exists|i: int| 0 <= i < current.len()
                && #[trigger] current[i].is_type_a && current[i].name@ == records[j] + "."@)
                ==> exists|k: int| 0 <= k < js.len() && #[trigger] js[k] == j
        }),
    decreases records.len(),
{
    let plan = deletion_plan(current, records);
    let js = plan_sources(current, records);
    if records.len() > 0 {
        let init = records.drop_last();
        lemma_plan_sources(current, init);
        let rest = deletion_plan(current, init);
        let rjs = plan_sources(current, init);
        let last = records.last();
        lemma_a_record_named(current, fqdn_spec(last));
        assert forall|j: int| 0 <= j < init.len() implies #[trigger] records[j] == init[j] by {}
        assert forall|k: int| 0 <= k < plan.len() implies {
            is_last_a_set_named(current, #[trigger] plan[k], records[js[k]] + "."@)
        } by {
            if k < rest.len() {
                assert(plan[k] == rest[k]);
                assert(js[k] == rjs[k]);
                assert(records[js[k]] == init[rjs[k]]);
            } else {
                assert(js[k] == records.len() - 1);
                assert(records[js[k]] == last);
            }
        }
        assert forall|k: int, l: int| 0 <= k < l < js.len() implies #[trigger] js[k] < #[trigger] js[l] by {
            if l < rjs.len() {
                assert(js[k] == rjs[k] && js[l] == rjs[l]);
            } else {
                assert(js[k] == rjs[k]);
            }
        }
        assert forall|j: int| #![trigger records[j]] 0 <= j < records.len() && (exists|i: int| 0 <= i < current.len()
            && #[trigger] current[i].is_type_a && current[i].name@ == records[j] + "."@)
            implies exists|k: int| 0 <= k < js.len() && #[trigger] js[k] == j by {
            if j < init.len() {
                assert(records[j] == init[j]);
                let k = choose|k: int| 0 <= k < rjs.len() && #[trigger] rjs[k] == j;
                assert(js[k] == rjs[k]);
            } else {
                let i = choose|i: int| 0 <= i < current.len()
                    && #[trigger] current[i].is_type_a && current[i].name@ == records[j] + "."@;
                assert(records[j] == last);
                assert(a_record_named(current, fqdn_spec(last)) is Some);
                assert(js[js.len() - 1] == j);
            }
        }
    }
}

/// Law: the deletion plan holds, for each removed record whose fully
/// qualified name (the record and a dot) names an `A` record set of the
/// zone, in the order of the removed records, the position of the last such
/// set; and nothing else.
pub proof fn law_deletion_plan_complete(current: Seq<RecordSetSummary>, records: Seq<Seq<char>>)
    ensures
        exists|js: Seq<int>| {
            &&& #[trigger] js.len() == deletion_plan(current, records).len()
            &&& forall|k: int| 0 <= k < js.len() ==> 0 <= #[trigger] js[k] < records.len()
            &&& forall|k: int, l: int| 0 <= k < l < js.len() ==> #[trigger] js[k] < #[trigger] js[l]
            &&& forall|k: int| 0 <= k < deletion_plan(current, records).len() ==> {
                is_last_a_set_named(current, #[trigger] deletion_plan(current, records)[k], records[js[k]] + "."@)
            }
            &&& forall|j: int| #![trigger records[j]] 0 <= j < records.len() && (exists|i: int| 0 <= i < current.len()
                && #[trigger] current[i].is_type_a && current[i].name@ == records[j] + "."@)
                ==> exists|k: int| 0 <= k < js.len() && #[trigger] js[k] == j
        },
{
    lemma_plan_sources(current, records);
    let js = plan_sources(current, records);
    assert(js.len() == deletion_plan(current, records).len());
}

} // verus!
