use vstd::prelude::*;
use crate::config::{
    lemma_filter_contains_iff, not_in, records_after_add, records_after_remove, strings_not_in, Config,
    ConfigView,
};
use crate::records::{fqdn_spec, upserts_for, RecordUpsert};
use crate::text::{
    decimal, i64_to_decimal, int_decimal, is_digit, lemma_decimal_digits, parse_i64_spec,
    u64_to_decimal,
};

verus! {

/// The subcommands of the updater.
#[derive(Debug, Clone, Copy)]
pub enum Commands {
    /// Setup DDNS
    Setup(SetupCommand),
    /// Check and update DNS Records
    Update(UpdateCommand),
    /// Add record(s) to the update list
    Add(AddCommand),
    /// Remove a record from the update list
    Remove(RemoveCommand),
    /// List records to be updated
    List(ListCommand),
}

/// `setup`: writes a fresh configuration and installs the systemd units.
#[derive(Debug, Clone, Copy)]
pub struct SetupCommand;

/// `update`: points every configured record at the current address.
#[derive(Debug, Clone, Copy)]
pub struct UpdateCommand;

/// `add`: adds records to the configuration.
#[derive(Debug, Clone, Copy)]
pub struct AddCommand;

/// `remove`: removes records from the configuration.
#[derive(Debug, Clone, Copy)]
pub struct RemoveCommand;

/// `list`: shows the configuration.
#[derive(Debug, Clone, Copy)]
pub struct ListCommand;

impl SetupCommand {
    /// The configuration that setup writes from the answers it got.
    pub fn config(&self, zone_id: String, records: Vec<String>, ttl: i64) -> (config: Config)
        ensures
            config@ == (ConfigView { zone_id: zone_id@, records: records.deep_view(), ttl }),
    {
        Config { zone_id, records, ttl }
    }
}

impl AddCommand {
    /// Adds the entered `records` to `config`: each one that is not
    /// configured yet is appended, in the order entered. Returns the records
    /// that were appended.
    pub fn run(&self, config: &mut Config, records: Vec<String>) -> (added: Vec<String>)
        ensures
            added.deep_view() == records.deep_view().filter(not_in(old(config)@.records)),
            final(config)@ == (ConfigView {
                zone_id: old(config)@.zone_id,
                records: records_after_add(old(config)@.records, records.deep_view()),
                ttl: old(config)@.ttl,
            }),
    {
        let fresh = strings_not_in(&records, &config.records);
        let mut appended = fresh.clone();
        assert(appended.deep_view() =~= fresh.deep_view());
        config.records.append(&mut appended);
        assert(config.records.deep_view() =~= records_after_add(
            old(config)@.records,
            records.deep_view(),
        ));
        fresh
    }

    /// The upserts that point the records an addition appended (`added`) at
    /// the address `ip`, with the TTL of `config`: one per added record, in
    /// order, so that each new record gets its `A` record right away.
    pub fn upserts(&self, config: &Config, added: &Vec<String>, ip: &str) -> (changes: Vec<RecordUpsert>)
        ensures
            changes.len() == added.len(),
            forall|i: int| 0 <= i < changes.len() ==> {
                &&& (#[trigger] changes[i]).name@ == fqdn_spec(added.deep_view()[i])
                &&& changes[i].ttl == config@.ttl
                &&& changes[i].value@ == ip@
            },
    {
        upserts_for(added, config.ttl, ip)
    }
}

/// Law: the records an addition appends are exactly the entered records
/// that were not configured, so after `add` and the upserts of what it
/// appended, every entered record is either one that was configured before
/// or one that gets an upsert.
pub proof fn law_added_records(current: Seq<Seq<char>>, entered: Seq<Seq<char>>)
    ensures
        forall|r: Seq<char>| #[trigger] entered.filter(not_in(current)).contains(r)
            <==> (entered.contains(r) && !current.contains(r)),
        forall|r: Seq<char>| #[trigger] entered.contains(r)
            ==> current.contains(r) || entered.filter(not_in(current)).contains(r),
{
    assert forall|r: Seq<char>| #[trigger] entered.filter(not_in(current)).contains(r)
        <==> (entered.contains(r) && !current.contains(r)) by {
        lemma_filter_contains_iff(entered, not_in(current), r);
    }
    assert forall|r: Seq<char>| #[trigger] entered.contains(r)
        implies current.contains(r) || entered.filter(not_in(current)).contains(r) by {
        lemma_filter_contains_iff(entered, not_in(current), r);
    }
}

impl RemoveCommand {
    /// Removes every one of `removed` from `config`; the other records keep
    /// their order.
    pub fn run(&self, config: &mut Config, removed: &Vec<String>)
        ensures
            final(config)@ == (ConfigView {
                zone_id: old(config)@.zone_id,
                records: records_after_remove(old(config)@.records, removed.deep_view()),
                ttl: old(config)@.ttl,
            }),
    {
        let kept = strings_not_in(&config.records, removed);
        config.records = kept;
    }
}

/// One line of the record list: its number and the record.
#[derive(Debug, PartialEq, Eq)]
pub struct ListEntry {
    pub label: String,
    pub record: String,
}

/// What `list` shows of a configuration that has records.
#[derive(Debug, PartialEq, Eq)]
pub struct RecordListing {
    pub zone_id: String,
    pub ttl: String,
    pub entries: Vec<ListEntry>,
    pub total: String,
}

/// The label of the record at `index` (counted from zero): its number,
/// counted from one, and a dot.
pub open spec fn entry_label(index: nat) -> Seq<char> {
    decimal(index + 1) + "."@
}

/// The closing line of the list for `count` records.
pub open spec fn total_line(count: nat) -> Seq<char> {
    if count == 1 {
        "Total: "@ + decimal(count) + " record"@
    } else {
        "Total: "@ + decimal(count) + " record"@ + "s"@
    }
}

/// The base-ten digits of a positive number do not start with zero.
proof fn lemma_decimal_leading_digit(n: nat)
    requires
        n >= 1,
    ensures
        decimal(n)[0] != '0',
    decreases n,
{
    lemma_decimal_digits(n);
    if n >= 10 {
        lemma_decimal_leading_digit(n / 10);
        lemma_decimal_digits(n / 10);
        assert(decimal(n)[0] == decimal(n / 10)[0]);
    } else {
        assert(decimal(n)[0] == decimal(n).last());
    }
}

/// The digits `d` write `n` with no sign and no leading zero.
pub open spec fn writes_number(d: Seq<char>, n: nat) -> bool {
    &&& d.len() > 0
    &&& is_digit(d[0])
    &&& (n > 0 ==> d[0] != '0')
    &&& n <= i64::MAX
    &&& parse_i64_spec(d) == Some(n as i64)
}

proof fn lemma_decimal_writes_number(n: nat)
    requires
        n <= i64::MAX,
    ensures
        writes_number(decimal(n), n),
{
    lemma_decimal_digits(n);
    if n > 0 {
        lemma_decimal_leading_digit(n);
    }
    crate::text::law_parse_i64_undoes_decimal(n as i64);
    assert(is_digit(decimal(n)[0]));
}

/// Law: the record at index `i` is labelled with its number, `i + 1`, in
/// base ten without sign or leading zero, followed by a dot; so the labels
/// of a list are 1, 2, 3, ... in order.
pub proof fn law_entry_label_numbers(i: nat)
    requires
        i < i64::MAX,
    ensures
        entry_label(i).len() >= 2,
        entry_label(i).last() == '.',
        writes_number(entry_label(i).drop_last(), i + 1),
{
    reveal_strlit(".");
    lemma_decimal_writes_number(i + 1);
    lemma_decimal_digits(i + 1);
    assert(entry_label(i).drop_last() =~= decimal(i + 1));
}

/// Law: the closing line for `count` records is `Total: `, the count in base
/// ten, and ` record`, with an `s` unless the count is one.
pub proof fn law_total_line_counts(count: nat)
    requires
        count <= i64::MAX,
    ensures
        exists|d: Seq<char>| #[trigger] writes_number(d, count) && total_line(count) == "Total: "@ + d + (
        if count == 1 {
            " record"@
        } else {
            " record"@ + "s"@
        }),
{
    lemma_decimal_writes_number(count);
    let d = decimal(count);
    if count != 1 {
        assert(total_line(count) =~= "Total: "@ + d + (" record"@ + "s"@));
    }
    assert(writes_number(d, count));
}

impl ListCommand {
    /// What to show of `config`: nothing when it has no records (the command
    /// then says so), else its zone, its TTL, each record with its number,
    /// and the count of records.
    pub fn run(&self, config: &Config) -> (listing: Option<RecordListing>)
        ensures
            listing is None <==> config@.records.len() == 0,
            listing matches Some(l) ==> {
                &&& l.zone_id@ == config@.zone_id
                &&& l.ttl@ == int_decimal(config@.ttl as int)
                &&& l.entries.len() == config@.records.len()
                &&& forall|i: int| 0 <= i < l.entries.len() ==> {
                    &&& (#[trigger] l.entries[i]).label@ == entry_label(i as nat)
                    &&& l.entries[i].record@ == config@.records[i]
                }
                &&& l.total@ == total_line(config@.records.len())
            },
    {
        let n = config.records.len();
        if n == 0 {
            return None;
        }
        let mut entries: Vec<ListEntry> = Vec::new();
        let mut i: usize = 0;
        while i < n
            invariant
                n == config.records.len(),
                i <= n,
                entries.len() == i,
                forall|k: int| 0 <= k < i ==> {
                    &&& (#[trigger] entries[k]).label@ == entry_label(k as nat)
                    &&& entries[k].record@ == config@.records[k]
                },
            decreases n - i,
        {
            let mut label = u64_to_decimal(i as u64 + 1);
            label.append(".");
            let record = config.records[i].clone();
            entries.push(ListEntry { label, record });
            i = i + 1;
        }
        let mut total = "Total: ".to_owned();
        let count = u64_to_decimal(n as u64);
        total.append(count.as_str());
        total.append(" record");
        if n != 1 {
            total.append("s");
        }
        let zone_id = config.zone_id.clone();
        let ttl = i64_to_decimal(config.ttl);
        Some(RecordListing { zone_id, ttl, entries, total })
    }
}

} // verus!
