use ddns_route53::commands::{AddCommand, ListCommand, RemoveCommand, SetupCommand};
use ddns_route53::config::Config;
use ddns_route53::records::{deletions, fqdn, upsert_changes, RecordSetSummary};

fn strings(items: &[&str]) -> Vec<String> {
    items.iter().map(|s| s.to_string()).collect()
}

fn config(records: &[&str]) -> Config {
    Config { zone_id: "Z123".to_string(), records: strings(records), ttl: 300 }
}

#[test]
fn add_appends_only_new_records() {
    let mut c = config(&["a.example.com", "b.example.com"]);
    AddCommand.run(&mut c, strings(&["c.example.com", "a.example.com", "d.example.com"]));
    assert_eq!(c.records, strings(&["a.example.com", "b.example.com", "c.example.com", "d.example.com"]));
    assert_eq!(c.zone_id, "Z123");
    assert_eq!(c.ttl, 300);
}

#[test]
fn add_returns_the_appended_records_and_their_upserts() {
    let mut c = config(&["a.example.com"]);
    let added = AddCommand.run(&mut c, strings(&["b.example.com", "a.example.com", "c.example.com"]));
    assert_eq!(added, strings(&["b.example.com", "c.example.com"]));
    let changes = AddCommand.upserts(&c, &added, "198.51.100.4");
    assert_eq!(changes.len(), 2);
    assert_eq!(changes[0].name, "b.example.com.");
    assert_eq!(changes[1].name, "c.example.com.");
    for change in &changes {
        assert_eq!(change.ttl, 300);
        assert_eq!(change.value, "198.51.100.4");
    }
    let again = AddCommand.run(&mut c, strings(&["b.example.com"]));
    assert!(again.is_empty());
    assert!(AddCommand.upserts(&c, &again, "198.51.100.4").is_empty());
}

#[test]
fn add_twice_is_add_once() {
    let mut c = config(&["a.example.com"]);
    AddCommand.run(&mut c, strings(&["b.example.com", "a.example.com"]));
    let once = c.records.clone();
    AddCommand.run(&mut c, strings(&["b.example.com", "a.example.com"]));
    assert_eq!(c.records, once);
}

#[test]
fn add_keeps_repeats_within_entered_records() {
    let mut c = config(&[]);
    AddCommand.run(&mut c, strings(&["x.example.com", "x.example.com"]));
    assert_eq!(c.records, strings(&["x.example.com", "x.example.com"]));
}

#[test]
fn remove_drops_every_occurrence_and_keeps_order() {
    let mut c = config(&["a", "b", "c", "b"]);
    RemoveCommand.run(&mut c, &strings(&["b", "zzz"]));
    assert_eq!(c.records, strings(&["a", "c"]));
    RemoveCommand.run(&mut c, &strings(&["b", "zzz"]));
    assert_eq!(c.records, strings(&["a", "c"]));
}

#[test]
fn remove_undoes_add_of_new_records() {
    let mut c = config(&["a", "b"]);
    AddCommand.run(&mut c, strings(&["c", "d"]));
    RemoveCommand.run(&mut c, &strings(&["c", "d"]));
    assert_eq!(c, config(&["a", "b"]));
}

#[test]
fn setup_builds_the_configuration() {
    let c = SetupCommand.config("ZONE".to_string(), strings(&["home.example.com"]), 60);
    assert_eq!(c, Config { zone_id: "ZONE".to_string(), records: strings(&["home.example.com"]), ttl: 60 });
}

#[test]
fn list_of_empty_configuration_is_none() {
    assert!(ListCommand.run(&config(&[])).is_none());
}

#[test]
fn list_numbers_records_and_counts_them() {
    let l = ListCommand.run(&config(&["a.example.com", "b.example.com"])).unwrap();
    assert_eq!(l.zone_id, "Z123");
    assert_eq!(l.ttl, "300");
    assert_eq!(l.entries.len(), 2);
    assert_eq!(l.entries[0].label, "1.");
    assert_eq!(l.entries[0].record, "a.example.com");
    assert_eq!(l.entries[1].label, "2.");
    assert_eq!(l.entries[1].record, "b.example.com");
    assert_eq!(l.total, "Total: 2 records");
}

#[test]
fn list_of_one_record_is_singular() {
    let mut c = config(&["only.example.com"]);
    c.ttl = -42;
    let l = ListCommand.run(&c).unwrap();
    assert_eq!(l.total, "Total: 1 record");
    assert_eq!(l.ttl, "-42");
}

#[test]
fn list_labels_of_many_records() {
    let names: Vec<String> = (0..12).map(|i| format!("r{}.example.com", i)).collect();
    let c = Config { zone_id: "Z".to_string(), records: names, ttl: 1 };
    let l = ListCommand.run(&c).unwrap();
    assert_eq!(l.entries[9].label, "10.");
    assert_eq!(l.entries[11].label, "12.");
    assert_eq!(l.total, "Total: 12 records");
}

#[test]
fn fqdn_appends_a_dot() {
    assert_eq!(fqdn("home.example.com"), "home.example.com.");
    assert_eq!(fqdn(""), ".");
}

#[test]
fn upserts_cover_every_record() {
    let c = config(&["a.example.com", "b.example.com"]);
    let changes = upsert_changes(&c, "203.0.113.7");
    assert_eq!(changes.len(), 2);
    assert_eq!(changes[0].name, "a.example.com.");
    assert_eq!(changes[1].name, "b.example.com.");
    for change in &changes {
        assert_eq!(change.ttl, 300);
        assert_eq!(change.value, "203.0.113.7");
    }
    assert!(upsert_changes(&config(&[]), "1.2.3.4").is_empty());
}

fn summary(name: &str, is_type_a: bool) -> RecordSetSummary {
    RecordSetSummary { name: name.to_string(), is_type_a }
}

#[test]
fn deletions_pick_the_a_record_sets_of_removed_records() {
    let current = vec![
        summary("a.example.com.", true),
        summary("b.example.com.", false),
        summary("a.example.com.", true),
        summary("c.example.com.", true),
    ];
    let plan = deletions(&current, &strings(&["a.example.com", "b.example.com", "d.example.com", "c.example.com"]));
    assert_eq!(plan, vec![2, 3]);
}

#[test]
fn deletions_are_empty_when_nothing_matches() {
    let current = vec![summary("a.example.com.", true), summary("b.example.com", true)];
    assert!(deletions(&current, &strings(&["b.example.com", "a.example.com."])).is_empty());
    assert!(deletions(&current, &strings(&[])).is_empty());
}

#[test]
fn deletions_repeat_for_repeated_records() {
    let current = vec![summary("a.", true)];
    assert_eq!(deletions(&current, &strings(&["a", "a"])), vec![0, 0]);
}
