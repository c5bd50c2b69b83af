use guild_core::errors::Error;
use guild_core::ledger::{GuildSlapRecord, MemberSlapRecord, SlapReport};
use guild_core::store::Store;

fn slap(gsr: &GuildSlapRecord, store: &mut Store, offender: u64) -> SlapReport {
    gsr.new_slap(store, 1, offender, None, None, 0)
}

#[test]
fn five_entries_paginate_in_insertion_order() {
    let mut store = Store::new();
    let gsr = GuildSlapRecord(9);
    for k in 0..5u64 {
        slap(&gsr, &mut store, 100 + k);
    }
    let first_three = gsr.slaps(&store, 3).unwrap();
    assert_eq!(first_three.len(), 3);
    assert_eq!(first_three[0].id, 0);
    assert_eq!(first_three[1].id, 1);
    assert_eq!(first_three[2].id, 2);
    assert_eq!(first_three[0].offender, 100);
    assert_eq!(first_three[2].offender, 102);
    let all = gsr.slaps(&store, 100).unwrap();
    assert_eq!(all.len(), 5);
    assert_eq!(gsr.len(&store), 5);
}

#[test]
fn repeated_limits_are_idempotent() {
    let mut store = Store::new();
    let gsr = GuildSlapRecord(9);
    for k in 0..4u64 {
        slap(&gsr, &mut store, k);
    }
    let once = gsr.slaps(&store, 2).unwrap();
    let twice = gsr.slaps(&store, 2).unwrap();
    assert_eq!(once, twice);
}

#[test]
fn member_scoping_counts_only_that_member() {
    let mut store = Store::new();
    let gsr = GuildSlapRecord(9);
    let a: u64 = 1;
    let b: u64 = 2;
    slap(&gsr, &mut store, a);
    slap(&gsr, &mut store, b);
    slap(&gsr, &mut store, a);
    slap(&gsr, &mut store, b);
    slap(&gsr, &mut store, b);
    let msr_a = MemberSlapRecord(9, a);
    let msr_b = MemberSlapRecord(9, b);
    assert_eq!(msr_a.len(&store), 2);
    assert_eq!(msr_b.len(&store), 3);
    let of_a = msr_a.slaps(&store, 10).unwrap();
    assert_eq!(of_a.len(), 2);
    assert!(of_a.iter().all(|s| s.offender == a));
    assert_eq!(of_a[0].id, 0);
    assert_eq!(of_a[1].id, 2);
}

#[test]
fn offenders_repeat_and_keep_order() {
    let mut store = Store::new();
    let gsr = GuildSlapRecord(9);
    slap(&gsr, &mut store, 5);
    slap(&gsr, &mut store, 6);
    slap(&gsr, &mut store, 5);
    assert_eq!(gsr.offenders(&store, 10).unwrap(), vec![5, 6, 5]);
    assert_eq!(gsr.offenders(&store, 2).unwrap(), vec![5, 6]);
}

#[test]
fn new_slap_returns_the_created_entry() {
    let mut store = Store::new();
    let gsr = GuildSlapRecord(3);
    let report = gsr.new_slap(&mut store, 42, 7, Some(8), Some(String::from("spam")), 1234);
    assert_eq!(report.id, 0);
    assert_eq!(report.guild, 3);
    assert_eq!(report.offender, 7);
    assert_eq!(report.enforcer, Some(8));
    assert_eq!(report.sentence, 42);
    assert_eq!(report.reason, Some(String::from("spam")));
    assert_eq!(report.created_at, 1234);
    let next = gsr.new_slap(&mut store, 42, 7, Some(8), Some(String::from("spam")), 1234);
    assert_eq!(next.id, 1);
    assert_eq!(gsr.len(&store), 2);
}

#[test]
fn guilds_are_isolated() {
    let mut store = Store::new();
    let one = GuildSlapRecord(1);
    let two = GuildSlapRecord(2);
    slap(&one, &mut store, 10);
    slap(&two, &mut store, 20);
    slap(&one, &mut store, 11);
    assert_eq!(one.len(&store), 2);
    assert_eq!(two.len(&store), 1);
    let of_two = two.slaps(&store, 10).unwrap();
    assert_eq!(of_two.len(), 1);
    assert_eq!(of_two[0].offender, 20);
    assert_eq!(MemberSlapRecord(1, 20).len(&store), 0);
}

#[test]
fn empty_ledger_reads_empty() {
    let store = Store::new();
    let gsr = GuildSlapRecord(1);
    assert_eq!(gsr.len(&store), 0);
    assert!(gsr.slaps(&store, 50).unwrap().is_empty());
    assert!(gsr.offenders(&store, 50).unwrap().is_empty());
    assert_eq!(MemberSlapRecord(1, 2).len(&store), 0);
}

#[test]
fn huge_limit_returns_everything_within_platform_range() {
    let mut store = Store::new();
    let gsr = GuildSlapRecord(1);
    slap(&gsr, &mut store, 10);
    let within: u64 = usize::MAX as u64;
    match gsr.slaps(&store, within) {
        Ok(all) => assert_eq!(all.len(), 1),
        Err(e) => assert_eq!(e, Error::LimitOutOfRange),
    }
}
