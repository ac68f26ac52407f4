use ntnft::pair_map::{map_entries, PairMap};
use ntnft::{CollectionDetails, Error, Event, ItemDetails, Pallet};
use std::collections::HashMap;

const ALICE: u64 = 1;
const BOB: u64 = 2;
const CAROL: u64 = 3;
const C1: u64 = 10;
const C2: u64 = 20;
const I1: u64 = 100;
const I2: u64 = 200;
const I3: u64 = 300;

fn sorted<K: Ord + Copy, V>(mut entries: Vec<(K, V)>) -> Vec<(K, V)> {
    entries.sort_by_key(|entry| entry.0);
    entries
}

fn busy_ledger() -> Pallet {
    let mut ledger = Pallet::new();
    ledger.create_collection(Some(ALICE), C1).unwrap();
    ledger.create_collection(Some(BOB), C2).unwrap();
    ledger.mint_ntnft(Some(ALICE), C1, I1).unwrap();
    ledger.mint_ntnft(Some(BOB), C1, I2).unwrap();
    ledger.mint_ntnft(Some(CAROL), C1, I3).unwrap();
    ledger.mint_ntnft(Some(BOB), C2, I1).unwrap();
    ledger.assign_ntnft(Some(ALICE), C1, I1, BOB).unwrap();
    ledger.accept_assignment(Some(BOB), C1, I1).unwrap();
    ledger.assign_ntnft(Some(ALICE), C1, I2, BOB).unwrap();
    ledger.assign_ntnft(Some(ALICE), C1, I3, CAROL).unwrap();
    ledger.cancel_assignment(Some(CAROL), C1, I3, ALICE).unwrap();
    ledger.assign_ntnft(Some(BOB), C2, I1, ALICE).unwrap();
    ledger
}

/// The part of `ledger` under `collection`, rebuilt record by record.
fn part_of(ledger: &Pallet, collection: u64) -> Pallet {
    let mut part = Pallet::new();
    for (id, details) in ledger.collections() {
        if id == collection {
            part.load_collection(id, details);
        }
    }
    for ((id, item), details) in ledger.items() {
        if id == collection {
            part.load_item(id, item, details).unwrap();
        }
    }
    for ((id, account), item) in ledger.proposed_assignments() {
        if id == collection {
            part.load_proposed_assignment(id, account, item);
        }
    }
    for ((id, account), item) in ledger.assignments() {
        if id == collection {
            part.load_assignment(id, account, item);
        }
    }
    for ((id, account), item) in ledger.canceled_assignments() {
        if id == collection {
            part.load_canceled_assignment(id, account, item);
        }
    }
    part
}

fn assert_same_under(whole: &Pallet, part: &Pallet, collection: u64) {
    let keep = |id: u64| id == collection;
    let collections: Vec<_> = whole.collections().into_iter().filter(|e| keep(e.0)).collect();
    let items: Vec<_> = whole.items().into_iter().filter(|e| keep(e.0 .0)).collect();
    let proposed: Vec<_> = whole.proposed_assignments().into_iter().filter(|e| keep(e.0 .0)).collect();
    let assignments: Vec<_> = whole.assignments().into_iter().filter(|e| keep(e.0 .0)).collect();
    let canceled: Vec<_> = whole.canceled_assignments().into_iter().filter(|e| keep(e.0 .0)).collect();
    assert_eq!(sorted(collections), sorted(part.collections()));
    assert_eq!(sorted(items), sorted(part.items()));
    assert_eq!(sorted(proposed), sorted(part.proposed_assignments()));
    assert_eq!(sorted(assignments), sorted(part.assignments()));
    assert_eq!(sorted(canceled), sorted(part.canceled_assignments()));
}

#[test]
fn empty_ledger_lists_nothing() {
    let ledger = Pallet::new();
    assert!(ledger.collections().is_empty());
    assert!(ledger.items().is_empty());
    assert!(ledger.proposed_assignments().is_empty());
    assert!(ledger.assignments().is_empty());
    assert!(ledger.canceled_assignments().is_empty());
}

#[test]
fn listings_hold_every_record_once() {
    let ledger = busy_ledger();
    assert_eq!(
        sorted(ledger.collections()),
        vec![
            (C1, CollectionDetails { owner: ALICE, amount: 3, is_frozen: false }),
            (C2, CollectionDetails { owner: BOB, amount: 1, is_frozen: false }),
        ]
    );
    assert_eq!(
        sorted(ledger.items()),
        vec![
            ((C1, I1), ItemDetails { owner: ALICE, is_assigned: true, is_accepted: true }),
            ((C1, I2), ItemDetails { owner: BOB, is_assigned: true, is_accepted: false }),
            ((C1, I3), ItemDetails { owner: CAROL, is_assigned: false, is_accepted: false }),
            ((C2, I1), ItemDetails { owner: BOB, is_assigned: true, is_accepted: false }),
        ]
    );
    assert_eq!(sorted(ledger.proposed_assignments()), vec![((C1, BOB), I2), ((C2, ALICE), I1)]);
    assert_eq!(sorted(ledger.assignments()), vec![((C1, BOB), I1)]);
    assert_eq!(sorted(ledger.canceled_assignments()), vec![((C1, ALICE), I3)]);
}

#[test]
fn destroy_leaves_no_item_in_the_listing() {
    let mut ledger = busy_ledger();
    ledger.destroy_collection(Some(ALICE), C1).unwrap();
    assert_eq!(sorted(ledger.collections()), vec![(C2, CollectionDetails { owner: BOB, amount: 1, is_frozen: false })]);
    assert_eq!(
        sorted(ledger.items()),
        vec![((C2, I1), ItemDetails { owner: BOB, is_assigned: true, is_accepted: false })]
    );
    assert_eq!(sorted(ledger.proposed_assignments()), vec![((C2, ALICE), I1)]);
    assert_eq!(sorted(ledger.assignments()), vec![((C1, BOB), I1)]);
    assert_eq!(sorted(ledger.canceled_assignments()), vec![((C1, ALICE), I3)]);
}

#[test]
fn destroy_leaves_nothing_where_entries_are_keyed_by_owners() {
    let mut ledger = Pallet::new();
    ledger.create_collection(Some(ALICE), C1).unwrap();
    ledger.mint_ntnft(Some(ALICE), C1, I1).unwrap();
    ledger.mint_ntnft(Some(BOB), C1, I2).unwrap();
    ledger.mint_ntnft(Some(CAROL), C1, I3).unwrap();
    ledger.assign_ntnft(Some(ALICE), C1, I1, ALICE).unwrap();
    ledger.accept_assignment(Some(ALICE), C1, I1).unwrap();
    ledger.assign_ntnft(Some(ALICE), C1, I2, BOB).unwrap();
    ledger.destroy_collection(Some(ALICE), C1).unwrap();
    assert!(ledger.collections().is_empty());
    assert!(ledger.items().is_empty());
    assert!(ledger.proposed_assignments().is_empty());
    assert!(ledger.assignments().is_empty());
}

#[test]
fn amounts_equal_the_numbers_of_listed_items() {
    let mut ledger = busy_ledger();
    ledger.burn_ntnft(Some(ALICE), C1, I2).unwrap();
    ledger.mint_ntnft(Some(ALICE), C2, I2).unwrap();
    ledger.mint_ntnft(Some(ALICE), C2, I3).unwrap();
    let items = ledger.items();
    for (id, details) in ledger.collections() {
        let live = items.iter().filter(|entry| entry.0 .0 == id).count();
        assert_eq!(details.amount as usize, live);
    }
    assert_eq!(ledger.collection(C1).unwrap().amount, 2);
    assert_eq!(ledger.collection(C2).unwrap().amount, 3);
}

#[test]
fn rebuilt_ledger_equals_the_listed_one() {
    let ledger = busy_ledger();
    let mut copy = part_of(&ledger, C1);
    for (id, details) in ledger.collections() {
        if id != C1 {
            copy.load_collection(id, details);
        }
    }
    for ((id, item), details) in ledger.items() {
        if id != C1 {
            copy.load_item(id, item, details).unwrap();
        }
    }
    for ((id, account), item) in ledger.proposed_assignments() {
        if id != C1 {
            copy.load_proposed_assignment(id, account, item);
        }
    }
    assert_eq!(sorted(copy.collections()), sorted(ledger.collections()));
    assert_eq!(sorted(copy.items()), sorted(ledger.items()));
    assert_eq!(sorted(copy.proposed_assignments()), sorted(ledger.proposed_assignments()));
    assert_eq!(sorted(copy.assignments()), sorted(ledger.assignments()));
    assert_eq!(sorted(copy.canceled_assignments()), sorted(ledger.canceled_assignments()));
}

#[test]
fn operations_on_the_part_under_a_collection_tell_the_whole() {
    let calls: Vec<fn(&mut Pallet) -> Result<Event, Error>> = vec![
        |l| l.create_collection(Some(ALICE), C1),
        |l| l.destroy_collection(Some(CAROL), C1),
        |l| l.freeze_collection(Some(ALICE), C1),
        |l| l.thaw_collection(Some(ALICE), C1),
        |l| l.mint_ntnft(Some(CAROL), C1, 400),
        |l| l.mint_ntnft(Some(CAROL), C1, I1),
        |l| l.burn_ntnft(Some(CAROL), C1, I1),
        |l| l.burn_ntnft(Some(CAROL), C1, I2),
        |l| l.burn_ntnft(Some(CAROL), C1, 400),
        |l| l.assign_ntnft(Some(BOB), C1, I3, ALICE),
        |l| l.assign_ntnft(Some(BOB), C1, I2, ALICE),
        |l| l.accept_assignment(Some(BOB), C1, I2),
        |l| l.accept_assignment(Some(ALICE), C1, I2),
        |l| l.cancel_assignment(Some(BOB), C1, I2, CAROL),
        |l| l.cancel_assignment(Some(BOB), C1, I1, CAROL),
        |l| l.mint_ntnft(None, C1, I1),
    ];
    for call in calls {
        let mut whole = busy_ledger();
        let mut part = part_of(&whole, C1);
        let before = busy_ledger();
        assert_eq!(call(&mut whole), call(&mut part));
        assert_same_under(&whole, &part, C1);
        assert_same_under(&whole, &part_of(&before, C2), C2);
    }
}

#[test]
fn default_item_is_unassigned() {
    assert_eq!(ItemDetails::default(), ItemDetails { owner: 0, is_assigned: false, is_accepted: false });
}

#[test]
fn pair_map_stores_by_both_components() {
    let mut map: PairMap<u32> = PairMap::new();
    assert!(!map.contains_key(1, 2));
    assert_eq!(map.get(1, 2), None);
    map.insert(1, 2, 12);
    map.insert(1, 3, 13);
    map.insert(2, 2, 22);
    assert!(map.contains_key(1, 2));
    assert!(!map.contains_key(2, 1));
    assert_eq!(map.get(1, 2), Some(12));
    assert_eq!(map.get(1, 3), Some(13));
    assert_eq!(map.get(2, 2), Some(22));
    map.insert(1, 2, 99);
    assert_eq!(map.get(1, 2), Some(99));
    map.remove(1, 3);
    map.remove(5, 5);
    assert_eq!(map.get(1, 3), None);
    assert_eq!(sorted(map.entries()), vec![((1, 2), 99), ((2, 2), 22)]);
}

#[test]
fn pair_map_takes_out_everything_under_a_first_component() {
    let mut map: PairMap<u32> = PairMap::new();
    map.insert(1, 2, 12);
    map.insert(1, 3, 13);
    map.insert(2, 2, 22);
    let taken = map.take_prefix(1);
    assert_eq!(sorted(map_entries(&taken)), vec![(2, 12), (3, 13)]);
    assert_eq!(sorted(map.entries()), vec![((2, 2), 22)]);
    assert!(map.take_prefix(7).is_empty());
    assert_eq!(sorted(map.entries()), vec![((2, 2), 22)]);
}

#[test]
fn map_entries_lists_a_map() {
    let mut map: HashMap<u64, bool> = HashMap::new();
    assert!(map_entries(&map).is_empty());
    map.insert(7, true);
    map.insert(3, false);
    assert_eq!(sorted(map_entries(&map)), vec![(3, false), (7, true)]);
}
