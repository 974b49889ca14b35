use hyper_microservice::arena::Arena;
use hyper_microservice::store::UserRecord;

fn has_duplicates(ids: &[usize]) -> bool {
    let mut seen = ids.to_vec();
    seen.sort();
    seen.windows(2).any(|w| w[0] == w[1])
}

#[test]
fn insert_takes_ids_in_order() {
    let mut arena = Arena::new();
    assert_eq!(arena.insert(UserRecord), 0);
    assert_eq!(arena.insert(UserRecord), 1);
    assert_eq!(arena.insert(UserRecord), 2);
    assert_eq!(arena.len(), 3);
}

#[test]
fn reuse_takes_freed_slot_before_extending() {
    let mut arena = Arena::new();
    for _ in 0..3 {
        arena.insert(UserRecord);
    }
    assert!(arena.remove(1).is_some());
    assert_eq!(arena.insert(UserRecord), 1);
    assert_eq!(arena.insert(UserRecord), 3);
}

#[test]
fn reuse_takes_lowest_freed_slot_first() {
    let mut arena = Arena::new();
    for _ in 0..5 {
        arena.insert(UserRecord);
    }
    assert!(arena.remove(1).is_some());
    assert!(arena.remove(3).is_some());
    assert_eq!(arena.insert(UserRecord), 1);
    assert_eq!(arena.insert(UserRecord), 3);
    assert_eq!(arena.insert(UserRecord), 5);
}

#[test]
fn reuse_lowest_after_freeing_in_ascending_order() {
    let mut arena = Arena::new();
    for _ in 0..4 {
        arena.insert(UserRecord);
    }
    assert!(arena.remove(0).is_some());
    assert!(arena.remove(2).is_some());
    assert_eq!(arena.insert(UserRecord), 0);
    assert_eq!(arena.insert(UserRecord), 2);
    assert_eq!(arena.enumerate(), vec![0, 1, 2, 3]);
}

#[test]
fn crud_round_trip_on_arena() {
    let mut arena = Arena::new();
    let k = arena.insert(UserRecord);
    assert_eq!(arena.get(k).map(|r| r.to_text()), Some(b"{}".to_vec()));
    assert!(arena.update(k, UserRecord));
    assert_eq!(arena.get(k).map(|r| r.to_text()), Some(b"{}".to_vec()));
    assert!(arena.remove(k).is_some());
    assert!(arena.get(k).is_none());
}

#[test]
fn absent_slots_are_reported() {
    let mut arena = Arena::new();
    assert!(arena.get(0).is_none());
    assert!(!arena.update(0, UserRecord));
    assert!(arena.remove(0).is_none());
    assert_eq!(arena.len(), 0);
    assert!(arena.enumerate().is_empty());
}

#[test]
fn update_creates_no_slot() {
    let mut arena = Arena::new();
    arena.insert(UserRecord);
    assert!(!arena.update(4, UserRecord));
    assert_eq!(arena.enumerate(), vec![0]);
}

#[test]
fn enumerate_lists_each_occupied_id_once() {
    let mut arena = Arena::new();
    for _ in 0..6 {
        arena.insert(UserRecord);
    }
    arena.remove(4);
    arena.remove(0);
    arena.insert(UserRecord);
    arena.remove(2);
    let ids = arena.enumerate();
    assert!(!has_duplicates(&ids));
    assert_eq!(ids, vec![0, 1, 3, 5]);
    assert_eq!(arena.len(), 4);
}

#[test]
fn remove_twice_fails_the_second_time() {
    let mut arena = Arena::new();
    arena.insert(UserRecord);
    assert!(arena.remove(0).is_some());
    assert!(arena.remove(0).is_none());
}
