use phira_mp::chance::{first_vacant, vacant, vacant_entry};
use std::collections::{HashMap, HashSet};

#[test]
fn drawn_ids_are_random_uuids_of_version_four() {
    let mut taken: HashMap<u128, ()> = HashMap::new();
    for _ in 0..64 {
        let id = vacant_entry(&taken);
        assert_eq!(uuid::Uuid::from_u128(id).get_version_num(), 4);
        assert_eq!(uuid::Uuid::from_u128(id).get_variant(), uuid::Variant::RFC4122);
        assert!(taken.insert(id, ()).is_none());
    }
    let ids: HashSet<u128> = taken.keys().copied().collect();
    assert_eq!(ids.len(), 64);
}

#[test]
fn an_id_that_is_taken_is_not_handed_out() {
    let mut taken: HashMap<u128, &str> = HashMap::new();
    assert_eq!(vacant(&taken, 5), Some(5));
    taken.insert(5, "x");
    assert_eq!(vacant(&taken, 5), None);
    assert_eq!(vacant(&taken, 6), Some(6));
}

#[test]
fn ids_that_are_taken_are_passed_over_in_order() {
    let mut taken: HashMap<u128, u8> = HashMap::new();
    for i in 0..100u128 {
        let id = first_vacant(&taken);
        assert_eq!(id, 0x4000_8000_0000_0000_0000 + i);
        assert_eq!(uuid::Uuid::from_u128(id).get_version_num(), 4);
        assert_eq!(uuid::Uuid::from_u128(id).get_variant(), uuid::Variant::RFC4122);
        taken.insert(id, 0);
    }
    taken.remove(&0x4000_8000_0000_0000_0007);
    assert_eq!(first_vacant(&taken), 0x4000_8000_0000_0000_0007);
}
