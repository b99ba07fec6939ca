use shadow_wrap::hash_wrap::{
    HashWrap, ImplicitCommit, ImplicitRollback, PanicIfUnfinalised, SpecDrop, UnfinalisedDrop,
};
use std::collections::HashMap;

fn get_hash() -> HashMap<i32, String> {
    let mut h = HashMap::new();
    h.insert(0, "Zero".to_string());
    h.insert(1, "One".to_string());
    h.insert(2, "Two".to_string());
    h
}

fn check_hash(val: HashMap<i32, String>) {
    let r = get_hash();
    assert_eq!(val.len(), r.len());
    for (k, v) in val {
        assert_eq!(v, r[&k]);
    }
}

#[test]
fn basic_shadowing() {
    let mut map = get_hash();
    let wrap: HashWrap<i32, String> = HashWrap::new(&mut map);
    assert_eq!(wrap.index(&1), "One");
    wrap.commit();
    check_hash(map);
}

#[test]
fn basic_rollback() {
    let mut map = get_hash();
    let mut wrap: HashWrap<i32, String> = HashWrap::new(&mut map);
    assert_eq!(wrap.index(&2), "Two");
    let ret = wrap.insert(5, "Five".to_string());
    assert!(ret.is_none());
    assert_eq!(wrap.index(&5), "Five");
    let ret = wrap.remove(&0);
    assert!(ret.is_some());
    assert_eq!(ret.unwrap(), "Zero");
    wrap.rollback();
    check_hash(map);
}

#[test]
fn basic_edits() {
    let mut map = get_hash();
    let mut wrap: HashWrap<i32, String> = HashWrap::new(&mut map);
    let ret = wrap.insert(5, "Five".to_string());
    assert!(ret.is_none());
    wrap.get_mut(&2).unwrap().push_str("00");
    wrap.commit();
    assert!(map.contains_key(&5));
    assert_eq!(map[&2], "Two00");
}

#[test]
fn basic_removal() {
    let mut map = get_hash();
    let mut wrap: HashWrap<i32, String> = HashWrap::new(&mut map);
    let ret = wrap.remove(&1);
    assert!(ret.is_some());
    assert_eq!(ret.unwrap(), "One");
    wrap.commit();
    assert!(!map.contains_key(&1));
}

#[test]
fn repeated_insertion() {
    let mut map = get_hash();
    let mut wrap: HashWrap<i32, String> = HashWrap::new(&mut map);
    let ret = wrap.insert(1, "Five".to_string());
    assert!(ret.is_some());
    assert_eq!(ret.unwrap(), "One");
    let ret = wrap.insert(1, "Three".to_string());
    assert!(ret.is_some());
    assert_eq!(ret.unwrap(), "Five");
    let ret = wrap.insert(1, "Four".to_string());
    assert!(ret.is_some());
    assert_eq!(ret.unwrap(), "Three");
    let ret = wrap.remove(&1);
    assert!(ret.is_some());
    assert_eq!(ret.unwrap(), "Four");
    wrap.rollback();
    check_hash(map);
}

#[test]
fn edits_then_commit_leave_four_entries() {
    let mut map = get_hash();
    let mut wrap: HashWrap<i32, String> = HashWrap::new(&mut map);
    assert!(wrap.insert(5, "Five".to_string()).is_none());
    wrap.get_mut(&2).unwrap().push_str("00");
    assert_eq!(map.len(), 3);
    let mut map2 = get_hash();
    let mut wrap: HashWrap<i32, String> = HashWrap::new(&mut map2);
    assert!(wrap.insert(5, "Five".to_string()).is_none());
    wrap.get_mut(&2).unwrap().push_str("00");
    wrap.commit();
    assert_eq!(map2.len(), 4);
    assert_eq!(map2[&2], "Two00");
    assert_eq!(map2[&5], "Five");
    assert_eq!(map2[&0], "Zero");
    assert_eq!(map2[&1], "One");
}

#[test]
fn overlay_reflects_net_effect() {
    let mut map = get_hash();
    let mut wrap: HashWrap<i32, String> = HashWrap::new(&mut map);
    assert!(wrap.contains_key(&0));
    assert!(wrap.remove(&0).is_some());
    assert!(!wrap.contains_key(&0));
    assert!(wrap.remove(&0).is_none());
    assert!(wrap.get_mut(&0).is_none());
    assert!(wrap.insert(0, "Nil".to_string()).is_none());
    assert!(wrap.contains_key(&0));
    assert_eq!(wrap.index(&0), "Nil");
    assert!(!wrap.contains_key(&9));
    assert!(wrap.remove(&9).is_none());
    assert!(wrap.get_mut(&9).is_none());
    *wrap.get_mut(&1).unwrap() = "Uno".to_string();
    assert_eq!(wrap.index(&1), "Uno");
    assert_eq!(wrap.remove(&1), Some("Uno".to_string()));
    wrap.commit();
    assert_eq!(map.len(), 2);
    assert_eq!(map[&0], "Nil");
    assert_eq!(map[&2], "Two");
}

#[test]
fn commit_matches_direct_edits() {
    let mut direct = get_hash();
    direct.insert(7, "Seven".to_string());
    direct.remove(&2);
    direct.insert(2, "Deux".to_string());
    direct.remove(&0);
    let mut map = get_hash();
    let mut wrap: HashWrap<i32, String> = HashWrap::new(&mut map);
    wrap.insert(7, "Seven".to_string());
    wrap.remove(&2);
    wrap.insert(2, "Deux".to_string());
    wrap.remove(&0);
    wrap.commit();
    assert_eq!(map, direct);
}

#[test]
fn unfinalised_drop_is_an_error() {
    let mut map = get_hash();
    let mut wrap: HashWrap<i32, String, PanicIfUnfinalised> = HashWrap::new(&mut map);
    wrap.insert(5, "Five".to_string());
    wrap.remove(&0);
    assert_eq!(wrap.spec_drop(), Err(UnfinalisedDrop));
    check_hash(map);
}

#[test]
fn implicit_commit_applies_changes() {
    let mut map = get_hash();
    let mut wrap: HashWrap<i32, String, ImplicitCommit> = HashWrap::new(&mut map);
    wrap.insert(5, "Five".to_string());
    wrap.remove(&0);
    assert_eq!(wrap.spec_drop(), Ok(()));
    assert_eq!(map.len(), 3);
    assert_eq!(map[&5], "Five");
    assert!(!map.contains_key(&0));
}

#[test]
fn implicit_rollback_leaves_map() {
    let mut map = get_hash();
    let mut wrap: HashWrap<i32, String, ImplicitRollback> = HashWrap::new(&mut map);
    wrap.insert(5, "Five".to_string());
    wrap.remove(&0);
    assert_eq!(wrap.spec_drop(), Ok(()));
    check_hash(map);
}

#[test]
fn second_get_mut_reuses_overlay_entry() {
    let mut map = get_hash();
    let mut wrap: HashWrap<i32, String> = HashWrap::new(&mut map);
    *wrap.get_mut(&0).unwrap() = "First".to_string();
    assert_eq!(wrap.get_mut(&0).unwrap().as_str(), "First");
    wrap.get_mut(&0).unwrap().push_str("!");
    assert_eq!(wrap.index(&0), "First!");
    wrap.rollback();
    check_hash(map);
}
