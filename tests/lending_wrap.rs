use lending_library::LendingLibrary;
use shadow_wrap::lending_wrap::LendingWrap;

fn get_lib() -> LendingLibrary<u64, String> {
    let mut l = LendingLibrary::new();
    l.insert(0, "Zero".to_string());
    l.insert(1, "One".to_string());
    l
}

#[test]
fn lend_then_remove_then_commit() {
    let mut lib = get_lib();
    let mut wrap = LendingWrap::new(&mut lib);
    {
        let loan = wrap.lend(&1).unwrap();
        assert_eq!(*loan, "One");
    }
    assert!(wrap.contains_key(&1));
    assert!(wrap.remove(&1));
    assert!(!wrap.contains_key(&1));
    wrap.commit();
    assert!(!lib.contains_key(&1));
    assert!(lib.contains_key(&0));
}

#[test]
fn lend_copies_into_overlay() {
    let mut lib = get_lib();
    let mut wrap = LendingWrap::new(&mut lib);
    {
        let mut loan = wrap.lend(&0).unwrap();
        loan.push_str("!");
    }
    wrap.rollback();
    let loan = lib.lend(&0).unwrap();
    assert_eq!(*loan, "Zero");
}

#[test]
fn lend_edit_then_commit() {
    let mut lib = get_lib();
    let mut wrap = LendingWrap::new(&mut lib);
    {
        let mut loan = wrap.lend(&0).unwrap();
        loan.push_str("!");
    }
    wrap.commit();
    let loan = lib.lend(&0).unwrap();
    assert_eq!(*loan, "Zero!");
}

#[test]
fn lend_missing_or_removed() {
    let mut lib = get_lib();
    let mut wrap = LendingWrap::new(&mut lib);
    assert!(wrap.lend(&7).is_none());
    assert!(wrap.remove(&0));
    assert!(wrap.lend(&0).is_none());
    assert!(!wrap.remove(&0));
    assert!(!wrap.remove(&7));
    wrap.rollback();
}

#[test]
fn lending_insert_returns_previous() {
    let mut lib = get_lib();
    let mut wrap = LendingWrap::new(&mut lib);
    assert_eq!(wrap.insert(1, "Uno".to_string()), Some("One".to_string()));
    assert_eq!(wrap.insert(1, "Eins".to_string()), Some("Uno".to_string()));
    assert_eq!(wrap.insert(5, "Five".to_string()), None);
    assert!(wrap.remove(&0));
    assert_eq!(wrap.insert(0, "Nil".to_string()), None);
    wrap.commit();
    assert_eq!(*lib.lend(&1).unwrap(), "Eins");
    assert_eq!(*lib.lend(&5).unwrap(), "Five");
    assert_eq!(*lib.lend(&0).unwrap(), "Nil");
}

#[test]
fn lending_rollback_leaves_library() {
    let mut lib = get_lib();
    let mut wrap = LendingWrap::new(&mut lib);
    wrap.insert(1, "Uno".to_string());
    wrap.remove(&0);
    wrap.insert(9, "Nine".to_string());
    wrap.rollback();
    assert_eq!(lib.len(), 2);
    assert_eq!(*lib.lend(&1).unwrap(), "One");
    assert_eq!(*lib.lend(&0).unwrap(), "Zero");
}

#[test]
fn empty_library_is_filled_by_commit() {
    let mut lib = shadow_wrap::lending_wrap::empty_library();
    assert!(lib.is_empty());
    let mut wrap = LendingWrap::new(&mut lib);
    assert!(!wrap.contains_key(&3));
    assert_eq!(wrap.insert(3, "Three".to_string()), None);
    assert!(wrap.contains_key(&3));
    wrap.commit();
    assert_eq!(lib.len(), 1);
    assert_eq!(*lib.lend(&3).unwrap(), "Three");
}

#[test]
fn reinsert_after_remove_clears_removal() {
    let mut lib = get_lib();
    let mut wrap = LendingWrap::new(&mut lib);
    assert!(wrap.remove(&1));
    assert!(!wrap.contains_key(&1));
    assert_eq!(wrap.insert(1, "Again".to_string()), None);
    assert!(wrap.contains_key(&1));
    wrap.commit();
    assert_eq!(*lib.lend(&1).unwrap(), "Again");
    assert_eq!(*lib.lend(&0).unwrap(), "Zero");
}

#[test]
fn wraps_library_with_loan_out() {
    let mut lib = get_lib();
    let outer = lib.lend(&0).unwrap();
    assert_eq!(*outer, "Zero");
    let mut wrap = LendingWrap::new(&mut lib);
    assert!(wrap.contains_key(&0));
    assert_eq!(wrap.insert(5, "Five".to_string()), None);
    assert_eq!(wrap.insert(1, "Uno".to_string()), Some("One".to_string()));
    wrap.commit();
    drop(outer);
    assert_eq!(*lib.lend(&0).unwrap(), "Zero");
    assert_eq!(*lib.lend(&1).unwrap(), "Uno");
    assert_eq!(*lib.lend(&5).unwrap(), "Five");
}
