use regex_vm::numbers::{f, pred};

#[test]
fn test_f() {
    assert_eq!(f(), Some(100));
}

#[test]
#[should_panic]
fn test_pred() {
    pred(0).unwrap();
}

#[test]
fn pred_of_positive() {
    assert_eq!(pred(1), Some(0));
    assert_eq!(pred(u32::MAX), Some(u32::MAX - 1));
}
