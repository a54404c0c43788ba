use zrsh::helper::{safe_add, SafeAdd};
use zrsh::markdown::{my_func, pred};

#[test]
fn test_my_func() {
    assert_eq!(my_func(), Some(100));
}

#[test]
#[should_panic]
fn test_pred() {
    pred(0).unwrap();
}

#[test]
fn test_safe_add() {
    let n: usize = 10;
    assert_eq!(Some(30), n.safe_add(&20));

    let n: usize = !0; // 2^64 - 1 (64 bits CPU)
    assert_eq!(None, n.safe_add(&1));

    let mut n: usize = 10;
    assert!(safe_add(&mut n, &20, || ()).is_ok());

    let mut n: usize = !0;
    assert!(safe_add(&mut n, &1, || ()).is_err());
}

#[test]
fn pred_counts_down() {
    assert_eq!(pred(5), Some(4));
    assert_eq!(pred(1), Some(0));
    assert_eq!(pred(0), None);
}

#[test]
fn safe_add_leaves_value_on_overflow() {
    let mut n: usize = !0;
    let r = safe_add(&mut n, &2, || "too big");
    assert_eq!(r, Err("too big"));
    assert_eq!(n, !0);
}
