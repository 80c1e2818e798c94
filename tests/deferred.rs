use recl::Deferred;
use std::cell::Cell;
use std::rc::Rc;

#[test]
fn defer_external() {
    let a = [61; 32];
    let deferred = Deferred::new(|| println!("{:?}", a));
    deferred.run();
}

#[test]
fn inline_and_boxed_carriers_both_run() {
    let counter = Rc::new(Cell::new(0u64));
    let c1 = Rc::clone(&counter);
    let small = Deferred::new(move || c1.set(c1.get() + 1));
    assert!(small.inline());
    let c2 = Rc::clone(&counter);
    let big = [5u64; 4];
    let large = Deferred::new(move || c2.set(c2.get() + big.iter().sum::<u64>()));
    assert!(!large.inline());
    small.run();
    large.run();
    assert_eq!(counter.get(), 21);
    assert_eq!(Rc::strong_count(&counter), 1);
}

#[test]
fn carrier_size_boundaries() {
    let zero = Deferred::new(|| {});
    assert!(zero.inline());
    zero.run();
    let one = 7u8;
    let d1 = Deferred::new(move || assert_eq!(one, 7));
    assert!(d1.inline());
    d1.run();
    let just_under = [3u8; 31];
    let d31 = Deferred::new(move || assert_eq!(just_under[30], 3));
    assert!(d31.inline());
    d31.run();
    let full = [1u8; 32];
    let d32 = Deferred::new(move || assert_eq!(full[31], 1));
    assert!(!d32.inline());
    d32.run();
}

#[test]
fn carrier_over_aligned_goes_to_heap() {
    let w: u128 = 9;
    let d = Deferred::new(move || assert_eq!(w, 9));
    assert_eq!(std::mem::align_of::<u128>() > 8, !d.inline());
    d.run();
}
