use recl::{
    defer, enter_critical, exit_critical, increment_epoch, next_epoch, protected, run_all, Global,
    TSLocal,
};
use std::cell::Cell;
use std::rc::Rc;

type Callback = Box<dyn FnOnce()>;

fn setter(flag: &Rc<Cell<bool>>) -> Callback {
    let f = Rc::clone(flag);
    Box::new(move || f.set(true))
}

fn counter_inc(c: &Rc<Cell<u32>>) -> Callback {
    let c = Rc::clone(c);
    Box::new(move || c.set(c.get() + 1))
}

fn collect_and_run(g: &mut Global<Callback>) -> Option<usize> {
    let batch = g.collect()?;
    let n = batch.len();
    run_all(batch);
    Some(n)
}

#[test]
fn epoch_rotation() {
    assert_eq!(next_epoch(0), 1);
    assert_eq!(next_epoch(1), 2);
    assert_eq!(next_epoch(2), 0);
    let mut e: usize = 2;
    assert_eq!(increment_epoch(&mut e), 0);
    assert_eq!(e, 0);
}

#[test]
fn single_thread_cycle() {
    let mut g: Global<Callback> = Global::new();
    let h = TSLocal::new(&mut g);
    let flag = Rc::new(Cell::new(false));
    enter_critical(&mut g, &h);
    defer(&mut g, &h, setter(&flag));
    exit_critical(&mut g, &h);
    assert_eq!(collect_and_run(&mut g), Some(0));
    assert!(!flag.get());
    assert_eq!(collect_and_run(&mut g), Some(0));
    assert!(!flag.get());
    assert_eq!(collect_and_run(&mut g), Some(1));
    assert!(flag.get());
    assert_eq!(g.current_epoch(), 0);
}

#[test]
fn active_reader_blocks_reclamation() {
    let mut g: Global<Callback> = Global::new();
    let reader = TSLocal::new(&mut g);
    let writer = TSLocal::new(&mut g);
    let flag = Rc::new(Cell::new(false));
    enter_critical(&mut g, &reader);
    defer(&mut g, &writer, setter(&flag));
    assert_eq!(collect_and_run(&mut g), Some(0));
    for _ in 0..10 {
        assert_eq!(collect_and_run(&mut g), None);
    }
    assert!(!flag.get());
    assert_eq!(g.current_epoch(), 1);
    exit_critical(&mut g, &reader);
    for _ in 0..3 {
        collect_and_run(&mut g);
    }
    assert!(flag.get());
}

#[test]
fn many_enqueues_all_run_once() {
    let mut g: Global<Callback> = Global::new();
    let handles: Vec<TSLocal> = (0..4).map(|_| TSLocal::new(&mut g)).collect();
    let count = Rc::new(Cell::new(0u32));
    for round in 0..1000 {
        for h in &handles {
            enter_critical(&mut g, h);
            defer(&mut g, h, counter_inc(&count));
            exit_critical(&mut g, h);
        }
        if round % 7 == 0 {
            collect_and_run(&mut g);
        }
    }
    for _ in 0..3 {
        assert!(collect_and_run(&mut g).is_some());
    }
    assert_eq!(count.get(), 4000);
    assert_eq!(collect_and_run(&mut g), Some(0));
}

#[test]
fn teardown_hands_back_parked() {
    let mut g: Global<Callback> = Global::new();
    let h = TSLocal::new(&mut g);
    let flag = Rc::new(Cell::new(false));
    enter_critical(&mut g, &h);
    defer(&mut g, &h, setter(&flag));
    exit_critical(&mut g, &h);
    let left = g.remove_local(h.key());
    assert_eq!(left.len(), 1);
    run_all(left);
    assert!(flag.get());
    assert!(g.position(h.key()).is_none());
    assert_eq!(g.remove_local(h.key()).len(), 0);
}

#[test]
fn nested_sections_publish_once() {
    let mut g: Global<Callback> = Global::new();
    let h = TSLocal::new(&mut g);
    let other = TSLocal::new(&mut g);
    let mark = Rc::new(Cell::new(false));
    enter_critical(&mut g, &h);
    enter_critical(&mut g, &h);
    defer(&mut g, &h, setter(&mark));
    exit_critical(&mut g, &h);
    assert_eq!(g.depth(h.key()), Some(1));
    assert_eq!(collect_and_run(&mut g), Some(0));
    assert_eq!(collect_and_run(&mut g), None);
    exit_critical(&mut g, &h);
    assert_eq!(g.depth(h.key()), Some(0));
    enter_critical(&mut g, &other);
    exit_critical(&mut g, &other);
    for _ in 0..2 {
        collect_and_run(&mut g);
    }
    assert!(mark.get());
}

#[test]
fn protected_returns_the_closure_result() {
    let mut g: Global<Callback> = Global::new();
    let h = TSLocal::new(&mut g);
    let r = protected(&mut g, &h, || 6 * 7);
    assert_eq!(r, 42);
    assert_eq!(collect_and_run(&mut g), Some(0));
    assert_eq!(collect_and_run(&mut g), Some(0));
}

#[test]
fn quiet_collections_drain_then_do_nothing() {
    let mut g: Global<Callback> = Global::new();
    let h = TSLocal::new(&mut g);
    let count = Rc::new(Cell::new(0u32));
    defer(&mut g, &h, counter_inc(&count));
    collect_and_run(&mut g);
    defer(&mut g, &h, counter_inc(&count));
    collect_and_run(&mut g);
    defer(&mut g, &h, counter_inc(&count));
    let mut handed = 0;
    for _ in 0..3 {
        handed += collect_and_run(&mut g).unwrap();
    }
    assert_eq!(handed, 3);
    assert_eq!(count.get(), 3);
    for _ in 0..5 {
        assert_eq!(collect_and_run(&mut g), Some(0));
    }
}

#[test]
fn bucket_runs_in_insertion_order() {
    let mut g: Global<Callback> = Global::new();
    let h = TSLocal::new(&mut g);
    let log = Rc::new(std::cell::RefCell::new(Vec::new()));
    for k in 0..5u32 {
        let l = Rc::clone(&log);
        defer(&mut g, &h, Box::new(move || l.borrow_mut().push(k)));
    }
    for _ in 0..3 {
        collect_and_run(&mut g);
    }
    assert_eq!(*log.borrow(), vec![0, 1, 2, 3, 4]);
}

#[test]
fn teardown_and_collection_together_run_everything_once() {
    let mut g: Global<Callback> = Global::new();
    let a = TSLocal::new(&mut g);
    let b = TSLocal::new(&mut g);
    let count = Rc::new(Cell::new(0u32));
    for _ in 0..3 {
        defer(&mut g, &a, counter_inc(&count));
        defer(&mut g, &b, counter_inc(&count));
        collect_and_run(&mut g);
    }
    assert_eq!(count.get(), 2);
    run_all(g.remove_local(a.key()));
    assert_eq!(count.get(), 4);
    for _ in 0..3 {
        collect_and_run(&mut g);
    }
    assert_eq!(count.get(), 6);
    assert_eq!(g.depth(a.key()), None);
    assert_eq!(g.depth(b.key()), Some(0));
}
