use lumi_ui::signals::{Action, Signal, SignalGraph, SignalKind};

fn sum_of(xs: &Vec<&i64>) -> i64 {
    xs.iter().map(|x| **x).sum()
}

fn doubling_graph() -> SignalGraph<i64, impl Fn(u64, &i64) -> i64, impl Fn(u64, &Vec<&i64>) -> i64> {
    SignalGraph::new(
        |key: u64, x: &i64| -> i64 {
            match key {
                0 => x * 2,
                1 => x + 1,
                _ => -x,
            }
        },
        |key: u64, xs: &Vec<&i64>| -> i64 {
            match key {
                0 => sum_of(xs),
                _ => xs.iter().map(|x| **x).max().unwrap_or(0),
            }
        },
    )
}

#[test]
fn set_invokes_value_slots_in_registration_order() {
    let mut g = doubling_graph();
    let s = Signal::new(&mut g, 1);
    g.subscribe(s, 10);
    g.subscribe(s, 20);
    g.subscribe(s, 30);
    g.notify(s, 40);
    let plan = g.set(s, 5);
    assert_eq!(*g.get(s), 5);
    assert_eq!(
        plan,
        vec![
            Action::Call(10, s.index),
            Action::Call(20, s.index),
            Action::Call(30, s.index),
            Action::Notify(40),
        ]
    );
}

#[test]
fn set_without_subscribers_plans_nothing() {
    let mut g = doubling_graph();
    let s = Signal::new(&mut g, 1);
    assert!(g.set(s, 2).is_empty());
    assert_eq!(*g.get(s), 2);
}

#[test]
fn relative_tracks_source_after_every_set() {
    let mut g = doubling_graph();
    let s = Signal::new(&mut g, 3);
    let d = g.relative(s, 0);
    assert_eq!(*g.get(d), 6);
    for v in [4, -7, 0, 100] {
        g.set(s, v);
        assert_eq!(*g.get(d), v * 2);
    }
}

#[test]
fn relative_chain_recomputes_depth_first() {
    let mut g = doubling_graph();
    let s = Signal::new(&mut g, 1);
    let d = g.relative(s, 0);
    let e = g.relative(d, 1);
    g.subscribe(s, 1);
    g.subscribe(e, 2);
    let plan = g.set(s, 10);
    assert_eq!(*g.get(d), 20);
    assert_eq!(*g.get(e), 21);
    assert_eq!(plan, vec![Action::Propagate(d.index), Action::Call(1, s.index)]);
    assert_eq!(g.plan(d), vec![Action::Propagate(e.index)]);
    assert_eq!(g.plan(e), vec![Action::Call(2, e.index)]);
}

#[test]
fn set_leaves_unrelated_signals_alone() {
    let mut g = doubling_graph();
    let a = Signal::new(&mut g, 1);
    let b = Signal::new(&mut g, 2);
    let db = g.relative(b, 1);
    g.set(a, 50);
    assert_eq!(*g.get(b), 2);
    assert_eq!(*g.get(db), 3);
}

#[test]
fn relative_of_constant_is_constant_and_silent() {
    let mut g = doubling_graph();
    let c = Signal::constant(&mut g, 21);
    let d = g.relative(c, 0);
    assert_eq!(g.kind_of(d), SignalKind::Const);
    assert_eq!(*g.get(d), 42);
    g.subscribe(d, 1);
    g.notify(d, 2);
    g.subscribe(c, 3);
    assert!(g.plan(d).is_empty());
    assert!(g.plan(c).is_empty());
    let other = Signal::new(&mut g, 0);
    g.set(other, 9);
    assert_eq!(*g.get(d), 42);
    assert_eq!(*g.get(c), 21);
}

#[derive(Debug, Clone, PartialEq)]
enum Val {
    Int(i64),
    Str(String),
}

#[test]
fn combined_subscriber_fires_once_per_member_set() {
    let mut g = SignalGraph::new(
        |_k: u64, v: &Val| -> Val { v.clone() },
        |_k: u64, vs: &Vec<&Val>| -> Val { vs[0].clone() },
    );
    let a = Signal::new(&mut g, Val::Int(0));
    let b = Signal::new(&mut g, Val::Str("x".to_string()));
    g.subscribe_combined(&vec![a, b], 7);
    let members = vec![a.index, b.index];

    let first = g.set(a, Val::Int(1));
    assert_eq!(first, vec![Action::CallCombined(7, members.clone())]);
    let read: Vec<Val> = members.iter().map(|&i| g.get(Signal { index: i }).clone()).collect();
    assert_eq!(read, vec![Val::Int(1), Val::Str("x".to_string())]);

    g.set(b, Val::Str("y".to_string()));
    let second = g.set(a, Val::Int(2));
    assert_eq!(second, vec![Action::CallCombined(7, members.clone())]);
    let read: Vec<Val> = members.iter().map(|&i| g.get(Signal { index: i }).clone()).collect();
    assert_eq!(read, vec![Val::Int(2), Val::Str("y".to_string())]);
}

#[test]
fn combined_skips_constant_members() {
    let mut g = doubling_graph();
    let a = Signal::new(&mut g, 1);
    let c = Signal::constant(&mut g, 2);
    g.subscribe_combined(&vec![a, c], 5);
    assert_eq!(g.plan(a), vec![Action::CallCombined(5, vec![a.index, c.index])]);
    assert!(g.plan(c).is_empty());
}

#[test]
fn graph_counts_signals() {
    let mut g = doubling_graph();
    assert_eq!(g.count(), 0);
    let a = Signal::new(&mut g, 1);
    let _ = g.relative(a, 2);
    assert_eq!(g.count(), 2);
    assert_eq!(g.kind_of(a), SignalKind::Root);
    assert_eq!(g.kind_of(Signal { index: 1 }), SignalKind::Relative(0, 2));
    assert_eq!(*g.get(Signal { index: 1 }), -1);
}

#[test]
fn relative_all_recomputes_on_any_member() {
    let mut g = doubling_graph();
    let a = Signal::new(&mut g, 1);
    let b = Signal::new(&mut g, 10);
    let c = Signal::constant(&mut g, 100);
    let total = g.relative_all(&vec![a, b, c], 0);
    assert_eq!(*g.get(total), 111);
    assert_eq!(g.kind_of(total), SignalKind::Combined(0));
    g.subscribe(total, 4);
    let plan = g.set(b, 20);
    assert_eq!(*g.get(total), 121);
    assert_eq!(plan, vec![Action::Propagate(total.index)]);
    assert_eq!(g.plan(total), vec![Action::Call(4, total.index)]);
    g.set(a, 5);
    assert_eq!(*g.get(total), 125);
    assert!(g.plan(c).is_empty());
}

#[test]
fn relative_of_combination_chains() {
    let mut g = doubling_graph();
    let a = Signal::new(&mut g, 2);
    let b = Signal::new(&mut g, 3);
    let top = g.relative_all(&vec![a, b], 1);
    let doubled = g.relative(top, 0);
    assert_eq!(*g.get(doubled), 6);
    g.set(a, 9);
    assert_eq!(*g.get(top), 9);
    assert_eq!(*g.get(doubled), 18);
    let vals: Vec<i64> = g.get_all(&vec![a, b, top, doubled]).into_iter().copied().collect();
    assert_eq!(vals, vec![9, 3, 9, 18]);
}

#[test]
fn get_ref_reads_and_clones() {
    let mut g = doubling_graph();
    let a = Signal::new(&mut g, 7);
    let r = g.get_ref(a);
    assert_eq!(*r.as_ref(), 7);
    assert_eq!(r.cloned(), 7);
}
