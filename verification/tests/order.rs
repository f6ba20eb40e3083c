use std::hash::{DefaultHasher, Hash, Hasher};

use steel::event::{HandlerId, HandlerOrdering, OrderingConstraint};
use steel::order::{compute_order, HandlerRecord};

fn h(s: &str) -> u64 {
    let mut x = DefaultHasher::new();
    s.hash(&mut x);
    x.finish()
}

fn rec(pid: &str, id: u64, orderings: &[(OrderingConstraint, &str)]) -> HandlerRecord {
    HandlerRecord {
        plugin_id: pid.to_string(),
        handler: HandlerId(id),
        receive_cancelled: false,
        orderings: orderings
            .iter()
            .map(|(c, p)| HandlerOrdering { constraint: *c, plugin_id: p.to_string() })
            .collect(),
    }
}

/// A plain reference: Kahn's algorithm picking the least (hash, index) ready
/// handler, then the rest by (hash, index).
fn reference(hs: &[HandlerRecord]) -> (Vec<usize>, bool) {
    let n = hs.len();
    let edge = |a: usize, b: usize| {
        hs[a].orderings.iter().any(|o| o.constraint == OrderingConstraint::Before && o.plugin_id == hs[b].plugin_id)
            || hs[b].orderings.iter().any(|o| o.constraint == OrderingConstraint::After && o.plugin_id == hs[a].plugin_id)
    };
    let key = |i: usize| (h(&hs[i].plugin_id), i);
    let mut placed = vec![false; n];
    let mut out = vec![];
    loop {
        let ready: Vec<usize> = (0..n)
            .filter(|&i| !placed[i] && (0..n).all(|a| !edge(a, i) || placed[a]))
            .collect();
        match ready.into_iter().min_by_key(|&i| key(i)) {
            Some(i) => {
                placed[i] = true;
                out.push(i);
            }
            None => break,
        }
    }
    let resolved = out.len() == n;
    let mut rest: Vec<usize> = (0..n).filter(|&i| !placed[i]).collect();
    rest.sort_by_key(|&i| key(i));
    out.extend(rest);
    (out, resolved)
}

#[test]
fn empty_handler_list() {
    let (order, resolved) = compute_order(&vec![]);
    assert!(order.is_empty());
    assert!(resolved);
}

#[test]
fn unconstrained_handlers_follow_hash_then_index() {
    let hs = vec![rec("alpha", 0, &[]), rec("beta", 1, &[]), rec("gamma", 2, &[]), rec("alpha", 3, &[])];
    let (order, resolved) = compute_order(&hs);
    assert!(resolved);
    let mut expected: Vec<usize> = (0..hs.len()).collect();
    expected.sort_by_key(|&i| (h(&hs[i].plugin_id), i));
    assert_eq!(order, expected);
    // The two handlers of one plugin keep registration order.
    let p0 = order.iter().position(|&i| i == 0).unwrap();
    let p3 = order.iter().position(|&i| i == 3).unwrap();
    assert!(p0 < p3);
}

#[test]
fn before_and_after_are_honoured() {
    let hs = vec![
        rec("a", 0, &[(OrderingConstraint::After, "c")]),
        rec("b", 1, &[]),
        rec("c", 2, &[(OrderingConstraint::After, "b")]),
        rec("d", 3, &[(OrderingConstraint::Before, "b")]),
    ];
    let (order, resolved) = compute_order(&hs);
    assert!(resolved);
    // d -> b -> c -> a is forced.
    assert_eq!(order, vec![3, 1, 2, 0]);
    assert_eq!((order, resolved), reference(&hs));
}

#[test]
fn constraint_on_absent_plugin_is_ignored() {
    let hs = vec![rec("x", 0, &[(OrderingConstraint::Before, "nobody")]), rec("y", 1, &[])];
    let (order, resolved) = compute_order(&hs);
    assert!(resolved);
    let mut expected = vec![0, 1];
    expected.sort_by_key(|&i| (h(&hs[i].plugin_id), i));
    assert_eq!(order, expected);
}

#[test]
fn cycle_falls_back_to_hash_order() {
    let hs = vec![
        rec("p", 0, &[(OrderingConstraint::Before, "q")]),
        rec("q", 1, &[(OrderingConstraint::Before, "p")]),
        rec("r", 2, &[]),
    ];
    let (order, resolved) = compute_order(&hs);
    assert!(!resolved);
    assert_eq!(order[0], 2);
    let mut rest = vec![0, 1];
    rest.sort_by_key(|&i| (h(&hs[i].plugin_id), i));
    assert_eq!(&order[1..], &rest[..]);
    assert_eq!((order, resolved), reference(&hs));
}

#[test]
fn self_constraint_is_a_cycle() {
    let hs = vec![rec("s", 0, &[(OrderingConstraint::Before, "s")]), rec("t", 1, &[])];
    let (order, resolved) = compute_order(&hs);
    assert!(!resolved);
    assert_eq!(order, vec![1, 0]);
}

#[test]
fn matches_reference_on_mixed_constraints() {
    let hs = vec![
        rec("m", 0, &[]),
        rec("n", 1, &[(OrderingConstraint::Before, "m")]),
        rec("o", 2, &[(OrderingConstraint::After, "m")]),
        rec("m", 3, &[]),
        rec("p", 4, &[(OrderingConstraint::After, "zzz")]),
        rec("q", 5, &[(OrderingConstraint::Before, "o"), (OrderingConstraint::After, "n")]),
    ];
    let (order, resolved) = compute_order(&hs);
    assert!(resolved);
    assert_eq!((order.clone(), resolved), reference(&hs));
    let pos = |i: usize| order.iter().position(|&x| x == i).unwrap();
    assert!(pos(1) < pos(0) && pos(1) < pos(3));
    assert!(pos(0) < pos(2) && pos(3) < pos(2));
    assert!(pos(5) < pos(2) && pos(1) < pos(5));
}

#[test]
fn order_is_deterministic() {
    let hs = vec![
        rec("k", 0, &[(OrderingConstraint::Before, "l")]),
        rec("l", 1, &[]),
        rec("j", 2, &[]),
        rec("i", 3, &[(OrderingConstraint::After, "j")]),
    ];
    let first = compute_order(&hs);
    let second = compute_order(&hs);
    assert_eq!(first, second);
    assert_eq!(first, reference(&hs));
}

#[test]
fn hash_decides_between_unconstrained_plugins() {
    let mut names = vec!["north", "south", "east", "west", "up", "down"];
    // Register in decreasing hash order: the run order must reverse it.
    names.sort_by_key(|n| std::cmp::Reverse(h(n)));
    let hs: Vec<HandlerRecord> = names.iter().enumerate().map(|(i, n)| rec(n, i as u64, &[])).collect();
    let (order, resolved) = compute_order(&hs);
    assert!(resolved);
    assert_eq!(order, vec![5, 4, 3, 2, 1, 0]);
}
