use rados_list::{reconcile, Discrepancy, Finding, ObjectRecord, ReconciliationMap};

fn object(key: &str, size: u64) -> ObjectRecord {
    ObjectRecord::new(key.to_string(), size, "2020-01-01T00:00:00Z".to_string())
}

fn objects(list: &[(&str, u64)]) -> Vec<ObjectRecord> {
    list.iter().map(|(key, size)| object(key, *size)).collect()
}

fn finding(key: &str, discrepancy: Discrepancy) -> Finding {
    Finding { key: key.to_string(), discrepancy }
}

fn sorted(mut findings: Vec<Finding>) -> Vec<Finding> {
    findings.sort_by(|l, r| l.key.cmp(&r.key));
    findings
}

#[test]
fn new_map_is_empty() {
    let map = ReconciliationMap::new();
    assert!(map.is_empty());
    assert_eq!(map.len(), 0);
    assert_eq!(map.get("anything"), None);
    assert_eq!(map.entries(), Vec::new());
}

#[test]
fn disjoint_listings_give_their_union() {
    let map = reconcile(objects(&[("a1", 1), ("a2", 2)]), objects(&[("b1", 3), ("b2", 4), ("b3", 5)]));
    assert_eq!(map.len(), 5);
    assert!(!map.is_empty());
    assert_eq!(
        map.entries(),
        vec![
            finding("a1", Discrepancy::OnlyA(1)),
            finding("a2", Discrepancy::OnlyA(2)),
            finding("b1", Discrepancy::OnlyB(3)),
            finding("b2", Discrepancy::OnlyB(4)),
            finding("b3", Discrepancy::OnlyB(5)),
        ]
    );
}

#[test]
fn identical_listings_give_an_empty_map() {
    let listing = [("x", 10), ("y", 20), ("z", 0)];
    let map = reconcile(objects(&listing), objects(&listing));
    assert!(map.is_empty());
    assert_eq!(map.len(), 0);
    assert_eq!(map.entries(), Vec::new());
}

#[test]
fn identical_listings_in_another_order_give_an_empty_map() {
    let map = reconcile(
        objects(&[("x", 10), ("y", 20), ("z", 30)]),
        objects(&[("z", 30), ("x", 10), ("y", 20)]),
    );
    assert!(map.is_empty());
}

#[test]
fn empty_listings_give_an_empty_map() {
    assert!(reconcile(Vec::new(), Vec::new()).is_empty());
}

#[test]
fn one_empty_side_gives_the_other_side() {
    let only_a = reconcile(objects(&[("k", 7)]), Vec::new());
    assert_eq!(only_a.entries(), vec![finding("k", Discrepancy::OnlyA(7))]);
    let only_b = reconcile(Vec::new(), objects(&[("k", 7)]));
    assert_eq!(only_b.entries(), vec![finding("k", Discrepancy::OnlyB(7))]);
}

#[test]
fn agreeing_key_never_appears() {
    let map = reconcile(
        objects(&[("same", 5), ("gone", 1), ("grown", 2)]),
        objects(&[("new", 9), ("same", 5), ("grown", 3)]),
    );
    assert_eq!(map.get("same"), None);
    assert_eq!(map.get("gone"), Some(Discrepancy::OnlyA(1)));
    assert_eq!(map.get("new"), Some(Discrepancy::OnlyB(9)));
    assert_eq!(map.get("grown"), Some(Discrepancy::Mismatch(2, 3)));
    assert_eq!(map.get("never listed"), None);
    assert_eq!(map.len(), 3);
}

#[test]
fn differing_sizes_keep_both_sizes() {
    let map = reconcile(objects(&[("x", 10), ("y", 20)]), objects(&[("x", 10), ("y", 25)]));
    assert_eq!(map.len(), 1);
    assert_eq!(map.get("x"), None);
    assert_eq!(map.get("y"), Some(Discrepancy::Mismatch(20, 25)));
    assert_eq!(map.entries(), vec![finding("y", Discrepancy::Mismatch(20, 25))]);
}

#[test]
fn sizes_compare_exactly() {
    let map = reconcile(
        objects(&[("big", u64::MAX), ("zero", 0), ("off", u64::MAX - 1)]),
        objects(&[("big", u64::MAX), ("zero", 0), ("off", u64::MAX)]),
    );
    assert_eq!(
        map.entries(),
        vec![finding("off", Discrepancy::Mismatch(u64::MAX - 1, u64::MAX))]
    );
    let smaller_first = reconcile(objects(&[("k", 1)]), objects(&[("k", 2)]));
    assert_eq!(smaller_first.get("k"), Some(Discrepancy::Mismatch(1, 2)));
}

#[test]
fn keys_are_compared_as_whole_strings() {
    let map = reconcile(objects(&[("a", 1), ("a/", 1), ("A", 1)]), objects(&[("a", 1), ("", 1)]));
    assert_eq!(
        sorted(map.entries()),
        vec![
            finding("", Discrepancy::OnlyB(1)),
            finding("A", Discrepancy::OnlyA(1)),
            finding("a/", Discrepancy::OnlyA(1)),
        ]
    );
}

#[test]
fn later_record_of_a_replaces_the_earlier() {
    let map = reconcile(objects(&[("k", 1), ("k", 2)]), objects(&[("k", 2)]));
    assert!(map.is_empty());
    let map = reconcile(objects(&[("k", 1), ("k", 2)]), objects(&[("k", 1)]));
    assert_eq!(map.entries(), vec![finding("k", Discrepancy::Mismatch(2, 1))]);
    let map = reconcile(objects(&[("k", 1), ("k", 2)]), Vec::new());
    assert_eq!(map.entries(), vec![finding("k", Discrepancy::OnlyA(2))]);
}

#[test]
fn later_record_of_b_replaces_the_earlier() {
    let map = reconcile(Vec::new(), objects(&[("k", 1), ("k", 2)]));
    assert_eq!(map.entries(), vec![finding("k", Discrepancy::OnlyB(2))]);
    let map = reconcile(Vec::new(), objects(&[("k", 1), ("k", 1)]));
    assert_eq!(map.entries(), vec![finding("k", Discrepancy::OnlyB(1))]);
    let map = reconcile(objects(&[("k", 5)]), objects(&[("k", 7), ("k", 8)]));
    assert_eq!(map.entries(), vec![finding("k", Discrepancy::Mismatch(5, 8))]);
    let map = reconcile(objects(&[("k", 5)]), objects(&[("k", 7), ("k", 5)]));
    assert!(map.is_empty());
}

#[test]
fn cancelled_key_listed_again_by_b_counts_as_only_in_b() {
    let map = reconcile(objects(&[("k", 5)]), objects(&[("k", 5), ("k", 5)]));
    assert_eq!(map.entries(), vec![finding("k", Discrepancy::OnlyB(5))]);
}

#[test]
fn seeding_after_applying_overwrites() {
    let map = ReconciliationMap::new().apply(objects(&[("k", 1)])).seed(objects(&[("k", 9)]));
    assert_eq!(map.entries(), vec![finding("k", Discrepancy::OnlyA(9))]);
}

#[test]
fn page_boundaries_do_not_matter() {
    let a = [("k0", 0), ("k1", 1), ("k2", 2), ("k3", 3), ("k4", 4), ("k5", 5)];
    let b = [("k5", 5), ("k1", 10), ("k9", 9), ("k0", 0), ("k7", 7), ("k3", 3)];
    let whole = sorted(reconcile(objects(&a), objects(&b)).entries());
    assert_eq!(
        whole,
        vec![
            finding("k1", Discrepancy::Mismatch(1, 10)),
            finding("k2", Discrepancy::OnlyA(2)),
            finding("k4", Discrepancy::OnlyA(4)),
            finding("k7", Discrepancy::OnlyB(7)),
            finding("k9", Discrepancy::OnlyB(9)),
        ]
    );
    for cut_a in 0..=a.len() {
        for cut_b in 0..=b.len() {
            let paged = ReconciliationMap::new()
                .seed(objects(&a[..cut_a]))
                .seed(objects(&a[cut_a..]))
                .apply(objects(&b[..cut_b]))
                .apply(Vec::new())
                .apply(objects(&b[cut_b..]));
            assert_eq!(sorted(paged.entries()), whole, "cuts at {} and {}", cut_a, cut_b);
        }
    }
}

#[test]
fn entries_hold_each_key_once() {
    let map = reconcile(
        objects(&[("k", 1), ("gone", 4), ("k", 2), ("other", 3)]),
        objects(&[("gone", 4), ("gone", 4), ("k", 9), ("other", 3), ("late", 6)]),
    );
    let entries = map.entries();
    assert_eq!(entries.len(), map.len());
    assert_eq!(
        entries,
        vec![
            finding("k", Discrepancy::Mismatch(2, 9)),
            finding("gone", Discrepancy::OnlyB(4)),
            finding("late", Discrepancy::OnlyB(6)),
        ]
    );
    for entry in &entries {
        assert_eq!(map.get(&entry.key), Some(entry.discrepancy));
    }
}

#[test]
fn many_keys_reconcile() {
    let mut a = Vec::new();
    let mut b = Vec::new();
    for i in 0..3000u64 {
        a.push(object(&format!("key-{}", i), i));
        if i % 3 != 0 {
            b.push(object(&format!("key-{}", i), if i % 5 == 0 { i + 1 } else { i }));
        }
    }
    let map = reconcile(a, b);
    let mut expected = 0;
    for i in 0..3000u64 {
        let key = format!("key-{}", i);
        if i % 3 == 0 {
            expected += 1;
            assert_eq!(map.get(&key), Some(Discrepancy::OnlyA(i)));
        } else if i % 5 == 0 {
            expected += 1;
            assert_eq!(map.get(&key), Some(Discrepancy::Mismatch(i, i + 1)));
        } else {
            assert_eq!(map.get(&key), None);
        }
    }
    assert_eq!(map.len(), expected);
    assert_eq!(map.entries().len(), expected);
}
