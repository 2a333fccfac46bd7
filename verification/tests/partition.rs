use dregs::partition::{Partition, PartitionError};

#[test]
fn parse_ok() {
    let p: Partition = "slice:2/4".parse().unwrap();
    assert_eq!(p, Partition { index: 2, total: 4 });
}

#[test]
fn parse_invalid_fails() {
    assert!("slice:0/4".parse::<Partition>().is_err());
    assert!("slice:5/4".parse::<Partition>().is_err());
    assert!("bad".parse::<Partition>().is_err());
    assert!("hash:1/2".parse::<Partition>().is_err());
    assert!("slice:1/0".parse::<Partition>().is_err());
    assert!("slice:abc/2".parse::<Partition>().is_err());
    assert!("slice:1/2/3".parse::<Partition>().is_err());
}

#[test]
fn filter_ok() {
    let items: Vec<u32> = (1..=10).collect();
    let p: Partition = "slice:1/3".parse().unwrap();
    let filtered: Vec<u32> = p.filter(&items, |x| *x).into_iter().copied().collect();
    assert_eq!(filtered, vec![1, 4, 7, 10]);
}

#[test]
fn single_shard_ok() {
    let items: Vec<u32> = (1..=5).collect();
    let p: Partition = "slice:1/1".parse().unwrap();
    let filtered: Vec<u32> = p.filter(&items, |x| *x).into_iter().copied().collect();
    assert_eq!(filtered, vec![1, 2, 3, 4, 5]);
}

#[test]
fn empty_shard_ok() {
    let items: Vec<u32> = vec![1, 2, 3];
    let p: Partition = "slice:4/5".parse().unwrap();
    let filtered: Vec<u32> = p.filter(&items, |x| *x).into_iter().copied().collect();
    assert!(filtered.is_empty());
}

#[test]
fn equal_distribution_ok() {
    let items: Vec<u32> = (1..=6).collect();
    let mut all: Vec<u32> = Vec::new();
    for i in 1..=3 {
        let p = Partition { index: i, total: 3 };
        let filtered: Vec<u32> = p.filter(&items, |x| *x).into_iter().copied().collect();
        assert_eq!(filtered.len(), 2);
        all.extend(filtered);
    }
    all.sort();
    assert_eq!(all, vec![1, 2, 3, 4, 5, 6]);
}

// ---------------------------------------------------------------------------
// Further cases
// ---------------------------------------------------------------------------

#[test]
fn partition_error_messages() {
    let e = "bad".parse::<Partition>().unwrap_err();
    assert!(matches!(e, PartitionError::InvalidFormat(_)));
    assert_eq!(e.to_string(), "invalid partition format: bad (expected 'slice:M/N')");
    let e = "slice:0/4".parse::<Partition>().unwrap_err();
    assert_eq!(e.to_string(), "partition index must be >= 1, got 0");
    let e = "slice:5/4".parse::<Partition>().unwrap_err();
    assert_eq!(e.to_string(), "partition index 5 exceeds total 4");
    let e = "slice:1/0".parse::<Partition>().unwrap_err();
    assert_eq!(e.to_string(), "partition total must be >= 1, got 0");
}

#[test]
fn partition_accepts_plus_signs_like_integer_parsing() {
    let p: Partition = "slice:+1/+2".parse().unwrap();
    assert_eq!(p, Partition { index: 1, total: 2 });
    assert!("slice:/2".parse::<Partition>().is_err());
    assert!("slice:99999999999/2".parse::<Partition>().is_err());
}

#[test]
fn every_item_lands_in_exactly_one_shard() {
    let items: Vec<u32> = (1..=17).collect();
    let mut counts = vec![0u32; 18];
    for i in 1..=4 {
        let p = Partition { index: i, total: 4 };
        for x in p.filter(&items, |x| *x) {
            counts[*x as usize] += 1;
        }
    }
    for id in 1..=17usize {
        assert_eq!(counts[id], 1, "id {id}");
    }
}

#[test]
fn filter_deals_by_position_not_by_identifier() {
    let items: Vec<u32> = vec![2];
    let p = Partition { index: 1, total: 2 };
    let filtered: Vec<u32> = p.filter(&items, |x| *x).into_iter().copied().collect();
    assert_eq!(filtered, vec![2]);
    let q = Partition { index: 2, total: 2 };
    assert!(q.filter(&items, |x| *x).is_empty());
}

#[test]
fn filter_ignores_identifiers_of_zero() {
    let items: Vec<u32> = vec![0, 0, 0, 0, 0];
    let p = Partition { index: 2, total: 2 };
    assert_eq!(p.filter(&items, |x| *x).len(), 2);
}

#[test]
fn filter_keeps_every_total_th_item_from_the_index() {
    let items: Vec<&str> = vec!["a", "b", "c", "d", "e", "f", "g"];
    let p = Partition { index: 3, total: 3 };
    let filtered: Vec<&str> = p.filter(&items, |_| 1).into_iter().copied().collect();
    assert_eq!(filtered, vec!["c", "f"]);
}

#[test]
fn parse_reads_every_decimal_slice_spec() {
    for n in 1..=6u32 {
        for m in 1..=n {
            let p: Partition = format!("slice:{m}/{n}").parse().unwrap();
            assert_eq!(p, Partition { index: m, total: n });
        }
    }
    let p: Partition = "slice:4294967295/4294967295".parse().unwrap();
    assert_eq!(p, Partition { index: u32::MAX, total: u32::MAX });
}

#[test]
fn filter_of_no_items_is_empty_for_any_shard() {
    let items: Vec<u32> = vec![];
    let p = Partition { index: 0, total: 0 };
    assert!(p.filter(&items, |x| *x).is_empty());
}
