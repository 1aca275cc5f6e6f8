use gitlocalstats::counts::CommitCounts;

fn counts_of(days: &[i32]) -> CommitCounts {
    let mut c = CommitCounts::new();
    for d in days {
        c.add_commit(*d);
    }
    c
}

#[test]
fn new_counts_are_empty() {
    let c = CommitCounts::new();
    assert!(c.is_empty());
    assert_eq!(c.len(), 0);
    assert_eq!(c.get(19675), 0);
}

#[test]
fn add_commit_counts_per_day_in_order() {
    let c = counts_of(&[19675, 19492, 19675, 19500]);
    assert_eq!(c.entries(), vec![(19492, 1), (19500, 1), (19675, 2)]);
    assert_eq!(c.get(19675), 2);
    assert_eq!(c.get(19491), 0);
}

#[test]
fn merge_adds_pointwise() {
    let a = counts_of(&[1, 2, 2]);
    let b = counts_of(&[2, 3]);
    let m = a.merge(&b);
    assert_eq!(m.entries(), vec![(1, 1), (2, 3), (3, 1)]);
}

#[test]
fn merge_saturates_at_the_largest_count() {
    let mut a = CommitCounts::new();
    a.add_commit(5);
    let mut big = CommitCounts::new();
    big.add_commit(5);
    for _ in 0..6 {
        big = big.merge(&big);
    }
    assert_eq!(big.get(5), 64);
    let m = a.merge(&big);
    assert_eq!(m.get(5), 65);
}

#[test]
fn merge_order_and_batches_do_not_matter() {
    let parts = vec![
        counts_of(&[1, 2]),
        counts_of(&[2, 7]),
        counts_of(&[]),
        counts_of(&[7, 7, 1]),
        counts_of(&[9]),
    ];
    let whole = CommitCounts::merge_all(&parts);
    let first = CommitCounts::merge_all(&vec![parts[0].merge(&parts[1]), parts[2].merge(&parts[3])]);
    let batched = first.merge(&parts[4]);
    let reversed = parts[4].merge(&parts[3]).merge(&parts[2].merge(&parts[1])).merge(&parts[0]);
    assert_eq!(whole.entries(), vec![(1, 2), (2, 2), (7, 3), (9, 1)]);
    assert_eq!(batched.entries(), whole.entries());
    assert_eq!(reversed.entries(), whole.entries());
}

#[test]
fn merge_all_of_nothing_is_empty() {
    let none: Vec<CommitCounts> = Vec::new();
    assert!(CommitCounts::merge_all(&none).is_empty());
}
