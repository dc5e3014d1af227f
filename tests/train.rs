use mnist_mlp::train::{
    batch_count, batches, expected, gen_bar, shuffled_ordering, Schedule, Step,
};

#[test]
fn batches_split_with_short_tail() {
    let items: Vec<usize> = (0..5).collect();
    assert_eq!(batches(&items, 2), vec![vec![0, 1], vec![2, 3], vec![4]]);
    assert_eq!(batches(&items, 5), vec![vec![0, 1, 2, 3, 4]]);
    assert_eq!(batches(&items, 9), vec![vec![0, 1, 2, 3, 4]]);
    assert_eq!(batches(&Vec::new(), 3), Vec::<Vec<usize>>::new());
}

#[test]
fn batch_count_rounds_up() {
    assert_eq!(batch_count(5, 2), 3);
    assert_eq!(batch_count(6, 2), 3);
    assert_eq!(batch_count(0, 4), 0);
    assert_eq!(batch_count(usize::MAX, 2), usize::MAX / 2 + 1);
}

#[test]
fn ordering_is_a_permutation() {
    let mut o = shuffled_ordering(50);
    assert_eq!(o.len(), 50);
    assert_ne!(o, (0..50).collect::<Vec<_>>());
    o.sort();
    assert_eq!(o, (0..50).collect::<Vec<_>>());
}

#[test]
fn one_hot_targets() {
    assert_eq!(
        expected(3, 0.0, 1.0),
        vec![0.0, 0.0, 0.0, 1.0, 0.0, 0.0, 0.0, 0.0, 0.0, 0.0]
    );
    assert_eq!(expected(0, 0, 1), vec![1, 0, 0, 0, 0, 0, 0, 0, 0, 0]);
    assert_eq!(expected(10, 0.0, 1.0), vec![0.0; 10]);
}

#[test]
fn bars() {
    assert_eq!(gen_bar(0), " ");
    assert_eq!(gen_bar(8), "\u{2588} ");
    assert_eq!(gen_bar(17), "\u{2588}\u{2588}\u{258f}");
    assert_eq!(gen_bar(7), "\u{2589}");
}

#[test]
fn schedule_runs_each_epoch_in_order() {
    let mut s = Schedule::new(2, 2);
    let steps: Vec<Step> = (0..10).map(|_| s.next()).collect();
    assert_eq!(
        steps,
        vec![
            Step::Shuffle,
            Step::Batch(0),
            Step::Batch(1),
            Step::Save,
            Step::Shuffle,
            Step::Batch(0),
            Step::Batch(1),
            Step::Save,
            Step::Done,
            Step::Done,
        ]
    );
    let mut none = Schedule::new(0, 3);
    assert_eq!(none.next(), Step::Done);
}
