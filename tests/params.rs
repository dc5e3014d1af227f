use mnist_mlp::params::{canonical_layout, Activation, Cost, NetConf, NetState};

fn small() -> NetConf<f64> {
    let w1 = vec![1.0, 2.0, 3.0, 4.0, 5.0, 6.0];
    let w2 = vec![7.0, 8.0, 9.0, 10.0, 11.0, 12.0];
    NetConf::new(&vec![2, 3, 2], &vec![w1, w2], 0.0).unwrap()
}

#[test]
fn new_builds_layers_with_softmax_last() {
    let c = small();
    assert_eq!(c.layers().len(), 2);
    assert_eq!(c.layers()[0].rows, 3);
    assert_eq!(c.layers()[0].cols, 2);
    assert_eq!(c.layers()[0].activation, Activation::Relu);
    assert_eq!(c.layers()[1].activation, Activation::Softmax);
    assert_eq!(c.layers()[1].biases, vec![0.0, 0.0]);
    assert_eq!(c.cost(), Cost::CategoricalCrossEntropy);
    assert_eq!(c.sizes(), vec![2, 3, 2]);
}

#[test]
fn new_refuses_mismatched_weights() {
    assert!(NetConf::new(&vec![2, 3, 2], &vec![vec![1.0; 6], vec![1.0; 5]], 0.0).is_none());
    assert!(NetConf::new(&vec![2], &Vec::<Vec<f64>>::new(), 0.0).is_none());
    assert!(NetConf::new(&vec![2, 3, 2], &vec![vec![1.0; 6]], 0.0).is_none());
}

#[test]
fn flatten_puts_last_layer_first() {
    let c = small();
    assert_eq!(
        c.flatten(),
        vec![
            7.0, 8.0, 9.0, 10.0, 11.0, 12.0, 0.0, 0.0, 1.0, 2.0, 3.0, 4.0, 5.0, 6.0, 0.0, 0.0, 0.0
        ]
    );
}

#[test]
fn load_of_flatten_is_identity() {
    let mut c = small();
    let before = c.flatten();
    c.load_iter(&before);
    assert_eq!(c.flatten(), before);
    assert_eq!(c.sizes(), vec![2, 3, 2]);
}

#[test]
fn short_load_changes_only_prefix() {
    let mut c = small();
    c.load_iter(&vec![-1.0, -2.0, -3.0]);
    assert_eq!(
        c.flatten(),
        vec![
            -1.0, -2.0, -3.0, 10.0, 11.0, 12.0, 0.0, 0.0, 1.0, 2.0, 3.0, 4.0, 5.0, 6.0, 0.0, 0.0,
            0.0
        ]
    );
}

#[test]
fn long_load_ignores_extra_values() {
    let mut c = small();
    let vals: Vec<f64> = (0..20).map(|i| i as f64).collect();
    c.load_iter(&vals);
    assert_eq!(c.flatten(), vals[..17].to_vec());
    assert_eq!(c.layers()[0].biases, vec![14.0, 15.0, 16.0]);
    assert_eq!(c.layers()[1].weights, vec![0.0, 1.0, 2.0, 3.0, 4.0, 5.0]);
}

#[test]
fn layout_matches_flatten_order() {
    let c = small();
    let ws: Vec<Vec<f64>> = c.layers().iter().map(|l| l.weights.clone()).collect();
    let bs: Vec<Vec<f64>> = c.layers().iter().map(|l| l.biases.clone()).collect();
    assert_eq!(canonical_layout(&ws, &bs), c.flatten());
    assert_eq!(canonical_layout(&vec![vec![1], vec![2]], &vec![vec![3], vec![4]]), vec![2, 4, 1, 3]);
}

#[test]
fn state_slots_are_zeroed() {
    let mut s = NetState::new(&vec![2, 3, 1], 0.0);
    assert_eq!(s.slots().clone(), vec![vec![0.0; 2], vec![0.0; 3], vec![0.0; 1]]);
    s.set_slot(1, vec![1.0, 2.0, 3.0]);
    assert_eq!(s.slots()[1], vec![1.0, 2.0, 3.0]);
    assert_eq!(s.slots()[2], vec![0.0]);
}
