//! Where the training and test data are read from.
use vstd::prelude::*;

verus! {

/// The paths of one dataset's two files.
pub struct Dataset {
    pub labels: String,
    pub images: String,
}

/// The training set and the held-out test set.
pub struct Datasets {
    pub train: Dataset,
    pub test: Dataset,
}

} // verus!
