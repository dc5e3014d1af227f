//! Epoch bookkeeping: the shuffled example order, its split into batches,
//! the one-hot target of a label and the progress bar.
use rand::seq::SliceRandom;
use vstd::prelude::*;

verus! {

/// Number of classes a label can name.
pub const CLASSES: usize = 10;

/// Relies on rand's `SliceRandom::shuffle` with the thread-local generator:
/// it only swaps entries, so the result is a permutation of the input.
#[verifier::external_body]
fn shuffle(v: &mut Vec<usize>)
    ensures
        final(v)@.len() == old(v)@.len(),
        final(v)@.to_multiset() == old(v)@.to_multiset(),
{
    v.shuffle(&mut rand::thread_rng());
}

/// The indices `0..n` in order.
pub open spec fn identity(n: nat) -> Seq<usize> {
    Seq::new(n, |i: int| i as usize)
}

/// The indices `0..n` in a random order: each index exactly once.
pub fn shuffled_ordering(n: usize) -> (r: Vec<usize>)
    ensures
        r@.len() == n,
        r@.to_multiset() == identity(n as nat).to_multiset(),
{
    let mut v: Vec<usize> = Vec::new();
    let mut i: usize = 0;
    while i < n
        invariant
            i <= n,
            v@ == identity(i as nat),
        decreases n - i,
    {
        v.push(i);
        i = i + 1;
        assert(v@ =~= identity(i as nat));
    }
    shuffle(&mut v);
    v
}

/// The number of batches of at most `size` items that `len` items make.
pub open spec fn spec_batch_count(len: int, size: int) -> int {
    if len % size == 0 {
        len / size
    } else {
        len / size + 1
    }
}

/// The number of batches of at most `size` items that `len` items make.
pub fn batch_count(len: usize, size: usize) -> (r: usize)
    requires
        size > 0,
    ensures
        r == spec_batch_count(len as int, size as int),
{
    let q = len / size;
    if len % size == 0 {
        q
    } else {
        assert(size != 1);
        assert(q < usize::MAX) by (nonlinear_arith)
            requires
                size >= 2,
                q == len / size,
                len <= usize::MAX,
        ;
        q + 1
    }
}

/// The `k`-th batch of `items`: `size` consecutive items, fewer at the end.
pub open spec fn batch_of(items: Seq<usize>, size: int, k: int) -> Seq<usize> {
    let end = if (k + 1) * size < items.len() {
        (k + 1) * size
    } else {
        items.len() as int
    };
    items.subrange(k * size, end)
}

/// The first `k` batches of `items`, one after the other.
pub open spec fn joined_batches(items: Seq<usize>, size: int, k: int) -> Seq<usize>
    decreases k,
{
    if k <= 0 {
        Seq::empty()
    } else {
        joined_batches(items, size, k - 1) + batch_of(items, size, k - 1)
    }
}

proof fn lemma_joined_prefix(items: Seq<usize>, size: int, k: int)
    requires
        size > 0,
        0 <= k,
        (k - 1) * size < items.len() || k == 0,
    ensures
        joined_batches(items, size, k) == items.take(
            if k * size < items.len() {
                k * size
            } else {
                items.len() as int
            },
        ),
    decreases k,
{
    if k > 0 {
        if k - 1 > 0 {
            assert((k - 2) * size < items.len()) by (nonlinear_arith)
                requires
                    (k - 1) * size < items.len(),
                    size > 0,
            ;
        }
        lemma_joined_prefix(items, size, k - 1);
        assert((k - 1) * size + size == k * size) by (nonlinear_arith);
        assert((k - 1) * size >= 0) by (nonlinear_arith)
            requires
                k >= 1,
                size > 0,
        ;
        let end: int = if k * size < items.len() {
            k * size
        } else {
            items.len() as int
        };
        assert(joined_batches(items, size, k) =~= items.take(end));
    } else {
        assert(k * size == 0) by (nonlinear_arith)
            requires
                k == 0,
        ;
        assert(joined_batches(items, size, k) =~= items.take(0));
    }
}

/// The batches of an epoch partition the order: joined one after the other
/// they give back every item, each once, in order.
pub proof fn lemma_batches_partition(items: Seq<usize>, size: int)
    requires
        size > 0,
    ensures
        joined_batches(items, size, spec_batch_count(items.len() as int, size)) == items,
{
    let n = items.len() as int;
    let count = spec_batch_count(n, size);
    assert(count * size >= n && (count == 0 || (count - 1) * size < n)) by (nonlinear_arith)
        requires
            count == spec_batch_count(n, size),
            size > 0,
            n >= 0,
    {
        if n % size == 0 {
        } else {
        }
    }
    assert(count >= 0) by (nonlinear_arith)
        requires
            count == spec_batch_count(n, size),
            size > 0,
            n >= 0,
    ;
    lemma_joined_prefix(items, size, count);
    assert(items.take(n) =~= items);
}

/// Splits `items` into consecutive batches of `size` items; the last batch
/// holds what is left and may be smaller.
pub fn batches(items: &Vec<usize>, size: usize) -> (r: Vec<Vec<usize>>)
    requires
        size > 0,
    ensures
        r@.len() == spec_batch_count(items@.len() as int, size as int),
        forall|k: int|
            0 <= k < r@.len() ==> (#[trigger] r@[k])@ == batch_of(items@, size as int, k),
{
    let n = items.len();
    let count = batch_count(n, size);
    let mut out: Vec<Vec<usize>> = Vec::new();
    let mut start: usize = 0;
    let mut k: usize = 0;
    proof {
        assert(count * size >= n && (count - 1) * size < n) by (nonlinear_arith)
            requires
                count == spec_batch_count(n as int, size as int),
                size > 0,
        {
            if n % size == 0 {
            } else {
            }
        }
    }
    while k < count
        invariant
            n == items@.len(),
            size > 0,
            count == spec_batch_count(n as int, size as int),
            count * size >= n,
            count == 0 || (count - 1) * size < n,
            k <= count,
            k < count ==> start == k * size,
            k < count ==> start < n,
            out@.len() == k,
            forall|m: int| 0 <= m < k ==> (#[trigger] out@[m])@ == batch_of(items@, size as int, m),
        decreases count - k,
    {
        let end = if n - start > size {
            start + size
        } else {
            n
        };
        let mut chunk: Vec<usize> = Vec::new();
        let mut j: usize = start;
        while j < end
            invariant
                start <= j <= end <= n,
                n == items@.len(),
                chunk@ == items@.subrange(start as int, j as int),
            decreases end - j,
        {
            chunk.push(items[j]);
            j = j + 1;
            assert(chunk@ =~= items@.subrange(start as int, j as int));
        }
        assert(chunk@ == batch_of(items@, size as int, k as int)) by {
            assert((k + 1) * size == start + size) by (nonlinear_arith)
                requires
                    start == k * size,
            ;
        }
        out.push(chunk);
        proof {
            assert((k + 1) * size == start + size) by (nonlinear_arith)
                requires
                    start == k * size,
            ;
            if k + 1 < count {
                assert((k + 1) * size <= (count - 1) * size) by (nonlinear_arith)
                    requires
                        k + 1 <= count - 1,
                        size > 0,
                ;
            }
        }
        start = if n - start > size {
            start + size
        } else {
            n
        };
        if k + 1 < count {
            assert(start == (k + 1) * size);
        }
        k = k + 1;
        proof {
            if k < count {
            } else {
            }
        }
    }
    out
}

/// The one-hot target of a label: `one` at the label's index, `zero`
/// elsewhere; a label outside `0..CLASSES` gives all `zero`.
pub fn expected<T: Copy>(n: u8, zero: T, one: T) -> (r: Vec<T>)
    ensures
        r@ == Seq::new(CLASSES as nat, |i: int| if i == n { one } else { zero }),
{
    let mut v: Vec<T> = Vec::new();
    let mut i: usize = 0;
    while i < CLASSES
        invariant
            i <= CLASSES,
            v@ == Seq::new(i as nat, |k: int| if k == n { one } else { zero }),
        decreases CLASSES - i,
    {
        if i == n as usize {
            v.push(one);
        } else {
            v.push(zero);
        }
        i = i + 1;
        assert(v@ =~= Seq::new(i as nat, |k: int| if k == n { one } else { zero }));
    }
    v
}

/// The last cell of a bar: a block filled to `r` eighths, for `r < 8`.
pub open spec fn bar_head(r: int) -> char {
    if r == 0 {
        ' '
    } else if r == 1 {
        '\u{258f}'
    } else if r == 2 {
        '\u{258e}'
    } else if r == 3 {
        '\u{258d}'
    } else if r == 4 {
        '\u{258c}'
    } else if r == 5 {
        '\u{258b}'
    } else if r == 6 {
        '\u{258a}'
    } else {
        '\u{2589}'
    }
}

/// A bar `n` eighths of a cell long: one full block per eight, then one
/// partly filled cell (a space where nothing is left over).
pub fn gen_bar(n: usize) -> (r: String)
    ensures
        r@ == Seq::new((n / 8) as nat, |i: int| '\u{2588}') + seq![bar_head(n as int % 8)],
{
    let mut bar = String::new();
    let full = n / 8;
    let mut i: usize = 0;
    while i < full
        invariant
            i <= full,
            bar@ == Seq::new(i as nat, |k: int| '\u{2588}'),
        decreases full - i,
    {
        proof {
            reveal_strlit("\u{2588}");
        }
        bar.append("\u{2588}");
        i = i + 1;
        assert(bar@ =~= Seq::new(i as nat, |k: int| '\u{2588}'));
    }
    let ghost body = bar@;
    let rest = n % 8;
    if rest == 0 {
        proof {
            reveal_strlit(" ");
        }
        bar.append(" ");
    } else if rest == 1 {
        proof {
            reveal_strlit("\u{258f}");
        }
        bar.append("\u{258f}");
    } else if rest == 2 {
        proof {
            reveal_strlit("\u{258e}");
        }
        bar.append("\u{258e}");
    } else if rest == 3 {
        proof {
            reveal_strlit("\u{258d}");
        }
        bar.append("\u{258d}");
    } else if rest == 4 {
        proof {
            reveal_strlit("\u{258c}");
        }
        bar.append("\u{258c}");
    } else if rest == 5 {
        proof {
            reveal_strlit("\u{258b}");
        }
        bar.append("\u{258b}");
    } else if rest == 6 {
        proof {
            reveal_strlit("\u{258a}");
        }
        bar.append("\u{258a}");
    } else {
        proof {
            reveal_strlit("\u{2589}");
        }
        bar.append("\u{2589}");
    }
    assert(bar@ =~= body + seq![bar_head(n as int % 8)]);
    bar
}

/// What the training loop does next.
#[derive(Clone, Copy, Debug, PartialEq, Eq, Structural)]
pub enum Step {
    /// Start an epoch: draw a new order of the examples.
    Shuffle,
    /// Run the batch with this index in the current order and apply the
    /// update it gives.
    Batch(usize),
    /// End an epoch: persist the parameters.
    Save,
    /// All epochs are done.
    Done,
}

/// Progress through a fixed number of epochs of `batches` batches each.
pub struct Schedule {
    epochs: usize,
    batches: usize,
    epoch: usize,
    pos: usize,
}

impl Schedule {
    pub closed spec fn spec_epochs(&self) -> nat {
        self.epochs as nat
    }

    pub closed spec fn spec_batches(&self) -> nat {
        self.batches as nat
    }

    /// Epochs finished so far.
    pub closed spec fn spec_epoch(&self) -> nat {
        self.epoch as nat
    }

    /// Position in the current epoch: 0 before its shuffle, `k + 1` before
    /// batch `k`, `batches + 1` before its save.
    pub closed spec fn spec_pos(&self) -> nat {
        self.pos as nat
    }

    pub open spec fn wf(&self) -> bool {
        &&& self.spec_epoch() <= self.spec_epochs()
        &&& self.spec_pos() <= self.spec_batches() + 1
        &&& self.spec_epoch() == self.spec_epochs() ==> self.spec_pos() == 0
    }

    /// The step that comes next in a schedule that is at `epoch`, `pos`.
    pub open spec fn step_at(&self) -> Step {
        if self.spec_epoch() >= self.spec_epochs() {
            Step::Done
        } else if self.spec_pos() == 0 {
            Step::Shuffle
        } else if self.spec_pos() <= self.spec_batches() {
            Step::Batch((self.spec_pos() - 1) as usize)
        } else {
            Step::Save
        }
    }

    /// A schedule at the start of the first of `epochs` epochs.
    pub fn new(epochs: usize, batches: usize) -> (r: Schedule)
        requires
            batches < usize::MAX,
        ensures
            r.wf(),
            r.spec_epochs() == epochs,
            r.spec_batches() == batches,
            r.spec_epoch() == 0,
            r.spec_pos() == 0,
    {
        Schedule { epochs, batches, epoch: 0, pos: 0 }
    }

    /// The next step, and the schedule moved past it: each epoch is one
    /// shuffle, every batch once in order, and one save; after the last
    /// epoch every step is `Done`.
    pub fn next(&mut self) -> (r: Step)
        requires
            old(self).wf(),
            old(self).spec_batches() < usize::MAX,
        ensures
            final(self).wf(),
            r == old(self).step_at(),
            final(self).spec_epochs() == old(self).spec_epochs(),
            final(self).spec_batches() == old(self).spec_batches(),
            r is Done ==> *final(self) == *old(self),
            r is Save ==> final(self).spec_epoch() == old(self).spec_epoch() + 1
                && final(self).spec_pos() == 0,
            !(r is Done) && !(r is Save) ==> final(self).spec_epoch() == old(self).spec_epoch()
                && final(self).spec_pos() == old(self).spec_pos() + 1,
    {
        if self.epoch >= self.epochs {
            Step::Done
        } else if self.pos == 0 {
            self.pos = 1;
            Step::Shuffle
        } else if self.pos <= self.batches {
            let k = self.pos - 1;
            self.pos = self.pos + 1;
            Step::Batch(k)
        } else {
            self.epoch = self.epoch + 1;
            self.pos = 0;
            Step::Save
        }
    }
}

} // verus!
