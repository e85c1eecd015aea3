use vstd::prelude::*;
use rand::Rng;

verus! {

/// A placement of `n` queens, one per row: `positions[i]` is the column of
/// the queen in row `i`. Placements are permutations of `0..n`, so no two
/// queens share a row or a column; only diagonals can clash.
#[derive(Debug, Clone)]
pub struct QueenState {
    pub positions: Vec<usize>,
    pub n: usize,
}

/// The queens of rows `i` and `j` share a diagonal.
pub open spec fn on_diagonal(p: Seq<usize>, i: int, j: int) -> bool {
    distance(i, j) == distance(p[i] as int, p[j] as int)
}

/// `|a - b|`.
pub open spec fn distance(a: int, b: int) -> int {
    if a <= b {
        b - a
    } else {
        a - b
    }
}

/// The queen of row `i` shares a diagonal with a queen of a later row.
pub open spec fn attacks_later(p: Seq<usize>, i: int) -> bool {
    exists|j: int| i < j < p.len() && on_diagonal(p, i, j)
}

/// The number of rows below `upto` whose queen shares a diagonal with a
/// queen of a later row.
pub open spec fn attacking_rows(p: Seq<usize>, upto: int) -> nat
    decreases upto,
{
    if upto <= 0 {
        0
    } else {
        attacking_rows(p, upto - 1) + if attacks_later(p, upto - 1) {
            1nat
        } else {
            0nat
        }
    }
}

/// The placement with the queens of rows `i` and `j` exchanged.
pub open spec fn swap_rows(p: Seq<usize>, i: int, j: int) -> Seq<usize> {
    p.update(i, p[j]).update(j, p[i])
}

/// Relies on rand's `thread_rng` and `Rng::gen_range`: a uniform draw from
/// `0..n`, which panics on an empty range.
#[verifier::external_body]
fn random_index(n: usize) -> (r: usize)
    requires
        n > 0,
    ensures
        r < n,
{
    rand::thread_rng().gen_range(0..n)
}

proof fn lemma_attacking_rows_bound(p: Seq<usize>, upto: int)
    ensures
        attacking_rows(p, upto) <= if upto < 0 {
            0
        } else {
            upto
        },
    decreases upto,
{
    if upto > 0 {
        lemma_attacking_rows_bound(p, upto - 1);
    }
}

impl QueenState {
    /// An empty placement for `n` queens; `setup` places them.
    pub fn new(n: usize) -> (r: QueenState)
        ensures
            r.n == n,
            r.positions@.len() == 0,
    {
        QueenState { positions: Vec::new(), n }
    }

    /// Places queen `i` in column `i`, for every row.
    pub fn setup(&mut self)
        ensures
            final(self).n == old(self).n,
            final(self).positions@ == Seq::new(old(self).n as nat, |i: int| i as usize),
    {
        let mut positions: Vec<usize> = Vec::with_capacity(self.n);
        let mut i: usize = 0;
        while i < self.n
            invariant
                i <= self.n,
                positions@ == Seq::new(i as nat, |k: int| k as usize),
            decreases self.n - i,
        {
            positions.push(i);
            i += 1;
            assert(positions@ =~= Seq::new(i as nat, |k: int| k as usize));
        }
        self.positions = positions;
    }

    /// The number of rows whose queen shares a diagonal with a queen of a
    /// later row.
    pub fn energy(&self) -> (r: usize)
        ensures
            r == attacking_rows(self.positions@, self.positions@.len() as int),
    {
        let p = &self.positions;
        let len = p.len();
        let mut count: usize = 0;
        let mut i: usize = 0;
        while i < len
            invariant
                i <= len,
                len == p@.len(),
                count == attacking_rows(p@, i as int),
            decreases len - i,
        {
            let mut found = false;
            let mut j: usize = i + 1;
            while j < len && !found
                invariant
                    i < j <= len,
                    len == p@.len(),
                    found ==> attacks_later(p@, i as int),
                    !found ==> forall|t: int| i < t < j ==> !on_diagonal(p@, i as int, t),
                decreases len - j,
            {
                let dr = j - i;
                let dc = if p[i] <= p[j] {
                    p[j] - p[i]
                } else {
                    p[i] - p[j]
                };
                if dr == dc {
                    assert(on_diagonal(p@, i as int, j as int));
                    found = true;
                }
                j += 1;
            }
            proof {
                lemma_attacking_rows_bound(p@, i as int);
                if !found {
                    assert(!attacks_later(p@, i as int));
                }
            }
            if found {
                count += 1;
            }
            i += 1;
        }
        count
    }

    /// The placement with the queens of rows `first` and `second` exchanged.
    pub fn swapped(&self, first: usize, second: usize) -> (r: QueenState)
        requires
            first < self.positions@.len(),
            second < self.positions@.len(),
        ensures
            r.n == self.n,
            r.positions@ == swap_rows(self.positions@, first as int, second as int),
    {
        let mut positions = self.positions.clone();
        let a = positions[first];
        let b = positions[second];
        positions.set(first, b);
        positions.set(second, a);
        QueenState { positions, n: self.n }
    }

    /// The placement with two rows, drawn at random, exchanged.
    pub fn changed_state(&self) -> (r: QueenState)
        requires
            self.positions@.len() > 0,
        ensures
            r.n == self.n,
            exists|i: int, j: int|
                0 <= i < self.positions@.len() && 0 <= j < self.positions@.len()
                    && r.positions@ == swap_rows(self.positions@, i, j),
    {
        let first = random_index(self.positions.len());
        let second = random_index(self.positions.len());
        self.swapped(first, second)
    }
}

} // verus!
