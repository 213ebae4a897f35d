//! The integer half of Perlin noise: three random permutations of the
//! lattice cells, hashed together to pick a gradient for a lattice corner.
use vstd::prelude::*;

verus! {

/// Number of lattice cells per axis, and of gradients.
pub const POINT_COUNT: usize = 256;

/// `s` is a permutation of `0..n`.
pub open spec fn is_permutation(s: Seq<usize>, n: nat) -> bool {
    &&& s.len() == n
    &&& forall|i: int| 0 <= i < n ==> #[trigger] s[i] < n
    &&& forall|i: int, j: int| 0 <= i < j < n ==> s[i] != s[j]
}

/// The cell of lattice coordinate `i` on its axis: `i` modulo the cell count.
pub open spec fn lattice_cell(i: i64) -> int {
    (i & 255) as int
}

/// Draws for a shuffle: one position `draws[i] <= i` for each position `i`
/// (the one at 0 is unused).
pub open spec fn valid_draws(draws: Seq<usize>) -> bool {
    draws.len() == POINT_COUNT && forall|i: int| 0 <= i < POINT_COUNT ==> #[trigger] draws[i] <= i
}

/// `s` with positions `i` and `j` exchanged.
pub open spec fn swapped(s: Seq<usize>, i: int, j: int) -> Seq<usize> {
    s.update(i, s[j]).update(j, s[i])
}

/// The identity after the first `m` swaps of a shuffle: swap `k` exchanges
/// position `POINT_COUNT - 1 - k` with the draw for that position.
pub open spec fn shuffle_steps(draws: Seq<usize>, m: nat) -> Seq<usize>
    decreases m,
{
    if m == 0 {
        Seq::new(POINT_COUNT as nat, |j: int| j as usize)
    } else {
        let i = POINT_COUNT - m;
        swapped(shuffle_steps(draws, (m - 1) as nat), i, draws[i] as int)
    }
}

/// The identity shuffled by every draw, from the last position down to 1.
pub open spec fn shuffled(draws: Seq<usize>) -> Seq<usize> {
    shuffle_steps(draws, (POINT_COUNT - 1) as nat)
}

/// Relies on rand::Rng::gen_range over rand::thread_rng: a uniform draw in
/// `0..upper`; the range must not be empty.
#[verifier::external_body]
fn rand_below(upper: usize) -> (r: usize)
    requires
        upper > 0,
    ensures
        r < upper,
{
    rand::Rng::gen_range(&mut rand::thread_rng(), 0..upper)
}

/// Lattice hash tables of one noise generator.
#[derive(Debug)]
pub struct LatticeHash {
    pub perm_x: Vec<usize>,
    pub perm_y: Vec<usize>,
    pub perm_z: Vec<usize>,
}

impl LatticeHash {
    /// Each table is a permutation of the cells.
    pub open spec fn wf(&self) -> bool {
        &&& is_permutation(self.perm_x@, POINT_COUNT as nat)
        &&& is_permutation(self.perm_y@, POINT_COUNT as nat)
        &&& is_permutation(self.perm_z@, POINT_COUNT as nat)
    }

    /// Three independent random permutations, each the shuffle of the
    /// identity by some valid draws.
    pub fn new() -> (r: LatticeHash)
        ensures
            r.wf(),
            exists|d: Seq<usize>| valid_draws(d) && r.perm_x@ == shuffled(d),
            exists|d: Seq<usize>| valid_draws(d) && r.perm_y@ == shuffled(d),
            exists|d: Seq<usize>| valid_draws(d) && r.perm_z@ == shuffled(d),
    {
        LatticeHash {
            perm_x: Self::generate_perm(),
            perm_y: Self::generate_perm(),
            perm_z: Self::generate_perm(),
        }
    }

    /// A uniformly random permutation of `0..POINT_COUNT`: draws one
    /// position `draws[i]` in `0..=i` for each `i` from the last down to 1
    /// and shuffles the identity with them.
    pub fn generate_perm() -> (r: Vec<usize>)
        ensures
            is_permutation(r@, POINT_COUNT as nat),
            exists|d: Seq<usize>| valid_draws(d) && r@ == shuffled(d),
    {
        let mut draws: Vec<usize> = Vec::new();
        draws.push(0);
        let mut i: usize = 1;
        while i < POINT_COUNT
            invariant
                1 <= i <= POINT_COUNT,
                draws@.len() == i,
                forall|j: int| 0 <= j < i ==> #[trigger] draws@[j] <= j,
            decreases POINT_COUNT - i,
        {
            draws.push(rand_below(i + 1));
            i = i + 1;
        }
        let r = Self::shuffle_with(&draws);
        assert(valid_draws(draws@));
        r
    }

    /// Shuffles the identity on `0..POINT_COUNT` by swapping position `i`
    /// with position `draws[i]`, for `i` from the last down to 1.
    pub fn shuffle_with(draws: &Vec<usize>) -> (r: Vec<usize>)
        requires
            valid_draws(draws@),
        ensures
            r@ == shuffled(draws@),
            is_permutation(r@, POINT_COUNT as nat),
    {
        let mut arr: Vec<usize> = Vec::new();
        let mut i: usize = 0;
        while i < POINT_COUNT
            invariant
                i <= POINT_COUNT,
                arr@.len() == i,
                forall|j: int| 0 <= j < i ==> arr@[j] == j,
            decreases POINT_COUNT - i,
        {
            arr.push(i);
            i = i + 1;
        }
        assert(arr@ =~= shuffle_steps(draws@, 0));
        let mut i: usize = POINT_COUNT - 1;
        while i >= 1
            invariant
                i < POINT_COUNT,
                valid_draws(draws@),
                arr@ == shuffle_steps(draws@, (POINT_COUNT - 1 - i) as nat),
                is_permutation(arr@, POINT_COUNT as nat),
            decreases i,
        {
            let j = draws[i];
            let a = arr[i];
            let b = arr[j];
            arr.set(i, b);
            arr.set(j, a);
            assert(arr@ =~= shuffle_steps(draws@, (POINT_COUNT - 1 - (i - 1)) as nat));
            i = i - 1;
        }
        arr
    }

    /// Index of the gradient at lattice corner `(i, j, k)`: the three
    /// tables' entries for the corner's cells, combined by exclusive or.
    pub fn hash(&self, i: i64, j: i64, k: i64) -> (r: usize)
        requires
            self.wf(),
        ensures
            r < POINT_COUNT,
            r == self.perm_x@[lattice_cell(i)] ^ self.perm_y@[lattice_cell(j)]
                ^ self.perm_z@[lattice_cell(k)],
    {
        let ci = (i & 255) as usize;
        let cj = (j & 255) as usize;
        let ck = (k & 255) as usize;
        assert(0 <= (i & 255) < 256) by (bit_vector);
        assert(0 <= (j & 255) < 256) by (bit_vector);
        assert(0 <= (k & 255) < 256) by (bit_vector);
        let a = self.perm_x[ci];
        let b = self.perm_y[cj];
        let c = self.perm_z[ck];
        assert(a < 256 && b < 256 && c < 256 ==> a ^ b ^ c < 256) by (bit_vector);
        a ^ b ^ c
    }
}

} // verus!
