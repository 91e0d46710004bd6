//! The lattice of gradient noise: three shuffled index tables and the hash
//! that picks a gradient for each lattice point.

use crate::rtweekend::random_usize_range;
use vstd::prelude::*;

verus! {

/// The number of gradients, and the length of each index table.
pub const POINT_COUNT: usize = 256;

/// The table in which every index stands at its own place.
pub open spec fn identity_table() -> Seq<usize> {
    Seq::new(POINT_COUNT as nat, |i: int| i as usize)
}

/// `s` holds each of the indices below `POINT_COUNT` exactly once.
pub open spec fn is_shuffled_table(s: Seq<usize>) -> bool {
    s.len() == POINT_COUNT && s.to_multiset() == identity_table().to_multiset()
}

/// `s` with the entries at `j` and `target` exchanged.
pub open spec fn spec_swap(s: Seq<usize>, j: int, target: int) -> Seq<usize> {
    s.update(j, s[target]).update(target, s[j])
}

/// Exchanging two entries rearranges a table and nothing more.
pub proof fn lemma_swap_rearranges(s: Seq<usize>, j: int, target: int)
    requires
        0 <= j < s.len(),
        0 <= target < s.len(),
    ensures
        spec_swap(s, j, target).to_multiset() == s.to_multiset(),
{
    broadcast use vstd::multiset::group_multiset_axioms;

    if j != target {
        let s1 = s.update(j, s[target]);
        vstd::seq_lib::to_multiset_update(s, j, s[target]);
        vstd::seq_lib::to_multiset_update(s1, target, s[j]);
        vstd::seq_lib::to_multiset_contains(s, s[j]);
        vstd::seq_lib::to_multiset_contains(s, s[target]);
        assert(s.contains(s[j]));
        assert(s.contains(s[target]));
        assert(spec_swap(s, j, target).to_multiset() =~= s.to_multiset());
    } else {
        assert(spec_swap(s, j, target) =~= s);
    }
}

/// A shuffled table has no entry out of range and no entry twice.
pub proof fn lemma_shuffled_table(s: Seq<usize>)
    requires
        is_shuffled_table(s),
    ensures
        forall|i: int| 0 <= i < s.len() ==> (#[trigger] s[i]) < POINT_COUNT,
        s.no_duplicates(),
{
    let id = identity_table();
    assert forall|i: int| 0 <= i < s.len() implies (#[trigger] s[i]) < POINT_COUNT by {
        assert(s.contains(s[i]));
        vstd::seq_lib::to_multiset_contains(s, s[i]);
        vstd::seq_lib::to_multiset_contains(id, s[i]);
        let k = choose|k: int| 0 <= k < id.len() && id[k] == s[i];
        assert(id[k] == k as usize);
    }
    assert(id.no_duplicates());
    id.lemma_multiset_has_no_duplicates();
    s.lemma_multiset_has_no_duplicates_conv();
}

/// Exchanges the entries at `j` and `target`.
pub fn swap_entries(p: &mut Vec<usize>, j: usize, target: usize)
    requires
        j < old(p).len(),
        target < old(p).len(),
    ensures
        final(p)@ == spec_swap(old(p)@, j as int, target as int),
{
    let a = p[j];
    let b = p[target];
    p.set(j, b);
    p.set(target, a);
}

/// Shuffles the first `n` entries of `p`: going from the entry at `n - 1`
/// down to the first, the entry `i` steps from the end is exchanged with
/// one drawn among the first `i + 1`: `spec_permute`, for some draws.
pub fn permute(p: &mut Vec<usize>, n: usize)
    requires
        n <= old(p).len(),
    ensures
        exists|draws: Seq<usize>| #[trigger]
            draws_in_range(draws, n as int) && final(p)@ == spec_permute(
                old(p)@,
                n as int,
                draws,
                n as int,
            ),
        final(p)@.len() == old(p)@.len(),
        final(p)@.to_multiset() == old(p)@.to_multiset(),
        forall|k: int| n <= k < old(p)@.len() ==> final(p)@[k] == old(p)@[k],
{
    let ghost mut draws: Seq<usize> = Seq::empty();
    let mut i: usize = 0;
    while i < n
        invariant
            i <= n <= p.len(),
            p@.len() == old(p)@.len(),
            p@.to_multiset() == old(p)@.to_multiset(),
            forall|k: int| n <= k < old(p)@.len() ==> p@[k] == old(p)@[k],
            draws_in_range(draws, i as int),
            p@ == spec_permute(old(p)@, n as int, draws, i as int),
        decreases n - i,
    {
        let j = n - 1 - i;
        let target = random_usize_range(0, i);
        proof {
            lemma_swap_rearranges(p@, j as int, target as int);
            lemma_permute_reads_its_steps(
                old(p)@,
                n as int,
                draws,
                draws.push(target),
                i as int,
            );
            draws = draws.push(target);
        }
        swap_entries(p, j, target);
        i += 1;
    }
}

/// There is one draw for each of `n` steps, and the draw of step `i` is
/// at most `i`.
pub open spec fn draws_in_range(draws: Seq<usize>, n: int) -> bool {
    draws.len() == n && forall|i: int| 0 <= i < n ==> (#[trigger] draws[i]) <= i
}

/// The table after the first `steps` steps of shuffling the first `n`
/// entries of `s`: step `i` exchanges the entry at `n - 1 - i` with the one
/// at `draws[i]`.
pub open spec fn spec_permute(s: Seq<usize>, n: int, draws: Seq<usize>, steps: int) -> Seq<usize>
    decreases steps,
{
    if steps <= 0 {
        s
    } else {
        spec_swap(spec_permute(s, n, draws, steps - 1), n - steps, draws[steps - 1] as int)
    }
}

/// The first steps of a shuffle depend on the first draws only.
pub proof fn lemma_permute_reads_its_steps(
    s: Seq<usize>,
    n: int,
    a: Seq<usize>,
    b: Seq<usize>,
    steps: int,
)
    requires
        steps <= a.len(),
        steps <= b.len(),
        forall|i: int| 0 <= i < steps ==> a[i] == b[i],
    ensures
        spec_permute(s, n, a, steps) == spec_permute(s, n, b, steps),
    decreases steps,
{
    if steps > 0 {
        lemma_permute_reads_its_steps(s, n, a, b, steps - 1);
    }
}

/// A table of the indices below `POINT_COUNT` in random order.
pub fn perlin_generate_perm() -> (p: Vec<usize>)
    ensures
        is_shuffled_table(p@),
{
    let mut p: Vec<usize> = Vec::new();
    let mut i: usize = 0;
    while i < POINT_COUNT
        invariant
            i <= POINT_COUNT,
            p@.len() == i,
            forall|k: int| 0 <= k < i ==> p@[k] == k as usize,
        decreases POINT_COUNT - i,
    {
        p.push(i);
        i += 1;
    }
    assert(p@ =~= identity_table());
    permute(&mut p, POINT_COUNT);
    p
}

/// The place of a lattice coordinate in an index table: its low eight bits.
pub open spec fn spec_slot(c: i32) -> int {
    (c & 255) as int
}

/// The index tables of a noise lattice, one per axis.
pub struct Perlin {
    perm_x: Vec<usize>,
    perm_y: Vec<usize>,
    perm_z: Vec<usize>,
}

impl Perlin {
    #[verifier::type_invariant]
    spec fn tables_shuffled(self) -> bool {
        &&& is_shuffled_table(self.perm_x@)
        &&& is_shuffled_table(self.perm_y@)
        &&& is_shuffled_table(self.perm_z@)
    }

    pub closed spec fn perm_x(self) -> Seq<usize> {
        self.perm_x@
    }

    pub closed spec fn perm_y(self) -> Seq<usize> {
        self.perm_y@
    }

    pub closed spec fn perm_z(self) -> Seq<usize> {
        self.perm_z@
    }

    /// The gradient index of the lattice point `(i, j, k)`: the three table
    /// entries at the points' slots, combined bit by bit.
    pub open spec fn spec_corner(self, i: i32, j: i32, k: i32) -> usize {
        self.perm_x()[spec_slot(i)] ^ self.perm_y()[spec_slot(j)] ^ self.perm_z()[spec_slot(k)]
    }

    /// The gradient indices of the eight corners of a lattice cell. `x`, `y`
    /// and `z` give, per axis, the coordinate of the cell's lower and of its
    /// upper face. The corners come with `z` changing fastest and `x`
    /// slowest.
    pub open spec fn spec_noise(self, x: (i32, i32), y: (i32, i32), z: (i32, i32)) -> Seq<usize> {
        seq![
            self.spec_corner(x.0, y.0, z.0),
            self.spec_corner(x.0, y.0, z.1),
            self.spec_corner(x.0, y.1, z.0),
            self.spec_corner(x.0, y.1, z.1),
            self.spec_corner(x.1, y.0, z.0),
            self.spec_corner(x.1, y.0, z.1),
            self.spec_corner(x.1, y.1, z.0),
            self.spec_corner(x.1, y.1, z.1),
        ]
    }

    /// A lattice with three freshly shuffled tables.
    pub fn new() -> (r: Self)
        ensures
            is_shuffled_table(r.perm_x()),
            is_shuffled_table(r.perm_y()),
            is_shuffled_table(r.perm_z()),
    {
        Perlin {
            perm_x: perlin_generate_perm(),
            perm_y: perlin_generate_perm(),
            perm_z: perlin_generate_perm(),
        }
    }

    /// The gradient index of the lattice point `(i, j, k)`.
    pub fn corner(&self, i: i32, j: i32, k: i32) -> (r: usize)
        ensures
            r == self.spec_corner(i, j, k),
            r < POINT_COUNT,
    {
        proof {
            use_type_invariant(self);
            lemma_shuffled_table(self.perm_x@);
            lemma_shuffled_table(self.perm_y@);
            lemma_shuffled_table(self.perm_z@);
            assert(0 <= i & 255 < 256) by (bit_vector);
            assert(0 <= j & 255 < 256) by (bit_vector);
            assert(0 <= k & 255 < 256) by (bit_vector);
        }
        let a = self.perm_x[(i & 255) as usize];
        let b = self.perm_y[(j & 255) as usize];
        let c = self.perm_z[(k & 255) as usize];
        assert(a ^ b ^ c < 256) by (bit_vector)
            requires
                a < 256,
                b < 256,
                c < 256,
        ;
        a ^ b ^ c
    }

    /// The gradient indices of the eight corners of a lattice cell, `z`
    /// changing fastest and `x` slowest; each is below `POINT_COUNT`.
    pub fn noise(&self, x: (i32, i32), y: (i32, i32), z: (i32, i32)) -> (c: Vec<usize>)
        ensures
            c@ == self.spec_noise(x, y, z),
            forall|n: int| 0 <= n < 8 ==> c@[n] < POINT_COUNT,
    {
        let xs = [x.0, x.1];
        let ys = [y.0, y.1];
        let zs = [z.0, z.1];
        let mut c: Vec<usize> = Vec::new();
        let mut di: usize = 0;
        while di < 2
            invariant
                di <= 2,
                xs@ == seq![x.0, x.1],
                ys@ == seq![y.0, y.1],
                zs@ == seq![z.0, z.1],
                c@.len() == 4 * di,
                forall|n: int| 0 <= n < c@.len() ==> c@[n] == self.spec_noise(x, y, z)[n],
                forall|n: int| 0 <= n < c@.len() ==> c@[n] < POINT_COUNT,
            decreases 2 - di,
        {
            let mut dj: usize = 0;
            while dj < 2
                invariant
                    di < 2,
                    dj <= 2,
                    xs@ == seq![x.0, x.1],
                    ys@ == seq![y.0, y.1],
                    zs@ == seq![z.0, z.1],
                    c@.len() == 4 * di + 2 * dj,
                    forall|n: int| 0 <= n < c@.len() ==> c@[n] == self.spec_noise(x, y, z)[n],
                    forall|n: int| 0 <= n < c@.len() ==> c@[n] < POINT_COUNT,
                decreases 2 - dj,
            {
                let mut dk: usize = 0;
                while dk < 2
                    invariant
                        di < 2,
                        dj < 2,
                        dk <= 2,
                        xs@ == seq![x.0, x.1],
                        ys@ == seq![y.0, y.1],
                        zs@ == seq![z.0, z.1],
                        c@.len() == 4 * di + 2 * dj + dk,
                        forall|n: int| 0 <= n < c@.len() ==> c@[n] == self.spec_noise(x, y, z)[n],
                        forall|n: int| 0 <= n < c@.len() ==> c@[n] < POINT_COUNT,
                    decreases 2 - dk,
                {
                    c.push(self.corner(xs[di], ys[dj], zs[dk]));
                    dk += 1;
                }
                dj += 1;
            }
            di += 1;
        }
        assert(c@ =~= self.spec_noise(x, y, z));
        c
    }
}

} // verus!
