//! The lattice of gradient noise: a shuffled table of the 256 byte values
//! that hashes every lattice corner to one of four diagonal gradients.
//!
//! The table is drawn once and then serves every sample, so that the field
//! it defines is the same from one sample to the next.

use vstd::prelude::*;
use vstd::seq_lib::to_multiset_contains;
use crate::vec::Vec2;

verus! {

/// Whether `s` holds the 256 byte values in some order: it has 256 entries
/// and every value occurs among them, each therefore once.
pub open spec fn is_permutation(s: Seq<u8>) -> bool {
    &&& s.len() == 256
    &&& forall|v: u8| #[trigger] s.contains(v)
}

/// The table that holds every byte value at its own place.
pub open spec fn identity_table() -> Seq<u8> {
    Seq::new(256, |i: int| i as u8)
}

/// The hash of the lattice corner `(x, y)`: the table looked up at `x`, then
/// again at that entry plus `y`, both places taken modulo 256.
pub open spec fn lattice_hash(table: Seq<u8>, x: int, y: int) -> u8 {
    table[(table[x % 256] + y) % 256]
}

/// The gradient that a hash selects by its two lowest bits.
pub open spec fn gradient_spec(hash: u8) -> Vec2 {
    if hash % 4 == 0 {
        Vec2 { x: 1i16, y: 1i16 }
    } else if hash % 4 == 1 {
        Vec2 { x: 1i16, y: (-1i16) as i16 }
    } else if hash % 4 == 2 {
        Vec2 { x: (-1i16) as i16, y: (-1i16) as i16 }
    } else {
        Vec2 { x: (-1i16) as i16, y: 1i16 }
    }
}

/// The gradient that a hash selects by its two lowest bits: one of the four
/// diagonal directions.
#[verifier::when_used_as_spec(gradient_spec)]
pub fn gradient(hash: u8) -> (g: Vec2)
    ensures
        g == gradient_spec(hash),
{
    let h = hash & 3;
    assert(h == hash % 4) by (bit_vector)
        requires
            h == hash & 3,
    ;
    if h == 0 {
        Vec2 { x: 1, y: 1 }
    } else if h == 1 {
        Vec2 { x: 1, y: -1 }
    } else if h == 2 {
        Vec2 { x: -1, y: -1 }
    } else {
        Vec2 { x: -1, y: 1 }
    }
}

/// The gradients at the four corners of one lattice cell.
#[derive(Debug, Clone, Copy, PartialEq, Eq, Structural)]
pub struct CornerGradients {
    pub bottom_left: Vec2,
    pub bottom_right: Vec2,
    pub top_left: Vec2,
    pub top_right: Vec2,
}

/// The gradients at the corners of the lattice cell whose bottom left corner
/// is `(x, y)`.
pub open spec fn corner_gradients_spec(table: Seq<u8>, x: int, y: int) -> CornerGradients {
    CornerGradients {
        bottom_left: gradient_spec(lattice_hash(table, x, y)),
        bottom_right: gradient_spec(lattice_hash(table, x + 1, y)),
        top_left: gradient_spec(lattice_hash(table, x, y + 1)),
        top_right: gradient_spec(lattice_hash(table, x + 1, y + 1)),
    }
}

/// `rand::seq::SliceRandom::shuffle` with the generator of the calling
/// thread. It rearranges the entries in place by swapping pairs of them: the
/// same values are there afterwards, each as often as before. Which order
/// comes out is left open.
#[verifier::external_body]
fn shuffle(v: &mut Vec<u8>)
    ensures
        final(v)@.to_multiset() == old(v)@.to_multiset(),
{
    rand::seq::SliceRandom::shuffle(v.as_mut_slice(), &mut rand::thread_rng());
}

/// A table of the 256 byte values in some order, written out twice in a row
/// so that a lookup one table further needs no wrap-around.
pub struct Permutation {
    table: Vec<u8>,
}

impl View for Permutation {
    type V = Seq<u8>;

    /// The 256 entries, once.
    closed spec fn view(&self) -> Seq<u8> {
        self.table@.take(256)
    }
}

impl Permutation {
    #[verifier::type_invariant]
    spec fn doubled(self) -> bool {
        &&& self.table@.len() == 512
        &&& forall|i: int| 0 <= i < 512 ==> #[trigger] self.table@[i] == self.table@[i % 256]
        &&& is_permutation(self.table@.take(256))
    }

    fn twice(first: &Vec<u8>) -> (p: Permutation)
        requires
            is_permutation(first@),
        ensures
            p@ == first@,
    {
        let mut table: Vec<u8> = Vec::new();
        let mut i: usize = 0;
        while i < 512
            invariant
                i <= 512,
                first@.len() == 256,
                table@.len() == i,
                forall|j: int| 0 <= j < i ==> table@[j] == first@[j % 256],
            decreases 512 - i,
        {
            table.push(first[i % 256]);
            i += 1;
        }
        assert(table@.take(256) =~= first@);
        Permutation { table }
    }

    /// The table that holds every byte value at its own place.
    pub fn identity() -> (p: Permutation)
        ensures
            p@ == identity_table(),
    {
        let first = Permutation::counting();
        Permutation::twice(&first)
    }

    fn counting() -> (first: Vec<u8>)
        ensures
            first@ == identity_table(),
            is_permutation(first@),
    {
        let mut first: Vec<u8> = Vec::new();
        let mut i: usize = 0;
        while i < 256
            invariant
                i <= 256,
                first@.len() == i,
                forall|j: int| 0 <= j < i ==> first@[j] == j as u8,
            decreases 256 - i,
        {
            first.push(i as u8);
            i += 1;
        }
        assert forall|v: u8| #[trigger] first@.contains(v) by {
            assert(first@[v as int] == v);
        }
        first
    }

    /// A table in an order drawn at random. Nothing is promised about the
    /// order, only that the table holds every byte value.
    pub fn random() -> (p: Permutation)
        ensures
            is_permutation(p@),
    {
        let mut first = Permutation::counting();
        let ghost before = first@;
        shuffle(&mut first);
        proof {
            lemma_rearranged(before, first@);
        }
        Permutation::twice(&first)
    }

    /// The table with the given 256 entries, where they are the 256 byte
    /// values in some order; nothing for any other argument.
    pub fn from_table(first: &Vec<u8>) -> (r: Option<Permutation>)
        ensures
            match r {
                Some(p) => p@ == first@ && is_permutation(first@),
                None => !is_permutation(first@),
            },
    {
        if first.len() != 256 {
            return None;
        }
        let mut seen: Vec<bool> = Vec::new();
        while seen.len() < 256
            invariant
                seen@.len() <= 256,
                forall|v: int| 0 <= v < seen@.len() ==> !seen@[v],
            decreases 256 - seen@.len(),
        {
            seen.push(false);
        }
        let mut i: usize = 0;
        while i < 256
            invariant
                i <= 256,
                first@.len() == 256,
                seen@.len() == 256,
                forall|v: int|
                    0 <= v < 256 ==> (#[trigger] seen@[v] <==> exists|j: int|
                        0 <= j < i && #[trigger] first@[j] == v),
            decreases 256 - i,
        {
            let v = first[i] as usize;
            seen[v] = true;
            i += 1;
        }
        let mut v: usize = 0;
        while v < 256
            invariant
                v <= 256,
                first@.len() == 256,
                seen@.len() == 256,
                forall|w: int|
                    0 <= w < 256 ==> (#[trigger] seen@[w] <==> exists|j: int|
                        0 <= j < 256 && #[trigger] first@[j] == w),
                forall|w: int| 0 <= w < v ==> seen@[w],
            decreases 256 - v,
        {
            if !seen[v] {
                assert(!first@.contains(v as u8));
                return None;
            }
            v += 1;
        }
        assert forall|w: u8| #[trigger] first@.contains(w) by {
            assert(seen@[w as int]);
        }
        Some(Permutation::twice(first))
    }

    /// The entry at place `i`.
    pub fn at(&self, i: u8) -> (e: u8)
        ensures
            e == self@[i as int],
            is_permutation(self@),
    {
        proof {
            use_type_invariant(self);
        }
        self.table[i as usize]
    }

    /// The entry at place `i` of the table written out twice.
    fn entry(&self, i: usize) -> (e: u8)
        requires
            i < 512,
        ensures
            e == self@[i as int % 256],
    {
        proof {
            use_type_invariant(self);
        }
        self.table[i]
    }

    /// The hash of the lattice corner `(x, y)`.
    fn hash(&self, x: usize, y: usize) -> (h: u8)
        requires
            x <= 256,
            y <= 256,
        ensures
            h == lattice_hash(self@, x as int, y as int),
    {
        let at_x = self.entry(x) as usize;
        self.entry(at_x + y)
    }

    /// The gradients at the four corners of the lattice cell whose bottom
    /// left corner is `(cell_x, cell_y)`. The lattice repeats every 256
    /// cells in both directions.
    pub fn corner_gradients(&self, cell_x: u32, cell_y: u32) -> (g: CornerGradients)
        ensures
            g == corner_gradients_spec(self@, cell_x as int % 256, cell_y as int % 256),
    {
        let xi = (cell_x & 255) as usize;
        let yi = (cell_y & 255) as usize;
        assert(cell_x & 255 == cell_x % 256) by (bit_vector);
        assert(cell_y & 255 == cell_y % 256) by (bit_vector);
        CornerGradients {
            bottom_left: gradient(self.hash(xi, yi)),
            bottom_right: gradient(self.hash(xi + 1, yi)),
            top_left: gradient(self.hash(xi, yi + 1)),
            top_right: gradient(self.hash(xi + 1, yi + 1)),
        }
    }
}

/// A rearrangement of the 256 byte values in some order is again the 256
/// byte values in some order.
pub proof fn lemma_rearranged(before: Seq<u8>, after: Seq<u8>)
    requires
        is_permutation(before),
        after.to_multiset() == before.to_multiset(),
    ensures
        is_permutation(after),
{
    before.to_multiset_ensures();
    after.to_multiset_ensures();
    assert forall|v: u8| #[trigger] after.contains(v) by {
        assert(before.contains(v));
        to_multiset_contains(after, v);
    }
}

} // verus!
