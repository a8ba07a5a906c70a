//! Chunks of the world: their positions, their blocks, and the set of chunks
//! that the server holds in memory.

use std::collections::HashMap;

use vstd::prelude::*;
use vstd::std_specs::iter::IteratorSpec;

use crate::text::{int_decimal, push_decimal};
use crate::world::{compress_chunk_data, zlib_compress_slice, BUF_ERROR};

verus! {

pub const CHUNK_SIZE_X: usize = 16;
pub const CHUNK_SIZE_Y: usize = 128;
pub const CHUNK_SIZE_Z: usize = 16;
pub const CHUNK_SIZE_X_U8: u8 = 16;
pub const CHUNK_SIZE_Y_U8: u8 = 128;
pub const CHUNK_SIZE_Z_U8: u8 = 16;

/// The number of blocks in a chunk.
pub const BLOCK_COUNT: usize = 32768;

/// How many chunks around the player's chunk, in each direction, the client is sent.
pub const VIEW_DISTANCE: i32 = 4;

/// How many missing chunks one prefetch round loads.
pub const CHUNKS_PER_BATCH: usize = 4;

/// The position of a chunk, in chunks (a chunk is 16 blocks wide in x and z).
#[derive(Clone, Copy, Debug, PartialEq, Eq, Hash, Structural)]
pub struct ChunkPos {
    pub x: i32,
    pub z: i32,
}

/// The number of chunks along one side of the square of a radius.
pub open spec fn square_side(radius: i32) -> int {
    if radius < 0 {
        0
    } else {
        2 * radius + 1
    }
}

/// The chunks whose x and z are each within `radius` of the center's, x-major:
/// the k-th has x offset `k / side` and z offset `k % side` from the square's
/// lowest corner.
pub open spec fn square_around(center: ChunkPos, radius: i32) -> Seq<ChunkPos> {
    let n = square_side(radius);
    Seq::new(
        (n * n) as nat,
        |k: int| ChunkPos { x: (center.x - radius + k / n) as i32, z: (center.z - radius + k % n) as i32 },
    )
}

/// The chunks within `radius` of `center` can be listed without overflow.
pub open spec fn radius_fits(center: ChunkPos, radius: i32) -> bool {
    &&& (2 * radius + 1) * (2 * radius + 1) <= i32::MAX
    &&& radius >= 0 ==> {
        &&& i32::MIN <= center.x - radius
        &&& center.x + radius <= i32::MAX
        &&& i32::MIN <= center.z - radius
        &&& center.z + radius <= i32::MAX
    }
}

/// Every chunk whose coordinates stay 4 away from the ends of `i32` has room
/// for the view distance around it.
pub proof fn lemma_view_distance_fits(center: ChunkPos)
    requires
        i32::MIN + VIEW_DISTANCE <= center.x <= i32::MAX - VIEW_DISTANCE,
        i32::MIN + VIEW_DISTANCE <= center.z <= i32::MAX - VIEW_DISTANCE,
    ensures
        radius_fits(center, VIEW_DISTANCE),
{
    assert((2 * VIEW_DISTANCE + 1) * (2 * VIEW_DISTANCE + 1) == 81) by (nonlinear_arith);
}

/// A chunk lies within `radius` of `center` in both x and z.
pub open spec fn within_radius(center: ChunkPos, radius: i32, p: ChunkPos) -> bool {
    &&& center.x - radius <= p.x <= center.x + radius
    &&& center.z - radius <= p.z <= center.z + radius
}

/// Whether `p` occurs in `list`.
fn contains_pos(list: &Vec<ChunkPos>, p: ChunkPos) -> (r: bool)
    ensures
        r == list@.contains(p),
{
    let mut i: usize = 0;
    while i < list.len()
        invariant
            i <= list@.len(),
            forall|k: int| 0 <= k < i ==> list@[k] != p,
        decreases list@.len() - i,
    {
        if list[i] == p {
            assert(list@[i as int] == p);
            return true;
        }
        i = i + 1;
    }
    false
}

/// The elements of `list` that do not occur in `other`, in their order.
fn retain_absent(list: Vec<ChunkPos>, other: &Vec<ChunkPos>) -> (r: Vec<ChunkPos>)
    ensures
        r@ == list@.filter(|p: ChunkPos| !other@.contains(p)),
{
    let ghost pred = |p: ChunkPos| !other@.contains(p);
    let mut r: Vec<ChunkPos> = Vec::new();
    let mut i: usize = 0;
    while i < list.len()
        invariant
            i <= list@.len(),
            r@ == list@.take(i as int).filter(pred),
            pred == (|p: ChunkPos| !other@.contains(p)),
        decreases list@.len() - i,
    {
        let p = list[i];
        assert(list@.take(i + 1).drop_last() =~= list@.take(i as int));
        assert(list@.take(i + 1).last() == p);
        proof {
            reveal_with_fuel(Seq::<ChunkPos>::filter, 1);
        }
        let absent = !contains_pos(other, p);
        assert(pred(p) == absent);
        if absent {
            r.push(p);
        }
        assert(r@ == list@.take(i + 1).filter(pred));
        i = i + 1;
    }
    assert(list@.take(list@.len() as int) =~= list@);
    r
}

/// Lists the chunks to load when the center moves from `old_center` to `new_center`.
pub open spec fn spec_chunks_to_load(old_center: ChunkPos, new_center: ChunkPos, radius: i32) -> Seq<ChunkPos> {
    square_around(new_center, radius).filter(|p: ChunkPos| !square_around(old_center, radius).contains(p))
}

/// Lists the chunks to unload when the center moves from `old_center` to `new_center`.
pub open spec fn spec_chunks_to_unload(old_center: ChunkPos, new_center: ChunkPos, radius: i32) -> Seq<ChunkPos> {
    square_around(old_center, radius).filter(|p: ChunkPos| !square_around(new_center, radius).contains(p))
}

/// The order in which the chunks around a center are listed: the square's
/// lowest corner first, then along z, and at the end of each row on to the
/// next x, back at the lowest z; `(2 * radius + 1)^2` chunks in all.
pub proof fn lemma_square_order(center: ChunkPos, radius: i32, k: int)
    requires
        radius_fits(center, radius),
        radius >= 0,
    ensures
        square_around(center, radius).len() == (2 * radius + 1) * (2 * radius + 1),
        square_around(center, radius)[0] == (ChunkPos { x: (center.x - radius) as i32, z: (center.z - radius) as i32 }),
        0 <= k && k + 1 < square_around(center, radius).len() ==> {
            let sq = square_around(center, radius);
            if sq[k].z < center.z + radius {
                sq[k + 1] == ChunkPos { x: sq[k].x, z: (sq[k].z + 1) as i32 }
            } else {
                sq[k + 1] == ChunkPos { x: (sq[k].x + 1) as i32, z: (center.z - radius) as i32 }
            }
        },
{
    let n = square_side(radius);
    let sq = square_around(center, radius);
    assert(0int / n == 0 && 0int % n == 0 && n * n >= 1) by (nonlinear_arith)
        requires
            n > 0,
    ;
    assert(sq[0] == ChunkPos { x: (center.x - radius + 0int / n) as i32, z: (center.z - radius + 0int % n) as i32 });
    if 0 <= k && k + 1 < sq.len() {
        vstd::arithmetic::div_mod::lemma_fundamental_div_mod(k, n);
        vstd::arithmetic::div_mod::lemma_mod_bound(k, n);
        let q = k / n;
        let r = k % n;
        assert(0 <= q < n) by (nonlinear_arith)
            requires
                k == n * q + r,
                0 <= r < n,
                0 <= k,
                k + 1 < n * n,
        ;
        if r + 1 < n {
            vstd::arithmetic::div_mod::lemma_fundamental_div_mod_converse(k + 1, n, q, r + 1);
        } else {
            assert(k + 1 == n * (q + 1)) by (nonlinear_arith)
                requires
                    k == n * q + r,
                    r + 1 >= n,
                    r < n,
            ;
            vstd::arithmetic::div_mod::lemma_fundamental_div_mod_converse(k + 1, n, q + 1, 0);
            assert(q + 1 < n) by (nonlinear_arith)
                requires
                    k + 1 == n * (q + 1),
                    k + 1 < n * n,
                    n > 0,
            ;
        }
    }
}

/// The square of a radius holds exactly the chunks within that radius of its center.
pub proof fn lemma_square_contains(center: ChunkPos, radius: i32, p: ChunkPos)
    requires
        radius_fits(center, radius),
    ensures
        square_around(center, radius).contains(p) <==> within_radius(center, radius, p),
{
    let n = square_side(radius);
    let sq = square_around(center, radius);
    if sq.contains(p) {
        let k = choose|k: int| 0 <= k < sq.len() && sq[k] == p;
        assert(radius >= 0);
        vstd::arithmetic::div_mod::lemma_fundamental_div_mod(k, n);
        vstd::arithmetic::div_mod::lemma_mod_bound(k, n);
        let q = k / n;
        let r = k % n;
        assert(0 <= q < n) by (nonlinear_arith)
            requires
                k == n * q + r,
                0 <= r < n,
                0 <= k < n * n,
        ;
        assert(sq[k] == p);
    }
    if within_radius(center, radius, p) {
        assert(radius >= 0);
        let q = p.x - center.x + radius;
        let r = p.z - center.z + radius;
        let k = q * n + r;
        vstd::arithmetic::div_mod::lemma_fundamental_div_mod_converse(k, n, q, r);
        assert(0 <= k < n * n) by (nonlinear_arith)
            requires
                k == q * n + r,
                0 <= q < n,
                0 <= r < n,
        ;
        assert(sq[k] == p);
    }
}

proof fn lemma_filter_contains_iff(s: Seq<ChunkPos>, pred: spec_fn(ChunkPos) -> bool, p: ChunkPos)
    ensures
        s.filter(pred).contains(p) <==> (s.contains(p) && pred(p)),
{
    if s.filter(pred).contains(p) {
        s.lemma_filter_contains_rev(pred, p);
        let i = choose|i: int| 0 <= i < s.filter(pred).len() && s.filter(pred)[i] == p;
        s.lemma_filter_pred(pred, i);
    }
    if s.contains(p) && pred(p) {
        let i = choose|i: int| 0 <= i < s.len() && s[i] == p;
        s.lemma_filter_contains(pred, i);
    }
}

/// The square of a radius lists no chunk twice.
pub proof fn lemma_square_distinct(center: ChunkPos, radius: i32, i: int, j: int)
    requires
        radius_fits(center, radius),
        0 <= i < square_around(center, radius).len(),
        0 <= j < square_around(center, radius).len(),
        i != j,
    ensures
        square_around(center, radius)[i] != square_around(center, radius)[j],
{
    let n = square_side(radius);
    let sq = square_around(center, radius);
    assert(radius >= 0);
    vstd::arithmetic::div_mod::lemma_fundamental_div_mod(i, n);
    vstd::arithmetic::div_mod::lemma_fundamental_div_mod(j, n);
    vstd::arithmetic::div_mod::lemma_mod_bound(i, n);
    vstd::arithmetic::div_mod::lemma_mod_bound(j, n);
    assert(0 <= i / n < n) by (nonlinear_arith)
        requires
            i == n * (i / n) + i % n,
            0 <= i % n < n,
            0 <= i < n * n,
    ;
    assert(0 <= j / n < n) by (nonlinear_arith)
        requires
            j == n * (j / n) + j % n,
            0 <= j % n < n,
            0 <= j < n * n,
    ;
    if sq[i] == sq[j] {
        assert(i / n == j / n);
        assert(i % n == j % n);
    }
}

/// When the view moves from `old_center` to `new_center`, a chunk is to be
/// loaded exactly when it lies within the radius of the new center and not of
/// the old one, and to be unloaded exactly when it lies within the radius of
/// the old center and not of the new one; so no chunk is both.
pub proof fn lemma_chunk_transition_membership(
    old_center: ChunkPos,
    new_center: ChunkPos,
    radius: i32,
    p: ChunkPos,
)
    requires
        radius_fits(old_center, radius),
        radius_fits(new_center, radius),
    ensures
        spec_chunks_to_load(old_center, new_center, radius).contains(p) <==> (within_radius(
            new_center,
            radius,
            p,
        ) && !within_radius(old_center, radius, p)),
        spec_chunks_to_unload(old_center, new_center, radius).contains(p) <==> (within_radius(
            old_center,
            radius,
            p,
        ) && !within_radius(new_center, radius, p)),
        !(spec_chunks_to_load(old_center, new_center, radius).contains(p)
            && spec_chunks_to_unload(old_center, new_center, radius).contains(p)),
{
    lemma_square_contains(old_center, radius, p);
    lemma_square_contains(new_center, radius, p);
    lemma_filter_contains_iff(
        square_around(new_center, radius),
        |q: ChunkPos| !square_around(old_center, radius).contains(q),
        p,
    );
    lemma_filter_contains_iff(
        square_around(old_center, radius),
        |q: ChunkPos| !square_around(new_center, radius).contains(q),
        p,
    );
}

/// Moving the view back undoes a move: the chunks that a move loads are those
/// that the reverse move unloads, in the same order.
pub proof fn lemma_load_is_reverse_unload(a: ChunkPos, b: ChunkPos, radius: i32)
    ensures
        spec_chunks_to_load(a, b, radius) == spec_chunks_to_unload(b, a, radius),
{
}

proof fn lemma_filter_split_len(
    s: Seq<ChunkPos>,
    pred: spec_fn(ChunkPos) -> bool,
    npred: spec_fn(ChunkPos) -> bool,
)
    requires
        forall|q: ChunkPos| #[trigger] npred(q) == !pred(q),
    ensures
        s.filter(pred).len() + s.filter(npred).len() == s.len(),
    decreases s.len(),
{
    reveal_with_fuel(Seq::<ChunkPos>::filter, 1);
    if s.len() > 0 {
        lemma_filter_split_len(s.drop_last(), pred, npred);
        assert(npred(s.last()) == !pred(s.last()));
    }
}

proof fn lemma_filter_no_duplicates(s: Seq<ChunkPos>, pred: spec_fn(ChunkPos) -> bool)
    requires
        s.no_duplicates(),
    ensures
        s.filter(pred).no_duplicates(),
    decreases s.len(),
{
    reveal_with_fuel(Seq::<ChunkPos>::filter, 1);
    if s.len() > 0 {
        let rest = s.drop_last();
        let x = s.last();
        assert forall|i: int, j: int| 0 <= i < rest.len() && 0 <= j < rest.len() && i != j implies rest[i]
            != rest[j] by {
            assert(rest[i] == s[i] && rest[j] == s[j]);
        }
        lemma_filter_no_duplicates(rest, pred);
        if pred(x) {
            let sub = rest.filter(pred);
            lemma_filter_contains_iff(rest, pred, x);
            if rest.contains(x) {
                let k = choose|k: int| 0 <= k < rest.len() && rest[k] == x;
                assert(s[k] == s[s.len() - 1]);
            }
            let t = sub.push(x);
            assert forall|i: int, j: int| 0 <= i < t.len() && 0 <= j < t.len() && i != j implies t[i]
                != t[j] by {
                if i < sub.len() && j < sub.len() {
                    assert(t[i] == sub[i] && t[j] == sub[j]);
                } else if i < sub.len() {
                    assert(t[i] == sub[i] && sub.contains(sub[i]));
                } else {
                    assert(t[j] == sub[j] && sub.contains(sub[j]));
                }
            }
        }
    }
}

/// The square of a radius, when the chunks within that radius can be
/// listed, lists each of them once.
pub proof fn lemma_square_no_duplicates(center: ChunkPos, radius: i32)
    requires
        radius_fits(center, radius),
    ensures
        square_around(center, radius).no_duplicates(),
{
    let sq = square_around(center, radius);
    assert forall|i: int, j: int| 0 <= i < sq.len() && 0 <= j < sq.len() && i != j implies sq[i]
        != sq[j] by {
        lemma_square_distinct(center, radius, i, j);
    }
}

/// A move of the view loads as many chunks as it unloads.
pub proof fn lemma_transition_counts_equal(old_center: ChunkPos, new_center: ChunkPos, radius: i32)
    requires
        radius_fits(old_center, radius),
        radius_fits(new_center, radius),
    ensures
        spec_chunks_to_load(old_center, new_center, radius).len() == spec_chunks_to_unload(
            old_center,
            new_center,
            radius,
        ).len(),
{
    let a = square_around(old_center, radius);
    let b = square_around(new_center, radius);
    let in_a = |q: ChunkPos| a.contains(q);
    let in_b = |q: ChunkPos| b.contains(q);
    lemma_filter_split_len(b, in_a, |p: ChunkPos| !square_around(old_center, radius).contains(p));
    lemma_filter_split_len(a, in_b, |p: ChunkPos| !square_around(new_center, radius).contains(p));
    lemma_square_no_duplicates(old_center, radius);
    lemma_square_no_duplicates(new_center, radius);
    let ba = b.filter(in_a);
    let ab = a.filter(in_b);
    lemma_filter_no_duplicates(b, in_a);
    lemma_filter_no_duplicates(a, in_b);
    assert forall|x: ChunkPos| #[trigger] ba.to_set().contains(x) == ab.to_set().contains(x) by {
        lemma_filter_contains_iff(b, in_a, x);
        lemma_filter_contains_iff(a, in_b, x);
    }
    assert(ba.to_set() =~= ab.to_set());
    ba.unique_seq_to_set();
    ab.unique_seq_to_set();
}

/// A view that stays where it is loads and unloads nothing.
pub proof fn lemma_no_move_no_transition(center: ChunkPos, radius: i32)
    requires
        radius_fits(center, radius),
    ensures
        spec_chunks_to_load(center, center, radius).len() == 0,
        spec_chunks_to_unload(center, center, radius).len() == 0,
{
    let sq = square_around(center, radius);
    let pred = |q: ChunkPos| !sq.contains(q);
    if sq.filter(pred).len() > 0 {
        let p = sq.filter(pred)[0];
        assert(sq.filter(pred).contains(p));
        lemma_filter_contains_iff(sq, pred, p);
    }
}

impl ChunkPos {
    pub fn new(x: i32, z: i32) -> (r: Self)
        ensures
            r == (ChunkPos { x, z }),
    {
        Self { x, z }
    }

    /// The chunk that holds the block at world coordinates `world_x`, `world_z`
    /// (division rounding towards negative infinity).
    pub fn from_world_pos(world_x: i32, world_z: i32) -> (r: Self)
        ensures
            r.x == world_x as int / 16,
            r.z == world_z as int / 16,
    {
        let x = match world_x.checked_div_euclid(16) {
            Some(q) => q,
            None => 0,
        };
        let z = match world_z.checked_div_euclid(16) {
            Some(q) => q,
            None => 0,
        };
        Self { x, z }
    }

    /// The name of the file that holds the chunk on disk: `chunk_{x}_{z}.bin`.
    pub fn filename(&self) -> (name: String)
        ensures
            name@ == seq!['c', 'h', 'u', 'n', 'k', '_'] + int_decimal(self.x as int) + seq!['_']
                + int_decimal(self.z as int) + seq!['.', 'b', 'i', 'n'],
    {
        let mut name = String::new();
        name.push('c');
        name.push('h');
        name.push('u');
        name.push('n');
        name.push('k');
        name.push('_');
        push_decimal(&mut name, self.x);
        name.push('_');
        push_decimal(&mut name, self.z);
        name.push('.');
        name.push('b');
        name.push('i');
        name.push('n');
        name
    }

    /// The world coordinates of the chunk's block with the lowest x and z.
    pub fn get_block_pos(&self) -> (r: (i32, i32))
        requires
            i32::MIN <= self.x * 16 <= i32::MAX,
            i32::MIN <= self.z * 16 <= i32::MAX,
        ensures
            r.0 == self.x * 16,
            r.1 == self.z * 16,
    {
        (self.x * 16, self.z * 16)
    }

    /// The chunks whose x and z are within `radius` of the center's, x-major.
    pub fn chunks_in_radius(center: ChunkPos, radius: i32) -> (positions: Vec<ChunkPos>)
        requires
            radius_fits(center, radius),
        ensures
            positions@ == square_around(center, radius),
    {
        proof {
            let side = 2 * radius + 1;
            assert(-46341 < side < 46341 && side * side >= 0) by (nonlinear_arith)
                requires
                    side * side <= i32::MAX,
            ;
        }
        let capacity = ((2 * radius + 1) * (2 * radius + 1)) as usize;
        let mut positions: Vec<ChunkPos> = Vec::with_capacity(capacity);
        if radius < 0 {
            assert(positions@ =~= square_around(center, radius));
            return positions;
        }
        let ghost n = 2 * radius + 1;
        let mut dx: i32 = -radius;
        assert(positions@.len() == (dx + radius) * n) by (nonlinear_arith)
            requires
                positions@.len() == 0,
                dx + radius == 0,
        ;
        while dx <= radius
            invariant
                radius_fits(center, radius),
                radius >= 0,
                n == 2 * radius + 1,
                -radius <= dx <= radius + 1,
                positions@.len() == (dx + radius) * n,
                forall|k: int|
                    0 <= k < positions@.len() ==> #[trigger] positions@[k] == square_around(
                        center,
                        radius,
                    )[k],
            decreases radius + 1 - dx,
        {
            let mut dz: i32 = -radius;
            while dz <= radius
                invariant
                    radius_fits(center, radius),
                    radius >= 0,
                    n == 2 * radius + 1,
                    -radius <= dx <= radius,
                    -radius <= dz <= radius + 1,
                    positions@.len() == (dx + radius) * n + (dz + radius),
                    forall|k: int|
                        0 <= k < positions@.len() ==> #[trigger] positions@[k] == square_around(
                            center,
                            radius,
                        )[k],
                decreases radius + 1 - dz,
            {
                let ghost k = (dx + radius) * n + (dz + radius);
                proof {
                    vstd::arithmetic::div_mod::lemma_fundamental_div_mod_converse(
                        k,
                        n,
                        dx + radius,
                        dz + radius,
                    );
                    assert(0 <= k) by (nonlinear_arith)
                        requires
                            k == (dx + radius) * n + (dz + radius),
                            dx + radius >= 0,
                            dz + radius >= 0,
                            n > 0,
                    ;
                    assert(k < n * n) by (nonlinear_arith)
                        requires
                            k == (dx + radius) * n + (dz + radius),
                            0 <= dx + radius < n,
                            0 <= dz + radius < n,
                    ;
                }
                positions.push(ChunkPos::new(center.x + dx, center.z + dz));
                dz = dz + 1;
            }
            proof {
                assert((dx + radius) * n + n == (dx + 1 + radius) * n) by (nonlinear_arith);
            }
            dx = dx + 1;
        }
        proof {
            assert(positions@.len() == n * n) by (nonlinear_arith)
                requires
                    positions@.len() == (dx + radius) * n,
                    dx == radius + 1,
                    n == 2 * radius + 1,
            ;
        }
        assert(positions@ =~= square_around(center, radius));
        positions
    }

    /// The chunks within `radius` of the new center that were not within it of the old one.
    pub fn chunks_to_load(old_center: ChunkPos, new_center: ChunkPos, radius: i32) -> (r: Vec<ChunkPos>)
        requires
            radius_fits(old_center, radius),
            radius_fits(new_center, radius),
        ensures
            r@ == spec_chunks_to_load(old_center, new_center, radius),
    {
        let old_set = Self::chunks_in_radius(old_center, radius);
        retain_absent(Self::chunks_in_radius(new_center, radius), &old_set)
    }

    /// The chunks within `radius` of the old center that are not within it of the new one.
    pub fn chunks_to_unload(old_center: ChunkPos, new_center: ChunkPos, radius: i32) -> (r: Vec<ChunkPos>)
        requires
            radius_fits(old_center, radius),
            radius_fits(new_center, radius),
        ensures
            r@ == spec_chunks_to_unload(old_center, new_center, radius),
    {
        let new_set = Self::chunks_in_radius(new_center, radius);
        retain_absent(Self::chunks_in_radius(old_center, radius), &new_set)
    }
}


/// A column-major block of 16 x 128 x 16 block ids, and whether it changed
/// since it was last saved.
#[derive(Clone, Debug)]
pub struct Chunk {
    pub pos: ChunkPos,
    pub blocks: Vec<u8>,
    pub modified: bool,
}

/// A chunk with its blocks as a sequence.
pub struct ChunkView {
    pub pos: ChunkPos,
    pub blocks: Seq<u8>,
    pub modified: bool,
}

impl View for Chunk {
    type V = ChunkView;

    open spec fn view(&self) -> ChunkView {
        ChunkView { pos: self.pos, blocks: self.blocks@, modified: self.modified }
    }
}

/// The position of block (x, y, z) of a chunk in its block array: y runs
/// fastest, then z, then x.
pub open spec fn block_index(x: int, y: int, z: int) -> int {
    y + z * 128 + x * 2048
}

/// Coordinates of a block inside a chunk.
pub open spec fn in_chunk(x: int, y: int, z: int) -> bool {
    0 <= x < 16 && 0 <= y < 128 && 0 <= z < 16
}

/// The size of each of the three metadata arrays that follow the blocks on the wire.
pub open spec fn network_meta_size() -> int {
    (BLOCK_COUNT + 2) / 2
}

/// The chunk data as the client and the save file take it: the blocks, two
/// arrays of zeros (metadata and block light) and one of 0xFF (sky light).
pub open spec fn network_data(blocks: Seq<u8>) -> Seq<u8> {
    let m = network_meta_size() as nat;
    blocks + Seq::new(m, |i: int| 0u8) + Seq::new(m, |i: int| 0u8) + Seq::new(m, |i: int| 0xFFu8)
}

/// The blocks of a chunk are laid out with y running fastest, then z, then
/// x: block (0, 0, 0) comes first, one step up is the next entry, one step
/// in z is 128 entries on, one step in x is 2048 entries on; every block has
/// an entry of its own within the 32768.
pub proof fn lemma_block_index_layout(x: int, y: int, z: int, ox: int, oy: int, oz: int)
    requires
        in_chunk(x, y, z),
        in_chunk(ox, oy, oz),
    ensures
        block_index(0, 0, 0) == 0,
        0 <= block_index(x, y, z) < BLOCK_COUNT,
        y + 1 < 128 ==> block_index(x, y + 1, z) == block_index(x, y, z) + 1,
        z + 1 < 16 ==> block_index(x, y, z + 1) == block_index(x, y, z) + 128,
        x + 1 < 16 ==> block_index(x + 1, y, z) == block_index(x, y, z) + 2048,
        block_index(x, y, z) == block_index(ox, oy, oz) ==> x == ox && y == oy && z == oz,
{
}

/// The network data of a chunk's blocks is 81923 bytes: first the block
/// array exactly as the chunk holds it (block (x, y, z) at
/// `block_index(x, y, z)`), then 2 * 16385 zero bytes of metadata and block
/// light, then 16385 bytes of 0xFF sky light.
pub proof fn lemma_network_data_layout(blocks: Seq<u8>)
    requires
        blocks.len() == BLOCK_COUNT,
    ensures
        network_data(blocks).len() == 81923,
        network_data(blocks).take(BLOCK_COUNT as int) == blocks,
        forall|x: int, y: int, z: int| #[trigger] in_chunk(x, y, z) ==> network_data(blocks)[block_index(
            x,
            y,
            z,
        )] == blocks[block_index(x, y, z)],
        forall|i: int| BLOCK_COUNT <= i < BLOCK_COUNT + 2 * 16385 ==> #[trigger] network_data(blocks)[i] == 0,
        forall|i: int| BLOCK_COUNT + 2 * 16385 <= i < 81923 ==> #[trigger] network_data(blocks)[i] == 0xFF,
{
    let d = network_data(blocks);
    assert(d.take(BLOCK_COUNT as int) =~= blocks);
    assert forall|x: int, y: int, z: int| #[trigger] in_chunk(x, y, z) implies d[block_index(x, y, z)]
        == blocks[block_index(x, y, z)] by {
        assert(0 <= block_index(x, y, z) < BLOCK_COUNT);
    }
}

/// A `Vec` of `n` copies of `value`.
pub(crate) fn filled(value: u8, n: usize) -> (r: Vec<u8>)
    ensures
        r@ == Seq::new(n as nat, |i: int| value),
{
    let mut r: Vec<u8> = Vec::with_capacity(n);
    let mut i: usize = 0;
    while i < n
        invariant
            i <= n,
            r@ == Seq::new(i as nat, |k: int| value),
        decreases n - i,
    {
        r.push(value);
        i = i + 1;
        assert(r@ =~= Seq::new(i as nat, |k: int| value));
    }
    r
}

/// A block that is set reads back as set, and every other block of the
/// chunk reads as before.
pub proof fn lemma_chunk_block_read_back(c: ChunkView, x: int, y: int, z: int, block_id: u8, ox: int, oy: int, oz: int)
    requires
        c.blocks.len() == BLOCK_COUNT,
        in_chunk(x, y, z),
        in_chunk(ox, oy, oz),
    ensures
        c.blocks.update(block_index(x, y, z), block_id)[block_index(x, y, z)] == block_id,
        (ox, oy, oz) != (x, y, z) ==> c.blocks.update(block_index(x, y, z), block_id)[block_index(ox, oy, oz)]
            == c.blocks[block_index(ox, oy, oz)],
{
}

impl Chunk {
    /// The chunk holds a full block array.
    pub open spec fn wf(&self) -> bool {
        self.blocks@.len() == BLOCK_COUNT
    }

    /// A chunk of air that has not been modified.
    pub fn new(pos: ChunkPos) -> (c: Self)
        ensures
            c@ == (ChunkView { pos, blocks: Seq::new(BLOCK_COUNT as nat, |i: int| 0u8), modified: false }),
            c.wf(),
    {
        Self { pos, blocks: filled(0, BLOCK_COUNT), modified: false }
    }

    /// The position of block (x, y, z) in the block array.
    pub fn index(x: usize, y: usize, z: usize) -> (i: usize)
        requires
            in_chunk(x as int, y as int, z as int),
        ensures
            i == block_index(x as int, y as int, z as int),
            i < BLOCK_COUNT,
    {
        y + z * CHUNK_SIZE_Y + x * CHUNK_SIZE_Y * CHUNK_SIZE_Z
    }

    /// The id of block (x, y, z).
    pub fn get_block(&self, x: usize, y: usize, z: usize) -> (id: u8)
        requires
            self.wf(),
            in_chunk(x as int, y as int, z as int),
        ensures
            id == self.blocks@[block_index(x as int, y as int, z as int)],
    {
        self.blocks[Self::index(x, y, z)]
    }

    /// Sets block (x, y, z) to `block_id`; the chunk counts as modified when
    /// the block changed.
    pub fn set_block(&mut self, x: usize, y: usize, z: usize, block_id: u8)
        requires
            old(self).wf(),
            in_chunk(x as int, y as int, z as int),
        ensures
            final(self).wf(),
            final(self)@ == (ChunkView {
                pos: old(self).pos,
                blocks: old(self).blocks@.update(block_index(x as int, y as int, z as int), block_id),
                modified: old(self).modified
                    || old(self).blocks@[block_index(x as int, y as int, z as int)] != block_id,
            }),
    {
        let idx = Self::index(x, y, z);
        if self.blocks[idx] != block_id {
            self.blocks.set(idx, block_id);
            self.modified = true;
        } else {
            assert(self.blocks@.update(idx as int, block_id) =~= self.blocks@);
        }
    }

    /// The chunk as the client and the save file take it.
    pub fn to_network_data(&self) -> (data: Vec<u8>)
        requires
            self.wf(),
        ensures
            data@ == network_data(self.blocks@),
            data@.len() == 81923,
            data@.take(BLOCK_COUNT as int) == self.blocks@,
            forall|x: int, y: int, z: int| #[trigger] in_chunk(x, y, z) ==> data@[block_index(x, y, z)]
                == self.blocks@[block_index(x, y, z)],
            forall|i: int| BLOCK_COUNT <= i < BLOCK_COUNT + 2 * 16385 ==> #[trigger] data@[i] == 0,
            forall|i: int| BLOCK_COUNT + 2 * 16385 <= i < 81923 ==> #[trigger] data@[i] == 0xFF,
    {
        proof {
            lemma_network_data_layout(self.blocks@);
        }
        let block_count = CHUNK_SIZE_X * CHUNK_SIZE_Y * CHUNK_SIZE_Z;
        let meta_size = (block_count + 1 + 1) / 2;
        let mut data: Vec<u8> = Vec::with_capacity(block_count + 3 * meta_size);
        data.extend_from_slice(self.blocks.as_slice());
        data.extend_from_slice(filled(0u8, meta_size).as_slice());
        data.extend_from_slice(filled(0u8, meta_size).as_slice());
        data.extend_from_slice(filled(0xFFu8, meta_size).as_slice());
        assert(data@ =~= network_data(self.blocks@));
        data
    }

    /// The chunk's network data, compressed as chunk packets carry it;
    /// `None` when compression fails, which is never for want of room.
    pub fn compressed_network_data(&self) -> (r: Option<Vec<u8>>)
        requires
            self.wf(),
        ensures
            ({
                let data = network_data(self.blocks@);
                let (compressed, code) = zlib_compress_slice(data, (data.len() * 2) as nat);
                &&& r is Some <==> code == 0
                &&& r matches Some(v) ==> v@ == compressed
                &&& code != BUF_ERROR
            }),
    {
        let data = self.to_network_data();
        match compress_chunk_data(data.as_slice()) {
            Ok(v) => Some(v),
            Err(_) => None,
        }
    }

    /// A copy of the chunk.
    pub(crate) fn copy(&self) -> (c: Chunk)
        ensures
            c@ == self@,
    {
        let blocks = self.blocks.clone();
        assert(blocks@ =~= self.blocks@);
        Chunk { pos: self.pos, blocks, modified: self.modified }
    }
}


/// The key under which the manager holds the chunk at `p`: the bits of x in
/// the high half, the bits of z in the low half.
pub open spec fn pos_key(p: ChunkPos) -> u64 {
    (((p.x as u32) as u64) << 32u64) | ((p.z as u32) as u64)
}

fn key_of(p: ChunkPos) -> (k: u64)
    ensures
        k == pos_key(p),
{
    (((p.x as u32) as u64) << 32u64) | ((p.z as u32) as u64)
}

/// Distinct chunk positions have distinct keys.
pub proof fn lemma_pos_key_injective(p: ChunkPos, q: ChunkPos)
    ensures
        pos_key(p) == pos_key(q) ==> p == q,
{
    let a = p.x;
    let b = p.z;
    let c = q.x;
    let d = q.z;
    assert((((a as u32) as u64) << 32u64) | ((b as u32) as u64) == (((c as u32) as u64) << 32u64) | ((
    d as u32) as u64) ==> a == c && b == d) by (bit_vector);
}

/// The chunk that holds the block at world coordinates x and z; the
/// coordinates are taken as `i32` values, as the protocol carries them.
pub open spec fn block_chunk(x: usize, z: usize) -> ChunkPos {
    ChunkPos { x: ((x as i32) as int / 16) as i32, z: ((z as i32) as int / 16) as i32 }
}

/// A chunk after setting its block at world coordinates (x, y, z) to
/// `block_id`: that block changes, and the chunk counts as modified when the
/// block was different.
pub open spec fn with_block(c: ChunkView, x: usize, y: usize, z: usize, block_id: u8) -> ChunkView {
    let i = block_index((x % 16) as int, y as int, (z % 16) as int);
    ChunkView { pos: c.pos, blocks: c.blocks.update(i, block_id), modified: c.modified || c.blocks[i] != block_id }
}

/// A block set through the manager reads back as set from the chunk that
/// holds it; every other block of that chunk, and every other chunk, reads
/// as before.
pub proof fn lemma_manager_block_read_back(
    m: Map<u64, ChunkView>,
    x: usize,
    y: usize,
    z: usize,
    block_id: u8,
    ox: int,
    oy: int,
    oz: int,
    k: u64,
)
    requires
        m.contains_key(pos_key(block_chunk(x, z))),
        m[pos_key(block_chunk(x, z))].blocks.len() == BLOCK_COUNT,
        y < CHUNK_SIZE_Y,
        in_chunk(ox, oy, oz),
    ensures
        ({
            let key = pos_key(block_chunk(x, z));
            let t = m.insert(key, with_block(m[key], x, y, z, block_id));
            let (lx, ly, lz) = ((x % 16) as int, y as int, (z % 16) as int);
            &&& t[key].blocks[block_index(lx, ly, lz)] == block_id
            &&& t[key].pos == m[key].pos
            &&& t[key].modified == (m[key].modified || m[key].blocks[block_index(lx, ly, lz)] != block_id)
            &&& t[key].blocks.len() == BLOCK_COUNT
            &&& (ox, oy, oz) != (lx, ly, lz) ==> t[key].blocks[block_index(ox, oy, oz)]
                == m[key].blocks[block_index(ox, oy, oz)]
            &&& k != key ==> t.contains_key(k) == m.contains_key(k)
            &&& k != key && m.contains_key(k) ==> t[k] == m[k]
        }),
{
    let key = pos_key(block_chunk(x, z));
    lemma_chunk_block_read_back(m[key], (x % 16) as int, y as int, (z % 16) as int, block_id, ox, oy, oz);
}

/// The chunk that holds a block holds the 16 x values and 16 z values that
/// start at 16 times its coordinates, the block's among them.
pub proof fn lemma_block_chunk_holds(x: usize, z: usize)
    ensures
        16 * block_chunk(x, z).x <= (x as i32) < 16 * block_chunk(x, z).x + 16,
        16 * block_chunk(x, z).z <= (z as i32) < 16 * block_chunk(x, z).z + 16,
{
}

fn block_chunk_exec(x: usize, z: usize) -> (r: ChunkPos)
    ensures
        r == block_chunk(x, z),
{
    #[verifier::truncate]
    let wx = x as i32;
    #[verifier::truncate]
    let wz = z as i32;
    ChunkPos::from_world_pos(wx, wz)
}

/// What one prefetch round around `center` loads: the first
/// `CHUNKS_PER_BATCH` chunks within `VIEW_DISTANCE` of it that are not held.
pub open spec fn prefetch_batch(m: Map<u64, ChunkView>, center: ChunkPos) -> Seq<ChunkPos> {
    let missing = square_around(center, VIEW_DISTANCE).filter(|p: ChunkPos| !m.contains_key(pos_key(p)));
    if missing.len() <= CHUNKS_PER_BATCH {
        missing
    } else {
        missing.take(CHUNKS_PER_BATCH as int)
    }
}

/// The keys of the chunks of `m` that changed since they were last saved.
pub open spec fn modified_keys(m: Map<u64, ChunkView>) -> Set<u64> {
    m.dom().filter(|k: u64| m[k].modified)
}

/// `a` comes before `b` in the order in which the chunks around a center are
/// listed: by x, then by z.
pub open spec fn chunk_before(a: ChunkPos, b: ChunkPos) -> bool {
    a.x < b.x || (a.x == b.x && a.z < b.z)
}

proof fn lemma_square_sorted(center: ChunkPos, radius: i32, i: int, j: int)
    requires
        radius_fits(center, radius),
        0 <= i < j < square_around(center, radius).len(),
    ensures
        chunk_before(square_around(center, radius)[i], square_around(center, radius)[j]),
{
    let n = square_side(radius);
    let sq = square_around(center, radius);
    assert(radius >= 0);
    vstd::arithmetic::div_mod::lemma_fundamental_div_mod(i, n);
    vstd::arithmetic::div_mod::lemma_fundamental_div_mod(j, n);
    vstd::arithmetic::div_mod::lemma_mod_bound(i, n);
    vstd::arithmetic::div_mod::lemma_mod_bound(j, n);
    let (qi, ri, qj, rj) = (i / n, i % n, j / n, j % n);
    assert(qi < qj || (qi == qj && ri < rj)) by (nonlinear_arith)
        requires
            i == n * qi + ri,
            j == n * qj + rj,
            0 <= ri < n,
            0 <= rj < n,
            i < j,
    ;
    assert(0 <= qi < n && 0 <= qj < n) by (nonlinear_arith)
        requires
            i == n * qi + ri,
            j == n * qj + rj,
            0 <= ri < n,
            0 <= rj < n,
            0 <= i < j,
            j < n * n,
    ;
}

proof fn lemma_filter_sorted(s: Seq<ChunkPos>, pred: spec_fn(ChunkPos) -> bool)
    requires
        forall|i: int, j: int| 0 <= i < j < s.len() ==> chunk_before(#[trigger] s[i], #[trigger] s[j]),
    ensures
        forall|i: int, j: int|
            0 <= i < j < s.filter(pred).len() ==> chunk_before(#[trigger] s.filter(pred)[i], #[trigger] s.filter(pred)[j]),
    decreases s.len(),
{
    reveal_with_fuel(Seq::<ChunkPos>::filter, 1);
    if s.len() > 0 {
        let rest = s.drop_last();
        assert forall|i: int, j: int| 0 <= i < j < rest.len() implies chunk_before(#[trigger] rest[i], #[trigger] rest[j]) by {
            assert(rest[i] == s[i] && rest[j] == s[j]);
        }
        lemma_filter_sorted(rest, pred);
        let f = rest.filter(pred);
        if pred(s.last()) {
            let g = f.push(s.last());
            assert forall|i: int, j: int| 0 <= i < j < g.len() implies chunk_before(#[trigger] g[i], #[trigger] g[j]) by {
                if j == f.len() {
                    assert(g[i] == f[i]);
                    lemma_filter_contains_iff(rest, pred, f[i]);
                    assert(f.contains(f[i]));
                    let k = choose|k: int| 0 <= k < rest.len() && rest[k] == f[i];
                    assert(s[k] == f[i] && s[s.len() - 1] == s.last());
                } else {
                    assert(g[i] == f[i] && g[j] == f[j]);
                }
            }
        }
    }
}

/// The chunks to load and to unload on a move are listed by x, then by z,
/// each once; with the chunks they hold (`lemma_chunk_transition_membership`)
/// this fixes both lists.
pub proof fn lemma_transition_sorted(old_center: ChunkPos, new_center: ChunkPos, radius: i32)
    requires
        radius_fits(old_center, radius),
        radius_fits(new_center, radius),
    ensures
        forall|i: int, j: int| 0 <= i < j < spec_chunks_to_load(old_center, new_center, radius).len()
            ==> chunk_before(
            #[trigger] spec_chunks_to_load(old_center, new_center, radius)[i],
            #[trigger] spec_chunks_to_load(old_center, new_center, radius)[j],
        ),
        forall|i: int, j: int| 0 <= i < j < spec_chunks_to_unload(old_center, new_center, radius).len()
            ==> chunk_before(
            #[trigger] spec_chunks_to_unload(old_center, new_center, radius)[i],
            #[trigger] spec_chunks_to_unload(old_center, new_center, radius)[j],
        ),
{
    let a = square_around(old_center, radius);
    let b = square_around(new_center, radius);
    assert forall|i: int, j: int| 0 <= i < j < a.len() implies chunk_before(#[trigger] a[i], #[trigger] a[j]) by {
        lemma_square_sorted(old_center, radius, i, j);
    }
    assert forall|i: int, j: int| 0 <= i < j < b.len() implies chunk_before(#[trigger] b[i], #[trigger] b[j]) by {
        lemma_square_sorted(new_center, radius, i, j);
    }
    lemma_filter_sorted(b, |p: ChunkPos| !square_around(old_center, radius).contains(p));
    lemma_filter_sorted(a, |p: ChunkPos| !square_around(new_center, radius).contains(p));
}

/// What one prefetch round loads around `center`: at most 4 chunks, each
/// within 4 chunks of the center in x and z and not held; listed by x, then
/// by z; and the first such chunks in that order: every missing chunk around
/// the center before the last one listed is listed too, and when fewer than
/// 4 are listed, every missing chunk around the center is.
pub proof fn lemma_prefetch_batch_facts(m: Map<u64, ChunkView>, center: ChunkPos, p: ChunkPos)
    requires
        radius_fits(center, VIEW_DISTANCE),
    ensures
        ({
            let b = prefetch_batch(m, center);
            let around = center.x - 4 <= p.x <= center.x + 4 && center.z - 4 <= p.z <= center.z + 4;
            &&& b.len() <= 4
            &&& forall|j: int| 0 <= j < b.len() ==> {
                &&& center.x - 4 <= #[trigger] b[j].x <= center.x + 4
                &&& center.z - 4 <= b[j].z <= center.z + 4
                &&& !m.contains_key(pos_key(b[j]))
            }
            &&& forall|i: int, j: int| 0 <= i < j < b.len() ==> chunk_before(#[trigger] b[i], #[trigger] b[j])
            &&& around && !m.contains_key(pos_key(p)) && (b.len() < 4 || chunk_before(p, b[b.len() - 1]))
                ==> b.contains(p)
        }),
{
    let sq = square_around(center, VIEW_DISTANCE);
    let pred = |q: ChunkPos| !m.contains_key(pos_key(q));
    let f = sq.filter(pred);
    let b = prefetch_batch(m, center);
    assert forall|i: int, j: int| 0 <= i < j < sq.len() implies chunk_before(#[trigger] sq[i], #[trigger] sq[j]) by {
        lemma_square_sorted(center, VIEW_DISTANCE, i, j);
    }
    lemma_filter_sorted(sq, pred);
    assert forall|j: int| 0 <= j < b.len() implies {
        &&& center.x - 4 <= #[trigger] b[j].x <= center.x + 4
        &&& center.z - 4 <= b[j].z <= center.z + 4
        &&& !m.contains_key(pos_key(b[j]))
    } by {
        assert(b[j] == f[j]);
        assert(f.contains(f[j]));
        lemma_filter_contains_iff(sq, pred, f[j]);
        lemma_square_contains(center, VIEW_DISTANCE, f[j]);
    }
    assert forall|i: int, j: int| 0 <= i < j < b.len() implies chunk_before(#[trigger] b[i], #[trigger] b[j]) by {
        assert(b[i] == f[i] && b[j] == f[j]);
    }
    let around = center.x - 4 <= p.x <= center.x + 4 && center.z - 4 <= p.z <= center.z + 4;
    if around && !m.contains_key(pos_key(p)) && (b.len() < 4 || chunk_before(p, b[b.len() - 1])) {
        lemma_square_contains(center, VIEW_DISTANCE, p);
        lemma_filter_contains_iff(sq, pred, p);
        let k = choose|k: int| 0 <= k < f.len() && f[k] == p;
        if f.len() > 4 {
            let last = b.len() - 1;
            assert(b[last] == f[last]);
            if k > last {
                assert(chunk_before(f[last], f[k]));
            }
            assert(b[k] == p);
        } else {
            assert(b =~= f);
        }
    }
}

/// The chunks that the server holds in memory, each under the key of its
/// position, and the directory of the world's save files.
pub struct ChunkManager {
    chunks: HashMap<u64, Chunk>,
    world_dir: String,
}

impl View for ChunkManager {
    type V = Map<u64, ChunkView>;

    /// The chunks by the keys of their positions.
    closed spec fn view(&self) -> Map<u64, ChunkView> {
        self.chunks@.map_values(|c: Chunk| c@)
    }
}

impl ChunkManager {
    /// Every chunk holds a full block array and is held under the key of its
    /// position.
    pub closed spec fn wf(&self) -> bool {
        forall|k: u64| #[trigger] self.chunks@.contains_key(k) ==> self.chunks@[k].wf()
            && pos_key(self.chunks@[k].pos) == k
    }

    /// A well-formed manager holds each chunk under the key of its position,
    /// with a full block array; it holds finitely many chunks.
    pub proof fn lemma_wf_facts(&self)
        requires
            self.wf(),
        ensures
            self@.dom().finite(),
            forall|k: u64| #[trigger] self@.contains_key(k) ==> pos_key(self@[k].pos) == k
                && self@[k].blocks.len() == BLOCK_COUNT,
    {
        broadcast use vstd::std_specs::hash::group_hash_axioms;

        assert(self@.dom() =~= self.chunks@.dom());
    }

    /// The directory of the world's save files.
    pub closed spec fn spec_world_dir(&self) -> Seq<char> {
        self.world_dir@
    }

    /// A manager that holds no chunk.
    pub fn new(world_dir: String) -> (m: Self)
        ensures
            m.wf(),
            m@ == Map::<u64, ChunkView>::empty(),
            m.spec_world_dir() == world_dir@,
    {
        let m = Self { chunks: HashMap::new(), world_dir };
        assert(m@ =~= Map::<u64, ChunkView>::empty());
        m
    }

    /// The directory of the world's save files.
    pub fn world_dir(&self) -> (dir: &String)
        ensures
            dir@ == self.spec_world_dir(),
    {
        &self.world_dir
    }

    /// A copy of the chunk at `pos`, if one is held.
    pub fn get_chunk(&self, pos: ChunkPos) -> (r: Option<Chunk>)
        requires
            self.wf(),
        ensures
            r is None <==> !self@.contains_key(pos_key(pos)),
            r matches Some(c) ==> c@ == self@[pos_key(pos)] && c.wf() && c.pos == pos,
    {
        broadcast use vstd::std_specs::hash::group_hash_axioms;

        let key = key_of(pos);
        match self.chunks.get(&key) {
            Some(c) => {
                proof {
                    lemma_pos_key_injective(c.pos, pos);
                }
                Some(c.copy())
            },
            None => None,
        }
    }

    /// Whether a chunk is held at `pos`.
    pub fn is_chunk_loaded(&self, pos: ChunkPos) -> (r: bool)
        requires
            self.wf(),
        ensures
            r == self@.contains_key(pos_key(pos)),
    {
        broadcast use vstd::std_specs::hash::group_hash_axioms;

        let key = key_of(pos);
        self.chunks.contains_key(&key)
    }

    /// Holds `chunk` unless a chunk is already held at its position; gives back
    /// the chunk that is held there afterwards.
    pub fn insert_if_absent(&mut self, chunk: Chunk) -> (stored: Chunk)
        requires
            old(self).wf(),
            chunk.wf(),
        ensures
            final(self).wf(),
            stored.wf(),
            old(self)@.contains_key(pos_key(chunk.pos)) ==> final(self)@ == old(self)@ && stored@
                == old(self)@[pos_key(chunk.pos)],
            !old(self)@.contains_key(pos_key(chunk.pos)) ==> final(self)@ == old(self)@.insert(
                pos_key(chunk.pos),
                chunk@,
            ) && stored@ == chunk@,
            final(self).spec_world_dir() == old(self).spec_world_dir(),
    {
        broadcast use vstd::std_specs::hash::group_hash_axioms;

        let key = key_of(chunk.pos);
        match self.chunks.get(&key) {
            Some(c) => c.copy(),
            None => {
                let stored = chunk.copy();
                let ghost before = self.chunks@;
                self.chunks.insert(key, chunk);
                assert(self@ =~= before.map_values(|c: Chunk| c@).insert(key, stored@));
                stored
            },
        }
    }

    /// Sets the block at world coordinates (x, y, z) in the chunk that holds
    /// it. Gives false, and changes nothing, when that chunk is not held.
    pub fn set_block(&mut self, _pos: ChunkPos, x: usize, y: usize, z: usize, block_id: u8) -> (r: bool)
        requires
            old(self).wf(),
            y < CHUNK_SIZE_Y,
        ensures
            final(self).wf(),
            final(self).spec_world_dir() == old(self).spec_world_dir(),
            r == old(self)@.contains_key(pos_key(block_chunk(x, z))),
            r ==> final(self)@ == old(self)@.insert(
                pos_key(block_chunk(x, z)),
                with_block(old(self)@[pos_key(block_chunk(x, z))], x, y, z, block_id),
            ),
            !r ==> final(self)@ == old(self)@,
    {
        broadcast use vstd::std_specs::hash::group_hash_axioms;

        let chunk_pos = block_chunk_exec(x, z);
        let key = key_of(chunk_pos);
        let local_x = x % 16;
        let local_z = z % 16;
        let ghost before = self.chunks@;
        match self.chunks.remove(&key) {
            Some(mut chunk) => {
                assert(chunk == before[key]);
                chunk.set_block(local_x, y, local_z, block_id);
                let ghost changed = chunk@;
                self.chunks.insert(key, chunk);
                assert(self.chunks@ == before.insert(key, self.chunks@[key]));
                assert(self@ =~= before.map_values(|c: Chunk| c@).insert(key, changed));
                true
            },
            None => {
                assert(self.chunks@ =~= before);
                false
            },
        }
    }

    /// Copies of the chunks that changed since they were last saved, each
    /// once, in the order in which the map is walked.
    #[verifier::spinoff_prover]
    #[verifier::rlimit(40)]
    pub fn modified_chunks(&self) -> (r: Vec<Chunk>)
        requires
            self.wf(),
        ensures
            forall|i: int| 0 <= i < r@.len() ==> #[trigger] modified_keys(self@).contains(pos_key(r@[i].pos))
                && r@[i]@ == self@[pos_key(r@[i].pos)] && r@[i].wf(),
            forall|k: u64| #[trigger] modified_keys(self@).contains(k) ==> exists|i: int|
                0 <= i < r@.len() && pos_key(#[trigger] r@[i].pos) == k,
            forall|i: int, j: int| 0 <= i < r@.len() && 0 <= j < r@.len() && i != j ==> (
            #[trigger] r@[i]).pos != (#[trigger] r@[j]).pos,
    {
        broadcast use vstd::std_specs::hash::group_hash_axioms;

        let mut r: Vec<Chunk> = Vec::new();
        let ghost entries = self.chunks.iter().remaining();
        let ghost mut at: Seq<int> = Seq::empty();
        let ghost mut seen: int = 0;
        for entry in it: self.chunks.iter()
            invariant
                self.wf(),
                it.seq() == entries,
                seen == it.index(),
                entries.no_duplicates(),
                forall|n: int| 0 <= n < entries.len() ==> #[trigger] self.chunks@.contains_key(*entries[n].0)
                    && self.chunks@[*entries[n].0] == *entries[n].1,
                forall|k: u64| #[trigger] self.chunks@.contains_key(k) ==> entries.contains(
                    (&k, &self.chunks@[k]),
                ),
                at.len() == r@.len(),
                forall|m: int| 0 <= m < r@.len() ==> #[trigger] modified_keys(self@).contains(pos_key(r@[m].pos))
                    && r@[m]@ == self@[pos_key(r@[m].pos)] && r@[m].wf(),
                forall|m: int| 0 <= m < r@.len() ==> 0 <= #[trigger] at[m] < seen
                    && *entries[at[m]].0 == pos_key(r@[m].pos),
                forall|n: int| 0 <= n < seen && (*entries[n].1).modified ==> exists|m: int|
                    0 <= m < r@.len() && #[trigger] at[m] == n,
                forall|a: int, b: int| 0 <= a < r@.len() && 0 <= b < r@.len() && a != b ==> (
                #[trigger] r@[a]).pos != (#[trigger] r@[b]).pos,
        {
            let (key, chunk) = entry;
            let ghost cur = seen;
            assert(entries[cur] == entry);
            if chunk.modified {
                assert(self@[*key] == chunk@);
                assert(modified_keys(self@).contains(*key));
                let ghost before = r@;
                let ghost at_before = at;
                r.push(chunk.copy());
                proof {
                    at = at.push(cur);
                    assert(r@[before.len() as int].pos == chunk.pos);
                    assert(self.chunks@.contains_key(*key) && self.chunks@[*key] == *chunk);
                    assert(pos_key(chunk.pos) == *key);
                    assert(r@[before.len() as int]@ == self@[pos_key(chunk.pos)]);
                    assert(modified_keys(self@).contains(pos_key(r@[before.len() as int].pos)));
                    assert(at[before.len() as int] == cur);
                    assert forall|m: int| 0 <= m < before.len() implies r@[m] == before[m] && at[m]
                        == at_before[m] by {}
                    assert(r@[before.len() as int].wf());
                    assert forall|m: int| 0 <= m < r@.len() implies #[trigger] modified_keys(self@).contains(
                        pos_key(r@[m].pos),
                    ) && r@[m]@ == self@[pos_key(r@[m].pos)] && r@[m].wf() by {
                        if m < before.len() {
                            assert(r@[m] == before[m]);
                        }
                    }
                }
                assert forall|a: int, b: int| 0 <= a < r@.len() && 0 <= b < r@.len() && a != b
                    implies (#[trigger] r@[a]).pos != (#[trigger] r@[b]).pos by {
                    if a == before.len() || b == before.len() {
                        let o = if a == before.len() { b } else { a };
                        assert(r@[o] == before[o]);
                        let n = at[o];
                        assert(*entries[n].0 == pos_key(before[o].pos));
                        assert(n < cur);
                        if before[o].pos == chunk.pos {
                            assert(self.chunks@[*entries[n].0] == *entries[n].1);
                            assert(entries[n] == entries[cur]);
                        }
                    } else {
                        assert(r@[a] == before[a] && r@[b] == before[b]);
                    }
                }
            }
            proof {
                seen = seen + 1;
            }
        }
        proof {
            assert(seen == entries.len());
            assert forall|k: u64| #[trigger] modified_keys(self@).contains(k) implies exists|i: int|
                0 <= i < r@.len() && pos_key(#[trigger] r@[i].pos) == k by {
                assert(self.chunks@.contains_key(k));
                assert(entries.contains((&k, &self.chunks@[k])));
                let n = choose|n: int| 0 <= n < entries.len() && entries[n] == (&k, &self.chunks@[k]);
                assert(self@[k].modified);
                let m = choose|m: int| 0 <= m < r@.len() && #[trigger] at[m] == n;
                assert(pos_key(r@[m].pos) == k);
            }
        }
        r
    }

    /// The number of chunks that changed since they were last saved.
    pub fn modified_chunk_count(&self) -> (n: usize)
        requires
            self.wf(),
        ensures
            n == modified_keys(self@).len(),
    {
        let r = self.modified_chunks();
        proof {
            let ks = r@.map_values(|c: Chunk| pos_key(c.pos));
            assert forall|a: int, b: int| 0 <= a < ks.len() && 0 <= b < ks.len() && a != b implies ks[a]
                != ks[b] by {
                lemma_pos_key_injective(r@[a].pos, r@[b].pos);
            }
            assert forall|k: u64| #[trigger] ks.to_set().contains(k) == modified_keys(self@).contains(k) by {
                if modified_keys(self@).contains(k) {
                    let i = choose|i: int| 0 <= i < r@.len() && pos_key(#[trigger] r@[i].pos) == k;
                    assert(ks[i] == k);
                }
                if ks.to_set().contains(k) {
                    let i = choose|i: int| 0 <= i < ks.len() && ks[i] == k;
                    assert(modified_keys(self@).contains(pos_key(r@[i].pos)));
                }
            }
            assert(ks.to_set() =~= modified_keys(self@));
            ks.unique_seq_to_set();
        }
        r.len()
    }

    /// Records that the chunk at `pos` was saved: it no longer counts as modified.
    pub fn mark_saved(&mut self, pos: ChunkPos)
        requires
            old(self).wf(),
        ensures
            final(self).wf(),
            final(self).spec_world_dir() == old(self).spec_world_dir(),
            old(self)@.contains_key(pos_key(pos)) ==> final(self)@ == old(self)@.insert(
                pos_key(pos),
                ChunkView { modified: false, ..old(self)@[pos_key(pos)] },
            ),
            !old(self)@.contains_key(pos_key(pos)) ==> final(self)@ == old(self)@,
    {
        broadcast use vstd::std_specs::hash::group_hash_axioms;

        let key = key_of(pos);
        let ghost before = self.chunks@;
        match self.chunks.remove(&key) {
            Some(mut chunk) => {
                assert(chunk == before[key]);
                chunk.modified = false;
                let ghost changed = chunk@;
                self.chunks.insert(key, chunk);
                assert(self.chunks@ == before.insert(key, self.chunks@[key]));
                assert(self@ =~= before.map_values(|c: Chunk| c@).insert(key, changed));
            },
            None => {
                assert(self.chunks@ =~= before);
            },
        }
    }

    /// The chunks around `center` that are not held yet, in the order of
    /// `chunks_in_radius`, at most `CHUNKS_PER_BATCH` of them: what one
    /// prefetch round loads.
    pub fn chunks_to_prefetch(&self, center: ChunkPos) -> (r: Vec<ChunkPos>)
        requires
            self.wf(),
            radius_fits(center, VIEW_DISTANCE),
        ensures
            r@ == prefetch_batch(self@, center),
    {
        let target_chunks = ChunkPos::chunks_in_radius(center, VIEW_DISTANCE);
        let ghost pred = |p: ChunkPos| !self@.contains_key(pos_key(p));
        let mut missing: Vec<ChunkPos> = Vec::new();
        let mut i: usize = 0;
        while i < target_chunks.len()
            invariant
                self.wf(),
                i <= target_chunks@.len(),
                pred == (|p: ChunkPos| !self@.contains_key(pos_key(p))),
                missing@ == target_chunks@.take(i as int).filter(pred),
            decreases target_chunks@.len() - i,
        {
            let p = target_chunks[i];
            assert(target_chunks@.take(i + 1).drop_last() =~= target_chunks@.take(i as int));
            assert(target_chunks@.take(i + 1).last() == p);
            proof {
                reveal_with_fuel(Seq::<ChunkPos>::filter, 1);
            }
            if !self.is_chunk_loaded(p) {
                missing.push(p);
            }
            i = i + 1;
        }
        assert(target_chunks@.take(target_chunks@.len() as int) =~= target_chunks@);
        missing.truncate(CHUNKS_PER_BATCH);
        missing
    }

    /// One round of prefetching, given the center of the last round (`None`
    /// before the first) and the current center: when the center moved, the
    /// batch of missing chunks around it and the new center to remember;
    /// otherwise nothing to load and the same center.
    pub fn prefetch_step(&self, last: Option<ChunkPos>, current: ChunkPos) -> (r: (Option<ChunkPos>, Vec<ChunkPos>))
        requires
            self.wf(),
            radius_fits(current, VIEW_DISTANCE),
        ensures
            r.0 == Some(current),
            last == Some(current) ==> r.1@ == Seq::<ChunkPos>::empty(),
            last != Some(current) ==> r.1@ == prefetch_batch(self@, current),
    {
        let moved = match last {
            Some(p) => !(p == current),
            None => true,
        };
        if moved {
            (Some(current), self.chunks_to_prefetch(current))
        } else {
            (Some(current), Vec::new())
        }
    }

    /// The chunk at `pos` as a save file holds it: its blocks are the first
    /// `BLOCK_COUNT` bytes of `data`. `None` when the data is shorter than
    /// that: the chunk is then to be generated anew.
    pub fn deserialize_chunk(pos: ChunkPos, data: &[u8]) -> (r: Option<Chunk>)
        ensures
            r is Some <==> data@.len() >= BLOCK_COUNT,
            r matches Some(c) ==> c.wf() && c@ == (ChunkView {
                pos,
                blocks: data@.take(BLOCK_COUNT as int),
                modified: false,
            }),
    {
        if data.len() >= BLOCK_COUNT {
            let mut chunk = Chunk::new(pos);
            let mut blocks: Vec<u8> = Vec::with_capacity(BLOCK_COUNT);
            blocks.extend_from_slice(&data[0..BLOCK_COUNT]);
            chunk.blocks = blocks;
            assert(chunk.blocks@ =~= data@.take(BLOCK_COUNT as int));
            Some(chunk)
        } else {
            None
        }
    }

    /// The chunk at `pos` made from generated terrain data: its blocks are the
    /// first `BLOCK_COUNT` bytes of `data`, or all air when the data is shorter.
    pub fn generate_chunk(pos: ChunkPos, data: &[u8]) -> (c: Chunk)
        ensures
            c.wf(),
            c@ == (ChunkView {
                pos,
                blocks: if data@.len() >= BLOCK_COUNT {
                    data@.take(BLOCK_COUNT as int)
                } else {
                    Seq::new(BLOCK_COUNT as nat, |i: int| 0u8)
                },
                modified: false,
            }),
    {
        match Self::deserialize_chunk(pos, data) {
            Some(c) => c,
            None => Chunk::new(pos),
        }
    }

    /// The number of chunks held.
    pub fn loaded_chunk_count(&self) -> (n: usize)
        requires
            self.wf(),
        ensures
            n == self@.len(),
    {
        broadcast use vstd::std_specs::hash::group_hash_axioms;

        assert(self@.dom() =~= self.chunks@.dom());
        self.chunks.len()
    }
}

} // verus!
