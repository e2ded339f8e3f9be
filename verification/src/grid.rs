//! The spatial index: a sparse uniform grid over the open plane, keyed by
//! cell coordinate in a hash table. `build` buckets every position once;
//! `query_radius` returns a conservative, duplicate-free candidate set that
//! provably contains every entity within the radius. Callers perform the
//! exact distance check.

use vstd::prelude::*;

verus! {

use std::collections::HashMap;
use crate::COORD_LIMIT;
use crate::TRAIT_LIMIT;
use crate::math::{floor_div, lemma_div_small_bounds, lemma_floor_div_ordered};
use crate::vec2::{Vec2i, in_world, dist_sq_spec};

broadcast use vstd::std_specs::hash::group_hash_axioms;

/// Offset that moves a cell coordinate into nonnegative range.
pub const KEY_OFFSET: i64 = 0x8000_0000;

/// Multiplier separating the two coordinates inside one key.
pub const KEY_STRIDE: i64 = 0x1_0000_0000;

/// Grid cell of a coordinate: the floor of `a / cell_size`.
pub open spec fn cell_of(a: int, cell_size: int) -> int {
    a / cell_size
}

/// X cell of a position.
pub open spec fn cell_x_of(p: Vec2i, cell_size: int) -> int {
    cell_of(p.x as int, cell_size)
}

/// Y cell of a position.
pub open spec fn cell_y_of(p: Vec2i, cell_size: int) -> int {
    cell_of(p.y as int, cell_size)
}

/// Packs a cell pair into a single number; injective and monotone in the
/// lexicographic cell order, for cells within `KEY_OFFSET` of the origin.
pub open spec fn key_of(cx: int, cy: int) -> int {
    (cx + KEY_OFFSET) * KEY_STRIDE + (cy + KEY_OFFSET)
}

/// The key of the cell containing a position.
pub open spec fn key_of_pos(p: Vec2i, cell_size: int) -> int {
    key_of(cell_x_of(p, cell_size), cell_y_of(p, cell_size))
}

/// Cell coordinates that fit the key packing.
pub open spec fn cell_in_key_range(c: int) -> bool {
    -KEY_OFFSET < c < KEY_OFFSET
}

/// A sequence of indices in strictly increasing order.
pub open spec fn strictly_increasing(s: Seq<usize>) -> bool {
    forall|j1: int, j2: int| 0 <= j1 < j2 < s.len() ==> s[j1] < s[j2]
}

/// The scan order of the grid: entity `(k1, i1)` is visited before
/// `(k2, i2)` when its cell key is smaller, or within one cell when its
/// index is smaller.
pub open spec fn scan_before(k1: int, i1: usize, k2: int, i2: usize) -> bool {
    k1 < k2 || (k1 == k2 && i1 < i2)
}

/// The key packing is injective on cells within the key range.
pub proof fn lemma_key_injective(cx1: int, cy1: int, cx2: int, cy2: int)
    requires
        cell_in_key_range(cx1),
        cell_in_key_range(cy1),
        cell_in_key_range(cx2),
        cell_in_key_range(cy2),
        key_of(cx1, cy1) == key_of(cx2, cy2),
    ensures
        cx1 == cx2,
        cy1 == cy2,
{
}

/// Cell coordinate of `a` in cells of edge `cell_size`.
fn cell_coord(a: i64, cell_size: i64) -> (c: i64)
    requires
        1 <= cell_size,
        -2_100_000_000 <= a <= 2_100_000_000,
    ensures
        c == cell_of(a as int, cell_size as int),
        -2_100_000_001 <= c <= 2_100_000_000,
{
    proof {
        lemma_div_small_bounds(a as int, cell_size as int);
    }
    floor_div(a, cell_size)
}

/// The cells of an in-world position fit the key packing.
proof fn lemma_pos_cells_in_range(p: Vec2i, cell_size: int)
    requires
        1 <= cell_size,
        in_world(p),
    ensures
        cell_in_key_range(cell_x_of(p, cell_size)),
        cell_in_key_range(cell_y_of(p, cell_size)),
        0 <= key_of_pos(p, cell_size) < 0x1_0000_0000_0000_0000,
{
    lemma_div_small_bounds(p.x as int, cell_size);
    lemma_div_small_bounds(p.y as int, cell_size);
}

/// Key of the cell containing the in-world position `p`.
fn pos_key(p: Vec2i, cell_size: i64) -> (k: u64)
    requires
        1 <= cell_size,
        in_world(p),
    ensures
        k as int == key_of_pos(p, cell_size as int),
{
    let cx = cell_coord(p.x, cell_size);
    let cy = cell_coord(p.y, cell_size);
    proof {
        lemma_pos_cells_in_range(p, cell_size as int);
    }
    (((cx + KEY_OFFSET) as u64) * (KEY_STRIDE as u64)) + ((cy + KEY_OFFSET) as u64)
}

/// An element of a sequence is an element of any extension of it.
proof fn lemma_concat_keeps(s: Seq<usize>, t: Seq<usize>, x: usize)
    requires
        s.contains(x),
    ensures
        (s + t).contains(x),
{
    let j = choose|j: int| 0 <= j < s.len() && s[j] == x;
    assert((s + t)[j] == x);
}

/// An element of the appended part is an element of the concatenation.
proof fn lemma_concat_keeps_right(s: Seq<usize>, t: Seq<usize>, x: usize)
    requires
        t.contains(x),
    ensures
        (s + t).contains(x),
{
    let j = choose|j: int| 0 <= j < t.len() && t[j] == x;
    assert((s + t)[s.len() as int + j] == x);
}

/// A sparse uniform grid over positions, supporting conservative
/// neighbourhood queries. Entities are identified by their index into the
/// sequence the grid was built from.
pub struct SpatialIndex {
    cell_size: i64,
    buckets: HashMap<u64, Vec<usize>>,
    positions: Ghost<Seq<Vec2i>>,
}

impl SpatialIndex {
    /// The sequence of positions this index was built from.
    pub closed spec fn spec_positions(&self) -> Seq<Vec2i> {
        self.positions@
    }

    /// The cell edge the index was built with.
    pub closed spec fn spec_cell_size(&self) -> int {
        self.cell_size as int
    }

    /// Each bucket holds valid, strictly increasing indices whose cell is
    /// the bucket's key.
    closed spec fn bucket_ok(&self, k: u64) -> bool {
        let b = self.buckets@[k]@;
        &&& strictly_increasing(b)
        &&& forall|j: int|
            0 <= j < b.len() ==> (#[trigger] b[j] < self.positions@.len() && key_of_pos(
                self.positions@[b[j] as int],
                self.cell_size as int,
            ) == k as int)
    }

    /// The index is well formed: every indexed position is in the world and
    /// sits in the bucket of its own cell, and every bucket is sound.
    pub closed spec fn wf(&self) -> bool {
        &&& 1 <= self.cell_size <= COORD_LIMIT
        &&& forall|k: u64| #[trigger] self.buckets@.contains_key(k) ==> self.bucket_ok(k)
        &&& forall|i: int|
            0 <= i < self.positions@.len() ==> #[trigger] in_world(self.positions@[i])
        &&& forall|i: int|
            0 <= i < self.positions@.len() ==> {
                let k = key_of_pos(#[trigger] self.positions@[i], self.cell_size as int);
                self.buckets@.contains_key(k as u64) && self.buckets@[k as u64]@.contains(
                    i as usize,
                )
            }
    }

    /// Buckets every position into the cell it falls in. Integer positions
    /// cannot be malformed, and the caller's world bound keeps every cell
    /// inside the key range, so nothing is ever skipped.
    pub fn build(positions: &Vec<Vec2i>, cell_size: i64) -> (index: SpatialIndex)
        requires
            1 <= cell_size <= COORD_LIMIT,
            forall|i: int| 0 <= i < positions@.len() ==> #[trigger] in_world(positions@[i]),
        ensures
            index.wf(),
            index.spec_positions() == positions@,
            index.spec_cell_size() == cell_size as int,
    {
        let mut buckets: HashMap<u64, Vec<usize>> = HashMap::new();
        let ghost all = positions@;
        let n = positions.len();
        let mut i: usize = 0;
        while i < n
            invariant
                n == all.len(),
                positions@ == all,
                1 <= cell_size <= COORD_LIMIT,
                i <= n,
                forall|ii: int| 0 <= ii < all.len() ==> #[trigger] in_world(all[ii]),
                forall|k: u64|
                    #[trigger] buckets@.contains_key(k) ==> {
                        let b = buckets@[k]@;
                        strictly_increasing(b) && forall|j: int|
                            0 <= j < b.len() ==> (#[trigger] b[j] < i && key_of_pos(
                                all[b[j] as int],
                                cell_size as int,
                            ) == k as int)
                    },
                forall|ii: int|
                    0 <= ii < i ==> {
                        let k = key_of_pos(#[trigger] all[ii], cell_size as int);
                        buckets@.contains_key(k as u64) && buckets@[k as u64]@.contains(
                            ii as usize,
                        )
                    },
            decreases n - i,
        {
            let ghost map0 = buckets@;
            let p = positions[i];
            let k = pos_key(p, cell_size);
            let mut bucket: Vec<usize> = match buckets.remove(&k) {
                Some(b) => b,
                None => Vec::new(),
            };
            let ghost b0 = bucket@;
            proof {
                if map0.contains_key(k) {
                    assert(b0 == map0[k]@);
                } else {
                    assert(b0 =~= Seq::<usize>::empty());
                }
            }
            bucket.push(i);
            buckets.insert(k, bucket);
            proof {
                let m = buckets@;
                assert(m =~= map0.remove(k).insert(k, bucket));
                assert(m[k]@ == b0.push(i as usize));
                assert forall|kk: u64| #[trigger] m.contains_key(kk) implies {
                    let b = m[kk]@;
                    strictly_increasing(b) && forall|j: int|
                        0 <= j < b.len() ==> (#[trigger] b[j] < i + 1 && key_of_pos(
                            all[b[j] as int],
                            cell_size as int,
                        ) == kk as int)
                } by {
                    if kk == k {
                        let b = m[k]@;
                        assert(b == b0.push(i as usize));
                        assert forall|j: int| 0 <= j < b.len() implies (#[trigger] b[j] < i + 1
                            && key_of_pos(all[b[j] as int], cell_size as int) == k as int) by {
                            if j < b0.len() {
                                assert(b[j] == b0[j]);
                                assert(map0.contains_key(k));
                            } else {
                                assert(b[j] == i as usize);
                            }
                        }
                        assert forall|j1: int, j2: int| 0 <= j1 < j2 < b.len() implies b[j1]
                            < b[j2] by {
                            if j2 < b0.len() {
                                assert(map0.contains_key(k));
                                assert(b[j1] == b0[j1] && b[j2] == b0[j2]);
                            } else {
                                assert(b[j2] == i as usize);
                                if j1 < b0.len() {
                                    assert(map0.contains_key(k));
                                    assert(b[j1] == b0[j1]);
                                    assert(b0[j1] < i);
                                }
                            }
                        }
                    } else {
                        assert(map0.contains_key(kk));
                        assert(m[kk] == map0[kk]);
                    }
                }
                assert forall|ii: int| 0 <= ii < i + 1 implies {
                    let kk = key_of_pos(#[trigger] all[ii], cell_size as int);
                    m.contains_key(kk as u64) && m[kk as u64]@.contains(ii as usize)
                } by {
                    let kk = key_of_pos(all[ii], cell_size as int);
                    if ii == i {
                        assert(kk as u64 == k);
                        assert(m[k]@[b0.len() as int] == i as usize);
                        assert(m[k]@.contains(i as usize));
                    } else {
                        if kk as u64 == k {
                            assert(map0[k]@.contains(ii as usize));
                            let j = choose|j: int|
                                0 <= j < b0.len() && b0[j] == ii as usize;
                            assert(m[k]@[j] == ii as usize);
                            assert(m[k]@.contains(ii as usize));
                        } else {
                            assert(m.contains_key(kk as u64));
                            assert(m[kk as u64] == map0[kk as u64]);
                        }
                    }
                }
            }
            i = i + 1;
        }
        SpatialIndex { cell_size, buckets, positions: Ghost(positions@) }
    }

    /// All entities whose cell lies in the bounding cell rectangle of the
    /// disc of `radius` around `center`: a conservative, duplicate-free
    /// superset of the entities within the radius. Never mutates the index.
    pub fn query_radius(&self, center: Vec2i, radius: i64) -> (result: Vec<usize>)
        requires
            self.wf(),
            in_world(center),
            1 <= radius <= TRAIT_LIMIT,
        ensures
            forall|j: int|
                0 <= j < result@.len() ==> #[trigger] result@[j] < self.spec_positions().len(),
            forall|i: int|
                0 <= i < self.spec_positions().len() && dist_sq_spec(
                    #[trigger] self.spec_positions()[i],
                    center,
                ) <= radius * radius ==> result@.contains(i as usize),
            forall|j1: int, j2: int| 0 <= j1 < j2 < result@.len() ==> result@[j1] != result@[j2],
            forall|j: int|
                0 <= j < result@.len() ==> (cell_of(center.x - radius, self.spec_cell_size())
                    <= cell_x_of(self.spec_positions()[#[trigger] result@[j] as int],
                    self.spec_cell_size(),
                ) <= cell_of(center.x + radius, self.spec_cell_size()) && cell_of(
                    center.y - radius,
                    self.spec_cell_size(),
                ) <= cell_y_of(self.spec_positions()[result@[j] as int], self.spec_cell_size())
                    <= cell_of(center.y + radius, self.spec_cell_size())),
            forall|j1: int, j2: int|
                0 <= j1 < j2 < result@.len() ==> scan_before(
                    key_of_pos(self.spec_positions()[#[trigger] result@[j1] as int],
                    self.spec_cell_size()),
                    result@[j1],
                    key_of_pos(self.spec_positions()[#[trigger] result@[j2] as int],
                    self.spec_cell_size()),
                    result@[j2],
                ),
    {
        let cs = self.cell_size;
        let ghost all = self.positions@;
        let ghost n = all.len();
        let lox = cell_coord(center.x - radius, cs);
        let hix = cell_coord(center.x + radius, cs);
        let loy = cell_coord(center.y - radius, cs);
        let hiy = cell_coord(center.y + radius, cs);
        proof {
            lemma_floor_div_ordered(center.x - radius, center.x + radius, cs as int);
            lemma_floor_div_ordered(center.y - radius, center.y + radius, cs as int);
        }
        let mut result: Vec<usize> = Vec::new();
        let mut gx = lox;
        while gx <= hix
            invariant
                self.wf(),
                cs == self.cell_size,
                all == self.positions@,
                n == all.len(),
                lox <= gx <= hix + 1,
                loy <= hiy,
                -2_100_000_001 <= lox && hix <= 2_100_000_000 && lox <= hix,
                -2_100_000_001 <= loy && hiy <= 2_100_000_000,
                forall|j: int| 0 <= j < result@.len() ==> #[trigger] result@[j] < n,
                forall|j: int|
                    0 <= j < result@.len() ==> key_of_pos(
                        all[#[trigger] result@[j] as int],
                        cs as int,
                    ) < key_of(gx as int, loy as int),
                forall|j1: int, j2: int|
                    0 <= j1 < j2 < result@.len() ==> result@[j1] != result@[j2],
                forall|j: int|
                    0 <= j < result@.len() ==> (lox <= cell_x_of(
                        all[#[trigger] result@[j] as int],
                        cs as int,
                    ) <= hix && loy <= cell_y_of(all[result@[j] as int], cs as int) <= hiy),
                forall|j1: int, j2: int|
                    0 <= j1 < j2 < result@.len() ==> scan_before(
                        key_of_pos(all[#[trigger] result@[j1] as int], cs as int),
                        result@[j1],
                        key_of_pos(all[#[trigger] result@[j2] as int], cs as int),
                        result@[j2],
                    ),
                forall|i: int|
                    #![trigger all[i]]
                    0 <= i < n && lox <= cell_x_of(all[i], cs as int) < gx && loy <= cell_y_of(
                        all[i],
                        cs as int,
                    ) <= hiy ==> result@.contains(i as usize),
            decreases hix + 1 - gx,
        {
            let mut gy = loy;
            while gy <= hiy
                invariant
                    self.wf(),
                    cs == self.cell_size,
                    all == self.positions@,
                    n == all.len(),
                    lox <= gx <= hix,
                    loy <= gy <= hiy + 1,
                    -2_100_000_001 <= lox && hix <= 2_100_000_000 && lox <= hix,
                    -2_100_000_001 <= loy && hiy <= 2_100_000_000,
                    forall|j: int| 0 <= j < result@.len() ==> #[trigger] result@[j] < n,
                    forall|j: int|
                        0 <= j < result@.len() ==> key_of_pos(
                            all[#[trigger] result@[j] as int],
                            cs as int,
                        ) < key_of(gx as int, gy as int),
                    forall|j1: int, j2: int|
                        0 <= j1 < j2 < result@.len() ==> result@[j1] != result@[j2],
                    forall|j: int|
                        0 <= j < result@.len() ==> (lox <= cell_x_of(
                            all[#[trigger] result@[j] as int],
                            cs as int,
                        ) <= hix && loy <= cell_y_of(all[result@[j] as int], cs as int) <= hiy),
                    forall|j1: int, j2: int|
                        0 <= j1 < j2 < result@.len() ==> scan_before(
                            key_of_pos(all[#[trigger] result@[j1] as int], cs as int),
                            result@[j1],
                            key_of_pos(all[#[trigger] result@[j2] as int], cs as int),
                            result@[j2],
                        ),
                    forall|i: int|
                        #![trigger all[i]]
                        0 <= i < n && lox <= cell_x_of(all[i], cs as int) <= hix && loy
                            <= cell_y_of(all[i], cs as int) <= hiy && (cell_x_of(all[i], cs as int)
                            < gx || (cell_x_of(all[i], cs as int) == gx && cell_y_of(
                            all[i],
                            cs as int,
                        ) < gy)) ==> result@.contains(i as usize),
                decreases hiy + 1 - gy,
            {
                let k: u64 = (((gx + KEY_OFFSET) as u64) * (KEY_STRIDE as u64)) + ((gy
                    + KEY_OFFSET) as u64);
                proof {
                    assert(k as int == key_of(gx as int, gy as int));
                }
                let ghost snap = result@;
                match self.buckets.get(&k) {
                    Some(bucket) => {
                        let blen = bucket.len();
                        let mut bi: usize = 0;
                        while bi < blen
                            invariant
                                self.wf(),
                                cs == self.cell_size,
                                all == self.positions@,
                                n == all.len(),
                                self.buckets@.contains_key(k),
                                bucket@ == self.buckets@[k]@,
                                blen == bucket@.len(),
                                bi <= blen,
                                result@ == snap + bucket@.subrange(0, bi as int),
                            decreases blen - bi,
                        {
                            let e = bucket[bi];
                            result.push(e);
                            proof {
                                assert(result@ =~= snap + bucket@.subrange(0, bi + 1));
                            }
                            bi = bi + 1;
                        }
                        proof {
                            assert(bucket@.subrange(0, blen as int) =~= bucket@);
                            assert(result@ == snap + bucket@);
                            let b = bucket@;
                            // Soundness, key and cell bounds of the
                            // extended result.
                            assert forall|j: int| 0 <= j < result@.len() implies (
                            #[trigger] result@[j] < n && key_of_pos(
                                all[result@[j] as int],
                                cs as int,
                            ) < key_of(gx as int, gy as int + 1) && lox <= cell_x_of(
                                all[result@[j] as int],
                                cs as int,
                            ) <= hix && loy <= cell_y_of(all[result@[j] as int], cs as int)
                                <= hiy) by {
                                if j < snap.len() {
                                    assert(result@[j] == snap[j]);
                                } else {
                                    assert(result@[j] == b[j - snap.len()]);
                                    let e = b[j - snap.len()] as int;
                                    assert(key_of_pos(all[e], cs as int) == k as int);
                                    lemma_pos_cells_in_range(all[e], cs as int);
                                    lemma_key_injective(
                                        cell_x_of(all[e], cs as int),
                                        cell_y_of(all[e], cs as int),
                                        gx as int,
                                        gy as int,
                                    );
                                }
                            }
                            // Scan order of the extended result.
                            assert forall|j1: int, j2: int|
                                0 <= j1 < j2 < result@.len() implies scan_before(
                                key_of_pos(all[#[trigger] result@[j1] as int], cs as int),
                                result@[j1],
                                key_of_pos(all[#[trigger] result@[j2] as int], cs as int),
                                result@[j2],
                            ) by {
                                if j1 < snap.len() && j2 >= snap.len() {
                                    assert(result@[j1] == snap[j1]);
                                    assert(result@[j2] == b[j2 - snap.len()]);
                                    assert(key_of_pos(all[snap[j1] as int], cs as int)
                                        < k as int);
                                    assert(key_of_pos(all[b[j2 - snap.len()] as int], cs as int)
                                        == k as int);
                                } else if j1 >= snap.len() {
                                    assert(result@[j1] == b[j1 - snap.len()]);
                                    assert(result@[j2] == b[j2 - snap.len()]);
                                    assert(b[j1 - snap.len()] < b[j2 - snap.len()]);
                                    assert(key_of_pos(all[b[j1 - snap.len()] as int], cs as int)
                                        == k as int);
                                    assert(key_of_pos(all[b[j2 - snap.len()] as int], cs as int)
                                        == k as int);
                                } else {
                                    assert(result@[j1] == snap[j1] && result@[j2] == snap[j2]);
                                }
                            }
                            assert forall|j1: int, j2: int|
                                0 <= j1 < j2 < result@.len() implies result@[j1]
                                != result@[j2] by {
                                if j1 < snap.len() && j2 >= snap.len() {
                                    assert(result@[j1] == snap[j1]);
                                    assert(result@[j2] == b[j2 - snap.len()]);
                                    assert(key_of_pos(all[snap[j1] as int], cs as int) < key_of(
                                        gx as int,
                                        gy as int,
                                    ));
                                    assert(key_of_pos(
                                        all[b[j2 - snap.len()] as int],
                                        cs as int,
                                    ) == k as int);
                                } else if j1 >= snap.len() {
                                    assert(result@[j1] == b[j1 - snap.len()]);
                                    assert(result@[j2] == b[j2 - snap.len()]);
                                    assert(b[j1 - snap.len()] < b[j2 - snap.len()]);
                                } else {
                                    assert(result@[j1] == snap[j1] && result@[j2] == snap[j2]);
                                }
                            }
                            // Completeness after this cell.
                            assert forall|i: int|
                                #![trigger all[i]]
                                0 <= i < n && lox <= cell_x_of(all[i], cs as int) <= hix && loy
                                    <= cell_y_of(all[i], cs as int) <= hiy && (cell_x_of(
                                    all[i],
                                    cs as int,
                                ) < gx || (cell_x_of(all[i], cs as int) == gx && cell_y_of(
                                    all[i],
                                    cs as int,
                                ) < gy + 1)) implies result@.contains(i as usize) by {
                                let cx = cell_x_of(all[i], cs as int);
                                let cy = cell_y_of(all[i], cs as int);
                                if cx < gx || (cx == gx && cy < gy) {
                                    assert(snap.contains(i as usize));
                                    lemma_concat_keeps(snap, b, i as usize);
                                } else {
                                    assert(cx == gx && cy == gy);
                                    assert(key_of_pos(all[i], cs as int) == k as int);
                                    assert(self.buckets@[k]@.contains(i as usize));
                                    lemma_concat_keeps_right(snap, b, i as usize);
                                }
                            }
                        }
                    },
                    None => {
                        proof {
                            assert forall|i: int|
                                #![trigger all[i]]
                                0 <= i < n && lox <= cell_x_of(all[i], cs as int) <= hix && loy
                                    <= cell_y_of(all[i], cs as int) <= hiy && (cell_x_of(
                                    all[i],
                                    cs as int,
                                ) < gx || (cell_x_of(all[i], cs as int) == gx && cell_y_of(
                                    all[i],
                                    cs as int,
                                ) < gy + 1)) implies result@.contains(i as usize) by {
                                let cx = cell_x_of(all[i], cs as int);
                                let cy = cell_y_of(all[i], cs as int);
                                if cx < gx || (cx == gx && cy < gy) {
                                } else {
                                    assert(cx == gx && cy == gy);
                                    assert(key_of_pos(all[i], cs as int) == k as int);
                                    assert(self.buckets@.contains_key(k));
                                    assert(false);
                                }
                            }
                        }
                    },
                }
                gy = gy + 1;
            }
            gx = gx + 1;
        }
        proof {
            assert forall|i: int|
                0 <= i < n && dist_sq_spec(#[trigger] all[i], center) <= radius
                    * radius implies result@.contains(i as usize) by {
                lemma_target_cell_in_rect(all[i], center, radius as int, cs as int);
            }
        }
        result
    }
}

/// A position within `radius` of `center` has its cell inside the scanned
/// cell rectangle.
proof fn lemma_target_cell_in_rect(p: Vec2i, center: Vec2i, radius: int, cs: int)
    requires
        in_world(p),
        in_world(center),
        1 <= radius,
        1 <= cs,
        dist_sq_spec(p, center) <= radius * radius,
    ensures
        cell_of(center.x - radius, cs) <= cell_x_of(p, cs) <= cell_of(center.x + radius, cs),
        cell_of(center.y - radius, cs) <= cell_y_of(p, cs) <= cell_of(center.y + radius, cs),
{
    lemma_square_within(p.x - center.x, p.y - center.y, radius);
    lemma_floor_div_ordered(center.x - radius, p.x as int, cs);
    lemma_floor_div_ordered(p.x as int, center.x + radius, cs);
    lemma_floor_div_ordered(center.y - radius, p.y as int, cs);
    lemma_floor_div_ordered(p.y as int, center.y + radius, cs);
}

/// Components of a vector of squared length at most `r * r` lie within `r`.
proof fn lemma_square_within(dx: int, dy: int, r: int)
    by (nonlinear_arith)
    requires
        0 <= r,
        dx * dx + dy * dy <= r * r,
    ensures
        -r <= dx <= r,
        -r <= dy <= r,
{
}

} // verus!
