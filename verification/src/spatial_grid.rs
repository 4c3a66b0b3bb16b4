//! Uniform bucket grid over the world plane for proximity queries.
//!
//! The plane is toroidal: positions wrap modulo the grid dimensions, both
//! when a cell is inserted mid-transition over an edge and when a query ring
//! crosses an edge.  The grid is rebuilt every tick: `clear` then `insert`
//! for every cell.

use vstd::prelude::*;

verus! {

use crate::fixed::{div_floor, mod_euclid, FP_LIMIT};

/// Hard cap on either grid dimension, so a bucket count and a bucket index
/// always fit in `usize`.
pub const GRID_SIDE_LIMIT: usize = 32768;

/// Hard cap on world coordinates and dimensions handed to the grid, leaving
/// ample headroom below `FP_LIMIT` for sums and ring offsets.
pub const COORD_LIMIT: i64 = 1000000000000;

pub struct SpatialGrid {
    /// One list of cell indices per bucket, row-major.
    pub buckets: Vec<Vec<usize>>,
    /// Side length of a square bucket, in fixed-point world units.
    pub bucket_size: i64,
    /// Number of bucket columns: `ceil(world_width / bucket_size)`.
    pub grid_width: usize,
    /// Number of bucket rows: `ceil(world_height / bucket_size)`.
    pub grid_height: usize,
}

/// A row-major bucket index lies below the bucket count.
proof fn lemma_bucket_index_bound(gx: int, gy: int, gw: int, gh: int)
    requires
        0 <= gx < gw,
        0 <= gy < gh,
    ensures
        0 <= gy * gw + gx < gw * gh,
{
    vstd::arithmetic::mul::lemma_mul_inequality(gy, gh - 1, gw);
    vstd::arithmetic::mul::lemma_mul_is_distributive_sub_other_way(gw, gh, 1);
    vstd::arithmetic::mul::lemma_mul_is_commutative(gh, gw);
    vstd::arithmetic::mul::lemma_mul_nonnegative(gy, gw);
    vstd::arithmetic::mul::lemma_mul_basics_3(gw);
}

impl SpatialGrid {
    /// Structural invariant: positive bucket size, both dimensions in
    /// `[1, GRID_SIDE_LIMIT]`, and exactly one bucket list per grid slot.
    pub open spec fn wf(self) -> bool {
        &&& 1 <= self.bucket_size <= COORD_LIMIT
        &&& 1 <= self.grid_width <= GRID_SIDE_LIMIT
        &&& 1 <= self.grid_height <= GRID_SIDE_LIMIT
        &&& self.buckets@.len() == self.grid_width * self.grid_height
    }

    /// Row-major index of the bucket holding grid coordinates
    /// `(cx, cy)`, each wrapped into the grid's bounds.
    pub open spec fn wrapped_bucket_index(self, cx: int, cy: int) -> int {
        (cy % (self.grid_height as int)) * (self.grid_width as int) + (cx % (
        self.grid_width as int))
    }

    /// Index of the bucket for world position `(x, y)`: the position is
    /// divided down to grid coordinates and wrapped.
    pub open spec fn bucket_index_of(self, x: int, y: int) -> int {
        self.wrapped_bucket_index(x / (self.bucket_size as int), y / (self.bucket_size as int))
    }

    /// `e` is recorded in at least one bucket of the grid.
    pub open spec fn in_some_bucket(self, e: usize) -> bool {
        exists|bi: int| 0 <= bi < self.buckets@.len() && (#[trigger] self.buckets@[bi]@).contains(e)
    }

    /// Number of bucket rings a query with this radius visits on each side
    /// of its own bucket.
    pub open spec fn query_range(self, radius: int) -> int {
        (radius + self.bucket_size - 1) / (self.bucket_size as int) + 1
    }

    /// Index of the bucket `di` columns and `dj` rows away from the bucket
    /// of world position `(x, y)`, wrapped on both axes.
    pub open spec fn ring_bucket(self, x: int, y: int, di: int, dj: int) -> int {
        self.wrapped_bucket_index(
            x / (self.bucket_size as int) + di,
            y / (self.bucket_size as int) + dj,
        )
    }

    /// The bucket index of any position lies within the bucket array.
    pub proof fn lemma_bucket_index_of_in_range(self, x: int, y: int)
        requires
            self.wf(),
        ensures
            0 <= self.bucket_index_of(x, y) < self.buckets@.len(),
            0 <= self.wrapped_bucket_index(
                x / (self.bucket_size as int),
                y / (self.bucket_size as int),
            ) < self.buckets@.len(),
    {
        self.lemma_wrapped_bucket_index_in_range(
            x / (self.bucket_size as int),
            y / (self.bucket_size as int),
        );
    }

    /// The wrapped bucket index of any grid coordinates lies within the
    /// bucket array.
    pub proof fn lemma_wrapped_bucket_index_in_range(self, cx: int, cy: int)
        requires
            self.wf(),
        ensures
            0 <= self.wrapped_bucket_index(cx, cy) < self.buckets@.len(),
    {
        vstd::arithmetic::div_mod::lemma_mod_division_less_than_divisor(
            cx,
            self.grid_width as int,
        );
        vstd::arithmetic::div_mod::lemma_mod_division_less_than_divisor(
            cy,
            self.grid_height as int,
        );
        lemma_bucket_index_bound(
            cx % (self.grid_width as int),
            cy % (self.grid_height as int),
            self.grid_width as int,
            self.grid_height as int,
        );
    }

    /// Creates a grid of `ceil(dim / bucket_size)` buckets per axis, all
    /// empty.
    pub fn new(world_width: i64, world_height: i64, bucket_size: i64) -> (r: SpatialGrid)
        requires
            1 <= bucket_size <= COORD_LIMIT,
            1 <= world_width <= COORD_LIMIT,
            1 <= world_height <= COORD_LIMIT,
            (world_width + bucket_size - 1) / (bucket_size as int) <= GRID_SIDE_LIMIT,
            (world_height + bucket_size - 1) / (bucket_size as int) <= GRID_SIDE_LIMIT,
        ensures
            r.wf(),
            r.bucket_size == bucket_size,
            r.grid_width == (world_width + bucket_size - 1) / (bucket_size as int),
            r.grid_height == (world_height + bucket_size - 1) / (bucket_size as int),
            forall|i: int| 0 <= i < r.buckets@.len() ==> (#[trigger] r.buckets@[i]@).len() == 0,
    {
        let gw64: i64 = div_floor(world_width + bucket_size - 1, bucket_size);
        let gh64: i64 = div_floor(world_height + bucket_size - 1, bucket_size);
        proof {
            vstd::arithmetic::div_mod::lemma_div_is_ordered(
                bucket_size as int,
                world_width + bucket_size - 1,
                bucket_size as int,
            );
            vstd::arithmetic::div_mod::lemma_div_by_self(bucket_size as int);
            vstd::arithmetic::div_mod::lemma_div_is_ordered(
                bucket_size as int,
                world_height + bucket_size - 1,
                bucket_size as int,
            );
        }
        let gw: usize = gw64 as usize;
        let gh: usize = gh64 as usize;
        proof {
            vstd::arithmetic::mul::lemma_mul_upper_bound(
                gw as int,
                GRID_SIDE_LIMIT as int,
                gh as int,
                GRID_SIDE_LIMIT as int,
            );
            vstd::arithmetic::mul::lemma_mul_nonnegative(gw as int, gh as int);
        }
        let count: usize = gw * gh;
        let mut buckets: Vec<Vec<usize>> = Vec::new();
        let mut i: usize = 0;
        while i < count
            invariant
                i <= count,
                buckets@.len() == i,
                forall|k: int| 0 <= k < i ==> (#[trigger] buckets@[k]@).len() == 0,
            decreases count - i,
        {
            buckets.push(Vec::new());
            i = i + 1;
        }
        SpatialGrid { buckets, bucket_size, grid_width: gw, grid_height: gh }
    }

    /// Empties every bucket, keeping the grid's shape.
    pub fn clear(&mut self)
        requires
            old(self).wf(),
        ensures
            final(self).wf(),
            final(self).bucket_size == old(self).bucket_size,
            final(self).grid_width == old(self).grid_width,
            final(self).grid_height == old(self).grid_height,
            final(self).buckets@.len() == old(self).buckets@.len(),
            forall|i: int|
                0 <= i < final(self).buckets@.len() ==> (#[trigger] final(self).buckets@[i]@).len() == 0,
    {
        let mut i: usize = 0;
        while i < self.buckets.len()
            invariant
                self.wf(),
                self.bucket_size == old(self).bucket_size,
                self.grid_width == old(self).grid_width,
                self.grid_height == old(self).grid_height,
                self.buckets@.len() == old(self).buckets@.len(),
                i <= self.buckets@.len(),
                forall|k: int| 0 <= k < i ==> (#[trigger] self.buckets@[k]@).len() == 0,
            decreases self.buckets@.len() - i,
        {
            self.buckets[i].clear();
            i = i + 1;
        }
    }

    /// Bucket index for world position `(x, y)`, wrapped into grid bounds.
    fn bucket_at(&self, x: i64, y: i64) -> (bi: usize)
        requires
            self.wf(),
            -FP_LIMIT <= x <= FP_LIMIT,
            -FP_LIMIT <= y <= FP_LIMIT,
        ensures
            bi == self.bucket_index_of(x as int, y as int),
            bi < self.buckets@.len(),
    {
        let gx = div_floor(x, self.bucket_size);
        let gy = div_floor(y, self.bucket_size);
        self.wrapped_bucket(gx, gy)
    }

    /// Bucket index for unwrapped grid coordinates `(cx, cy)`.
    fn wrapped_bucket(&self, cx: i64, cy: i64) -> (bi: usize)
        requires
            self.wf(),
            -FP_LIMIT <= cx <= FP_LIMIT,
            -FP_LIMIT <= cy <= FP_LIMIT,
        ensures
            bi == self.wrapped_bucket_index(cx as int, cy as int),
            bi < self.buckets@.len(),
    {
        let wx: i64 = mod_euclid(cx, self.grid_width as i64);
        let wy: i64 = mod_euclid(cy, self.grid_height as i64);
        proof {
            lemma_bucket_index_bound(
                wx as int,
                wy as int,
                self.grid_width as int,
                self.grid_height as int,
            );
            assert((wy as int) * (self.grid_width as int) + (wx as int) < self.buckets@.len());
        }
        let bucket_count: usize = self.buckets.len();
        proof {
            assert((wy as int) * (self.grid_width as int) <= bucket_count);
        }
        (wy as usize) * self.grid_width + (wx as usize)
    }

    /// Records `cell_index` in the bucket holding `(x, y)`; every other
    /// bucket is untouched.
    pub fn insert(&mut self, x: i64, y: i64, cell_index: usize)
        requires
            old(self).wf(),
            -FP_LIMIT <= x <= FP_LIMIT,
            -FP_LIMIT <= y <= FP_LIMIT,
        ensures
            final(self).wf(),
            final(self).bucket_size == old(self).bucket_size,
            final(self).grid_width == old(self).grid_width,
            final(self).grid_height == old(self).grid_height,
            final(self).buckets@.len() == old(self).buckets@.len(),
            final(self).buckets@[old(self).bucket_index_of(x as int, y as int)]@ == old(self).buckets@[old(self).bucket_index_of(x as int, y as int)]@.push(cell_index),
            forall|i: int|
                0 <= i < old(self).buckets@.len() && i != old(self).bucket_index_of(
                    x as int,
                    y as int,
                ) ==> (#[trigger] final(self).buckets@[i]@) == old(self).buckets@[i]@,
    {
        let bi = self.bucket_at(x, y);
        self.buckets[bi].push(cell_index);
    }

    /// Union of the contents of every bucket within `ceil(radius /
    /// bucket_size) + 1` rings of the query position's bucket, with
    /// wrap-around on both axes.  The result may hold duplicates; callers
    /// filter by index.  Everything returned came out of some bucket, and
    /// everything in a covered bucket is returned.
    pub fn query_nearby(&self, x: i64, y: i64, radius: i64) -> (r: Vec<usize>)
        requires
            self.wf(),
            -COORD_LIMIT <= x <= COORD_LIMIT,
            -COORD_LIMIT <= y <= COORD_LIMIT,
            0 <= radius <= COORD_LIMIT,
            (radius + self.bucket_size - 1) / (self.bucket_size as int) <= 1000000,
        ensures
            forall|k: int| 0 <= k < r@.len() ==> self.in_some_bucket(#[trigger] r@[k]),
            forall|di: int, dj: int, e: usize|
                (-self.query_range(radius as int) <= di <= self.query_range(radius as int)
                    && -self.query_range(radius as int) <= dj <= self.query_range(radius as int)
                    && #[trigger] self.buckets@[self.ring_bucket(x as int, y as int, di, dj)]@
                        .contains(e)) ==> r@.contains(e),
    {
        let range: i64 = div_floor(radius + self.bucket_size - 1, self.bucket_size) + 1;
        proof {
            vstd::arithmetic::div_mod::lemma_div_pos_is_pos(
                radius + self.bucket_size - 1,
                self.bucket_size as int,
            );
        }
        let gx = div_floor(x, self.bucket_size);
        let gy = div_floor(y, self.bucket_size);
        let ghost grange = range as int;
        let mut r: Vec<usize> = Vec::new();
        let mut dy: i64 = -range;
        while dy <= range
            invariant
                self.wf(),
                1 <= range <= 1000001,
                -COORD_LIMIT <= gx <= COORD_LIMIT,
                -COORD_LIMIT <= gy <= COORD_LIMIT,
                grange == range,
                -range <= dy <= range + 1,
                forall|k: int| 0 <= k < r@.len() ==> self.in_some_bucket(#[trigger] r@[k]),
                gx == (x as int) / (self.bucket_size as int),
                gy == (y as int) / (self.bucket_size as int),
                grange == self.query_range(radius as int),
                forall|di: int, dj: int, e: usize|
                    (-grange <= di <= grange && -grange <= dj < dy
                        && #[trigger] self.buckets@[self.ring_bucket(x as int, y as int, di, dj)]@
                            .contains(e)) ==> r@.contains(e),
            decreases range + 1 - dy,
        {
            let mut dx: i64 = -range;
            while dx <= range
                invariant
                    self.wf(),
                    1 <= range <= 1000001,
                    -COORD_LIMIT <= gx <= COORD_LIMIT,
                    -COORD_LIMIT <= gy <= COORD_LIMIT,
                    grange == range,
                    -range <= dy <= range,
                    -range <= dx <= range + 1,
                    forall|k: int| 0 <= k < r@.len() ==> self.in_some_bucket(#[trigger] r@[k]),
                    gx == (x as int) / (self.bucket_size as int),
                    gy == (y as int) / (self.bucket_size as int),
                    grange == self.query_range(radius as int),
                    forall|di: int, dj: int, e: usize|
                        (-grange <= di <= grange && -grange <= dj < dy
                            && #[trigger] self.buckets@[self.ring_bucket(
                            x as int,
                            y as int,
                            di,
                            dj,
                        )]@.contains(e)) ==> r@.contains(e),
                    forall|di: int, e: usize|
                        (-grange <= di < dx && #[trigger] self.buckets@[self.ring_bucket(
                            x as int,
                            y as int,
                            di,
                            dy as int,
                        )]@.contains(e)) ==> r@.contains(e),
                decreases range + 1 - dx,
            {
                let bi = self.wrapped_bucket(gx + dx, gy + dy);
                let ghost r_before = r@;
                let bucket: &Vec<usize> = &self.buckets[bi];
                let mut k: usize = 0;
                while k < bucket.len()
                    invariant
                        k <= bucket@.len(),
                        r@ == r_before + bucket@.take(k as int),
                    decreases bucket@.len() - k,
                {
                    let e: usize = bucket[k];
                    r.push(e);
                    proof {
                        assert(bucket@.take(k as int).push(e) =~= bucket@.take(k as int + 1));
                    }
                    k = k + 1;
                }
                proof {
                    assert(bucket@.take(bucket@.len() as int) =~= bucket@);
                    assert(r@ =~= r_before + bucket@);
                    let gbi = self.ring_bucket(x as int, y as int, dx as int, dy as int);
                    assert(gbi == self.wrapped_bucket_index(gx + dx, gy + dy));
                    assert(0 <= gbi < self.buckets@.len());
                    assert(bucket@ == self.buckets@[gbi]@);
                    assert forall|e: usize| #[trigger] r_before.contains(e) implies r@.contains(
                        e,
                    ) by {
                        let i = choose|i: int| 0 <= i < r_before.len() && r_before[i] == e;
                        assert(r@[i] == e);
                    }
                    assert forall|e: usize| #[trigger] bucket@.contains(e) implies r@.contains(
                        e,
                    ) by {
                        let i = choose|i: int| 0 <= i < bucket@.len() && bucket@[i] == e;
                        assert(r@[r_before.len() + i] == e);
                    }
                    assert forall|k2: int| 0 <= k2 < r@.len() implies self.in_some_bucket(
                        #[trigger] r@[k2],
                    ) by {
                        if k2 < r_before.len() {
                            assert(r_before[k2] == r@[k2]);
                        } else {
                            let i = k2 - r_before.len();
                            assert(bucket@[i] == r@[k2]);
                            assert(self.buckets@[gbi]@.contains(r@[k2]));
                        }
                    }
                    assert forall|di: int, e: usize|
                        (-grange <= di < dx + 1 && #[trigger] self.buckets@[self.ring_bucket(
                            x as int,
                            y as int,
                            di,
                            dy as int,
                        )]@.contains(e)) implies r@.contains(e) by {
                        if di < dx {
                            assert(r_before.contains(e));
                        } else {
                            assert(bucket@.contains(e));
                        }
                    }
                    assert forall|di: int, dj: int, e: usize|
                        (-grange <= di <= grange && -grange <= dj < dy
                            && #[trigger] self.buckets@[self.ring_bucket(
                            x as int,
                            y as int,
                            di,
                            dj,
                        )]@.contains(e)) implies r@.contains(e) by {
                        assert(r_before.contains(e));
                    }
                }
                dx = dx + 1;
            }
            proof {
                assert forall|di: int, dj: int, e: usize|
                    (-grange <= di <= grange && -grange <= dj < dy + 1
                        && #[trigger] self.buckets@[self.ring_bucket(
                        x as int,
                        y as int,
                        di,
                        dj,
                    )]@.contains(e)) implies r@.contains(e) by {
                }
            }
            dy = dy + 1;
        }
        r
    }
}

} // verus!
