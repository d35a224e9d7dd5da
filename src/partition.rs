use crate::config::Geometry;
use vstd::arithmetic::div_mod::lemma_fundamental_div_mod_converse;
use vstd::prelude::*;

verus! {

/// A run of consecutive cells of the streamed slice, in row-major order, owned by one worker.
#[derive(Clone, Copy, Debug, PartialEq, Eq, Structural)]
pub struct Region {
    /// Position within the slice of the first cell.
    pub start: usize,
    /// Number of cells.
    pub len: usize,
    /// Framebuffer column of the first cell.
    pub x0: u16,
    /// Framebuffer row of the first cell.
    pub y0: u16,
}

impl Region {
    /// Whether the `i`-th cell of the slice belongs to the region.
    pub open spec fn spec_holds(&self, i: int) -> bool {
        self.start <= i < self.start + self.len
    }

    /// One past the last cell of the region, cut at the end of the slice.
    pub open spec fn spec_end(&self, g: Geometry) -> int {
        if self.start + self.len <= g.spec_shard_cells() {
            self.start + self.len
        } else {
            g.spec_shard_cells()
        }
    }

    pub fn end(&self, g: &Geometry) -> (r: usize)
        requires
            g.wf(),
        ensures
            r == self.spec_end(*g),
    {
        let cells = g.shard_cells();
        if self.start <= cells && self.len <= cells - self.start {
            self.start + self.len
        } else {
            cells
        }
    }
}

/// Number of cells per region when `total` cells go to `workers` workers: `total / workers`
/// rounded up.
pub open spec fn chunk_size(total: int, workers: int) -> int {
    (total + workers - 1) / workers
}

/// Region `k` of a split into chunks of `chunk` cells: it starts at `k * chunk` and the last
/// one stops at `total`.
pub open spec fn is_chunk(g: Geometry, r: Region, k: int, chunk: int) -> bool {
    let total = g.spec_shard_cells();
    &&& r.start == k * chunk
    &&& r.start < total
    &&& r.len == if total - r.start < chunk {
        total - r.start
    } else {
        chunk
    }
    &&& r.x0 == g.spec_cell_x(r.start as int)
    &&& r.y0 == g.spec_cell_y(r.start as int)
}

/// Whether some region holds the `i`-th cell of the slice.
pub open spec fn covered(regions: Seq<Region>, i: int) -> bool {
    exists|k: int| 0 <= k < regions.len() && #[trigger] regions[k].spec_holds(i)
}

/// The regions split the streamed slice: no region reaches outside it, every cell of the
/// slice (and so every framebuffer cell inside the slice) lies in a region, and no cell lies
/// in two.
pub open spec fn tiles(g: Geometry, regions: Seq<Region>) -> bool {
    &&& forall|k: int, i: int|
        0 <= k < regions.len() && #[trigger] regions[k].spec_holds(i) ==> 0 <= i
            < g.spec_shard_cells() && g.spec_in_slice(g.spec_cell_index(i))
    &&& forall|i: int| 0 <= i < g.spec_shard_cells() ==> #[trigger] covered(regions, i)
    &&& forall|j: int| g.spec_in_slice(j) ==> #[trigger] covered(regions, g.spec_local_index(j))
    &&& forall|k1: int, k2: int, i: int|
        0 <= k1 < regions.len() && 0 <= k2 < regions.len() && #[trigger] regions[k1].spec_holds(i)
            && #[trigger] regions[k2].spec_holds(i) ==> k1 == k2
}

proof fn lemma_chunk_owner(chunk: int, k: int, i: int)
    requires
        chunk > 0,
        0 <= k,
        k * chunk <= i < k * chunk + chunk,
    ensures
        k == i / chunk,
{
    lemma_fundamental_div_mod_converse(i, chunk, k, i - k * chunk);
}

/// Splits the streamed slice between `worker_count` workers. The slice is taken in
/// row-major order and cut into runs of `ceil(cells / worker_count)` cells, the last run
/// taking what is left; each region's origin is the column and row of its first cell.
/// Every cell of the slice lies in exactly one region, and no region reaches outside it.
pub fn partition(g: &Geometry, worker_count: u16) -> (r: Vec<Region>)
    requires
        g.wf(),
        worker_count >= 1,
    ensures
        r@.len() >= 1,
        forall|k: int|
            0 <= k < r@.len() ==> is_chunk(
                *g,
                #[trigger] r@[k],
                k,
                chunk_size(g.spec_shard_cells(), worker_count as int),
            ),
        r@.last().start + r@.last().len == g.spec_shard_cells(),
        tiles(*g, r@),
{
    proof {
        g.lemma_shard_bounds();
        assert(g.spec_shard_cells() >= 1) by (nonlinear_arith)
            requires
                g.spec_shard_width() >= 1,
                g.height >= 1,
        ;
    }
    let total = g.shard_cells();
    let workers = worker_count as usize;
    let chunk = (total + (workers - 1)) / workers;
    let ghost c = chunk as int;
    assert(chunk == chunk_size(total as int, workers as int));
    proof {
        let (t, n) = (total as int, workers as int);
        assert(c >= 1) by (nonlinear_arith)
            requires
                t >= 1,
                n >= 1,
                c == (t + n - 1) / n,
        ;
    }
    let w = g.shard_width() as usize;
    let s0 = g.shard_start();
    let mut r: Vec<Region> = Vec::new();
    let mut start: usize = 0;
    assert(r@.len() * c == 0) by (nonlinear_arith)
        requires
            r@.len() == 0,
    ;
    while start < total
        invariant
            g.wf(),
            total == g.spec_shard_cells(),
            chunk == c,
            c >= 1,
            w == g.spec_shard_width(),
            s0 == g.spec_shard_start(),
            start <= total,
            start < total ==> start == r@.len() * c,
            start == total ==> r@.len() >= 1 && r@.last().start + r@.last().len == total,
            forall|k: int| 0 <= k < r@.len() ==> is_chunk(*g, #[trigger] r@[k], k, c),
            forall|i: int| 0 <= i < start ==> #[trigger] covered(r@, i),
        decreases total - start,
    {
        proof {
            g.lemma_cell_index(start as int);
        }
        let len = if total - start < chunk {
            total - start
        } else {
            chunk
        };
        let region = Region {
            start,
            len,
            x0: s0 + (start % w) as u16,
            y0: (start / w) as u16,
        };
        let ghost k_new = r@.len() as int;
        let ghost before = r@;
        r.push(region);
        proof {
            assert(r@[k_new] == region);
            assert forall|i: int| 0 <= i < start + len implies #[trigger] covered(r@, i) by {
                if i >= start {
                    assert(r@[k_new].spec_holds(i));
                } else {
                    assert(covered(before, i));
                    let k = choose|k: int| 0 <= k < before.len() && #[trigger] before[k].spec_holds(i);
                    assert(before[k] == r@[k]);
                }
            }
            if start + len < total {
                assert(start + len == (k_new + 1) * c) by (nonlinear_arith)
                    requires
                        start == k_new * c,
                        len == c,
                ;
            }
        }
        start = start + len;
    }
    proof {
        assert forall|k: int, i: int|
            0 <= k < r@.len() && #[trigger] r@[k].spec_holds(i) implies 0 <= i < total
            && g.spec_in_slice(g.spec_cell_index(i)) by {
            assert(is_chunk(*g, r@[k], k, c));
            g.lemma_cell_index(i);
        }
        assert forall|k1: int, k2: int, i: int|
            0 <= k1 < r@.len() && 0 <= k2 < r@.len() && #[trigger] r@[k1].spec_holds(i)
                && #[trigger] r@[k2].spec_holds(i) implies k1 == k2 by {
            assert(is_chunk(*g, r@[k1], k1, c));
            assert(is_chunk(*g, r@[k2], k2, c));
            lemma_chunk_owner(c, k1, i);
            lemma_chunk_owner(c, k2, i);
        }
        assert forall|j: int| g.spec_in_slice(j) implies #[trigger] covered(
            r@,
            g.spec_local_index(j),
        ) by {
            g.lemma_local_index(j);
        }
    }
    r
}

} // verus!
