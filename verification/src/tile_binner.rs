//! Binning of projected splats into screen tiles.
//!
//! Each splat covers a rectangle of tiles and has a 16-bit depth bucket. Per
//! covered tile it emits one pair: the key holds the tile in its upper and
//! the depth in its lower half, the payload is the splat's index. Write
//! offsets come from a prefix scan of the tile counts; a stable sort by key
//! then groups the pairs by tile, nearest first, and a last pass records the
//! run of pairs of every tile.
use vstd::prelude::*;

use crate::dispatch::group_count;
#[allow(unused_imports)]
use crate::dispatch::{groups_for, lemma_groups_cover};
use crate::pipelines::Pass;
use crate::prefix_scan::{PrefixScan, MAX_SCAN_LEN};
#[allow(unused_imports)]
use crate::prefix_scan::{exclusive_scan, lemma_prefix_monotone, modulus, prefix, wrapped_sum};
use crate::radix_sort::RadixSort;
#[allow(unused_imports)]
use crate::radix_sort::{
    after_passes, has_key, is_stable_sort, key_sorted, law_passes_sort, pairs,
};
#[allow(unused_imports)]
use crate::slab::zeros;

verus! {

/// Image-space binning configuration.
#[derive(Clone, Copy, Debug, PartialEq, Eq, Structural)]
pub struct TilingParams {
    pub width: u32,
    pub height: u32,
    pub tile_size: u32,
    /// Depth, as float bits, past which splats share the last depth bucket.
    pub depth_max: u32,
}

impl TilingParams {
    /// Tiles per row.
    pub open spec fn columns(self) -> int {
        groups_for(self.width as int, self.tile_size as int)
    }

    /// Rows of tiles.
    pub open spec fn rows(self) -> int {
        groups_for(self.height as int, self.tile_size as int)
    }

    pub fn tiles_x(&self) -> (n: u32)
        requires
            self.tile_size > 0,
        ensures
            n == self.columns(),
    {
        group_count(self.width, self.tile_size)
    }

    pub fn tiles_y(&self) -> (n: u32)
        requires
            self.tile_size > 0,
        ensures
            n == self.rows(),
    {
        group_count(self.height, self.tile_size)
    }

    pub fn num_tiles(&self) -> (n: u32)
        requires
            self.tile_size > 0,
            self.columns() * self.rows() <= u32::MAX,
        ensures
            n == self.columns() * self.rows(),
    {
        self.tiles_x() * self.tiles_y()
    }
}

/// The tiles a splat covers, columns `x0..x1` and rows `y0..y1`, and its depth
/// bucket. An invisible splat covers none.
#[derive(Clone, Copy, Debug, PartialEq, Eq, Structural)]
pub struct Footprint {
    pub x0: u32,
    pub y0: u32,
    pub x1: u32,
    pub y1: u32,
    pub depth: u32,
}

impl Footprint {
    /// The rectangle lies on a grid of `columns` by `rows` tiles and the depth
    /// is a bucket.
    pub open spec fn fits(self, columns: int, rows: int) -> bool {
        &&& self.x0 <= self.x1 <= columns
        &&& self.y0 <= self.y1 <= rows
        &&& self.depth < 0x1_0000
    }

    /// Number of covered tiles.
    pub open spec fn cells(self) -> int {
        (self.x1 - self.x0) * (self.y1 - self.y0)
    }

    /// The `k`-th covered tile, row by row.
    pub open spec fn cell(self, columns: int, k: int) -> int {
        (self.y0 + k / (self.x1 - self.x0)) * columns + self.x0 + k % (self.x1 - self.x0)
    }

    /// Whether the tile in column `tx` and row `ty` is covered.
    pub open spec fn covers(self, tx: int, ty: int) -> bool {
        self.x0 <= tx < self.x1 && self.y0 <= ty < self.y1
    }
}

/// The sort key of a depth bucket in a tile.
pub open spec fn tile_key(tile: int, depth: int) -> u32 {
    (tile * 0x1_0000 + depth) as u32
}

/// The tile of a sort key.
pub open spec fn key_tile(key: u32) -> int {
    key as int / 0x1_0000
}

/// The depth bucket of a sort key.
pub open spec fn key_depth(key: u32) -> int {
    key as int % 0x1_0000
}

/// The pairs of splat `i`.
pub open spec fn splat_pairs(f: Footprint, i: int, columns: int) -> Seq<(u32, u32)> {
    Seq::new(
        f.cells() as nat,
        |k: int| (tile_key(f.cell(columns, k), f.depth as int), i as u32),
    )
}

/// The pairs of the first `n` splats, in splat order.
pub open spec fn emitted(fs: Seq<Footprint>, columns: int, n: int) -> Seq<(u32, u32)>
    decreases n,
{
    if n <= 0 {
        Seq::empty()
    } else {
        emitted(fs, columns, n - 1) + splat_pairs(fs[n - 1], n - 1, columns)
    }
}

/// `b..e` is the run of keys of tile `t`; a tile without keys has the run
/// `0..0`.
pub open spec fn is_run(keys: Seq<u32>, t: int, b: u32, e: u32) -> bool {
    &&& b <= e <= keys.len()
    &&& forall|i: int| 0 <= i < keys.len() ==> (b <= i < e) == (key_tile(#[trigger] keys[i]) == t)
    &&& b == e ==> b == 0
}

/// Sorted pairs and the run of every tile.
pub struct TileBinningResult {
    pub sorted_keys: Vec<u32>,
    pub sorted_payloads: Vec<u32>,
    /// Begin and end of tile `t` at positions `2t` and `2t + 1`.
    pub tile_ranges: Vec<u32>,
    pub total_pairs: u32,
    pub num_tiles: u32,
}

proof fn lemma_cells(f: Footprint, columns: int, rows: int)
    requires
        f.fits(columns, rows),
    ensures
        0 <= f.cells() <= columns * rows,
{
    let w = f.x1 - f.x0;
    let h = f.y1 - f.y0;
    assert(0 <= w * h <= columns * rows) by (nonlinear_arith)
        requires
            0 <= w <= columns,
            0 <= h <= rows,
    ;
}

proof fn lemma_cell(f: Footprint, columns: int, rows: int, k: int)
    requires
        f.fits(columns, rows),
        0 <= k < f.cells(),
    ensures
        f.x1 - f.x0 > 0,
        0 <= k / (f.x1 - f.x0) < f.y1 - f.y0,
        0 <= k % (f.x1 - f.x0) < f.x1 - f.x0,
        0 <= f.cell(columns, k) < columns * rows,
{
    let w = f.x1 - f.x0;
    let h = f.y1 - f.y0;
    assert(w > 0) by (nonlinear_arith)
        requires
            w >= 0,
            0 <= k < w * h,
    ;
    let q = k / w;
    let r = k % w;
    vstd::arithmetic::div_mod::lemma_fundamental_div_mod(k, w);
    vstd::arithmetic::div_mod::lemma_mod_bound(k, w);
    vstd::arithmetic::div_mod::lemma_div_pos_is_pos(k, w);
    assert(q < h) by (nonlinear_arith)
        requires
            k == w * q + r,
            0 <= r,
            k < w * h,
            w > 0,
    ;
    let ty = f.y0 + q;
    let tx = f.x0 + r;
    assert(0 <= ty * columns + tx < columns * rows) by (nonlinear_arith)
        requires
            0 <= ty < rows,
            0 <= tx < columns,
    ;
    assert(f.cell(columns, k) == ty * columns + tx);
}

proof fn lemma_emitted_grows(fs: Seq<Footprint>, columns: int, rows: int, i: int, n: int)
    requires
        0 <= i <= n <= fs.len(),
        forall|k: int| 0 <= k < fs.len() ==> (#[trigger] fs[k]).fits(columns, rows),
    ensures
        emitted(fs, columns, i).len() <= emitted(fs, columns, n).len(),
        emitted(fs, columns, n).subrange(0, emitted(fs, columns, i).len() as int) == emitted(
            fs,
            columns,
            i,
        ),
    decreases n - i,
{
    if i < n {
        lemma_emitted_grows(fs, columns, rows, i, n - 1);
        let p = emitted(fs, columns, n - 1);
        let q = emitted(fs, columns, n);
        let l = emitted(fs, columns, i).len() as int;
        assert(q.subrange(0, p.len() as int) =~= p);
        assert(q.subrange(0, l) =~= p.subrange(0, l));
    } else {
        assert(emitted(fs, columns, n).subrange(0, emitted(fs, columns, n).len() as int)
            =~= emitted(fs, columns, n));
    }
}

/// The running sum of the tile counts is the number of pairs before a splat.
proof fn lemma_offsets(
    fs: Seq<Footprint>,
    columns: int,
    rows: int,
    counts: Seq<u32>,
    i: int,
)
    requires
        0 <= i <= fs.len(),
        fs.len() <= counts.len(),
        forall|k: int| 0 <= k < fs.len() ==> (#[trigger] fs[k]).fits(columns, rows),
        forall|k: int| 0 <= k < fs.len() ==> counts[k] == (#[trigger] fs[k]).cells(),
    ensures
        prefix(counts, i) == emitted(fs, columns, i).len(),
    decreases i,
{
    if i > 0 {
        lemma_offsets(fs, columns, rows, counts, i - 1);
        assert(fs[i - 1].fits(columns, rows));
        lemma_cells(fs[i - 1], columns, rows);
        assert(counts[i - 1] == fs[i - 1].cells());
    }
}

/// Number of tiles that each splat covers.
pub fn count_tiles(fs: &[Footprint], columns: u32, rows: u32) -> (counts: Vec<u32>)
    requires
        columns * rows <= u32::MAX,
        forall|k: int| 0 <= k < fs.len() ==> (#[trigger] fs@[k]).fits(columns as int, rows as int),
    ensures
        counts.len() == fs.len(),
        forall|k: int| 0 <= k < fs.len() ==> counts@[k] == (#[trigger] fs@[k]).cells(),
{
    let mut counts: Vec<u32> = Vec::new();
    let mut i: usize = 0;
    while i < fs.len()
        invariant
            i <= fs.len(),
            columns * rows <= u32::MAX,
            counts.len() == i,
            forall|k: int| 0 <= k < fs.len() ==> (#[trigger] fs@[k]).fits(columns as int, rows as int),
            forall|k: int| 0 <= k < i ==> counts@[k] == (#[trigger] fs@[k]).cells(),
        decreases fs.len() - i,
    {
        let f: Footprint = fs[i];
        proof {
            lemma_cells(f, columns as int, rows as int);
        }
        counts.push((f.x1 - f.x0) * (f.y1 - f.y0));
        i = i + 1;
    }
    counts
}

/// Sum of the tile counts, if it does not exceed the longest sortable run.
pub fn total_tiles(counts: &Vec<u32>) -> (total: Option<u32>)
    ensures
        match total {
            Some(n) => n == prefix(counts@, counts.len() as int) && n <= MAX_SCAN_LEN,
            None => prefix(counts@, counts.len() as int) > MAX_SCAN_LEN,
        },
{
    let mut total: u32 = 0;
    let mut i: usize = 0;
    while i < counts.len()
        invariant
            i <= counts.len(),
            total == prefix(counts@, i as int),
            total <= MAX_SCAN_LEN,
        decreases counts.len() - i,
    {
        let c: u32 = counts[i];
        proof {
            lemma_prefix_monotone(counts@, i + 1, counts.len() as int);
        }
        if c > MAX_SCAN_LEN - total {
            return None;
        }
        total = total + c;
        i = i + 1;
    }
    Some(total)
}

fn make_key(tile: u32, depth: u32) -> (key: u32)
    requires
        tile < 0x1_0000,
        depth < 0x1_0000,
    ensures
        key == tile_key(tile as int, depth as int),
{
    assert((tile << 16) | depth == tile * 0x1_0000 + depth) by (bit_vector)
        requires
            tile < 0x1_0000u32,
            depth < 0x1_0000u32,
    ;
    (tile << 16) | depth
}

fn tile_of(key: u32) -> (tile: u32)
    ensures
        tile == key_tile(key),
        tile < 0x1_0000,
{
    assert(key >> 16 == key / 0x1_0000) by (bit_vector);
    key >> 16
}

/// Writes the pairs of every splat behind its offset.
fn emit_pairs(
    fs: &[Footprint],
    columns: u32,
    rows: u32,
    offsets: &Vec<u32>,
    total: u32,
) -> (out: (Vec<u32>, Vec<u32>))
    requires
        columns * rows <= 0x1_0000,
        fs.len() <= MAX_SCAN_LEN,
        offsets.len() == fs.len(),
        forall|k: int| 0 <= k < fs.len() ==> (#[trigger] fs@[k]).fits(columns as int, rows as int),
        total == emitted(fs@, columns as int, fs.len() as int).len(),
        forall|k: int|
            0 <= k < fs.len() ==> #[trigger] offsets@[k] == emitted(fs@, columns as int, k).len(),
    ensures
        out.0.len() == total,
        out.1.len() == total,
        pairs(out.0@, out.1@, total as int) == emitted(fs@, columns as int, fs.len() as int),
{
    let mut keys: Vec<u32> = vec![0u32; total as usize];
    let mut vals: Vec<u32> = vec![0u32; total as usize];
    let ghost all = emitted(fs@, columns as int, fs.len() as int);
    let mut i: usize = 0;
    while i < fs.len()
        invariant
            i <= fs.len(),
            columns * rows <= 0x1_0000,
            fs.len() <= MAX_SCAN_LEN,
            offsets.len() == fs.len(),
            keys.len() == total,
            vals.len() == total,
            all == emitted(fs@, columns as int, fs.len() as int),
            total == all.len(),
            forall|k: int| 0 <= k < fs.len() ==> (#[trigger] fs@[k]).fits(columns as int, rows as int),
            forall|k: int|
                0 <= k < fs.len() ==> #[trigger] offsets@[k] == emitted(
                    fs@,
                    columns as int,
                    k,
                ).len(),
            forall|k: int|
                0 <= k < emitted(fs@, columns as int, i as int).len() ==> #[trigger] all[k] == (
                    keys@[k],
                    vals@[k],
                ),
        decreases fs.len() - i,
    {
        let f: Footprint = fs[i];
        let base: u32 = offsets[i];
        let ghost mine = splat_pairs(f, i as int, columns as int);
        let ghost before = emitted(fs@, columns as int, i as int);
        proof {
            assert(fs@[i as int].fits(columns as int, rows as int));
            lemma_emitted_grows(fs@, columns as int, rows as int, i as int, fs.len() as int);
            lemma_emitted_grows(fs@, columns as int, rows as int, i + 1, fs.len() as int);
            lemma_cells(f, columns as int, rows as int);
            assert(emitted(fs@, columns as int, i + 1) == before + mine);
            assert forall|k: int| 0 <= k < mine.len() implies all[before.len() + k]
                == #[trigger] mine[k] by {
                assert((before + mine)[before.len() + k] == mine[k]);
                assert(all.subrange(0, (before + mine).len() as int)[before.len() + k]
                    == all[before.len() + k]);
            }
        }
        let w: u32 = f.x1 - f.x0;
        let cells: u32 = w * (f.y1 - f.y0);
        let mut k: u32 = 0;
        while k < cells
            invariant
                i < fs.len(),
                f == fs@[i as int],
                f.fits(columns as int, rows as int),
                columns * rows <= 0x1_0000,
                w == f.x1 - f.x0,
                cells == f.cells(),
                k <= cells,
                keys.len() == total,
                vals.len() == total,
                base == before.len(),
                before.len() + mine.len() <= total,
                mine == splat_pairs(f, i as int, columns as int),
                total == all.len(),
                fs.len() <= MAX_SCAN_LEN,
                forall|j: int| 0 <= j < before.len() ==> #[trigger] all[j] == (keys@[j], vals@[j]),
                forall|j: int|
                    0 <= j < mine.len() ==> all[before.len() + j] == #[trigger] mine[j],
                forall|j: int|
                    before.len() <= j < before.len() + k ==> #[trigger] all[j] == (
                        keys@[j],
                        vals@[j],
                    ),
            decreases cells - k,
        {
            proof {
                lemma_cell(f, columns as int, rows as int, k as int);
                assert(all[before.len() + k] == mine[k as int]);
                let q = k as int / w as int;
                let ty = f.y0 + q;
                assert(ty * columns + columns <= columns * rows) by (nonlinear_arith)
                    requires
                        ty + 1 <= rows,
                        0 <= columns,
                ;
            }
            let ty: u32 = f.y0 + k / w;
            let tx: u32 = f.x0 + k % w;
            let tile: u32 = ty * columns + tx;
            let slot: usize = (base + k) as usize;
            keys.set(slot, make_key(tile, f.depth));
            vals.set(slot, i as u32);
            k = k + 1;
        }
        i = i + 1;
    }
    assert(pairs(keys@, vals@, total as int) =~= all);
    (keys, vals)
}

/// Records the run of every tile among sorted keys.
fn tile_runs(keys: &Vec<u32>, total: u32, num_tiles: u32) -> (ranges: Vec<u32>)
    requires
        total == keys.len(),
        num_tiles * 2 <= usize::MAX,
        forall|i: int, j: int| 0 <= i <= j < keys.len() ==> keys@[i] <= keys@[j],
        forall|i: int| 0 <= i < keys.len() ==> key_tile(#[trigger] keys@[i]) < num_tiles,
    ensures
        ranges.len() == num_tiles * 2,
        forall|t: int|
            0 <= t < num_tiles ==> is_run(keys@, t, #[trigger] ranges@[2 * t], ranges@[2 * t + 1]),
{
    let mut ranges: Vec<u32> = vec![0u32; (num_tiles as usize) * 2];
    let mut i: u32 = 0;
    while i < total
        invariant
            i <= total,
            total == keys.len(),
            num_tiles * 2 <= usize::MAX,
            ranges.len() == num_tiles * 2,
            forall|a: int, b: int| 0 <= a <= b < keys.len() ==> keys@[a] <= keys@[b],
            forall|a: int| 0 <= a < keys.len() ==> key_tile(#[trigger] keys@[a]) < num_tiles,
            forall|t: int|
                0 <= t < num_tiles ==> is_run(
                    keys@.take(i as int),
                    t,
                    #[trigger] ranges@[2 * t],
                    ranges@[2 * t + 1],
                ),
            0 < i < total ==> key_tile(keys@[i - 1]) < key_tile(keys@[i as int]),
        decreases total - i,
    {
        let tile: u32 = tile_of(keys[i as usize]);
        let mut j: u32 = i + 1;
        while j < total && tile_of(keys[j as usize]) == tile
            invariant
                i < j <= total,
                total == keys.len(),
                forall|a: int| i <= a < j ==> key_tile(#[trigger] keys@[a]) == tile,
            decreases total - j,
        {
            j = j + 1;
        }
        let ghost prev = ranges@;
        assert(key_tile(keys@[i as int]) < num_tiles);
        ranges.set((tile as usize) * 2, i);
        ranges.set((tile as usize) * 2 + 1, j);
        proof {
            let done = keys@.take(i as int);
            let now = keys@.take(j as int);
            assert forall|a: int| 0 <= a < i implies key_tile(#[trigger] keys@[a]) < tile by {
                assert(keys@[a] <= keys@[i - 1]);
            }
            assert forall|t: int| 0 <= t < num_tiles implies is_run(
                now,
                t,
                #[trigger] ranges@[2 * t],
                ranges@[2 * t + 1],
            ) by {
                if t != tile {
                    assert(is_run(done, t, prev[2 * t], prev[2 * t + 1]));
                    assert forall|a: int| 0 <= a < now.len() implies (ranges@[2 * t] <= a
                        < ranges@[2 * t + 1]) == (key_tile(#[trigger] now[a]) == t) by {
                        assert(now[a] == keys@[a]);
                        if a < i {
                            assert(done[a] == keys@[a]);
                        }
                    }
                }
            }
            if j < total {
                assert(keys@[j - 1] <= keys@[j as int]);
            }
        }
        i = j;
    }
    assert(keys@.take(total as int) =~= keys@);
    ranges
}

impl TileBinningResult {
    /// The binning of the splats `fs` on the grid of `params`. Without a
    /// single pair the key and payload buffers hold one unused zero each.
    pub open spec fn bins(self, fs: Seq<Footprint>, params: TilingParams) -> bool {
        let pairs_of = emitted(fs, params.columns(), fs.len() as int);
        let n = pairs_of.len() as int;
        &&& self.total_pairs == n
        &&& self.num_tiles == params.columns() * params.rows()
        &&& self.tile_ranges.len() == self.num_tiles * 2
        &&& if n == 0 {
            &&& self.sorted_keys@ == seq![0u32]
            &&& self.sorted_payloads@ == seq![0u32]
            &&& self.tile_ranges@ == zeros((self.num_tiles * 2) as nat)
        } else {
            &&& self.sorted_keys.len() == n
            &&& self.sorted_payloads.len() == n
            &&& is_stable_sort(pairs_of, pairs(self.sorted_keys@, self.sorted_payloads@, n))
            &&& forall|t: int|
                0 <= t < self.num_tiles ==> is_run(
                    self.sorted_keys@,
                    t,
                    #[trigger] self.tile_ranges@[2 * t],
                    self.tile_ranges@[2 * t + 1],
                )
        }
    }
}

/// Every emitted key names a tile of the grid.
proof fn lemma_emitted_tiles(fs: Seq<Footprint>, columns: int, rows: int, n: int)
    requires
        0 <= n <= fs.len(),
        columns * rows <= 0x1_0000,
        forall|k: int| 0 <= k < fs.len() ==> (#[trigger] fs[k]).fits(columns, rows),
    ensures
        forall|k: int|
            0 <= k < emitted(fs, columns, n).len() ==> 0 <= key_tile(
                (#[trigger] emitted(fs, columns, n)[k]).0,
            ) < columns * rows,
    decreases n,
{
    if n > 0 {
        lemma_emitted_tiles(fs, columns, rows, n - 1);
        let f = fs[n - 1];
        assert(f.fits(columns, rows));
        let head = emitted(fs, columns, n - 1);
        let mine = splat_pairs(f, n - 1, columns);
        assert forall|k: int| 0 <= k < emitted(fs, columns, n).len() implies 0 <= key_tile(
            (#[trigger] emitted(fs, columns, n)[k]).0,
        ) < columns * rows by {
            if k >= head.len() {
                let c = k - head.len();
                assert(emitted(fs, columns, n)[k] == mine[c]);
                lemma_cell(f, columns, rows, c);
            }
        }
    }
}

/// Tile binner: the passes that a device runs, and the same binning on the
/// host.
#[derive(Clone, Copy, Debug)]
pub struct TileBinner {
    /// Counts the tiles that each splat touches.
    pub count_pass: Pass,
    /// Emits one pair per touched tile.
    pub emit_pass: Pass,
    /// Finds each tile's run among the sorted pairs.
    pub ranges_pass: Pass,
    /// Turns the counts into each splat's first place.
    pub scan: PrefixScan,
    /// Sorts the pairs by tile and depth.
    pub radix: RadixSort,
}

impl TileBinner {
    /// The passes are those of a binning, its scan is a scan and its sort a
    /// sort.
    pub open spec fn wf(self) -> bool {
        &&& self.count_pass == Pass::CountTiles
        &&& self.emit_pass == Pass::EmitPairs
        &&& self.ranges_pass == Pass::TileRanges
        &&& self.scan.wf()
        &&& self.radix.wf()
    }

    pub fn new() -> (binner: Self)
        ensures
            binner.wf(),
    {
        TileBinner {
            count_pass: Pass::CountTiles,
            emit_pass: Pass::EmitPairs,
            ranges_pass: Pass::TileRanges,
            scan: PrefixScan::new(),
            radix: RadixSort::new(),
        }
    }

    /// Bins the splats: sorted pairs and the run of every tile.
    pub fn bin(&self, fs: &[Footprint], params: &TilingParams) -> (result: TileBinningResult)
        requires
            params.tile_size > 0,
            params.columns() * params.rows() <= 0x1_0000,
            fs.len() <= MAX_SCAN_LEN,
            forall|k: int|
                0 <= k < fs.len() ==> (#[trigger] fs@[k]).fits(params.columns(), params.rows()),
            emitted(fs@, params.columns(), fs.len() as int).len() <= MAX_SCAN_LEN,
        ensures
            result.bins(fs@, *params),
    {
        let columns: u32 = params.tiles_x();
        let rows: u32 = params.tiles_y();
        let num_tiles: u32 = params.num_tiles();
        let n: u32 = fs.len() as u32;
        let ghost all = emitted(fs@, columns as int, fs.len() as int);
        let mut counts: Vec<u32> = count_tiles(fs, columns, rows);
        let ghost sums = counts@;
        proof {
            lemma_offsets(fs@, columns as int, rows as int, sums, n as int);
        }
        let total: u32 = match total_tiles(&counts) {
            Some(total) => total,
            None => 0,
        };
        assert(total == all.len());
        if total == 0 {
            let result = TileBinningResult {
                sorted_keys: vec![0u32; 1],
                sorted_payloads: vec![0u32; 1],
                tile_ranges: vec![0u32; (num_tiles as usize) * 2],
                total_pairs: 0,
                num_tiles,
            };
            assert(result.sorted_keys@ =~= seq![0u32]);
            assert(result.sorted_payloads@ =~= seq![0u32]);
            assert(result.tile_ranges@ =~= zeros((num_tiles * 2) as nat));
            return result;
        }
        self.scan.scan(&mut counts, n);
        proof {
            assert forall|k: int| 0 <= k < fs.len() implies #[trigger] counts@[k] == emitted(
                fs@,
                columns as int,
                k,
            ).len() by {
                lemma_offsets(fs@, columns as int, rows as int, sums, k);
                lemma_prefix_monotone(sums, k, n as int);
                assert(prefix(sums, 0) == 0);
                vstd::arithmetic::div_mod::lemma_small_mod(
                    prefix(sums, k) as nat,
                    modulus() as nat,
                );
            }
        }
        let (mut keys_a, mut vals_a): (Vec<u32>, Vec<u32>) = emit_pairs(
            fs,
            columns,
            rows,
            &counts,
            total,
        );
        let mut keys_b: Vec<u32> = vec![0u32; total as usize];
        let mut vals_b: Vec<u32> = vec![0u32; total as usize];
        self.radix.sort(&mut keys_a, &mut vals_a, &mut keys_b, &mut vals_b, total);
        proof {
            lemma_emitted_tiles(fs@, columns as int, rows as int, n as int);
            let out = pairs(keys_a@, vals_a@, total as int);
            assert forall|i: int, j: int| 0 <= i <= j < keys_a.len() implies keys_a@[i]
                <= keys_a@[j] by {
                assert(out[i].0 <= out[j].0);
            }
            assert forall|i: int| 0 <= i < keys_a.len() implies key_tile(#[trigger] keys_a@[i])
                < num_tiles by {
                let k = lemma_sorted_has_source(all, out, i);
                assert(all[k] == out[i]);
            }
        }
        let tile_ranges: Vec<u32> = tile_runs(&keys_a, total, num_tiles);
        TileBinningResult {
            sorted_keys: keys_a,
            sorted_payloads: vals_a,
            tile_ranges,
            total_pairs: total,
            num_tiles,
        }
    }
}

/// Every pair of a stable sort is one of the pairs that were sorted.
proof fn lemma_sorted_has_source(s: Seq<(u32, u32)>, out: Seq<(u32, u32)>, i: int) -> (k: int)
    requires
        is_stable_sort(s, out),
        0 <= i < out.len(),
    ensures
        0 <= k < s.len(),
        s[k] == out[i],
{
    let key = out[i].0;
    out.lemma_filter_contains(has_key(key), i);
    assert(s.filter(has_key(key)).contains(out[i]));
    s.lemma_filter_contains_rev(has_key(key), out[i]);
    choose|k: int| 0 <= k < s.len() && s[k] == out[i]
}

/// One pass of a binning, behind the pass that counts each splat's tiles.
#[derive(Clone, Copy, Debug, PartialEq, Eq, Structural)]
pub enum BinStep {
    /// Scans the counts, which then say where each splat's pairs start.
    Scan,
    /// Writes every splat's pairs.
    Emit,
    /// Sorts the pairs by key.
    Sort,
    /// Records the run of every tile.
    Ranges,
}

/// The buffers of a binning.
#[verifier::ext_equal]
pub struct BinState {
    pub counts: Seq<u32>,
    pub pairs: Seq<(u32, u32)>,
    pub ranges: Seq<u32>,
}

/// What the counting pass leaves: each splat's number of tiles.
pub open spec fn tile_counts(fs: Seq<Footprint>) -> Seq<u32> {
    fs.map_values(|f: Footprint| f.cells() as u32)
}

/// The keys of pairs.
pub open spec fn keys_of(s: Seq<(u32, u32)>) -> Seq<u32> {
    s.map_values(|p: (u32, u32)| p.0)
}

/// `dst` after the first `k` of `mine` went behind `base`.
pub open spec fn placed(
    dst: Seq<(u32, u32)>,
    base: int,
    mine: Seq<(u32, u32)>,
    k: int,
) -> Seq<(u32, u32)>
    decreases k,
{
    if k <= 0 {
        dst
    } else {
        placed(dst, base, mine, k - 1).update(base + k - 1, mine[k - 1])
    }
}

/// `dst` after the first `i` splats wrote their pairs behind their offsets.
pub open spec fn emitted_at(
    fs: Seq<Footprint>,
    columns: int,
    offsets: Seq<u32>,
    dst: Seq<(u32, u32)>,
    i: int,
) -> Seq<(u32, u32)>
    decreases i,
{
    if i <= 0 {
        dst
    } else {
        placed(
            emitted_at(fs, columns, offsets, dst, i - 1),
            offsets[i - 1] as int,
            splat_pairs(fs[i - 1], i - 1, columns),
            fs[i - 1].cells(),
        )
    }
}

/// Key `k` is the first of its tile.
pub open spec fn starts_run(keys: Seq<u32>, k: int) -> bool {
    k == 0 || key_tile(keys[k - 1]) != key_tile(keys[k])
}

/// Key `k` is the last of its tile.
pub open spec fn ends_run(keys: Seq<u32>, k: int) -> bool {
    k == keys.len() - 1 || key_tile(keys[k + 1]) != key_tile(keys[k])
}

/// `ranges` after the first `i` keys: the first key of a tile records where its
/// run begins, and the last one where it ends.
pub open spec fn runs_recorded(keys: Seq<u32>, ranges: Seq<u32>, i: int) -> Seq<u32>
    decreases i,
{
    if i <= 0 {
        ranges
    } else {
        let k = i - 1;
        let t = key_tile(keys[k]);
        let before = runs_recorded(keys, ranges, k);
        let begun = if starts_run(keys, k) {
            before.update(2 * t, k as u32)
        } else {
            before
        };
        if ends_run(keys, k) {
            begun.update(2 * t + 1, (k + 1) as u32)
        } else {
            begun
        }
    }
}

/// The buffers after one pass.
pub open spec fn bin_effect(
    s: BinState,
    step: BinStep,
    fs: Seq<Footprint>,
    columns: int,
) -> BinState {
    match step {
        BinStep::Scan => (BinState { counts: exclusive_scan(s.counts, fs.len() as int), ..s }),
        BinStep::Emit => (BinState {
            pairs: emitted_at(fs, columns, s.counts, s.pairs, fs.len() as int),
            ..s
        }),
        BinStep::Sort => (BinState { pairs: after_passes(s.pairs, 32), ..s }),
        BinStep::Ranges => (BinState {
            ranges: runs_recorded(keys_of(s.pairs), s.ranges, s.pairs.len() as int),
            ..s
        }),
    }
}

/// The buffers after the first `k` passes.
pub open spec fn run_bin(
    s: BinState,
    steps: Seq<BinStep>,
    fs: Seq<Footprint>,
    columns: int,
    k: int,
) -> BinState
    decreases k,
{
    if k <= 0 {
        s
    } else {
        bin_effect(run_bin(s, steps, fs, columns, k - 1), steps[k - 1], fs, columns)
    }
}

/// The passes behind the count, where it came to `total` pairs.
pub open spec fn planned_bin(total: u32) -> Seq<BinStep> {
    if total == 0 {
        Seq::empty()
    } else {
        seq![BinStep::Scan, BinStep::Emit, BinStep::Sort, BinStep::Ranges]
    }
}

/// The passes of a binning behind the count, where it came to `total` pairs:
/// none without a pair.
pub fn bin_plan(total: u32) -> (steps: Vec<BinStep>)
    ensures
        steps@ == planned_bin(total),
{
    let mut steps: Vec<BinStep> = Vec::new();
    if total > 0 {
        steps.push(BinStep::Scan);
        steps.push(BinStep::Emit);
        steps.push(BinStep::Sort);
        steps.push(BinStep::Ranges);
    }
    assert(steps@ =~= planned_bin(total));
    steps
}

proof fn lemma_placed(dst: Seq<(u32, u32)>, base: int, mine: Seq<(u32, u32)>, k: int)
    requires
        0 <= base,
        0 <= k <= mine.len(),
        base + mine.len() <= dst.len(),
    ensures
        placed(dst, base, mine, k).len() == dst.len(),
        forall|j: int|
            0 <= j < dst.len() ==> #[trigger] placed(dst, base, mine, k)[j] == if base <= j < base
                + k {
                mine[j - base]
            } else {
                dst[j]
            },
    decreases k,
{
    if k > 0 {
        lemma_placed(dst, base, mine, k - 1);
    }
}

/// Splats that write behind the running sums of their counts write the pairs
/// one behind the other.
proof fn lemma_emitted_at(
    fs: Seq<Footprint>,
    columns: int,
    rows: int,
    offsets: Seq<u32>,
    dst: Seq<(u32, u32)>,
    i: int,
)
    requires
        0 <= i <= fs.len(),
        fs.len() <= offsets.len(),
        forall|k: int| 0 <= k < fs.len() ==> (#[trigger] fs[k]).fits(columns, rows),
        forall|k: int|
            0 <= k < fs.len() ==> #[trigger] offsets[k] == emitted(fs, columns, k).len(),
        dst.len() == emitted(fs, columns, fs.len() as int).len(),
    ensures
        emitted_at(fs, columns, offsets, dst, i).len() == dst.len(),
        emitted(fs, columns, i).len() <= dst.len(),
        emitted_at(fs, columns, offsets, dst, i).take(emitted(fs, columns, i).len() as int)
            == emitted(fs, columns, i),
    decreases i,
{
    lemma_emitted_grows(fs, columns, rows, i, fs.len() as int);
    let now = emitted_at(fs, columns, offsets, dst, i);
    if i > 0 {
        lemma_emitted_at(fs, columns, rows, offsets, dst, i - 1);
        let f = fs[i - 1];
        assert(f.fits(columns, rows));
        lemma_cells(f, columns, rows);
        let head = emitted(fs, columns, i - 1);
        let mine = splat_pairs(f, i - 1, columns);
        let before = emitted_at(fs, columns, offsets, dst, i - 1);
        assert(offsets[i - 1] == head.len());
        assert(emitted(fs, columns, i) == head + mine);
        lemma_placed(before, head.len() as int, mine, f.cells());
        assert forall|j: int| 0 <= j < (head + mine).len() implies now[j] == (head + mine)[j] by {
            if j < head.len() {
                assert(before.take(head.len() as int)[j] == before[j]);
            }
        }
        assert(now.take((head + mine).len() as int) =~= head + mine);
    } else {
        assert(now.take(0) =~= emitted(fs, columns, 0));
    }
}

/// Tiles ascend.
spec fn tiles_ascend(keys: Seq<u32>) -> bool {
    forall|i: int, j: int|
        0 <= i <= j < keys.len() ==> key_tile(#[trigger] keys[i]) <= key_tile(#[trigger] keys[j])
}

proof fn lemma_recorded_len(keys: Seq<u32>, ranges: Seq<u32>, i: int)
    requires
        0 <= i <= keys.len(),
        forall|k: int| 0 <= k < keys.len() ==> 2 * key_tile(#[trigger] keys[k]) + 1 < ranges.len(),
    ensures
        runs_recorded(keys, ranges, i).len() == ranges.len(),
    decreases i,
{
    if i > 0 {
        lemma_recorded_len(keys, ranges, i - 1);
        assert(2 * key_tile(keys[i - 1]) + 1 < ranges.len());
    }
}

/// A tile without a key among the first `i` keeps its entries.
proof fn lemma_untouched(keys: Seq<u32>, ranges: Seq<u32>, i: int, t: int)
    requires
        0 <= i <= keys.len(),
        0 <= t,
        2 * t + 1 < ranges.len(),
        forall|k: int| 0 <= k < keys.len() ==> 2 * key_tile(#[trigger] keys[k]) + 1 < ranges.len(),
        forall|k: int| 0 <= k < i ==> key_tile(#[trigger] keys[k]) != t,
    ensures
        runs_recorded(keys, ranges, i)[2 * t] == ranges[2 * t],
        runs_recorded(keys, ranges, i)[2 * t + 1] == ranges[2 * t + 1],
    decreases i,
{
    if i > 0 {
        lemma_untouched(keys, ranges, i - 1, t);
        lemma_recorded_len(keys, ranges, i - 1);
        assert(key_tile(keys[i - 1]) != t);
    }
}

/// The first key of a tile decides where its run begins.
proof fn lemma_begin_stays(keys: Seq<u32>, ranges: Seq<u32>, i: int, f: int)
    requires
        0 <= f < i <= keys.len(),
        keys.len() <= u32::MAX,
        tiles_ascend(keys),
        starts_run(keys, f),
        forall|k: int| 0 <= k < keys.len() ==> 2 * key_tile(#[trigger] keys[k]) + 1 < ranges.len(),
    ensures
        runs_recorded(keys, ranges, i)[2 * key_tile(keys[f])] == f,
    decreases i,
{
    lemma_recorded_len(keys, ranges, i - 1);
    assert(2 * key_tile(keys[f]) + 1 < ranges.len());
    assert(2 * key_tile(keys[i - 1]) + 1 < ranges.len());
    if f < i - 1 {
        lemma_begin_stays(keys, ranges, i - 1, f);
        assert(key_tile(keys[f]) <= key_tile(keys[i - 2]));
        assert(key_tile(keys[i - 2]) <= key_tile(keys[i - 1]));
    }
}

/// The last key of a tile decides where its run ends.
proof fn lemma_end_stays(keys: Seq<u32>, ranges: Seq<u32>, i: int, l: int)
    requires
        0 <= l < i <= keys.len(),
        keys.len() <= u32::MAX,
        tiles_ascend(keys),
        ends_run(keys, l),
        forall|k: int| 0 <= k < keys.len() ==> 2 * key_tile(#[trigger] keys[k]) + 1 < ranges.len(),
    ensures
        runs_recorded(keys, ranges, i)[2 * key_tile(keys[l]) + 1] == l + 1,
    decreases i,
{
    lemma_recorded_len(keys, ranges, i - 1);
    assert(2 * key_tile(keys[l]) + 1 < ranges.len());
    assert(2 * key_tile(keys[i - 1]) + 1 < ranges.len());
    if l < i - 1 {
        lemma_end_stays(keys, ranges, i - 1, l);
        assert(key_tile(keys[l]) <= key_tile(keys[l + 1]));
        assert(key_tile(keys[l + 1]) <= key_tile(keys[i - 1]));
    }
}

/// The first key of the tile of key `a`.
proof fn lemma_first_of_tile(keys: Seq<u32>, a: int) -> (f: int)
    requires
        0 <= a < keys.len(),
    ensures
        0 <= f <= a,
        starts_run(keys, f),
        key_tile(keys[f]) == key_tile(keys[a]),
    decreases a,
{
    if starts_run(keys, a) {
        a
    } else {
        lemma_first_of_tile(keys, a - 1)
    }
}

/// The last key of the tile of key `a`.
proof fn lemma_last_of_tile(keys: Seq<u32>, a: int) -> (l: int)
    requires
        0 <= a < keys.len(),
    ensures
        a <= l < keys.len(),
        ends_run(keys, l),
        key_tile(keys[l]) == key_tile(keys[a]),
    decreases keys.len() - a,
{
    if ends_run(keys, a) {
        a
    } else {
        lemma_last_of_tile(keys, a + 1)
    }
}

/// Over zeroed ranges, the first and last keys of the tiles record their runs.
proof fn lemma_runs_recorded(keys: Seq<u32>, num_tiles: int, t: int)
    requires
        keys.len() <= u32::MAX,
        tiles_ascend(keys),
        forall|k: int| 0 <= k < keys.len() ==> key_tile(#[trigger] keys[k]) < num_tiles,
        0 <= t < num_tiles,
    ensures
        ({
            let ranges = runs_recorded(
                keys,
                zeros((num_tiles * 2) as nat),
                keys.len() as int,
            );
            is_run(keys, t, ranges[2 * t], ranges[2 * t + 1])
        }),
{
    let blank = zeros((num_tiles * 2) as nat);
    let n = keys.len() as int;
    let ranges = runs_recorded(keys, blank, n);
    assert forall|k: int| 0 <= k < keys.len() implies 2 * key_tile(#[trigger] keys[k]) + 1
        < blank.len() by {
        assert(key_tile(keys[k]) < num_tiles);
    }
    if exists|a: int| 0 <= a < n && key_tile(#[trigger] keys[a]) == t {
        let a = choose|a: int| 0 <= a < n && key_tile(#[trigger] keys[a]) == t;
        let f = lemma_first_of_tile(keys, a);
        let l = lemma_last_of_tile(keys, a);
        lemma_begin_stays(keys, blank, n, f);
        lemma_end_stays(keys, blank, n, l);
        assert forall|i: int| 0 <= i < n implies (f <= i < l + 1) == (key_tile(#[trigger] keys[i])
            == t) by {
            if i < f {
                assert(key_tile(keys[i]) <= key_tile(keys[f - 1]));
                assert(key_tile(keys[f - 1]) <= key_tile(keys[f]));
            } else if i > l {
                assert(key_tile(keys[l]) <= key_tile(keys[l + 1]));
                assert(key_tile(keys[l + 1]) <= key_tile(keys[i]));
            } else {
                assert(key_tile(keys[f]) <= key_tile(keys[i]));
                assert(key_tile(keys[i]) <= key_tile(keys[l]));
            }
        }
    } else {
        lemma_untouched(keys, blank, n, t);
    }
}

/// Running the planned passes over the tile counts, with room for every pair
/// and zeroed ranges, leaves the sorted pairs and the run of every tile.
pub proof fn law_plan_bins(
    fs: Seq<Footprint>,
    params: TilingParams,
    start: BinState,
    total: u32,
)
    requires
        params.tile_size > 0,
        params.columns() * params.rows() <= 0x1_0000,
        fs.len() <= MAX_SCAN_LEN,
        forall|k: int| 0 <= k < fs.len() ==> (#[trigger] fs[k]).fits(params.columns(), params.rows()),
        start.counts == tile_counts(fs),
        total == prefix(start.counts, fs.len() as int),
        total <= MAX_SCAN_LEN,
        start.pairs.len() == total,
        start.ranges == zeros((params.columns() * params.rows() * 2) as nat),
    ensures
        ({
            let steps = planned_bin(total);
            let end = run_bin(start, steps, fs, params.columns(), steps.len() as int);
            &&& total == emitted(fs, params.columns(), fs.len() as int).len()
            &&& is_stable_sort(emitted(fs, params.columns(), fs.len() as int), end.pairs)
            &&& forall|t: int|
                0 <= t < params.columns() * params.rows() ==> is_run(
                    keys_of(end.pairs),
                    t,
                    #[trigger] end.ranges[2 * t],
                    end.ranges[2 * t + 1],
                )
        }),
{
    let columns = params.columns();
    let rows = params.rows();
    let n = fs.len() as int;
    let all = emitted(fs, columns, n);
    let steps = planned_bin(total);
    let end = run_bin(start, steps, fs, columns, steps.len() as int);
    let counts = start.counts;
    assert forall|k: int| 0 <= k < fs.len() implies counts[k] == (#[trigger] fs[k]).cells() by {
        assert(fs[k].fits(columns, rows));
        lemma_cells(fs[k], columns, rows);
    }
    lemma_offsets(fs, columns, rows, counts, n);
    if total == 0 {
        assert(all =~= Seq::<(u32, u32)>::empty());
        assert(end.pairs =~= all);
        law_passes_sort(all);
        assert(is_stable_sort(all, end.pairs));
    } else {
        reveal_with_fuel(run_bin, 5);
        let offsets = exclusive_scan(counts, n);
        assert forall|k: int| 0 <= k < n implies #[trigger] offsets[k] == emitted(
            fs,
            columns,
            k,
        ).len() by {
            lemma_offsets(fs, columns, rows, counts, k);
            lemma_prefix_monotone(counts, k, n);
            assert(prefix(counts, 0) == 0);
            vstd::arithmetic::div_mod::lemma_small_mod(prefix(counts, k) as nat, modulus() as nat);
        }
        lemma_emitted_at(fs, columns, rows, offsets, start.pairs, n);
        let written = emitted_at(fs, columns, offsets, start.pairs, n);
        assert(written.take(all.len() as int) =~= written);
        let out = after_passes(all, 32);
        law_passes_sort(all);
        let keys = keys_of(out);
        let s1 = bin_effect(start, steps[0], fs, columns);
        let s2 = bin_effect(s1, steps[1], fs, columns);
        let s3 = bin_effect(s2, steps[2], fs, columns);
        assert(s3.pairs == out);
        assert(end == bin_effect(s3, steps[3], fs, columns));
        lemma_emitted_tiles(fs, columns, rows, n);
        assert forall|i: int, j: int| 0 <= i <= j < keys.len() implies key_tile(#[trigger] keys[i])
            <= key_tile(#[trigger] keys[j]) by {
            assert(out[i].0 <= out[j].0);
        }
        assert forall|k: int| 0 <= k < keys.len() implies key_tile(#[trigger] keys[k]) < columns
            * rows by {
            let a = lemma_sorted_has_source(all, out, k);
            assert(all[a] == out[k]);
        }
        assert forall|t: int| 0 <= t < columns * rows implies is_run(
            keys,
            t,
            #[trigger] end.ranges[2 * t],
            end.ranges[2 * t + 1],
        ) by {
            lemma_runs_recorded(keys, columns * rows, t);
        }
    }
}

/// Distinct tiles have distinct positions in the grid.
proof fn lemma_grid_position(tx: int, ty: int, ux: int, uy: int, columns: int)
    requires
        0 <= tx < columns,
        0 <= ux < columns,
        ty * columns + tx == uy * columns + ux,
    ensures
        tx == ux,
        ty == uy,
{
    assert(ty == uy) by (nonlinear_arith)
        requires
            0 <= tx < columns,
            0 <= ux < columns,
            ty * columns + tx == uy * columns + ux,
    ;
}

/// A covered tile has exactly one place in the row-by-row order.
proof fn lemma_cell_of(f: Footprint, columns: int, rows: int, tx: int, ty: int) -> (k: int)
    requires
        f.fits(columns, rows),
        f.covers(tx, ty),
    ensures
        0 <= k < f.cells(),
        f.cell(columns, k) == ty * columns + tx,
{
    let w = f.x1 - f.x0;
    let h = f.y1 - f.y0;
    let q = ty - f.y0;
    let r = tx - f.x0;
    let k = q * w + r;
    assert(0 <= k < w * h) by (nonlinear_arith)
        requires
            0 <= q < h,
            0 <= r < w,
            k == q * w + r,
    ;
    assert(w * q + r == k) by (nonlinear_arith)
        requires
            k == q * w + r,
    ;
    vstd::arithmetic::div_mod::lemma_fundamental_div_mod_converse(k, w, q, r);
    k
}

/// A tile among the pairs of a splat is one that the splat covers.
proof fn lemma_cell_covers(f: Footprint, columns: int, rows: int, k: int, tx: int, ty: int)
    requires
        f.fits(columns, rows),
        0 <= k < f.cells(),
        0 <= tx < columns,
        f.cell(columns, k) == ty * columns + tx,
    ensures
        f.covers(tx, ty),
        k == (ty - f.y0) * (f.x1 - f.x0) + (tx - f.x0),
{
    lemma_cell(f, columns, rows, k);
    let w = f.x1 - f.x0;
    let q = k / w;
    let r = k % w;
    lemma_grid_position(tx, ty, f.x0 + r, f.y0 + q, columns);
    vstd::arithmetic::div_mod::lemma_fundamental_div_mod(k, w);
    assert(w * q == q * w) by (nonlinear_arith);
}

/// Pairs with equal keys come in splat order, and no splat emits a key twice.
proof fn lemma_emitted_order(fs: Seq<Footprint>, columns: int, rows: int, n: int)
    requires
        0 <= n <= fs.len(),
        fs.len() <= MAX_SCAN_LEN,
        columns * rows <= 0x1_0000,
        forall|k: int| 0 <= k < fs.len() ==> (#[trigger] fs[k]).fits(columns, rows),
    ensures
        ({
            let s = emitted(fs, columns, n);
            &&& forall|a: int| 0 <= a < s.len() ==> (#[trigger] s[a]).1 < n
            &&& forall|a: int, b: int|
                0 <= a < b < s.len() && (#[trigger] s[a]).0 == (#[trigger] s[b]).0 ==> s[a].1
                    < s[b].1
            &&& forall|a: int|
                0 <= a < s.len() ==> {
                    let f = fs[(#[trigger] s[a]).1 as int];
                    &&& key_depth(s[a].0) == f.depth
                    &&& exists|k: int|
                        0 <= k < f.cells() && #[trigger] f.cell(columns, k) == key_tile(s[a].0)
                }
        }),
    decreases n,
{
    if n > 0 {
        lemma_emitted_order(fs, columns, rows, n - 1);
        let f = fs[n - 1];
        assert(f.fits(columns, rows));
        let head = emitted(fs, columns, n - 1);
        let mine = splat_pairs(f, n - 1, columns);
        let s = emitted(fs, columns, n);
        assert(s == head + mine);
        assert forall|c: int| 0 <= c < mine.len() implies {
            &&& (#[trigger] mine[c]).1 == n - 1
            &&& key_tile(mine[c].0) == f.cell(columns, c)
            &&& key_depth(mine[c].0) == f.depth
        } by {
            lemma_cell(f, columns, rows, c);
        }
        assert forall|a: int, b: int|
            0 <= a < b < s.len() && (#[trigger] s[a]).0 == (#[trigger] s[b]).0 implies s[a].1
            < s[b].1 by {
            let m = head.len() as int;
            if b < m {
                assert(s[a] == head[a] && s[b] == head[b]);
            } else if a < m {
                assert(s[a] == head[a]);
                assert(s[b] == mine[b - m]);
            } else {
                assert(s[a] == mine[a - m]);
                assert(s[b] == mine[b - m]);
                lemma_cell(f, columns, rows, a - m);
                let w = f.x1 - f.x0;
                let tx = f.x0 + (a - m) % w;
                let ty = f.y0 + (a - m) / w;
                lemma_cell_covers(f, columns, rows, a - m, tx, ty);
                lemma_cell_covers(f, columns, rows, b - m, tx, ty);
            }
        }
        assert forall|a: int| 0 <= a < s.len() implies {
            let f = fs[(#[trigger] s[a]).1 as int];
            &&& key_depth(s[a].0) == f.depth
            &&& exists|k: int|
                0 <= k < f.cells() && #[trigger] f.cell(columns, k) == key_tile(s[a].0)
        } by {
            let m = head.len() as int;
            if a < m {
                assert(s[a] == head[a]);
            } else {
                assert(s[a] == mine[a - m]);
                assert(f.cell(columns, a - m) == key_tile(s[a].0));
            }
        }
    }
}

/// A covered tile yields a pair.
proof fn lemma_emitted_has(
    fs: Seq<Footprint>,
    columns: int,
    rows: int,
    n: int,
    p: int,
    tx: int,
    ty: int,
) -> (a: int)
    requires
        0 <= p < n <= fs.len(),
        columns * rows <= 0x1_0000,
        forall|k: int| 0 <= k < fs.len() ==> (#[trigger] fs[k]).fits(columns, rows),
        fs[p].covers(tx, ty),
    ensures
        0 <= a < emitted(fs, columns, n).len(),
        emitted(fs, columns, n)[a] == (
            tile_key(ty * columns + tx, fs[p].depth as int),
            p as u32,
        ),
    decreases n,
{
    assert(fs[n - 1].fits(columns, rows));
    let head = emitted(fs, columns, n - 1);
    if p == n - 1 {
        let k = lemma_cell_of(fs[p], columns, rows, tx, ty);
        let mine = splat_pairs(fs[p], p, columns);
        assert(emitted(fs, columns, n)[head.len() + k] == mine[k]);
        head.len() + k
    } else {
        let a = lemma_emitted_has(fs, columns, rows, n - 1, p, tx, ty);
        assert(emitted(fs, columns, n)[a] == head[a]);
        a
    }
}

/// Payloads ascend strictly.
spec fn payloads_ascend(s: Seq<(u32, u32)>) -> bool {
    forall|a: int, b: int| 0 <= a < b < s.len() ==> (#[trigger] s[a]).1 < (#[trigger] s[b]).1
}

proof fn lemma_filter_ascends(s: Seq<(u32, u32)>, key: u32)
    requires
        forall|a: int, b: int|
            0 <= a < b < s.len() && (#[trigger] s[a]).0 == (#[trigger] s[b]).0 ==> s[a].1 < s[b].1,
    ensures
        payloads_ascend(s.filter(has_key(key))),
    decreases s.len(),
{
    reveal(Seq::filter);
    if s.len() > 0 {
        let head = s.drop_last();
        assert forall|a: int, b: int|
            0 <= a < b < head.len() && (#[trigger] head[a]).0 == (#[trigger] head[b]).0 implies head[a].1
            < head[b].1 by {
            assert(s[a] == head[a] && s[b] == head[b]);
        }
        lemma_filter_ascends(head, key);
        let f = head.filter(has_key(key));
        if s.last().0 == key {
            assert forall|a: int| 0 <= a < f.len() implies (#[trigger] f[a]).1 < s.last().1 by {
                head.lemma_filter_contains_rev(has_key(key), f[a]);
                head.lemma_filter_pred(has_key(key), a);
                let k = choose|k: int| 0 <= k < head.len() && head[k] == f[a];
                assert(s[k].0 == s[s.len() - 1].0);
            }
        }
    }
}

proof fn lemma_ascending_filter_orders(out: Seq<(u32, u32)>, key: u32, i: int, j: int)
    requires
        payloads_ascend(out.filter(has_key(key))),
        0 <= i < j < out.len(),
        out[i].0 == key,
        out[j].0 == key,
    ensures
        out[i].1 < out[j].1,
    decreases out.len(),
{
    reveal(Seq::filter);
    let head = out.drop_last();
    let f = head.filter(has_key(key));
    let g = out.filter(has_key(key));
    if out.last().0 == key {
        assert(g == f.push(out.last()));
    } else {
        assert(g == f);
    }
    assert(payloads_ascend(f)) by {
        assert forall|a: int, b: int| 0 <= a < b < f.len() implies (#[trigger] f[a]).1
            < (#[trigger] f[b]).1 by {
            assert(g[a] == f[a] && g[b] == f[b]);
        }
    }
    if j == out.len() - 1 {
        assert(head[i] == out[i]);
        head.lemma_filter_contains(has_key(key), i);
        let a = choose|a: int| 0 <= a < f.len() && f[a] == out[i];
        assert(g[a] == out[i]);
        assert(g[f.len() as int] == out[j]);
    } else {
        assert(head[i] == out[i] && head[j] == out[j]);
        lemma_ascending_filter_orders(head, key, i, j);
    }
}

/// The run of a tile lists exactly the splats that cover it, nearest first,
/// and splats of one depth bucket in splat order.
pub proof fn law_tile_lists(
    fs: Seq<Footprint>,
    params: TilingParams,
    result: TileBinningResult,
    tx: int,
    ty: int,
)
    requires
        params.tile_size > 0,
        params.columns() * params.rows() <= 0x1_0000,
        fs.len() <= MAX_SCAN_LEN,
        forall|k: int| 0 <= k < fs.len() ==> (#[trigger] fs[k]).fits(params.columns(), params.rows()),
        result.bins(fs, params),
        0 <= tx < params.columns(),
        0 <= ty < params.rows(),
    ensures
        ({
            let t = ty * params.columns() + tx;
            let b = result.tile_ranges@[2 * t] as int;
            let e = result.tile_ranges@[2 * t + 1] as int;
            let keys = result.sorted_keys@;
            let ids = result.sorted_payloads@;
            &&& 0 <= t < result.num_tiles
            &&& 0 <= b <= e <= result.total_pairs
            &&& forall|i: int|
                b <= i < e ==> (#[trigger] ids[i]) < fs.len() && fs[ids[i] as int].covers(tx, ty)
                    && key_depth(keys[i]) == fs[ids[i] as int].depth
            &&& forall|i: int, j: int|
                b <= i < j < e ==> key_depth(#[trigger] keys[i]) < key_depth(#[trigger] keys[j])
                    || (key_depth(keys[i]) == key_depth(keys[j]) && ids[i] < ids[j])
            &&& forall|p: int|
                0 <= p < fs.len() && #[trigger] fs[p].covers(tx, ty) ==> exists|i: int|
                    b <= i < e && #[trigger] ids[i] == p
        }),
{
    let columns = params.columns();
    let rows = params.rows();
    let n = fs.len() as int;
    let t = ty * columns + tx;
    let s = emitted(fs, columns, n);
    let keys = result.sorted_keys@;
    let ids = result.sorted_payloads@;
    let out = pairs(keys, ids, s.len() as int);
    assert(0 <= t < columns * rows) by (nonlinear_arith)
        requires
            0 <= tx < columns,
            0 <= ty < rows,
            t == ty * columns + tx,
    ;
    let b = result.tile_ranges@[2 * t] as int;
    let e = result.tile_ranges@[2 * t + 1] as int;
    lemma_emitted_order(fs, columns, rows, n);
    if s.len() == 0 {
        assert forall|p: int| 0 <= p < fs.len() && #[trigger] fs[p].covers(tx, ty) implies false by {
            let a = lemma_emitted_has(fs, columns, rows, n, p, tx, ty);
        }
    } else {
        assert(is_run(keys, t, result.tile_ranges@[2 * t], result.tile_ranges@[2 * t + 1]));
        assert forall|i: int| b <= i < e implies (#[trigger] ids[i]) < fs.len()
            && fs[ids[i] as int].covers(tx, ty) && key_depth(keys[i]) == fs[ids[i] as int].depth by {
            assert(key_tile(keys[i]) == t);
            let a = lemma_sorted_has_source(s, out, i);
            assert(s[a] == (keys[i], ids[i]));
            let f = fs[s[a].1 as int];
            assert(f.fits(columns, rows));
            let k = choose|k: int|
                0 <= k < f.cells() && #[trigger] f.cell(columns, k) == key_tile(s[a].0);
            lemma_cell_covers(f, columns, rows, k, tx, ty);
        }
        assert forall|i: int, j: int| b <= i < j < e implies key_depth(#[trigger] keys[i])
            < key_depth(#[trigger] keys[j]) || (key_depth(keys[i]) == key_depth(keys[j]) && ids[i]
            < ids[j]) by {
            assert(key_tile(keys[i]) == t && key_tile(keys[j]) == t);
            assert(out[i].0 <= out[j].0);
            if keys[i] == keys[j] {
                let key = keys[i];
                lemma_filter_ascends(s, key);
                assert(out.filter(has_key(key)) == s.filter(has_key(key)));
                lemma_ascending_filter_orders(out, key, i, j);
            }
        }
        assert forall|p: int| 0 <= p < fs.len() && #[trigger] fs[p].covers(tx, ty) implies exists|
            i: int,
        |
            b <= i < e && #[trigger] ids[i] == p by {
            let a = lemma_emitted_has(fs, columns, rows, n, p, tx, ty);
            let key = s[a].0;
            s.lemma_filter_contains(has_key(key), a);
            assert(out.filter(has_key(key)) == s.filter(has_key(key)));
            out.lemma_filter_contains_rev(has_key(key), s[a]);
            let i = choose|i: int| 0 <= i < out.len() && out[i] == s[a];
            assert(fs[p].fits(columns, rows));
            assert(key_tile(keys[i]) == t);
            assert(ids[i] == p);
        }
    }
}

/// The number of tiles that a rectangle covers adds up: cut in two between
/// columns or between rows, its parts cover together what it covers; a single
/// tile counts as one.
pub proof fn law_cells_add_up(f: Footprint, x: u32, y: u32)
    requires
        f.x0 <= x <= f.x1,
        f.y0 <= y <= f.y1,
    ensures
        f.cells() == (Footprint { x1: x, ..f }).cells() + (Footprint { x0: x, ..f }).cells(),
        f.cells() == (Footprint { y1: y, ..f }).cells() + (Footprint { y0: y, ..f }).cells(),
        f.x1 == f.x0 + 1 && f.y1 == f.y0 + 1 ==> f.cells() == 1,
        f.x0 == f.x1 || f.y0 == f.y1 ==> f.cells() == 0,
{
    let w = f.x1 - f.x0;
    let h = f.y1 - f.y0;
    assert(w * h == (x - f.x0) * h + (f.x1 - x) * h) by (nonlinear_arith)
        requires
            w == (x - f.x0) + (f.x1 - x),
    ;
    assert(w * h == w * (y - f.y0) + w * (f.y1 - y)) by (nonlinear_arith)
        requires
            h == (y - f.y0) + (f.y1 - y),
    ;
    assert(w == 0 || h == 0 ==> w * h == 0) by (nonlinear_arith);
    assert(w == 1 && h == 1 ==> w * h == 1) by (nonlinear_arith);
}

/// A rectangle's tiles are listed row by row, and a tile's number counts the
/// grid row by row: the tile in column `tx` and row `ty` is number
/// `ty * columns + tx`, and comes behind the whole rows above it and the tiles
/// to its left.
pub proof fn law_cells_row_by_row(f: Footprint, columns: int, tx: int, ty: int)
    requires
        f.x0 <= tx < f.x1,
        f.y0 <= ty < f.y1,
    ensures
        f.cell(columns, (ty - f.y0) * (f.x1 - f.x0) + (tx - f.x0)) == ty * columns + tx,
{
    let w = f.x1 - f.x0;
    let k = (ty - f.y0) * w + (tx - f.x0);
    vstd::arithmetic::div_mod::lemma_fundamental_div_mod_converse(k, w, ty - f.y0, tx - f.x0);
}

/// The grid has the fewest tiles that cover the image, in either direction.
pub proof fn law_grid_covers_the_image(params: TilingParams)
    requires
        params.tile_size > 0,
    ensures
        params.width <= params.columns() * params.tile_size,
        params.width > 0 ==> (params.columns() - 1) * params.tile_size < params.width,
        params.height <= params.rows() * params.tile_size,
        params.height > 0 ==> (params.rows() - 1) * params.tile_size < params.height,
{
    crate::dispatch::law_fewest_groups(params.width as int, params.tile_size as int);
    crate::dispatch::law_fewest_groups(params.height as int, params.tile_size as int);
}

/// The list of the tile in column `tx` and row `ty` names the splats whose
/// rectangle holds that tile, all of them and no other, those in front first
/// and equally deep ones in order. A key holds the tile's number in its upper
/// half and the depth in its lower.
pub proof fn law_tile_lists_front_to_back(
    fs: Seq<Footprint>,
    params: TilingParams,
    result: TileBinningResult,
    tx: int,
    ty: int,
)
    requires
        params.tile_size > 0,
        params.columns() * params.rows() <= 0x1_0000,
        fs.len() <= MAX_SCAN_LEN,
        forall|k: int| 0 <= k < fs.len() ==> (#[trigger] fs[k]).fits(params.columns(), params.rows()),
        result.bins(fs, params),
        0 <= tx < params.columns(),
        0 <= ty < params.rows(),
    ensures
        ({
            let t = ty * params.columns() + tx;
            let b = result.tile_ranges@[2 * t] as int;
            let e = result.tile_ranges@[2 * t + 1] as int;
            let keys = result.sorted_keys@;
            let ids = result.sorted_payloads@;
            &&& 0 <= b <= e <= result.sorted_payloads.len()
            &&& forall|i: int|
                b <= i < e ==> {
                    let id = (#[trigger] ids[i]) as int;
                    &&& id < fs.len()
                    &&& fs[id].x0 <= tx < fs[id].x1
                    &&& fs[id].y0 <= ty < fs[id].y1
                    &&& keys[i] == t * 0x1_0000 + fs[id].depth
                }
            &&& forall|i: int, j: int|
                b <= i < j < e ==> {
                    let front = fs[(#[trigger] ids[i]) as int].depth;
                    let back = fs[(#[trigger] ids[j]) as int].depth;
                    front < back || (front == back && ids[i] < ids[j])
                }
            &&& forall|p: int|
                0 <= p < fs.len() && (#[trigger] fs[p]).x0 <= tx < fs[p].x1 && fs[p].y0 <= ty
                    < fs[p].y1 ==> exists|i: int| b <= i < e && #[trigger] ids[i] == p
        }),
{
    law_tile_lists(fs, params, result, tx, ty);
    let t = ty * params.columns() + tx;
    let b = result.tile_ranges@[2 * t] as int;
    let e = result.tile_ranges@[2 * t + 1] as int;
    let keys = result.sorted_keys@;
    let ids = result.sorted_payloads@;
    assert forall|i: int| b <= i < e implies {
        let id = (#[trigger] ids[i]) as int;
        &&& id < fs.len()
        &&& fs[id].x0 <= tx < fs[id].x1
        &&& fs[id].y0 <= ty < fs[id].y1
        &&& keys[i] == t * 0x1_0000 + fs[id].depth
    } by {
        let id = ids[i] as int;
        assert(fs[id].covers(tx, ty));
        assert(key_tile(keys[i]) == t) by {
            assert(is_run(keys, t, result.tile_ranges@[2 * t], result.tile_ranges@[2 * t + 1]));
        }
        assert(key_depth(keys[i]) == fs[id].depth);
    }
    assert forall|i: int, j: int| b <= i < j < e implies {
        let front = fs[(#[trigger] ids[i]) as int].depth;
        let back = fs[(#[trigger] ids[j]) as int].depth;
        front < back || (front == back && ids[i] < ids[j])
    } by {
        assert(key_depth(keys[i]) == fs[ids[i] as int].depth);
        assert(key_depth(keys[j]) == fs[ids[j] as int].depth);
    }
    assert forall|p: int|
        0 <= p < fs.len() && (#[trigger] fs[p]).x0 <= tx < fs[p].x1 && fs[p].y0 <= ty
            < fs[p].y1 implies exists|i: int| b <= i < e && #[trigger] ids[i] == p by {
        assert(fs[p].covers(tx, ty));
    }
}

/// A binning runs the counting, emitting and run-finding passes, and those of a
/// scan and of a sort.
pub proof fn law_binning_passes(binner: TileBinner)
    requires
        binner.wf(),
    ensures
        binner.count_pass is CountTiles,
        binner.emit_pass is EmitPairs,
        binner.ranges_pass is TileRanges,
        binner.scan.scan_pass is ScanBlock,
        binner.scan.add_pass is AddOffsets,
        binner.radix.predicate_pass is Predicate,
        binner.radix.total_pass is Total,
        binner.radix.scatter_pass is Scatter,
        binner.radix.scan.scan_pass is ScanBlock,
        binner.radix.scan.add_pass is AddOffsets,
{
}

} // verus!
