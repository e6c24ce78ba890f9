use nanotracer::pipelines::{emit_params, ranges_params, sort_params, tile_count_params};
use nanotracer::pipelines::Binding::{ReadOnly, ReadWrite, Uniform};
use nanotracer::prefix_scan::{add_offsets, scan_block, scan_plan, PrefixScan, ScanStep};
use nanotracer::radix_sort::{
    bit_is_clear, reads_first, sort_plan, split_pass, RadixSort, SortStep,
};
use nanotracer::tile_binner::{
    bin_plan, count_tiles, total_tiles, BinStep, Footprint, TileBinner, TilingParams,
};

fn run_scan(input: &[u32]) -> Vec<u32> {
    let mut data = input.to_vec();
    PrefixScan::new().scan(&mut data, input.len() as u32);
    data
}

fn cpu_exclusive(xs: &[u32]) -> Vec<u32> {
    let mut out = Vec::with_capacity(xs.len());
    let mut acc = 0u32;
    for x in xs {
        out.push(acc);
        acc = acc.wrapping_add(*x);
    }
    out
}

#[test]
fn scan_all_ones_yields_indices() {
    let n = 1000usize;
    let input = vec![1u32; n];
    let out = run_scan(&input);
    for (i, v) in out.iter().enumerate() {
        assert_eq!(*v as usize, i, "scan[{i}] = {v}, expected {i}");
    }
}

#[test]
fn scan_random_matches_cpu_reference() {
    let n = 70_000usize;
    let mut rng_state = 0x12345678u32;
    let input: Vec<u32> = (0..n)
        .map(|_| {
            rng_state = rng_state.wrapping_mul(1664525).wrapping_add(1013904223);
            rng_state % 17
        })
        .collect();
    let expected = cpu_exclusive(&input);
    let gpu = run_scan(&input);
    assert_eq!(gpu.len(), expected.len());
    for i in 0..n {
        assert_eq!(gpu[i], expected[i], "mismatch at index {i}");
    }
}

#[test]
fn scan_wraps_around_and_leaves_the_tail() {
    let mut data = vec![u32::MAX, 2, 5, 9, 9];
    PrefixScan::new().scan(&mut data, 3);
    assert_eq!(data, vec![0, u32::MAX, 1, 9, 9]);
    PrefixScan::new().scan(&mut data, 0);
    assert_eq!(data, vec![0, u32::MAX, 1, 9, 9]);
}

#[test]
fn scan_passes_work_block_by_block() {
    let mut data = vec![1u32; 300];
    let mut sums = vec![0u32; 2];
    scan_block(&mut data, &mut sums, 300, 2);
    assert_eq!(data[255], 255);
    assert_eq!(data[256], 0);
    assert_eq!(sums, vec![256, 44]);
    add_offsets(&mut data, &vec![0, 256], 300);
    assert_eq!(data[299], 299);
}

#[test]
fn scan_plan_grows_with_its_input() {
    let small = scan_plan(100);
    assert_eq!(small.sums1_len, 1);
    assert!(matches!(small.steps[0], ScanStep::ScanData { n: 100, groups: 1 }));
    let large = scan_plan(70_000);
    assert_eq!(large.sums1_len, 274);
    assert_eq!(large.sums2_len, 2);
    assert!(large.steps.len() > small.steps.len());
}

fn run_sort(keys: &[u32], vals: &[u32]) -> (Vec<u32>, Vec<u32>) {
    assert_eq!(keys.len(), vals.len());
    let n = keys.len() as u32;
    let mut keys_a = keys.to_vec();
    let mut vals_a = vals.to_vec();
    let mut keys_b = vec![0u32; keys.len()];
    let mut vals_b = vec![0u32; vals.len()];
    RadixSort::new().sort(&mut keys_a, &mut vals_a, &mut keys_b, &mut vals_b, n);
    (keys_a, vals_a)
}

#[test]
fn sort_small_array_stable() {
    let keys = vec![3u32, 1, 4, 1, 5, 9, 2, 6];
    let vals = vec![0u32, 1, 2, 3, 4, 5, 6, 7];
    let (sk, sv) = run_sort(&keys, &vals);
    let expected_keys = [1u32, 1, 2, 3, 4, 5, 6, 9];
    assert_eq!(sk, expected_keys);
    assert_eq!(sv[0], 1);
    assert_eq!(sv[1], 3);
}

#[test]
fn sort_random_u32_with_payload() {
    let n = 10_000usize;
    let mut rng = 0xdeadbeefu32;
    let keys: Vec<u32> = (0..n)
        .map(|_| {
            rng = rng.wrapping_mul(1664525).wrapping_add(1013904223);
            rng
        })
        .collect();
    let vals: Vec<u32> = (0..n as u32).collect();
    let (sk, sv) = run_sort(&keys, &vals);
    for i in 0..n {
        assert_eq!(sk[i], keys[sv[i] as usize], "payload mismatch at {i}");
    }
    for i in 1..n {
        assert!(sk[i - 1] <= sk[i], "not sorted at {i}: {} > {}", sk[i - 1], sk[i]);
    }
}

#[test]
fn a_split_pass_keeps_order_on_both_sides() {
    let keys = vec![1u32, 2, 3, 4];
    let vals = vec![10u32, 20, 30, 40];
    let mut out_k = vec![0u32; 4];
    let mut out_v = vec![0u32; 4];
    split_pass(&PrefixScan::new(), &keys, &vals, &mut out_k, &mut out_v, 4, 0);
    assert_eq!(out_k, vec![2, 4, 1, 3]);
    assert_eq!(out_v, vec![20, 40, 10, 30]);
    assert!(bit_is_clear(4, 0));
    assert!(!bit_is_clear(4, 2));
    assert!(reads_first(0));
    assert!(!reads_first(31));
}

#[test]
fn sorting_nothing_changes_nothing() {
    let (k, v) = run_sort(&[], &[]);
    assert!(k.is_empty() && v.is_empty());
}

/// The tiles that a splat of radius `r` around `(x, y)` covers, and its depth
/// bucket.
fn vis(x: f32, y: f32, depth: f32, r: f32) -> Footprint {
    let tile = |p: f32| (p / 16.0).floor().clamp(0.0, 4.0) as u32;
    Footprint {
        x0: tile(x - r),
        y0: tile(y - r),
        x1: tile(x + r + 15.0),
        y1: tile(y + r + 15.0),
        depth: (depth / 100.0 * 65535.0) as u32,
    }
}

fn tiling() -> TilingParams {
    TilingParams { width: 64, height: 64, tile_size: 16, depth_max: 100.0f32.to_bits() }
}

#[test]
fn four_splats_bin_to_expected_tiles() {
    let splats = vec![
        vis(8.0, 8.0, 10.0, 4.0),
        vis(40.0, 8.0, 20.0, 4.0),
        vis(8.0, 56.0, 30.0, 4.0),
        vis(56.0, 56.0, 5.0, 4.0),
    ];
    let result = TileBinner::new().bin(&splats, &tiling());
    assert_eq!(result.total_pairs, 4, "expected one tile per splat");
    assert_eq!(result.num_tiles, 16);
    let tiles: Vec<u32> = result.sorted_keys.iter().map(|k| k >> 16).collect();
    assert_eq!(tiles, vec![0, 2, 12, 15], "tile order: {:?}", tiles);
    let ranges = &result.tile_ranges;
    let nonzero_ranges: Vec<(u32, u32, u32)> = (0..result.num_tiles)
        .filter_map(|tid| {
            let begin = ranges[(tid * 2) as usize];
            let end = ranges[(tid * 2 + 1) as usize];
            if end > begin { Some((tid, begin, end)) } else { None }
        })
        .collect();
    let want = [(0u32, 0u32, 1u32), (2, 1, 2), (12, 2, 3), (15, 3, 4)];
    assert_eq!(nonzero_ranges, want);
    assert_eq!(result.sorted_payloads, vec![0u32, 1, 2, 3]);
}

#[test]
fn two_splats_same_tile_sorted_by_depth() {
    let splats = vec![vis(24.0, 24.0, 80.0, 4.0), vis(24.0, 24.0, 5.0, 4.0)];
    let result = TileBinner::new().bin(&splats, &tiling());
    assert_eq!(result.total_pairs, 2);
    let tiles: Vec<u32> = result.sorted_keys.iter().map(|k| k >> 16).collect();
    assert_eq!(tiles, vec![5, 5]);
    assert_eq!(result.sorted_payloads, vec![1u32, 0u32], "payload should be depth-sorted");
    assert_eq!(result.tile_ranges[10], 0, "tile 5 begin");
    assert_eq!(result.tile_ranges[11], 2, "tile 5 end");
}

#[test]
fn a_wide_splat_reaches_every_tile_that_it_covers() {
    let wide = Footprint { x0: 1, y0: 0, x1: 3, y1: 2, depth: 7 };
    let hidden = Footprint { x0: 0, y0: 0, x1: 0, y1: 0, depth: 0 };
    let counts = count_tiles(&[wide, hidden], 4, 4);
    assert_eq!(counts, vec![4, 0]);
    assert_eq!(total_tiles(&counts), Some(4));
    let result = TileBinner::new().bin(&[wide, hidden], &tiling());
    assert_eq!(result.sorted_keys, vec![(1 << 16) + 7, (2 << 16) + 7, (5 << 16) + 7, (6 << 16) + 7]);
    assert_eq!(result.sorted_payloads, vec![0, 0, 0, 0]);
}

#[test]
fn binning_nothing_gives_empty_tiles() {
    let result = TileBinner::new().bin(&[], &tiling());
    assert_eq!(result.total_pairs, 0);
    assert_eq!(result.sorted_keys, vec![0]);
    assert_eq!(result.tile_ranges, vec![0; 32]);
    let odd = TilingParams { width: 65, height: 1, tile_size: 16, depth_max: 0 };
    assert_eq!((odd.tiles_x(), odd.tiles_y(), odd.num_tiles()), (5, 1, 5));
}

#[test]
fn scan_passes_bind_data_sums_and_params() {
    let scan = PrefixScan::new();
    assert_eq!(scan.scan_pass.layout(), vec![ReadWrite, ReadWrite, Uniform]);
    assert_eq!(scan.add_pass.layout(), vec![ReadWrite, ReadOnly, Uniform]);
}

#[test]
fn sort_passes_bind_source_and_destination() {
    let sorter = RadixSort::new();
    assert_eq!(sorter.predicate_pass.layout(), vec![ReadOnly, ReadWrite, Uniform]);
    assert_eq!(sorter.total_pass.layout(), vec![ReadOnly, ReadOnly, ReadWrite, Uniform]);
    assert_eq!(
        sorter.scatter_pass.layout(),
        vec![ReadOnly, ReadOnly, ReadWrite, ReadWrite, ReadOnly, ReadOnly, Uniform]
    );
    assert_eq!(sorter.scan.add_pass, PrefixScan::new().add_pass);
}

#[test]
fn binning_passes_bind_splats_counts_and_pairs() {
    let binner = TileBinner::new();
    assert_eq!(binner.count_pass.layout(), vec![ReadOnly, ReadWrite, ReadWrite, Uniform]);
    assert_eq!(
        binner.emit_pass.layout(),
        vec![ReadOnly, ReadOnly, ReadWrite, ReadWrite, Uniform]
    );
    assert_eq!(binner.ranges_pass.layout(), vec![ReadOnly, ReadWrite, Uniform]);
    assert_eq!(binner.radix.scatter_pass, RadixSort::new().scatter_pass);
}

#[test]
fn a_sort_takes_four_passes_per_bit() {
    let steps = sort_plan(5);
    assert_eq!(steps.len(), 128);
    assert_eq!(
        &steps[..4],
        &[
            SortStep::Predicate { bit: 0, first: true },
            SortStep::Scan,
            SortStep::Total { bit: 0, first: true },
            SortStep::Scatter { bit: 0, first: true },
        ]
    );
    assert_eq!(steps[127], SortStep::Scatter { bit: 31, first: false });
    assert!(sort_plan(0).is_empty());
}

#[test]
fn planned_passes_sort_the_pairs() {
    let mut keys = [vec![9u32, 2, 0x8000_0000, 2, 7], vec![0; 5]];
    let mut vals = [vec![0u32, 1, 2, 3, 4], vec![0; 5]];
    let mut marks = vec![0u32; 5];
    let mut total = 0u32;
    for step in sort_plan(5) {
        match step {
            SortStep::Predicate { bit, first } => {
                let src = usize::from(!first);
                marks = keys[src].iter().map(|k| u32::from(bit_is_clear(*k, bit))).collect();
            }
            SortStep::Scan => PrefixScan::new().scan(&mut marks, 5),
            SortStep::Total { bit, first } => {
                total = marks[4] + u32::from(bit_is_clear(keys[usize::from(!first)][4], bit));
            }
            SortStep::Scatter { bit, first } => {
                let (src, dst) = (usize::from(!first), usize::from(first));
                for i in 0..5 {
                    let (k, v) = (keys[src][i], vals[src][i]);
                    let before = marks[i];
                    let clear = bit_is_clear(k, bit);
                    let to = if clear { before } else { total + i as u32 - before } as usize;
                    keys[dst][to] = k;
                    vals[dst][to] = v;
                }
            }
        }
    }
    assert_eq!(keys[0], vec![2, 2, 7, 9, 0x8000_0000]);
    assert_eq!(vals[0], vec![1, 3, 4, 0, 2]);
}

#[test]
fn a_binning_without_pairs_stops_after_the_count() {
    assert!(bin_plan(0).is_empty());
    assert_eq!(bin_plan(3), vec![BinStep::Scan, BinStep::Emit, BinStep::Sort, BinStep::Ranges]);
}

#[test]
fn pass_parameters_carry_counts_and_tiling() {
    assert_eq!(sort_params(9, 31), [9, 31, 0, 0]);
    let t = TilingParams { width: 65, height: 30, tile_size: 16, depth_max: 7 };
    assert_eq!(tile_count_params(4, &t), [4, 16, 5, 2]);
    assert_eq!(emit_params(4, &t), [4, 16, 5, 2, 7, 0, 0, 0]);
    assert_eq!(ranges_params(12, 10), [12, 10, 0, 0]);
}
