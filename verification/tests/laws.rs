//! What holds of the library as a whole, on concrete values.

use mv_extract::cabac::{init_context, Cabac};
use mv_extract::grid::{fill_rect, fill_runs, new_grid};
use mv_extract::h264::grids::{block_xy, xy_scan, FrameGrids};
use mv_extract::hevc::export::export_frame_mvs;
use mv_extract::hevc::frame::{blank_field, Geo, MvField};
use mv_extract::motion::{
    add_mv, mid_mv, mid_pred, push_compact, push_full, quarter_of, MotionVector, Mv, MvCompact,
    Row,
};
use mv_extract::refs::{build_ref_list, next_poc_msb, pad_ref_list};
use mv_extract::reorder::Reorder;
use mv_extract::stats::Stats;

#[test]
fn median_of_three() {
    for (a, b, c, m) in [(1, 2, 3, 2), (3, 1, 2, 2), (5, 5, -9, 5), (-1, 7, -1, -1), (0, 0, 0, 0)] {
        assert_eq!(mid_pred(a, b, c), m);
        assert_eq!(mid_pred(b, a, c), m);
        assert_eq!(mid_pred(a, c, b), m);
    }
    let m = mid_mv(Mv { x: 1, y: 9 }, Mv { x: 2, y: 8 }, Mv { x: 3, y: 7 });
    assert_eq!(m, Mv { x: 2, y: 8 });
    let s = add_mv(Mv { x: i32::MAX, y: 1 }, Mv { x: 1, y: -3 });
    assert_eq!(s, Mv { x: i32::MIN, y: -2 });
}

#[test]
fn quarters_round_towards_zero() {
    for (v, q) in [(0, 0), (3, 0), (4, 1), (-3, 0), (-4, -1), (-7, -1), (i32::MIN, i32::MIN / 4)] {
        assert_eq!(quarter_of(v), q);
    }
}

fn some_rows() -> Vec<Row> {
    let mut rows = Vec::new();
    for (i, (source, x, y)) in
        [(-1, 8, 0), (1, 8, 4), (-1, 3, -3), (1, 0, 0), (-1, -400, 16)].into_iter().enumerate()
    {
        rows.push(Row { x: 16 * i as i32 + 8, y: 8, w: 16, h: 16, source, mv: Mv { x, y } });
    }
    rows
}

#[test]
fn rows_in_both_formats() {
    let rows = some_rows();
    for l0_only in [false, true] {
        let mut full: Vec<MotionVector> = Vec::new();
        let mut compact: Vec<MvCompact> = Vec::new();
        push_full(&rows, 7, l0_only, &mut full);
        push_compact(&rows, 7, l0_only, &mut compact);
        assert_eq!(full.len(), if l0_only { 2 } else { 3 });
        assert_eq!(full.len(), compact.len());
        for (f, c) in full.iter().zip(&compact) {
            assert_eq!((f.src_x as i16, f.dst_x as i16), (c.src_x, c.dst_x));
            assert_eq!((f.src_y as i16, f.dst_y as i16), (c.src_y, c.dst_y));
            assert_eq!((f.frame, f.source), (c.frame, c.source));
            assert!(f.src_x != f.dst_x || f.src_y != f.dst_y);
            assert!(!l0_only || f.source <= 0);
        }
    }
}

#[test]
fn filling_stays_inside_the_rectangle() {
    let mut g = new_grid(5 * 4, 0u8);
    fill_rect(&mut g, 5, 1, 2, 3, 1, 9);
    for (i, &v) in g.iter().enumerate() {
        let inside = i / 5 == 2 && (1..4).contains(&(i % 5));
        assert_eq!(v == 9, inside);
    }
}

#[test]
fn blocks_in_coding_order() {
    for i in 0..16 {
        let (x, y) = block_xy(i);
        assert_eq!(xy_scan(x, y), i);
    }
    assert_eq!(block_xy(6), (2, 1));
    assert_eq!(block_xy(11), (1, 3));
}

#[test]
fn lists_repeat_their_entries() {
    assert_eq!(pad_ref_list(&[4, 2], &[7], 5), vec![4, 2, 7, 4, 2]);
    assert_eq!(pad_ref_list(&[4, 2], &[7], 1), vec![4]);
    assert!(pad_ref_list(&[], &[], 3).is_empty());
    assert_eq!(build_ref_list(&[], &[-3, 8], 3), vec![-3, 8, -3]);
    assert!(build_ref_list(&[1], &[2], 0).is_empty());
}

#[test]
fn order_counts_are_the_nearest() {
    for prev in 0..64i32 {
        for lsb in 0..16i32 {
            let (msb, low) = (prev / 16 * 16, prev % 16);
            let poc = next_poc_msb(16, lsb, msb, low) + lsb;
            assert_eq!(poc.rem_euclid(16), lsb);
            assert!((-8..=8).contains(&(poc - prev)));
        }
    }
}

#[test]
fn counters_add_in_any_order() {
    let a = Stats { cavlc_decoded: 3, incomplete: 1, frames: 9, ..Stats::default() };
    let b = Stats { cabac_decoded: 5, parse_errors: 2, unsupported: 4, ..Stats::default() };
    let mut x = Stats::default();
    x.merge(&a);
    x.merge(&b);
    let mut y = Stats::default();
    y.merge(&b);
    y.merge(&a);
    assert!(x == y);
    assert_eq!((x.cavlc_decoded, x.cabac_decoded, x.incomplete, x.parse_errors), (3, 5, 1, 2));
    assert_eq!((x.frames, x.unsupported), (0, 0));
}

#[test]
fn contexts_start_by_formula() {
    // 20 * 26 >> 4 = 32, and -15 makes 17.
    assert_eq!(init_context(20, -15, 26), 2 * (63 - 17));
    assert_eq!(init_context(0, 64, 26), 1);
    assert_eq!(init_context(0, 63, 26), 0);
    assert_eq!(init_context(-28, 127, -4), 2 * (126 - 64) + 1);
    assert_eq!(init_context(-28, 127, 99), 2 * (63 - 37));
}

#[test]
fn bypass_bins_are_the_bits() {
    // With a range of 510 and an offset of 0 the next bypass bins follow the data.
    let data = [0, 0, 0, 0];
    let mut c = Cabac::new(&data, 0);
    for _ in 0..8 {
        assert_eq!(c.bypass(), 0);
    }
    assert_eq!(c.bypass_sign(5), -5);
    assert!(!c.terminate());
    let ones = [0xFF, 0x00, 0xFF];
    let mut c = Cabac::new(&ones, 0);
    assert!(c.terminate());
    assert_eq!(c.pcm_byte_pos(), 2);
}

#[test]
fn new_grids() {
    let mut g = FrameGrids::new(3, 2, true);
    assert_eq!((g.dims(), g.mb_count(), g.is_chroma422()), ((3, 2), 6, true));
    let (bw, mv, refi) = g.mv_refi_snapshot();
    assert_eq!((bw, mv.len(), refi.len()), (12, 96, 96));
    assert!(mv.iter().all(|m| *m == [0, 0]) && refi.iter().all(|&r| r == -2));
    let (mv1, refi1) = g.mv_refi1_snapshot();
    assert_eq!((mv1, refi1), (mv, refi));
    assert_eq!(g.col_shape_snapshot().len(), 6);
    g.reset(true);
    let mut out = Vec::new();
    g.export_mvs_compact(0, false, &mut out);
    assert!(out.is_empty());
}

fn geo(w: i32, h: i32) -> Geo {
    Geo {
        w,
        h,
        ctb: 64,
        min_cb: 8,
        min_pu: 4,
        min_tb: 4,
        cb_w: (w / 8) as usize,
        cb_h: (h / 8) as usize,
        pu_w: (w / 4) as usize,
        pu_h: (h / 4) as usize,
        ctb_w: (w as u32).div_ceil(64),
    }
}

#[test]
fn equal_motion_makes_one_rectangle() {
    let g = geo(16, 8);
    let mut tab: Vec<MvField> = (0..8).map(|_| blank_field()).collect();
    let mut m = blank_field();
    m.mv = [[8, -5], [-4, 0]];
    m.ref_idx = [1, 0];
    m.pred_flag = 3;
    // The left half, and one block on the right.
    for i in [0, 1, 4, 5, 7] {
        tab[i] = m;
    }
    let mut out = Vec::new();
    export_frame_mvs(&tab, &g, 3, &mut out);
    let row = |source, x: i16, y: i16, dx: i16, dy: i16| MvCompact {
        frame: 3,
        source,
        src_x: x,
        src_y: y,
        dst_x: x + dx,
        dst_y: y + dy,
    };
    assert_eq!(
        out,
        vec![
            row(-2, 4, 4, 2, -2),
            row(1, 4, 4, -1, 0),
            row(-2, 14, 6, 2, -2),
            row(1, 14, 6, -1, 0),
        ]
    );
}

#[test]
fn rectangles_stay_below_256_samples() {
    let g = geo(320, 8);
    let mut m = blank_field();
    m.mv[0] = [4, 0];
    m.ref_idx[0] = 0;
    m.pred_flag = 1;
    let tab: Vec<MvField> = (0..160).map(|_| m).collect();
    let mut out = Vec::new();
    export_frame_mvs(&tab, &g, 0, &mut out);
    let xs: Vec<i16> = out.iter().map(|r| r.src_x).collect();
    assert_eq!(xs, vec![126, 286]);
}

fn rows_of(i: i32) -> Vec<MvCompact> {
    (0..i % 3)
        .map(|k| MvCompact {
            frame: i,
            source: -1,
            src_x: k as i16,
            src_y: 0,
            dst_x: 9,
            dst_y: 9,
        })
        .collect()
}

#[test]
fn results_in_any_order_are_put_right() {
    for order in [[0, 1, 2, 3, 4, 5], [5, 4, 3, 2, 1, 0], [2, 0, 1, 5, 3, 4], [1, 3, 5, 0, 2, 4]] {
        let mut r = Reorder::new();
        let mut written = Vec::new();
        let mut given = Vec::new();
        for i in order {
            written.extend(r.take(i, rows_of(i)));
            given.push(i);
            // So far just the rows before the first number that is missing.
            let next = (0..7).find(|n| !given.contains(n)).unwrap();
            let want: Vec<MvCompact> = (0..next).flat_map(rows_of).collect();
            assert_eq!(written, want);
        }
        let all: Vec<MvCompact> = (0..6).flat_map(rows_of).collect();
        assert_eq!(written, all);
    }
}

#[test]
fn a_second_reset_changes_nothing() {
    let mut g = FrameGrids::new(2, 2, false);
    for cabac in [false, true] {
        g.reset(cabac);
        let a = (g.mv_refi_snapshot(), g.mv_refi1_snapshot(), g.col_shape_snapshot());
        g.reset(cabac);
        let b = (g.mv_refi_snapshot(), g.mv_refi1_snapshot(), g.col_shape_snapshot());
        assert!(a == b);
        assert_eq!((g.dims(), g.is_chroma422()), ((2, 2), false));
    }
}

#[test]
fn runs_and_rectangles() {
    let (mut a, mut b) = (new_grid(15, 0u8), new_grid(15, 0u8));
    fill_rect(&mut a, 5, 2, 1, 3, 2, 7);
    fill_runs(&mut b, 5, 2, 1, 3, 2, 7);
    assert_eq!(a, b);
    // Past the end of a row comes the next row, and past the end of the grid there is nothing.
    let mut c = new_grid(15, 0u8);
    fill_runs(&mut c, 5, 4, 1, 2, 2, 9);
    assert_eq!(c, vec![0, 0, 0, 0, 0, 0, 0, 0, 0, 9, 9, 0, 0, 0, 9]);
}
