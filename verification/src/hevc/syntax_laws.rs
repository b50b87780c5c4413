//! Code words of coding units, and how a tree block is divided into units.

use super::context_tables::init_value_of;
use super::contexts::{
    initial, state_of, Bins, CU_TRANSQUANT_BYPASS_FLAG_OFFSET, HEVC_CONTEXTS,
    NO_RESIDUAL_DATA_FLAG_OFFSET, PART_MODE_OFFSET, PRED_MODE_FLAG_OFFSET, REF_IDX_L0_OFFSET,
    SAO_MERGE_FLAG_OFFSET, SKIP_FLAG_OFFSET, SPLIT_CODING_UNIT_FLAG_OFFSET,
};
use super::cu::{
    coded_unit, inter_parts, inter_unit, intra_unit, node_leaf, node_split, part_mode, sao,
    sao_merge, skip_flag, skipped_unit, split_flag, unit, CuPlace,
};
use super::env::EnvV;
use super::frame::{side, FrameV, Geo, PF_INTRA};
use super::inter::{ref_idx, ref_prefix};
use super::intra::{intra_modes, luma_block, luma_mode, luma_modes};
use super::motion::{Ctb, Pu};
use super::motion_laws::kept_index;
use super::params::SpsV;
use super::slice_header::{HeaderV, SliceType};
use super::transform::{tree, Cu};
use super::unit_laws::{in_block, is_kept, law_intra_block_is_marked, lemma_cell_of};
use crate::grid::in_run;
use vstd::prelude::*;

verus! {

// ---------------------------------------------------------------------------
// Words of bins

/// A bin with a context, or for -1 one of equal probabilities.
pub open spec fn next_bin(c: Bins, ctx: int) -> (u32, Bins) {
    if ctx < 0 {
        c.bypass()
    } else {
        c.get(ctx)
    }
}

/// The decoder behind the first `k` bins that are read with contexts `ctx`.
pub open spec fn behind(c: Bins, ctx: Seq<int>, k: nat) -> Bins
    decreases k,
{
    if k == 0 {
        c
    } else {
        next_bin(behind(c, ctx, (k - 1) as nat), ctx[k - 1]).1
    }
}

/// Bin `k` of those that are read with contexts `ctx`.
pub open spec fn bin_at(c: Bins, ctx: Seq<int>, k: int) -> u32 {
    next_bin(behind(c, ctx, k as nat), ctx[k]).0
}

/// The next bins are those of `word`.
pub open spec fn spells(c: Bins, ctx: Seq<int>, word: Seq<u32>) -> bool {
    forall|k: int| 0 <= k < word.len() ==> #[trigger] bin_at(c, ctx, k) == word[k]
}

proof fn lemma_word(c: Bins, ctx: Seq<int>, word: Seq<u32>)
    requires
        spells(c, ctx, word),
    ensures
        word.len() > 0 ==> next_bin(c, ctx[0]).0 == word[0],
        word.len() > 1 ==> next_bin(behind(c, ctx, 1), ctx[1]).0 == word[1],
        word.len() > 2 ==> next_bin(behind(c, ctx, 2), ctx[2]).0 == word[2],
        word.len() > 3 ==> next_bin(behind(c, ctx, 3), ctx[3]).0 == word[3],
        behind(c, ctx, 0) == c,
        behind(c, ctx, 1) == next_bin(c, ctx[0]).1,
        behind(c, ctx, 2) == next_bin(behind(c, ctx, 1), ctx[1]).1,
        behind(c, ctx, 3) == next_bin(behind(c, ctx, 2), ctx[2]).1,
        behind(c, ctx, 4) == next_bin(behind(c, ctx, 3), ctx[3]).1,
{
    reveal_with_fuel(behind, 2);
    let n = word.len();
    if n > 0 {
        assert(bin_at(c, ctx, 0) == word[0]);
    }
    if n > 1 {
        assert(bin_at(c, ctx, 1) == word[1]);
    }
    if n > 2 {
        assert(bin_at(c, ctx, 2) == word[2]);
    }
    if n > 3 {
        assert(bin_at(c, ctx, 3) == word[3]);
    }
}

// ---------------------------------------------------------------------------
// Part modes

/// How the size and kind of a unit limit its part modes: the smallest size, of 8 samples or more; other
/// sizes, in halves only or in quarters too.
pub enum Modes {
    Smallest8,
    Smallest,
    Halves,
    Quarters,
}

/// The limits for an inter unit.
pub open spec fn modes_of(sps: SpsV, log2: u32) -> Modes {
    if log2 == sps.min_cb_log2_size_y {
        if log2 == 3 {
            Modes::Smallest8
        } else {
            Modes::Smallest
        }
    } else if sps.amp_enabled {
        Modes::Quarters
    } else {
        Modes::Halves
    }
}

/// The code word of a part mode of an inter unit and its contexts; none where it cannot have it.
pub open spec fn part_word(m: Modes, mode: u8) -> Option<(Seq<u32>, Seq<int>)> {
    let p = PART_MODE_OFFSET as int;
    let short: Seq<int> = seq![p, p + 1];
    let third: Seq<int> = seq![p, p + 1, p + 2];
    let long: Seq<int> = seq![p, p + 1, p + 3, -1];
    if mode == 0 {
        Some((seq![1u32], short))
    } else {
        match m {
            Modes::Smallest8 => if mode == 1 {
                Some((seq![0u32, 1], short))
            } else if mode == 2 {
                Some((seq![0u32, 0], short))
            } else {
                None
            },
            Modes::Smallest => if mode == 1 {
                Some((seq![0u32, 1], short))
            } else if mode == 2 {
                Some((seq![0u32, 0, 1], third))
            } else if mode == 3 {
                Some((seq![0u32, 0, 0], third))
            } else {
                None
            },
            Modes::Halves => if mode == 1 {
                Some((seq![0u32, 1], short))
            } else if mode == 2 {
                Some((seq![0u32, 0], short))
            } else {
                None
            },
            Modes::Quarters => if mode == 1 {
                Some((seq![0u32, 1, 1], long))
            } else if mode == 2 {
                Some((seq![0u32, 0, 1], long))
            } else if mode == 4 {
                Some((seq![0u32, 1, 0, 0], long))
            } else if mode == 5 {
                Some((seq![0u32, 1, 0, 1], long))
            } else if mode == 6 {
                Some((seq![0u32, 0, 0, 0], long))
            } else if mode == 7 {
                Some((seq![0u32, 0, 0, 1], long))
            } else {
                None
            },
        }
    }
}

/// An inter unit has the part mode whose code word comes.
pub proof fn law_part_modes(
    c: Bins,
    sps: SpsV,
    log2: u32,
    mode: u8,
    word: Seq<u32>,
    ctx: Seq<int>,
)
    requires
        part_word(modes_of(sps, log2), mode) == Some((word, ctx)),
        spells(c, ctx, word),
    ensures
        part_mode(c, sps, log2, false) == (mode, behind(c, ctx, word.len())),
{
    reveal(part_mode);
    lemma_word(c, ctx, word);
}

/// An intra unit of the smallest size is whole or in four, by one bin.
pub proof fn law_intra_part_modes(c: Bins, sps: SpsV, log2: u32)
    requires
        log2 == sps.min_cb_log2_size_y,
    ensures
        ({
            let (mode, rest) = part_mode(c, sps, log2, true);
            let (bin, c1) = c.get(PART_MODE_OFFSET as int);
            rest == c1 && mode == if bin == 1 {
                0u8
            } else {
                3u8
            }
        }),
{
    reveal(part_mode);
}

// ---------------------------------------------------------------------------
// Reference indices

/// The contexts of a reference index into a list of `n` pictures: two, and then none.
pub open spec fn ref_contexts(n: int) -> Seq<int> {
    Seq::new(
        n as nat,
        |i: int|
            if i < 2 {
                REF_IDX_L0_OFFSET + i
            } else {
                -1
            },
    )
}

proof fn lemma_ref_ones(c: Bins, s: Bins, i: int, n: int, r: int)
    requires
        2 <= i <= r < n,
        s == behind(c, ref_contexts(n), i as nat),
        forall|k: int| 0 <= k < r ==> #[trigger] bin_at(c, ref_contexts(n), k) == 1,
        r < n - 1 ==> bin_at(c, ref_contexts(n), r) != 1,
    ensures
        s.ones(i, n - 1) == (
            r,
            behind(
                c,
                ref_contexts(n),
                if r < n - 1 {
                    (r + 1) as nat
                } else {
                    r as nat
                },
            ),
        ),
    decreases r - i,
{
    let ctx = ref_contexts(n);
    if i < n - 1 {
        assert(ctx[i] == -1);
        assert(bin_at(c, ctx, i) == s.bypass().0);
        assert(behind(c, ctx, (i + 1) as nat) == s.bypass().1);
        if i < r {
            assert(bin_at(c, ctx, i) == 1);
            lemma_ref_ones(c, s.bypass().1, i + 1, n, r);
        }
    }
}

/// A reference index is the number of ones before the first zero, and there is no zero behind the last
/// index of the list.
pub proof fn law_reference_index(c: Bins, n: u32, r: int)
    requires
        1 <= n <= 127,
        0 <= r < n,
        forall|k: int| 0 <= k < r ==> #[trigger] bin_at(c, ref_contexts(n as int), k) == 1,
        r < n - 1 ==> bin_at(c, ref_contexts(n as int), r) != 1,
    ensures
        ref_idx(c, n) == (
            r as i8,
            behind(
                c,
                ref_contexts(n as int),
                if r < n - 1 {
                    (r + 1) as nat
                } else {
                    r as nat
                },
            ),
        ),
{
    reveal(ref_idx);
    reveal_with_fuel(ref_prefix, 3);
    reveal_with_fuel(behind, 3);
    let ctx = ref_contexts(n as int);
    if n > 1 {
        assert(ctx[0] == REF_IDX_L0_OFFSET + 0);
        assert(bin_at(c, ctx, 0) == c.get(REF_IDX_L0_OFFSET as int).0);
        if r > 0 {
            assert(bin_at(c, ctx, 0) == 1);
        }
    }
    let c1 = behind(c, ctx, 1);
    if n > 2 {
        assert(ctx[1] == REF_IDX_L0_OFFSET + 1);
        assert(bin_at(c, ctx, 1) == c1.get(REF_IDX_L0_OFFSET + 1).0);
        if r > 1 {
            assert(bin_at(c, ctx, 1) == 1);
            assert(behind(c, ctx, 2) == c1.get(REF_IDX_L0_OFFSET + 1).1);
            lemma_ref_ones(c, behind(c, ctx, 2), 2, n as int, r);
        }
    }
}

// ---------------------------------------------------------------------------
// Contexts

/// How many of the neighbours to the left and above, that can be used, have a property.
pub open spec fn how_many(left: bool, up: bool) -> int {
    if left && up {
        2
    } else if left || up {
        1
    } else {
        0
    }
}

/// Where flags and depths of the sample at `x`, `y` are kept.
pub open spec fn unit_index(g: Geo, x: int, y: int) -> int {
    y / (g.min_cb as int) * g.cb_w + x / (g.min_cb as int)
}

/// The context of a skip flag counts the neighbours that are skipped.
pub proof fn law_skip_context(c: Bins, f: FrameV, g: Geo, t: Ctb, x: int, y: int)
    requires
        (x % (g.ctb as int) > 0 || t.left) ==> 0 <= unit_index(g, x - 1, y) < f.skip.len(),
        (y % (g.ctb as int) > 0 || t.up) ==> 0 <= unit_index(g, x, y - 1) < f.skip.len(),
        g.wf(),
    ensures
        ({
            let left = (x % (g.ctb as int) > 0 || t.left) && f.skip[unit_index(g, x - 1, y)] != 0;
            let up = (y % (g.ctb as int) > 0 || t.up) && f.skip[unit_index(g, x, y - 1)] != 0;
            let (bin, c1) = c.get(SKIP_FLAG_OFFSET + how_many(left, up));
            skip_flag(c, f, g, t, x, y) == (bin == 1, c1)
        }),
{
    reveal(skip_flag);
    reveal(FrameV::skip_at);
}

/// The context of a split flag counts the neighbours that are divided deeper.
pub proof fn law_split_context(c: Bins, f: FrameV, g: Geo, t: Ctb, x: int, y: int, depth: int)
    requires
        (x % (g.ctb as int) > 0 || t.left) ==> 0 <= unit_index(g, x - 1, y) < f.depth.len(),
        (y % (g.ctb as int) > 0 || t.up) ==> 0 <= unit_index(g, x, y - 1) < f.depth.len(),
        g.wf(),
    ensures
        ({
            let left = (x % (g.ctb as int) > 0 || t.left) && f.depth[unit_index(g, x - 1, y)]
                > depth;
            let up = (y % (g.ctb as int) > 0 || t.up) && f.depth[unit_index(g, x, y - 1)] > depth;
            let (bin, c1) = c.get(SPLIT_CODING_UNIT_FLAG_OFFSET + how_many(left, up));
            split_flag(c, f, g, t, x, y, depth) == (bin == 1, c1)
        }),
{
    reveal(split_flag);
    reveal(FrameV::depth_at);
}

// ---------------------------------------------------------------------------
// Nodes

/// A node of the smallest size is not divided, and a larger one that does not fit in the picture is;
/// nothing is coded for that. Otherwise a flag says so.
pub proof fn law_nodes_are_divided(
    c: Bins,
    f: FrameV,
    e: EnvV,
    t: Ctb,
    x: int,
    y: int,
    log2: u32,
    depth: int,
)
    ensures
        ({
            let r = node_split(c, f, e, t, x, y, log2, depth);
            let fits = x + side(log2) <= e.g.w && y + side(log2) <= e.g.h;
            let smallest = log2 <= e.sps.min_cb_log2_size_y;
            &&& smallest ==> r == (false, c)
            &&& !smallest && !fits ==> r == (true, c)
            &&& !smallest && fits ==> r == split_flag(c, f, e.g, t, x, y, depth)
        }),
{
    reveal(node_split);
}

/// Whether the slice ends is coded behind the last unit of a tree block, in the picture, and nowhere else.
pub proof fn law_end_of_slice(c: Bins, f: FrameV, e: EnvV, t: Ctb, u: CuPlace)
    requires
        e.g.ctb > 0,
    ensures
        ({
            let (more, rest, f2) = node_leaf(c, f, e, t, u);
            let (c1, f1) = unit(c, f, e, t, u);
            let ctb = e.g.ctb as int;
            let last_column = (u.x + u.n) % ctb == 0 || u.x + u.n >= e.g.w;
            let last_row = (u.y + u.n) % ctb == 0 || u.y + u.n >= e.g.h;
            let (end, c2) = c1.terminate();
            &&& f2 == f1
            &&& last_column && last_row ==> more == !end && rest == c2
            &&& !(last_column && last_row) ==> more && rest == c1
        }),
{
    reveal(node_leaf);
}

// ---------------------------------------------------------------------------
// Units

proof fn lemma_modes_keep_motion(
    c: Bins,
    f: FrameV,
    g: Geo,
    t: Ctb,
    x: int,
    y: int,
    n: int,
    split: bool,
    chroma: bool,
)
    ensures
        intra_modes(c, f, g, t, x, y, n, split, chroma).3.mvf == f.mvf,
{
    reveal(intra_modes);
    reveal(luma_modes);
    reveal(luma_block);
    reveal(luma_mode);
    reveal(FrameV::put_ipm);
}

pub proof fn lemma_intra_unit(
    c: Bins,
    f: FrameV,
    e: EnvV,
    t: Ctb,
    u: CuPlace,
    part: u8,
    bypass: bool,
)
    ensures
        intra_unit(c, f, e, t, u, part, bypass).1.mvf == f.put_intra(
            e.g,
            u.x as int,
            u.y as int,
            u.n as int,
        ).mvf,
{
    reveal(intra_unit);
    reveal(FrameV::put_ipm);
    reveal(FrameV::put_intra);
    let (x, y, n) = (u.x as int, u.y as int, u.n as int);
    let pcm = part == 0 && e.sps.pcm_enabled && e.sps.pcm_log2_min_cb <= u.log2
        <= e.sps.pcm_log2_max_cb;
    lemma_modes_keep_motion(
        if pcm {
            c.terminate().1
        } else {
            c
        },
        f,
        e.g,
        t,
        x,
        y,
        n,
        part == 3,
        e.sps.chroma_format_idc != 0,
    );
}

/// No sample of a unit of an I slice has motion. Of a unit of another slice none has, where the unit is not
/// skipped and its flag says intra.
pub proof fn law_intra_units_have_no_motion(
    c: Bins,
    f: FrameV,
    e: EnvV,
    t: Ctb,
    u: CuPlace,
    x: int,
    y: int,
)
    requires
        e.ok(),
        u.ok(e),
        in_block(Pu { x: u.x, y: u.y, w: u.n, h: u.n }, x, y),
        is_kept(f, e.g, x, y),
    ensures
        e.sh.slice_type == Some(SliceType::I) ==> unit(c, f, e, t, u).1.mvf[kept_index(e.g, x, y)].pred_flag
            == PF_INTRA,
        e.sh.slice_type == Some(SliceType::I) || c.flag(PRED_MODE_FLAG_OFFSET as int).0
            ==> coded_unit(c, f, e, t, u, false).1.mvf[kept_index(e.g, x, y)].pred_flag == PF_INTRA,
{
    reveal(unit);
    reveal(coded_unit);
    reveal(FrameV::put_skip);
    reveal(FrameV::put_depth);
    super::frame::lemma_cb_block(e.g, u.x as int, u.y as int, u.n as int);
    let p = Pu { x: u.x, y: u.y, w: u.n, h: u.n };
    assert forall|h: FrameV| h.mvf == f.mvf implies #[trigger] h.put_intra(
        e.g,
        u.x as int,
        u.y as int,
        u.n as int,
    ).mvf[kept_index(e.g, x, y)].pred_flag == PF_INTRA by {
        law_intra_block_is_marked(h, e.g, p, x, y);
    }
    assert forall|b: Bins, h: FrameV, part: u8, bypass: bool| h.mvf == f.mvf implies (
    #[trigger] intra_unit(b, h, e, t, u, part, bypass)).1.mvf[kept_index(e.g, x, y)].pred_flag
        == PF_INTRA by {
        lemma_intra_unit(b, h, e, t, u, part, bypass);
    }
}

/// Whether a unit is skipped, and how deep it is, is kept for all of its samples.
pub proof fn law_units_are_noted(
    f: FrameV,
    g: Geo,
    x: int,
    y: int,
    n: int,
    v: u8,
    sx: int,
    sy: int,
)
    requires
        g.wf(),
        g.has_cb(x, y, n),
        x <= sx < x + n,
        y <= sy < y + n,
    ensures
        ({
            let i = unit_index(g, sx, sy);
            &&& 0 <= i < f.skip.len() ==> f.put_skip(g, x, y, n, v).skip[i] == v
            &&& 0 <= i < f.depth.len() ==> f.put_depth(g, x, y, n, v).depth[i] == v
        }),
{
    reveal(FrameV::put_skip);
    reveal(FrameV::put_depth);
    let m = g.min_cb as int;
    super::frame::lemma_side_divides(m, n);
    super::frame::lemma_multiple(x, m, n);
    super::frame::lemma_multiple(y, m, n);
    lemma_cell_of(m, x, n, sx);
    lemma_cell_of(m, y, n, sy);
    assert(in_run(unit_index(g, sx, sy), g.cb_w as int, x / m, sy / m, n / m));
}

/// A coding unit has a flag that it is lossless, where the picture allows that, and, but in an I slice, one
/// that it is skipped. Whether it is skipped is noted before its motion, and its depth behind it.
pub proof fn law_unit(c: Bins, f: FrameV, e: EnvV, t: Ctb, u: CuPlace)
    ensures
        ({
            let (x, y, n) = (u.x as int, u.y as int, u.n as int);
            let lossless = e.pps.transquant_bypass_enabled_flag;
            let (bypass, b1) = c.flag(CU_TRANSQUANT_BYPASS_FLAG_OFFSET as int);
            let c1 = if lossless {
                b1
            } else {
                c
            };
            let is_i = e.sh.slice_type == Some(SliceType::I);
            let (flag, c2) = skip_flag(c1, f, e.g, t, x, y);
            let (c3, f3) = skipped_unit(c2, f.put_skip(e.g, x, y, n, 1), e, t, u);
            let (c4, f4) = coded_unit(
                if is_i {
                    c1
                } else {
                    c2
                },
                f.put_skip(e.g, x, y, n, 0),
                e,
                t,
                u,
                lossless && bypass,
            );
            unit(c, f, e, t, u) == if !is_i && flag {
                (c3, f3.put_depth(e.g, x, y, n, u.depth as u8))
            } else {
                (c4, f4.put_depth(e.g, x, y, n, u.depth as u8))
            }
        }),
{
    reveal(unit);
}

/// A unit that is not skipped says whether it is intra, but in an I slice, where it is. An inter unit has a part
/// mode, and an intra unit of the smallest size.
pub proof fn law_coded_unit(c: Bins, f: FrameV, e: EnvV, t: Ctb, u: CuPlace, bypass: bool)
    ensures
        ({
            let is_i = e.sh.slice_type == Some(SliceType::I);
            let (bin, b1) = c.get(PRED_MODE_FLAG_OFFSET as int);
            let intra = is_i || bin == 1;
            let c1 = if is_i {
                c
            } else {
                b1
            };
            let smallest = u.log2 == e.sps.min_cb_log2_size_y;
            let (mode, c2) = part_mode(c1, e.sps, u.log2, intra);
            let r = coded_unit(c, f, e, t, u, bypass);
            &&& intra && smallest ==> r == intra_unit(c2, f, e, t, u, mode, bypass)
            &&& intra && !smallest ==> r == intra_unit(c1, f, e, t, u, 0, bypass)
            &&& !intra ==> r == inter_unit(c2, f, e, t, u, mode, bypass)
        }),
{
    reveal(coded_unit);
}

/// An inter unit has its parts and then its residual. A flag says whether there is one, but where the unit is
/// whole and merges: then there is.
pub proof fn law_inter_unit(
    c: Bins,
    f: FrameV,
    e: EnvV,
    t: Ctb,
    u: CuPlace,
    part: u8,
    bypass: bool,
)
    ensures
        ({
            let f1 = f.put_ipm(e.g, u.x as int, u.y as int, u.n as int, 1);
            let (merged, c1, f2) = inter_parts(c, f1, e, t, u, part);
            let (bin, c2) = c1.get(NO_RESIDUAL_DATA_FLAG_OFFSET as int);
            let cu = Cu {
                is_intra: false,
                whole: part == 0,
                intra_split: false,
                bypass,
                max_depth: e.sps.max_transform_hierarchy_depth_inter as i32,
                modes: [1, 1, 1, 1],
                mode_c: 1,
            };
            let residual = |d: Bins| tree(d, e.sps, e.pps, cu, u.log2, 0, 0, 1, false, false);
            inter_unit(c, f, e, t, u, part, bypass) == if merged {
                (residual(c1), f2)
            } else if bin == 1 {
                (residual(c2), f2)
            } else {
                (c2, f2)
            }
        }),
{
    reveal(inter_unit);
}

// ---------------------------------------------------------------------------
// Sample-adaptive offset

/// A tree block that takes the offsets of its left or upper neighbour codes nothing more, and one of a slice
/// without offsets nothing at all. Where the left neighbour gives them, the upper one is not asked.
pub proof fn law_offsets_are_merged(c: Bins, sps: SpsV, sh: HeaderV, t: Ctb)
    ensures
        ({
            let rest = sao(c, sps, sh, t);
            let (bin, c1) = c.get(SAO_MERGE_FLAG_OFFSET as int);
            let (bin2, c2) = c1.get(SAO_MERGE_FLAG_OFFSET as int);
            let any = sh.sao_luma || sh.sao_chroma;
            &&& !any ==> rest == c
            &&& any && (t.left || t.up) && bin == 1 ==> rest == c1
            &&& any && t.left && t.up && bin != 1 && bin2 == 1 ==> rest == c2
        }),
{
    reveal(sao);
    reveal(sao_merge);
}

// ---------------------------------------------------------------------------
// Contexts

/// The contexts of I, P and B slices start by a table each.
pub proof fn law_initial_contexts(qp: i32, ctx: int)
    requires
        0 <= ctx < HEVC_CONTEXTS,
    ensures
        initial(SliceType::I, false, qp)[ctx] == state_of(init_value_of(0, ctx), qp),
        initial(SliceType::P, false, qp)[ctx] == state_of(init_value_of(1, ctx), qp),
        initial(SliceType::B, false, qp)[ctx] == state_of(init_value_of(2, ctx), qp),
{
}

} // verus!
