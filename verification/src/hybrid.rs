//! Integer helpers of the hybrid JPEG XL pipeline (CPU entropy decoding, GPU transforms)
//! and the placeholder of its decoding session.

use vstd::prelude::*;
use vstd::arithmetic::div_mod::{lemma_fundamental_div_mod, lemma_fundamental_div_mod_converse_mod, lemma_mod_bound,
    lemma_mul_mod_noop, lemma_add_mod_noop};
use crate::text::{decimal, push_decimal, push_str};

verus! {

/// The reflected index of `x` in `0..size` (edge-repeating mirror: -1 → 0, size → size-1,
/// with period 2·size).
pub open spec fn mirror(x: int, size: int) -> int {
    let r = x % (2 * size);
    if r < size { r } else { 2 * size - 1 - r }
}

proof fn lemma_mirror_flip(x: int, y: int, q: int, size: int)
    requires
        size > 0,
        y == 2 * size * q - 1 - x,
    ensures
        mirror(y, size) == mirror(x, size),
{
    let p = 2 * size;
    lemma_fundamental_div_mod(x, p);
    lemma_mod_bound(x, p);
    let r = x % p;
    assert(y == (q - x / p - 1) * p + (p - 1 - r)) by (nonlinear_arith)
        requires
            y == p * q - 1 - x,
            x == p * (x / p) + r,
    ;
    lemma_fundamental_div_mod_converse_mod(y, p, q - x / p - 1, p - 1 - r);
}

/// Mirrors an index into `0..size` (repeated reflection at both edges).
pub fn mirror_gab(x: isize, size: isize) -> (r: usize)
    requires
        size > 0,
        x > isize::MIN,
        (x >= size || x < -size) ==> 2 * size <= isize::MAX,
    ensures
        r == mirror(x as int, size as int),
        r < size,
{
    let ghost x0 = x as int;
    let mut x = x;
    while x < 0 || x >= size
        invariant
            size > 0,
            x > isize::MIN,
            (x >= size || x < -size) ==> 2 * size <= isize::MAX,
            mirror(x as int, size as int) == mirror(x0, size as int),
        decreases if x < 0 { -x } else { x as int },
    {
        let ghost prev = x as int;
        if x < 0 {
            x = -x - 1;
            proof {
                lemma_mirror_flip(prev, x as int, 0, size as int);
            }
        } else {
            x = 2 * size - 1 - x;
            proof {
                lemma_mirror_flip(prev, x as int, 1, size as int);
            }
        }
    }
    proof {
        lemma_fundamental_div_mod_converse_mod(x as int, 2 * size, 0, x as int);
    }
    x as usize
}

/// FNV-1a offset basis.
pub const FNV_OFFSET: u64 = 0xcbf2_9ce4_8422_2325;

/// FNV-1a prime.
pub const FNV_PRIME: u64 = 0x100_0000_01b3;

/// FNV-1a hash of the bytes.
pub open spec fn fnv1a(s: Seq<u8>) -> u64
    decreases s.len(),
{
    if s.len() == 0 {
        FNV_OFFSET
    } else {
        (((fnv1a(s.drop_last()) ^ (s.last() as u64)) as int * FNV_PRIME as int) % 0x1_0000_0000_0000_0000) as u64
    }
}

/// FNV-1a content tag of a buffer (lets unchanged uploads be skipped).
pub fn data_tag(data: &[u8]) -> (h: u64)
    ensures
        h == fnv1a(data@),
{
    let mut h: u64 = FNV_OFFSET;
    let mut i: usize = 0;
    while i < data.len()
        invariant
            i <= data@.len(),
            h == fnv1a(data@.take(i as int)),
        decreases data@.len() - i,
    {
        assert(data@.take(i + 1).drop_last() =~= data@.take(i as int));
        h = (h ^ data[i] as u64).wrapping_mul(FNV_PRIME);
        i = i + 1;
    }
    assert(data@.take(data@.len() as int) =~= data@);
    h
}

/// The hybrid decoding session (CPU entropy decoding overlapped with GPU transforms);
/// not implemented yet.
pub struct HybridDecodeSession {
    /// Depth of the group-to-GPU pipeline.
    pub pipeline_depth: usize,
}

impl HybridDecodeSession {
    /// The session is never available.
    pub fn is_available() -> (r: bool)
        ensures
            !r,
    {
        false
    }

    /// Opening always fails with the message that the pipeline is not implemented.
    pub fn open(_path: &str) -> (r: Result<HybridDecodeSession, String>)
        ensures
            r matches Err(m) && m@ == "混合解码管线未实现（路线 B 骨架，见设计文档 §4.5.1）"@,
    {
        Err(String::from_str("混合解码管线未实现（路线 B 骨架，见设计文档 §4.5.1）"))
    }
}

/// Statistics of the CPU reference reconstruction.
pub struct GoldenStats {
    /// First blocks that are not DCT8 (left to the reference layer).
    pub non_dct8_blocks: usize,
}

impl Default for GoldenStats {
    fn default() -> (r: Self)
        ensures
            r.non_dct8_blocks == 0,
    {
        GoldenStats { non_dct8_blocks: 0 }
    }
}

/// Diagnostic switches of the reference reconstruction (all off = libjxl's behaviour).
pub struct GoldenOpts {
    pub disable_cfl: bool,
    pub disable_dc_overwrite: bool,
    /// Transpose each 8×8 coefficient block before the IDCT.
    pub transpose_coeffs: bool,
    /// Transpose each output block.
    pub transpose_output: bool,
}

impl Default for GoldenOpts {
    fn default() -> (r: Self)
        ensures
            !r.disable_cfl && !r.disable_dc_overwrite && !r.transpose_coeffs && !r.transpose_output,
    {
        GoldenOpts { disable_cfl: false, disable_dc_overwrite: false, transpose_coeffs: false, transpose_output: false }
    }
}

/// Blocks covered along x by each varblock transform kind, in enumeration order.
pub open spec fn covered_x() -> Seq<u8> {
    seq![1u8, 1, 1, 1, 2, 4, 1, 2, 1, 4, 2, 4, 1, 1, 1, 1, 1, 1, 8, 4, 8, 16, 8, 16, 32, 16, 32]
}

/// Blocks covered along y by each varblock transform kind, in enumeration order.
pub open spec fn covered_y() -> Seq<u8> {
    seq![1u8, 1, 1, 1, 2, 4, 2, 1, 4, 1, 4, 2, 1, 1, 1, 1, 1, 1, 8, 8, 4, 16, 16, 8, 32, 32, 16]
}

/// Number of transform kinds.
pub const TRANSFORM_KINDS: u8 = 27;

/// Coefficients of a varblock of kind `kind` (64 per covered block).
pub open spec fn coeff_size(kind: int) -> int {
    if 0 <= kind < TRANSFORM_KINDS {
        covered_x()[kind] * covered_y()[kind] * 64
    } else {
        0
    }
}

/// Geometry of a frame's coefficient snapshot: `num_groups` groups of
/// `group_dim`×`group_dim` pixels, `xsize_groups` per row, over a frame of
/// `xsize_blocks`×`ysize_blocks` 8×8 blocks.
pub struct BlockGrid {
    pub num_groups: u32,
    pub group_dim: u32,
    pub xsize_groups: u32,
    pub xsize_blocks: u32,
    pub ysize_blocks: u32,
}

impl BlockGrid {
    /// Blocks along a side of a group.
    pub open spec fn group_blocks(self) -> int {
        self.group_dim as int / 8
    }

    /// First block column of group `g`.
    pub open spec fn x0(self, g: int) -> int {
        (g % self.xsize_groups as int) * self.group_blocks()
    }

    /// First block row of group `g`.
    pub open spec fn y0(self, g: int) -> int {
        (g / self.xsize_groups as int) * self.group_blocks()
    }

    /// Block columns of group `g` (clipped at the frame's edge).
    pub open spec fn width(self, g: int) -> int {
        let x0 = if self.x0(g) < self.xsize_blocks { self.x0(g) } else { self.xsize_blocks as int };
        let rest = self.xsize_blocks - x0;
        if self.group_blocks() < rest { self.group_blocks() } else { rest }
    }

    /// Block rows of group `g` (clipped at the frame's edge).
    pub open spec fn height(self, g: int) -> int {
        let y0 = if self.y0(g) < self.ysize_blocks { self.y0(g) } else { self.ysize_blocks as int };
        let rest = self.ysize_blocks - y0;
        if self.group_blocks() < rest { self.group_blocks() } else { rest }
    }

    /// Index in the strategy map of block (`bx`, `by`) of group `g`.
    pub open spec fn map_index(self, g: int, by: int, bx: int) -> int {
        (self.y0(g) + by) * self.xsize_blocks + self.x0(g) + bx
    }
}

/// Scan of group `g` in row-major block order from block (`bx`, `by`), where the
/// coefficient slot offset inside the group is `offset`: each DCT8 block gives
/// (block column, block row, slot base `g·group_dim² + offset`). A block starts a
/// varblock when bit 0 of its strategy byte is set; the kind is the byte shifted right
/// once; each varblock start advances the offset by its coefficient count.
pub open spec fn group_scan(grid: BlockGrid, ac: Seq<u8>, g: int, by: int, bx: int, offset: int) -> Seq<(int, int, int)>
    decreases grid.height(g) - by, grid.width(g) - bx,
{
    if by < 0 || by >= grid.height(g) {
        Seq::empty()
    } else if bx < 0 || bx >= grid.width(g) {
        group_scan(grid, ac, g, by + 1, 0, offset)
    } else {
        let acs = ac[grid.map_index(g, by, bx)] as int;
        if acs % 2 == 0 {
            group_scan(grid, ac, g, by, bx + 1, offset)
        } else if acs / 2 == 0 {
            seq![(grid.x0(g) + bx, grid.y0(g) + by, g * grid.group_dim * grid.group_dim + offset)]
                + group_scan(grid, ac, g, by, bx + 1, offset + 64)
        } else {
            group_scan(grid, ac, g, by, bx + 1, offset + coeff_size(acs / 2))
        }
    }
}

/// The DCT8 blocks of groups `g..num_groups`, group after group.
pub open spec fn groups_scan(grid: BlockGrid, ac: Seq<u8>, g: int) -> Seq<(int, int, int)>
    decreases grid.num_groups - g,
{
    if g < 0 || g >= grid.num_groups {
        Seq::empty()
    } else {
        group_scan(grid, ac, g, 0, 0, 0) + groups_scan(grid, ac, g + 1)
    }
}

/// Every DCT8 block of the frame in output order, with its slot base.
pub open spec fn dct8_blocks(grid: BlockGrid, ac: Seq<u8>) -> Seq<(int, int, int)> {
    groups_scan(grid, ac, 0)
}

/// Every block that a scan visits lies in the strategy map, and every varblock kind
/// is known where the frame has a DCT8 block at all.
pub open spec fn strategy_map_fits(grid: BlockGrid, ac: Seq<u8>) -> bool {
    &&& grid.num_groups > 0 ==> grid.xsize_groups > 0
    &&& forall|g: int, by: int, bx: int|
        0 <= g < grid.num_groups && 0 <= by < grid.height(g) && 0 <= bx < grid.width(g)
            ==> 0 <= #[trigger] grid.map_index(g, by, bx) < ac.len()
    &&& dct8_blocks(grid, ac).len() > 0 ==> forall|g: int, by: int, bx: int|
        0 <= g < grid.num_groups && 0 <= by < grid.height(g) && 0 <= bx < grid.width(g)
            ==> #[trigger] ac[grid.map_index(g, by, bx)] / 2 < TRANSFORM_KINDS
}

/// A block outside the DC image of `dc_x`×`dc_y`.
pub open spec fn outside_dc(e: (int, int, int), dc_x: int, dc_y: int) -> bool {
    e.1 >= dc_y || e.0 >= dc_x
}

/// Error text of a DCT8 block outside the DC image.
pub open spec fn dc_range_error(bx: int, by: int, dc_x: int, dc_y: int) -> Seq<char> {
    "DC 坐标越界: abs ("@ + decimal(bx as nat) + ","@ + decimal(by as nat) + ") dc "@
        + decimal(dc_x as nat) + "x"@ + decimal(dc_y as nat)
}

/// Slot bases of the blocks, each truncated to 32 bits.
pub open spec fn slot_bases(es: Seq<(int, int, int)>) -> Seq<u32> {
    Seq::new(es.len(), |i: int| (es[i].2 % 0x1_0000_0000) as u32)
}

/// Coefficients of a varblock of kind `kind`.
fn covered_size(kind: u8) -> (r: u32)
    requires
        kind < TRANSFORM_KINDS,
    ensures
        r == coeff_size(kind as int),
{
    let cx: [u8; 27] = [1, 1, 1, 1, 2, 4, 1, 2, 1, 4, 2, 4, 1, 1, 1, 1, 1, 1, 8, 4, 8, 16, 8, 16, 32, 16, 32];
    let cy: [u8; 27] = [1, 1, 1, 1, 2, 4, 2, 1, 4, 1, 4, 2, 1, 1, 1, 1, 1, 1, 8, 8, 4, 16, 16, 8, 32, 32, 16];
    assert(cx@ =~= covered_x());
    assert(cy@ =~= covered_y());
    let k = kind as usize;
    let a = cx[k] as u32;
    let b = cy[k] as u32;
    assert(a * b <= 255 * 255) by (nonlinear_arith)
        requires
            a <= 255,
            b <= 255,
    ;
    a * b * 64
}

proof fn lemma_wrap_base(g: int, gd: int, offset: int, gc32: int, g32: int, off32: int, r: int)
    requires
        g >= 0,
        gd >= 0,
        offset >= 0,
        g32 == g % 0x1_0000_0000,
        gc32 == (gd * gd) % 0x1_0000_0000,
        off32 == offset % 0x1_0000_0000,
        r == ((g32 * gc32) % 0x1_0000_0000 + off32) % 0x1_0000_0000,
    ensures
        r == (g * gd * gd + offset) % 0x1_0000_0000,
{
    let m: int = 0x1_0000_0000;
    lemma_mul_mod_noop(g, gd * gd, m);
    lemma_add_mod_noop(g * (gd * gd), offset, m);
    assert(g * (gd * gd) == g * gd * gd) by (nonlinear_arith);
}

/// The block grid with these dimensions.
pub open spec fn block_grid(num_groups: u32, group_dim: u32, xsize_groups: u32, xsize_blocks: u32, ysize_blocks: u32) -> BlockGrid {
    BlockGrid { num_groups, group_dim, xsize_groups, xsize_blocks, ysize_blocks }
}

fn dc_range_error_text(bx: u64, by: u64, dc_x: u32, dc_y: u32) -> (s: String)
    ensures
        s@ == dc_range_error(bx as int, by as int, dc_x as int, dc_y as int),
{
    let mut s = String::new();
    push_str(&mut s, "DC 坐标越界: abs (");
    push_decimal(&mut s, bx);
    push_str(&mut s, ",");
    push_decimal(&mut s, by);
    push_str(&mut s, ") dc ");
    push_decimal(&mut s, dc_x as u64);
    push_str(&mut s, "x");
    push_decimal(&mut s, dc_y as u64);
    proof {
        reveal_strlit("DC 坐标越界: abs (");
        reveal_strlit(",");
        reveal_strlit(") dc ");
        reveal_strlit("x");
    }
    s
}

/// Coefficient slot bases of the DCT8 blocks of a frame, in output order (group after
/// group, row-major inside a group): the base of a block is `g·group_dim² + offset`,
/// where `offset` counts the coefficients of the varblocks before it in its group,
/// truncated to 32 bits. Fails when the frame has no DCT8 block, or at the first DCT8
/// block outside the `dc_xsize`×`dc_ysize` DC image.
pub fn prep_bases(
    ac_strategy: &[u8],
    num_groups: u32,
    group_dim: u32,
    xsize_groups: u32,
    xsize_blocks: u32,
    ysize_blocks: u32,
    dc_xsize: u32,
    dc_ysize: u32,
) -> (r: Result<Vec<u32>, String>)
    requires
        strategy_map_fits(block_grid(num_groups, group_dim, xsize_groups, xsize_blocks, ysize_blocks), ac_strategy@),
    ensures
        ({
            let es = dct8_blocks(block_grid(num_groups, group_dim, xsize_groups, xsize_blocks, ysize_blocks), ac_strategy@);
            &&& es.len() == 0 ==> r is Err && r->Err_0@ == "无 DCT8 块"@
            &&& es.len() > 0 ==> (r is Ok <==> forall|i: int| 0 <= i < es.len()
                ==> !outside_dc(#[trigger] es[i], dc_xsize as int, dc_ysize as int))
            &&& r matches Ok(v) ==> v@ == slot_bases(es)
            &&& r matches Err(e) ==> (es.len() > 0 ==> exists|i: int| {
                &&& 0 <= i < es.len()
                &&& outside_dc(es[i], dc_xsize as int, dc_ysize as int)
                &&& forall|j: int| 0 <= j < i ==> !outside_dc(#[trigger] es[j], dc_xsize as int, dc_ysize as int)
                &&& e@ == dc_range_error(es[i].0, es[i].1, dc_xsize as int, dc_ysize as int)
            })
        }),
{
    let ghost grid = block_grid(num_groups, group_dim, xsize_groups, xsize_blocks, ysize_blocks);
    let ghost ac = ac_strategy@;
    let ghost whole = dct8_blocks(grid, ac);
    let gdb: u64 = (group_dim / 8) as u64;
    let xb: u64 = xsize_blocks as u64;
    let yb: u64 = ysize_blocks as u64;
    let gc32: u32 = group_dim.wrapping_mul(group_dim);
    let alen: usize = ac_strategy.len();
    let mut out: Vec<u32> = Vec::new();
    let ghost mut acc: Seq<(int, int, int)> = Seq::empty();
    let mut g: u32 = 0;
    while g < num_groups
        invariant
            g <= num_groups,
            grid == block_grid(num_groups, group_dim, xsize_groups, xsize_blocks, ysize_blocks),
            ac == ac_strategy@,
            whole == dct8_blocks(grid, ac),
            strategy_map_fits(grid, ac),
            gdb == grid.group_blocks(),
            xb == xsize_blocks,
            yb == ysize_blocks,
            gc32 == (group_dim * group_dim) % 0x1_0000_0000,
            alen == ac_strategy@.len(),
            acc + groups_scan(grid, ac, g as int) == whole,
            out@ == slot_bases(acc),
            forall|i: int| 0 <= i < acc.len() ==> !outside_dc(#[trigger] acc[i], dc_xsize as int, dc_ysize as int),
        decreases num_groups - g,
    {
        let xg: u64 = xsize_groups as u64;
        let gq: u64 = g as u64 / xg;
        let gr: u64 = g as u64 % xg;
        assert(gq <= g) by (nonlinear_arith)
            requires
                gq == g as u64 / xg,
                xg > 0,
        ;
        assert(gr * gdb <= 0xffff_ffff * 0xffff_ffff && gq * gdb <= 0xffff_ffff * 0xffff_ffff) by (nonlinear_arith)
            requires
                gr < 0x1_0000_0000,
                gq < 0x1_0000_0000,
                gdb < 0x1_0000_0000,
        ;
        let x0: u64 = gr * gdb;
        let y0: u64 = gq * gdb;
        let w: u64 = if gdb < xb - (if x0 < xb { x0 } else { xb }) { gdb } else { xb - (if x0 < xb { x0 } else { xb }) };
        let h: u64 = if gdb < yb - (if y0 < yb { y0 } else { yb }) { gdb } else { yb - (if y0 < yb { y0 } else { yb }) };
        assert(x0 == grid.x0(g as int) && y0 == grid.y0(g as int));
        assert(w == grid.width(g as int) && h == grid.height(g as int));
        let gbase: u32 = g.wrapping_mul(gc32);
        let mut offset: u32 = 0;
        let ghost mut off_int: int = 0;
        assert(acc + groups_scan(grid, ac, g as int)
            =~= acc + group_scan(grid, ac, g as int, 0, 0, 0) + groups_scan(grid, ac, g + 1));
        let mut by: u64 = 0;
        while by < h
            invariant
                g < num_groups,
                by <= h,
                grid == block_grid(num_groups, group_dim, xsize_groups, xsize_blocks, ysize_blocks),
                ac == ac_strategy@,
                whole == dct8_blocks(grid, ac),
                strategy_map_fits(grid, ac),
                gdb == grid.group_blocks(),
                xb == xsize_blocks,
                yb == ysize_blocks,
                alen == ac_strategy@.len(),
                x0 == grid.x0(g as int),
                y0 == grid.y0(g as int),
                w == grid.width(g as int),
                h == grid.height(g as int),
                gbase == (g * gc32) % 0x1_0000_0000,
                gc32 == (group_dim * group_dim) % 0x1_0000_0000,
                off_int >= 0,
                offset == off_int % 0x1_0000_0000,
                acc + group_scan(grid, ac, g as int, by as int, 0, off_int) + groups_scan(grid, ac, g + 1) == whole,
                out@ == slot_bases(acc),
                forall|i: int| 0 <= i < acc.len() ==> !outside_dc(#[trigger] acc[i], dc_xsize as int, dc_ysize as int),
            decreases h - by,
        {
            let mut bx: u64 = 0;
            while bx < w
                invariant
                    g < num_groups,
                    by < h,
                    bx <= w,
                    grid == block_grid(num_groups, group_dim, xsize_groups, xsize_blocks, ysize_blocks),
                    ac == ac_strategy@,
                    whole == dct8_blocks(grid, ac),
                    strategy_map_fits(grid, ac),
                    xb == xsize_blocks,
                    yb == ysize_blocks,
                    gdb == grid.group_blocks(),
                    alen == ac_strategy@.len(),
                    x0 == grid.x0(g as int),
                    y0 == grid.y0(g as int),
                    w == grid.width(g as int),
                    h == grid.height(g as int),
                    gbase == (g * gc32) % 0x1_0000_0000,
                    gc32 == (group_dim * group_dim) % 0x1_0000_0000,
                    off_int >= 0,
                    offset == off_int % 0x1_0000_0000,
                    acc + group_scan(grid, ac, g as int, by as int, bx as int, off_int) + groups_scan(grid, ac, g + 1) == whole,
                    out@ == slot_bases(acc),
                    forall|i: int| 0 <= i < acc.len() ==> !outside_dc(#[trigger] acc[i], dc_xsize as int, dc_ysize as int),
                decreases w - bx,
            {
                let ghost mi = grid.map_index(g as int, by as int, bx as int);
                assert(0 <= mi < ac.len());
                assert(y0 + by < yb);
                let row: u64 = y0 + by;
                assert(row * xb + x0 + bx == mi);
                assert(mi < alen);
                let idx = (row * xb + x0 + bx) as usize;
                let acs = ac_strategy[idx];
                let ghost rest_before = group_scan(grid, ac, g as int, by as int, bx as int, off_int);
                if acs % 2 != 0 {
                    let kind = acs / 2;
                    if kind == 0 {
                        let ax = x0 + bx;
                        let ay = y0 + by;
                        let ghost e = (ax as int, ay as int, g * group_dim * group_dim + off_int);
                        assert(rest_before == seq![e] + group_scan(grid, ac, g as int, by as int, bx + 1, off_int + 64));
                        if ay >= dc_ysize as u64 || ax >= dc_xsize as u64 {
                            assert(whole == acc + (seq![e] + group_scan(grid, ac, g as int, by as int, bx + 1, off_int + 64))
                                + groups_scan(grid, ac, g + 1));
                            assert(whole[acc.len() as int] == e) by {
                                assert((acc + (seq![e] + group_scan(grid, ac, g as int, by as int, bx + 1, off_int + 64))
                                    + groups_scan(grid, ac, g + 1))[acc.len() as int] == e);
                            }
                            assert(forall|j: int| 0 <= j < acc.len() ==> whole[j] == acc[j]) by {
                                assert forall|j: int| 0 <= j < acc.len() implies whole[j] == acc[j] by {
                                    assert((acc + (seq![e] + group_scan(grid, ac, g as int, by as int, bx + 1, off_int + 64))
                                        + groups_scan(grid, ac, g + 1))[j] == acc[j]);
                                }
                            }
                            return Err(dc_range_error_text(ax, ay, dc_xsize, dc_ysize));
                        }
                        let base = gbase.wrapping_add(offset);
                        proof {
                            lemma_wrap_base(g as int, group_dim as int, off_int, gc32 as int, g as int, offset as int, base as int);
                        }
                        out.push(base);
                        proof {
                            assert(slot_bases(acc.push(e)) =~= slot_bases(acc).push(base));
                            assert(acc.push(e) + group_scan(grid, ac, g as int, by as int, bx + 1, off_int + 64)
                                =~= acc + (seq![e] + group_scan(grid, ac, g as int, by as int, bx + 1, off_int + 64)));
                            acc = acc.push(e);
                        }
                        offset = offset.wrapping_add(64);
                        proof {
                            lemma_add_mod_noop(off_int, 64, 0x1_0000_0000);
                            off_int = off_int + 64;
                        }
                    } else if kind < TRANSFORM_KINDS {
                        let size = covered_size(kind);
                        offset = offset.wrapping_add(size);
                        proof {
                            lemma_add_mod_noop(off_int, size as int, 0x1_0000_0000);
                            off_int = off_int + size;
                        }
                    }
                }
                bx = bx + 1;
            }
            assert(group_scan(grid, ac, g as int, by as int, bx as int, off_int)
                == group_scan(grid, ac, g as int, by + 1, 0, off_int));
            by = by + 1;
        }
        assert(group_scan(grid, ac, g as int, by as int, 0, off_int) =~= Seq::<(int, int, int)>::empty());
        assert(acc + Seq::<(int, int, int)>::empty() =~= acc);
        g = g + 1;
    }
    assert(groups_scan(grid, ac, g as int) =~= Seq::<(int, int, int)>::empty());
    assert(acc + Seq::<(int, int, int)>::empty() =~= acc);
    if out.len() == 0 {
        let e = String::from_str("无 DCT8 块");
        proof { reveal_strlit("无 DCT8 块"); }
        return Err(e);
    }
    Ok(out)
}

} // verus!
