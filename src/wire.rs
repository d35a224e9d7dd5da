use crate::config::Geometry;
use crate::partition::Region;
use vstd::arithmetic::div_mod::lemma_mod_multiples_basic;
use vstd::prelude::*;

verus! {

/// Colour of a cell once its tag byte is dropped.
pub open spec fn rgb_of(cell: u32) -> int {
    cell as int / 256
}

/// Decimal digits of `n`, without leading zeros.
pub open spec fn decimal(n: nat) -> Seq<u8>
    decreases n,
{
    if n < 10 {
        seq![(48 + n) as u8]
    } else {
        decimal(n / 10).push((48 + n % 10) as u8)
    }
}

/// Lowercase hexadecimal digit of `d < 16`.
pub open spec fn hex_digit(d: int) -> u8 {
    if d < 10 {
        (48 + d) as u8
    } else {
        (87 + d) as u8
    }
}

/// Six lowercase hexadecimal digits of `v < 2^24`.
pub open spec fn hex6(v: int) -> Seq<u8> {
    seq![
        hex_digit(v / 0x100000 % 16),
        hex_digit(v / 0x10000 % 16),
        hex_digit(v / 0x1000 % 16),
        hex_digit(v / 0x100 % 16),
        hex_digit(v / 0x10 % 16),
        hex_digit(v % 16),
    ]
}

/// The command `PX <x> <y> <rrggbb>\n`.
pub open spec fn text_line(x: int, y: int, rgb: int) -> Seq<u8> {
    seq![80u8, 88u8, 32u8] + decimal(x as nat) + seq![32u8] + decimal(y as nat) + seq![32u8]
        + hex6(rgb) + seq![10u8]
}

/// What the text format sends for the `i`-th cell of the slice.
pub open spec fn text_cell(cells: Seq<u32>, g: Geometry, i: int) -> Seq<u8> {
    let cell = cells[g.spec_cell_index(i)];
    if rgb_of(cell) == 0 {
        seq![]
    } else {
        text_line(g.spec_cell_x(i), g.spec_cell_y(i), rgb_of(cell))
    }
}

/// What the text format sends for the cells `[start, end)` of the slice.
pub open spec fn text_output(cells: Seq<u32>, g: Geometry, start: int, end: int) -> Seq<u8>
    decreases end - start,
{
    if end <= start {
        seq![]
    } else {
        text_output(cells, g, start, end - 1) + text_cell(cells, g, end - 1)
    }
}

/// The framebuffer once the text format has sent the cells `[start, end)` of the slice:
/// every cell that was sent is cleared, every other cell is left alone.
pub open spec fn text_cleared(cells: Seq<u32>, g: Geometry, start: int, end: int) -> Seq<u32> {
    Seq::new(
        cells.len(),
        |j: int|
            if g.spec_in_slice(j) && start <= g.spec_local_index(j) < end && rgb_of(cells[j]) != 0 {
                0u32
            } else {
                cells[j]
            },
    )
}

/// Marker of a cell that holds no pixel; the binary pixel format skips it.
pub const UNSET_PIXEL: u32 = 0;

/// `v` as two little-endian bytes.
pub open spec fn le16(v: int) -> Seq<u8> {
    seq![(v % 256) as u8, (v / 0x100 % 256) as u8]
}

/// `v` as four little-endian bytes.
pub open spec fn le32(v: int) -> Seq<u8> {
    seq![(v % 256) as u8, (v / 0x100 % 256) as u8, (v / 0x10000 % 256) as u8, (v / 0x1000000 % 256) as u8]
}

/// The ten byte frame `PB`, `x` and `y` as little-endian 16-bit values, the three low bytes
/// of the cell, then a zero alpha byte.
pub open spec fn pixel_frame(x: int, y: int, cell: u32) -> Seq<u8> {
    seq![80u8, 66u8] + le16(x) + le16(y) + le32(cell as int).take(3) + seq![0u8]
}

/// What the binary pixel format sends for the `i`-th cell of the slice.
pub open spec fn pixel_cell(cells: Seq<u32>, g: Geometry, i: int) -> Seq<u8> {
    let cell = cells[g.spec_cell_index(i)];
    if cell == UNSET_PIXEL {
        seq![]
    } else {
        pixel_frame(g.spec_cell_x(i), g.spec_cell_y(i), cell)
    }
}

/// What the binary pixel format sends for the cells `[start, end)` of the slice.
pub open spec fn pixel_output(cells: Seq<u32>, g: Geometry, start: int, end: int) -> Seq<u8>
    decreases end - start,
{
    if end <= start {
        seq![]
    } else {
        pixel_output(cells, g, start, end - 1) + pixel_cell(cells, g, end - 1)
    }
}

/// The cells as consecutive little-endian 32-bit words.
pub open spec fn le_words(cells: Seq<u32>) -> Seq<u8>
    decreases cells.len(),
{
    if cells.len() == 0 {
        seq![]
    } else {
        le_words(cells.drop_last()) + le32(cells.last() as int)
    }
}

/// A `PXMULTI` frame: the magic, `x0` and `y0` as little-endian 16-bit values, the number
/// of cells as a little-endian 32-bit value, then the cells.
pub open spec fn sync_frame(x0: int, y0: int, cells: Seq<u32>) -> Seq<u8> {
    seq![80u8, 88u8, 77u8, 85u8, 76u8, 84u8, 73u8] + le16(x0) + le16(y0) + le32(cells.len() as int)
        + le_words(cells)
}

/// The cells `[a, b)` of the slice, in row-major order.
pub open spec fn slice_cells(cells: Seq<u32>, g: Geometry, a: int, b: int) -> Seq<u32> {
    Seq::new((b - a) as nat, |k: int| cells[g.spec_cell_index(a + k)])
}

/// One past the last cell of the slice row that holds cell `i`, cut at `end`.
pub open spec fn row_end(g: Geometry, i: int, end: int) -> int {
    let next_row = i - i % g.spec_shard_width() + g.spec_shard_width();
    if end < next_row {
        end
    } else {
        next_row
    }
}

/// One `PXMULTI` frame for each row piece of the cells `[start, end)` of the slice.
pub open spec fn sync_rows(cells: Seq<u32>, g: Geometry, start: int, end: int) -> Seq<u8>
    decreases end - start,
{
    if end <= start || g.spec_shard_width() <= 0 {
        seq![]
    } else {
        let e = row_end(g, start, end);
        sync_frame(g.spec_cell_x(start), g.spec_cell_y(start), slice_cells(cells, g, start, e))
            + sync_rows(cells, g, e, end)
    }
}

/// What the binary sync format sends for the cells `[start, end)` of the slice: with more
/// than one shard a frame per row, else one frame for all of them.
pub open spec fn sync_output(cells: Seq<u32>, g: Geometry, start: int, end: int) -> Seq<u8> {
    if end <= start {
        seq![]
    } else if g.x_shards > 1 {
        sync_rows(cells, g, start, end)
    } else {
        sync_frame(g.spec_cell_x(start), g.spec_cell_y(start), slice_cells(cells, g, start, end))
    }
}

fn push_le16(out: &mut Vec<u8>, v: u16)
    ensures
        final(out)@ == old(out)@ + le16(v as int),
{
    out.push((v % 256) as u8);
    out.push((v / 0x100) as u8);
    assert(final(out)@ =~= old(out)@ + le16(v as int));
}

fn push_le32(out: &mut Vec<u8>, v: u32)
    ensures
        final(out)@ == old(out)@ + le32(v as int),
{
    out.push((v % 256) as u8);
    out.push((v / 0x100 % 256) as u8);
    out.push((v / 0x10000 % 256) as u8);
    out.push((v / 0x1000000) as u8);
    assert(final(out)@ =~= old(out)@ + le32(v as int));
}

fn push_le_words(out: &mut Vec<u8>, cells: &[u32])
    ensures
        final(out)@ == old(out)@ + le_words(cells@),
{
    let ghost before = out@;
    let mut k: usize = 0;
    assert(cells@.take(0) =~= Seq::<u32>::empty());
    assert(out@ =~= before + le_words(cells@.take(0)));
    while k < cells.len()
        invariant
            0 <= k <= cells@.len(),
            out@ == before + le_words(cells@.take(k as int)),
            before == old(out)@,
        decreases cells@.len() - k,
    {
        push_le32(out, cells[k]);
        proof {
            assert(cells@.take(k + 1).drop_last() =~= cells@.take(k as int));
            assert(out@ =~= before + le_words(cells@.take(k + 1)));
        }
        k += 1;
    }
    assert(cells@.take(cells@.len() as int) =~= cells@);
}

/// The cells as consecutive little-endian 32-bit words.
pub fn u32_to_u8(cells: &[u32]) -> (r: Vec<u8>)
    ensures
        r@ == le_words(cells@),
{
    let mut r: Vec<u8> = Vec::new();
    push_le_words(&mut r, cells);
    assert(r@ =~= le_words(cells@));
    r
}

fn push_sync_frame(out: &mut Vec<u8>, x0: u16, y0: u16, cells: &[u32])
    requires
        cells@.len() <= u32::MAX,
    ensures
        final(out)@ == old(out)@ + sync_frame(x0 as int, y0 as int, cells@),
{
    out.push(80);
    out.push(88);
    out.push(77);
    out.push(85);
    out.push(76);
    out.push(84);
    out.push(73);
    push_le16(out, x0);
    push_le16(out, y0);
    push_le32(out, cells.len() as u32);
    push_le_words(out, cells);
    assert(final(out)@ =~= old(out)@ + sync_frame(x0 as int, y0 as int, cells@));
}

/// Why a region could not be encoded.
#[derive(Clone, Copy, Debug, PartialEq, Eq, Structural)]
pub enum EncodeError {
    /// More cells than a `PXMULTI` frame can count.
    TooManyCells { len: usize },
}

/// One `PXMULTI` frame at `(x0, y0)` carrying `cells`; refused when their number does not
/// fit in 32 bits.
pub fn encode_sync_frame(x0: u16, y0: u16, cells: &[u32]) -> (r: Result<Vec<u8>, EncodeError>)
    ensures
        cells@.len() <= u32::MAX ==> r is Ok && r->Ok_0@ == sync_frame(
            x0 as int,
            y0 as int,
            cells@,
        ),
        cells@.len() > u32::MAX ==> r == Err::<Vec<u8>, EncodeError>(
            EncodeError::TooManyCells { len: cells@.len() as usize },
        ),
{
    if cells.len() > u32::MAX as usize {
        return Err(EncodeError::TooManyCells { len: cells.len() });
    }
    let mut out: Vec<u8> = Vec::new();
    push_sync_frame(&mut out, x0, y0, cells);
    assert(out@ =~= sync_frame(x0 as int, y0 as int, cells@));
    Ok(out)
}

fn push_decimal(out: &mut Vec<u8>, n: u16)
    ensures
        final(out)@ == old(out)@ + decimal(n as nat),
    decreases n,
{
    if n >= 10 {
        push_decimal(out, n / 10);
    }
    out.push((n % 10) as u8 + 48);
    proof {
        if n >= 10 {
            assert(old(out)@ + decimal(n as nat) =~= old(out)@ + decimal((n / 10) as nat) + seq![
                (48 + n % 10) as u8,
            ]);
        }
    }
}

fn hex_char(d: u32) -> (r: u8)
    requires
        d < 16,
    ensures
        r == hex_digit(d as int),
{
    if d < 10 {
        d as u8 + 48
    } else {
        d as u8 + 87
    }
}

fn push_hex6(out: &mut Vec<u8>, v: u32)
    ensures
        final(out)@ == old(out)@ + hex6(v as int),
{
    out.push(hex_char(v / 0x100000 % 16));
    out.push(hex_char(v / 0x10000 % 16));
    out.push(hex_char(v / 0x1000 % 16));
    out.push(hex_char(v / 0x100 % 16));
    out.push(hex_char(v / 0x10 % 16));
    out.push(hex_char(v % 16));
    assert(final(out)@ =~= old(out)@ + hex6(v as int));
}

fn push_text_line(out: &mut Vec<u8>, x: u16, y: u16, rgb: u32)
    ensures
        final(out)@ == old(out)@ + text_line(x as int, y as int, rgb as int),
{
    out.push(80);
    out.push(88);
    out.push(32);
    push_decimal(out, x);
    out.push(32);
    push_decimal(out, y);
    out.push(32);
    push_hex6(out, rgb);
    out.push(10);
    assert(final(out)@ =~= old(out)@ + text_line(x as int, y as int, rgb as int));
}

/// Sends the region in the text format: one `PX <x> <y> <rrggbb>\n` line, in row-major
/// order, for every cell whose colour is not zero, and clears each cell that was sent.
/// Cells past the end of the slice are not visited.
pub fn encode_text(fb: &mut [u32], g: &Geometry, region: &Region) -> (out: Vec<u8>)
    requires
        g.wf(),
        old(fb)@.len() == g.spec_cells(),
    ensures
        out@ == text_output(old(fb)@, *g, region.start as int, region.spec_end(*g)),
        final(fb)@ == text_cleared(old(fb)@, *g, region.start as int, region.spec_end(*g)),
{
    let ghost cells = fb@;
    let ghost start = region.start as int;
    let end = region.end(g);
    let w = g.shard_width() as usize;
    let s0 = g.shard_start();
    let mut out: Vec<u8> = Vec::new();
    let mut i = region.start;
    if i > end {
        assert(fb@ =~= text_cleared(cells, *g, start, end as int));
        return out;
    }
    assert(fb@ =~= text_cleared(cells, *g, start, start));
    while i < end
        invariant
            g.wf(),
            cells == old(fb)@,
            cells.len() == g.spec_cells(),
            fb@.len() == g.spec_cells(),
            w == g.spec_shard_width(),
            s0 == g.spec_shard_start(),
            start <= i <= end,
            end == region.spec_end(*g),
            end <= g.spec_shard_cells(),
            out@ == text_output(cells, *g, start, i as int),
            fb@ == text_cleared(cells, *g, start, i as int),
        decreases end - i,
    {
        proof {
            g.lemma_cell_index(i as int);
            g.lemma_shard_bounds();
        }
        let row = i / w;
        let col = i % w;
        assert(row * (g.width as int) + s0 + col == g.spec_cell_index(i as int));
        let idx = row * g.width as usize + s0 as usize + col;
        let cell = fb[idx];
        let rgb = cell / 256;
        if rgb != 0 {
            push_text_line(&mut out, s0 + col as u16, row as u16, rgb);
            fb[idx] = 0;
        }
        proof {
            assert forall|j: int| 0 <= j < fb@.len() implies #[trigger] fb@[j] == text_cleared(
                cells,
                *g,
                start,
                i + 1,
            )[j] by {
                if j != idx && g.spec_in_slice(j) {
                    g.lemma_local_index(j);
                }
            }
            assert(fb@ =~= text_cleared(cells, *g, start, i + 1));
        }
        i += 1;
    }
    out
}

/// Sends the region in the binary pixel format: one ten byte `PB` frame, in row-major
/// order, for every cell that differs from [`UNSET_PIXEL`]. Cells are not changed, so an
/// unchanged region is sent again on every tick. Cells past the end of the slice are not
/// visited.
pub fn encode_binary_pixel(fb: &[u32], g: &Geometry, region: &Region) -> (out: Vec<u8>)
    requires
        g.wf(),
        fb@.len() == g.spec_cells(),
    ensures
        out@ == pixel_output(fb@, *g, region.start as int, region.spec_end(*g)),
{
    let ghost start = region.start as int;
    let end = region.end(g);
    let w = g.shard_width() as usize;
    let s0 = g.shard_start();
    let mut out: Vec<u8> = Vec::new();
    let mut i = region.start;
    if i > end {
        return out;
    }
    while i < end
        invariant
            g.wf(),
            fb@.len() == g.spec_cells(),
            w == g.spec_shard_width(),
            s0 == g.spec_shard_start(),
            start <= i <= end,
            end == region.spec_end(*g),
            end <= g.spec_shard_cells(),
            out@ == pixel_output(fb@, *g, start, i as int),
        decreases end - i,
    {
        proof {
            g.lemma_cell_index(i as int);
            g.lemma_shard_bounds();
        }
        let row = i / w;
        let col = i % w;
        assert(row * (g.width as int) + s0 + col == g.spec_cell_index(i as int));
        let idx = row * g.width as usize + s0 as usize + col;
        let cell = fb[idx];
        if cell != UNSET_PIXEL {
            let ghost before = out@;
            out.push(80);
            out.push(66);
            push_le16(&mut out, s0 + col as u16);
            push_le16(&mut out, row as u16);
            out.push((cell % 256) as u8);
            out.push((cell / 0x100 % 256) as u8);
            out.push((cell / 0x10000 % 256) as u8);
            out.push(0);
            assert(out@ =~= before + pixel_frame(
                (s0 + col) as int,
                row as int,
                cell,
            ));
        }
        i += 1;
    }
    out
}

/// A piece of one row of the slice is a run of consecutive framebuffer cells.
proof fn lemma_row_piece(cells: Seq<u32>, g: Geometry, i: int, e: int)
    requires
        g.wf(),
        cells.len() == g.spec_cells(),
        0 <= i < e <= g.spec_shard_cells(),
        e <= i - i % g.spec_shard_width() + g.spec_shard_width(),
    ensures
        slice_cells(cells, g, i, e) == cells.subrange(
            g.spec_cell_index(i),
            g.spec_cell_index(i) + (e - i),
        ),
        g.spec_cell_index(i) + (e - i) <= cells.len(),
{
    g.lemma_shard_bounds();
    g.lemma_cell_index(i);
    g.lemma_cell_index(e - 1);
    g.lemma_same_row(i, e - 1 - i);
    let idx = g.spec_cell_index(i);
    assert forall|k: int| 0 <= k < e - i implies #[trigger] slice_cells(cells, g, i, e)[k]
        == cells.subrange(idx, idx + (e - i))[k] by {
        g.lemma_same_row(i, k);
    }
    assert(slice_cells(cells, g, i, e) =~= cells.subrange(idx, idx + (e - i)));
}

/// Sends the region in the binary sync format, whatever its cells hold. With more than one
/// shard every row piece of the region gets its own `PXMULTI` frame, in increasing row
/// order; without sharding the whole region is one frame. Cells past the end of the slice
/// are not sent.
pub fn encode_binary_sync(fb: &[u32], g: &Geometry, region: &Region) -> (out: Vec<u8>)
    requires
        g.wf(),
        fb@.len() == g.spec_cells(),
    ensures
        out@ == sync_output(fb@, *g, region.start as int, region.spec_end(*g)),
{
    let ghost cells = fb@;
    let start = region.start;
    let end = region.end(g);
    let mut out: Vec<u8> = Vec::new();
    if end <= start {
        return out;
    }
    proof {
        g.lemma_shard_bounds();
    }
    let w = g.shard_width() as usize;
    let s0 = g.shard_start();
    if g.x_shards <= 1 {
        proof {
            g.lemma_cell_index(start as int);
            g.lemma_unsharded_index(start as int);
            assert forall|k: int| 0 <= k < end - start implies #[trigger] slice_cells(
                cells,
                *g,
                start as int,
                end as int,
            )[k] == cells.subrange(start as int, end as int)[k] by {
                g.lemma_unsharded_index(start + k);
            }
            assert(slice_cells(cells, *g, start as int, end as int) =~= cells.subrange(
                start as int,
                end as int,
            ));
        }
        let x0 = s0 + (start % w) as u16;
        let y0 = (start / w) as u16;
        let piece = vstd::slice::slice_subrange(fb, start, end);
        push_sync_frame(&mut out, x0, y0, piece);
        return out;
    }
    let mut i = start;
    while i < end
        invariant
            g.wf(),
            g.spec_shard_width() > 0,
            cells == fb@,
            fb@.len() == g.spec_cells(),
            w == g.spec_shard_width(),
            s0 == g.spec_shard_start(),
            start <= i <= end,
            end <= g.spec_shard_cells(),
            end <= u32::MAX,
            out@ + sync_rows(cells, *g, i as int, end as int) == sync_rows(
                cells,
                *g,
                start as int,
                end as int,
            ),
        decreases end - i,
    {
        proof {
            g.lemma_cell_index(i as int);
            g.lemma_shard_bounds();
        }
        let row = i / w;
        let col = i % w;
        let next_row = i - col + w;
        let e = if end < next_row {
            end
        } else {
            next_row
        };
        assert(row * (g.width as int) + s0 + col == g.spec_cell_index(i as int));
        let idx = row * g.width as usize + s0 as usize + col;
        let n = e - i;
        proof {
            lemma_row_piece(cells, *g, i as int, e as int);
        }
        let piece = vstd::slice::slice_subrange(fb, idx, idx + n);
        let ghost before = out@;
        push_sync_frame(&mut out, s0 + col as u16, row as u16, piece);
        proof {
            assert(e == row_end(*g, i as int, end as int));
            assert(sync_rows(cells, *g, i as int, end as int) == sync_frame(
                g.spec_cell_x(i as int),
                g.spec_cell_y(i as int),
                slice_cells(cells, *g, i as int, e as int),
            ) + sync_rows(cells, *g, e as int, end as int));
            assert(before + sync_rows(cells, *g, i as int, end as int) =~= out@ + sync_rows(
                cells,
                *g,
                e as int,
                end as int,
            ));
        }
        i = e;
    }
    assert(out@ + sync_rows(cells, *g, end as int, end as int) =~= out@);
    out
}

/// Number of cells among `[start, end)` of the slice that the binary pixel format sends.
pub open spec fn set_count(cells: Seq<u32>, g: Geometry, start: int, end: int) -> int
    decreases end - start,
{
    if end <= start {
        0
    } else {
        set_count(cells, g, start, end - 1) + if cells[g.spec_cell_index(end - 1)] == UNSET_PIXEL {
            0int
        } else {
            1int
        }
    }
}

/// The cells of row `y` of the slice.
pub open spec fn row_cells(cells: Seq<u32>, g: Geometry, y: int) -> Seq<u32> {
    let first = y * g.width + g.spec_shard_start();
    cells.subrange(first, first + g.spec_shard_width())
}

/// One `PXMULTI` frame for each of the slice rows `[r0, r0 + rows)`, in order.
pub open spec fn row_frames(cells: Seq<u32>, g: Geometry, r0: int, rows: int) -> Seq<Seq<u8>> {
    Seq::new(
        rows as nat,
        |k: int| sync_frame(g.spec_shard_start(), r0 + k, row_cells(cells, g, r0 + k)),
    )
}

/// Text frames are sent once: every cell whose colour is zero is skipped and every cell
/// that was sent is cleared, so sending the same region again before the producer writes
/// to it sends nothing.
pub proof fn lemma_text_second_pass_is_empty(cells: Seq<u32>, g: Geometry, start: int, end: int)
    requires
        g.wf(),
        cells.len() == g.spec_cells(),
        0 <= start,
        end <= g.spec_shard_cells(),
    ensures
        text_output(text_cleared(cells, g, start, end), g, start, end) == Seq::<u8>::empty(),
{
    lemma_text_cleared_prefix(cells, g, start, end, end);
}

proof fn lemma_text_cleared_prefix(cells: Seq<u32>, g: Geometry, start: int, end: int, m: int)
    requires
        g.wf(),
        cells.len() == g.spec_cells(),
        0 <= start,
        m <= end <= g.spec_shard_cells(),
    ensures
        text_output(text_cleared(cells, g, start, end), g, start, m) == Seq::<u8>::empty(),
    decreases m - start,
{
    if m > start {
        lemma_text_cleared_prefix(cells, g, start, end, m - 1);
        g.lemma_cell_index(m - 1);
        let cleared = text_cleared(cells, g, start, end);
        assert(rgb_of(cleared[g.spec_cell_index(m - 1)]) == 0);
        assert(text_output(cleared, g, start, m) =~= Seq::<u8>::empty());
    }
}

/// The binary pixel format sends one ten byte frame for each cell of the region that is
/// not [`UNSET_PIXEL`] and nothing for the others.
pub proof fn lemma_pixel_frame_count(cells: Seq<u32>, g: Geometry, start: int, end: int)
    ensures
        pixel_output(cells, g, start, end).len() == 10 * set_count(cells, g, start, end),
    decreases end - start,
{
    if end > start {
        lemma_pixel_frame_count(cells, g, start, end - 1);
    }
}

/// As the binary pixel format leaves the cells alone, a region whose cells the producer
/// has not changed is sent again, frame for frame, on every tick: the frames depend on the
/// region's own cells only.
pub proof fn lemma_pixel_resent_until_changed(
    cells: Seq<u32>,
    later: Seq<u32>,
    g: Geometry,
    start: int,
    end: int,
)
    requires
        forall|i: int|
            start <= i < end ==> #[trigger] later[g.spec_cell_index(i)]
                == cells[g.spec_cell_index(i)],
    ensures
        pixel_output(later, g, start, end) == pixel_output(cells, g, start, end),
    decreases end - start,
{
    if end > start {
        lemma_pixel_resent_until_changed(cells, later, g, start, end - 1);
        assert(later[g.spec_cell_index(end - 1)] == cells[g.spec_cell_index(end - 1)]);
    }
}

/// With more than one shard, a region made of the whole slice rows `[r0, r0 + rows)` is
/// sent as exactly `rows` frames, one per row in increasing order; each counts
/// `shard_width` cells and carries the row's cells as little-endian words.
pub proof fn lemma_sync_whole_rows(cells: Seq<u32>, g: Geometry, r0: int, rows: int)
    requires
        g.wf(),
        g.x_shards > 1,
        cells.len() == g.spec_cells(),
        0 <= r0,
        0 <= rows,
        r0 + rows <= g.height,
    ensures
        sync_output(cells, g, r0 * g.spec_shard_width(), (r0 + rows) * g.spec_shard_width())
            == row_frames(cells, g, r0, rows).flatten(),
        row_frames(cells, g, r0, rows).len() == rows,
        forall|k: int|
            0 <= k < rows ==> (#[trigger] row_frames(cells, g, r0, rows)[k]).subrange(11, 15)
                == le32(g.spec_shard_width()) && row_frames(cells, g, r0, rows)[k].subrange(
                15,
                15 + 4 * g.spec_shard_width(),
            ) == le_words(row_cells(cells, g, r0 + k)),
    decreases rows,
{
    g.lemma_shard_bounds();
    let w = g.spec_shard_width();
    let frames = row_frames(cells, g, r0, rows);
    assert forall|k: int| 0 <= k < rows implies (#[trigger] frames[k]).subrange(11, 15) == le32(w)
        && frames[k].subrange(15, 15 + 4 * w) == le_words(row_cells(cells, g, r0 + k)) by {
        lemma_row_cells_len(cells, g, r0 + k);
        lemma_le_words_len(row_cells(cells, g, r0 + k));
        let f = frames[k];
        assert(f.subrange(11, 15) =~= le32(w));
        assert(f.subrange(15, 15 + 4 * w) =~= le_words(row_cells(cells, g, r0 + k)));
    }
    lemma_sync_rows_whole(cells, g, r0, rows, r0 + rows);
    if rows == 0 {
        assert(frames =~= Seq::<Seq<u8>>::empty());
    } else {
        assert((r0 + rows) * w > r0 * w) by (nonlinear_arith)
            requires
                rows > 0,
                w > 0,
        ;
    }
}

proof fn lemma_row_cells_len(cells: Seq<u32>, g: Geometry, y: int)
    requires
        g.wf(),
        cells.len() == g.spec_cells(),
        0 <= y < g.height,
    ensures
        row_cells(cells, g, y).len() == g.spec_shard_width(),
        0 <= y * g.width,
        y * g.width + g.width <= cells.len(),
{
    g.lemma_shard_bounds();
    let (width, height) = (g.width as int, g.height as int);
    assert(0 <= y * width && y * width + width <= width * height) by (nonlinear_arith)
        requires
            0 <= y < height,
            width >= 0,
    ;
}

proof fn lemma_le_words_len(cells: Seq<u32>)
    ensures
        le_words(cells).len() == 4 * cells.len(),
    decreases cells.len(),
{
    if cells.len() > 0 {
        lemma_le_words_len(cells.drop_last());
    }
}

proof fn lemma_sync_rows_whole(cells: Seq<u32>, g: Geometry, r0: int, rows: int, last: int)
    requires
        g.wf(),
        cells.len() == g.spec_cells(),
        0 <= r0,
        0 <= rows,
        r0 + rows == last,
        last <= g.height,
    ensures
        sync_rows(cells, g, r0 * g.spec_shard_width(), last * g.spec_shard_width())
            == row_frames(cells, g, r0, rows).flatten(),
    decreases rows,
{
    g.lemma_shard_bounds();
    let w = g.spec_shard_width();
    let frames = row_frames(cells, g, r0, rows);
    if rows == 0 {
        assert(frames =~= Seq::<Seq<u8>>::empty());
    } else {
        let (a, b, e) = (r0 * w, (r0 + 1) * w, last * w);
        assert(b == a + w && a < b <= e && e <= w * g.height && 0 <= a) by (nonlinear_arith)
            requires
                a == r0 * w,
                b == (r0 + 1) * w,
                e == last * w,
                r0 + 1 <= last <= g.height,
                w > 0,
                r0 >= 0,
        ;
        lemma_mod_multiples_basic(r0, w);
        assert(a % w == 0);
        assert(row_end(g, a, e) == b);
        lemma_row_piece(cells, g, a, b);
        g.lemma_cell_index(a);
        vstd::arithmetic::div_mod::lemma_div_multiples_vanish(r0, w);
        assert(g.spec_cell_y(a) == r0);
        assert(g.spec_cell_x(a) == g.spec_shard_start());
        assert(g.spec_cell_index(a) == r0 * g.width + g.spec_shard_start());
        assert(slice_cells(cells, g, a, b) == row_cells(cells, g, r0));
        lemma_sync_rows_whole(cells, g, r0 + 1, rows - 1, last);
        assert(frames.drop_first() =~= row_frames(cells, g, r0 + 1, rows - 1));
        assert(sync_rows(cells, g, a, e) == frames[0] + sync_rows(cells, g, b, e));
    }
}

} // verus!
