//! Geometry of the switcher: the grid of icon cells and the title row under it.

use crate::icons::{pixel_at, BwIcon};
use vstd::prelude::*;
use vstd::string::{StrSliceExecFns, StringExecFns};
use vstd::utf8::{decode_utf8, encode_utf8, is_char_boundary};

verus! {

/// Side of an icon cell, in pixels.
pub const ICON_SIZE: u16 = 48;

/// Space around and between cells, in pixels.
pub const PADDING: u16 = 8;

/// Height of the title row under the grid, in pixels.
pub const TITLE_HEIGHT: u16 = 24;

/// The most columns the grid ever has.
pub const MAX_COLS: u16 = 20;

/// A window offered by the switcher.
pub struct WindowInfo {
    pub wid: u32,
    pub title: String,
    pub icon: BwIcon,
}

/// Geometry of one switcher session.
pub struct Layout {
    pub cols: u16,
    pub icon_size: u16,
    pub padding: u16,
    pub win_width: u16,
}

/// Width that the switcher may use on a screen `screen_width` wide: four fifths of it.
pub open spec fn usable_width(screen_width: int) -> int {
    screen_width * 4 / 5
}

/// How many cells fit side by side in the usable width; at least one.
pub open spec fn cols_by_width(screen_width: int) -> int {
    let room = usable_width(screen_width) - PADDING;
    let n = if room > 0 { room / (ICON_SIZE + PADDING) } else { 0 };
    if n >= 1 { n } else { 1 }
}

/// The smaller of two integers.
pub open spec fn min(a: int, b: int) -> int {
    if a <= b { a } else { b }
}

/// Columns of the grid for `count` windows: as many as the windows, the
/// width and [`MAX_COLS`] allow, and never fewer than one.
pub open spec fn layout_cols(screen_width: int, count: int) -> int {
    let c = min(min(count, cols_by_width(screen_width)), MAX_COLS as int);
    if c >= 1 { c } else { 1 }
}

/// Rows of the grid for `count` windows in `cols` columns; at least one.
pub open spec fn layout_rows(count: int, cols: int) -> int {
    let r = count / cols + if count % cols == 0 { 0int } else { 1int };
    if r >= 1 { r } else { 1 }
}

impl Layout {
    /// The columns are within their bounds and the sizes are the fixed ones.
    pub open spec fn wf(&self) -> bool {
        &&& 1 <= self.cols <= MAX_COLS
        &&& self.icon_size == ICON_SIZE
        &&& self.padding == PADDING
        &&& self.win_width == self.cols * (ICON_SIZE + PADDING) + PADDING
    }
}

/// The layout of a switcher for `window_count` windows on a screen
/// `screen_width` pixels wide.
pub fn calculate_layout(screen_width: u16, window_count: usize) -> (r: Layout)
    ensures
        r.wf(),
        r.cols == layout_cols(screen_width as int, window_count as int),
        window_count >= 1 ==> 1 <= r.cols <= min(window_count as int, MAX_COLS as int),
        r.cols <= cols_by_width(screen_width as int),
{
    let max_width = (screen_width as u32 * 4 / 5) as u16;
    let room = if max_width > PADDING {
        max_width - PADDING
    } else {
        0
    };
    let fit = room / (ICON_SIZE + PADDING);
    let max_cols_by_width = if fit >= 1 {
        fit
    } else {
        1
    };
    let mut cols: u16 = MAX_COLS;
    if max_cols_by_width < cols {
        cols = max_cols_by_width;
    }
    if window_count < cols as usize {
        cols = window_count as u16;
    }
    if cols < 1 {
        cols = 1;
    }
    assert(1 <= cols <= 20);
    assert(cols * 56 <= 20 * 56) by (nonlinear_arith)
        requires
            cols <= 20,
    ;
    let win_width = cols * (ICON_SIZE + PADDING) + PADDING;
    Layout { cols, icon_size: ICON_SIZE, padding: PADDING, win_width }
}

/// Rows of the grid for `window_count` windows.
pub fn grid_rows(layout: &Layout, window_count: usize) -> (r: usize)
    requires
        layout.wf(),
    ensures
        r == layout_rows(window_count as int, layout.cols as int),
{
    let cols = layout.cols as usize;
    let q = window_count / cols;
    let rows = if window_count % cols == 0 {
        q
    } else {
        proof {
            let n = window_count as int;
            let c = cols as int;
            vstd::arithmetic::div_mod::lemma_fundamental_div_mod(n, c);
            assert(c >= 2);
            assert(2 * q <= n) by (nonlinear_arith)
                requires
                    n == c * q + n % c,
                    n % c >= 0,
                    c >= 2,
                    q >= 0,
            ;
        }
        q + 1
    };
    if rows >= 1 {
        rows
    } else {
        1
    }
}

/// Top-left corner of cell `index` of the grid, filled row by row.
pub fn cell_origin(layout: &Layout, index: usize) -> (r: (u64, u64))
    requires
        layout.wf(),
        index <= u32::MAX,
    ensures
        r.0 == PADDING + (index as int % layout.cols as int) * (ICON_SIZE + PADDING),
        r.1 == PADDING + (index as int / layout.cols as int) * (ICON_SIZE + PADDING),
{
    let cols = layout.cols as usize;
    let col = (index % cols) as u64;
    let row = (index / cols) as u64;
    let step = (ICON_SIZE + PADDING) as u64;
    (PADDING as u64 + col * step, PADDING as u64 + row * step)
}

/// The largest character boundary of a UTF-8 byte string that is at most `k`.
pub open spec fn boundary_at_most(bytes: Seq<u8>, k: int) -> int
    decreases k,
{
    if k <= 0 {
        0
    } else if is_char_boundary(bytes, k) {
        k
    } else {
        boundary_at_most(bytes, k - 1)
    }
}

/// A title as shown in a title row `win_width` pixels wide, where each byte of
/// its UTF-8 text takes seven pixels: whole if it fits, else its longest
/// whole-character prefix that leaves three bytes' room, and an ellipsis.
pub open spec fn truncated(title: Seq<char>, win_width: int) -> Seq<char> {
    let bytes = encode_utf8(title);
    let max_bytes = win_width / 7;
    if bytes.len() > max_bytes {
        let cut = boundary_at_most(bytes, if max_bytes >= 3 { max_bytes - 3 } else { 0 });
        decode_utf8(bytes.subrange(0, cut)) + seq!['.', '.', '.']
    } else {
        title
    }
}

/// The title to show in a title row `win_width` pixels wide.
pub fn truncate_title(title: &str, win_width: u16) -> (r: String)
    ensures
        r@ == truncated(title@, win_width as int),
{
    broadcast use vstd::utf8::encode_utf8_valid_utf8, vstd::utf8::encode_utf8_decode_utf8;

    let max_bytes = (win_width / 7) as usize;
    let len = title.as_bytes().len();
    if len > max_bytes {
        let keep = if max_bytes >= 3 {
            max_bytes - 3
        } else {
            0
        };
        let ghost bytes = encode_utf8(title@);
        let mut cut = keep;
        while cut > 0 && !title.is_char_boundary(cut)
            invariant
                cut <= keep,
                bytes == encode_utf8(title@),
                boundary_at_most(bytes, keep as int) == boundary_at_most(bytes, cut as int),
            decreases cut,
        {
            cut = cut - 1;
        }
        proof {
            assert(is_char_boundary(bytes, 0));
            assert(boundary_at_most(bytes, cut as int) == cut);
        }
        let (head, _) = title.split_at(cut);
        proof {
            assert(encode_utf8(head@) == bytes.subrange(0, cut as int));
            assert(head@ == decode_utf8(encode_utf8(head@)));
        }
        let mut out = String::from_str(head);
        out.append("...");
        proof {
            reveal_strlit("...");
            assert("..."@ =~= seq!['.', '.', '.']);
        }
        out
    } else {
        String::from_str(title)
    }
}

/// Top of the title row, under `rows` rows of cells.
pub fn title_row_y(layout: &Layout, rows: u16) -> (r: u32)
    requires
        layout.wf(),
    ensures
        r == rows * (ICON_SIZE + PADDING) + PADDING,
{
    assert(rows * 56 <= 0xffff * 56) by (nonlinear_arith)
        requires
            rows <= 0xffff,
    ;
    rows as u32 * (ICON_SIZE + PADDING) as u32 + PADDING as u32
}

/// Height of the switcher window for `window_count` windows: the rows of
/// cells, then the title row.
pub fn window_height(layout: &Layout, window_count: usize) -> (r: u64)
    requires
        layout.wf(),
        window_count <= u32::MAX,
    ensures
        r == layout_rows(window_count as int, layout.cols as int) * (ICON_SIZE + PADDING) + PADDING
            + TITLE_HEIGHT,
{
    let rows = grid_rows(layout, window_count) as u64;
    proof {
        assert(rows <= window_count + 1) by (nonlinear_arith)
            requires
                rows == layout_rows(window_count as int, layout.cols as int),
                layout.cols >= 1,
        ;
    }
    rows * (ICON_SIZE + PADDING) as u64 + PADDING as u64 + TITLE_HEIGHT as u64
}

/// Offset from a cell's corner to a centred icon's corner, in pixels:
/// half the difference of the sides, rounded toward zero.
pub open spec fn centre_offset(cell_size: int, icon_size: int) -> int {
    if cell_size >= icon_size {
        (cell_size - icon_size) / 2
    } else {
        -((icon_size - cell_size) / 2)
    }
}

/// Where an icon `icon_size` pixels square goes in the cell at `(x, y)`, and
/// the highlight box drawn round it when selected: `(icon_x, icon_y)` and
/// `(box_x, box_y, box_side)`, the box two pixels wider on every side.
pub fn icon_placement(x: i32, y: i32, cell_size: u16, icon_size: u16) -> (r: ((i32, i32), (i32, i32, u32)))
    requires
        -0x1000_0000 <= x <= 0x1000_0000,
        -0x1000_0000 <= y <= 0x1000_0000,
    ensures
        r.0.0 == x + centre_offset(cell_size as int, icon_size as int),
        r.0.1 == y + centre_offset(cell_size as int, icon_size as int),
        r.1.0 == r.0.0 - 2,
        r.1.1 == r.0.1 - 2,
        r.1.2 == icon_size + 4,
{
    let c = cell_size as i32;
    let i = icon_size as i32;
    let off = if c >= i {
        (c - i) / 2
    } else {
        -((i - c) / 2)
    };
    let ix = x + off;
    let iy = y + off;
    ((ix, iy), (ix - 2, iy - 2, icon_size as u32 + 4))
}

/// The ink pixels among the first `n` of a bitmap `width` wide, in row order.
pub open spec fn ink_points_upto(data: Seq<bool>, width: int, n: int) -> Seq<(int, int)>
    decreases n,
{
    if n <= 0 {
        seq![]
    } else {
        let prev = ink_points_upto(data, width, n - 1);
        let i = n - 1;
        if pixel_at(data, width, i % width, i / width) {
            prev.push((i % width, i / width))
        } else {
            prev
        }
    }
}

/// The ink pixels of a bitmap as `(x, y)`, in row order: where a drawing of
/// the icon puts ink.
pub fn icon_ink_points(icon: &BwIcon) -> (r: Vec<(u16, u16)>)
    ensures
        r@.map_values(|p: (u16, u16)| (p.0 as int, p.1 as int)) == ink_points_upto(
            icon.data@,
            icon.width as int,
            icon.width * icon.height,
        ),
{
    let w = icon.width as u64;
    assert(w * icon.height <= 0xffff * 0xffff) by (nonlinear_arith)
        requires
            w <= 0xffff,
            icon.height <= 0xffff,
    ;
    let n = w * icon.height as u64;
    let mut out: Vec<(u16, u16)> = Vec::new();
    if w == 0 {
        proof {
            assert(icon.width * icon.height == 0) by (nonlinear_arith)
                requires
                    icon.width == 0,
            ;
        }
        return out;
    }
    let mut i: u64 = 0;
    while i < n
        invariant
            i <= n,
            w == icon.width,
            w > 0,
            n == icon.width * icon.height,
            out@.map_values(|p: (u16, u16)| (p.0 as int, p.1 as int)) == ink_points_upto(
                icon.data@,
                w as int,
                i as int,
            ),
        decreases n - i,
    {
        let x = i % w;
        let y = i / w;
        proof {
            vstd::arithmetic::div_mod::lemma_fundamental_div_mod(i as int, w as int);
            assert(y * w <= i) by (nonlinear_arith)
                requires
                    i == w * y + x,
                    x >= 0,
            ;
            assert(y < 0x10000) by (nonlinear_arith)
                requires
                    y * w <= i,
                    i < n,
                    n == w * icon.height,
                    w > 0,
                    icon.height <= 0xffff,
            ;
        }
        let idx = y * w + x;
        let ink = if idx < icon.data.len() as u64 {
            icon.data[idx as usize]
        } else {
            false
        };
        let ghost prev = out@.map_values(|p: (u16, u16)| (p.0 as int, p.1 as int));
        if ink {
            out.push((x as u16, y as u16));
        }
        proof {
            assert(out@.map_values(|p: (u16, u16)| (p.0 as int, p.1 as int)) =~= ink_points_upto(
                icon.data@,
                w as int,
                i + 1,
            ));
        }
        i = i + 1;
    }
    out
}

} // verus!
