use vstd::prelude::*;
use vstd::arithmetic::div_mod::{
    lemma_div_is_ordered, lemma_fundamental_div_mod, lemma_fundamental_div_mod_converse,
};

verus! {

broadcast use vstd::seq_lib::group_to_multiset_ensures;

/// A window rectangle within a display, in the display's own pixel space.
#[derive(Clone, Copy, PartialEq, Eq, Structural, Debug)]
pub struct WindowPosition {
    pub x: u32,
    pub y: u32,
    pub w: u32,
    pub h: u32,
}

/// Which layout an instance display uses.
#[derive(Clone, Copy, PartialEq, Eq, Structural, Debug)]
pub enum LayoutKind {
    Game,
    Flat,
}

impl LayoutKind {
    /// The label shown for a layout kind.
    pub fn label(&self) -> (res: String)
        ensures
            res@ == layout_kind_label(*self),
    {
        match self {
            LayoutKind::Game => String::from_str("Game Layout"),
            LayoutKind::Flat => String::from_str("Flat Layout"),
        }
    }
}

pub open spec fn layout_kind_label(k: LayoutKind) -> Seq<char> {
    match k {
        LayoutKind::Game => "Game Layout"@,
        LayoutKind::Flat => "Flat Layout"@,
    }
}

/// The column/row grid a game layout starts from. It is grown from an empty
/// grid until it covers every window while following the ideal cell ratio;
/// that growth compares floating-point ratios and happens outside this crate.
#[derive(Clone, Copy, PartialEq, Eq, Structural, Debug)]
pub struct GameGrid {
    pub columns: u32,
    pub rows: u32,
}

/// A grid that can hold `count` windows without its cell count overflowing.
pub open spec fn grid_covers(grid: GameGrid, count: nat) -> bool {
    &&& 1 <= grid.columns
    &&& 1 <= grid.rows
    &&& count <= grid.columns * grid.rows
    &&& grid.columns * grid.rows <= u32::MAX
}

/// How a display splits its area between its instances.
#[derive(Clone, Copy, PartialEq, Eq, Structural, Debug)]
pub enum Layout {
    Game { reverse_direction: bool },
    Flat { split_dir_width: bool },
}

pub open spec fn spec_kind(l: Layout) -> LayoutKind {
    match l {
        Layout::Game { .. } => LayoutKind::Game,
        Layout::Flat { .. } => LayoutKind::Flat,
    }
}

/// The layout a display gets when its kind is switched to `kind`.
pub open spec fn default_layout_of(kind: LayoutKind) -> Layout {
    match kind {
        LayoutKind::Game => Layout::Game { reverse_direction: false },
        LayoutKind::Flat => Layout::Flat { split_dir_width: false },
    }
}

/// Integer division rounded up.
pub open spec fn ceil_div(a: nat, b: nat) -> nat
    recommends
        b > 0,
{
    ((a + b - 1) as nat) / b
}

/// Rows left once the grid is shrunk in height: the fewest rows that still
/// hold every window at the starting column count.
pub open spec fn shrunk_rows(count: nat, columns: nat) -> nat {
    ceil_div(count, columns)
}

/// Columns left once the grid is then shrunk in width.
pub open spec fn shrunk_columns(count: nat, columns: nat) -> nat {
    ceil_div(count, shrunk_rows(count, columns))
}

/// Window `i` of a game layout over a `w` by `h` grid. Windows fill the grid
/// column by column; rows past the last filled cell of the last column have
/// one column fewer and so get wider windows. With `reverse` the rows count
/// up from the bottom of the display.
pub open spec fn game_cell(
    i: nat,
    count: nat,
    w: nat,
    h: nat,
    dw: nat,
    dh: nat,
    reverse: bool,
) -> WindowPosition {
    let col = i / h;
    let row = i % h;
    let full = ((count - 1) as nat) % h;
    let row_width: nat = if row > full {
        if w >= 2 {
            (w - 1) as nat
        } else {
            1
        }
    } else {
        w
    };
    let ww = dw / row_width;
    let wh = dh / h;
    WindowPosition {
        x: (col * ww) as u32,
        y: if reverse {
            (dh - (row + 1) * wh) as u32
        } else {
            (row * wh) as u32
        },
        w: ww as u32,
        h: wh as u32,
    }
}

/// The windows of a game layout, in fill order, for a grid that starts with
/// `columns` columns.
pub open spec fn game_cells(
    count: nat,
    columns: nat,
    dw: nat,
    dh: nat,
    reverse: bool,
) -> Seq<WindowPosition> {
    let h = shrunk_rows(count, columns);
    let w = shrunk_columns(count, columns);
    Seq::new(count, |i: int| game_cell(i as nat, count, w, h, dw, dh, reverse))
}

/// Window `i` of `count` equal strips, side by side when `split_dir_width`
/// holds and stacked otherwise.
pub open spec fn flat_cell(i: nat, count: nat, dw: nat, dh: nat, split_dir_width: bool) -> WindowPosition {
    if split_dir_width {
        WindowPosition { x: ((i * dw) / count) as u32, y: 0, w: (dw / count) as u32, h: dh as u32 }
    } else {
        WindowPosition { x: 0, y: ((i * dh) / count) as u32, w: dw as u32, h: (dh / count) as u32 }
    }
}

pub open spec fn flat_cells(count: nat, dw: nat, dh: nat, split_dir_width: bool) -> Seq<WindowPosition> {
    Seq::new(count, |i: int| flat_cell(i as nat, count, dw, dh, split_dir_width))
}

/// Strips never overflow while they are computed.
pub open spec fn flat_fits(count: nat, dw: nat, dh: nat, split_dir_width: bool) -> bool {
    if split_dir_width {
        (count - 1) * dw <= u32::MAX
    } else {
        (count - 1) * dh <= u32::MAX
    }
}

/// Reading order of windows: by row from the top, then from the left.
pub open spec fn yx_le(a: WindowPosition, b: WindowPosition) -> bool {
    a.y < b.y || (a.y == b.y && a.x <= b.x)
}

pub open spec fn sorted_yx(s: Seq<WindowPosition>) -> bool {
    forall|i: int, j: int| 0 <= i < j < s.len() ==> yx_le(s[i], s[j])
}

/// `out` holds the windows of `cells`, ordered by row from the top, then from
/// the left.
pub open spec fn arranged(out: Seq<WindowPosition>, cells: Seq<WindowPosition>) -> bool {
    &&& sorted_yx(out)
    &&& out.to_multiset() == cells.to_multiset()
}

pub open spec fn inside_display(p: WindowPosition, dw: nat, dh: nat) -> bool {
    p.x + p.w <= dw && p.y + p.h <= dh
}

/// The windows a layout gives `count` instances on a `dw` by `dh` display.
pub open spec fn layout_cells(l: Layout, count: nat, grid: GameGrid, dw: nat, dh: nat) -> Seq<
    WindowPosition,
> {
    if count == 0 {
        Seq::empty()
    } else {
        match l {
            Layout::Game { reverse_direction } => game_cells(
                count,
                grid.columns as nat,
                dw,
                dh,
                reverse_direction,
            ),
            Layout::Flat { split_dir_width } => flat_cells(count, dw, dh, split_dir_width),
        }
    }
}

/// What `Layout::windows` needs from its arguments to run without overflow.
pub open spec fn layout_args_ok(l: Layout, count: nat, grid: GameGrid, dw: nat, dh: nat) -> bool {
    count <= u32::MAX && (count > 0 ==> match l {
        Layout::Game { .. } => grid_covers(grid, count),
        Layout::Flat { split_dir_width } => flat_fits(count, dw, dh, split_dir_width),
    })
}

impl Default for Layout {
    /// A game layout filling the grid from the top.
    fn default() -> (l: Self)
        ensures
            l == default_layout_of(LayoutKind::Game),
    {
        Layout::Game { reverse_direction: false }
    }
}

impl Layout {
    pub fn kind(&self) -> (res: LayoutKind)
        ensures
            res == spec_kind(*self),
    {
        match self {
            Layout::Game { .. } => LayoutKind::Game,
            Layout::Flat { .. } => LayoutKind::Flat,
        }
    }

    /// Switches the layout kind; a layout that already has this kind is kept
    /// as it is, otherwise the kind's default replaces it.
    pub fn set_kind(&mut self, kind: LayoutKind)
        ensures
            spec_kind(*old(self)) == kind ==> *final(self) == *old(self),
            spec_kind(*old(self)) != kind ==> *final(self) == default_layout_of(kind),
    {
        if self.kind() == kind {
            return;
        }
        *self = match kind {
            LayoutKind::Game => Layout::Game { reverse_direction: false },
            LayoutKind::Flat => Layout::Flat { split_dir_width: false },
        };
    }

    /// Window positions for `count` instances, sorted top to bottom and then
    /// left to right. `grid` is only read by game layouts.
    pub fn windows(&self, count: usize, grid: GameGrid, display_width: u32, display_height: u32) -> (out: Vec<WindowPosition>)
        requires
            layout_args_ok(*self, count as nat, grid, display_width as nat, display_height as nat),
        ensures
            arranged(out@, layout_cells(*self, count as nat, grid, display_width as nat, display_height as nat)),
    {
        if count == 0 {
            let out: Vec<WindowPosition> = Vec::new();
            proof {
                assert(out@ =~= Seq::<WindowPosition>::empty());
            }
            return out;
        }
        let count = count as u32;
        let cells = match self {
            Layout::Game { reverse_direction } => game_windows(
                count,
                grid,
                display_width,
                display_height,
                *reverse_direction,
            ),
            Layout::Flat { split_dir_width } => flat_windows(
                count,
                display_width,
                display_height,
                *split_dir_width,
            ),
        };
        sort_windows(cells)
    }
}

/// Grid shrinking: first the rows, then the columns, as long as every window
/// still fits.
fn shrink_grid(window_count: u32, grid: GameGrid) -> (res: (u32, u32))
    requires
        1 <= window_count,
        grid_covers(grid, window_count as nat),
    ensures
        res.0 == shrunk_columns(window_count as nat, grid.columns as nat),
        res.1 == shrunk_rows(window_count as nat, grid.columns as nat),
        1 <= res.0 <= grid.columns,
        1 <= res.1 <= grid.rows,
        window_count <= res.0 * res.1,
        (res.0 - 1) * res.1 < window_count,
{
    let (mut w, mut h) = (grid.columns, grid.rows);
    let ghost w0 = w as int;
    let ghost h0 = h as int;
    proof {
        assert(w * (h - 1) <= w * h) by (nonlinear_arith)
            requires
                w >= 1,
                h >= 1,
        ;
    }
    while window_count <= w * (h - 1)
        invariant
            w == w0,
            1 <= w,
            1 <= h <= h0,
            w0 * h0 <= u32::MAX,
            w * (h - 1) <= u32::MAX,
            1 <= window_count <= w * h,
        decreases h,
    {
        proof {
            if h == 1 {
                assert(w * (h - 1) == 0) by (nonlinear_arith)
                    requires
                        h == 1,
                ;
            }
            assert(w * (h - 2) <= w * (h - 1)) by (nonlinear_arith)
                requires
                    w >= 1,
                    h >= 2,
            ;
        }
        h -= 1;
    }
    proof {
        lemma_ceil_div_exact(window_count as nat, w as nat, h as nat);
        assert(w * h <= w0 * h0) by (nonlinear_arith)
            requires
                w == w0,
                h <= h0,
                w >= 1,
        ;
        assert((w - 1) * h <= w * h) by (nonlinear_arith)
            requires
                w >= 1,
                h >= 1,
        ;
    }
    let ghost h1 = h;
    while window_count <= (w - 1) * h
        invariant
            h == h1,
            1 <= w <= w0,
            1 <= h,
            (w - 1) * h <= u32::MAX,
            w * h <= u32::MAX,
            1 <= window_count <= w * h,
        decreases w,
    {
        proof {
            if w == 1 {
                assert((w - 1) * h == 0) by (nonlinear_arith)
                    requires
                        w == 1,
                ;
            }
            assert((w - 2) * h <= (w - 1) * h) by (nonlinear_arith)
                requires
                    w >= 2,
                    h >= 1,
            ;
        }
        w -= 1;
    }
    proof {
        assert(w * h == h * w) by (nonlinear_arith);
        assert((w - 1) * h == h * (w - 1)) by (nonlinear_arith);
        lemma_ceil_div_exact(window_count as nat, h as nat, w as nat);
    }
    (w, h)
}

/// For `n` with `d * (q - 1) < n <= d * q`, `q` is `n / d` rounded up.
proof fn lemma_ceil_div_exact(n: nat, d: nat, q: nat)
    requires
        d >= 1,
        q >= 1,
        d * (q - 1) < n <= d * q,
    ensures
        ceil_div(n, d) == q,
{
    let r = (n + d - 1) - d * q;
    assert(d * q == d * (q - 1) + d) by (nonlinear_arith)
        requires
            q >= 1,
    ;
    assert(0 <= r < d);
    assert(n + d - 1 == q * d + r) by (nonlinear_arith)
        requires
            r == (n + d - 1) - d * q,
    ;
    lemma_fundamental_div_mod_converse((n + d - 1) as int, d as int, q as int, r as int);
}

/// Facts about window `i` of a `w` by `h` grid holding `count` windows with
/// no spare column: its column leaves room for it in its row.
proof fn lemma_cell_column(i: nat, count: nat, w: nat, h: nat)
    requires
        1 <= w,
        1 <= h,
        i < count,
        count <= w * h,
        (w - 1) * h < count,
    ensures
        i / h + 1 <= w,
        i % h > ((count - 1) as nat) % h ==> i / h + 2 <= w,
        i % h < h,
{
    let n = (count - 1) as nat;
    let full = (n - (w - 1) * h) as nat;
    assert((w - 1) * h <= n) by (nonlinear_arith)
        requires
            (w - 1) * h < count,
            n == count - 1,
    ;
    assert(n < w * h);
    assert(w * h == (w - 1) * h + h) by (nonlinear_arith)
        requires
            w >= 1,
    ;
    assert(full < h);
    assert(n == (w - 1) * h + full);
    lemma_fundamental_div_mod_converse(n as int, h as int, (w - 1) as int, full as int);
    lemma_div_is_ordered(i as int, n as int, h as int);
    lemma_fundamental_div_mod(i as int, h as int);
    if i % h > full && i / h == w - 1 {
        assert(i == h * (w - 1) + i % h);
        assert(h * (w - 1) == (w - 1) * h) by (nonlinear_arith);
        assert(i > n);
    }
}

/// `n * (x / n) <= x`, and a quotient times a smaller factor stays below it.
proof fn lemma_scaled_quotient(k: nat, m: nat, x: nat)
    requires
        1 <= m,
        k <= m,
    ensures
        k * (x / m) <= x,
{
    lemma_fundamental_div_mod(x as int, m as int);
    assert(k * (x / m) <= m * (x / m)) by (nonlinear_arith)
        requires
            k <= m,
    ;
}

/// Windows of a game layout over the grid `grid`, in fill order: the grid is
/// shrunk to the fewest rows and then the fewest columns that still hold every
/// window.
pub fn game_windows(
    window_count: u32,
    grid: GameGrid,
    display_width: u32,
    display_height: u32,
    reverse_direction: bool,
) -> (out: Vec<WindowPosition>)
    requires
        1 <= window_count,
        grid_covers(grid, window_count as nat),
    ensures
        out@ == game_cells(
            window_count as nat,
            grid.columns as nat,
            display_width as nat,
            display_height as nat,
            reverse_direction,
        ),
{
    let (w, h) = shrink_grid(window_count, grid);
    let ghost cells = game_cells(
        window_count as nat,
        grid.columns as nat,
        display_width as nat,
        display_height as nat,
        reverse_direction,
    );
    let mut out: Vec<WindowPosition> = Vec::with_capacity(window_count as usize);
    let mut i: u32 = 0;
    while i < window_count
        invariant
            i <= window_count,
            1 <= w,
            1 <= h,
            window_count <= w * h,
            (w - 1) * h < window_count,
            w == shrunk_columns(window_count as nat, grid.columns as nat),
            h == shrunk_rows(window_count as nat, grid.columns as nat),
            cells == game_cells(
                window_count as nat,
                grid.columns as nat,
                display_width as nat,
                display_height as nat,
                reverse_direction,
            ),
            out@.len() == i,
            forall|k: int| 0 <= k < i ==> out@[k] == cells[k],
        decreases window_count - i,
    {
        let (col_idx, row_idx) = (i / h, i % h);
        let rows_fully_fillable = (window_count - 1) % h;
        let is_smaller_row = row_idx > rows_fully_fillable;
        proof {
            lemma_cell_column(i as nat, window_count as nat, w as nat, h as nat);
        }
        let cur_row_width = if is_smaller_row {
            if w - 1 >= 1 {
                w - 1
            } else {
                1
            }
        } else {
            w
        };
        let (window_width, window_height) = (display_width / cur_row_width, display_height / h);
        proof {
            lemma_scaled_quotient((col_idx + 1) as nat, cur_row_width as nat, display_width as nat);
            lemma_scaled_quotient((row_idx + 1) as nat, h as nat, display_height as nat);
            assert((col_idx + 1) * window_width == col_idx * window_width + window_width) by (nonlinear_arith);
            assert((row_idx + 1) * window_height == row_idx * window_height + window_height) by (nonlinear_arith);
        }
        let pos = if reverse_direction {
            WindowPosition {
                x: col_idx * window_width,
                y: display_height - ((row_idx + 1) * window_height),
                w: window_width,
                h: window_height,
            }
        } else {
            WindowPosition {
                x: col_idx * window_width,
                y: row_idx * window_height,
                w: window_width,
                h: window_height,
            }
        };
        out.push(pos);
        i += 1;
    }
    proof {
        assert(out@ =~= cells);
    }
    out
}

/// Equal strips for `window_count` windows, side by side when
/// `split_dir_width` holds and stacked otherwise.
pub fn flat_windows(
    window_count: u32,
    display_width: u32,
    display_height: u32,
    split_dir_width: bool,
) -> (out: Vec<WindowPosition>)
    requires
        flat_fits(window_count as nat, display_width as nat, display_height as nat, split_dir_width),
    ensures
        out@ == flat_cells(window_count as nat, display_width as nat, display_height as nat, split_dir_width),
{
    let ghost cells = flat_cells(
        window_count as nat,
        display_width as nat,
        display_height as nat,
        split_dir_width,
    );
    let mut out: Vec<WindowPosition> = Vec::with_capacity(window_count as usize);
    let mut i: u32 = 0;
    while i < window_count
        invariant
            i <= window_count,
            flat_fits(window_count as nat, display_width as nat, display_height as nat, split_dir_width),
            cells == flat_cells(
                window_count as nat,
                display_width as nat,
                display_height as nat,
                split_dir_width,
            ),
            out@.len() == i,
            forall|k: int| 0 <= k < i ==> out@[k] == cells[k],
        decreases window_count - i,
    {
        proof {
            assert(i * display_width <= (window_count - 1) * display_width) by (nonlinear_arith)
                requires
                    i <= window_count - 1,
            ;
            assert(i * display_height <= (window_count - 1) * display_height) by (nonlinear_arith)
                requires
                    i <= window_count - 1,
            ;
        }
        let pos = if split_dir_width {
            WindowPosition {
                x: i * display_width / window_count,
                y: 0,
                w: display_width / window_count,
                h: display_height,
            }
        } else {
            WindowPosition {
                x: 0,
                y: i * display_height / window_count,
                w: display_width,
                h: display_height / window_count,
            }
        };
        out.push(pos);
        i += 1;
    }
    proof {
        assert(out@ =~= cells);
    }
    out
}

fn yx_le_exec(a: &WindowPosition, b: &WindowPosition) -> (res: bool)
    ensures
        res == yx_le(*a, *b),
{
    a.y < b.y || (a.y == b.y && a.x <= b.x)
}

/// Stable sort into reading order: by row from the top, then from the left.
pub fn sort_windows(v: Vec<WindowPosition>) -> (out: Vec<WindowPosition>)
    ensures
        arranged(out@, v@),
{
    let mut out: Vec<WindowPosition> = Vec::new();
    let mut i: usize = 0;
    while i < v.len()
        invariant
            i <= v.len(),
            sorted_yx(out@),
            out@.to_multiset() == v@.take(i as int).to_multiset(),
        decreases v.len() - i,
    {
        let e = v[i];
        let mut pos: usize = 0;
        while pos < out.len() && yx_le_exec(&out[pos], &e)
            invariant
                pos <= out.len(),
                forall|k: int| 0 <= k < pos ==> yx_le(out@[k], e),
            decreases out.len() - pos,
        {
            pos += 1;
        }
        let ghost before = out@;
        out.insert(pos, e);
        proof {
            assert forall|a: int, b: int| 0 <= a < b < out@.len() implies yx_le(out@[a], out@[b]) by {
                if b < pos {
                    assert(out@[a] == before[a] && out@[b] == before[b]);
                } else if b == pos {
                    assert(out@[a] == before[a]);
                } else if a < pos {
                    assert(out@[a] == before[a] && out@[b] == before[b - 1]);
                    assert(yx_le(before[a], e));
                    assert(yx_le(before[pos as int], before[b - 1]) || pos as int == b - 1);
                } else if a == pos {
                    assert(out@[b] == before[b - 1]);
                    assert(!yx_le(before[pos as int], e));
                    assert(yx_le(before[pos as int], before[b - 1]) || pos as int == b - 1);
                } else {
                    assert(out@[a] == before[a - 1] && out@[b] == before[b - 1]);
                }
            }
            assert(v@.take(i + 1) =~= v@.take(i as int).push(e));
        }
        i += 1;
    }
    proof {
        assert(v@.take(v@.len() as int) =~= v@);
    }
    out
}

/// Every window a layout produces lies within the display.
pub proof fn lemma_layout_inside_display(l: Layout, count: nat, grid: GameGrid, dw: nat, dh: nat, k: int)
    requires
        layout_args_ok(l, count, grid, dw, dh),
        dw <= u32::MAX,
        dh <= u32::MAX,
        0 <= k < count,
    ensures
        inside_display(layout_cells(l, count, grid, dw, dh)[k], dw, dh),
{
    match l {
        Layout::Game { reverse_direction } => {
            lemma_game_cell_inside(count, grid.columns as nat, grid.rows as nat, dw, dh, reverse_direction, k as nat);
        },
        Layout::Flat { split_dir_width } => {
            lemma_flat_cell_inside(count, dw, dh, split_dir_width, k as nat);
        },
    }
}

proof fn lemma_game_cell_inside(count: nat, columns: nat, rows: nat, dw: nat, dh: nat, reverse: bool, i: nat)
    requires
        1 <= columns,
        1 <= rows,
        count <= columns * rows,
        i < count,
        dw <= u32::MAX,
        dh <= u32::MAX,
    ensures
        inside_display(game_cells(count, columns, dw, dh, reverse)[i as int], dw, dh),
{
    lemma_game_cell_place(count, columns, rows, dw, dh, reverse, i);
    let h = shrunk_rows(count, columns);
    let p = game_cells(count, columns, dw, dh, reverse)[i as int];
    let col = i / h;
    let row = i % h;
    let ww = p.w as nat;
    let wh = p.h as nat;
    assert((col + 1) * ww == col * ww + ww) by (nonlinear_arith);
    assert((row + 1) * wh == row * wh + wh) by (nonlinear_arith);
}

/// Two windows do not overlap: one lies wholly left of, right of, above or
/// below the other.
pub open spec fn apart(a: WindowPosition, b: WindowPosition) -> bool {
    ||| a.x + a.w <= b.x
    ||| b.x + b.w <= a.x
    ||| a.y + a.h <= b.y
    ||| b.y + b.h <= a.y
}

/// No two windows a layout produces overlap.
pub proof fn lemma_layout_windows_apart(l: Layout, count: nat, grid: GameGrid, dw: nat, dh: nat, j: int, k: int)
    requires
        layout_args_ok(l, count, grid, dw, dh),
        dw <= u32::MAX,
        dh <= u32::MAX,
        0 <= j < k < count,
    ensures
        apart(layout_cells(l, count, grid, dw, dh)[j], layout_cells(l, count, grid, dw, dh)[k]),
{
    match l {
        Layout::Game { reverse_direction } => {
            let columns = grid.columns as nat;
            let rows = grid.rows as nat;
            lemma_game_cell_place(count, columns, rows, dw, dh, reverse_direction, j as nat);
            lemma_game_cell_place(count, columns, rows, dw, dh, reverse_direction, k as nat);
            let h = shrunk_rows(count, columns);
            let a = game_cells(count, columns, dw, dh, reverse_direction)[j];
            let b = game_cells(count, columns, dw, dh, reverse_direction)[k];
            let ra = (j as nat) % h;
            let rb = (k as nat) % h;
            let wh = dh / h;
            lemma_fundamental_div_mod(j, h as int);
            lemma_fundamental_div_mod(k, h as int);
            if ra < rb {
                assert((ra + 1) * wh <= rb * wh) by (nonlinear_arith)
                    requires
                        ra + 1 <= rb,
                ;
                assert((rb + 1) * wh == rb * wh + wh) by (nonlinear_arith);
                assert((ra + 1) * wh == ra * wh + wh) by (nonlinear_arith);
            } else if rb < ra {
                assert((rb + 1) * wh <= ra * wh) by (nonlinear_arith)
                    requires
                        rb + 1 <= ra,
                ;
                assert((rb + 1) * wh == rb * wh + wh) by (nonlinear_arith);
                assert((ra + 1) * wh == ra * wh + wh) by (nonlinear_arith);
            } else {
                let ca = (j as nat) / h;
                let cb = (k as nat) / h;
                assert(ca < cb) by (nonlinear_arith)
                    requires
                        j == h * ca + ra,
                        k == h * cb + rb,
                        ra == rb,
                        j < k,
                ;
                let ww = a.w as nat;
                assert((ca + 1) * ww <= cb * ww) by (nonlinear_arith)
                    requires
                        ca + 1 <= cb,
                ;
                assert((ca + 1) * ww == ca * ww + ww) by (nonlinear_arith);
            }
        },
        Layout::Flat { split_dir_width } => {
            let d = if split_dir_width { dw } else { dh };
            let i = j as nat;
            let m = k as nat;
            lemma_flat_cell_inside(count, dw, dh, split_dir_width, i);
            lemma_flat_cell_inside(count, dw, dh, split_dir_width, m);
            lemma_quotient_sum(i * d, d, count);
            assert(i * d + d == (i + 1) * d) by (nonlinear_arith);
            assert((i + 1) * d <= m * d) by (nonlinear_arith)
                requires
                    i < m,
            ;
            assert(m * d <= count * d) by (nonlinear_arith)
                requires
                    m < count,
            ;
            lemma_div_is_ordered(((i + 1) * d) as int, (m * d) as int, count as int);
            lemma_div_is_ordered((m * d) as int, (count * d) as int, count as int);
            lemma_fundamental_div_mod_converse((count * d) as int, count as int, d as int, 0);
            lemma_scaled_quotient(1, count, d);
            assert(flat_cells(count, dw, dh, split_dir_width)[j] == flat_cell(i, count, dw, dh, split_dir_width));
            assert(flat_cells(count, dw, dh, split_dir_width)[k] == flat_cell(m, count, dw, dh, split_dir_width));
        },
    }
}

/// Window `i` of a game layout at its place: column `i / h` and row `i % h`
/// of the shrunk grid, every window of a row equally wide.
proof fn lemma_game_cell_place(count: nat, columns: nat, rows: nat, dw: nat, dh: nat, reverse: bool, i: nat)
    requires
        1 <= columns,
        1 <= rows,
        count <= columns * rows,
        i < count,
        dw <= u32::MAX,
        dh <= u32::MAX,
    ensures
        ({
            let h = shrunk_rows(count, columns);
            let w = shrunk_columns(count, columns);
            let p = game_cells(count, columns, dw, dh, reverse)[i as int];
            let row = i % h;
            let wh = dh / h;
            let row_width: nat = if row > ((count - 1) as nat) % h {
                if w >= 2 {
                    (w - 1) as nat
                } else {
                    1
                }
            } else {
                w
            };
            &&& h >= 1
            &&& row < h
            &&& p.h == wh
            &&& (row + 1) * wh <= dh
            &&& p.y == if reverse {
                dh - (row + 1) * wh
            } else {
                (row * wh) as int
            }
            &&& p.w == dw / row_width
            &&& p.x == (i / h) * p.w
            &&& (i / h + 1) * p.w <= dw
        }),
{
    let h = shrunk_rows(count, columns);
    let w = shrunk_columns(count, columns);
    lemma_ceil_bounds(count, columns);
    lemma_ceil_bounds(count, h);
    assert(w * h == h * w) by (nonlinear_arith);
    assert((w - 1) * h == h * (w - 1)) by (nonlinear_arith);
    lemma_cell_column(i, count, w, h);
    let col = i / h;
    let row = i % h;
    let full = ((count - 1) as nat) % h;
    let row_width: nat = if row > full {
        if w >= 2 {
            (w - 1) as nat
        } else {
            1
        }
    } else {
        w
    };
    let ww = dw / row_width;
    let wh = dh / h;
    lemma_scaled_quotient(col + 1, row_width, dw);
    lemma_scaled_quotient(row + 1, h, dh);
    lemma_scaled_quotient(1, row_width, dw);
    lemma_scaled_quotient(1, h, dh);
    assert((col + 1) * ww == col * ww + ww) by (nonlinear_arith);
    assert((row + 1) * wh == row * wh + wh) by (nonlinear_arith);
    assert(game_cells(count, columns, dw, dh, reverse)[i as int] == game_cell(i, count, w, h, dw, dh, reverse));
}

/// `ceil_div(n, d)` is the least `q` with `n <= d * q`.
proof fn lemma_ceil_bounds(n: nat, d: nat)
    requires
        1 <= d,
        1 <= n,
    ensures
        1 <= ceil_div(n, d),
        n <= d * ceil_div(n, d),
        d * (ceil_div(n, d) - 1) < n,
{
    let q = ceil_div(n, d);
    lemma_fundamental_div_mod((n + d - 1) as int, d as int);
    let r = ((n + d - 1) as nat) % d;
    assert(n + d - 1 == d * q + r);
    assert(r < d);
    assert(d * q > n - 1);
    assert(d * q >= n);
    if q == 0 {
        assert(d * q == 0) by (nonlinear_arith)
            requires
                q == 0,
        ;
    }
    assert(d * (q - 1) == d * q - d) by (nonlinear_arith)
        requires
            q >= 1,
    ;
}

proof fn lemma_flat_cell_inside(count: nat, dw: nat, dh: nat, split: bool, i: nat)
    requires
        i < count,
        dw <= u32::MAX,
        dh <= u32::MAX,
    ensures
        inside_display(flat_cells(count, dw, dh, split)[i as int], dw, dh),
{
    let p = flat_cells(count, dw, dh, split)[i as int];
    assert(p == flat_cell(i, count, dw, dh, split));
    let d = if split { dw } else { dh };
    lemma_quotient_sum(i * d, d, count);
    assert(i * d + d == (i + 1) * d) by (nonlinear_arith);
    assert((i + 1) * d <= count * d) by (nonlinear_arith)
        requires
            i < count,
    ;
    lemma_div_is_ordered(((i + 1) * d) as int, (count * d) as int, count as int);
    lemma_fundamental_div_mod_converse((count * d) as int, count as int, d as int, 0);
    lemma_scaled_quotient(1, count, d);
}

/// `a / n + b / n <= (a + b) / n`.
proof fn lemma_quotient_sum(a: nat, b: nat, n: nat)
    requires
        n >= 1,
    ensures
        a / n + b / n <= (a + b) / n,
{
    lemma_fundamental_div_mod(a as int, n as int);
    lemma_fundamental_div_mod(b as int, n as int);
    lemma_fundamental_div_mod((a + b) as int, n as int);
    let qa = a / n;
    let qb = b / n;
    let q = (a + b) / n;
    assert(n * (qa + qb) <= a + b) by (nonlinear_arith)
        requires
            n * qa <= a,
            n * qb <= b,
    ;
    assert(qa + qb <= q) by (nonlinear_arith)
        requires
            n * (qa + qb) <= a + b,
            a + b == n * q + (a + b) % n,
            (a + b) % n < n,
            n >= 1,
    ;
}

} // verus!
