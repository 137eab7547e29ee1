use vstd::prelude::*;
use crate::layout::{
    GameGrid, WindowPosition, flat_cells, flat_fits, flat_windows, game_cells, game_windows, grid_covers,
};

verus! {

broadcast use vstd::seq_lib::group_to_multiset_ensures;

/// A window rectangle handed to the compositor's window manager.
#[derive(Clone, Copy, PartialEq, Eq, Structural, Debug)]
pub struct WindowPostion {
    pub x: u32,
    pub y: u32,
    pub w: u32,
    pub h: u32,
}

/// Field-by-field order: by `x`, then `y`, `w` and `h`.
pub open spec fn postion_le(a: WindowPostion, b: WindowPostion) -> bool {
    a.x < b.x || (a.x == b.x && (a.y < b.y || (a.y == b.y && (a.w < b.w || (a.w == b.w && a.h <= b.h)))))
}

pub open spec fn sorted_postions(s: Seq<WindowPostion>) -> bool {
    forall|i: int, j: int| 0 <= i < j < s.len() ==> postion_le(s[i], s[j])
}

pub open spec fn as_postion(p: WindowPosition) -> WindowPostion {
    WindowPostion { x: p.x, y: p.y, w: p.w, h: p.h }
}

pub open spec fn as_postions(s: Seq<WindowPosition>) -> Seq<WindowPostion> {
    s.map_values(|p: WindowPosition| as_postion(p))
}

/// The layouts a display can use.
#[derive(Clone, Copy, PartialEq, Eq, Structural, Debug)]
pub enum LayoutType {
    GameLayout,
    FlatLayout,
}

pub open spec fn layout_type_label(t: LayoutType) -> Seq<char> {
    match t {
        LayoutType::GameLayout => "Game Layout"@,
        LayoutType::FlatLayout => "Flat Layout"@,
    }
}

impl LayoutType {
    /// The name shown for a layout type.
    pub fn label(&self) -> (res: String)
        ensures
            res@ == layout_type_label(*self),
    {
        match self {
            LayoutType::GameLayout => String::from_str("Game Layout"),
            LayoutType::FlatLayout => String::from_str("Flat Layout"),
        }
    }
}

fn postion_le_exec(a: &WindowPostion, b: &WindowPostion) -> (res: bool)
    ensures
        res == postion_le(*a, *b),
{
    a.x < b.x || (a.x == b.x && (a.y < b.y || (a.y == b.y && (a.w < b.w || (a.w == b.w && a.h <= b.h)))))
}

proof fn lemma_postion_total(a: WindowPostion, b: WindowPostion)
    ensures
        postion_le(a, b) || postion_le(b, a),
        postion_le(a, b) && postion_le(b, a) ==> a == b,
{
}

/// Sorts windows by the field-by-field order.
pub fn sort_postions(v: Vec<WindowPostion>) -> (out: Vec<WindowPostion>)
    ensures
        sorted_postions(out@),
        out@.to_multiset() == v@.to_multiset(),
{
    let mut out: Vec<WindowPostion> = Vec::new();
    let mut i: usize = 0;
    while i < v.len()
        invariant
            i <= v.len(),
            sorted_postions(out@),
            out@.to_multiset() == v@.take(i as int).to_multiset(),
        decreases v.len() - i,
    {
        let e = v[i];
        let mut pos: usize = 0;
        while pos < out.len() && postion_le_exec(&out[pos], &e)
            invariant
                pos <= out.len(),
                forall|k: int| 0 <= k < pos ==> postion_le(out@[k], e),
            decreases out.len() - pos,
        {
            pos += 1;
        }
        let ghost before = out@;
        out.insert(pos, e);
        proof {
            assert forall|a: int, b: int| 0 <= a < b < out@.len() implies postion_le(out@[a], out@[b]) by {
                if b < pos {
                    assert(out@[a] == before[a] && out@[b] == before[b]);
                } else if b == pos {
                    assert(out@[a] == before[a]);
                } else if a < pos {
                    assert(out@[a] == before[a] && out@[b] == before[b - 1]);
                    assert(postion_le(before[a], e));
                    assert(postion_le(before[pos as int], before[b - 1]) || pos as int == b - 1);
                    lemma_postion_total(before[pos as int], e);
                } else if a == pos {
                    assert(out@[b] == before[b - 1]);
                    assert(!postion_le(before[pos as int], e));
                    lemma_postion_total(before[pos as int], e);
                    assert(postion_le(before[pos as int], before[b - 1]) || pos as int == b - 1);
                } else {
                    assert(out@[a] == before[a - 1] && out@[b] == before[b - 1]);
                }
            }
            assert(v@.take(i + 1) =~= v@.take(i as int).push(e));
        }
        i += 1;
    }
    proof {
        assert(v@.take(v@.len() as int) =~= v@);
    }
    out
}

fn to_postions(v: Vec<WindowPosition>) -> (out: Vec<WindowPostion>)
    ensures
        out@ == as_postions(v@),
{
    let mut out: Vec<WindowPostion> = Vec::new();
    let mut i: usize = 0;
    while i < v.len()
        invariant
            i <= v.len(),
            out@ == as_postions(v@.take(i as int)),
        decreases v.len() - i,
    {
        let p = v[i];
        out.push(WindowPostion { x: p.x, y: p.y, w: p.w, h: p.h });
        proof {
            assert(as_postions(v@.take(i + 1)) =~= as_postions(v@.take(i as int)).push(as_postion(p)));
        }
        i += 1;
    }
    proof {
        assert(v@.take(v@.len() as int) =~= v@);
    }
    out
}

/// `out` holds the windows of `cells`, sorted field by field.
pub open spec fn arranged_postions(out: Seq<WindowPostion>, cells: Seq<WindowPosition>) -> bool {
    &&& sorted_postions(out)
    &&& out.to_multiset() == as_postions(cells).to_multiset()
}

/// Equal strips: side by side when `split_dir_width` holds, else stacked.
#[derive(Clone, Copy, PartialEq, Eq, Structural, Debug)]
pub struct FlatLayout {
    pub split_dir_width: bool,
}

impl FlatLayout {
    pub fn get_type(&self) -> (t: LayoutType)
        ensures
            t == LayoutType::FlatLayout,
    {
        LayoutType::FlatLayout
    }

    /// The strips for `window_count` windows, sorted field by field.
    pub fn layout(&self, window_count: u32, display_width: u32, display_height: u32) -> (out: Vec<WindowPostion>)
        requires
            window_count >= 1 ==> flat_fits(
                window_count as nat,
                display_width as nat,
                display_height as nat,
                self.split_dir_width,
            ),
        ensures
            window_count == 0 ==> out@.len() == 0,
            window_count >= 1 ==> arranged_postions(
                out@,
                flat_cells(window_count as nat, display_width as nat, display_height as nat, self.split_dir_width),
            ),
    {
        if window_count == 0 {
            return Vec::new();
        }
        let cells = flat_windows(window_count, display_width, display_height, self.split_dir_width);
        sort_postions(to_postions(cells))
    }
}

/// The windows of a game layout over `grid`, sorted field by field. The grid
/// is grown from the ideal cell ratio, which compares floating-point values
/// and happens outside this crate.
pub fn game_layout(
    window_count: u32,
    grid: GameGrid,
    display_width: u32,
    display_height: u32,
    reverse_direction: bool,
) -> (out: Vec<WindowPostion>)
    requires
        window_count >= 1 ==> grid_covers(grid, window_count as nat),
    ensures
        window_count == 0 ==> out@.len() == 0,
        window_count >= 1 ==> arranged_postions(
            out@,
            game_cells(
                window_count as nat,
                grid.columns as nat,
                display_width as nat,
                display_height as nat,
                reverse_direction,
            ),
        ),
{
    if window_count == 0 {
        return Vec::new();
    }
    let cells = game_windows(window_count, grid, display_width, display_height, reverse_direction);
    sort_postions(to_postions(cells))
}

} // verus!
