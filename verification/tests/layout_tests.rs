use partydeck::layout::flat_windows;
use partydeck::layout::{GameGrid, Layout, LayoutKind, WindowPosition};
use partydeck::layout_manager::layout_scripts::{game_layout, FlatLayout, LayoutType, WindowPostion};

fn wp(x: u32, y: u32, w: u32, h: u32) -> WindowPosition {
    WindowPosition { x, y, w, h }
}

fn wpo(x: u32, y: u32, w: u32, h: u32) -> WindowPostion {
    WindowPostion { x, y, w, h }
}

#[test]
fn game_layout_two_players_stack() {
    let l = Layout::Game { reverse_direction: false };
    let out = l.windows(2, GameGrid { columns: 1, rows: 2 }, 1920, 1080);
    assert_eq!(out, vec![wp(0, 0, 1920, 540), wp(0, 540, 1920, 540)]);
}

#[test]
fn game_layout_three_players_widen_last_row() {
    let l = Layout::Game { reverse_direction: false };
    let out = l.windows(3, GameGrid { columns: 2, rows: 2 }, 1920, 1080);
    assert_eq!(out, vec![wp(0, 0, 960, 540), wp(960, 0, 960, 540), wp(0, 540, 1920, 540)]);
}

#[test]
fn game_layout_reversed_counts_rows_from_bottom() {
    let l = Layout::Game { reverse_direction: true };
    let out = l.windows(2, GameGrid { columns: 1, rows: 2 }, 1920, 1080);
    assert_eq!(out, vec![wp(0, 0, 1920, 540), wp(0, 540, 1920, 540)]);
    let three = l.windows(3, GameGrid { columns: 2, rows: 2 }, 1920, 1080);
    assert_eq!(three, vec![wp(0, 0, 1920, 540), wp(0, 540, 960, 540), wp(960, 540, 960, 540)]);
}

#[test]
fn game_layout_shrinks_oversized_grid() {
    let l = Layout::Game { reverse_direction: false };
    let out = l.windows(2, GameGrid { columns: 3, rows: 3 }, 1920, 1080);
    assert_eq!(out, vec![wp(0, 0, 960, 1080), wp(960, 0, 960, 1080)]);
}

#[test]
fn flat_layout_strips() {
    let side = Layout::Flat { split_dir_width: true };
    assert_eq!(
        side.windows(3, GameGrid { columns: 1, rows: 1 }, 1920, 1080),
        vec![wp(0, 0, 640, 1080), wp(640, 0, 640, 1080), wp(1280, 0, 640, 1080)]
    );
    let stacked = Layout::Flat { split_dir_width: false };
    assert_eq!(
        stacked.windows(3, GameGrid { columns: 1, rows: 1 }, 1920, 1080),
        vec![wp(0, 0, 1920, 360), wp(0, 360, 1920, 360), wp(0, 720, 1920, 360)]
    );
}

#[test]
fn no_windows_for_no_instances() {
    let l = Layout::Game { reverse_direction: false };
    assert!(l.windows(0, GameGrid { columns: 0, rows: 0 }, 1920, 1080).is_empty());
}

#[test]
fn every_window_lies_inside_the_display() {
    for count in 1..=9usize {
        let cols = (count as f64).sqrt().ceil() as u32;
        let rows = ((count as u32) + cols - 1) / cols;
        for l in [Layout::Game { reverse_direction: false }, Layout::Game { reverse_direction: true }, Layout::Flat { split_dir_width: true }, Layout::Flat { split_dir_width: false }] {
            for p in l.windows(count, GameGrid { columns: cols, rows }, 2560, 1440) {
                assert!(p.x + p.w <= 2560 && p.y + p.h <= 1440, "{count}: {p:?}");
            }
        }
    }
}

#[test]
fn layout_kind_switching() {
    let mut l = Layout::Game { reverse_direction: true };
    assert_eq!(l.kind(), LayoutKind::Game);
    l.set_kind(LayoutKind::Game);
    assert_eq!(l, Layout::Game { reverse_direction: true });
    l.set_kind(LayoutKind::Flat);
    assert_eq!(l, Layout::Flat { split_dir_width: false });
    l.set_kind(LayoutKind::Game);
    assert_eq!(l, Layout::Game { reverse_direction: false });
    assert_eq!(LayoutKind::Game.label(), "Game Layout");
    assert_eq!(LayoutKind::Flat.label(), "Flat Layout");
}

#[test]
fn layout_script_sorts_by_x_first() {
    let out = game_layout(3, GameGrid { columns: 2, rows: 2 }, 1920, 1080, false);
    assert_eq!(out, vec![wpo(0, 0, 960, 540), wpo(0, 540, 1920, 540), wpo(960, 0, 960, 540)]);
    assert!(game_layout(0, GameGrid { columns: 0, rows: 0 }, 1920, 1080, false).is_empty());
}

#[test]
fn flat_layout_script() {
    let f = FlatLayout { split_dir_width: false };
    assert_eq!(f.layout(2, 1000, 800), vec![wpo(0, 0, 1000, 400), wpo(0, 400, 1000, 400)]);
    assert_eq!(f.get_type(), LayoutType::FlatLayout);
    assert_eq!(LayoutType::GameLayout.label(), "Game Layout");
    assert!(f.layout(0, 1000, 800).is_empty());
}

#[test]
fn default_layout_is_game_from_top() {
    assert_eq!(partydeck::layout::Layout::default(), partydeck::layout::Layout::Game { reverse_direction: false });
}

#[test]
fn flat_strips() {
    assert_eq!(flat_windows(3, 300, 90, true), vec![wp(0, 0, 100, 90), wp(100, 0, 100, 90), wp(200, 0, 100, 90)]);
    assert_eq!(flat_windows(2, 100, 50, false), vec![wp(0, 0, 100, 25), wp(0, 25, 100, 25)]);
    assert!(flat_windows(0, 100, 50, true).is_empty());
}

#[test]
fn layout_windows_never_overlap() {
    let apart = |a: &WindowPosition, b: &WindowPosition| {
        a.x + a.w <= b.x || b.x + b.w <= a.x || a.y + a.h <= b.y || b.y + b.h <= a.y
    };
    let layouts = [
        Layout::Game { reverse_direction: false },
        Layout::Game { reverse_direction: true },
        Layout::Flat { split_dir_width: true },
        Layout::Flat { split_dir_width: false },
    ];
    for l in layouts {
        for n in 1..=7usize {
            let out = l.windows(n, GameGrid { columns: 3, rows: 3 }, 1917, 1081);
            assert_eq!(out.len(), n);
            for i in 0..n {
                assert!(out[i].x + out[i].w <= 1917 && out[i].y + out[i].h <= 1081);
                for j in (i + 1)..n {
                    assert!(apart(&out[i], &out[j]), "{:?} {:?}", out[i], out[j]);
                }
            }
        }
    }
}
