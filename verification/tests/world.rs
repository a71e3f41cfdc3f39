use territory::gui::Gui;
use territory::world::{Boundary, Cell, World};

#[test]
fn new_world_is_blank() {
    let w = World::new(4, 3);
    assert_eq!(w.width, 4);
    assert_eq!(w.height, 3);
    assert_eq!(w.cells.len(), 12);
    assert_eq!(w.tick, 0);
    assert_eq!(w.max_troops, u16::MAX);
    assert_eq!(w.boundary, Boundary::Toroidal);
    assert!(w.empires.is_empty());
    for c in &w.cells {
        assert_eq!(c.owner, 0);
        assert_eq!(c.troops, 0);
    }
}

#[test]
fn set_then_get_returns_the_cell() {
    let mut w = World::new(3, 3);
    w.add_empire((255, 0, 0, 255));
    let painted = Cell { owner: 1, troops: 42 };
    w.set(1, 2, painted);
    assert_eq!(w.get(1, 2), Some(&painted));
    assert_eq!(w.cells[2 * 3 + 1], painted);
}

#[test]
fn get_is_a_pure_read() {
    let mut w = World::new(3, 3);
    w.add_empire((1, 2, 3, 255));
    w.set(2, 0, Cell { owner: 1, troops: 7 });
    let first = w.get(2, 0).copied();
    let second = w.get(2, 0).copied();
    assert_eq!(first, second);
    let first_wrapped = w.get(-1, -1).copied();
    let second_wrapped = w.get(-1, -1).copied();
    assert_eq!(first_wrapped, second_wrapped);
}

#[test]
fn add_empire_assigns_sequential_ids() {
    let mut w = World::new(2, 2);
    assert_eq!(w.add_empire((255, 0, 0, 255)), 1);
    assert_eq!(w.add_empire((0, 255, 0, 255)), 2);
    assert_eq!(w.add_empire((0, 0, 255, 255)), 3);
    assert_eq!(w.empires.len(), 3);
    for (k, e) in w.empires.iter().enumerate() {
        assert_eq!(e.id as usize, k + 1);
    }
    assert_eq!(w.empires[1].color, (0, 255, 0, 255));
}

#[test]
fn resize_clears_cells_and_keeps_the_rest() {
    let mut w = World::new(2, 2);
    w.add_empire((9, 9, 9, 255));
    w.set(0, 0, Cell { owner: 1, troops: 5 });
    w.update();
    let tick_before = w.tick;
    w.resize(5, 4);
    assert_eq!(w.width, 5);
    assert_eq!(w.height, 4);
    assert_eq!(w.cells.len(), 20);
    assert_eq!(w.tick, tick_before);
    assert_eq!(w.empires.len(), 1);
    for c in &w.cells {
        assert_eq!(*c, Cell { owner: 0, troops: 0 });
    }
}

#[test]
fn clamped_corners_see_exactly_the_inside_neighbors() {
    let mut w = World::new(3, 3);
    w.boundary = Boundary::Clamped;
    let offsets: [(isize, isize); 8] =
        [(-1, -1), (0, -1), (1, -1), (-1, 0), (1, 0), (-1, 1), (0, 1), (1, 1)];
    // For each corner, which of the 8 Moore offsets lands inside the grid.
    let corners: [(isize, isize); 4] = [(0, 0), (2, 0), (0, 2), (2, 2)];
    for &(cx, cy) in &corners {
        for &(dx, dy) in &offsets {
            let (x, y) = (cx + dx, cy + dy);
            let expect_present = (0..3).contains(&x) && (0..3).contains(&y);
            assert_eq!(w.get(x, y).is_some(), expect_present);
        }
    }
    // An edge midpoint: (1, 0) has the three y == -1 offsets absent.
    for &(dx, dy) in &offsets {
        let (x, y) = (1 + dx, 0 + dy);
        let expect_present = (0..3).contains(&x) && (0..3).contains(&y);
        assert_eq!(w.get(x, y).is_some(), expect_present);
    }
}

#[test]
fn toroidal_corners_wrap_to_the_far_side() {
    let mut w = World::new(3, 3);
    w.add_empire((0, 0, 0, 255));
    // Give every cell a distinct troop count so wrapped reads are identifiable.
    for y in 0..3isize {
        for x in 0..3isize {
            w.set(x, y, Cell { owner: 1, troops: (10 + y * 3 + x) as u16 });
        }
    }
    // All 8 offsets around the (0, 0) corner are present and wrap.
    let offsets: [(isize, isize); 8] =
        [(-1, -1), (0, -1), (1, -1), (-1, 0), (1, 0), (-1, 1), (0, 1), (1, 1)];
    for &(dx, dy) in &offsets {
        let got = w.get(dx, dy);
        let wx = dx.rem_euclid(3);
        let wy = dy.rem_euclid(3);
        assert_eq!(got, Some(&w.cells[(wy * 3 + wx) as usize]));
    }
    assert_eq!(w.get(-1, -1).unwrap().troops, 10 + 2 * 3 + 2);
    assert_eq!(w.get(3, 3).unwrap().troops, 10);
    assert_eq!(w.get(-4, 0).unwrap().troops, 10 + 2);
}

#[test]
fn empty_grid_has_no_cells_to_read() {
    let mut w = World::new(0, 0);
    assert!(w.get(0, 0).is_none());
    assert!(w.get(-1, 5).is_none());
    w.update();
    assert_eq!(w.tick, 1);
    assert_eq!(w.cells.len(), 0);
    assert_eq!(w.draw().len(), 0);
}

#[test]
fn one_cell_toroidal_world_wraps_to_itself() {
    let mut w = World::new(1, 1);
    w.add_empire((5, 5, 5, 255));
    w.set(0, 0, Cell { owner: 1, troops: 40 });
    assert_eq!(w.get(7, -9), Some(&Cell { owner: 1, troops: 40 }));
}

#[test]
fn draw_scales_colors_by_troop_fraction() {
    let mut w = World::new(2, 1);
    w.add_empire((200, 100, 50, 255));
    w.set(0, 0, Cell { owner: 1, troops: u16::MAX });
    let frame = w.draw();
    assert_eq!(frame.len(), 8);
    // Full troops: the empire color itself.
    assert_eq!(&frame[0..4], &[200, 100, 50, 255]);
    // Unclaimed: opaque black background.
    assert_eq!(&frame[4..8], &[0, 0, 0, 255]);

    w.set(0, 0, Cell { owner: 1, troops: 32768 });
    let frame = w.draw();
    // floor(channel * 32768 / 65535) for each color channel.
    assert_eq!(&frame[0..4], &[100, 50, 25, 255]);
}

#[test]
fn empire_aggregates_count_cells_and_troops() {
    let mut w = World::new(3, 3);
    w.add_empire((1, 0, 0, 255));
    w.add_empire((0, 1, 0, 255));
    w.set(0, 0, Cell { owner: 1, troops: 10 });
    w.set(1, 0, Cell { owner: 1, troops: 20 });
    w.set(2, 2, Cell { owner: 2, troops: 5 });
    assert_eq!(w.empire_cells(1), 2);
    assert_eq!(w.empire_cells(2), 1);
    assert_eq!(w.empire_cells(3), 0);
    assert_eq!(w.empire_troops(1), 30);
    assert_eq!(w.empire_troops(2), 5);
    assert_eq!(w.empire_troops(3), 0);
}

#[test]
fn gui_starts_playing_at_default_size() {
    let g = Gui::new();
    assert!(g.playing);
    assert_eq!(g.new_width, 256);
    assert_eq!(g.new_height, 256);
}
