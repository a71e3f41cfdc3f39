use territory::world::{Boundary, Cell, World};

fn assert_cells_consistent(w: &World) {
    assert_eq!(w.cells.len(), w.width * w.height);
    for c in &w.cells {
        assert_eq!(c.owner == 0, c.troops == 0);
        assert!(c.troops <= w.max_troops);
        assert!((c.owner as usize) <= w.empires.len());
    }
}

#[test]
fn update_increments_the_tick() {
    let mut w = World::new(4, 4);
    w.update();
    assert_eq!(w.tick, 1);
    w.update();
    assert_eq!(w.tick, 2);
}

#[test]
fn update_preserves_the_size() {
    let mut w = World::new(7, 5);
    w.add_empire((1, 1, 1, 255));
    w.set(3, 3, Cell { owner: 1, troops: 1000 });
    for _ in 0..4 {
        w.update();
        assert_eq!(w.cells.len(), 7 * 5);
    }
}

#[test]
fn cell_invariant_holds_after_updates() {
    let mut w = World::new(6, 6);
    w.max_troops = 100;
    w.add_empire((255, 0, 0, 255));
    w.add_empire((0, 255, 0, 255));
    w.set(0, 0, Cell { owner: 1, troops: 100 });
    w.set(5, 5, Cell { owner: 2, troops: 80 });
    for _ in 0..20 {
        w.update();
        assert_cells_consistent(&w);
    }
}

#[test]
fn troops_never_exceed_a_small_ceiling() {
    // The takeover multiplier can reach 1.029; the ceiling must still hold.
    let mut w = World::new(4, 4);
    w.max_troops = 50;
    w.add_empire((255, 0, 0, 255));
    w.set(1, 1, Cell { owner: 1, troops: 50 });
    for _ in 0..10 {
        w.update();
        for c in &w.cells {
            assert!(c.troops <= 50);
        }
    }
}

#[test]
fn empty_board_stays_empty() {
    // Empires are registered but own nothing: no cell may become owned.
    let mut w = World::new(5, 5);
    w.add_empire((255, 0, 0, 255));
    w.add_empire((0, 255, 0, 255));
    for _ in 0..10 {
        w.update();
        for c in &w.cells {
            assert_eq!(*c, Cell { owner: 0, troops: 0 });
        }
    }
}

#[test]
fn single_empire_never_spawns_another() {
    let mut w = World::new(8, 8);
    w.add_empire((255, 0, 0, 255));
    w.set(4, 4, Cell { owner: 1, troops: u16::MAX });
    for _ in 0..30 {
        w.update();
        for c in &w.cells {
            assert!(c.owner == 0 || c.owner == 1);
        }
    }
}

#[test]
fn lone_center_on_a_toroidal_3x3_spreads_only_itself() {
    let mut w = World::new(3, 3);
    assert_eq!(w.boundary, Boundary::Toroidal);
    w.add_empire((255, 0, 0, 255));
    w.set(1, 1, Cell { owner: 1, troops: u16::MAX });
    w.update();
    // Every formerly unclaimed cell either stays unclaimed or falls to
    // empire 1; no other id can appear.
    for c in &w.cells {
        assert!(c.owner == 0 || c.owner == 1);
    }
}

#[test]
fn unsupported_cell_falls_to_its_lone_neighbor() {
    // On a 2x1 toroidal grid the unclaimed cell has no friendly support and
    // an owned neighbor, so the capture rule must fire: the cell falls to
    // empire 1 with the neighbor's troops scaled by a multiplier in
    // [0.970, 1.030).
    let mut w = World::new(2, 1);
    w.add_empire((255, 0, 0, 255));
    w.set(0, 0, Cell { owner: 1, troops: 100 });
    w.update();
    let taken = w.cells[1];
    assert_eq!(taken.owner, 1);
    assert!((97..=102).contains(&taken.troops));
}

#[test]
fn decay_empties_an_unsupported_cell() {
    // Flat index 0 decays on the very first generation ((tick + i) % 5 == 0
    // with tick == 0, i == 0). The corner cell has no friendly neighbor, so
    // its troops scale by friendlies / 10 == 0 and extinction unclaims it —
    // while its unclaimed neighbors, reading the old snapshot, still fall to
    // the empire.
    let mut w = World::new(5, 5);
    w.boundary = Boundary::Clamped;
    w.add_empire((255, 0, 0, 255));
    w.set(0, 0, Cell { owner: 1, troops: 500 });
    w.update();
    assert_eq!(w.cells[0], Cell { owner: 0, troops: 0 });
    // A neighbor of the old corner cell, unsupported and outnumbered, was
    // captured from the snapshot.
    assert_eq!(w.cells[5 + 1].owner, 1);
}
