//! Concrete checks of the library's stated properties: wrap idempotence,
//! steering tie-breaks, deposit accumulation, order independence, absence of
//! decay, spawn ranges and the fixed-point primitives.

use physarum::colony::Colony;
use physarum::fixed::{div_trunc, fmul, isqrt, SCALE};
use physarum::slime::Slime;
use physarum::trail::Trail;
use physarum::vec2::Vec2;

#[test]
fn wrap_is_idempotent_on_positions() {
    let trail = Trail::new(3);
    // one grid width is 196608; both coordinates are out of range by less
    // than one width, one on each side
    let pos = Vec2 { x: 350000, y: -5 };
    let once = trail.get_pos_wrapped(pos);
    let twice = trail.get_pos_wrapped(once);
    assert_eq!(once, twice);
    assert_eq!(once, Vec2 { x: 153392, y: 196603 });
}

#[test]
fn wrap_reads_truncate_toward_zero() {
    // a position at x = 2.9 reads cell x = 2; a slightly negative position
    // truncates to cell 0
    let trail = Trail::new(3).set(2, 0, 7).set(0, 0, 9);
    assert_eq!(trail.get_val_wrapped(Vec2 { x: 190054, y: 0 }), 7);
    assert_eq!(trail.get_val_wrapped(Vec2 { x: -1, y: -1 }), 9);
}

#[test]
fn steer_tie_left_beats_right() {
    // equal signal on the left and right probe cells, nothing ahead: the
    // left turn wins the tie
    let trail = Trail::new(3).set(1, 0, 6554).set(0, 1, 6554);
    let colony = Colony::new(vec![Slime::new().going(65536, 65536)]);
    let expected = Colony::new(vec![Slime::new().going(92682, 0)]);
    assert_eq!(expected, colony.steered(&trail));
}

#[test]
fn deposit_accumulates_same_cell() {
    // five agents on one cell deposit 5.0 in one pass
    let agents = vec![Slime::new().at(98304, 98304); 5];
    let colony = Colony::new(agents);
    let deposited = colony.deposit_on(&Trail::new(3));
    let expected = Trail::new(3).set(1, 1, 5 * 65536);
    assert_eq!(expected, deposited);

    // one agent depositing over four passes accumulates 4.0
    let one = Colony::new(vec![Slime::new().at(98304, 98304)]);
    let mut trail = Trail::new(3);
    for _ in 0..4 {
        trail = one.deposit_on(&trail);
    }
    assert_eq!(Trail::new(3).set(1, 1, 4 * 65536), trail);
}

#[test]
fn deposit_empty_colony_changes_nothing() {
    let colony = Colony::new(Vec::new());
    let trail = Trail::new(3).set(2, 2, 42);
    let deposited = colony.deposit_on(&trail);
    assert_eq!(trail, deposited);
}

#[test]
fn deposit_order_is_irrelevant() {
    let a = Slime::new().at(0, 0);
    let b = Slime::new().at(65536, 131072);
    let c = Slime::new().at(65536, 131072);
    let d = Slime::new().at(131072, 32768);
    let forward = Colony::new(vec![a, b, c, d]);
    let shuffled = Colony::new(vec![d, c, a, b]);
    let base = Trail::new(3).set(1, 1, 17);
    assert_eq!(forward.deposit_on(&base), shuffled.deposit_on(&base));
}

#[test]
fn ticks_never_decay_any_cell() {
    // steer -> move -> deposit, five full ticks: no cell ever decreases
    let mut trail = Trail::new(4);
    let mut colony = Colony::new(vec![
        Slime::new().at(32768, 32768).going(65536, 0),
        Slime::new().at(131072, 196608).going(0, -65536),
    ]);
    for _ in 0..5 {
        colony = colony.steered(&trail);
        colony = colony.moved(65536, &trail);
        let next = colony.deposit_on(&trail);
        for i in 0..trail.cells.len() {
            assert!(next.cells[i] >= trail.cells[i]);
        }
        trail = next;
    }
}

#[test]
fn spawn_respects_ranges() {
    let colony = Colony::new_random(50, 3 * 65536);
    assert_eq!(colony.agents.len(), 50);
    for s in &colony.agents {
        assert!(0 <= s.pos.x && s.pos.x < 3 * 65536);
        assert!(0 <= s.pos.y && s.pos.y < 3 * 65536);
        assert!(-65536 <= s.vel.x && s.vel.x <= 65536);
        assert!(-65536 <= s.vel.y && s.vel.y <= 65536);
        assert!(s.vel.x != 0 || s.vel.y != 0);
        // unit speed up to rounding, in the contract's exact integer form
        let m2 = s.vel.x * s.vel.x + s.vel.y * s.vel.y;
        assert!(65536 * 65536 - 4 * 65536 - 1 <= m2 && m2 <= 65536 * 65536 + 4 * 65536);
        // and within 0.1% of 1.0 read as a real number
        let mag2 = (s.vel.x as f64 / 65536.0).powi(2) + (s.vel.y as f64 / 65536.0).powi(2);
        assert!((0.999..=1.001).contains(&mag2), "speed off unit: {mag2}");
    }
}

#[test]
fn from_cells_validates_shape() {
    let good = Trail::from_cells(2, vec![1, 2, 3, 4]);
    assert!(good.is_some());
    let good = good.unwrap();
    assert_eq!(good.size, 2);
    // cell (x, y) sits at index x + y * size
    assert_eq!(good.get_val_wrapped(Vec2 { x: 65536, y: 0 }), 2);
    assert_eq!(good.get_val_wrapped(Vec2 { x: 0, y: 65536 }), 3);
    assert!(Trail::from_cells(2, vec![1, 2, 3]).is_none());
    assert!(Trail::from_cells(0, Vec::new()).is_none());
}

#[test]
fn rotations_are_exact_eighth_turns() {
    let v = Vec2 { x: 65536, y: 0 };
    assert_eq!(v.rotated_left(), Vec2 { x: 46341, y: -46341 });
    assert_eq!(v.rotated_right(), Vec2 { x: 46341, y: 46341 });
    let diag = Vec2 { x: 65536, y: 65536 };
    assert_eq!(diag.rotated_left(), Vec2 { x: 92682, y: 0 });
    assert_eq!(diag.rotated_right(), Vec2 { x: 0, y: 92682 });
}

#[test]
fn vector_sum_and_scaling() {
    let a = Vec2 { x: 3 * 65536, y: -65536 };
    let b = Vec2 { x: 32768, y: 65536 };
    assert_eq!(a.plus(b), Vec2 { x: 229376, y: 0 });
    assert_eq!(a.scaled(32768), Vec2 { x: 98304, y: -32768 });
}

#[test]
fn fixed_point_primitives() {
    assert_eq!(SCALE, 65536);
    // 1.5 * 0.5 == 0.75
    assert_eq!(fmul(98304, 32768), 49152);
    // inexact products round toward zero on both sides
    assert_eq!(fmul(-65537, 32768), -32768);
    assert_eq!(fmul(65537, 32768), 32768);
    assert_eq!(div_trunc(-7, 2), -3);
    assert_eq!(div_trunc(7, 2), 3);
    assert_eq!(isqrt(0), 0);
    assert_eq!(isqrt(2), 1);
    assert_eq!(isqrt(4294967295), 65535);
    assert_eq!(isqrt(4294967296), 65536);
}
