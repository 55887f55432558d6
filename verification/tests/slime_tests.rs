//! The simulation scenarios: motion, steering and deposit of a one-agent
//! colony on small grids. Quantities are fixed-point: 65536 is 1.0, 32768 is
//! 0.5, 6554 is about 0.1 and 92682 is sqrt(2).

use physarum::colony::Colony;
use physarum::slime::Slime;
use physarum::trail::Trail;

fn as_colony(s: Slime) -> Colony {
    Colony::new(vec![s])
}

fn new_3x3_trail() -> Trail {
    Trail::new(3)
}

#[test]
fn colony_update() {
    let colony = as_colony(Slime::new().going(0, 65536));
    let trail = new_3x3_trail();
    let colony_updated = colony.moved(65536, &trail);
    let expected = as_colony(Slime::new().at(0, 65536).going(0, 65536));
    assert_eq!(expected, colony_updated);
}

#[test]
fn colony_update_half() {
    let colony = as_colony(Slime::new().going(65536, 65536));
    let trail = new_3x3_trail();
    let colony_updated = colony.moved(32768, &trail);
    let expected = as_colony(Slime::new().at(32768, 32768).going(65536, 65536));
    assert_eq!(expected, colony_updated);
}

#[test]
fn colony_steer_forward() {
    let colony = as_colony(Slime::new().going(65536, 65536));
    let trail = new_3x3_trail();
    let colony_updated = colony.steered(&trail);
    let expected = as_colony(Slime::new().going(65536, 65536));
    assert_eq!(expected, colony_updated);
}

#[test]
fn colony_steer_right() {
    let colony = as_colony(Slime::new().going(65536, 65536));
    let trail = Trail::new(3).set(0, 1, 6554);
    let colony_updated = colony.steered(&trail);
    let expected = as_colony(Slime::new().going(0, 92682));
    assert_eq!(expected, colony_updated);
}

#[test]
fn colony_steer_left() {
    let colony = as_colony(Slime::new().going(65536, 65536));
    let trail = Trail::new(3).set(1, 0, 6554);
    let colony_updated = colony.steered(&trail);
    let expected = as_colony(Slime::new().going(92682, 0));
    assert_eq!(expected, colony_updated);
}

#[test]
fn test_wrap_steer() {
    let colony = as_colony(Slime::new().going(65536, 65536));
    let trail = Trail::new(1);
    let _ = colony.steered(&trail);
}

#[test]
fn test_deposit() {
    let colony = as_colony(Slime::new().at(65536, 65536));
    let trail = new_3x3_trail();
    let trail_deposited = colony.deposit_on(&trail);
    let expected = Trail::new(3).set(1, 1, 65536);
    assert_eq!(expected, trail_deposited);
}

#[test]
fn test_wrap_move() {
    let colony = as_colony(Slime::new().going(65536, 65536));
    let trail = Trail::new(1);
    let colony_moved = colony.moved(65536, &trail);
    let _ = colony_moved.deposit_on(&trail);
}

#[test]
fn test_large_trail() {
    let trail = Trail::new(1024);
    assert_eq!(trail.size, 1024);
    assert_eq!(trail.cells.len(), 1024 * 1024);
}
