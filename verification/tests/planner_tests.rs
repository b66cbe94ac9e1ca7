use stego::carrier::Carrier;
use stego::planner::{choose_carrier, declared_capacity};

fn grid(width: u32, height: u32) -> Carrier {
    Carrier::new(
        String::from("p.png"),
        width,
        height,
        vec![0u8; (3 * width * height) as usize],
    )
    .unwrap()
}

#[test]
fn declared_capacity_follows_the_formula() {
    let c = grid(10, 10);
    assert_eq!(declared_capacity(&c, 1), 10 * 10 * 3 / 8);
    assert_eq!(declared_capacity(&c, 2), 10 * 10 * 3 * 2 / 8);
    assert_eq!(declared_capacity(&c, 3), 10 * 10 * 3 * 3 / 8);
    assert_eq!(declared_capacity(&grid(1, 1), 1), 0);
}

#[test]
fn best_fit_picks_largest_remainder() {
    let caps = vec![50u64, 100, 80];
    let used = vec![0u64, 0, 0];
    assert_eq!(choose_carrier(&caps, &used, 40), Some(1));
    // After committing 90 bytes to the middle carrier, the last one leads.
    let used = vec![0u64, 90, 0];
    assert_eq!(choose_carrier(&caps, &used, 40), Some(2));
}

#[test]
fn best_fit_breaks_ties_first_seen() {
    let caps = vec![100u64, 100, 100];
    let used = vec![0u64, 0, 0];
    assert_eq!(choose_carrier(&caps, &used, 10), Some(0));
}

#[test]
fn exact_fit_is_placed_and_one_byte_more_is_refused() {
    let caps = vec![50u64];
    let used = vec![10u64];
    assert_eq!(choose_carrier(&caps, &used, 40), Some(0));
    assert_eq!(choose_carrier(&caps, &used, 41), None);
}

#[test]
fn no_carriers_means_no_placement() {
    assert_eq!(choose_carrier(&vec![], &vec![], 1), None);
}
