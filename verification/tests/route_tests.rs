use outerproduct::emit::{copy_ids, one_id, place, product_if_fits, route};
use outerproduct::rental::{allocate, filled};

#[test]
fn place_fills_slots_in_order() {
    let slots = vec![(0, 4), (1, 2), (2, 9)];
    assert_eq!(place(5, &slots), (vec![(0, 4), (1, 1)], 0));
    assert_eq!(place(6, &slots), (vec![(0, 4), (1, 2)], 0));
    assert_eq!(place(7, &slots), (vec![(0, 4), (1, 2), (2, 1)], 0));
    assert_eq!(place(15, &slots), (vec![(0, 4), (1, 2), (2, 9)], 0));
    assert_eq!(place(20, &slots), (vec![(0, 4), (1, 2), (2, 9)], 5));
}

#[test]
fn place_asks_no_slot_for_nothing() {
    let slots = vec![(0, 4), (1, 2)];
    assert_eq!(place(0, &slots), (vec![], 0));
    assert_eq!(place(4, &slots), (vec![(0, 4)], 0));
    assert_eq!(place(9, &vec![]), (vec![], 9));
}

#[test]
fn place_keeps_the_given_order() {
    // Slots are taken as they come, not by what they can take.
    let slots = vec![(7, 1), (3, 100), (5, 2)];
    assert_eq!(place(50, &slots), (vec![(7, 1), (3, 49)], 0));
}

#[test]
fn route_prefers_the_own_scratchpad() {
    let hold = vec![(0, 4), (1, 2)];
    let r = route(24, 10, &hold);
    assert_eq!((r.to_local, r.remote.clone(), r.spill), (10, vec![(0, 4), (1, 2)], 8));
    let r = route(8, 10, &hold);
    assert_eq!((r.to_local, r.remote.clone(), r.spill), (8, vec![], 0));
    let r = route(10, 10, &hold);
    assert_eq!((r.to_local, r.remote.clone(), r.spill), (10, vec![], 0));
    let r = route(13, 10, &hold);
    assert_eq!((r.to_local, r.remote.clone(), r.spill), (10, vec![(0, 3)], 0));
    let r = route(13, 0, &hold);
    assert_eq!((r.to_local, r.remote.clone(), r.spill), (0, vec![(0, 4), (1, 2)], 7));
}

#[test]
fn product_if_fits_is_exact_at_the_limit() {
    assert_eq!(product_if_fits(4, 1024, 1024), Some(4 * 1024 * 1024));
    assert_eq!(product_if_fits(0, usize::MAX, usize::MAX), Some(0));
    assert_eq!(product_if_fits(usize::MAX, usize::MAX, 0), Some(0));
    assert_eq!(product_if_fits(1, usize::MAX, 1), Some(usize::MAX));
    assert_eq!(product_if_fits(2, usize::MAX, 1), None);
    assert_eq!(product_if_fits(usize::MAX, usize::MAX, usize::MAX), None);
    let half = 1usize << (usize::BITS / 2);
    assert_eq!(product_if_fits(half, half, 1), None);
    assert_eq!(product_if_fits(half, half - 1, 1), Some(half * (half - 1)));
    assert_eq!(product_if_fits(half - 1, 2, half / 2), Some((half - 1) * half));
}

#[test]
fn small_list_helpers() {
    assert_eq!(copy_ids(&vec![3, 1, 2]), vec![3, 1, 2]);
    assert_eq!(copy_ids(&vec![]), Vec::<usize>::new());
    assert_eq!(one_id(9), vec![9]);
    assert_eq!(filled(7, 3), vec![7, 7, 7]);
    assert_eq!(filled(7, 0), Vec::<usize>::new());
}

#[test]
fn allocate_serves_reducers_in_order() {
    // Surplus 4 each on three mappers, target 6 for each of two reducers.
    let r = allocate(3, 2, 10, 4, 6);
    assert_eq!(r.local_srams, vec![6, 6, 6, 10, 10]);
    assert_eq!(r.remote_alloc, vec![vec![(3, 4)], vec![(3, 2), (4, 2)], vec![(4, 4)]]);
    assert_eq!(r.remote_hold, vec![vec![(0, 4), (1, 2)], vec![(1, 2), (2, 4)]]);
    // Targets that leave surplus unused.
    let r = allocate(2, 2, 10, 5, 3);
    assert_eq!(r.local_srams, vec![5, 9, 10, 10]);
    assert_eq!(r.remote_alloc, vec![vec![(2, 3), (3, 2)], vec![(3, 1)]]);
    assert_eq!(r.remote_hold, vec![vec![(0, 3)], vec![(0, 2), (1, 1)]]);
    // Nothing to lend.
    let r = allocate(2, 2, 10, 0, 0);
    assert_eq!(r.local_srams, vec![10; 4]);
    assert_eq!(r.remote_alloc, vec![vec![], vec![]]);
    assert_eq!(r.remote_hold, vec![vec![], vec![]]);
}
