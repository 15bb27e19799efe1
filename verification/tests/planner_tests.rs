use outerproduct::error::PreconditionViolation;
use outerproduct::outer_product::{div_up, OuterProduct, MAPPER_K};

fn sum_sizes(lists: &Vec<Vec<(usize, usize)>>) -> usize {
    lists.iter().map(|l| l.iter().map(|e| e.1).sum::<usize>()).sum()
}

fn built(
    mapper_num: usize,
    reducer_num: usize,
    tile: usize,
    amorph: bool,
    mult: [usize; 2],
    add: [usize; 2],
) -> OuterProduct {
    match OuterProduct::new(mapper_num, reducer_num, tile, amorph, mult, add) {
        Ok(p) => p,
        Err(e) => panic!("{}", e.message()),
    }
}

#[test]
fn new_without_lending_keeps_every_tile() {
    let p = built(4, 2, 64, false, [8, 8], [8, 16]);
    assert_eq!(p.local_srams(), &vec![64; 6]);
    assert_eq!(p.remote_alloc(), &vec![Vec::<(usize, usize)>::new(); 4]);
    assert_eq!(p.remote_hold(), &vec![Vec::<(usize, usize)>::new(); 2]);
    assert_eq!(p.reducer_remote_sram_size(), 0);
    assert!(!p.is_planned());
    assert!(p.op_list().is_empty());
}

#[test]
fn new_sets_the_units() {
    let p = built(4, 2, 64, false, [8, 9], [10, 16]);
    let mu = p.mapper_unit();
    assert_eq!((mu.k, mu.m, mu.n), (1, 8, 9));
    let ru = p.reducer_unit();
    assert_eq!((ru.k, ru.m, ru.n), (2, 10, 16));
    let mw = p.mapper_workload();
    assert_eq!((mw.k, mw.m, mw.n), (0, 0, 0));
    let rw = p.reducer_workload();
    assert_eq!((rw.k, rw.m, rw.n), (0, 0, 0));
}

#[test]
fn lending_one_mapper_per_reducer() {
    // Surplus 6 per mapper, 12 in all, 6 per reducer.
    let p = built(2, 2, 10, true, [2, 2], [1, 1]);
    assert_eq!(p.reducer_remote_sram_size(), 6);
    assert_eq!(p.local_srams(), &vec![4, 4, 10, 10]);
    assert_eq!(p.remote_alloc(), &vec![vec![(2, 6)], vec![(3, 6)]]);
    assert_eq!(p.remote_hold(), &vec![vec![(0, 6)], vec![(1, 6)]]);
}

#[test]
fn lending_splits_a_mapper_between_reducers() {
    // Surplus 4 per mapper, 12 in all, 6 per reducer.
    let p = built(3, 2, 10, true, [3, 3], [1, 1]);
    assert_eq!(p.reducer_remote_sram_size(), 6);
    assert_eq!(p.local_srams(), &vec![6, 6, 6, 10, 10]);
    assert_eq!(p.remote_alloc(), &vec![vec![(3, 4)], vec![(3, 2), (4, 2)], vec![(4, 4)]]);
    assert_eq!(p.remote_hold(), &vec![vec![(0, 4), (1, 2)], vec![(1, 2), (2, 4)]]);
}

#[test]
fn lending_rounds_the_share_down() {
    // Surplus 7 per mapper, 14 in all, 4 per reducer; 2 stay with mapper 1.
    let p = built(2, 3, 10, true, [1, 2], [1, 1]);
    assert_eq!(p.reducer_remote_sram_size(), 4);
    assert_eq!(p.local_srams(), &vec![3, 5, 10, 10, 10]);
    assert_eq!(p.remote_alloc(), &vec![vec![(2, 4), (3, 3)], vec![(3, 1), (4, 4)]]);
    assert_eq!(p.remote_hold(), &vec![vec![(0, 4)], vec![(0, 3), (1, 1)], vec![(1, 4)]]);
}

#[test]
fn lending_never_goes_below_the_minimum() {
    // Every mapper keeps what its multiplier array needs.
    let p = built(5, 1, 100, true, [30, 20], [1, 1]);
    assert_eq!(p.reducer_remote_sram_size(), 250);
    assert_eq!(p.local_srams(), &vec![50, 50, 50, 50, 50, 100]);
    assert_eq!(p.remote_hold(), &vec![vec![(0, 50), (1, 50), (2, 50), (3, 50), (4, 50)]]);
}

#[test]
fn lending_with_a_tile_below_the_minimum() {
    let p = built(3, 2, 10, true, [8, 8], [1, 1]);
    assert_eq!(p.reducer_remote_sram_size(), 0);
    assert_eq!(p.local_srams(), &vec![10; 5]);
    assert_eq!(sum_sizes(p.remote_alloc()), 0);
    assert_eq!(sum_sizes(p.remote_hold()), 0);
    // The minimum itself may be beyond a machine word.
    let q = built(3, 2, 10, true, [usize::MAX, usize::MAX], [1, 1]);
    assert_eq!(q.reducer_remote_sram_size(), 0);
    assert_eq!(q.local_srams(), &vec![10; 5]);
}

#[test]
fn rental_boundary_leaves_everything_empty() {
    let p = built(4, 3, 16, true, [8, 8], [8, 16]);
    assert_eq!(p.reducer_remote_sram_size(), 0);
    assert_eq!(p.remote_alloc().len(), 4);
    assert_eq!(p.remote_hold().len(), 3);
    for grants in p.remote_alloc() {
        assert!(grants.is_empty());
    }
    for holdings in p.remote_hold() {
        assert!(holdings.is_empty());
    }
    assert_eq!(p.local_srams(), &vec![16; 7]);
}

#[test]
fn lending_conserves_capacity() {
    for mapper_num in 1usize..7 {
        for reducer_num in 1usize..7 {
            for tile in [0usize, 1, 5, 16, 17, 40, 99] {
                let p = built(mapper_num, reducer_num, tile, true, [8, 8], [1, 1]);
                let per = tile.saturating_sub(16);
                let target = per * mapper_num / reducer_num;
                assert_eq!(p.reducer_remote_sram_size(), target as u128);
                assert_eq!(sum_sizes(p.remote_alloc()), sum_sizes(p.remote_hold()));
                assert_eq!(sum_sizes(p.remote_hold()), target * reducer_num);
                for (mid, grants) in p.remote_alloc().iter().enumerate() {
                    let lent: usize = grants.iter().map(|e| e.1).sum();
                    assert!(lent <= per);
                    assert_eq!(p.local_srams()[mid], tile - lent);
                    for e in grants {
                        assert!(e.0 >= mapper_num && e.0 < mapper_num + reducer_num);
                        assert!(e.1 > 0);
                        assert!(p.remote_hold()[e.0 - mapper_num].contains(&(mid, e.1)));
                    }
                }
                for holdings in p.remote_hold() {
                    let held: usize = holdings.iter().map(|e| e.1).sum();
                    assert_eq!(held, target);
                    for pair in holdings.windows(2) {
                        assert!(pair[0].0 < pair[1].0);
                    }
                }
                for rid in mapper_num..mapper_num + reducer_num {
                    assert_eq!(p.local_srams()[rid], tile);
                }
            }
        }
    }
}

#[test]
fn new_rejects_a_bad_topology() {
    assert!(matches!(
        OuterProduct::new(0, 2, 64, false, [8, 8], [8, 16]),
        Err(PreconditionViolation::NoMappers)
    ));
    assert!(matches!(
        OuterProduct::new(0, 0, 64, false, [8, 8], [8, 16]),
        Err(PreconditionViolation::NoMappers)
    ));
    assert!(matches!(
        OuterProduct::new(2, 0, 64, true, [8, 8], [8, 16]),
        Err(PreconditionViolation::NoReducers)
    ));
    assert!(matches!(
        OuterProduct::new(0x7fff_ffff, 1, 64, false, [8, 8], [8, 16]),
        Err(PreconditionViolation::TooManyElements)
    ));
    assert!(matches!(
        OuterProduct::new(1, usize::MAX, 64, false, [8, 8], [8, 16]),
        Err(PreconditionViolation::TooManyElements)
    ));
    assert!(matches!(
        OuterProduct::new(usize::MAX, usize::MAX, 64, true, [8, 8], [8, 16]),
        Err(PreconditionViolation::TooManyElements)
    ));
}

#[test]
fn set_gemm_rejects_k_below_mapper_num() {
    let mut p = built(8, 2, 64, false, [8, 8], [8, 16]);
    assert_eq!(p.set_gemm(1024, 1024, 4), Err(PreconditionViolation::DepthBelowMappers));
    assert!(!p.is_planned());
    assert_eq!(p.set_gemm(1024, 1024, 7), Err(PreconditionViolation::DepthBelowMappers));
    assert_eq!(p.set_gemm(1024, 1024, 8), Ok(()));
    assert!(p.is_planned());
}

#[test]
fn set_gemm_rejects_too_few_tiles() {
    let mut p = built(4, 8, 64, false, [8, 8], [8, 16]);
    assert_eq!(p.set_gemm(2, 2, 1024), Err(PreconditionViolation::TooFewTiles));
    assert_eq!(p.set_gemm(2, 4, 1024), Err(PreconditionViolation::TooFewTiles));
    assert_eq!(p.set_gemm(0, 1024, 1024), Err(PreconditionViolation::TooFewTiles));
    assert!(!p.is_planned());
    assert_eq!(p.set_gemm(3, 3, 1024), Ok(()));
}

#[test]
fn set_gemm_reports_k_first() {
    let mut p = built(4, 8, 64, false, [8, 8], [8, 16]);
    assert_eq!(p.set_gemm(2, 2, 3), Err(PreconditionViolation::DepthBelowMappers));
}

#[test]
fn set_gemm_rejects_what_cannot_be_counted() {
    let mut p = built(4, 2, 64, false, [8, 8], [8, 16]);
    let big = 1usize << (usize::BITS / 2);
    assert_eq!(p.set_gemm(big, big, 1024), Err(PreconditionViolation::WorkloadTooLarge));
    assert_eq!(p.set_gemm(usize::MAX, 3, 1024), Err(PreconditionViolation::WorkloadTooLarge));
    assert!(!p.is_planned());
    let mw = p.mapper_workload();
    assert_eq!((mw.k, mw.m, mw.n), (0, 0, 0));
}

#[test]
fn set_gemm_rejects_a_schedule_beyond_a_machine_word() {
    let mut p = built(1, 1, 64, false, [8, 8], [8, 16]);
    assert_eq!(p.set_gemm(2, 2, usize::MAX), Err(PreconditionViolation::ScheduleTooLong));
    assert!(!p.is_planned());
}

#[test]
fn set_gemm_leaves_the_state_on_failure() {
    let mut p = built(4, 2, 64, false, [8, 8], [8, 16]);
    assert_eq!(p.set_gemm(100, 60, 40), Ok(()));
    assert_eq!(p.set_gemm(100, 60, 3), Err(PreconditionViolation::DepthBelowMappers));
    assert!(p.is_planned());
    let mw = p.mapper_workload();
    assert_eq!((mw.k, mw.m, mw.n), (MAPPER_K, 100, 60));
}

#[test]
fn set_gemm_partitions_the_output() {
    let mut p = built(4, 2, 64, false, [8, 8], [8, 16]);
    assert_eq!(p.set_gemm(1024, 1024, 1024), Ok(()));
    let mw = p.mapper_workload();
    assert_eq!((mw.k, mw.m, mw.n), (4, 1024, 1024));
    assert_eq!(mw.size(), 4 * 1024 * 1024);
    // Two reducers: one row of two tiles.
    let rw = p.reducer_workload();
    assert_eq!((rw.k, rw.m, rw.n), (4, 1024, 512));
    assert_eq!(rw.size(), 4 * 1024 * 512);
}

#[test]
fn set_gemm_tiles_near_square() {
    // (reducers, rows of the grid, columns of the grid)
    let grids = [(1, 1, 1), (2, 1, 2), (4, 2, 2), (6, 2, 3), (8, 2, 4), (9, 3, 3), (12, 3, 4),
        (7, 1, 7), (16, 4, 4), (35, 5, 7)];
    for (reducer_num, para_m, para_n) in grids {
        let mut p = built(3, reducer_num, 64, false, [8, 8], [8, 16]);
        assert_eq!(p.set_gemm(100, 70, 50), Ok(()));
        let rw = p.reducer_workload();
        assert_eq!(rw.k, 3);
        assert_eq!(rw.m, (100 + para_m - 1) / para_m, "reducers {}", reducer_num);
        assert_eq!(rw.n, (70 + para_n - 1) / para_n, "reducers {}", reducer_num);
    }
}

#[test]
fn div_up_rounds_up() {
    assert_eq!(div_up(0, 3), 0);
    assert_eq!(div_up(1, 3), 1);
    assert_eq!(div_up(3, 3), 1);
    assert_eq!(div_up(4, 3), 2);
    assert_eq!(div_up(1024, 2), 512);
    assert_eq!(div_up(usize::MAX, 1), usize::MAX);
    assert_eq!(div_up(usize::MAX, 2), usize::MAX / 2 + 1);
    assert_eq!(div_up(usize::MAX, usize::MAX), 1);
}
