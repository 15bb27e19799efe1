use outerproduct::op::{Op, OpTrait, OpType};
use outerproduct::outer_product::OuterProduct;

#[derive(Debug, Clone, PartialEq)]
enum Seen {
    Transfer { id: usize, deps: Vec<usize>, src: i32, dst: i32, len: usize, name: String },
    Accumulate { id: usize, deps: Vec<usize>, pe: usize, len: usize, name: String },
    Cross { id: usize, deps: Vec<usize>, pe: usize, k: usize, m: usize, n: usize, name: String },
}

fn seen(op: &Op) -> Seen {
    match op {
        Op::Transfer(t) => Seen::Transfer {
            id: t.idx,
            deps: t.deps.clone(),
            src: t.src,
            dst: t.dst,
            len: t.length,
            name: t.content.clone(),
        },
        Op::Accumulate(v) => Seen::Accumulate {
            id: v.idx,
            deps: v.deps.clone(),
            pe: v.pid,
            len: v.length,
            name: v.content.clone(),
        },
        Op::CrossProduct(c) => Seen::Cross {
            id: c.idx,
            deps: c.deps.clone(),
            pe: c.pid,
            k: c.k,
            m: c.m,
            n: c.n,
            name: c.content.clone(),
        },
    }
}

fn planned(
    mapper_num: usize,
    reducer_num: usize,
    tile: usize,
    amorph: bool,
    mult: [usize; 2],
    gemm: (usize, usize, usize),
) -> OuterProduct {
    let mut p = match OuterProduct::new(mapper_num, reducer_num, tile, amorph, mult, [8, 16]) {
        Ok(p) => p,
        Err(e) => panic!("{}", e.message()),
    };
    assert_eq!(p.set_gemm(gemm.0, gemm.1, gemm.2), Ok(()));
    p
}

/// The schedule of a planned problem, generated step by step: per round,
/// every active mapper loads, computes and serves every reducer; then
/// every reducer accumulates and writes.
fn by_hand(p: &OuterProduct, mapper_num: usize, reducer_num: usize, k: usize, first: usize) -> Vec<Seen> {
    let (mk, mm, mn) = {
        let w = p.mapper_workload();
        (w.k, w.m, w.n)
    };
    let load_size = mk * mm * mn;
    let (tile_size, output_size) = {
        let w = p.reducer_workload();
        (w.k * w.m * w.n, w.m * w.n)
    };
    let mut out: Vec<Seen> = Vec::new();
    let mut next = first;
    let mut drained: Vec<Vec<usize>> = vec![Vec::new(); mapper_num];
    let mut last_output: Vec<Option<usize>> = vec![None; reducer_num];
    let mut k_ofst = 0;
    while k_ofst < k {
        let mut local: Vec<(Vec<usize>, usize)> = vec![(Vec::new(), 0); reducer_num];
        let mut parked: Vec<Vec<(usize, usize, usize)>> = vec![Vec::new(); reducer_num];
        let mut spilled: Vec<(Vec<usize>, usize)> = vec![(Vec::new(), 0); reducer_num];
        for mid in 0..mapper_num {
            if k_ofst + mid >= k {
                break;
            }
            let load = next;
            next += 1;
            out.push(Seen::Transfer {
                id: load,
                deps: std::mem::take(&mut drained[mid]),
                src: -1,
                dst: mid as i32,
                len: load_size,
                name: format!("{} load map workload of k {} from memory.", mid, k_ofst + mid * mk),
            });
            let cross = next;
            next += 1;
            out.push(Seen::Cross {
                id: cross,
                deps: vec![load],
                pe: mid,
                k: mk,
                m: mm,
                n: mn,
                name: format!("{} performs cross-product of {} x {} with k {}", mid, mm, mn, mk),
            });
            for j in 0..reducer_num {
                let rid = mapper_num + j;
                let mut deps = vec![cross];
                if let Some(o) = last_output[j] {
                    deps.push(o);
                }
                let to_local = tile_size.min(p.local_srams()[rid]);
                let id = next;
                next += 1;
                out.push(Seen::Transfer {
                    id,
                    deps: deps.clone(),
                    src: mid as i32,
                    dst: rid as i32,
                    len: to_local,
                    name: format!("Transfer from {} to local {}, data size {}", mid, rid, to_local),
                });
                local[j].0.push(id);
                local[j].1 += to_local;
                drained[mid].push(id);
                let mut remain = tile_size - to_local;
                for &(holder, capacity) in p.remote_hold()[j].iter() {
                    if remain == 0 {
                        break;
                    }
                    let size = remain.min(capacity);
                    remain -= size;
                    let id = next;
                    next += 1;
                    out.push(Seen::Transfer {
                        id,
                        deps: deps.clone(),
                        src: mid as i32,
                        dst: holder as i32,
                        len: size,
                        name: format!(
                            "Transfer from {} to remote {} of {}, data size {}",
                            mid, holder, rid, size
                        ),
                    });
                    parked[j].push((id, holder, size));
                    drained[mid].push(id);
                }
                let id = next;
                next += 1;
                out.push(Seen::Transfer {
                    id,
                    deps: deps.clone(),
                    src: mid as i32,
                    dst: -1,
                    len: remain,
                    name: format!("Transfer from {} to -1, data size {}", mid, remain),
                });
                spilled[j].0.push(id);
                spilled[j].1 += remain;
                drained[mid].push(id);
            }
        }
        for j in 0..reducer_num {
            let rid = mapper_num + j;
            let mut output_deps = Vec::new();
            let id = next;
            next += 1;
            out.push(Seen::Accumulate {
                id,
                deps: local[j].0.clone(),
                pe: rid,
                len: local[j].1,
                name: format!("Reducer {} calc local of size {}", rid, local[j].1),
            });
            output_deps.push(id);
            for &(transfer, holder, size) in parked[j].iter() {
                let fetch = next;
                next += 1;
                out.push(Seen::Transfer {
                    id: fetch,
                    deps: vec![transfer],
                    src: holder as i32,
                    dst: rid as i32,
                    len: size,
                    name: format!("Reducer {} fetch from {} of size {}", rid, holder, size),
                });
                let calc = next;
                next += 1;
                out.push(Seen::Accumulate {
                    id: calc,
                    deps: vec![fetch],
                    pe: rid,
                    len: size,
                    name: format!("Reducer {} calc size {}", rid, size),
                });
                output_deps.push(calc);
            }
            let fetch = next;
            next += 1;
            out.push(Seen::Transfer {
                id: fetch,
                deps: spilled[j].0.clone(),
                src: -1,
                dst: rid as i32,
                len: spilled[j].1,
                name: format!("Reducer {} fetch from memory of size {}", rid, spilled[j].1),
            });
            let calc = next;
            next += 1;
            out.push(Seen::Accumulate {
                id: calc,
                deps: vec![fetch],
                pe: rid,
                len: spilled[j].1,
                name: format!("Reducer {} calc size {}", rid, spilled[j].1),
            });
            output_deps.push(calc);
            let id = next;
            next += 1;
            out.push(Seen::Transfer {
                id,
                deps: output_deps,
                src: rid as i32,
                dst: -1,
                len: output_size,
                name: format!("Reducer {} output of size {}", rid, output_size),
            });
            last_output[j] = Some(id);
        }
        k_ofst += mk * mapper_num;
    }
    out
}

fn check_against_hand(
    mapper_num: usize,
    reducer_num: usize,
    tile: usize,
    amorph: bool,
    mult: [usize; 2],
    gemm: (usize, usize, usize),
) -> Vec<Seen> {
    let mut p = planned(mapper_num, reducer_num, tile, amorph, mult, gemm);
    let expected = by_hand(&p, mapper_num, reducer_num, gemm.2, 0);
    p.exec();
    assert!(!p.is_planned());
    let got: Vec<Seen> = p.op_list().iter().map(seen).collect();
    assert_eq!(got.len(), expected.len());
    for (g, e) in got.iter().zip(expected.iter()) {
        assert_eq!(g, e);
    }
    got
}

fn id_of(s: &Seen) -> usize {
    match s {
        Seen::Transfer { id, .. } | Seen::Accumulate { id, .. } | Seen::Cross { id, .. } => *id,
    }
}

fn deps_of(s: &Seen) -> &Vec<usize> {
    match s {
        Seen::Transfer { deps, .. } | Seen::Accumulate { deps, .. } | Seen::Cross { deps, .. } => {
            deps
        }
    }
}

#[test]
fn end_to_end_without_lending() {
    let (mapper_num, reducer_num) = (4usize, 2usize);
    let ops = check_against_hand(mapper_num, reducer_num, 64, false, [8, 8], (1024, 1024, 1024));
    // 64 rounds; per round 4 mappers with 6 operations and 2 reducers with 4.
    let rounds = 1024 / (4 * mapper_num);
    let per_round = mapper_num * 6 + reducer_num * 4;
    assert_eq!(ops.len(), rounds * per_round);
    // Identifiers are positions.
    for (i, op) in ops.iter().enumerate() {
        assert_eq!(id_of(op), i);
    }
    // One outer product per round and active mapper.
    let mut crosses = vec![vec![0usize; mapper_num]; rounds];
    for (i, op) in ops.iter().enumerate() {
        if let Seen::Cross { pe, k, m, n, .. } = op {
            crosses[i / per_round][*pe] += 1;
            assert_eq!((*k, *m, *n), (4, 1024, 1024));
        }
    }
    for round in crosses.iter() {
        for count in round.iter() {
            assert_eq!(*count, 1);
        }
    }
    for round in 0..rounds {
        let base = round * per_round;
        for j in 0..reducer_num {
            let rid = (mapper_num + j) as i32;
            // The output is the last operation of the reducer.
            let output = &ops[base + mapper_num * 6 + j * 4 + 3];
            match output {
                Seen::Transfer { src, dst, len, deps, .. } => {
                    assert_eq!((*src, *dst, *len), (rid, -1, 1024 * 512));
                    // It waits for accumulations of this round only.
                    assert_eq!(deps.len(), 2);
                    for d in deps {
                        assert!(*d >= base + mapper_num * 6 && *d < base + per_round);
                        assert!(matches!(
                            &ops[*d],
                            Seen::Accumulate { pe, .. } if *pe as i32 == rid
                        ));
                    }
                }
                other => panic!("not an output: {:?}", other),
            }
            // Every transfer of the next round to this reducer waits for it.
            if round + 1 < rounds {
                let next_base = base + per_round;
                for mid in 0..mapper_num {
                    for t in 0..2 {
                        let transfer = &ops[next_base + mid * 6 + 2 + j * 2 + t];
                        match transfer {
                            Seen::Transfer { src, deps, .. } => {
                                assert_eq!(*src, mid as i32);
                                assert!(deps.contains(&id_of(output)));
                                assert_eq!(deps.len(), 2);
                            }
                            other => panic!("not a transfer: {:?}", other),
                        }
                    }
                }
            }
        }
    }
}

#[test]
fn first_round_in_full() {
    let ops = check_against_hand(2, 1, 8, false, [8, 8], (3, 2, 2));
    let t = |id, deps: Vec<usize>, src, dst, len, name: &str| Seen::Transfer {
        id,
        deps,
        src,
        dst,
        len,
        name: name.to_string(),
    };
    let a = |id, deps: Vec<usize>, pe, len, name: &str| Seen::Accumulate {
        id,
        deps,
        pe,
        len,
        name: name.to_string(),
    };
    let c = |id, deps: Vec<usize>, pe, name: &str| Seen::Cross {
        id,
        deps,
        pe,
        k: 4,
        m: 3,
        n: 2,
        name: name.to_string(),
    };
    // The tile of the one reducer has 2 x 3 x 2 = 12 elements, 8 of which
    // fit its scratchpad.
    let expected = vec![
        t(0, vec![], -1, 0, 24, "0 load map workload of k 0 from memory."),
        c(1, vec![0], 0, "0 performs cross-product of 3 x 2 with k 4"),
        t(2, vec![1], 0, 2, 8, "Transfer from 0 to local 2, data size 8"),
        t(3, vec![1], 0, -1, 4, "Transfer from 0 to -1, data size 4"),
        t(4, vec![], -1, 1, 24, "1 load map workload of k 4 from memory."),
        c(5, vec![4], 1, "1 performs cross-product of 3 x 2 with k 4"),
        t(6, vec![5], 1, 2, 8, "Transfer from 1 to local 2, data size 8"),
        t(7, vec![5], 1, -1, 4, "Transfer from 1 to -1, data size 4"),
        a(8, vec![2, 6], 2, 16, "Reducer 2 calc local of size 16"),
        t(9, vec![3, 7], -1, 2, 8, "Reducer 2 fetch from memory of size 8"),
        a(10, vec![9], 2, 8, "Reducer 2 calc size 8"),
        t(11, vec![8, 10], 2, -1, 6, "Reducer 2 output of size 6"),
    ];
    assert_eq!(ops, expected);
}

#[test]
fn second_round_waits_for_the_first() {
    // K = 10 with a stride of 8: a round of two mappers, then a round of
    // two more.
    let ops = check_against_hand(2, 1, 8, false, [8, 8], (3, 2, 10));
    assert_eq!(ops.len(), 24);
    // Mapper 0 reloads after its own transfers of the first round.
    assert_eq!(deps_of(&ops[12]), &vec![2, 3]);
    // Mapper 1 reloads after its own.
    assert_eq!(deps_of(&ops[16]), &vec![6, 7]);
    // Transfers wait for the outer product and for the reducer's output.
    assert_eq!(deps_of(&ops[14]), &vec![13, 11]);
    assert_eq!(deps_of(&ops[15]), &vec![13, 11]);
    assert_eq!(deps_of(&ops[18]), &vec![17, 11]);
    // The reducer accumulates what this round sent, no more.
    assert_eq!(deps_of(&ops[20]), &vec![14, 18]);
    assert_eq!(deps_of(&ops[21]), &vec![15, 19]);
    assert_eq!(deps_of(&ops[23]), &vec![20, 22]);
    match &ops[20] {
        Seen::Accumulate { len, .. } => assert_eq!(*len, 16),
        other => panic!("{:?}", other),
    }
}

#[test]
fn last_round_with_fewer_mappers() {
    // K = 14 with a stride of 12: the second round starts at 12, where
    // only mappers 0 and 1 are within K.
    let ops = check_against_hand(3, 1, 8, false, [8, 8], (3, 2, 14));
    let first_round = 3 * 4 + 4;
    let second_round = 2 * 4 + 4;
    assert_eq!(ops.len(), first_round + second_round);
    let crosses: Vec<usize> = ops[first_round..]
        .iter()
        .filter_map(|op| match op {
            Seen::Cross { pe, .. } => Some(*pe),
            _ => None,
        })
        .collect();
    assert_eq!(crosses, vec![0, 1]);
    match &ops[first_round + 8] {
        Seen::Accumulate { len, deps, .. } => {
            assert_eq!(*len, 2 * 8);
            assert_eq!(deps.len(), 2);
        }
        other => panic!("{:?}", other),
    }
}

#[test]
fn k_equal_to_mapper_num_is_one_round() {
    let ops = check_against_hand(4, 2, 64, false, [8, 8], (5, 5, 4));
    assert_eq!(ops.len(), 4 * 6 + 2 * 4);
}

#[test]
fn with_lending_and_spill() {
    // Holdings: reducer 3 has (0, 4) and (1, 2); reducer 4 has (1, 2) and
    // (2, 4). A tile has 3 x 4 x 2 = 24 elements: 10 local, 6 remote, 8 to
    // memory.
    let ops = check_against_hand(3, 2, 10, true, [3, 3], (4, 3, 26));
    let per_mapper = 2 + 2 * 4;
    let per_reducer = |active: usize| 4 + 2 * 2 * active;
    assert_eq!(
        ops.len(),
        2 * (3 * per_mapper + 2 * per_reducer(3)) + (2 * per_mapper + 2 * per_reducer(2))
    );
    let lens: Vec<(i32, usize)> = ops[2..6]
        .iter()
        .map(|op| match op {
            Seen::Transfer { dst, len, .. } => (*dst, *len),
            other => panic!("{:?}", other),
        })
        .collect();
    assert_eq!(lens, vec![(3, 10), (0, 4), (1, 2), (-1, 8)]);
    let lens: Vec<(i32, usize)> = ops[6..10]
        .iter()
        .map(|op| match op {
            Seen::Transfer { dst, len, .. } => (*dst, *len),
            other => panic!("{:?}", other),
        })
        .collect();
    assert_eq!(lens, vec![(4, 10), (1, 2), (2, 4), (-1, 8)]);
    // Reducer 3 fetches from its holders what each mapper parked there.
    let at = 3 * per_mapper;
    match &ops[at + 1] {
        Seen::Transfer { src, dst, len, deps, .. } => {
            assert_eq!((*src, *dst, *len), (0, 3, 4));
            assert_eq!(deps, &vec![3]);
        }
        other => panic!("{:?}", other),
    }
    match &ops[at + per_reducer(3) - 1] {
        Seen::Transfer { src, dst, deps, .. } => {
            assert_eq!((*src, *dst), (3, -1));
            assert_eq!(deps.len(), 1 + 6 + 1);
        }
        other => panic!("{:?}", other),
    }
}

#[test]
fn holdings_that_take_everything() {
    // One reducer holds 98 on each of two mappers. A tile of 190: 100
    // local, 90 on mapper 0; the second holding is not asked.
    let ops = check_against_hand(2, 1, 100, true, [1, 1], (5, 19, 2));
    let lens: Vec<(i32, usize)> = ops[2..5]
        .iter()
        .map(|op| match op {
            Seen::Transfer { dst, len, .. } => (*dst, *len),
            other => panic!("{:?}", other),
        })
        .collect();
    assert_eq!(lens, vec![(2, 100), (0, 90), (-1, 0)]);
    // A tile of 240: 100 local, 98 and 42 remote, nothing to memory.
    let ops = check_against_hand(2, 1, 100, true, [1, 1], (2, 60, 2));
    let lens: Vec<(i32, usize)> = ops[2..6]
        .iter()
        .map(|op| match op {
            Seen::Transfer { dst, len, .. } => (*dst, *len),
            other => panic!("{:?}", other),
        })
        .collect();
    assert_eq!(lens, vec![(2, 100), (0, 98), (1, 42), (-1, 0)]);
}

#[test]
fn tile_that_fits_the_scratchpad() {
    let ops = check_against_hand(1, 1, 1000, false, [8, 8], (5, 4, 3));
    let lens: Vec<(i32, usize)> = ops[2..4]
        .iter()
        .map(|op| match op {
            Seen::Transfer { dst, len, .. } => (*dst, *len),
            other => panic!("{:?}", other),
        })
        .collect();
    assert_eq!(lens, vec![(1, 20), (-1, 0)]);
}

#[test]
fn many_shapes_match_the_hand_schedule() {
    for mapper_num in 1usize..4 {
        for reducer_num in 1usize..5 {
            for tile in [0usize, 7, 20, 50] {
                for amorph in [false, true] {
                    for k in [mapper_num, mapper_num + 1, 4 * mapper_num, 9 * mapper_num + 1] {
                        check_against_hand(
                            mapper_num,
                            reducer_num,
                            tile,
                            amorph,
                            [2, 3],
                            (5, 7, k),
                        );
                    }
                }
            }
        }
    }
}

#[test]
fn no_operation_waits_for_a_later_one() {
    let ops = check_against_hand(3, 4, 25, true, [2, 3], (9, 11, 40));
    for (i, op) in ops.iter().enumerate() {
        assert_eq!(id_of(op), i);
        for d in deps_of(op) {
            assert!(*d < id_of(op));
        }
    }
}

#[test]
fn generation_is_deterministic() {
    let mut a = planned(3, 4, 25, true, [2, 3], (9, 11, 40));
    let mut b = planned(3, 4, 25, true, [2, 3], (9, 11, 40));
    a.exec();
    b.exec();
    let seen_a: Vec<Seen> = a.op_list().iter().map(seen).collect();
    let seen_b: Vec<Seen> = b.op_list().iter().map(seen).collect();
    assert_eq!(seen_a, seen_b);
    let text_a = serde_json::to_string(&a.dump_ops()).unwrap();
    let text_b = serde_json::to_string(&b.dump_ops()).unwrap();
    assert_eq!(text_a.as_bytes(), text_b.as_bytes());
}

#[test]
fn a_second_problem_continues_the_list() {
    let mut p = planned(2, 1, 8, false, [8, 8], (3, 2, 2));
    p.exec();
    assert_eq!(p.op_list().len(), 12);
    assert_eq!(p.set_gemm(3, 2, 2), Ok(()));
    let expected = by_hand(&p, 2, 1, 2, 12);
    p.exec();
    assert_eq!(p.op_list().len(), 24);
    let got: Vec<Seen> = p.op_list()[12..].iter().map(seen).collect();
    assert_eq!(got, expected);
    assert_eq!(id_of(&got[0]), 12);
    // The first load of the new schedule waits for nothing.
    assert!(deps_of(&got[0]).is_empty());
}

#[test]
fn dump_ops_gives_every_record() {
    let mut p = planned(2, 1, 8, false, [8, 8], (3, 2, 2));
    p.exec();
    let records = p.dump_ops();
    assert_eq!(records.len(), p.op_list().len());
    for (record, op) in records.iter().zip(p.op_list().iter()) {
        assert_eq!(record, &op.dump2json());
        assert_eq!(record["index"], serde_json::Value::from(op.idx()));
        assert_eq!(record["dependency"], serde_json::Value::from(op.deps().clone()));
        assert_eq!(record["op_content"]["name"], serde_json::Value::from(op.format_op()));
        match op.kind() {
            OpType::TransOp => assert_eq!(record["module"], serde_json::Value::from("global")),
            OpType::VecOp => {
                assert_eq!(record["op"]["type"], serde_json::Value::from("elementwise"))
            }
            OpType::CrossPOp => {
                assert_eq!(record["op"]["type"], serde_json::Value::from("crossproduct"))
            }
        }
    }
    let first = serde_json::from_str::<serde_json::Value>(
        r#"{"index":0,"module":"global","dependency":[],
            "op":{"src":-1,"dst":0,"len":24},
            "op_content":{"name":"0 load map workload of k 0 from memory."}}"#,
    )
    .unwrap();
    assert_eq!(records[0], first);
    let second = serde_json::from_str::<serde_json::Value>(
        r#"{"index":1,"module":0,"dependency":[0],
            "op":{"k":4,"m":3,"n":2,"complexity":24,"type":"crossproduct"},
            "op_content":{"name":"0 performs cross-product of 3 x 2 with k 4"}}"#,
    )
    .unwrap();
    assert_eq!(records[1], second);
    let ninth = serde_json::from_str::<serde_json::Value>(
        r#"{"index":8,"module":2,"dependency":[2,6],
            "op":{"complexity":16,"type":"elementwise"},
            "op_content":{"name":"Reducer 2 calc local of size 16"}}"#,
    )
    .unwrap();
    assert_eq!(records[8], ninth);
}
