//! The planner: topology, scratchpad lending, workload partitioning and
//! schedule generation.

use crate::emit::{product_if_fits, ready, route, run_round, schedule_fits, Frame, Route};
use crate::error::PreconditionViolation;
use crate::json::json_of;
use crate::op::{op_views, Op, OpTrait, OpView};
use crate::numbering::{lemma_numbered_concat, numbered_from};
use crate::order::{acyclic, dumpable, lemma_sound_concat, sound};
use crate::rental::{
    alloc_table, allocate, grand_total, grants, hold_list, hold_table, lemma_alloc_total,
    lemma_borrowed_by, lemma_hold_entries, lemma_hold_total, lemma_lent_by, lemma_tables_balance,
    lent_by, total_size, Rental,
};
use crate::schedule::{lemma_placed_bounds, placed, Plan};
use crate::util::{
    as_ints, closest_factor, nearest_divisor, rounded_sqrt, rounded_sqrt_of, Tik,
};
use vstd::prelude::*;

verus! {

/// A block of work: `k` x `m` x `n` elements.
#[derive(Debug)]
pub struct Slice {
    pub k: usize,
    pub m: usize,
    pub n: usize,
}

/// The extents of a block of work.
pub struct Extent {
    pub k: int,
    pub m: int,
    pub n: int,
}

impl Extent {
    /// The number of elements of the block.
    pub open spec fn size(self) -> int {
        self.k * self.m * self.n
    }
}

impl View for Slice {
    type V = Extent;

    open spec fn view(&self) -> Extent {
        Extent { k: self.k as int, m: self.m as int, n: self.n as int }
    }
}

impl Slice {
    pub fn new(k: usize, m: usize, n: usize) -> (s: Slice)
        ensures
            s@ == (Extent { k: k as int, m: m as int, n: n as int }),
    {
        Slice { k, m, n }
    }

    pub fn new_empty() -> (s: Slice)
        ensures
            s@ == (Extent { k: 0, m: 0, n: 0 }),
    {
        Slice { k: 0, m: 0, n: 0 }
    }

    /// The number of elements of the block.
    pub fn size(&self) -> (r: usize)
        requires
            self@.size() <= usize::MAX,
        ensures
            r == self@.size(),
    {
        crate::op::volume(self.k, self.m, self.n)
    }
}

/// The constraint on the topology that does not hold, if any.
pub open spec fn topology_violation(mapper_num: int, reducer_num: int) -> Option<
    PreconditionViolation,
> {
    if mapper_num < 1 {
        Some(PreconditionViolation::NoMappers)
    } else if reducer_num < 1 {
        Some(PreconditionViolation::NoReducers)
    } else if mapper_num + reducer_num > i32::MAX {
        Some(PreconditionViolation::TooManyElements)
    } else {
        None
    }
}

/// The scratchpad that a mapper can lend: what its tile has beyond the
/// two input vectors of its multiplier array, and nothing where lending is
/// switched off.
pub open spec fn surplus(tile: int, amorph_sram: bool, mult_array: Seq<usize>) -> int {
    if amorph_sram && tile > mult_array[0] + mult_array[1] {
        tile - (mult_array[0] + mult_array[1])
    } else {
        0
    }
}

/// The scratchpad that a reducer may borrow: an equal share of what all
/// mappers can lend, rounded down.
pub open spec fn share(per: int, mapper_num: int, reducer_num: int) -> int {
    (per * mapper_num) / reducer_num
}

/// What remains of the local scratchpad of every processing element after
/// lending, by id.
pub open spec fn local_table(tile: int, per: int, target: int, mappers: int, reducers: int) -> Seq<
    int,
> {
    Seq::new(
        (mappers + reducers) as nat,
        |i: int|
            if i < mappers {
                tile - lent_by(per, target, i, reducers)
            } else {
                tile
            },
    )
}

/// The state of a planner, as mathematical values.
pub struct PlannerView {
    pub mapper_num: int,
    pub reducer_num: int,
    pub tile_sram_size: int,
    pub amorph_sram: bool,
    pub mult_array: Seq<usize>,
    pub add_array: Seq<usize>,
    /// Remaining local scratchpad, by processing element id.
    pub local_srams: Seq<int>,
    /// What every reducer may borrow.
    pub reducer_remote_sram_size: int,
    /// Grants of every mapper as (reducer id, size), by mapper id.
    pub remote_alloc: Seq<Seq<(int, int)>>,
    /// Holdings of every reducer as (mapper id, size), by reducer number.
    pub remote_hold: Seq<Seq<(int, int)>>,
    pub m: int,
    pub k: int,
    pub n: int,
    pub mapper_workload: Extent,
    pub reducer_workload: Extent,
    pub mapper_unit: Extent,
    pub reducer_unit: Extent,
    /// Whether a problem is set and its schedule not yet generated.
    pub planned: bool,
    /// The identifier of the next operation.
    pub next_id: int,
    pub op_list: Seq<OpView>,
}

/// The state of a planner for the given topology before any problem is
/// set.
pub open spec fn fresh(
    mapper_num: int,
    reducer_num: int,
    tile_sram_size: int,
    amorph_sram: bool,
    mult_array: Seq<usize>,
    add_array: Seq<usize>,
) -> PlannerView {
    let per = surplus(tile_sram_size, amorph_sram, mult_array);
    let target = share(per, mapper_num, reducer_num);
    PlannerView {
        mapper_num,
        reducer_num,
        tile_sram_size,
        amorph_sram,
        mult_array,
        add_array,
        local_srams: local_table(tile_sram_size, per, target, mapper_num, reducer_num),
        reducer_remote_sram_size: target,
        remote_alloc: alloc_table(per, target, mapper_num, reducer_num),
        remote_hold: hold_table(per, target, mapper_num, reducer_num),
        m: 0,
        k: 0,
        n: 0,
        mapper_workload: Extent { k: 0, m: 0, n: 0 },
        reducer_workload: Extent { k: 0, m: 0, n: 0 },
        mapper_unit: Extent { k: 1, m: mult_array[0] as int, n: mult_array[1] as int },
        reducer_unit: Extent { k: 2, m: add_array[0] as int, n: add_array[1] as int },
        planned: false,
        next_id: 0,
        op_list: Seq::empty(),
    }
}

/// The extent of K that a mapper covers between two reductions. It is a
/// constant, whatever the number of mappers and the extent of K; a round of
/// all mappers advances by `MAPPER_K * mapper_num`.
pub const MAPPER_K: usize = 4;

/// `a / d`, rounded up.
pub open spec fn ceil_div(a: int, d: int) -> int {
    if a % d == 0 {
        a / d
    } else {
        a / d + 1
    }
}

/// Lists of grants as mathematical values.
pub open spec fn tables(lists: Seq<Vec<(usize, usize)>>) -> Seq<Seq<(int, int)>> {
    Seq::new(lists.len(), |i: int| grants(lists[i]@))
}

/// Plans the execution of a GEMM on mappers and reducers.
pub struct OuterProduct {
    mapper_num: usize,
    reducer_num: usize,
    tile_sram_size: usize,
    op_list: Vec<Op>,
    tik: Tik,
    amorph_sram: bool,
    mult_array: [usize; 2],
    add_array: [usize; 2],
    local_srams: Vec<usize>,
    reducer_remote_sram_size: u128,
    remote_alloc: Vec<Vec<(usize, usize)>>,
    remote_hold: Vec<Vec<(usize, usize)>>,
    m: usize,
    k: usize,
    n: usize,
    mapper_workload: Slice,
    reducer_workload: Slice,
    mapper_unit: Slice,
    reducer_unit: Slice,
    planned: bool,
    /// Where the tile of every reducer goes, once a problem is set.
    routes: Vec<Route>,
}

impl View for OuterProduct {
    type V = PlannerView;

    closed spec fn view(&self) -> PlannerView {
        PlannerView {
            mapper_num: self.mapper_num as int,
            reducer_num: self.reducer_num as int,
            tile_sram_size: self.tile_sram_size as int,
            amorph_sram: self.amorph_sram,
            mult_array: self.mult_array@,
            add_array: self.add_array@,
            local_srams: crate::util::as_ints(self.local_srams@),
            reducer_remote_sram_size: self.reducer_remote_sram_size as int,
            remote_alloc: tables(self.remote_alloc@),
            remote_hold: tables(self.remote_hold@),
            m: self.m as int,
            k: self.k as int,
            n: self.n as int,
            mapper_workload: self.mapper_workload@,
            reducer_workload: self.reducer_workload@,
            mapper_unit: self.mapper_unit@,
            reducer_unit: self.reducer_unit@,
            planned: self.planned,
            next_id: self.tik@ as int,
            op_list: op_views(self.op_list@),
        }
    }
}

impl PlannerView {
    /// What a mapper can lend.
    pub open spec fn per(self) -> int {
        surplus(self.tile_sram_size, self.amorph_sram, self.mult_array)
    }

    /// Whether the topology is valid and the capacities are those that
    /// lending leads to.
    pub open spec fn settled(self) -> bool {
        &&& topology_violation(self.mapper_num, self.reducer_num) is None
        &&& self.mult_array.len() == 2
        &&& self.add_array.len() == 2
        &&& 0 <= self.tile_sram_size
        &&& self.reducer_remote_sram_size == share(self.per(), self.mapper_num, self.reducer_num)
        &&& self.local_srams == local_table(
            self.tile_sram_size,
            self.per(),
            self.reducer_remote_sram_size,
            self.mapper_num,
            self.reducer_num,
        )
        &&& self.remote_alloc == alloc_table(
            self.per(),
            self.reducer_remote_sram_size,
            self.mapper_num,
            self.reducer_num,
        )
        &&& self.remote_hold == hold_table(
            self.per(),
            self.reducer_remote_sram_size,
            self.mapper_num,
            self.reducer_num,
        )
    }
}

impl PlannerView {
    /// The parameters of the schedule of the problem that is set.
    pub open spec fn plan(self) -> Plan {
        Plan {
            mappers: self.mapper_num,
            reducers: self.reducer_num,
            depth: self.k,
            step: self.mapper_workload.k,
            rows: self.mapper_workload.m,
            cols: self.mapper_workload.n,
            tile_rows: self.reducer_workload.m,
            tile_cols: self.reducer_workload.n,
            local: Seq::new(
                self.reducer_num as nat,
                |j: int| self.local_srams[self.mapper_num + j],
            ),
            hold: self.remote_hold,
        }
    }

    /// Number of reducers along the rows of the output: the divisor of the
    /// number of reducers nearest to its square root.
    pub open spec fn para_m(self) -> int {
        nearest_divisor(self.reducer_num, rounded_sqrt_of(self.reducer_num))
    }

    /// Number of reducers along the columns of the output.
    pub open spec fn para_n(self) -> int {
        self.reducer_num / self.para_m()
    }

    /// The state after the problem `m` x `n` x `k` is set: every mapper
    /// covers `MAPPER_K` of K at a time over the whole output, and every
    /// reducer owns one tile of the output, with one contribution of
    /// every mapper.
    pub open spec fn with_gemm(self, m: int, n: int, k: int) -> PlannerView {
        PlannerView {
            m,
            n,
            k,
            mapper_workload: Extent { k: MAPPER_K as int, m, n },
            reducer_workload: Extent {
                k: self.mapper_num,
                m: ceil_div(m, self.para_m()),
                n: ceil_div(n, self.para_n()),
            },
            planned: true,
            ..self
        }
    }

    /// The constraint that the problem `m` x `n` x `k` breaks, if any, and
    /// the first in this order if several: K is at least the number of
    /// mappers; the output has more elements than there are reducers; a
    /// machine word can count what a mapper loads and what all mappers
    /// together send to one reducer in one round; and identifiers are left
    /// for every operation of the schedule.
    pub open spec fn gemm_violation(self, m: int, n: int, k: int) -> Option<
        PreconditionViolation,
    > {
        let next = self.with_gemm(m, n, k);
        if k < self.mapper_num {
            Some(PreconditionViolation::DepthBelowMappers)
        } else if m * n <= self.reducer_num {
            Some(PreconditionViolation::TooFewTiles)
        } else if next.mapper_workload.size() > usize::MAX || self.mapper_num
            * next.reducer_workload.size() > usize::MAX {
            Some(PreconditionViolation::WorkloadTooLarge)
        } else if self.next_id + next.plan().length() > usize::MAX {
            Some(PreconditionViolation::ScheduleTooLong)
        } else {
            None
        }
    }

    /// The state after the schedule of the problem that is set is
    /// generated: its operations follow those that were there, numbered on
    /// from the next identifier, and the problem is done with.
    pub open spec fn with_schedule(self) -> PlannerView {
        PlannerView {
            op_list: self.op_list + self.plan().schedule(self.next_id),
            next_id: self.next_id + self.plan().length(),
            planned: false,
            ..self
        }
    }
}

impl OuterProduct {
    /// The numbers of the plan that generation reads.
    pub closed spec fn frame(&self) -> Frame {
        Frame {
            mapper_num: self.mapper_num,
            reducer_num: self.reducer_num,
            step: self.mapper_workload.k,
            rows: self.mapper_workload.m,
            cols: self.mapper_workload.n,
            load_size: self@.plan().load_size() as usize,
            output_size: self@.plan().output_size() as usize,
        }
    }

    /// The invariant of a planner.
    pub closed spec fn wf(&self) -> bool {
        &&& self@.settled()
        &&& self.local_srams@.len() == self.mapper_num + self.reducer_num
        &&& self.remote_alloc@.len() == self.mapper_num
        &&& self.remote_hold@.len() == self.reducer_num
        &&& sound(self@.op_list)
        &&& numbered_from(self@.op_list, 0)
        &&& self.tik@ == self.op_list@.len()
        &&& self.planned ==> {
            &&& ready(self.frame(), self.routes@, self@.plan())
            &&& self.mapper_num <= self.k
            &&& self.tik@ + self@.plan().length() <= usize::MAX
        }
    }

    /// Sets up the processing elements and lends mapper scratchpad to
    /// reducers. There must be a mapper and a reducer, and no more
    /// processing elements than `i32` has positive values, since `-1`
    /// stands for main memory.
    pub fn new(
        mapper_num: usize,
        reducer_num: usize,
        tile_sram_size: usize,
        amorph_sram: bool,
        mult_array: [usize; 2],
        add_array: [usize; 2],
    ) -> (r: Result<OuterProduct, PreconditionViolation>)
        ensures
            match r {
                Ok(planner) => {
                    &&& topology_violation(mapper_num as int, reducer_num as int) is None
                    &&& planner.wf()
                    &&& planner@ == fresh(
                        mapper_num as int,
                        reducer_num as int,
                        tile_sram_size as int,
                        amorph_sram,
                        mult_array@,
                        add_array@,
                    )
                },
                Err(e) => topology_violation(mapper_num as int, reducer_num as int) == Some(e),
            },
    {
        if mapper_num < 1 {
            return Err(PreconditionViolation::NoMappers);
        }
        if reducer_num < 1 {
            return Err(PreconditionViolation::NoReducers);
        }
        if mapper_num > 0x7fff_ffff || reducer_num > 0x7fff_ffff - mapper_num {
            return Err(PreconditionViolation::TooManyElements);
        }
        let minimum = mult_array[0].saturating_add(mult_array[1]);
        let per = if amorph_sram {
            tile_sram_size.saturating_sub(minimum)
        } else {
            0
        };
        assert(per == surplus(tile_sram_size as int, amorph_sram, mult_array@));
        assert(per * mapper_num <= 0xffff_ffff_ffff_ffff * 0x7fff_ffff) by (nonlinear_arith)
            requires
                0 <= per <= 0xffff_ffff_ffff_ffff,
                0 <= mapper_num <= 0x7fff_ffff,
        ;
        let total: u128 = per as u128 * mapper_num as u128;
        let target: u128 = total / reducer_num as u128;
        assert(target * reducer_num <= per * mapper_num) by (nonlinear_arith)
            requires
                target == (per * mapper_num) / (reducer_num as int),
                reducer_num >= 1,
                per * mapper_num >= 0,
        ;
        let rental = allocate(mapper_num, reducer_num, tile_sram_size, per, target);
        let Rental { local_srams, remote_alloc, remote_hold } = rental;
        let planner = OuterProduct {
            mapper_num,
            reducer_num,
            tile_sram_size,
            op_list: Vec::new(),
            tik: Tik::new(),
            amorph_sram,
            mult_array,
            add_array,
            local_srams,
            reducer_remote_sram_size: target,
            remote_alloc,
            remote_hold,
            m: 0,
            k: 0,
            n: 0,
            mapper_workload: Slice::new_empty(),
            reducer_workload: Slice::new_empty(),
            mapper_unit: Slice::new(1, mult_array[0], mult_array[1]),
            reducer_unit: Slice::new(2, add_array[0], add_array[1]),
            planned: false,
            routes: Vec::new(),
        };
        proof {
            let v = planner@;
            let f = fresh(
                mapper_num as int,
                reducer_num as int,
                tile_sram_size as int,
                amorph_sram,
                mult_array@,
                add_array@,
            );
            assert(v.local_srams =~= f.local_srams);
            assert(v.remote_alloc =~= f.remote_alloc);
            assert(v.remote_hold =~= f.remote_hold);
            assert(v.op_list =~= f.op_list);
        }
        Ok(planner)
    }
}

/// `a / d`, rounded up.
pub fn div_up(a: usize, d: usize) -> (r: usize)
    requires
        1 <= d,
    ensures
        r == ceil_div(a as int, d as int),
{
    if a % d == 0 {
        a / d
    } else {
        assert(a / d < a) by (nonlinear_arith)
            requires
                a % d != 0,
                1 <= d,
                0 <= a,
        ;
        a / d + 1
    }
}

impl OuterProduct {
    /// Works out, for every reducer, where a tile of `tile_size` elements
    /// goes.
    fn build_routes(&self, tile_size: usize, Ghost(p): Ghost<Plan>) -> (routes: Vec<Route>)
        requires
            self.wf(),
            p.mappers == self.mapper_num,
            p.reducers == self.reducer_num,
            p.local == self@.plan().local,
            p.hold == self@.remote_hold,
            p.tile_size() == tile_size,
        ensures
            routes@.len() == self.reducer_num,
            forall|j: int| 0 <= j < self.reducer_num ==> (#[trigger] routes@[j]).matches(p, j),
            forall|j: int, s: int|
                0 <= j < self.reducer_num && 0 <= s < routes@[j].remote@.len() ==> (
                #[trigger] routes@[j].remote@[s]).0 <= i32::MAX,
    {
        let mut routes: Vec<Route> = Vec::new();
        let mut j: usize = 0;
        while j < self.reducer_num
            invariant
                self.wf(),
                p.mappers == self.mapper_num,
                p.reducers == self.reducer_num,
                p.local == self@.plan().local,
                p.hold == self@.remote_hold,
                p.tile_size() == tile_size,
                j <= self.reducer_num,
                routes@.len() == j,
                forall|t: int| 0 <= t < j ==> (#[trigger] routes@[t]).matches(p, t),
                forall|t: int, s: int|
                    0 <= t < j && 0 <= s < routes@[t].remote@.len() ==> (
                    #[trigger] routes@[t].remote@[s]).0 <= i32::MAX,
            decreases self.reducer_num - j,
        {
            let r = route(tile_size, self.local_srams[self.mapper_num + j], &self.remote_hold[j]);
            proof {
                let jj = j as int;
                let v = self@;
                let slots = grants(self.remote_hold@[jj]@);
                assert(p.hold[jj] == slots);
                assert(p.local[jj] == self.local_srams@[self.mapper_num + jj] as int);
                assert(r.matches(p, jj));
                let target = v.reducer_remote_sram_size;
                assert(slots == hold_list(v.per(), target, jj, v.mapper_num));
                lemma_hold_entries(v.per(), target, jj, v.mapper_num);
                let amount = tile_size - r.to_local;
                lemma_placed_bounds(amount, slots, slots.len() as int);
                assert forall|s: int| 0 <= s < r.remote@.len() implies (#[trigger] r.remote@[s]).0
                    <= i32::MAX by {
                    let placements = placed(amount, slots, slots.len() as int);
                    assert(grants(r.remote@)[s] == placements[s]);
                    let u = choose|u: int|
                        0 <= u < slots.len() && placements[s].0 == slots[u].0;
                    assert(0 <= slots[u].0 < v.mapper_num);
                }
            }
            let ghost before = routes@;
            routes.push(r);
            proof {
                assert forall|t: int, s: int|
                    0 <= t < j + 1 && 0 <= s < routes@[t].remote@.len() implies (
                #[trigger] routes@[t].remote@[s]).0 <= i32::MAX by {
                    if t < j {
                        assert(routes@[t] == before[t]);
                    }
                }
            }
            j += 1;
        }
        routes
    }

    /// Partitions the problem `m` x `n` x `k` over mappers and reducers.
    ///
    /// K must be at least the number of mappers (equal is enough), and the
    /// output must have more elements than there are reducers. The
    /// workloads and the schedule must be countable in machine words. Of
    /// several constraints that do not hold, the first in this order is
    /// returned, and the planner stays as it was.
    pub fn set_gemm(&mut self, m: usize, n: usize, k: usize) -> (r: Result<
        (),
        PreconditionViolation,
    >)
        requires
            old(self).wf(),
        ensures
            final(self).wf(),
            match r {
                Ok(_) => {
                    &&& old(self)@.gemm_violation(m as int, n as int, k as int) is None
                    &&& final(self)@ == old(self)@.with_gemm(m as int, n as int, k as int)
                },
                Err(e) => {
                    &&& old(self)@.gemm_violation(m as int, n as int, k as int) == Some(e)
                    &&& final(self)@ == old(self)@
                },
            },
    {
        let ghost next = self@.with_gemm(m as int, n as int, k as int);
        let ghost p = next.plan();
        if k < self.mapper_num {
            return Err(PreconditionViolation::DepthBelowMappers);
        }
        assert(m * n <= 0xffff_ffff_ffff_ffff * 0xffff_ffff_ffff_ffff) by (nonlinear_arith)
            requires
                0 <= m <= 0xffff_ffff_ffff_ffff,
                0 <= n <= 0xffff_ffff_ffff_ffff,
        ;
        if (m as u128) * (n as u128) <= self.reducer_num as u128 {
            return Err(PreconditionViolation::TooFewTiles);
        }
        let para_m = closest_factor(self.reducer_num, rounded_sqrt(self.reducer_num));
        assert(self.reducer_num / para_m >= 1) by (nonlinear_arith)
            requires
                1 <= para_m <= self.reducer_num,
        ;
        let para_n = self.reducer_num / para_m;
        let reducer_m = div_up(m, para_m);
        let reducer_n = div_up(n, para_n);
        let load = product_if_fits(MAPPER_K, m, n);
        let tile = product_if_fits(self.mapper_num, reducer_m, reducer_n);
        if load.is_none() || tile.is_none() {
            proof {
                if tile.is_none() {
                    assert(self.mapper_num * next.reducer_workload.size()
                        >= next.reducer_workload.size()) by (nonlinear_arith)
                        requires
                            self.mapper_num >= 1,
                            next.reducer_workload.size() >= 0,
                    ;
                }
            }
            return Err(PreconditionViolation::WorkloadTooLarge);
        }
        let load_size = load.unwrap();
        let tile_size = tile.unwrap();
        assert(self.mapper_num * tile_size <= 0x7fff_ffff * 0xffff_ffff_ffff_ffff)
            by (nonlinear_arith)
            requires
                0 <= self.mapper_num <= 0x7fff_ffff,
                0 <= tile_size <= 0xffff_ffff_ffff_ffff,
        ;
        if (self.mapper_num as u128) * (tile_size as u128) > usize::MAX as u128 {
            return Err(PreconditionViolation::WorkloadTooLarge);
        }
        assert(reducer_m * reducer_n <= self.mapper_num * reducer_m * reducer_n)
            by (nonlinear_arith)
            requires
                self.mapper_num >= 1,
                reducer_m >= 0,
                reducer_n >= 0,
        ;
        let output_size = reducer_m * reducer_n;
        let routes = self.build_routes(tile_size, Ghost(p));
        let f = Frame {
            mapper_num: self.mapper_num,
            reducer_num: self.reducer_num,
            step: MAPPER_K,
            rows: m,
            cols: n,
            load_size,
            output_size,
        };
        assert(ready(f, routes@, p));
        if !schedule_fits(&f, &routes, k, self.tik.peek(), Ghost(p)) {
            return Err(PreconditionViolation::ScheduleTooLong);
        }
        self.m = m;
        self.k = k;
        self.n = n;
        self.mapper_workload = Slice::new(MAPPER_K, m, n);
        self.reducer_workload = Slice::new(self.mapper_num, reducer_m, reducer_n);
        self.routes = routes;
        self.planned = true;
        proof {
            assert(self@.plan() == p);
            assert(self.frame() == f);
        }
        Ok(())
    }
}

impl OuterProduct {
    /// Generates the schedule of the problem that is set and appends its
    /// operations to the operation list. The problem is then done with: to
    /// generate again, set a problem again.
    pub fn exec(&mut self)
        requires
            old(self).wf(),
            old(self)@.planned,
        ensures
            final(self).wf(),
            final(self)@ == old(self)@.with_schedule(),
            acyclic(final(self)@.op_list),
            numbered_from(final(self)@.op_list, 0),
    {
        let ghost v0 = self@;
        let ghost p = v0.plan();
        let ghost t0 = v0.next_id;
        let f = Frame {
            mapper_num: self.mapper_num,
            reducer_num: self.reducer_num,
            step: self.mapper_workload.k,
            rows: self.mapper_workload.m,
            cols: self.mapper_workload.n,
            load_size: self.mapper_workload.size(),
            output_size: self.reducer_workload.m * self.reducer_workload.n,
        };
        assert(f == self.frame());
        let mut ops: Vec<Op> = Vec::new();
        core::mem::swap(&mut ops, &mut self.op_list);
        let mut tik = Tik::new();
        core::mem::swap(&mut tik, &mut self.tik);
        let ghost ops0 = op_views(ops@);
        assert(f.step * f.mapper_num <= 0xffff_ffff_ffff_ffff * 0x7fff_ffff) by (nonlinear_arith)
            requires
                0 <= f.step <= 0xffff_ffff_ffff_ffff,
                0 <= f.mapper_num <= 0x7fff_ffff,
        ;
        let stride: u128 = (f.step as u128) * (f.mapper_num as u128);
        assert(stride >= 1) by (nonlinear_arith)
            requires
                stride == f.step * f.mapper_num,
                f.step >= 1,
                f.mapper_num >= 1,
        ;
        let depth = self.k;
        let mut k_ofst: usize = 0;
        let mut drained: Vec<Vec<usize>> = Vec::new();
        let mut outputs: Vec<usize> = Vec::new();
        loop
            invariant_except_break
                ready(f, self.routes@, p),
                depth == p.depth,
                k_ofst < depth,
                stride == p.stride(),
                stride >= 1,
                t0 + p.length() <= usize::MAX,
                tik@ + p.length_from(k_ofst as int) == t0 + p.length(),
                op_views(ops@) + p.rounds_from(k_ofst as int, tik@ as int) == ops0 + p.schedule(
                    t0,
                ),
                k_ofst == 0 ==> outputs@.len() == 0,
                k_ofst > 0 ==> outputs@.len() == p.reducers && drained@.len() >= p.active(
                    k_ofst as int,
                ),
                forall|j: int|
                    0 <= j < outputs@.len() ==> (#[trigger] outputs@[j]) as int == p.output_id(
                        p.before(k_ofst as int, tik@ as int),
                        p.active(k_ofst - p.stride()),
                        j,
                    ),
                forall|a: int|
                    k_ofst > 0 && 0 <= a < drained@.len() ==> as_ints((#[trigger] drained@[a])@)
                        == p.load_deps(k_ofst as int, tik@ as int, a),
            ensures
                op_views(ops@) == ops0 + p.schedule(t0),
                tik@ == t0 + p.length(),
            decreases depth - k_ofst,
        {
            let ghost first = tik@ as int;
            let ghost ops1 = op_views(ops@);
            proof {
                p.lemma_length_from(k_ofst + p.stride());
            }
            let (next_drained, next_outputs) = run_round(
                &f,
                &self.routes,
                k_ofst,
                depth,
                &drained,
                &outputs,
                &mut tik,
                &mut ops,
                Ghost(p),
            );
            drained = next_drained;
            outputs = next_outputs;
            proof {
                assert(op_views(ops@) + p.rounds_from(k_ofst + p.stride(), tik@ as int) =~= ops1
                    + p.rounds_from(k_ofst as int, first));
            }
            if (depth - k_ofst) as u128 <= stride {
                proof {
                    assert(op_views(ops@) =~= op_views(ops@) + p.rounds_from(
                        k_ofst + p.stride(),
                        tik@ as int,
                    ));
                }
                break;
            }
            k_ofst = k_ofst + stride as usize;
        }
        self.op_list = ops;
        self.tik = tik;
        self.planned = false;
        proof {
            assert(self@.op_list =~= v0.with_schedule().op_list);
            p.lemma_rounds_from(0, t0);
            lemma_sound_concat(ops0, p.schedule(t0));
            p.lemma_schedule_numbered(t0);
            lemma_numbered_concat(ops0, p.schedule(t0), 0);
        }
    }
}

impl OuterProduct {
    /// What the invariant says of the state: the capacities are those that
    /// lending leads to; the operation at position `i` of the list has the
    /// identifier `i`, and the next identifier is the length of the list;
    /// no operation waits for a later one; and every record can be
    /// written.
    pub proof fn lemma_invariant(&self)
        requires
            self.wf(),
        ensures
            self@.settled(),
            numbered_from(self@.op_list, 0),
            self@.next_id == self@.op_list.len(),
            acyclic(self@.op_list),
            dumpable(self@.op_list),
    {
    }

    /// The operations generated so far, in the order of their identifiers.
    pub fn op_list(&self) -> (r: &Vec<Op>)
        ensures
            op_views(r@) == self@.op_list,
    {
        &self.op_list
    }

    /// The structured record of every operation generated so far.
    pub fn dump_ops(&self) -> (r: Vec<serde_json::Value>)
        requires
            self.wf(),
        ensures
            r@.len() == self@.op_list.len(),
            forall|i: int| 0 <= i < r@.len() ==> json_of(#[trigger] r@[i]) == self@.op_list[i].record(),
    {
        let mut r: Vec<serde_json::Value> = Vec::new();
        let mut i: usize = 0;
        while i < self.op_list.len()
            invariant
                self.wf(),
                i <= self.op_list@.len(),
                r@.len() == i,
                forall|t: int|
                    0 <= t < i ==> json_of(#[trigger] r@[t]) == self@.op_list[t].record(),
            decreases self.op_list@.len() - i,
        {
            proof {
                assert(self@.op_list[i as int] == self.op_list@[i as int]@);
            }
            let v = self.op_list[i].dump2json();
            r.push(v);
            i += 1;
        }
        r
    }

    /// Remaining local scratchpad of every processing element, by id.
    pub fn local_srams(&self) -> (r: &Vec<usize>)
        ensures
            as_ints(r@) == self@.local_srams,
    {
        &self.local_srams
    }

    /// Grants of every mapper as (reducer id, size), by mapper id.
    pub fn remote_alloc(&self) -> (r: &Vec<Vec<(usize, usize)>>)
        ensures
            tables(r@) == self@.remote_alloc,
    {
        &self.remote_alloc
    }

    /// Holdings of every reducer as (mapper id, size), by reducer number.
    pub fn remote_hold(&self) -> (r: &Vec<Vec<(usize, usize)>>)
        ensures
            tables(r@) == self@.remote_hold,
    {
        &self.remote_hold
    }

    /// What every reducer may borrow.
    pub fn reducer_remote_sram_size(&self) -> (r: u128)
        ensures
            r == self@.reducer_remote_sram_size,
    {
        self.reducer_remote_sram_size
    }

    /// What a mapper covers in one round.
    pub fn mapper_workload(&self) -> (r: &Slice)
        ensures
            r@ == self@.mapper_workload,
    {
        &self.mapper_workload
    }

    /// What a reducer gathers in one round.
    pub fn reducer_workload(&self) -> (r: &Slice)
        ensures
            r@ == self@.reducer_workload,
    {
        &self.reducer_workload
    }

    /// What the multiplier array of a mapper computes at a time.
    pub fn mapper_unit(&self) -> (r: &Slice)
        ensures
            r@ == self@.mapper_unit,
    {
        &self.mapper_unit
    }

    /// What the adder array of a reducer computes at a time.
    pub fn reducer_unit(&self) -> (r: &Slice)
        ensures
            r@ == self@.reducer_unit,
    {
        &self.reducer_unit
    }

    /// Whether a problem is set and its schedule not yet generated.
    pub fn is_planned(&self) -> (r: bool)
        ensures
            r == self@.planned,
    {
        self.planned
    }
}

impl PlannerView {
    /// Conservation of capacity: the grants of all mappers add up to the
    /// holdings of all reducers; no mapper lends more than its surplus, no
    /// reducer holds more than its target, and no processing element is
    /// left with negative capacity.
    pub proof fn lemma_conservation(self)
        requires
            self.settled(),
        ensures
            grand_total(self.remote_alloc) == grand_total(self.remote_hold),
            forall|i: int|
                0 <= i < self.mapper_num ==> total_size(#[trigger] self.remote_alloc[i])
                    <= self.per(),
            forall|j: int|
                0 <= j < self.reducer_num ==> total_size(#[trigger] self.remote_hold[j])
                    <= self.reducer_remote_sram_size,
            forall|i: int|
                0 <= i < self.mapper_num + self.reducer_num ==> 0 <= #[trigger] self.local_srams[i],
    {
        let per = self.per();
        let target = self.reducer_remote_sram_size;
        let mm = self.mapper_num;
        let rr = self.reducer_num;
        assert(0 <= per <= self.tile_sram_size);
        assert(0 <= target) by (nonlinear_arith)
            requires
                target == (per * mm) / rr,
                0 <= per,
                1 <= mm,
                1 <= rr,
        ;
        lemma_tables_balance(per, target, mm, rr);
        assert forall|i: int| 0 <= i < mm implies total_size(#[trigger] self.remote_alloc[i])
            <= per by {
            lemma_alloc_total(per, target, mm, i, rr);
            lemma_lent_by(per, target, i, rr);
        }
        assert forall|j: int| 0 <= j < rr implies total_size(#[trigger] self.remote_hold[j])
            <= target by {
            lemma_hold_total(per, target, j, mm);
            lemma_borrowed_by(per, target, j, mm);
        }
        assert forall|i: int| 0 <= i < mm + rr implies 0 <= #[trigger] self.local_srams[i] by {
            if i < mm {
                lemma_lent_by(per, target, i, rr);
            }
        }
    }
}

/// Where a tile is just as large as the two input vectors of the
/// multiplier array, no mapper has anything to lend: the surplus is zero,
/// and no mapper has a grant and no reducer a holding.
pub proof fn lemma_no_surplus(
    mapper_num: int,
    reducer_num: int,
    tile_sram_size: int,
    mult_array: Seq<usize>,
    add_array: Seq<usize>,
)
    requires
        1 <= mapper_num,
        1 <= reducer_num,
        tile_sram_size == mult_array[0] + mult_array[1],
    ensures
        surplus(tile_sram_size, true, mult_array) == 0,
        fresh(
            mapper_num,
            reducer_num,
            tile_sram_size,
            true,
            mult_array,
            add_array,
        ).reducer_remote_sram_size == 0,
        forall|i: int|
            0 <= i < mapper_num ==> (#[trigger] fresh(
                mapper_num,
                reducer_num,
                tile_sram_size,
                true,
                mult_array,
                add_array,
            ).remote_alloc[i]).len() == 0,
        forall|j: int|
            0 <= j < reducer_num ==> (#[trigger] fresh(
                mapper_num,
                reducer_num,
                tile_sram_size,
                true,
                mult_array,
                add_array,
            ).remote_hold[j]).len() == 0,
{
    let v = fresh(mapper_num, reducer_num, tile_sram_size, true, mult_array, add_array);
    assert(share(0, mapper_num, reducer_num) == 0) by (nonlinear_arith)
        requires
            1 <= reducer_num,
    ;
    assert forall|i: int| 0 <= i < mapper_num implies (#[trigger] v.remote_alloc[i]).len()
        == 0 by {
        crate::rental::lemma_alloc_none_at_all(0, mapper_num, i, reducer_num);
    }
    assert forall|j: int| 0 <= j < reducer_num implies (#[trigger] v.remote_hold[j]).len()
        == 0 by {
        crate::rental::lemma_hold_none_at_all(0, j, mapper_num);
    }
}

/// Planning is a function of its inputs: two planners for the same
/// topology that are set the same problem generate the same operations,
/// with the same identifiers and the same records.
pub proof fn lemma_deterministic(
    a: PlannerView,
    b: PlannerView,
    mapper_num: int,
    reducer_num: int,
    tile_sram_size: int,
    amorph_sram: bool,
    mult_array: Seq<usize>,
    add_array: Seq<usize>,
    m: int,
    n: int,
    k: int,
)
    requires
        a == fresh(
            mapper_num,
            reducer_num,
            tile_sram_size,
            amorph_sram,
            mult_array,
            add_array,
        ).with_gemm(m, n, k).with_schedule(),
        b == fresh(
            mapper_num,
            reducer_num,
            tile_sram_size,
            amorph_sram,
            mult_array,
            add_array,
        ).with_gemm(m, n, k).with_schedule(),
    ensures
        a.op_list == b.op_list,
        forall|i: int| 0 <= i < a.op_list.len() ==> a.op_list[i].record() == b.op_list[i].record(),
        forall|i: int| 0 <= i < a.op_list.len() ==> a.op_list[i].idx() == b.op_list[i].idx(),
{
}

} // verus!
