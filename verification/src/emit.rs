//! Generation of the operations of a schedule, block by block.

use crate::label::{
    calc_label, calc_local_label, cross_label, fetch_label, fetch_memory_label, load_label,
    output_label, to_local_label, to_memory_label, to_remote_label,
};
use crate::op::{op_views, CrossPOp, Op, TransOp, VecOp};
use crate::rental::grants;
use crate::schedule::{
    fetch_ops, left_after, lemma_placed_bounds, lemma_placed_done, placed, Plan,
};
use crate::util::{as_ints, Tik};
use vstd::prelude::*;

verus! {

/// Where the elements for one reducer go.
pub struct Route {
    /// Elements that go into the reducer's own scratchpad.
    pub to_local: usize,
    /// Elements that go into each of its holdings, as (holder, size).
    pub remote: Vec<(usize, usize)>,
    /// Elements that go to main memory.
    pub spill: usize,
}

impl Route {
    /// Whether this is the route of reducer `j` in the plan `p`.
    pub open spec fn matches(&self, p: Plan, j: int) -> bool {
        &&& self.to_local == p.to_local(j)
        &&& grants(self.remote@) == p.remote(j)
        &&& self.spill == p.spill(j)
    }
}

/// Places `amount` into `slots` in their order; returns the placements as
/// (holder, size) and what is left.
pub fn place(amount: usize, slots: &Vec<(usize, usize)>) -> (r: (Vec<(usize, usize)>, usize))
    ensures
        grants(r.0@) == placed(amount as int, grants(slots@), slots@.len() as int),
        r.1 == left_after(amount as int, grants(slots@), slots@.len() as int),
{
    let ghost all = grants(slots@);
    let mut out: Vec<(usize, usize)> = Vec::new();
    let mut left = amount;
    let mut s: usize = 0;
    assert(grants(out@) =~= placed(amount as int, all, 0));
    while s < slots.len() && left > 0
        invariant
            all == grants(slots@),
            s <= slots.len(),
            left == left_after(amount as int, all, s as int),
            grants(out@) == placed(amount as int, all, s as int),
        decreases slots.len() - s,
    {
        let (holder, capacity) = slots[s];
        let size = if left < capacity {
            left
        } else {
            capacity
        };
        let ghost before = out@;
        left -= size;
        out.push((holder, size));
        s += 1;
        proof {
            assert(all[s - 1] == (holder as int, capacity as int));
            assert(grants(out@) =~= grants(before).push((holder as int, size as int)));
        }
    }
    proof {
        if left == 0 {
            lemma_placed_done(amount as int, all, s as int, slots@.len() as int);
        }
    }
    (out, left)
}

/// The route of a tile of `tile_size` elements to a reducer with `local`
/// scratchpad of its own and the holdings `hold`.
pub fn route(tile_size: usize, local: usize, hold: &Vec<(usize, usize)>) -> (r: Route)
    ensures
        r.to_local == if tile_size <= local {
            tile_size
        } else {
            local
        },
        grants(r.remote@) == placed(
            tile_size - r.to_local,
            grants(hold@),
            hold@.len() as int,
        ),
        r.spill == left_after(tile_size - r.to_local, grants(hold@), hold@.len() as int),
{
    let to_local = if tile_size <= local {
        tile_size
    } else {
        local
    };
    let (remote, spill) = place(tile_size - to_local, hold);
    Route { to_local, remote, spill }
}

/// A copy of a list of identifiers.
pub fn copy_ids(ids: &Vec<usize>) -> (r: Vec<usize>)
    ensures
        r@ == ids@,
{
    let mut r: Vec<usize> = Vec::new();
    let mut i: usize = 0;
    while i < ids.len()
        invariant
            i <= ids.len(),
            r@ == ids@.take(i as int),
        decreases ids.len() - i,
    {
        r.push(ids[i]);
        i += 1;
        assert(r@ =~= ids@.take(i as int));
    }
    assert(ids@.take(ids@.len() as int) =~= ids@);
    r
}

/// Appends one identifier to a list.
pub fn push_id(ids: &mut Vec<usize>, id: usize)
    ensures
        as_ints(final(ids)@) == as_ints(old(ids)@).push(id as int),
{
    ids.push(id);
    assert(as_ints(ids@) =~= as_ints(old(ids)@).push(id as int));
}

/// Appends one operation to the list.
pub fn emit(ops: &mut Vec<Op>, op: Op)
    ensures
        op_views(final(ops)@) == op_views(old(ops)@).push(op@),
{
    ops.push(op);
    assert(op_views(ops@) =~= op_views(old(ops)@).push(op@));
}

/// Entries of a bucket of parked transfers as mathematical triples.
pub open spec fn triples(s: Seq<(usize, usize, usize)>) -> Seq<(int, int, int)> {
    s.map_values(|e: (usize, usize, usize)| (e.0 as int, e.1 as int, e.2 as int))
}

/// Appends one entry to a bucket of parked transfers.
pub fn park(parked: &mut Vec<(usize, usize, usize)>, id: usize, holder: usize, size: usize)
    ensures
        triples(final(parked)@) == triples(old(parked)@).push(
            (id as int, holder as int, size as int),
        ),
{
    parked.push((id, holder, size));
    assert(triples(parked@) =~= triples(old(parked)@).push(
        (id as int, holder as int, size as int),
    ));
}

/// The numbers of a plan that generation reads.
pub struct Frame {
    pub mapper_num: usize,
    pub reducer_num: usize,
    pub step: usize,
    pub rows: usize,
    pub cols: usize,
    pub load_size: usize,
    pub output_size: usize,
}

/// Whether `f` and `routes` hold the numbers and routes of plan `p`, and
/// every processing element id and every total of a round fits its
/// machine type.
pub open spec fn ready(f: Frame, routes: Seq<Route>, p: Plan) -> bool {
    &&& p.valid()
    &&& p.mappers + p.reducers <= i32::MAX
    &&& f.mapper_num == p.mappers
    &&& f.reducer_num == p.reducers
    &&& f.step == p.step
    &&& f.rows == p.rows
    &&& f.cols == p.cols
    &&& f.load_size == p.load_size()
    &&& f.output_size == p.output_size()
    &&& 0 <= p.tile_size()
    &&& p.mappers * p.tile_size() <= usize::MAX
    &&& routes.len() == p.reducers
    &&& forall|j: int| 0 <= j < p.reducers ==> (#[trigger] routes[j]).matches(p, j)
    &&& forall|j: int, s: int|
        0 <= j < p.reducers && 0 <= s < routes[j].remote@.len() ==> (
        #[trigger] routes[j].remote@[s]).0 <= i32::MAX
}

/// What one reducer was served in the current round.
pub struct Bucket {
    /// Transfers into its own scratchpad, and their elements in all.
    pub local_ids: Vec<usize>,
    pub local_total: usize,
    /// Transfers into its holdings, as (transfer, holder, size).
    pub parked: Vec<(usize, usize, usize)>,
    /// Transfers to main memory, and their elements in all.
    pub spill_ids: Vec<usize>,
    pub spill_total: usize,
}

impl Bucket {
    /// Whether the bucket holds what the mappers `0..a` served reducer `j`
    /// in the round that starts with the identifier `first`.
    pub open spec fn holds(&self, p: Plan, first: int, j: int, a: int) -> bool {
        &&& as_ints(self.local_ids@) == p.local_ids(first, j, a)
        &&& self.local_total == a * p.to_local(j)
        &&& triples(self.parked@) == p.parked(first, j, a)
        &&& as_ints(self.spill_ids@) == p.spill_ids(first, j, a)
        &&& self.spill_total == a * p.spill(j)
    }

    pub fn new() -> (b: Bucket)
        ensures
            b.local_ids@.len() == 0,
            b.local_total == 0,
            b.parked@.len() == 0,
            b.spill_ids@.len() == 0,
            b.spill_total == 0,
    {
        Bucket {
            local_ids: Vec::new(),
            local_total: 0,
            parked: Vec::new(),
            spill_ids: Vec::new(),
            spill_total: 0,
        }
    }
}

/// The sizes of a route are within the tile, and so are the totals of a
/// round.
pub proof fn lemma_route_bounds(f: Frame, routes: Seq<Route>, p: Plan, j: int, a: int)
    requires
        ready(f, routes, p),
        0 <= j < p.reducers,
        0 <= a <= p.mappers,
    ensures
        0 <= p.to_local(j) <= p.tile_size(),
        0 <= p.spill(j) <= p.tile_size(),
        0 <= a * p.to_local(j) <= usize::MAX,
        0 <= a * p.spill(j) <= usize::MAX,
        p.remote(j).len() <= p.hold[j].len(),
        forall|t: int|
            0 <= t < p.remote(j).len() ==> 0 <= (#[trigger] p.remote(j)[t]).1 <= p.tile_size(),
{
    let amount = p.tile_size() - p.to_local(j);
    assert(0 <= p.local[j]);
    assert forall|t: int| 0 <= t < p.hold[j].len() implies 0 <= (#[trigger] p.hold[j][t]).1 by {
        assert(0 <= p.hold[j][t].0);
    }
    lemma_placed_bounds(amount, p.hold[j], p.hold[j].len() as int);
    assert(0 <= a * p.to_local(j) <= p.mappers * p.tile_size()) by (nonlinear_arith)
        requires
            0 <= a <= p.mappers,
            0 <= p.to_local(j) <= p.tile_size(),
    ;
    assert(0 <= a * p.spill(j) <= p.mappers * p.tile_size()) by (nonlinear_arith)
        requires
            0 <= a <= p.mappers,
            0 <= p.spill(j) <= p.tile_size(),
    ;
}

/// Emits the transfers with which mapper `mid` serves reducer `j`.
pub(crate) fn serve(
    f: &Frame,
    routes: &Vec<Route>,
    mid: usize,
    j: usize,
    deps: &Vec<usize>,
    tik: &mut Tik,
    ops: &mut Vec<Op>,
    outs: &mut Vec<usize>,
    bucket: &mut Bucket,
    Ghost(p): Ghost<Plan>,
    Ghost(offset): Ghost<int>,
    Ghost(first): Ghost<int>,
)
    requires
        ready(*f, routes@, p),
        mid < f.mapper_num,
        j < f.reducer_num,
        old(tik)@ == p.serve_first(first, mid as int, j as int),
        old(tik)@ + p.serve_len(j as int) <= usize::MAX,
        as_ints(deps@) == p.serve_deps(offset, first, mid as int, j as int),
        old(bucket).holds(p, first, j as int, mid as int),
    ensures
        final(tik)@ == old(tik)@ + p.serve_len(j as int),
        op_views(final(ops)@) == op_views(old(ops)@) + p.serve_ops(
            offset,
            first,
            mid as int,
            j as int,
        ),
        as_ints(final(outs)@) == as_ints(old(outs)@) + Seq::new(
            p.serve_len(j as int) as nat,
            |t: int| old(tik)@ + t,
        ),
        final(bucket).holds(p, first, j as int, mid + 1),
{
    let ghost a = mid as int;
    let ghost jj = j as int;
    let ghost id0 = tik@ as int;
    let ghost ops0 = op_views(ops@);
    let ghost outs0 = as_ints(outs@);
    let route = &routes[j];
    let rid = f.mapper_num + j;
    proof {
        lemma_route_bounds(*f, routes@, p, jj, a);
        lemma_route_bounds(*f, routes@, p, jj, a + 1);
        crate::rental::lemma_next(a, p.to_local(jj));
        crate::rental::lemma_next(a, p.spill(jj));
        assert(routes@[jj].matches(p, jj));
    }
    // Into the reducer's own scratchpad.
    let id = tik.tik();
    let op = Op::Transfer(
        TransOp::new(
            id,
            mid as i32,
            rid as i32,
            route.to_local,
            copy_ids(deps),
            to_local_label(mid, rid, route.to_local),
        ),
    );
    assert(op@ == p.local_transfer(offset, first, a, jj));
    push_id(&mut bucket.local_ids, id);
    bucket.local_total += route.to_local;
    push_id(outs, id);
    emit(ops, op);
    proof {
        assert(op_views(ops@) =~= ops0 + seq![p.local_transfer(offset, first, a, jj)]);
        assert(as_ints(bucket.local_ids@) =~= p.local_ids(first, jj, a + 1));
        assert(as_ints(outs@) =~= outs0 + Seq::new(1, |t: int| id0 + t));
    }
    // Into its holdings, in their order.
    let ghost parked0 = triples(bucket.parked@);
    let mut s: usize = 0;
    while s < route.remote.len()
        invariant
            ready(*f, routes@, p),
            route == &routes@[jj],
            a == mid,
            jj == j,
            mid < f.mapper_num,
            j < f.reducer_num,
            rid == f.mapper_num + j,
            s <= route.remote@.len(),
            id0 == p.serve_first(first, a, jj),
            id0 + p.serve_len(jj) <= usize::MAX,
            tik@ == id0 + 1 + s,
            as_ints(deps@) == p.serve_deps(offset, first, a, jj),
            op_views(ops@) == ops0 + seq![p.local_transfer(offset, first, a, jj)] + Seq::new(
                s as nat,
                |t: int| p.remote_transfer(offset, first, a, jj, t),
            ),
            as_ints(outs@) == outs0 + Seq::new((1 + s) as nat, |t: int| id0 + t),
            parked0 == p.parked(first, jj, a),
            triples(bucket.parked@) == parked0 + Seq::new(
                s as nat,
                |t: int| (id0 + 1 + t, p.remote(jj)[t].0, p.remote(jj)[t].1),
            ),
            as_ints(bucket.local_ids@) == p.local_ids(first, jj, a + 1),
            bucket.local_total == (a + 1) * p.to_local(jj),
            as_ints(bucket.spill_ids@) == p.spill_ids(first, jj, a),
            bucket.spill_total == a * p.spill(jj),
        decreases route.remote@.len() - s,
    {
        let (holder, size) = route.remote[s];
        proof {
            assert(routes@[jj].matches(p, jj));
            assert(grants(route.remote@)[s as int] == (holder as int, size as int));
            assert(routes@[jj].remote@[s as int].0 <= i32::MAX);
        }
        let id = tik.tik();
        let op = Op::Transfer(
            TransOp::new(
                id,
                mid as i32,
                holder as i32,
                size,
                copy_ids(deps),
                to_remote_label(mid, holder, rid, size),
            ),
        );
        assert(op@ == p.remote_transfer(offset, first, a, jj, s as int));
        park(&mut bucket.parked, id, holder, size);
        push_id(outs, id);
        emit(ops, op);
        s += 1;
        proof {
            assert(op_views(ops@) =~= ops0 + seq![p.local_transfer(offset, first, a, jj)]
                + Seq::new(s as nat, |t: int| p.remote_transfer(offset, first, a, jj, t)));
            assert(as_ints(outs@) =~= outs0 + Seq::new((1 + s) as nat, |t: int| id0 + t));
            assert(triples(bucket.parked@) =~= parked0 + Seq::new(
                s as nat,
                |t: int| (id0 + 1 + t, p.remote(jj)[t].0, p.remote(jj)[t].1),
            ));
        }
    }
    // The rest to main memory.
    let id = tik.tik();
    let op = Op::Transfer(
        TransOp::new(
            id,
            mid as i32,
            -1,
            route.spill,
            copy_ids(deps),
            to_memory_label(mid, route.spill),
        ),
    );
    assert(op@ == p.spill_transfer(offset, first, a, jj));
    push_id(&mut bucket.spill_ids, id);
    bucket.spill_total += route.spill;
    push_id(outs, id);
    emit(ops, op);
    proof {
        assert(op_views(ops@) =~= ops0 + p.serve_ops(offset, first, a, jj));
        assert(as_ints(outs@) =~= outs0 + Seq::new(p.serve_len(jj) as nat, |t: int| id0 + t));
        assert(as_ints(bucket.spill_ids@) =~= p.spill_ids(first, jj, a + 1));
        assert(triples(bucket.parked@) =~= p.parked(first, jj, a + 1));
    }
}

/// A list of one identifier.
pub fn one_id(id: usize) -> (r: Vec<usize>)
    ensures
        as_ints(r@) == seq![id as int],
{
    let mut r: Vec<usize> = Vec::new();
    r.push(id);
    assert(as_ints(r@) =~= seq![id as int]);
    r
}

/// Emits the operations of mapper `mid` in one round: its load, its outer
/// product and the transfers with which it serves every reducer. Returns
/// the identifiers of those transfers.
pub(crate) fn run_mapper(
    f: &Frame,
    routes: &Vec<Route>,
    mid: usize,
    k_at: u128,
    load_deps: Vec<usize>,
    prev_outputs: &Vec<usize>,
    tik: &mut Tik,
    ops: &mut Vec<Op>,
    buckets: &mut Vec<Bucket>,
    Ghost(p): Ghost<Plan>,
    Ghost(offset): Ghost<int>,
    Ghost(first): Ghost<int>,
) -> (outs: Vec<usize>)
    requires
        ready(*f, routes@, p),
        mid < f.mapper_num,
        0 <= offset,
        k_at == offset + mid * p.step,
        old(tik)@ == p.mapper_first(first, mid as int),
        old(tik)@ + p.mapper_len() <= usize::MAX,
        as_ints(load_deps@) == p.load_deps(offset, first, mid as int),
        offset > 0 ==> prev_outputs@.len() == p.reducers,
        offset == 0 ==> prev_outputs@.len() == 0,
        forall|j: int|
            0 <= j < prev_outputs@.len() ==> (#[trigger] prev_outputs@[j]) as int == p.output_id(
                p.before(offset, first),
                p.active(offset - p.stride()),
                j,
            ),
        old(buckets)@.len() == p.reducers,
        forall|j: int|
            0 <= j < p.reducers ==> (#[trigger] old(buckets)@[j]).holds(p, first, j, mid as int),
    ensures
        final(tik)@ == old(tik)@ + p.mapper_len(),
        op_views(final(ops)@) == op_views(old(ops)@) + p.mapper_ops(offset, first, mid as int),
        as_ints(outs@) == Seq::new(
            (p.mapper_len() - 2) as nat,
            |t: int| p.mapper_first(first, mid as int) + 2 + t,
        ),
        final(buckets)@.len() == p.reducers,
        forall|j: int|
            0 <= j < p.reducers ==> (#[trigger] final(buckets)@[j]).holds(p, first, j, mid + 1),
{
    let ghost a = mid as int;
    let ghost id0 = tik@ as int;
    let ghost ops0 = op_views(ops@);
    proof {
        p.lemma_serve_at(0, p.reducers);
    }
    let load_id = tik.tik();
    let load = Op::Transfer(
        TransOp::new(load_id, -1, mid as i32, f.load_size, load_deps, load_label(mid, k_at)),
    );
    assert(load@ == p.load_op(offset, first, a));
    emit(ops, load);
    let cross_id = tik.tik();
    let cross = Op::CrossProduct(
        CrossPOp::new(
            cross_id,
            mid,
            f.step,
            f.rows,
            f.cols,
            one_id(load_id),
            cross_label(mid, f.rows, f.cols, f.step),
        ),
    );
    assert(cross@ == p.cross_op(first, a));
    emit(ops, cross);
    let mut outs: Vec<usize> = Vec::new();
    let mut j: usize = 0;
    proof {
        assert(op_views(ops@) =~= ops0 + seq![p.load_op(offset, first, a), p.cross_op(first, a)]
            + p.serves(offset, first, a, 0));
        assert(as_ints(outs@) =~= Seq::new(
            (p.serve_at(0) - 2) as nat,
            |t: int| id0 + 2 + t,
        ));
    }
    while j < f.reducer_num
        invariant
            ready(*f, routes@, p),
            a == mid,
            mid < f.mapper_num,
            j <= f.reducer_num,
            id0 == p.mapper_first(first, a),
            id0 + p.mapper_len() <= usize::MAX,
            cross_id == id0 + 1,
            0 <= offset,
            tik@ == id0 + p.serve_at(j as int),
            offset > 0 ==> prev_outputs@.len() == p.reducers,
            offset == 0 ==> prev_outputs@.len() == 0,
            forall|t: int|
                0 <= t < prev_outputs@.len() ==> (#[trigger] prev_outputs@[t]) as int
                    == p.output_id(p.before(offset, first), p.active(offset - p.stride()), t),
            op_views(ops@) == ops0 + seq![p.load_op(offset, first, a), p.cross_op(first, a)]
                + p.serves(offset, first, a, j as int),
            as_ints(outs@) == Seq::new(
                (p.serve_at(j as int) - 2) as nat,
                |t: int| id0 + 2 + t,
            ),
            buckets@.len() == p.reducers,
            forall|t: int| 0 <= t < j ==> (#[trigger] buckets@[t]).holds(p, first, t, a + 1),
            forall|t: int| j <= t < p.reducers ==> (#[trigger] buckets@[t]).holds(p, first, t, a),
        decreases f.reducer_num - j,
    {
        let mut deps = one_id(cross_id);
        if prev_outputs.len() > 0 {
            push_id(&mut deps, prev_outputs[j]);
        }
        proof {
            p.lemma_serve_at(j as int, p.reducers);
            assert(as_ints(deps@) =~= p.serve_deps(offset, first, a, j as int));
        }
        let ghost buckets1 = buckets@;
        serve(
            f,
            routes,
            mid,
            j,
            &deps,
            tik,
            ops,
            &mut outs,
            &mut buckets[j],
            Ghost(p),
            Ghost(offset),
            Ghost(first),
        );
        proof {
            assert(op_views(ops@) =~= ops0 + seq![
                p.load_op(offset, first, a),
                p.cross_op(first, a),
            ] + p.serves(offset, first, a, j + 1));
            assert(as_ints(outs@) =~= Seq::new(
                (p.serve_at(j + 1) - 2) as nat,
                |t: int| id0 + 2 + t,
            ));
            assert forall|t: int| j < t < p.reducers implies (#[trigger] buckets@[t]).holds(
                p,
                first,
                t,
                a,
            ) by {
                assert(buckets@[t] == buckets1[t]);
            }
            assert forall|t: int| 0 <= t < j implies (#[trigger] buckets@[t]).holds(
                p,
                first,
                t,
                a + 1,
            ) by {
                assert(buckets@[t] == buckets1[t]);
            }
        }
        j += 1;
    }
    outs
}

/// Emits the operations of reducer `j` in one round: the accumulation of
/// what its own scratchpad got, a fetch and an accumulation for every
/// parked transfer and for main memory, and the write of its tile. Returns
/// the identifier of that write.
pub(crate) fn run_reducer(
    f: &Frame,
    routes: &Vec<Route>,
    j: usize,
    bucket: &Bucket,
    tik: &mut Tik,
    ops: &mut Vec<Op>,
    Ghost(p): Ghost<Plan>,
    Ghost(first): Ghost<int>,
    Ghost(act): Ghost<int>,
) -> (out: usize)
    requires
        ready(*f, routes@, p),
        j < f.reducer_num,
        0 <= act <= p.mappers,
        bucket.holds(p, first, j as int, act),
        old(tik)@ == first + p.reducer_at(act, j as int),
        old(tik)@ + p.reducer_len(act, j as int) <= usize::MAX,
    ensures
        final(tik)@ == old(tik)@ + p.reducer_len(act, j as int),
        op_views(final(ops)@) == op_views(old(ops)@) + p.reducer_ops(first, act, j as int),
        out == p.output_id(first, act, j as int),
{
    let ghost jj = j as int;
    let ghost at = tik@ as int;
    let ghost ops0 = op_views(ops@);
    let ghost entries = p.parked(first, jj, act);
    let rid = f.mapper_num + j;
    proof {
        p.lemma_parked_len(first, jj, act);
        assert(routes@[jj].matches(p, jj));
        assert forall|s: int| 0 <= s < p.remote(jj).len() implies (#[trigger] p.remote(
            jj,
        )[s]).0 <= i32::MAX by {
            assert(routes@[jj].remote@[s].0 <= i32::MAX);
            assert(grants(routes@[jj].remote@)[s].0 == routes@[jj].remote@[s].0);
        }
        p.lemma_parked_holders(first, jj, act, i32::MAX as int);
    }
    let local_id = tik.tik();
    let local_calc = Op::Accumulate(
        VecOp::new(
            local_id,
            rid,
            bucket.local_total,
            copy_ids(&bucket.local_ids),
            calc_local_label(rid, bucket.local_total),
        ),
    );
    assert(local_calc@ == p.local_calc(first, act, jj));
    let mut output_deps = one_id(local_id);
    emit(ops, local_calc);
    let mut e: usize = 0;
    proof {
        assert(op_views(ops@) =~= ops0 + seq![p.local_calc(first, act, jj)] + fetch_ops(
            entries,
            rid as int,
            at + 1,
            0,
        ));
        assert(as_ints(output_deps@) =~= seq![at] + Seq::new(0, |t: int| at + 2 + 2 * t));
    }
    while e < bucket.parked.len()
        invariant
            ready(*f, routes@, p),
            jj == j,
            j < f.reducer_num,
            rid == f.mapper_num + j,
            entries == p.parked(first, jj, act),
            triples(bucket.parked@) == entries,
            forall|t: int| 0 <= t < entries.len() ==> (#[trigger] entries[t]).1 <= i32::MAX,
            e <= bucket.parked@.len(),
            at + 4 + 2 * entries.len() <= usize::MAX,
            tik@ == at + 1 + 2 * e,
            op_views(ops@) == ops0 + seq![p.local_calc(first, act, jj)] + fetch_ops(
                entries,
                rid as int,
                at + 1,
                e as int,
            ),
            as_ints(output_deps@) == seq![at] + Seq::new(e as nat, |t: int| at + 2 + 2 * t),
        decreases bucket.parked@.len() - e,
    {
        let (transfer, holder, size) = bucket.parked[e];
        proof {
            assert(entries[e as int] == (transfer as int, holder as int, size as int));
        }
        let fetch_id = tik.tik();
        let fetch = Op::Transfer(
            TransOp::new(
                fetch_id,
                holder as i32,
                rid as i32,
                size,
                one_id(transfer),
                fetch_label(rid, holder, size),
            ),
        );
        let calc_id = tik.tik();
        let calc = Op::Accumulate(
            VecOp::new(calc_id, rid, size, one_id(fetch_id), calc_label(rid, size)),
        );
        let ghost pair = seq![fetch@, calc@];
        push_id(&mut output_deps, calc_id);
        emit(ops, fetch);
        emit(ops, calc);
        e += 1;
        proof {
            assert(fetch_ops(entries, rid as int, at + 1, e as int) == fetch_ops(
                entries,
                rid as int,
                at + 1,
                e - 1,
            ) + pair);
            assert(op_views(ops@) =~= ops0 + seq![p.local_calc(first, act, jj)] + fetch_ops(
                entries,
                rid as int,
                at + 1,
                e as int,
            ));
            assert(as_ints(output_deps@) =~= seq![at] + Seq::new(
                e as nat,
                |t: int| at + 2 + 2 * t,
            ));
        }
    }
    let fetch_id = tik.tik();
    let fetch = Op::Transfer(
        TransOp::new(
            fetch_id,
            -1,
            rid as i32,
            bucket.spill_total,
            copy_ids(&bucket.spill_ids),
            fetch_memory_label(rid, bucket.spill_total),
        ),
    );
    let calc_id = tik.tik();
    let calc = Op::Accumulate(
        VecOp::new(
            calc_id,
            rid,
            bucket.spill_total,
            one_id(fetch_id),
            calc_label(rid, bucket.spill_total),
        ),
    );
    assert(seq![fetch@, calc@] =~= p.memory_ops(first, act, jj));
    push_id(&mut output_deps, calc_id);
    emit(ops, fetch);
    emit(ops, calc);
    let out = tik.tik();
    proof {
        assert(as_ints(output_deps@) =~= p.output_deps(first, act, jj));
    }
    let output = Op::Transfer(
        TransOp::new(
            out,
            rid as i32,
            -1,
            f.output_size,
            output_deps,
            output_label(rid, f.output_size),
        ),
    );
    assert(output@ == p.output_op(first, act, jj));
    emit(ops, output);
    proof {
        assert(op_views(ops@) =~= ops0 + p.reducer_ops(first, act, jj));
    }
    out
}

/// One empty bucket for every reducer.
pub(crate) fn fresh_buckets(n: usize, Ghost(p): Ghost<Plan>, Ghost(first): Ghost<int>) -> (r: Vec<
    Bucket,
>)
    requires
        n == p.reducers,
    ensures
        r@.len() == n,
        forall|j: int| 0 <= j < n ==> (#[trigger] r@[j]).holds(p, first, j, 0),
{
    let mut r: Vec<Bucket> = Vec::new();
    let mut j: usize = 0;
    while j < n
        invariant
            j <= n,
            r@.len() == j,
            forall|t: int| 0 <= t < j ==> (#[trigger] r@[t]).holds(p, first, t, 0),
        decreases n - j,
    {
        let b = Bucket::new();
        proof {
            assert(as_ints(b.local_ids@) =~= p.local_ids(first, j as int, 0));
            assert(as_ints(b.spill_ids@) =~= p.spill_ids(first, j as int, 0));
            assert(triples(b.parked@) =~= p.parked(first, j as int, 0));
            assert(0 * p.to_local(j as int) == 0) by (nonlinear_arith);
            assert(0 * p.spill(j as int) == 0) by (nonlinear_arith);
        }
        r.push(b);
        j += 1;
    }
    r
}

/// Emits the operations of the round that starts at `k_ofst`. `drained`
/// holds, for every mapper, the transfers with which it served the
/// reducers in the round before, and `prev_outputs` the output of every
/// reducer in it; both are empty in the first round. Returns the same two
/// lists for this round.
pub(crate) fn run_round(
    f: &Frame,
    routes: &Vec<Route>,
    k_ofst: usize,
    depth: usize,
    drained: &Vec<Vec<usize>>,
    prev_outputs: &Vec<usize>,
    tik: &mut Tik,
    ops: &mut Vec<Op>,
    Ghost(p): Ghost<Plan>,
) -> (r: (Vec<Vec<usize>>, Vec<usize>))
    requires
        ready(*f, routes@, p),
        depth == p.depth,
        k_ofst < depth,
        old(tik)@ + p.round_len(p.active(k_ofst as int)) <= usize::MAX,
        k_ofst == 0 ==> prev_outputs@.len() == 0,
        k_ofst > 0 ==> prev_outputs@.len() == p.reducers && drained@.len() >= p.active(
            k_ofst as int,
        ),
        forall|j: int|
            0 <= j < prev_outputs@.len() ==> (#[trigger] prev_outputs@[j]) as int == p.output_id(
                p.before(k_ofst as int, old(tik)@ as int),
                p.active(k_ofst - p.stride()),
                j,
            ),
        forall|a: int|
            k_ofst > 0 && 0 <= a < drained@.len() ==> as_ints((#[trigger] drained@[a])@)
                == p.load_deps(k_ofst as int, old(tik)@ as int, a),
    ensures
        final(tik)@ == old(tik)@ + p.round_len(p.active(k_ofst as int)),
        op_views(final(ops)@) == op_views(old(ops)@) + p.round_ops(
            k_ofst as int,
            old(tik)@ as int,
        ),
        r.0@.len() == p.active(k_ofst as int),
        forall|a: int|
            0 <= a < r.0@.len() ==> as_ints((#[trigger] r.0@[a])@) == Seq::new(
                (p.mapper_len() - 2) as nat,
                |t: int| p.mapper_first(old(tik)@ as int, a) + 2 + t,
            ),
        r.1@.len() == p.reducers,
        forall|j: int|
            0 <= j < p.reducers ==> (#[trigger] r.1@[j]) as int == p.output_id(
                old(tik)@ as int,
                p.active(k_ofst as int),
                j,
            ),
{
    let ghost offset = k_ofst as int;
    let ghost first = tik@ as int;
    let ghost ops0 = op_views(ops@);
    let act = if depth - k_ofst >= f.mapper_num {
        f.mapper_num
    } else {
        depth - k_ofst
    };
    assert(act == p.active(offset));
    let ghost len = p.mapper_len();
    proof {
        p.lemma_round_len(act as int);
        assert(0 * len == 0) by (nonlinear_arith);
    }
    let mut buckets = fresh_buckets(f.reducer_num, Ghost(p), Ghost(first));
    let mut next_drained: Vec<Vec<usize>> = Vec::new();
    let mut mid: usize = 0;
    assert(op_views(ops@) =~= ops0 + p.mappers_ops(offset, first, 0));
    while mid < act
        invariant
            ready(*f, routes@, p),
            offset == k_ofst,
            act == p.active(offset),
            act <= f.mapper_num,
            mid <= act,
            len == p.mapper_len(),
            2 <= len,
            first + act * len <= usize::MAX,
            tik@ == first + mid * len,
            k_ofst == 0 ==> prev_outputs@.len() == 0,
            k_ofst > 0 ==> prev_outputs@.len() == p.reducers && drained@.len() >= act,
            forall|j: int|
                0 <= j < prev_outputs@.len() ==> (#[trigger] prev_outputs@[j]) as int
                    == p.output_id(p.before(offset, first), p.active(offset - p.stride()), j),
            forall|a: int|
                k_ofst > 0 && 0 <= a < drained@.len() ==> as_ints((#[trigger] drained@[a])@)
                    == p.load_deps(offset, first, a),
            op_views(ops@) == ops0 + p.mappers_ops(offset, first, mid as int),
            buckets@.len() == p.reducers,
            forall|j: int|
                0 <= j < p.reducers ==> (#[trigger] buckets@[j]).holds(p, first, j, mid as int),
            next_drained@.len() == mid,
            forall|a: int|
                0 <= a < mid ==> as_ints((#[trigger] next_drained@[a])@) == Seq::new(
                    (len - 2) as nat,
                    |t: int| p.mapper_first(first, a) + 2 + t,
                ),
        decreases act - mid,
    {
        let load_deps = if k_ofst > 0 {
            copy_ids(&drained[mid])
        } else {
            Vec::new()
        };
        proof {
            assert(as_ints(load_deps@) =~= p.load_deps(offset, first, mid as int));
            crate::rental::lemma_next(mid as int, len);
            crate::rental::lemma_scale(mid + 1, act as int, len);
            assert(mid * f.step <= 0x7fff_ffff * 0xffff_ffff_ffff_ffff) by (nonlinear_arith)
                requires
                    0 <= mid <= 0x7fff_ffff,
                    0 <= f.step <= 0xffff_ffff_ffff_ffff,
            ;
        }
        let k_at: u128 = k_ofst as u128 + (mid as u128) * (f.step as u128);
        let outs = run_mapper(
            f,
            routes,
            mid,
            k_at,
            load_deps,
            prev_outputs,
            tik,
            ops,
            &mut buckets,
            Ghost(p),
            Ghost(offset),
            Ghost(first),
        );
        next_drained.push(outs);
        mid += 1;
        proof {
            assert(op_views(ops@) =~= ops0 + p.mappers_ops(offset, first, mid as int));
        }
    }
    let mut outputs: Vec<usize> = Vec::new();
    let mut j: usize = 0;
    let ghost ops_mid = op_views(ops@);
    assert(op_views(ops@) =~= ops_mid + p.reducers_ops(first, act as int, 0));
    while j < f.reducer_num
        invariant
            ready(*f, routes@, p),
            act == p.active(offset),
            act <= f.mapper_num,
            j <= f.reducer_num,
            first + p.round_len(act as int) <= usize::MAX,
            tik@ == first + p.reducer_at(act as int, j as int),
            op_views(ops@) == ops_mid + p.reducers_ops(first, act as int, j as int),
            buckets@.len() == p.reducers,
            forall|t: int|
                0 <= t < p.reducers ==> (#[trigger] buckets@[t]).holds(p, first, t, act as int),
            outputs@.len() == j,
            forall|t: int|
                0 <= t < j ==> (#[trigger] outputs@[t]) as int == p.output_id(
                    first,
                    act as int,
                    t,
                ),
        decreases f.reducer_num - j,
    {
        proof {
            p.lemma_reducer_at(act as int, j as int, p.reducers);
        }
        let out = run_reducer(
            f,
            routes,
            j,
            &buckets[j],
            tik,
            ops,
            Ghost(p),
            Ghost(first),
            Ghost(act as int),
        );
        outputs.push(out);
        j += 1;
        proof {
            assert(op_views(ops@) =~= ops_mid + p.reducers_ops(first, act as int, j as int));
        }
    }
    proof {
        assert(op_views(ops@) =~= ops0 + p.round_ops(offset, first));
    }
    (next_drained, outputs)
}

/// The product `a * b * c`, if it fits a machine word.
pub fn product_if_fits(a: usize, b: usize, c: usize) -> (r: Option<usize>)
    ensures
        match r {
            Some(v) => v == a * b * c,
            None => a * b * c > usize::MAX,
        },
{
    if a == 0 || b == 0 || c == 0 {
        assert(a * b * c == 0) by (nonlinear_arith)
            requires
                a == 0 || b == 0 || c == 0,
        ;
        return Some(0);
    }
    assert(a * b <= 0xffff_ffff_ffff_ffff * 0xffff_ffff_ffff_ffff) by (nonlinear_arith)
        requires
            0 <= a <= 0xffff_ffff_ffff_ffff,
            0 <= b <= 0xffff_ffff_ffff_ffff,
    ;
    let ab: u128 = (a as u128) * (b as u128);
    if ab > usize::MAX as u128 {
        assert(a * b * c >= a * b) by (nonlinear_arith)
            requires
                c >= 1,
                a * b >= 0,
        ;
        return None;
    }
    assert(ab * c <= 0xffff_ffff_ffff_ffff * 0xffff_ffff_ffff_ffff) by (nonlinear_arith)
        requires
            0 <= ab <= 0xffff_ffff_ffff_ffff,
            0 <= c <= 0xffff_ffff_ffff_ffff,
    ;
    let abc: u128 = ab * (c as u128);
    if abc > usize::MAX as u128 {
        None
    } else {
        Some(abc as usize)
    }
}

/// Whether the whole schedule can be numbered from `next_id` on within a
/// machine word.
pub(crate) fn schedule_fits(
    f: &Frame,
    routes: &Vec<Route>,
    depth: usize,
    next_id: usize,
    Ghost(p): Ghost<Plan>,
) -> (b: bool)
    requires
        ready(*f, routes@, p),
        depth == p.depth,
        p.mappers <= p.depth,
    ensures
        b == (next_id + p.length() <= usize::MAX),
{
    let ghost mm = p.mappers;
    let ghost rr = p.reducers;
    // Placements of all reducers.
    let mut held: u128 = 0;
    let mut j: usize = 0;
    while j < f.reducer_num
        invariant
            ready(*f, routes@, p),
            j <= f.reducer_num,
            held == p.remote_count(j as int),
            held <= j * 0xffff_ffff_ffff_ffff,
        decreases f.reducer_num - j,
    {
        proof {
            assert(routes@[j as int].matches(p, j as int));
            assert(grants(routes@[j as int].remote@).len() == routes@[j as int].remote@.len());
        }
        held = held + routes[j].remote.len() as u128;
        j += 1;
    }
    assert(f.step * f.mapper_num <= 0xffff_ffff_ffff_ffff * 0x7fff_ffff) by (nonlinear_arith)
        requires
            0 <= f.step <= 0xffff_ffff_ffff_ffff,
            0 <= f.mapper_num <= 0x7fff_ffff,
    ;
    let stride: u128 = (f.step as u128) * (f.mapper_num as u128);
    assert(stride >= f.mapper_num) by (nonlinear_arith)
        requires
            stride == f.step * f.mapper_num,
            f.step >= 1,
            f.mapper_num >= 1,
    ;
    // Rounds before the last; every mapper works in each of them.
    let full: u128 = (depth as u128 - 1) / stride;
    let ghost last_at = full * stride;
    proof {
        assert(full * stride <= depth - 1 < full * stride + stride) by (nonlinear_arith)
            requires
                full == (depth - 1) / (stride as int),
                stride >= 1,
                depth >= 1,
        ;
        assert((full + 1) * stride == full * stride + stride) by (nonlinear_arith);
        p.lemma_length_split(0, full as int);
        p.lemma_serve_at_sum(rr);
        p.lemma_reducer_at_sum(mm, rr);
        p.lemma_reducer_at_sum(p.active(last_at as int), rr);
        p.lemma_round_len(mm);
        p.lemma_round_len(p.active(last_at as int));
        assert(full * p.round_len(mm) >= 0) by (nonlinear_arith)
            requires
                full >= 0,
                p.round_len(mm) >= 0,
        ;
        assert(mm * p.mapper_len() >= p.mapper_len()) by (nonlinear_arith)
            requires
                mm >= 1,
                p.mapper_len() >= 0,
        ;
        if full == 0 {
            assert(last_at == 0) by (nonlinear_arith)
                requires
                    last_at == full * stride,
                    full == 0,
            ;
            assert(p.active(last_at as int) == mm);
        } else {
            assert(full * p.round_len(mm) >= p.round_len(mm)) by (nonlinear_arith)
                requires
                    full >= 1,
                    p.round_len(mm) >= 0,
            ;
        }
    }
    if held > usize::MAX as u128 {
        return false;
    }
    let per_mapper: u128 = 2 + 2 * (f.reducer_num as u128) + held;
    assert(f.mapper_num * per_mapper <= 0x7fff_ffff * 0x2_0000_0001_0000_0001)
        by (nonlinear_arith)
        requires
            0 <= f.mapper_num <= 0x7fff_ffff,
            0 <= per_mapper <= 0x2_0000_0001_0000_0001,
    ;
    assert(f.mapper_num * held <= 0x7fff_ffff * 0xffff_ffff_ffff_ffff) by (nonlinear_arith)
        requires
            0 <= f.mapper_num <= 0x7fff_ffff,
            0 <= held <= 0xffff_ffff_ffff_ffff,
    ;
    let whole: u128 = (f.mapper_num as u128) * per_mapper + 4 * (f.reducer_num as u128) + 2 * ((
    f.mapper_num as u128) * held);
    assert(whole == p.round_len(mm));
    if whole > usize::MAX as u128 {
        return false;
    }
    let left: u128 = depth as u128 - full * stride;
    let act: u128 = if left >= f.mapper_num as u128 {
        f.mapper_num as u128
    } else {
        left
    };
    assert(act == p.active(last_at as int));
    assert(act * per_mapper <= 0x7fff_ffff * 0x2_0000_0001_0000_0001) by (nonlinear_arith)
        requires
            0 <= act <= 0x7fff_ffff,
            0 <= per_mapper <= 0x2_0000_0001_0000_0001,
    ;
    assert(act * held <= 0x7fff_ffff * 0xffff_ffff_ffff_ffff) by (nonlinear_arith)
        requires
            0 <= act <= 0x7fff_ffff,
            0 <= held <= 0xffff_ffff_ffff_ffff,
    ;
    let last: u128 = act * per_mapper + 4 * (f.reducer_num as u128) + 2 * (act * held);
    assert(last == p.round_len(p.active(last_at as int)));
    assert(last <= whole) by (nonlinear_arith)
        requires
            last == act * per_mapper + 4 * f.reducer_num + 2 * (act * held),
            whole == f.mapper_num * per_mapper + 4 * f.reducer_num + 2 * (f.mapper_num * held),
            0 <= act <= f.mapper_num,
            0 <= per_mapper,
            0 <= held,
    ;
    assert(full * whole <= 0xffff_ffff_ffff_ffff * 0xffff_ffff_ffff_ffff) by (nonlinear_arith)
        requires
            0 <= full <= 0xffff_ffff_ffff_ffff,
            0 <= whole <= 0xffff_ffff_ffff_ffff,
    ;
    let total: u128 = full * whole + last;
    total <= (usize::MAX - next_id) as u128
}

} // verus!
