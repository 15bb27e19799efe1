//! Lending of spare mapper scratchpad to reducers.
//!
//! Every mapper can lend the same surplus and every reducer may borrow the
//! same target. Lay the surpluses of mappers 0, 1, 2, ... end to end on a
//! line, and the targets of reducers 0, 1, 2, ... on the same line: mapper
//! `i` lends reducer `j` exactly the stretch that their two segments share.
//! The allocator walks reducers and mappers once, in ascending order, and is
//! proved to grant precisely these stretches.

use vstd::prelude::*;

verus! {

/// Capacity that mapper `i` lends to reducer `j` when each mapper has the
/// surplus `per` and each reducer borrows `target`.
pub open spec fn lent(per: int, target: int, i: int, j: int) -> int {
    let low = if i * per >= j * target {
        i * per
    } else {
        j * target
    };
    let high = if (i + 1) * per <= (j + 1) * target {
        (i + 1) * per
    } else {
        (j + 1) * target
    };
    if high > low {
        high - low
    } else {
        0
    }
}

/// Total capacity that mapper `i` lends to reducers `0..n`.
pub open spec fn lent_by(per: int, target: int, i: int, n: int) -> int
    decreases n,
{
    if n <= 0 {
        0
    } else {
        lent_by(per, target, i, n - 1) + lent(per, target, i, n - 1)
    }
}

/// Total capacity that reducer `j` borrows from mappers `0..n`.
pub open spec fn borrowed_by(per: int, target: int, j: int, n: int) -> int
    decreases n,
{
    if n <= 0 {
        0
    } else {
        borrowed_by(per, target, j, n - 1) + lent(per, target, n - 1, j)
    }
}

/// The grants of mapper `i` to reducers `0..n`, as (reducer id, size) in
/// ascending reducer order; reducer `j` has the id `mappers + j`. A reducer
/// that gets nothing from this mapper has no entry.
pub open spec fn alloc_list(per: int, target: int, mappers: int, i: int, n: int) -> Seq<(int, int)>
    decreases n,
{
    if n <= 0 {
        Seq::empty()
    } else {
        let before = alloc_list(per, target, mappers, i, n - 1);
        let size = lent(per, target, i, n - 1);
        if size > 0 {
            before.push((mappers + n - 1, size))
        } else {
            before
        }
    }
}

/// The grants that reducer `j` holds from mappers `0..n`, as (mapper id,
/// size) in ascending mapper order. A mapper that lends this reducer
/// nothing has no entry.
pub open spec fn hold_list(per: int, target: int, j: int, n: int) -> Seq<(int, int)>
    decreases n,
{
    if n <= 0 {
        Seq::empty()
    } else {
        let before = hold_list(per, target, j, n - 1);
        let size = lent(per, target, n - 1, j);
        if size > 0 {
            before.push((n - 1, size))
        } else {
            before
        }
    }
}

/// The sum of the sizes of a list of grants.
pub open spec fn total_size(grants: Seq<(int, int)>) -> int
    decreases grants.len(),
{
    if grants.len() == 0 {
        0
    } else {
        total_size(grants.drop_last()) + grants.last().1
    }
}

/// Multiplying by a non-negative number keeps the order.
pub proof fn lemma_scale(a: int, b: int, c: int)
    requires
        a <= b,
        0 <= c,
    ensures
        a * c <= b * c,
{
    assert(a * c <= b * c) by (nonlinear_arith)
        requires
            a <= b,
            0 <= c,
    ;
}

/// One more segment is one more length.
pub proof fn lemma_next(a: int, c: int)
    ensures
        (a + 1) * c == a * c + c,
{
    assert((a + 1) * c == a * c + c) by (nonlinear_arith);
}

/// A grant is never negative and never more than a surplus or a target.
pub proof fn lemma_lent_bounds(per: int, target: int, i: int, j: int)
    requires
        0 <= per,
        0 <= target,
    ensures
        0 <= lent(per, target, i, j) <= per,
        lent(per, target, i, j) <= target,
{
    lemma_next(i, per);
    lemma_next(j, target);
}

/// A mapper whose segment ends where the segment of reducer `j` starts, or
/// earlier, lends it nothing; so does one whose segment starts where that
/// of reducer `j` ends, or later.
pub proof fn lemma_lent_apart(per: int, target: int, i: int, j: int)
    requires
        0 <= per,
        0 <= target,
        (i + 1) * per <= j * target || (j + 1) * target <= i * per,
    ensures
        lent(per, target, i, j) == 0,
{
    lemma_next(i, per);
    lemma_next(j, target);
}

/// Where reducers borrow nothing, no reducer holds anything.
pub proof fn lemma_hold_none_at_all(per: int, j: int, n: int)
    requires
        0 <= per,
    ensures
        hold_list(per, 0, j, n) == Seq::<(int, int)>::empty(),
        borrowed_by(per, 0, j, n) == 0,
    decreases n,
{
    if n > 0 {
        lemma_lent_bounds(per, 0, n - 1, j);
        lemma_hold_none_at_all(per, j, n - 1);
    }
}

/// Where reducers borrow nothing, no mapper grants anything.
pub proof fn lemma_alloc_none_at_all(per: int, mappers: int, i: int, n: int)
    requires
        0 <= per,
    ensures
        alloc_list(per, 0, mappers, i, n) == Seq::<(int, int)>::empty(),
        lent_by(per, 0, i, n) == 0,
    decreases n,
{
    if n > 0 {
        lemma_lent_bounds(per, 0, i, n - 1);
        lemma_alloc_none_at_all(per, mappers, i, n - 1);
    }
}

/// Mappers whose segments end before reducer `j` starts are no part of its
/// holdings.
pub proof fn lemma_hold_none_before(per: int, target: int, j: int, n: int)
    requires
        0 <= per,
        0 <= target,
        0 <= n,
        n * per <= j * target,
    ensures
        hold_list(per, target, j, n) == Seq::<(int, int)>::empty(),
        borrowed_by(per, target, j, n) == 0,
    decreases n,
{
    if n > 0 {
        lemma_scale(n - 1, n, per);
        lemma_next(n - 1, per);
        lemma_lent_apart(per, target, n - 1, j);
        lemma_hold_none_before(per, target, j, n - 1);
    }
}

/// Mappers whose segments start after reducer `j` ends add nothing to its
/// holdings.
pub proof fn lemma_hold_none_after(per: int, target: int, j: int, c: int, n: int)
    requires
        0 <= per,
        0 <= target,
        0 <= c <= n,
        (j + 1) * target <= c * per,
    ensures
        hold_list(per, target, j, n) == hold_list(per, target, j, c),
        borrowed_by(per, target, j, n) == borrowed_by(per, target, j, c),
    decreases n,
{
    if n > c {
        lemma_scale(c, n - 1, per);
        lemma_lent_apart(per, target, n - 1, j);
        lemma_hold_none_after(per, target, j, c, n - 1);
    }
}

/// Reducers whose segments end before mapper `i` starts get nothing from
/// it.
pub proof fn lemma_alloc_none_before(per: int, target: int, mappers: int, i: int, n: int)
    requires
        0 <= per,
        0 <= target,
        0 <= n,
        n * target <= i * per,
    ensures
        alloc_list(per, target, mappers, i, n) == Seq::<(int, int)>::empty(),
        lent_by(per, target, i, n) == 0,
    decreases n,
{
    if n > 0 {
        lemma_scale(n - 1, n, target);
        lemma_next(n - 1, target);
        lemma_lent_apart(per, target, i, n - 1);
        lemma_alloc_none_before(per, target, mappers, i, n - 1);
    }
}

/// Reducers whose segments start after mapper `i` ends get nothing from
/// it.
pub proof fn lemma_alloc_none_after(per: int, target: int, mappers: int, i: int, c: int, n: int)
    requires
        0 <= per,
        0 <= target,
        0 <= c <= n,
        (i + 1) * per <= c * target,
    ensures
        alloc_list(per, target, mappers, i, n) == alloc_list(per, target, mappers, i, c),
        lent_by(per, target, i, n) == lent_by(per, target, i, c),
    decreases n,
{
    if n > c {
        lemma_scale(c, n - 1, target);
        lemma_lent_apart(per, target, i, n - 1);
        lemma_alloc_none_after(per, target, mappers, i, c, n - 1);
    }
}

/// Every holding of a reducer is from one of the mappers `0..n` and has a
/// positive size.
pub proof fn lemma_hold_entries(per: int, target: int, j: int, n: int)
    requires
        0 <= n,
    ensures
        hold_list(per, target, j, n).len() <= n,
        forall|t: int|
            0 <= t < hold_list(per, target, j, n).len() ==> 0 <= (#[trigger] hold_list(
                per,
                target,
                j,
                n,
            )[t]).0 < n && 0 < hold_list(per, target, j, n)[t].1,
    decreases n,
{
    if n > 0 {
        lemma_hold_entries(per, target, j, n - 1);
    }
}

/// `x` held within `0..=bound`.
pub open spec fn clamp(x: int, bound: int) -> int {
    if x < 0 {
        0
    } else if x > bound {
        bound
    } else {
        x
    }
}

/// What mapper `i` lends to reducers `0..n` is the part of its segment
/// that lies below the end of reducer `n - 1`.
pub proof fn lemma_lent_by(per: int, target: int, i: int, n: int)
    requires
        0 <= per,
        0 <= target,
        0 <= i,
        0 <= n,
    ensures
        lent_by(per, target, i, n) == clamp(n * target - i * per, per),
        0 <= lent_by(per, target, i, n) <= per,
    decreases n,
{
    lemma_next(i, per);
    if n > 0 {
        lemma_next(n - 1, target);
        lemma_lent_by(per, target, i, n - 1);
    } else {
        assert(0 * target == 0) by (nonlinear_arith);
        lemma_scale(0, i, per);
        assert(0 * per == 0) by (nonlinear_arith);
    }
}

/// What reducer `j` borrows from mappers `0..n` is the part of its
/// segment that lies below the end of mapper `n - 1`.
pub proof fn lemma_borrowed_by(per: int, target: int, j: int, n: int)
    requires
        0 <= per,
        0 <= target,
        0 <= j,
        0 <= n,
    ensures
        borrowed_by(per, target, j, n) == clamp(n * per - j * target, target),
        0 <= borrowed_by(per, target, j, n) <= target,
    decreases n,
{
    lemma_next(j, target);
    if n > 0 {
        lemma_next(n - 1, per);
        lemma_borrowed_by(per, target, j, n - 1);
    } else {
        assert(0 * per == 0) by (nonlinear_arith);
        lemma_scale(0, j, target);
        assert(0 * target == 0) by (nonlinear_arith);
    }
}

/// Where the targets of all reducers together do not exceed the surpluses
/// of all mappers, every reducer borrows its whole target.
pub proof fn lemma_target_met(per: int, target: int, mappers: int, reducers: int, j: int)
    requires
        0 <= per,
        0 <= target,
        0 <= mappers,
        0 <= j < reducers,
        reducers * target <= mappers * per,
    ensures
        borrowed_by(per, target, j, mappers) == target,
{
    lemma_borrowed_by(per, target, j, mappers);
    lemma_next(j, target);
    lemma_scale(j + 1, reducers, target);
}

/// Total capacity that mappers `0..m` lend to reducers `0..n`.
pub open spec fn total_lent(per: int, target: int, m: int, n: int) -> int
    decreases m,
{
    if m <= 0 {
        0
    } else {
        total_lent(per, target, m - 1, n) + lent_by(per, target, m - 1, n)
    }
}

/// Total capacity that reducers `0..n` borrow from mappers `0..m`.
pub open spec fn total_borrowed(per: int, target: int, m: int, n: int) -> int
    decreases n,
{
    if n <= 0 {
        0
    } else {
        total_borrowed(per, target, m, n - 1) + borrowed_by(per, target, n - 1, m)
    }
}

proof fn lemma_total_lent_grows(per: int, target: int, m: int, n: int)
    requires
        0 <= m,
        0 < n,
    ensures
        total_lent(per, target, m, n) == total_lent(per, target, m, n - 1) + borrowed_by(
            per,
            target,
            n - 1,
            m,
        ),
    decreases m,
{
    if m > 0 {
        lemma_total_lent_grows(per, target, m - 1, n);
    }
}

proof fn lemma_total_lent_none(per: int, target: int, m: int)
    requires
        0 <= m,
    ensures
        total_lent(per, target, m, 0) == 0,
    decreases m,
{
    if m > 0 {
        lemma_total_lent_none(per, target, m - 1);
    }
}

/// What the mappers lend in all is what the reducers borrow in all.
pub proof fn lemma_lent_is_borrowed(per: int, target: int, m: int, n: int)
    requires
        0 <= m,
        0 <= n,
    ensures
        total_lent(per, target, m, n) == total_borrowed(per, target, m, n),
    decreases n,
{
    if n > 0 {
        lemma_total_lent_grows(per, target, m, n);
        lemma_lent_is_borrowed(per, target, m, n - 1);
    } else {
        lemma_total_lent_none(per, target, m);
    }
}

/// The sizes of a mapper's grants add up to what it lends.
pub proof fn lemma_alloc_total(per: int, target: int, mappers: int, i: int, n: int)
    requires
        0 <= n,
    ensures
        total_size(alloc_list(per, target, mappers, i, n)) == lent_by(per, target, i, n),
    decreases n,
{
    if n > 0 {
        lemma_alloc_total(per, target, mappers, i, n - 1);
        let before = alloc_list(per, target, mappers, i, n - 1);
        let size = lent(per, target, i, n - 1);
        if size > 0 {
            assert(before.push((mappers + n - 1, size)).drop_last() =~= before);
        }
    }
}

/// The sizes of a reducer's holdings add up to what it borrows.
pub proof fn lemma_hold_total(per: int, target: int, j: int, n: int)
    requires
        0 <= n,
    ensures
        total_size(hold_list(per, target, j, n)) == borrowed_by(per, target, j, n),
    decreases n,
{
    if n > 0 {
        lemma_hold_total(per, target, j, n - 1);
        let before = hold_list(per, target, j, n - 1);
        let size = lent(per, target, n - 1, j);
        if size > 0 {
            assert(before.push((n - 1, size)).drop_last() =~= before);
        }
    }
}

/// The sum of the sizes of all grants in the first `n` lists.
pub open spec fn sum_sizes(lists: Seq<Seq<(int, int)>>, n: int) -> int
    decreases n,
{
    if n <= 0 {
        0
    } else {
        sum_sizes(lists, n - 1) + total_size(lists[n - 1])
    }
}

/// The sum of the sizes of all grants in all lists.
pub open spec fn grand_total(lists: Seq<Seq<(int, int)>>) -> int {
    sum_sizes(lists, lists.len() as int)
}

/// The grants of every mapper to the reducers `0..reducers`, by mapper id.
pub open spec fn alloc_table(per: int, target: int, mappers: int, reducers: int) -> Seq<
    Seq<(int, int)>,
> {
    Seq::new(mappers as nat, |i: int| alloc_list(per, target, mappers, i, reducers))
}

/// The holdings of every reducer from the mappers `0..mappers`, by reducer
/// number.
pub open spec fn hold_table(per: int, target: int, mappers: int, reducers: int) -> Seq<
    Seq<(int, int)>,
> {
    Seq::new(reducers as nat, |j: int| hold_list(per, target, j, mappers))
}

proof fn lemma_alloc_table_sum(per: int, target: int, mappers: int, reducers: int, n: int)
    requires
        0 <= n <= mappers,
        0 <= reducers,
    ensures
        sum_sizes(alloc_table(per, target, mappers, reducers), n) == total_lent(
            per,
            target,
            n,
            reducers,
        ),
    decreases n,
{
    if n > 0 {
        lemma_alloc_table_sum(per, target, mappers, reducers, n - 1);
        lemma_alloc_total(per, target, mappers, n - 1, reducers);
    }
}

proof fn lemma_hold_table_sum(per: int, target: int, mappers: int, reducers: int, n: int)
    requires
        0 <= n <= reducers,
        0 <= mappers,
    ensures
        sum_sizes(hold_table(per, target, mappers, reducers), n) == total_borrowed(
            per,
            target,
            mappers,
            n,
        ),
    decreases n,
{
    if n > 0 {
        lemma_hold_table_sum(per, target, mappers, reducers, n - 1);
        lemma_hold_total(per, target, n - 1, mappers);
    }
}

/// Conservation: the sizes of all grants that mappers gave add up to the
/// sizes of all grants that reducers hold.
pub proof fn lemma_tables_balance(per: int, target: int, mappers: int, reducers: int)
    requires
        0 <= mappers,
        0 <= reducers,
    ensures
        grand_total(alloc_table(per, target, mappers, reducers)) == grand_total(
            hold_table(per, target, mappers, reducers),
        ),
{
    lemma_alloc_table_sum(per, target, mappers, reducers, mappers);
    lemma_hold_table_sum(per, target, mappers, reducers, reducers);
    lemma_lent_is_borrowed(per, target, mappers, reducers);
}

/// A list of grants as mathematical pairs.
pub open spec fn grants(s: Seq<(usize, usize)>) -> Seq<(int, int)> {
    s.map_values(|e: (usize, usize)| (e.0 as int, e.1 as int))
}

/// The capacity state after lending: what every processing element has
/// left, what every mapper lent and what every reducer holds.
pub struct Rental {
    /// Remaining local capacity, by processing element id.
    pub local_srams: Vec<usize>,
    /// Grants of each mapper as (reducer id, size), by mapper id.
    pub remote_alloc: Vec<Vec<(usize, usize)>>,
    /// Holdings of each reducer as (mapper id, size), by reducer number,
    /// in the order in which they were granted.
    pub remote_hold: Vec<Vec<(usize, usize)>>,
}

impl Rental {
    /// Whether this is the state that lending leads to from `mappers`
    /// mappers and `reducers` reducers with `tile` capacity each, when
    /// every mapper may lend `per` and every reducer may borrow `target`.
    pub open spec fn settles(
        &self,
        mappers: int,
        reducers: int,
        tile: int,
        per: int,
        target: int,
    ) -> bool {
        &&& self.local_srams@.len() == mappers + reducers
        &&& forall|i: int|
            0 <= i < mappers ==> #[trigger] self.local_srams@[i] == tile - lent_by(
                per,
                target,
                i,
                reducers,
            )
        &&& forall|i: int|
            mappers <= i < mappers + reducers ==> #[trigger] self.local_srams@[i] == tile
        &&& self.remote_alloc@.len() == mappers
        &&& forall|i: int|
            0 <= i < mappers ==> grants(#[trigger] self.remote_alloc@[i]@) == alloc_list(
                per,
                target,
                mappers,
                i,
                reducers,
            )
        &&& self.remote_hold@.len() == reducers
        &&& forall|j: int|
            0 <= j < reducers ==> grants(#[trigger] self.remote_hold@[j]@) == hold_list(
                per,
                target,
                j,
                mappers,
            )
    }
}

/// A vector of `n` copies of `value`.
pub fn filled(value: usize, n: usize) -> (v: Vec<usize>)
    ensures
        v@.len() == n,
        forall|i: int| 0 <= i < n ==> v@[i] == value,
{
    let mut v: Vec<usize> = Vec::new();
    let mut i: usize = 0;
    while i < n
        invariant
            i <= n,
            v@.len() == i,
            forall|t: int| 0 <= t < i ==> v@[t] == value,
        decreases n - i,
    {
        v.push(value);
        i += 1;
    }
    v
}

/// Lends mapper surplus to reducers: reducers are served in ascending
/// order, each from the current mapper, which is left for the next one
/// only when its surplus is used up.
pub fn allocate(mapper_num: usize, reducer_num: usize, tile: usize, per: usize, target: u128) -> (r:
    Rental)
    requires
        mapper_num + reducer_num <= usize::MAX,
        per <= tile,
        target * reducer_num <= per * mapper_num,
    ensures
        r.settles(mapper_num as int, reducer_num as int, tile as int, per as int, target as int),
{
    let ghost mm = mapper_num as int;
    let ghost rr = reducer_num as int;
    let ghost pp = per as int;
    let ghost tt = target as int;
    let mut local_srams = filled(tile, mapper_num + reducer_num);
    let mut remote_alloc: Vec<Vec<(usize, usize)>> = Vec::new();
    let mut remote_hold: Vec<Vec<(usize, usize)>> = Vec::new();
    // The current mapper, what is left of its surplus and what it has lent.
    let mut mid: usize = 0;
    let mut avail: usize = per;
    let mut given: Vec<(usize, usize)> = Vec::new();
    // Where on the line of surpluses the next grant starts.
    let ghost mut pos: int = 0;
    let mut j: usize = 0;
    proof {
        lemma_next(0, pp);
        assert(0 * pp == 0) by (nonlinear_arith);
        assert(0 * tt == 0) by (nonlinear_arith);
        assert(grants(given@) =~= alloc_list(pp, tt, mm, 0, 0));
        assert(rr * tt <= mm * pp) by (nonlinear_arith)
            requires
                tt * rr <= pp * mm,
        ;
    }
    while j < reducer_num
        invariant
            mm == mapper_num,
            rr == reducer_num,
            pp == per,
            tt == target,
            mm + rr <= usize::MAX,
            pp <= tile,
            rr * tt <= mm * pp,
            j <= reducer_num,
            mid <= mapper_num,
            pos == j * tt,
            mid * pp <= pos,
            mid < mm ==> pos <= (mid + 1) * pp && avail == (mid + 1) * pp - pos,
            remote_alloc@.len() == mid,
            forall|i: int|
                0 <= i < mid ==> grants(#[trigger] remote_alloc@[i]@) == alloc_list(
                    pp,
                    tt,
                    mm,
                    i,
                    rr,
                ),
            mid < mm ==> grants(given@) == alloc_list(pp, tt, mm, mid as int, j as int),
            remote_hold@.len() == j,
            forall|t: int|
                0 <= t < j ==> grants(#[trigger] remote_hold@[t]@) == hold_list(pp, tt, t, mm),
            local_srams@.len() == mm + rr,
            forall|i: int|
                0 <= i < mid ==> #[trigger] local_srams@[i] == tile - lent_by(pp, tt, i, rr),
            mid < mm ==> local_srams@[mid as int] == tile - lent_by(pp, tt, mid as int, j as int),
            mid < mm ==> local_srams@[mid as int] == tile - pp + avail,
            forall|i: int| mid < i < mm + rr ==> #[trigger] local_srams@[i] == tile,
            forall|i: int| mm <= i < mm + rr ==> #[trigger] local_srams@[i] == tile,
        decreases reducer_num - j,
    {
        let mut need: u128 = target;
        let mut taken: Vec<(usize, usize)> = Vec::new();
        proof {
            lemma_next(j as int, tt);
            if need > 0 {
                lemma_hold_none_before(pp, tt, j as int, mid as int);
                assert(grants(taken@) =~= hold_list(pp, tt, j as int, mid as int));
            } else {
                lemma_hold_none_at_all(pp, j as int, mm);
                assert(grants(taken@) =~= hold_list(pp, tt, j as int, mm));
                if mid < mm {
                    lemma_lent_bounds(pp, tt, mid as int, j as int);
                }
            }
        }
        while need > 0 && mid < mapper_num
            invariant
                mm == mapper_num,
                rr == reducer_num,
                pp == per,
                tt == target,
                mm + rr <= usize::MAX,
                pp <= tile,
                j < reducer_num,
                mid <= mapper_num,
                pos + need == (j + 1) * tt,
                j * tt <= pos,
                (j + 1) * tt == j * tt + tt,
                mid * pp <= pos,
                need > 0 ==> pos == mid * pp || pos == j * tt,
                mid < mm ==> pos <= (mid + 1) * pp && avail == (mid + 1) * pp - pos,
                remote_alloc@.len() == mid,
                forall|i: int|
                    0 <= i < mid ==> grants(#[trigger] remote_alloc@[i]@) == alloc_list(
                        pp,
                        tt,
                        mm,
                        i,
                        rr,
                    ),
                mid < mm ==> grants(given@) == alloc_list(
                    pp,
                    tt,
                    mm,
                    mid as int,
                    if need > 0 {
                        j as int
                    } else {
                        j + 1
                    },
                ),
                grants(taken@) == hold_list(
                    pp,
                    tt,
                    j as int,
                    if need > 0 {
                        mid as int
                    } else {
                        mm
                    },
                ),
                local_srams@.len() == mm + rr,
                forall|i: int|
                    0 <= i < mid ==> #[trigger] local_srams@[i] == tile - lent_by(pp, tt, i, rr),
                mid < mm ==> local_srams@[mid as int] == tile - lent_by(
                    pp,
                    tt,
                    mid as int,
                    if need > 0 {
                        j as int
                    } else {
                        j + 1
                    },
                ),
                mid < mm ==> local_srams@[mid as int] == tile - pp + avail,
                forall|i: int| mid < i < mm + rr ==> #[trigger] local_srams@[i] == tile,
                forall|i: int| mm <= i < mm + rr ==> #[trigger] local_srams@[i] == tile,
            decreases mapper_num - mid, need,
        {
            let size: usize = if (avail as u128) < need {
                avail
            } else {
                need as usize
            };
            proof {
                lemma_next(mid as int, pp);
                lemma_lent_bounds(pp, tt, mid as int, j as int);
                assert(size == lent(pp, tt, mid as int, j as int));
            }
            let ghost given_before = given@;
            let ghost taken_before = taken@;
            if size > 0 {
                given.push((mapper_num + j, size));
                taken.push((mid, size));
                local_srams[mid] -= size;
                avail -= size;
                need -= size as u128;
                proof {
                    pos = pos + size;
                    assert(grants(given@) =~= grants(given_before).push((mm + j, size as int)));
                    assert(grants(taken@) =~= grants(taken_before).push((mid as int, size as int)));
                }
            }
            proof {
                assert(grants(given@) == alloc_list(pp, tt, mm, mid as int, j + 1));
                assert(grants(taken@) == hold_list(pp, tt, j as int, mid + 1));
                assert(local_srams@[mid as int] == tile - lent_by(pp, tt, mid as int, j + 1));
            }
            if need > 0 {
                // The surplus of this mapper is used up.
                proof {
                    assert(pos == (mid + 1) * pp);
                    lemma_alloc_none_after(pp, tt, mm, mid as int, j + 1, rr);
                    lemma_next(mid + 1, pp);
                    lemma_alloc_none_before(pp, tt, mm, mid + 1, j as int);
                }
                remote_alloc.push(given);
                given = Vec::new();
                mid += 1;
                avail = per;
                proof {
                    assert(grants(given@) =~= alloc_list(pp, tt, mm, mid as int, j as int));
                }
            } else {
                proof {
                    lemma_hold_none_after(pp, tt, j as int, mid + 1, mm);
                }
            }
        }
        proof {
            if need > 0 {
                // Every surplus is used up, yet the targets of all reducers
                // together do not exceed the surpluses of all mappers.
                lemma_scale(j + 1, rr, tt);
                assert(pos >= mm * pp);
                assert(false);
            }
        }
        remote_hold.push(taken);
        j += 1;
    }
    proof {
        if mid < mm {
            lemma_lent_bounds(pp, tt, mid as int, 0);
        }
    }
    while mid < mapper_num
        invariant
            mm == mapper_num,
            rr == reducer_num,
            pp == per,
            tt == target,
            0 <= pp,
            0 <= tt,
            mid <= mapper_num,
            pos == rr * tt,
            pos <= (mid + 1) * pp || mid == mm,
            remote_alloc@.len() == mid,
            forall|i: int|
                0 <= i < mid ==> grants(#[trigger] remote_alloc@[i]@) == alloc_list(
                    pp,
                    tt,
                    mm,
                    i,
                    rr,
                ),
            mid < mm ==> grants(given@) == alloc_list(pp, tt, mm, mid as int, rr),
            local_srams@.len() == mm + rr,
            forall|i: int|
                0 <= i < mid ==> #[trigger] local_srams@[i] == tile - lent_by(pp, tt, i, rr),
            mid < mm ==> local_srams@[mid as int] == tile - lent_by(pp, tt, mid as int, rr),
            forall|i: int| mid < i < mm + rr ==> #[trigger] local_srams@[i] == tile,
            forall|i: int| mm <= i < mm + rr ==> #[trigger] local_srams@[i] == tile,
            remote_hold@.len() == rr,
            forall|t: int|
                0 <= t < rr ==> grants(#[trigger] remote_hold@[t]@) == hold_list(pp, tt, t, mm),
        decreases mapper_num - mid,
    {
        proof {
            lemma_next(mid + 1, pp);
            lemma_scale(mid + 1, mid + 2, pp);
            lemma_alloc_none_before(pp, tt, mm, mid + 1, rr);
        }
        remote_alloc.push(given);
        given = Vec::new();
        mid += 1;
        proof {
            assert(grants(given@) =~= alloc_list(pp, tt, mm, mid as int, rr));
        }
    }
    Rental { local_srams, remote_alloc, remote_hold }
}

} // verus!
