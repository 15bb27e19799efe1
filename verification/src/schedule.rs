//! What the operation list of a plan holds.
//!
//! A schedule is a sequence of rounds. In a round every active mapper loads
//! its share of K, computes, and serves every reducer; then every reducer
//! accumulates what it was served and writes its tile. Identifiers count up
//! in the order of the list, so the identifier of every operation, and of
//! every operation that it waits for, is a sum of lengths.

use crate::label::{
    calc_local_text, calc_text, cross_text, fetch_memory_text, fetch_text, load_text, output_text,
    to_local_text, to_memory_text, to_remote_text,
};
use crate::op::{CrossPOpView, OpView, TransOpView, VecOpView};
use vstd::prelude::*;

verus! {

/// What is left of `amount` after the first `n` of `slots` took what they
/// could; a slot is (holder, capacity).
pub open spec fn left_after(amount: int, slots: Seq<(int, int)>, n: int) -> int
    decreases n,
{
    if n <= 0 {
        amount
    } else {
        let left = left_after(amount, slots, n - 1);
        if left <= slots[n - 1].1 {
            0
        } else {
            left - slots[n - 1].1
        }
    }
}

/// The placements of `amount` into the first `n` of `slots`, in their
/// order, as (holder, size): every slot takes what is left, up to its
/// capacity, and no slot is asked once nothing is left.
pub open spec fn placed(amount: int, slots: Seq<(int, int)>, n: int) -> Seq<(int, int)>
    decreases n,
{
    if n <= 0 {
        Seq::empty()
    } else {
        let left = left_after(amount, slots, n - 1);
        let before = placed(amount, slots, n - 1);
        if left <= 0 {
            before
        } else if left <= slots[n - 1].1 {
            before.push((slots[n - 1].0, left))
        } else {
            before.push((slots[n - 1].0, slots[n - 1].1))
        }
    }
}

/// Once nothing is left, no further slot is asked.
pub proof fn lemma_placed_done(amount: int, slots: Seq<(int, int)>, s: int, n: int)
    requires
        0 <= s <= n <= slots.len(),
        left_after(amount, slots, s) == 0,
        forall|t: int| 0 <= t < n ==> 0 <= (#[trigger] slots[t]).1,
    ensures
        placed(amount, slots, n) == placed(amount, slots, s),
        left_after(amount, slots, n) == left_after(amount, slots, s),
    decreases n,
{
    if n > s {
        lemma_placed_done(amount, slots, s, n - 1);
    }
}

/// What is left never grows and never falls below zero, and no placement
/// is larger than the amount.
pub proof fn lemma_placed_bounds(amount: int, slots: Seq<(int, int)>, n: int)
    requires
        0 <= amount,
        0 <= n <= slots.len(),
        forall|t: int| 0 <= t < n ==> 0 <= (#[trigger] slots[t]).1,
    ensures
        0 <= left_after(amount, slots, n) <= amount,
        placed(amount, slots, n).len() <= n,
        forall|t: int|
            0 <= t < placed(amount, slots, n).len() ==> 0 <= (#[trigger] placed(
                amount,
                slots,
                n,
            )[t]).1 <= amount,
        forall|t: int|
            0 <= t < placed(amount, slots, n).len() ==> exists|u: int|
                0 <= u < n && (#[trigger] placed(amount, slots, n)[t]).0 == slots[u].0,
    decreases n,
{
    if n > 0 {
        lemma_placed_bounds(amount, slots, n - 1);
        let before = placed(amount, slots, n - 1);
        let now = placed(amount, slots, n);
        assert forall|t: int| 0 <= t < now.len() implies exists|u: int|
            0 <= u < n && (#[trigger] now[t]).0 == slots[u].0 by {
            if t < before.len() {
                let u = choose|u: int| 0 <= u < n - 1 && before[t].0 == slots[u].0;
                assert(0 <= u < n && now[t].0 == slots[u].0);
            } else {
                assert(0 <= n - 1 < n && now[t].0 == slots[n - 1].0);
            }
        }
    }
}

/// The parameters that a schedule depends on.
pub struct Plan {
    /// Number of mappers; they have the ids `0..mappers`.
    pub mappers: int,
    /// Number of reducers; reducer `j` has the id `mappers + j`.
    pub reducers: int,
    /// Extent of the K dimension.
    pub depth: int,
    /// Extent of K that one mapper covers in one round.
    pub step: int,
    /// Rows and columns of the output.
    pub rows: int,
    pub cols: int,
    /// Rows and columns of the tile of one reducer.
    pub tile_rows: int,
    pub tile_cols: int,
    /// Local capacity of every reducer, by reducer number.
    pub local: Seq<int>,
    /// Holdings of every reducer as (holder, capacity), by reducer number.
    pub hold: Seq<Seq<(int, int)>>,
}

impl Plan {
    /// Elements that a mapper loads in one round.
    pub open spec fn load_size(self) -> int {
        self.step * self.rows * self.cols
    }

    /// Elements that one mapper sends to one reducer in one round.
    pub open spec fn tile_size(self) -> int {
        self.mappers * self.tile_rows * self.tile_cols
    }

    /// Elements that a reducer writes at the end of a round.
    pub open spec fn output_size(self) -> int {
        self.tile_rows * self.tile_cols
    }

    /// Extent of K that all mappers together cover in one round.
    pub open spec fn stride(self) -> int {
        self.step * self.mappers
    }

    /// Number of mappers that work in the round that starts at `offset`:
    /// mapper `a` does if `offset + a` is still within K.
    pub open spec fn active(self, offset: int) -> int {
        if self.depth - offset >= self.mappers {
            self.mappers
        } else if self.depth - offset >= 0 {
            self.depth - offset
        } else {
            0
        }
    }

    /// Elements that go into the own scratchpad of reducer `j`.
    pub open spec fn to_local(self, j: int) -> int {
        if self.tile_size() <= self.local[j] {
            self.tile_size()
        } else {
            self.local[j]
        }
    }

    /// Placements into the holdings of reducer `j`, as (holder, size).
    pub open spec fn remote(self, j: int) -> Seq<(int, int)> {
        placed(self.tile_size() - self.to_local(j), self.hold[j], self.hold[j].len() as int)
    }

    /// Elements for reducer `j` that no scratchpad takes.
    pub open spec fn spill(self, j: int) -> int {
        left_after(self.tile_size() - self.to_local(j), self.hold[j], self.hold[j].len() as int)
    }

    /// Number of transfers with which a mapper serves reducer `j`.
    pub open spec fn serve_len(self, j: int) -> int {
        2 + self.remote(j).len() as int
    }

    /// Position, among the operations of a mapper, of the first transfer
    /// to reducer `j`.
    pub open spec fn serve_at(self, j: int) -> int
        decreases j,
    {
        if j <= 0 {
            2
        } else {
            self.serve_at(j - 1) + self.serve_len(j - 1)
        }
    }

    /// Number of operations of one mapper in one round.
    pub open spec fn mapper_len(self) -> int {
        self.serve_at(self.reducers)
    }

    /// Number of operations of reducer `j` in a round with `act` active
    /// mappers.
    pub open spec fn reducer_len(self, act: int, j: int) -> int {
        4 + 2 * (act * self.remote(j).len() as int)
    }

    /// Position, among the operations of a round with `act` active
    /// mappers, of the first operation of reducer `j`.
    pub open spec fn reducer_at(self, act: int, j: int) -> int
        decreases j,
    {
        if j <= 0 {
            act * self.mapper_len()
        } else {
            self.reducer_at(act, j - 1) + self.reducer_len(act, j - 1)
        }
    }

    /// Number of operations of a round with `act` active mappers.
    pub open spec fn round_len(self, act: int) -> int {
        self.reducer_at(act, self.reducers)
    }

    /// Identifier of the first operation of mapper `a` in the round that
    /// starts with the identifier `first`.
    pub open spec fn mapper_first(self, first: int, a: int) -> int {
        first + a * self.mapper_len()
    }

    /// Identifier of the first transfer of mapper `a` to reducer `j`.
    pub open spec fn serve_first(self, first: int, a: int, j: int) -> int {
        self.mapper_first(first, a) + self.serve_at(j)
    }

    /// Identifier of the output of reducer `j` in a round with `act`
    /// active mappers.
    pub open spec fn output_id(self, first: int, act: int, j: int) -> int {
        first + self.reducer_at(act, j + 1) - 1
    }

    /// Identifier of the first operation of the round before the one that
    /// starts at `offset` with the identifier `first`.
    pub open spec fn before(self, offset: int, first: int) -> int {
        first - self.round_len(self.active(offset - self.stride()))
    }

    /// What the load of mapper `a` waits for: the transfers with which the
    /// mapper served the reducers in the round before, if there was one.
    pub open spec fn load_deps(self, offset: int, first: int, a: int) -> Seq<int> {
        if offset <= 0 {
            Seq::empty()
        } else {
            Seq::new(
                (self.mapper_len() - 2) as nat,
                |t: int| self.mapper_first(self.before(offset, first), a) + 2 + t,
            )
        }
    }

    /// What every transfer of mapper `a` to reducer `j` waits for: the
    /// outer product of the mapper and, if there was a round before, the
    /// output of the reducer in it.
    pub open spec fn serve_deps(self, offset: int, first: int, a: int, j: int) -> Seq<int> {
        if offset <= 0 {
            seq![self.mapper_first(first, a) + 1]
        } else {
            seq![
                self.mapper_first(first, a) + 1,
                self.output_id(
                    self.before(offset, first),
                    self.active(offset - self.stride()),
                    j,
                ),
            ]
        }
    }

    /// The transfer of mapper `a` into the own scratchpad of reducer `j`.
    pub open spec fn local_transfer(self, offset: int, first: int, a: int, j: int) -> OpView {
        OpView::Transfer(
            TransOpView {
                idx: self.serve_first(first, a, j),
                deps: self.serve_deps(offset, first, a, j),
                src: a,
                dst: self.mappers + j,
                length: self.to_local(j),
                content: to_local_text(a, self.mappers + j, self.to_local(j)),
            },
        )
    }

    /// The transfer of mapper `a` into holding `s` of reducer `j`.
    pub open spec fn remote_transfer(self, offset: int, first: int, a: int, j: int, s: int) -> OpView {
        OpView::Transfer(
            TransOpView {
                idx: self.serve_first(first, a, j) + 1 + s,
                deps: self.serve_deps(offset, first, a, j),
                src: a,
                dst: self.remote(j)[s].0,
                length: self.remote(j)[s].1,
                content: to_remote_text(
                    a,
                    self.remote(j)[s].0,
                    self.mappers + j,
                    self.remote(j)[s].1,
                ),
            },
        )
    }

    /// The transfer of mapper `a` to main memory of what no scratchpad of
    /// reducer `j` takes.
    pub open spec fn spill_transfer(self, offset: int, first: int, a: int, j: int) -> OpView {
        OpView::Transfer(
            TransOpView {
                idx: self.serve_first(first, a, j) + 1 + self.remote(j).len() as int,
                deps: self.serve_deps(offset, first, a, j),
                src: a,
                dst: -1,
                length: self.spill(j),
                content: to_memory_text(a, self.spill(j)),
            },
        )
    }

    /// The transfers with which mapper `a` serves reducer `j`: into its own
    /// scratchpad, into its holdings in their order, and the rest to main
    /// memory. The first and the last are there whatever their size, zero
    /// included.
    pub open spec fn serve_ops(self, offset: int, first: int, a: int, j: int) -> Seq<OpView> {
        seq![self.local_transfer(offset, first, a, j)] + Seq::new(
            self.remote(j).len(),
            |s: int| self.remote_transfer(offset, first, a, j, s),
        ) + seq![self.spill_transfer(offset, first, a, j)]
    }

    /// The transfers with which mapper `a` serves the reducers `0..n`.
    pub open spec fn serves(self, offset: int, first: int, a: int, n: int) -> Seq<OpView>
        decreases n,
    {
        if n <= 0 {
            Seq::empty()
        } else {
            self.serves(offset, first, a, n - 1) + self.serve_ops(offset, first, a, n - 1)
        }
    }

    /// The load of mapper `a` from main memory.
    pub open spec fn load_op(self, offset: int, first: int, a: int) -> OpView {
        OpView::Transfer(
            TransOpView {
                idx: self.mapper_first(first, a),
                deps: self.load_deps(offset, first, a),
                src: -1,
                dst: a,
                length: self.load_size(),
                content: load_text(a, offset + a * self.step),
            },
        )
    }

    /// The outer product of mapper `a`.
    pub open spec fn cross_op(self, first: int, a: int) -> OpView {
        OpView::CrossProduct(
            CrossPOpView {
                idx: self.mapper_first(first, a) + 1,
                deps: seq![self.mapper_first(first, a)],
                pid: a,
                k: self.step,
                m: self.rows,
                n: self.cols,
                content: cross_text(a, self.rows, self.cols, self.step),
            },
        )
    }

    /// The operations of mapper `a` in the round that starts at `offset`
    /// with the identifier `first`.
    pub open spec fn mapper_ops(self, offset: int, first: int, a: int) -> Seq<OpView> {
        seq![self.load_op(offset, first, a), self.cross_op(first, a)] + self.serves(
            offset,
            first,
            a,
            self.reducers,
        )
    }

    /// The operations of the mappers `0..n`.
    pub open spec fn mappers_ops(self, offset: int, first: int, n: int) -> Seq<OpView>
        decreases n,
    {
        if n <= 0 {
            Seq::empty()
        } else {
            self.mappers_ops(offset, first, n - 1) + self.mapper_ops(offset, first, n - 1)
        }
    }

    /// The transfers into the own scratchpad of reducer `j`, one of each
    /// mapper `0..n`.
    pub open spec fn local_ids(self, first: int, j: int, n: int) -> Seq<int> {
        Seq::new(n as nat, |a: int| self.serve_first(first, a, j))
    }

    /// The transfers to main memory for reducer `j`, one of each mapper
    /// `0..n`.
    pub open spec fn spill_ids(self, first: int, j: int, n: int) -> Seq<int> {
        Seq::new(n as nat, |a: int| self.serve_first(first, a, j) + 1 + self.remote(j).len() as int)
    }

    /// The transfers into the holdings of reducer `j` from the mappers
    /// `0..n`, as (transfer, holder, size), by mapper and then by holding.
    pub open spec fn parked(self, first: int, j: int, n: int) -> Seq<(int, int, int)>
        decreases n,
    {
        if n <= 0 {
            Seq::empty()
        } else {
            self.parked(first, j, n - 1) + Seq::new(
                self.remote(j).len(),
                |s: int|
                    (
                        self.serve_first(first, n - 1, j) + 1 + s,
                        self.remote(j)[s].0,
                        self.remote(j)[s].1,
                    ),
            )
        }
    }

    /// The accumulation of reducer `j` over what its own scratchpad got.
    pub open spec fn local_calc(self, first: int, act: int, j: int) -> OpView {
        OpView::Accumulate(
            VecOpView {
                idx: first + self.reducer_at(act, j),
                deps: self.local_ids(first, j, act),
                pid: self.mappers + j,
                length: act * self.to_local(j),
                content: calc_local_text(self.mappers + j, act * self.to_local(j)),
            },
        )
    }

    /// The fetch of reducer `j` from main memory and its accumulation. They
    /// are there in every round, since every mapper sends a transfer to
    /// main memory.
    pub open spec fn memory_ops(self, first: int, act: int, j: int) -> Seq<OpView> {
        let at = first + self.reducer_at(act, j) + 1 + 2 * self.parked(first, j, act).len() as int;
        seq![
            OpView::Transfer(
                TransOpView {
                    idx: at,
                    deps: self.spill_ids(first, j, act),
                    src: -1,
                    dst: self.mappers + j,
                    length: act * self.spill(j),
                    content: fetch_memory_text(self.mappers + j, act * self.spill(j)),
                },
            ),
            OpView::Accumulate(
                VecOpView {
                    idx: at + 1,
                    deps: seq![at],
                    pid: self.mappers + j,
                    length: act * self.spill(j),
                    content: calc_text(self.mappers + j, act * self.spill(j)),
                },
            ),
        ]
    }

    /// What the output of reducer `j` waits for: every accumulation of the
    /// reducer in this round.
    pub open spec fn output_deps(self, first: int, act: int, j: int) -> Seq<int> {
        let at = first + self.reducer_at(act, j);
        let n = self.parked(first, j, act).len();
        seq![at] + Seq::new(n, |t: int| at + 2 + 2 * t) + seq![at + 2 + 2 * n as int]
    }

    /// The write of the tile of reducer `j` to main memory.
    pub open spec fn output_op(self, first: int, act: int, j: int) -> OpView {
        OpView::Transfer(
            TransOpView {
                idx: self.output_id(first, act, j),
                deps: self.output_deps(first, act, j),
                src: self.mappers + j,
                dst: -1,
                length: self.output_size(),
                content: output_text(self.mappers + j, self.output_size()),
            },
        )
    }

    /// The operations of reducer `j` in the round that starts with the
    /// identifier `first` and has `act` active mappers.
    pub open spec fn reducer_ops(self, first: int, act: int, j: int) -> Seq<OpView> {
        let entries = self.parked(first, j, act);
        seq![self.local_calc(first, act, j)] + fetch_ops(
            entries,
            self.mappers + j,
            first + self.reducer_at(act, j) + 1,
            entries.len() as int,
        ) + self.memory_ops(first, act, j) + seq![self.output_op(first, act, j)]
    }

    /// The operations of the reducers `0..n`.
    pub open spec fn reducers_ops(self, first: int, act: int, n: int) -> Seq<OpView>
        decreases n,
    {
        if n <= 0 {
            Seq::empty()
        } else {
            self.reducers_ops(first, act, n - 1) + self.reducer_ops(first, act, n - 1)
        }
    }

    /// The operations of the round that starts at `offset` with the
    /// identifier `first`.
    pub open spec fn round_ops(self, offset: int, first: int) -> Seq<OpView> {
        self.mappers_ops(offset, first, self.active(offset)) + self.reducers_ops(
            first,
            self.active(offset),
            self.reducers,
        )
    }

    /// The operations of the round that starts at `offset` with the
    /// identifier `first`, and of all rounds after it: a round starts at
    /// every multiple of the stride below the depth.
    pub open spec fn rounds_from(self, offset: int, first: int) -> Seq<OpView>
        decreases
            if offset < self.depth {
                self.depth - offset
            } else {
                0
            },
    {
        if offset >= self.depth || self.stride() <= 0 {
            Seq::empty()
        } else {
            self.round_ops(offset, first) + self.rounds_from(
                offset + self.stride(),
                first + self.round_len(self.active(offset)),
            )
        }
    }

    /// Number of operations of the round that starts at `offset` and of
    /// all rounds after it.
    pub open spec fn length_from(self, offset: int) -> int
        decreases
            if offset < self.depth {
                self.depth - offset
            } else {
                0
            },
    {
        if offset >= self.depth || self.stride() <= 0 {
            0
        } else {
            self.round_len(self.active(offset)) + self.length_from(offset + self.stride())
        }
    }

    /// Number of operations of the whole schedule.
    pub open spec fn length(self) -> int {
        self.length_from(0)
    }

    /// The operations of the whole schedule, the first of which has the
    /// identifier `first`.
    pub open spec fn schedule(self, first: int) -> Seq<OpView> {
        self.rounds_from(0, first)
    }
}

/// The fetch of the first `n` of `entries`, each followed by its
/// accumulation, on the reducer `rid`; an entry is (transfer, holder,
/// size), and the first fetch has the identifier `at`.
pub open spec fn fetch_ops(entries: Seq<(int, int, int)>, rid: int, at: int, n: int) -> Seq<OpView>
    decreases n,
{
    if n <= 0 {
        Seq::empty()
    } else {
        fetch_ops(entries, rid, at, n - 1) + seq![
            OpView::Transfer(
                TransOpView {
                    idx: at + 2 * (n - 1),
                    deps: seq![entries[n - 1].0],
                    src: entries[n - 1].1,
                    dst: rid,
                    length: entries[n - 1].2,
                    content: fetch_text(rid, entries[n - 1].1, entries[n - 1].2),
                },
            ),
            OpView::Accumulate(
                VecOpView {
                    idx: at + 2 * (n - 1) + 1,
                    deps: seq![at + 2 * (n - 1)],
                    pid: rid,
                    length: entries[n - 1].2,
                    content: calc_text(rid, entries[n - 1].2),
                },
            ),
        ]
    }
}

impl Plan {
    /// Whether the parameters describe a topology and a problem: there is
    /// a mapper and a reducer, every round advances, and no extent or
    /// capacity is negative.
    pub open spec fn valid(self) -> bool {
        &&& 1 <= self.mappers
        &&& 1 <= self.reducers
        &&& 1 <= self.step
        &&& 0 <= self.depth
        &&& 0 <= self.rows
        &&& 0 <= self.cols
        &&& 0 <= self.tile_rows
        &&& 0 <= self.tile_cols
        &&& self.local.len() == self.reducers
        &&& forall|j: int| 0 <= j < self.reducers ==> 0 <= #[trigger] self.local[j]
        &&& self.hold.len() == self.reducers
        &&& forall|j: int, s: int|
            0 <= j < self.reducers && 0 <= s < self.hold[j].len() ==> 0 <= (
            #[trigger] self.hold[j][s]).0 && 0 <= self.hold[j][s].1
    }

    /// The transfers to a reducer follow those to the reducers before it.
    pub proof fn lemma_serve_at(self, j: int, n: int)
        requires
            0 <= j <= n,
        ensures
            2 <= self.serve_at(j) <= self.serve_at(n),
            j < n ==> self.serve_at(j) + self.serve_len(j) <= self.serve_at(n),
        decreases n,
    {
        if n > j {
            self.lemma_serve_at(j, n - 1);
        } else if j > 0 {
            self.lemma_serve_at(0, j - 1);
        }
    }

    /// The operations of a reducer follow those of all mappers and of the
    /// reducers before it.
    pub proof fn lemma_reducer_at(self, act: int, j: int, n: int)
        requires
            0 <= act,
            0 <= j <= n,
        ensures
            act * self.mapper_len() <= self.reducer_at(act, j) <= self.reducer_at(act, n),
            j < n ==> self.reducer_at(act, j) + self.reducer_len(act, j) <= self.reducer_at(
                act,
                n,
            ),
        decreases n,
    {
        if n > j {
            self.lemma_reducer_at(act, j, n - 1);
            assert(0 <= act * self.remote(n - 1).len()) by (nonlinear_arith)
                requires
                    0 <= act,
                    0 <= self.remote(n - 1).len(),
            ;
        } else if j > 0 {
            self.lemma_reducer_at(act, 0, j - 1);
            assert(0 <= act * self.remote(j - 1).len()) by (nonlinear_arith)
                requires
                    0 <= act,
                    0 <= self.remote(j - 1).len(),
            ;
        }
    }

    /// Number of placements into the holdings of the reducers `0..n`.
    pub open spec fn remote_count(self, n: int) -> int
        decreases n,
    {
        if n <= 0 {
            0
        } else {
            self.remote_count(n - 1) + self.remote(n - 1).len()
        }
    }

    /// A mapper has a load, an outer product and, for every reducer, two
    /// transfers and one more for every placement.
    pub proof fn lemma_serve_at_sum(self, j: int)
        requires
            0 <= j,
        ensures
            self.serve_at(j) == 2 + 2 * j + self.remote_count(j),
            0 <= self.remote_count(j),
        decreases j,
    {
        if j > 0 {
            self.lemma_serve_at_sum(j - 1);
        }
    }

    /// A reducer has four operations and two more for every placement of
    /// every active mapper.
    pub proof fn lemma_reducer_at_sum(self, act: int, j: int)
        requires
            0 <= j,
        ensures
            self.reducer_at(act, j) == act * self.mapper_len() + 4 * j + 2 * (act
                * self.remote_count(j)),
        decreases j,
    {
        if j > 0 {
            self.lemma_reducer_at_sum(act, j - 1);
            assert(act * self.remote_count(j) == act * self.remote_count(j - 1) + act
                * self.remote(j - 1).len()) by (nonlinear_arith)
                requires
                    self.remote_count(j) == self.remote_count(j - 1) + self.remote(j - 1).len(),
            ;
        } else {
            assert(act * self.remote_count(0) == 0) by (nonlinear_arith)
                requires
                    self.remote_count(0) == 0,
            ;
        }
    }

    /// No round has a negative number of operations.
    pub proof fn lemma_round_len(self, act: int)
        requires
            0 <= act,
            0 <= self.reducers,
        ensures
            act * self.mapper_len() <= self.round_len(act),
            0 <= self.round_len(act),
            2 <= self.mapper_len(),
    {
        self.lemma_reducer_at(act, 0, self.reducers);
        self.lemma_serve_at(0, self.reducers);
        assert(0 <= act * self.mapper_len()) by (nonlinear_arith)
            requires
                0 <= act,
                0 <= self.mapper_len(),
        ;
    }

    /// No schedule has a negative number of operations.
    pub proof fn lemma_length_from(self, offset: int)
        requires
            0 <= self.reducers,
            0 <= self.mappers,
        ensures
            0 <= self.length_from(offset),
        decreases
            if offset < self.depth {
                self.depth - offset
            } else {
                0
            },
    {
        if offset < self.depth && self.stride() > 0 {
            self.lemma_round_len(self.active(offset));
            self.lemma_length_from(offset + self.stride());
        }
    }

    /// All rounds but the last have every mapper at work: where `full`
    /// more rounds follow the one at `offset`, the schedule from `offset`
    /// on has `full` rounds of all mappers and the last round.
    pub proof fn lemma_length_split(self, offset: int, full: int)
        requires
            self.valid(),
            0 <= offset,
            0 <= full,
            offset + full * self.stride() < self.depth <= offset + (full + 1) * self.stride(),
        ensures
            self.length_from(offset) == full * self.round_len(self.mappers) + self.round_len(
                self.active(offset + full * self.stride()),
            ),
        decreases full,
    {
        let stride = self.stride();
        let whole = self.round_len(self.mappers);
        assert(stride >= self.mappers) by (nonlinear_arith)
            requires
                stride == self.step * self.mappers,
                self.step >= 1,
                self.mappers >= 1,
        ;
        assert((full + 1) * stride == full * stride + stride) by (nonlinear_arith);
        if full == 0 {
            assert(0 * stride == 0) by (nonlinear_arith);
            assert(0 * whole == 0) by (nonlinear_arith);
            assert(self.length_from(offset + stride) == 0);
        } else {
            assert(full * stride >= stride) by (nonlinear_arith)
                requires
                    full >= 1,
                    stride >= 0,
            ;
            assert((full - 1) * stride == full * stride - stride) by (nonlinear_arith);
            assert(full * whole == (full - 1) * whole + whole) by (nonlinear_arith);
            assert(self.active(offset) == self.mappers);
            self.lemma_length_split(offset + stride, full - 1);
        }
    }

    /// A bound on the holders of the holdings of reducer `j` bounds the
    /// holders of its parked transfers.
    pub proof fn lemma_parked_holders(self, first: int, j: int, n: int, bound: int)
        requires
            0 <= n,
            forall|s: int| 0 <= s < self.remote(j).len() ==> (#[trigger] self.remote(j)[s]).0 <= bound,
        ensures
            forall|e: int|
                0 <= e < self.parked(first, j, n).len() ==> (#[trigger] self.parked(
                    first,
                    j,
                    n,
                )[e]).1 <= bound,
        decreases n,
    {
        if n > 0 {
            self.lemma_parked_holders(first, j, n - 1, bound);
            let before = self.parked(first, j, n - 1);
            let now = self.parked(first, j, n);
            assert forall|e: int| 0 <= e < now.len() implies (#[trigger] now[e]).1 <= bound by {
                if e >= before.len() {
                    assert(now[e].1 == self.remote(j)[e - before.len()].0);
                }
            }
        }
    }

    /// Every mapper parks one transfer in every holding that gets any.
    pub proof fn lemma_parked_len(self, first: int, j: int, n: int)
        requires
            0 <= n,
        ensures
            self.parked(first, j, n).len() == n * self.remote(j).len(),
        decreases n,
    {
        if n > 0 {
            self.lemma_parked_len(first, j, n - 1);
            assert(n * self.remote(j).len() == (n - 1) * self.remote(j).len() + self.remote(
                j,
            ).len()) by (nonlinear_arith);
        } else {
            assert(0 * self.remote(j).len() == 0) by (nonlinear_arith);
        }
    }
}

} // verus!
