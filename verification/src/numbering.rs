//! The identifiers of a schedule count up along the operation list: the
//! operation at position `i` has the identifier `first + i`. So no two
//! operations share an identifier, and the list is in generation order.

use crate::op::OpView;
use crate::rental::lemma_next;
use crate::schedule::{fetch_ops, Plan};
use vstd::prelude::*;

verus! {

/// Whether the operations of the list have the identifiers `first`,
/// `first + 1`, ... in this order.
pub open spec fn numbered_from(ops: Seq<OpView>, first: int) -> bool {
    forall|i: int| 0 <= i < ops.len() ==> (#[trigger] ops[i]).idx() == first + i
}

/// A list that counts up, followed by one that counts on from its end,
/// counts up.
pub proof fn lemma_numbered_concat(a: Seq<OpView>, b: Seq<OpView>, first: int)
    requires
        numbered_from(a, first),
        numbered_from(b, first + a.len()),
    ensures
        numbered_from(a + b, first),
{
    assert forall|i: int| 0 <= i < (a + b).len() implies (#[trigger] (a + b)[i]).idx() == first
        + i by {
        if i < a.len() {
            assert((a + b)[i] == a[i]);
        } else {
            assert((a + b)[i] == b[i - a.len()]);
        }
    }
}

/// The fetches and accumulations of the first `n` entries are `2 * n`
/// operations that count up from `at`.
pub proof fn lemma_fetch_ops_numbered(entries: Seq<(int, int, int)>, rid: int, at: int, n: int)
    requires
        0 <= n,
    ensures
        fetch_ops(entries, rid, at, n).len() == 2 * n,
        numbered_from(fetch_ops(entries, rid, at, n), at),
    decreases n,
{
    if n > 0 {
        lemma_fetch_ops_numbered(entries, rid, at, n - 1);
        let before = fetch_ops(entries, rid, at, n - 1);
        let now = fetch_ops(entries, rid, at, n);
        let pair = now.subrange(before.len() as int, now.len() as int);
        assert(now =~= before + pair);
        assert(pair[0].idx() == at + 2 * (n - 1));
        assert(pair[1].idx() == at + 2 * (n - 1) + 1);
        lemma_numbered_concat(before, pair, at);
    }
}

impl Plan {
    /// The transfers of a mapper to a reducer count up from the first.
    pub proof fn lemma_serve_ops_numbered(self, offset: int, first: int, a: int, j: int)
        ensures
            self.serve_ops(offset, first, a, j).len() == self.serve_len(j),
            numbered_from(self.serve_ops(offset, first, a, j), self.serve_first(first, a, j)),
    {
    }

    /// The transfers of a mapper to the reducers `0..n` count up from its
    /// third operation.
    pub proof fn lemma_serves_numbered(self, offset: int, first: int, a: int, n: int)
        requires
            0 <= n,
        ensures
            self.serves(offset, first, a, n).len() == self.serve_at(n) - 2,
            numbered_from(self.serves(offset, first, a, n), self.mapper_first(first, a) + 2),
        decreases n,
    {
        if n > 0 {
            self.lemma_serves_numbered(offset, first, a, n - 1);
            self.lemma_serve_ops_numbered(offset, first, a, n - 1);
            lemma_numbered_concat(
                self.serves(offset, first, a, n - 1),
                self.serve_ops(offset, first, a, n - 1),
                self.mapper_first(first, a) + 2,
            );
        }
    }

    /// The operations of a mapper count up from its load.
    pub proof fn lemma_mapper_ops_numbered(self, offset: int, first: int, a: int)
        requires
            0 <= self.reducers,
        ensures
            self.mapper_ops(offset, first, a).len() == self.mapper_len(),
            numbered_from(self.mapper_ops(offset, first, a), self.mapper_first(first, a)),
    {
        let head = seq![self.load_op(offset, first, a), self.cross_op(first, a)];
        self.lemma_serves_numbered(offset, first, a, self.reducers);
        assert(numbered_from(head, self.mapper_first(first, a)));
        lemma_numbered_concat(
            head,
            self.serves(offset, first, a, self.reducers),
            self.mapper_first(first, a),
        );
    }

    /// The operations of the mappers `0..n` count up from the first of the
    /// round.
    pub proof fn lemma_mappers_ops_numbered(self, offset: int, first: int, n: int)
        requires
            0 <= n,
            0 <= self.reducers,
        ensures
            self.mappers_ops(offset, first, n).len() == n * self.mapper_len(),
            numbered_from(self.mappers_ops(offset, first, n), first),
        decreases n,
    {
        if n > 0 {
            self.lemma_mappers_ops_numbered(offset, first, n - 1);
            self.lemma_mapper_ops_numbered(offset, first, n - 1);
            lemma_next(n - 1, self.mapper_len());
            lemma_numbered_concat(
                self.mappers_ops(offset, first, n - 1),
                self.mapper_ops(offset, first, n - 1),
                first,
            );
        } else {
            assert(0 * self.mapper_len() == 0) by (nonlinear_arith);
        }
    }

    /// The operations of a reducer count up from its first accumulation.
    pub proof fn lemma_reducer_ops_numbered(self, first: int, act: int, j: int)
        requires
            0 <= act,
            0 <= j,
        ensures
            self.reducer_ops(first, act, j).len() == self.reducer_len(act, j),
            numbered_from(self.reducer_ops(first, act, j), first + self.reducer_at(act, j)),
    {
        let entries = self.parked(first, j, act);
        let at = first + self.reducer_at(act, j);
        let rid = self.mappers + j;
        self.lemma_parked_len(first, j, act);
        lemma_fetch_ops_numbered(entries, rid, at + 1, entries.len() as int);
        let local = seq![self.local_calc(first, act, j)];
        let fetched = fetch_ops(entries, rid, at + 1, entries.len() as int);
        let memory = self.memory_ops(first, act, j);
        let output = seq![self.output_op(first, act, j)];
        assert(numbered_from(local, at));
        lemma_numbered_concat(local, fetched, at);
        assert(numbered_from(memory, at + 1 + 2 * entries.len()));
        lemma_numbered_concat(local + fetched, memory, at);
        assert(numbered_from(output, at + 3 + 2 * entries.len()));
        lemma_numbered_concat(local + fetched + memory, output, at);
    }

    /// The operations of the reducers `0..n` count on from those of the
    /// mappers.
    pub proof fn lemma_reducers_ops_numbered(self, first: int, act: int, n: int)
        requires
            0 <= act,
            0 <= n,
        ensures
            self.reducers_ops(first, act, n).len() == self.reducer_at(act, n) - act
                * self.mapper_len(),
            numbered_from(self.reducers_ops(first, act, n), first + act * self.mapper_len()),
        decreases n,
    {
        if n > 0 {
            self.lemma_reducers_ops_numbered(first, act, n - 1);
            self.lemma_reducer_ops_numbered(first, act, n - 1);
            lemma_numbered_concat(
                self.reducers_ops(first, act, n - 1),
                self.reducer_ops(first, act, n - 1),
                first + act * self.mapper_len(),
            );
        }
    }

    /// The operations of a round count up from its first.
    pub proof fn lemma_round_ops_numbered(self, offset: int, first: int)
        requires
            0 <= self.mappers,
            0 <= self.reducers,
        ensures
            self.round_ops(offset, first).len() == self.round_len(self.active(offset)),
            numbered_from(self.round_ops(offset, first), first),
    {
        let act = self.active(offset);
        self.lemma_mappers_ops_numbered(offset, first, act);
        self.lemma_reducers_ops_numbered(first, act, self.reducers);
        lemma_numbered_concat(
            self.mappers_ops(offset, first, act),
            self.reducers_ops(first, act, self.reducers),
            first,
        );
    }

    /// The operations of a round and of all rounds after it count up from
    /// its first.
    pub proof fn lemma_rounds_from_numbered(self, offset: int, first: int)
        requires
            0 <= self.mappers,
            0 <= self.reducers,
        ensures
            self.rounds_from(offset, first).len() == self.length_from(offset),
            numbered_from(self.rounds_from(offset, first), first),
        decreases
            if offset < self.depth {
                self.depth - offset
            } else {
                0
            },
    {
        if offset < self.depth && self.stride() > 0 {
            let act = self.active(offset);
            self.lemma_round_ops_numbered(offset, first);
            self.lemma_rounds_from_numbered(offset + self.stride(), first + self.round_len(act));
            lemma_numbered_concat(
                self.round_ops(offset, first),
                self.rounds_from(offset + self.stride(), first + self.round_len(act)),
                first,
            );
        }
    }

    /// A schedule has as many operations as its length says, and the
    /// operation at position `i` has the identifier `first + i`.
    pub proof fn lemma_schedule_numbered(self, first: int)
        requires
            0 <= self.mappers,
            0 <= self.reducers,
        ensures
            self.schedule(first).len() == self.length(),
            numbered_from(self.schedule(first), first),
    {
        self.lemma_rounds_from_numbered(0, first);
    }
}

} // verus!
