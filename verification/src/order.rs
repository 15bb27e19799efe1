//! Every scheduled operation waits only for operations with smaller
//! identifiers, so the dependencies of a schedule form no cycle.

use crate::op::OpView;
use crate::rental::{lemma_next, lemma_scale};
use crate::schedule::{fetch_ops, Plan};
use vstd::prelude::*;

verus! {

/// Whether every operation that `op` waits for has a smaller identifier.
pub open spec fn waits_for_earlier(op: OpView) -> bool {
    forall|d: int| 0 <= d < op.deps().len() ==> #[trigger] op.deps()[d] < op.idx()
}

/// Whether every operation of the list waits only for operations with
/// smaller identifiers.
pub open spec fn acyclic(ops: Seq<OpView>) -> bool {
    forall|i: int| 0 <= i < ops.len() ==> waits_for_earlier(#[trigger] ops[i])
}

/// Whether the record of every operation of the list can be written with
/// machine words.
pub open spec fn dumpable(ops: Seq<OpView>) -> bool {
    forall|i: int| 0 <= i < ops.len() ==> (#[trigger] ops[i]).record_fits()
}

/// Whether the list is acyclic and dumpable.
pub open spec fn sound(ops: Seq<OpView>) -> bool {
    forall|i: int|
        0 <= i < ops.len() ==> waits_for_earlier(#[trigger] ops[i]) && ops[i].record_fits()
}

/// Two lists in which no operation waits for a later one make one such
/// list.
pub proof fn lemma_sound_concat(a: Seq<OpView>, b: Seq<OpView>)
    requires
        sound(a),
        sound(b),
    ensures
        sound(a + b),
{
    assert forall|i: int| 0 <= i < (a + b).len() implies waits_for_earlier(#[trigger] (a + b)[i]) && (a + b)[i].record_fits() by {
        if i < a.len() {
            assert((a + b)[i] == a[i]);
        } else {
            assert((a + b)[i] == b[i - a.len()]);
        }
    }
}

impl Plan {
    /// Whether a round of this plan starts at `offset`.
    pub open spec fn has_round(self, offset: int) -> bool {
        self.valid() && 0 <= offset < self.depth && self.load_size() <= usize::MAX
    }

    /// The round before a round ended before it: its outputs, and the
    /// transfers of its mappers, have identifiers below those of the same
    /// mappers in this round.
    pub proof fn lemma_before(self, offset: int, first: int, a: int, j: int)
        requires
            self.has_round(offset),
            0 < offset,
            0 <= a,
            0 <= j < self.reducers,
        ensures
            self.output_id(self.before(offset, first), self.active(offset - self.stride()), j)
                < first,
            self.mapper_first(self.before(offset, first), a) + self.mapper_len()
                <= self.mapper_first(first, a),
            first <= self.mapper_first(first, a),
    {
        let act = self.active(offset - self.stride());
        assert(self.stride() >= 1) by (nonlinear_arith)
            requires
                self.stride() == self.step * self.mappers,
                self.step >= 1,
                self.mappers >= 1,
        ;
        assert(act >= 1);
        self.lemma_reducer_at(act, j + 1, self.reducers);
        self.lemma_round_len(act);
        lemma_scale(1, act, self.mapper_len());
        lemma_scale(0, a, self.mapper_len());
        assert(1 * self.mapper_len() == self.mapper_len());
        assert(0 * self.mapper_len() == 0);
    }

    /// No transfer to a reducer waits for a later operation.
    pub proof fn lemma_serve_ops(self, offset: int, first: int, a: int, j: int)
        requires
            self.has_round(offset),
            0 <= a,
            0 <= j < self.reducers,
        ensures
            sound(self.serve_ops(offset, first, a, j)),
    {
        let ops = self.serve_ops(offset, first, a, j);
        let deps = self.serve_deps(offset, first, a, j);
        let at = self.serve_first(first, a, j);
        self.lemma_serve_at(j, self.reducers);
        lemma_scale(0, a, self.mapper_len());
        assert(0 * self.mapper_len() == 0);
        if offset > 0 {
            self.lemma_before(offset, first, a, j);
        }
        assert forall|d: int| 0 <= d < deps.len() implies #[trigger] deps[d] < at by {}
        assert forall|i: int| 0 <= i < ops.len() implies waits_for_earlier(#[trigger] ops[i]) && ops[i].record_fits() by {
            assert(ops[i].deps() == deps);
            assert(ops[i].idx() >= at);
        }
    }

    /// No transfer of a mapper to the reducers waits for a later
    /// operation.
    pub proof fn lemma_serves(self, offset: int, first: int, a: int, n: int)
        requires
            self.has_round(offset),
            0 <= a,
            0 <= n <= self.reducers,
        ensures
            sound(self.serves(offset, first, a, n)),
        decreases n,
    {
        if n > 0 {
            self.lemma_serves(offset, first, a, n - 1);
            self.lemma_serve_ops(offset, first, a, n - 1);
            lemma_sound_concat(
                self.serves(offset, first, a, n - 1),
                self.serve_ops(offset, first, a, n - 1),
            );
        }
    }

    /// No operation of a mapper waits for a later operation.
    pub proof fn lemma_mapper_ops(self, offset: int, first: int, a: int)
        requires
            self.has_round(offset),
            0 <= a,
        ensures
            sound(self.mapper_ops(offset, first, a)),
    {
        let head = seq![self.load_op(offset, first, a), self.cross_op(first, a)];
        if offset > 0 {
            self.lemma_before(offset, first, a, 0);
        }
        let load = self.load_op(offset, first, a);
        self.lemma_serve_at(0, self.reducers);
        assert forall|d: int| 0 <= d < load.deps().len() implies #[trigger] load.deps()[d]
            < load.idx() by {
            assert(load.deps() == self.load_deps(offset, first, a));
            assert(load.deps()[d] == self.mapper_first(self.before(offset, first), a) + 2 + d);
        }
        assert(waits_for_earlier(load));
        assert(waits_for_earlier(self.cross_op(first, a)));
        assert(sound(head));
        self.lemma_serves(offset, first, a, self.reducers);
        lemma_sound_concat(head, self.serves(offset, first, a, self.reducers));
    }

    /// No operation of the mappers waits for a later operation.
    pub proof fn lemma_mappers_ops(self, offset: int, first: int, n: int)
        requires
            self.has_round(offset),
            0 <= n,
        ensures
            sound(self.mappers_ops(offset, first, n)),
        decreases n,
    {
        if n > 0 {
            self.lemma_mappers_ops(offset, first, n - 1);
            self.lemma_mapper_ops(offset, first, n - 1);
            lemma_sound_concat(
                self.mappers_ops(offset, first, n - 1),
                self.mapper_ops(offset, first, n - 1),
            );
        }
    }

    /// Every transfer of the mappers `0..n` to reducer `j` has an
    /// identifier below that of every operation of the reducers.
    pub proof fn lemma_served_before(self, first: int, act: int, a: int, j: int, t: int)
        requires
            self.valid(),
            0 <= a < act,
            0 <= j < self.reducers,
            0 <= t < self.serve_len(j),
        ensures
            self.serve_first(first, a, j) + t < first + self.reducer_at(act, j),
    {
        self.lemma_serve_at(j, self.reducers);
        self.lemma_reducer_at(act, 0, j);
        lemma_next(a, self.mapper_len());
        lemma_scale(a + 1, act, self.mapper_len());
    }

    /// Every parked transfer has an identifier below that of every
    /// operation of the reducers.
    pub proof fn lemma_parked_before(self, first: int, act: int, j: int, n: int)
        requires
            self.valid(),
            0 <= n <= act,
            0 <= j < self.reducers,
        ensures
            forall|e: int|
                0 <= e < self.parked(first, j, n).len() ==> (#[trigger] self.parked(
                    first,
                    j,
                    n,
                )[e]).0 < first + self.reducer_at(act, j),
        decreases n,
    {
        if n > 0 {
            self.lemma_parked_before(first, act, j, n - 1);
            let before = self.parked(first, j, n - 1);
            let now = self.parked(first, j, n);
            assert forall|e: int| 0 <= e < now.len() implies (#[trigger] now[e]).0 < first
                + self.reducer_at(act, j) by {
                if e >= before.len() {
                    let s = e - before.len();
                    assert(now[e].0 == self.serve_first(first, n - 1, j) + 1 + s);
                    self.lemma_served_before(first, act, n - 1, j, 1 + s);
                }
            }
        }
    }

    /// No operation of a reducer waits for a later operation.
    pub proof fn lemma_reducer_ops(self, first: int, act: int, j: int)
        requires
            self.valid(),
            0 <= act,
            0 <= j < self.reducers,
        ensures
            sound(self.reducer_ops(first, act, j)),
    {
        let entries = self.parked(first, j, act);
        let at = first + self.reducer_at(act, j);
        let rid = self.mappers + j;
        self.lemma_parked_len(first, j, act);
        self.lemma_parked_before(first, act, j, act);
        let local = self.local_calc(first, act, j);
        assert(waits_for_earlier(local)) by {
            assert forall|d: int| 0 <= d < local.deps().len() implies #[trigger] local.deps()[d]
                < local.idx() by {
                self.lemma_served_before(first, act, d, j, 0);
            }
        }
        assert(sound(seq![local]));
        lemma_fetch_ops(entries, rid, at + 1, entries.len() as int, at);
        let memory = self.memory_ops(first, act, j);
        assert(waits_for_earlier(memory[0])) by {
            assert forall|d: int| 0 <= d < memory[0].deps().len() implies #[trigger] memory[0].deps()[d]
                < memory[0].idx() by {
                self.lemma_served_before(first, act, d, j, 1 + self.remote(j).len() as int);
            }
        }
        assert(waits_for_earlier(memory[1]));
        assert(sound(memory));
        let output = self.output_op(first, act, j);
        assert(waits_for_earlier(output));
        assert(sound(seq![output]));
        let fetched = fetch_ops(entries, rid, at + 1, entries.len() as int);
        lemma_sound_concat(seq![local], fetched);
        lemma_sound_concat(seq![local] + fetched, memory);
        lemma_sound_concat(seq![local] + fetched + memory, seq![output]);
    }

    /// No operation of the reducers waits for a later operation.
    pub proof fn lemma_reducers_ops(self, first: int, act: int, n: int)
        requires
            self.valid(),
            0 <= act,
            0 <= n <= self.reducers,
        ensures
            sound(self.reducers_ops(first, act, n)),
        decreases n,
    {
        if n > 0 {
            self.lemma_reducers_ops(first, act, n - 1);
            self.lemma_reducer_ops(first, act, n - 1);
            lemma_sound_concat(
                self.reducers_ops(first, act, n - 1),
                self.reducer_ops(first, act, n - 1),
            );
        }
    }

    /// No operation of this round or a later one waits for a later
    /// operation.
    pub proof fn lemma_rounds_from(self, offset: int, first: int)
        requires
            self.valid(),
            self.load_size() <= usize::MAX,
            0 <= offset,
        ensures
            sound(self.rounds_from(offset, first)),
        decreases
            if offset < self.depth {
                self.depth - offset
            } else {
                0
            },
    {
        if offset < self.depth && self.stride() > 0 {
            let act = self.active(offset);
            self.lemma_mappers_ops(offset, first, act);
            self.lemma_reducers_ops(first, act, self.reducers);
            lemma_sound_concat(
                self.mappers_ops(offset, first, act),
                self.reducers_ops(first, act, self.reducers),
            );
            self.lemma_rounds_from(offset + self.stride(), first + self.round_len(act));
            lemma_sound_concat(
                self.round_ops(offset, first),
                self.rounds_from(offset + self.stride(), first + self.round_len(act)),
            );
        }
    }

    /// In a schedule every operation waits only for operations with
    /// smaller identifiers, and where a load fits a machine word, so does
    /// every number of every record.
    pub proof fn lemma_schedule_acyclic(self, first: int)
        requires
            self.valid(),
            self.load_size() <= usize::MAX,
        ensures
            acyclic(self.schedule(first)),
            dumpable(self.schedule(first)),
    {
        self.lemma_rounds_from(0, first);
    }
}

/// No fetch waits for a later operation, nor does its accumulation, where
/// the transfers that the fetches wait for have identifiers below `bound`
/// and the fetches have identifiers above it.
pub proof fn lemma_fetch_ops(entries: Seq<(int, int, int)>, rid: int, at: int, n: int, bound: int)
    requires
        0 <= n <= entries.len(),
        bound < at,
        forall|e: int| 0 <= e < entries.len() ==> (#[trigger] entries[e]).0 < bound,
    ensures
        sound(fetch_ops(entries, rid, at, n)),
    decreases n,
{
    if n > 0 {
        lemma_fetch_ops(entries, rid, at, n - 1, bound);
        let before = fetch_ops(entries, rid, at, n - 1);
        let now = fetch_ops(entries, rid, at, n);
        let pair = now.subrange(before.len() as int, now.len() as int);
        assert(now =~= before + pair);
        assert(entries[n - 1].0 < bound);
        assert(waits_for_earlier(pair[0]));
        assert(waits_for_earlier(pair[1]));
        lemma_sound_concat(before, pair);
    }
}

} // verus!
