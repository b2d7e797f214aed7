//! Many agents on one map: a model of all interleavings, and what holds in
//! every one of them.
//!
//! The bytes of the file are shared. An agent is a thread or a process that
//! marks chunks; it moves from phase to phase in atomic steps, taking the
//! decisions of the `handshake` module. Between the steps of one agent, any
//! number of steps of others may happen, and an agent may stop for good at any
//! point.

use vstd::prelude::*;

use crate::bitmap::{
    bit_is_set, byte_offset, chunk_mask, clear_count, lemma_byte_offset_in_file,
    lemma_clear_count_update, lemma_clear_count_zero, lemma_set_bit, ready_bits,
};
use crate::byte_order::{lemma_with_u32_at, u32_at, with_u32_at, ByteOrder};
use crate::handshake::{exchange_step, load_step, ExchangeStep, LoadStep};
use crate::header::NOT_READY_COUNT_OFFSET;
use crate::map_laws::{law_marks_add_up, marked_all};
use crate::persist_map::{image_consistent, image_fault, wrapping_dec};

verus! {

/// Where an agent is in marking a chunk.
pub enum Phase {
    /// It marks no chunk.
    Idle,
    /// It is about to load the byte of the chunk.
    Loading { index: int },
    /// It has loaded `current` and is about to exchange it.
    Loaded { index: int, current: u8 },
    /// It has set the bit and is about to count the chunk down.
    Counting { index: int },
}

/// A shared map and the agents that work on it.
pub struct Sharing {
    pub image: Seq<u8>,
    pub chunk_count: u32,
    pub order: ByteOrder,
    pub agents: Seq<Phase>,
}

impl Sharing {
    /// For each chunk whether it is ready.
    pub open spec fn ready(self) -> Seq<bool> {
        ready_bits(self.image, self.chunk_count as int)
    }

    /// The count of chunks that are not ready, as the header has it.
    pub open spec fn not_ready_count(self) -> u32 {
        u32_at(self.image, NOT_READY_COUNT_OFFSET as int, self.order)
    }

    /// For each agent whether it owes no count-down.
    pub open spec fn settled(self) -> Seq<bool> {
        self.agents.map_values(|phase: Phase| !(phase is Counting))
    }

    /// This map with agent `a` in another phase.
    pub open spec fn with_phase(self, a: int, phase: Phase) -> Sharing {
        Sharing { agents: self.agents.update(a, phase), ..self }
    }

    /// This map with another content of the file.
    pub open spec fn with_image(self, image: Seq<u8>) -> Sharing {
        Sharing { image, ..self }
    }

    /// What holds of an agent in `phase`: it works on a chunk of the map; the
    /// bit that it is about to set was clear when it looked, and since then bits
    /// of that byte were set only; the chunk that it is about to count down is
    /// ready.
    pub open spec fn phase_inv(self, phase: Phase) -> bool {
        match phase {
            Phase::Idle => true,
            Phase::Loading { index } => 0 <= index < self.chunk_count,
            Phase::Loaded { index, current } => {
                &&& 0 <= index < self.chunk_count
                &&& !bit_is_set(current, index)
                &&& current & self.image[byte_offset(index)] == current
            },
            Phase::Counting { index } => 0 <= index < self.chunk_count && self.ready()[index],
        }
    }

    /// What holds in every state: the file is a valid map, and its count is the
    /// number of chunks that are not ready and of count-downs that are owed.
    pub open spec fn inv(self) -> bool {
        &&& image_fault(self.image, self.chunk_count, self.order) is None
        &&& self.not_ready_count() == clear_count(self.ready()) + clear_count(self.settled())
        &&& forall|a: int|
            0 <= a < self.agents.len() ==> self.phase_inv(#[trigger] self.agents[a])
    }
}

/// Agent `a` takes up the marking of chunk `index`.
pub open spec fn begins(s: Sharing, t: Sharing, a: int, index: int) -> bool {
    &&& s.agents[a] == Phase::Idle
    &&& 0 <= index < s.chunk_count
    &&& t == s.with_phase(a, Phase::Loading { index })
}

/// Agent `a` loads the byte of its chunk.
pub open spec fn loads(s: Sharing, t: Sharing, a: int) -> bool {
    s.agents[a] matches Phase::Loading { index } && {
        let current = s.image[byte_offset(index)];
        t == s.with_phase(
            a,
            match load_step(current, index) {
                LoadStep::Done => Phase::Idle,
                LoadStep::Exchange { .. } => Phase::Loaded { index, current },
            },
        )
    }
}

/// Agent `a` tries to exchange the byte of its chunk.
pub open spec fn exchanges(s: Sharing, t: Sharing, a: int) -> bool {
    s.agents[a] matches Phase::Loaded { index, current } && (load_step(
        current,
        index,
    ) matches LoadStep::Exchange { next } && {
        let at = byte_offset(index);
        let exchanged = s.image[at] == current;
        t == s.with_image(
            if exchanged {
                s.image.update(at, next)
            } else {
                s.image
            },
        ).with_phase(
            a,
            match exchange_step(exchanged) {
                ExchangeStep::CountDown => Phase::Counting { index },
                ExchangeStep::Reload => Phase::Loading { index },
            },
        )
    })
}

/// Agent `a` counts its chunk down.
pub open spec fn counts_down(s: Sharing, t: Sharing, a: int) -> bool {
    s.agents[a] is Counting && t == s.with_image(
        with_u32_at(
            s.image,
            NOT_READY_COUNT_OFFSET as int,
            wrapping_dec(s.not_ready_count()),
            s.order,
        ),
    ).with_phase(a, Phase::Idle)
}

/// Some agent takes one step.
pub open spec fn steps(s: Sharing, t: Sharing) -> bool {
    exists|a: int, index: int| #[trigger]
        agent_steps(s, t, a, index)
}

/// Agent `a` takes one step; where it takes up a chunk, that is `index`.
pub open spec fn agent_steps(s: Sharing, t: Sharing, a: int, index: int) -> bool {
    &&& 0 <= a < s.agents.len()
    &&& begins(s, t, a, index) || loads(s, t, a) || exchanges(s, t, a) || counts_down(s, t, a)
}

/// A run: each state follows from the one before by a step of some agent.
pub open spec fn is_run(run: Seq<Sharing>) -> bool {
    forall|k: int| #![trigger run[k]] 0 < k < run.len() ==> steps(run[k - 1], run[k])
}

/// Where the count of a map agrees with its bitmap and no agent is at work, the
/// invariant holds: so it does for a fresh map.
pub proof fn law_sharing_starts_well(s: Sharing)
    requires
        image_fault(s.image, s.chunk_count, s.order) is None,
        image_consistent(s.image, s.chunk_count, s.order),
        forall|a: int| 0 <= a < s.agents.len() ==> #[trigger] s.agents[a] is Idle,
    ensures
        s.inv(),
{
    assert forall|a: int| 0 <= a < s.settled().len() implies s.settled()[a] by {
        assert(s.agents[a] is Idle);
    }
    lemma_clear_count_zero(s.settled());
}

/// Every step of every agent keeps the invariant, and no step makes a chunk
/// that is ready unready.
pub proof fn law_steps_keep_invariant(s: Sharing, t: Sharing)
    requires
        s.inv(),
        steps(s, t),
    ensures
        t.inv(),
        t.chunk_count == s.chunk_count,
        t.order == s.order,
        t.agents.len() == s.agents.len(),
        forall|i: int| 0 <= i < s.chunk_count && s.ready()[i] ==> #[trigger] t.ready()[i],
{
    let (a, index) = choose|a: int, index: int| #[trigger] agent_steps(s, t, a, index);
    assert(agent_steps(s, t, a, index));
    assert(s.settled()[a] == !(s.agents[a] is Counting));
    lemma_clear_count_update(s.settled(), a, !(t.agents[a] is Counting));
    assert(t.settled() =~= s.settled().update(a, !(t.agents[a] is Counting)));
    if exchanges(s, t, a) {
        lemma_exchange(s, t, a);
    } else if counts_down(s, t, a) {
        lemma_count_down(s, t, a);
    } else {
        assert(t.image == s.image);
        assert(t.ready() == s.ready());
        if loads(s, t, a) {
            let current = s.image[byte_offset(s.agents[a]->Loading_index)];
            assert(current & current == current) by (bit_vector);
        }
        assert forall|b: int| 0 <= b < t.agents.len() implies t.phase_inv(
            #[trigger] t.agents[b],
        ) by {
            assert(s.phase_inv(s.agents[b]));
        }
    }
}

proof fn lemma_exchange(s: Sharing, t: Sharing, a: int)
    requires
        s.inv(),
        0 <= a < s.agents.len(),
        exchanges(s, t, a),
        clear_count(t.settled()) == clear_count(s.settled()) + if t.agents[a] is Counting {
            1int
        } else {
            0int
        },
    ensures
        t.inv(),
        forall|i: int| 0 <= i < s.chunk_count && s.ready()[i] ==> #[trigger] t.ready()[i],
{
    let index = s.agents[a]->Loaded_index;
    let current = s.agents[a]->current;
    let at = byte_offset(index);
    assert(s.phase_inv(s.agents[a]));
    lemma_byte_offset_in_file(index, s.chunk_count as int);
    if s.image[at] == current {
        assert(!s.ready()[index]);
        assert forall|i: int| 0 <= i < s.chunk_count implies t.ready()[i] == s.ready().update(
            index,
            true,
        )[i] by {
            lemma_set_bit(current, index, i);
            if byte_offset(i) == at && i != index {
                assert(i % 8 != index % 8);
            }
        }
        assert(t.ready() =~= s.ready().update(index, true));
        lemma_clear_count_update(s.ready(), index, true);
        assert forall|b: int| 0 <= b < t.agents.len() implies t.phase_inv(
            #[trigger] t.agents[b],
        ) by {
            assert(s.phase_inv(s.agents[b]));
            if b != a && s.agents[b] is Loaded {
                let (seen, mask) = (s.agents[b]->current, chunk_mask(index));
                let other = s.agents[b]->Loaded_index;
                lemma_byte_offset_in_file(other, s.chunk_count as int);
                if byte_offset(other) == at {
                    assert(seen & (current | mask) == seen) by (bit_vector)
                        requires
                            seen & current == seen,
                    ;
                }
            }
        }
    } else {
        assert(t.image == s.image);
        assert forall|b: int| 0 <= b < t.agents.len() implies t.phase_inv(
            #[trigger] t.agents[b],
        ) by {
            assert(s.phase_inv(s.agents[b]));
        }
    }
}

proof fn lemma_count_down(s: Sharing, t: Sharing, a: int)
    requires
        s.inv(),
        0 <= a < s.agents.len(),
        counts_down(s, t, a),
        clear_count(t.settled()) == clear_count(s.settled()) - 1,
    ensures
        t.inv(),
        t.ready() == s.ready(),
{
    lemma_with_u32_at(
        s.image,
        NOT_READY_COUNT_OFFSET as int,
        wrapping_dec(s.not_ready_count()),
        s.order,
    );
    assert forall|i: int| 0 <= i < s.chunk_count implies t.ready()[i] == s.ready()[i] by {
        lemma_byte_offset_in_file(i, s.chunk_count as int);
    }
    assert(t.ready() =~= s.ready());
    assert forall|b: int| 0 <= b < t.agents.len() implies t.phase_inv(#[trigger] t.agents[b]) by {
        assert(s.phase_inv(s.agents[b]));
        if b != a && s.agents[b] is Loaded {
            lemma_byte_offset_in_file(s.agents[b]->Loaded_index, s.chunk_count as int);
        }
    }
}

/// An agent that is done with a chunk leaves it ready.
pub proof fn law_finished_chunk_is_ready(s: Sharing, t: Sharing, a: int, index: int)
    requires
        s.inv(),
        agent_steps(s, t, a, index),
        t.agents[a] is Idle,
    ensures
        match s.agents[a] {
            Phase::Loading { index } => t.ready()[index],
            Phase::Counting { index } => t.ready()[index],
            _ => false,
        },
{
    assert(s.phase_inv(s.agents[a]));
    assert(steps(s, t));
    law_steps_keep_invariant(s, t);
}

/// An exchange fails only where another agent has set a bit of that byte since
/// it was loaded: the byte has grown. So an agent loads a byte again at most as
/// often as a byte can grow.
pub proof fn law_retry_needs_progress_of_another(s: Sharing, t: Sharing, a: int)
    requires
        s.inv(),
        0 <= a < s.agents.len(),
        exchanges(s, t, a),
        t.agents[a] is Loading,
    ensures
        s.agents[a]->current < s.image[byte_offset(s.agents[a]->Loaded_index)],
{
    let seen = s.agents[a]->current;
    let byte = s.image[byte_offset(s.agents[a]->Loaded_index)];
    assert(s.phase_inv(s.agents[a]));
    assert(seen < byte) by (bit_vector)
        requires
            seen & byte == seen,
            seen != byte,
    ;
}

/// However the agents interleave, the map reports that all chunks are ready
/// only when every chunk is.
pub proof fn law_all_ready_is_never_reported_early(s: Sharing)
    requires
        s.inv(),
        s.not_ready_count() == 0,
    ensures
        forall|i: int| 0 <= i < s.chunk_count ==> #[trigger] s.ready()[i],
{
    lemma_clear_count_zero(s.ready());
}

/// Once every chunk is ready and no count-down is owed, the map reports it.
pub proof fn law_all_ready_is_reported_in_the_end(s: Sharing)
    requires
        s.inv(),
        forall|i: int| 0 <= i < s.chunk_count ==> #[trigger] s.ready()[i],
        forall|a: int| 0 <= a < s.agents.len() ==> !(#[trigger] s.agents[a] is Counting),
    ensures
        s.not_ready_count() == 0,
{
    lemma_clear_count_zero(s.ready());
    assert forall|a: int| 0 <= a < s.settled().len() implies s.settled()[a] by {
        assert(!(s.agents[a] is Counting));
    }
    lemma_clear_count_zero(s.settled());
}

/// When no agent is at work, the count agrees with the bitmap.
pub proof fn law_idle_map_is_consistent(s: Sharing)
    requires
        s.inv(),
        forall|a: int| 0 <= a < s.agents.len() ==> #[trigger] s.agents[a] is Idle,
    ensures
        image_consistent(s.image, s.chunk_count, s.order),
{
    assert forall|a: int| 0 <= a < s.settled().len() implies s.settled()[a] by {
        assert(s.agents[a] is Idle);
    }
    lemma_clear_count_zero(s.settled());
}

/// In every run that starts well the invariant holds throughout, and a chunk
/// that is ready once stays ready.
pub proof fn law_runs_keep_invariant(run: Seq<Sharing>, k: int)
    requires
        is_run(run),
        0 <= k < run.len(),
        run[0].inv(),
    ensures
        run[k].inv(),
        run[k].chunk_count == run[0].chunk_count,
        run[k].agents.len() == run[0].agents.len(),
        forall|i: int|
            0 <= i < run[0].chunk_count && run[0].ready()[i] ==> #[trigger] run[k].ready()[i],
    decreases k,
{
    if k > 0 {
        law_runs_keep_invariant(run, k - 1);
        assert(steps(run[k - 1], run[k]));
        law_steps_keep_invariant(run[k - 1], run[k]);
        assert forall|i: int|
            0 <= i < run[0].chunk_count && run[0].ready()[i] implies #[trigger] run[k].ready()[i] by {
            assert(run[k - 1].ready()[i]);
        }
    }
}

/// Whether some agent takes up chunk `index` in the course of a run.
pub open spec fn takes_up(run: Seq<Sharing>, index: int) -> bool {
    exists|k: int, a: int|
        0 < k < run.len() && 0 <= a < run[k - 1].agents.len() && #[trigger] begins_at(
            run,
            k,
            a,
            index,
        )
}

/// Agent `a` takes up chunk `index` in step `k` of a run.
pub open spec fn begins_at(run: Seq<Sharing>, k: int, a: int, index: int) -> bool {
    begins(run[k - 1], run[k], a, index)
}

/// Whether no agent is at work.
pub open spec fn all_idle(s: Sharing) -> bool {
    forall|a: int| 0 <= a < s.agents.len() ==> #[trigger] s.agents[a] is Idle
}

/// Whether an agent in `phase` has taken up chunk `index` and is not done yet.
pub open spec fn works_on(phase: Phase, index: int) -> bool {
    match phase {
        Phase::Idle => false,
        Phase::Loading { index: i } => i == index,
        Phase::Loaded { index: i, .. } => i == index,
        Phase::Counting { index: i } => i == index,
    }
}

/// Whether some agent is at work on chunk `index`.
pub open spec fn in_work(s: Sharing, index: int) -> bool {
    exists|a: int| 0 <= a < s.agents.len() && works_on(#[trigger] s.agents[a], index)
}

/// How many entries are `false` in `before` and `true` in `after`.
pub open spec fn newly_set(before: Seq<bool>, after: Seq<bool>) -> nat
    decreases before.len(),
{
    if before.len() == 0 {
        0
    } else {
        newly_set(before.drop_last(), after.drop_last()) + if !before.last() && after.last() {
            1nat
        } else {
            0nat
        }
    }
}

/// Where nothing is cleared, what is newly set is what is no longer clear.
proof fn lemma_newly_set(before: Seq<bool>, after: Seq<bool>)
    requires
        before.len() == after.len(),
        forall|i: int| 0 <= i < before.len() && before[i] ==> #[trigger] after[i],
    ensures
        newly_set(before, after) == clear_count(before) - clear_count(after),
    decreases before.len(),
{
    if before.len() > 0 {
        let (b, t) = (before.drop_last(), after.drop_last());
        assert forall|i: int| 0 <= i < b.len() && b[i] implies #[trigger] t[i] by {
            assert(before[i]);
            assert(after[i]);
        }
        lemma_newly_set(b, t);
        let last = before.len() - 1;
        assert(before[last] ==> after[last]);
    }
}

/// What one step does to the chunks: only one that an agent is at work on
/// becomes ready; an agent is at work only on one that it was at work on before
/// or takes up; and one that an agent was at work on is ready or still in work.
proof fn lemma_step_of_chunks(s: Sharing, t: Sharing, a: int, taken: int, i: int)
    requires
        s.inv(),
        agent_steps(s, t, a, taken),
        0 <= i < s.chunk_count,
    ensures
        t.ready()[i] ==> s.ready()[i] || in_work(s, i),
        in_work(t, i) ==> in_work(s, i) || begins(s, t, a, i),
        in_work(s, i) ==> t.ready()[i] || in_work(t, i),
{
    assert(steps(s, t));
    law_steps_keep_invariant(s, t);
    assert(s.phase_inv(s.agents[a]));
    lemma_byte_offset_in_file(i, s.chunk_count as int);
    if t.ready()[i] && !s.ready()[i] {
        if exchanges(s, t, a) {
            let index = s.agents[a]->Loaded_index;
            lemma_byte_offset_in_file(index, s.chunk_count as int);
            if index != i {
                lemma_set_bit(s.agents[a]->current, index, i);
                if byte_offset(i) == byte_offset(index) {
                    assert(i % 8 != index % 8);
                }
                assert(false);
            }
            assert(works_on(s.agents[a], i));
        } else if counts_down(s, t, a) {
            lemma_with_u32_at(
                s.image,
                NOT_READY_COUNT_OFFSET as int,
                wrapping_dec(s.not_ready_count()),
                s.order,
            );
            assert(false);
        } else {
            assert(t.image == s.image);
            assert(false);
        }
    }
    if in_work(t, i) {
        let b = choose|b: int| 0 <= b < t.agents.len() && works_on(#[trigger] t.agents[b], i);
        if b != a {
            assert(works_on(s.agents[b], i));
        } else if !begins(s, t, a, taken) {
            assert(works_on(s.agents[a], i));
        }
    }
    if in_work(s, i) {
        let b = choose|b: int| 0 <= b < s.agents.len() && works_on(#[trigger] s.agents[b], i);
        if b != a {
            assert(works_on(t.agents[b], i));
        } else if t.agents[a] is Idle {
            law_finished_chunk_is_ready(s, t, a, taken);
        } else {
            assert(works_on(t.agents[a], i));
        }
    }
}

/// In every state of a run that starts with all agents idle: a chunk that is
/// ready was so at the start or was taken up; one in work was taken up; and one
/// that was taken up is ready or in work.
proof fn lemma_run_of_chunks(run: Seq<Sharing>, k: int, i: int)
    requires
        is_run(run),
        0 <= k < run.len(),
        run[0].inv(),
        all_idle(run[0]),
        0 <= i < run[0].chunk_count,
    ensures
        run[k].ready()[i] ==> run[0].ready()[i] || takes_up(run.take(k + 1), i),
        in_work(run[k], i) ==> takes_up(run.take(k + 1), i),
        takes_up(run.take(k + 1), i) ==> run[k].ready()[i] || in_work(run[k], i),
    decreases k,
{
    let now = run.take(k + 1);
    if k == 0 {
        if in_work(run[0], i) {
            let a = choose|a: int|
                0 <= a < run[0].agents.len() && works_on(#[trigger] run[0].agents[a], i);
            assert(run[0].agents[a] is Idle);
        }
    } else {
        let before = run.take(k);
        let (s, t) = (run[k - 1], run[k]);
        lemma_run_of_chunks(run, k - 1, i);
        law_runs_keep_invariant(run, k - 1);
        assert(steps(s, t));
        let (a, taken) = choose|a: int, taken: int| #[trigger] agent_steps(s, t, a, taken);
        lemma_step_of_chunks(s, t, a, taken, i);
        law_steps_keep_invariant(s, t);
        if takes_up(before, i) {
            let (j, b) = choose|j: int, b: int|
                0 < j < before.len() && 0 <= b < before[j - 1].agents.len() && #[trigger] begins_at(
                    before,
                    j,
                    b,
                    i,
                );
            assert(begins_at(now, j, b, i));
        }
        if begins(s, t, a, i) {
            assert(begins_at(now, k, a, i));
        }
        if takes_up(now, i) && !takes_up(before, i) {
            let (j, b) = choose|j: int, b: int|
                0 < j < now.len() && 0 <= b < now[j - 1].agents.len() && #[trigger] begins_at(
                    now,
                    j,
                    b,
                    i,
                );
            if j < k {
                assert(begins_at(before, j, b, i));
            }
            assert(works_on(t.agents[b], i));
        }
    }
}

/// However the agents interleave, once all are idle again no mark is lost and
/// none is made up: the chunks that are ready are those that were ready before
/// and those that some agent took up. The count went down by exactly the number
/// of chunks that are newly ready.
pub proof fn law_interleaved_marks_add_up(run: Seq<Sharing>)
    requires
        is_run(run),
        run.len() > 0,
        run[0].inv(),
        all_idle(run[0]),
        all_idle(run.last()),
    ensures
        run.last().chunk_count == run[0].chunk_count,
        forall|i: int|
            0 <= i < run[0].chunk_count ==> (#[trigger] run.last().ready()[i] <==> run[0].ready()[i]
                || takes_up(run, i)),
        run.last().not_ready_count() == run[0].not_ready_count() - newly_set(
            run[0].ready(),
            run.last().ready(),
        ),
{
    let k = run.len() - 1;
    let (first, last) = (run[0], run.last());
    law_runs_keep_invariant(run, k);
    assert(run.take(k + 1) =~= run);
    assert forall|i: int| 0 <= i < first.chunk_count implies (#[trigger] last.ready()[i]
        <==> first.ready()[i] || takes_up(run, i)) by {
        lemma_run_of_chunks(run, k, i);
        if in_work(last, i) {
            let a = choose|a: int|
                0 <= a < last.agents.len() && works_on(#[trigger] last.agents[a], i);
            assert(last.agents[a] is Idle);
        }
        if first.ready()[i] {
            assert(run[k].ready()[i]);
        }
    }
    law_idle_map_is_consistent(first);
    law_idle_map_is_consistent(last);
    lemma_newly_set(first.ready(), last.ready());
}

/// Marking by interleaving agents comes to the same as marking the chunks that
/// they took up one after the other, in any order and however often each.
pub proof fn law_interleaving_is_like_any_order(run: Seq<Sharing>, indices: Seq<int>)
    requires
        is_run(run),
        run.len() > 0,
        run[0].inv(),
        all_idle(run[0]),
        all_idle(run.last()),
        forall|i: int| #[trigger] indices.contains(i) <==> takes_up(run, i),
    ensures
        ({
            let one_by_one = marked_all(run[0].image, run[0].order, indices);
            &&& run.last().ready() == ready_bits(one_by_one, run[0].chunk_count as int)
            &&& run.last().not_ready_count() == u32_at(
                one_by_one,
                NOT_READY_COUNT_OFFSET as int,
                run[0].order,
            )
        }),
{
    let (first, last) = (run[0], run.last());
    let one_by_one = marked_all(first.image, first.order, indices);
    law_interleaved_marks_add_up(run);
    law_runs_keep_invariant(run, run.len() - 1);
    law_idle_map_is_consistent(first);
    law_idle_map_is_consistent(last);
    assert forall|k: int| 0 <= k < indices.len() implies 0 <= #[trigger] indices[k]
        < first.chunk_count by {
        let index = indices[k];
        assert(indices.contains(index));
        let (j, a) = choose|j: int, a: int|
            0 < j < run.len() && 0 <= a < run[j - 1].agents.len() && #[trigger] begins_at(
                run,
                j,
                a,
                index,
            );
        law_runs_keep_invariant(run, j - 1);
    }
    law_marks_add_up(first.image, first.chunk_count, first.order, indices);
    assert forall|i: int| 0 <= i < first.chunk_count implies last.ready()[i] == #[trigger] ready_bits(
        one_by_one,
        first.chunk_count as int,
    )[i] by {
        assert(last.ready()[i] <==> first.ready()[i] || takes_up(run, i));
    }
    assert(last.ready() =~= ready_bits(one_by_one, first.chunk_count as int));
}

} // verus!
