//! How a chunk of a shared map is marked ready.
//!
//! Any number of agents (threads or processes that map the same file) may mark
//! chunks at the same time. Each works in atomic steps on the shared bytes:
//! load the byte of the chunk, exchange it for one with the bit set if nobody
//! changed it meanwhile, then count the chunk down. This module holds the
//! decisions between those steps.

use vstd::prelude::*;

use crate::bitmap::{bit_is_set, chunk_mask, index_to_mask};

verus! {

/// What to do once the byte of a chunk has been loaded.
#[derive(Clone, Copy, Debug, PartialEq, Eq, Structural)]
pub enum LoadStep {
    /// The chunk is ready already: nothing is left to do.
    Done,
    /// Exchange the byte for `next`, provided that it still is the loaded one.
    Exchange { next: u8 },
}

/// What to do once the exchange has been tried.
#[derive(Clone, Copy, Debug, PartialEq, Eq, Structural)]
pub enum ExchangeStep {
    /// The bit was set by this agent: take one off the count of chunks that are
    /// not ready, and be done.
    CountDown,
    /// Another agent changed the byte: load it again.
    Reload,
}

/// The decision after a load.
pub open spec fn load_step(current: u8, index: int) -> LoadStep {
    if bit_is_set(current, index) {
        LoadStep::Done
    } else {
        LoadStep::Exchange { next: current | chunk_mask(index) }
    }
}

/// The decision after an exchange.
pub open spec fn exchange_step(exchanged: bool) -> ExchangeStep {
    if exchanged {
        ExchangeStep::CountDown
    } else {
        ExchangeStep::Reload
    }
}

/// Decides what follows the load of `current` as the byte of chunk `index`.
pub fn after_load(current: u8, index: u32) -> (step: LoadStep)
    ensures
        step == load_step(current, index as int),
        match step {
            LoadStep::Done => current & (0x80u8 >> ((index % 8) as u8)) != 0,
            LoadStep::Exchange { next } => current & (0x80u8 >> ((index % 8) as u8)) == 0 && next
                == current | (0x80u8 >> ((index % 8) as u8)),
        },
{
    if is_ready(current, index) {
        LoadStep::Done
    } else {
        LoadStep::Exchange { next: current | index_to_mask(index) }
    }
}

/// Decides what follows an exchange.
pub fn after_exchange(exchanged: bool) -> (step: ExchangeStep)
    ensures
        step == exchange_step(exchanged),
        exchanged ==> step is CountDown,
        !exchanged ==> step is Reload,
{
    if exchanged {
        ExchangeStep::CountDown
    } else {
        ExchangeStep::Reload
    }
}

/// Whether chunk `index` is ready, given the byte that holds its bit.
pub fn is_ready(current: u8, index: u32) -> (ready: bool)
    ensures
        ready == bit_is_set(current, index as int),
        ready == (current & (0x80u8 >> ((index % 8) as u8)) != 0),
{
    let mask: u8 = index_to_mask(index);
    proof {
        let down = (index % 8) as u8;
        assert(current & (0x80u8 >> down) == 0x80u8 >> down <==> current & (0x80u8 >> down) != 0)
            by (bit_vector)
            requires
                down < 8,
        ;
    }
    current & mask == mask
}

/// An agent that finds its bit set is done, and one that finds it clear asks for
/// the same byte with just that bit set; it counts down exactly where it set the
/// bit itself.
pub proof fn law_steps_set_and_count_one_bit(current: u8, index: int)
    requires
        0 <= index,
    ensures
        load_step(current, index) is Done <==> current & (0x80u8 >> ((index % 8) as u8)) != 0,
        load_step(current, index) matches LoadStep::Exchange { next } ==> next == current | (0x80u8
            >> ((index % 8) as u8)) && next != current,
        exchange_step(true) is CountDown,
        exchange_step(false) is Reload,
{
    let up = (7 - index % 8) as u8;
    let down = (index % 8) as u8;
    assert(1u8 << up == 0x80u8 >> down && (current & (1u8 << up) == 1u8 << up <==> current & (0x80u8
        >> down) != 0) && (current & (0x80u8 >> down) == 0 ==> current | (0x80u8 >> down) != current))
        by (bit_vector)
        requires
            up + down == 7,
    ;
}

} // verus!
