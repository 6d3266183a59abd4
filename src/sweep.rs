//! Accounting of one measured construction: the allocation events that move
//! the counter, and the overhead left once the payload is taken away.
use vstd::prelude::*;
use crate::tracker::Tracker;

verus! {

/// One event seen by the counting allocator.
#[derive(Clone, Copy, Debug, PartialEq, Eq)]
pub enum AllocEvent {
    /// A block of the given size was allocated.
    Alloc(usize),
    /// A block of the given size was freed.
    Dealloc(usize),
    /// A block was resized from the first size to the second.
    Realloc(usize, usize),
}

/// What one event does to the counter.
pub open spec fn event_delta(e: AllocEvent) -> int {
    match e {
        AllocEvent::Alloc(s) => s as int,
        AllocEvent::Dealloc(s) => -(s as int),
        AllocEvent::Realloc(old_size, new_size) => new_size - old_size,
    }
}

/// The counter after the events, applied one at a time, starting from `c`.
/// A resize takes the old size away first and then adds the new one.
pub open spec fn counter_after(c: int, es: Seq<AllocEvent>) -> int
    decreases es.len(),
{
    if es.len() == 0 {
        c
    } else {
        let c1 = match es[0] {
            AllocEvent::Alloc(s) => c + s,
            AllocEvent::Dealloc(s) => c - s,
            AllocEvent::Realloc(old_size, new_size) => (c - old_size) + new_size,
        };
        counter_after(c1, es.drop_first())
    }
}

/// Net growth of the heap over the events.
pub open spec fn net_growth(es: Seq<AllocEvent>) -> int
    decreases es.len(),
{
    if es.len() == 0 {
        0
    } else {
        event_delta(es[0]) + net_growth(es.drop_first())
    }
}

/// Why a measurement gives no overhead.
#[derive(Clone, Copy, Debug, PartialEq, Eq)]
pub enum OverheadError {
    /// The second reading is below the first.
    CounterWentBack,
    /// Fewer bytes were measured than the payload alone takes.
    BelowPayload,
}

/// The outcome of a measurement whose readings were `before` and `after`,
/// for `len` entries of `el_size` payload bytes each.
pub open spec fn overhead_spec(before: int, after: int, len: int, el_size: int) -> Result<
    usize,
    OverheadError,
> {
    if after < before {
        Err(OverheadError::CounterWentBack)
    } else if after - before < len * el_size {
        Err(OverheadError::BelowPayload)
    } else {
        Ok((after - before - len * el_size) as usize)
    }
}

/// Overhead of a construction: the bytes measured between the readings
/// `before` and `after`, less `len` entries of `el_size` bytes. A shortfall is
/// reported, never wrapped.
pub fn overhead(before: usize, after: usize, len: usize, el_size: usize) -> (r: Result<
    usize,
    OverheadError,
>)
    ensures
        r == overhead_spec(before as int, after as int, len as int, el_size as int),
{
    if after < before {
        return Err(OverheadError::CounterWentBack);
    }
    let bytes: usize = after - before;
    match len.checked_mul(el_size) {
        None => {
            proof {
                assert(len * el_size > usize::MAX);
            }
            Err(OverheadError::BelowPayload)
        },
        Some(payload) => {
            if bytes < payload {
                Err(OverheadError::BelowPayload)
            } else {
                Ok(bytes - payload)
            }
        },
    }
}

/// One step of a sweep as the tracker sees it: `counter_before` and
/// `counter_after` are the counter readings taken right before and right
/// after the construction, each read through `tracker` as a signed growth
/// since its baseline, and the difference of those two is what the
/// construction cost. Readings below the baseline are as good as any.
pub fn measure_overhead(
    tracker: &Tracker,
    counter_before: usize,
    counter_after: usize,
    len: usize,
    el_size: usize,
) -> (r: Result<usize, OverheadError>)
    ensures
        r == overhead_spec(counter_before as int, counter_after as int, len as int, el_size as int),
{
    let before = tracker.allocated(counter_before);
    let after = tracker.allocated(counter_after);
    if after < before {
        return Err(OverheadError::CounterWentBack);
    }
    let bytes = (after - before) as usize;
    overhead(0, bytes, len, el_size)
}

/// The counter moves by the net growth of the events, whatever it started at.
pub proof fn lemma_counter_moves_by_net_growth(c: int, es: Seq<AllocEvent>)
    ensures
        counter_after(c, es) == c + net_growth(es),
    decreases es.len(),
{
    if es.len() > 0 {
        let c1 = match es[0] {
            AllocEvent::Alloc(s) => c + s,
            AllocEvent::Dealloc(s) => c - s,
            AllocEvent::Realloc(old_size, new_size) => (c - old_size) + new_size,
        };
        lemma_counter_moves_by_net_growth(c1, es.drop_first());
    }
}

/// A measurement depends on the events between its two readings alone: from
/// any starting value and after any unrelated events `outside`, reading the
/// counter before and after the events `inside` gives as overhead the net
/// growth of `inside` less the payload of `len` entries of `el_size` bytes.
pub proof fn overhead_counts_only_bracketed(
    start: int,
    outside: Seq<AllocEvent>,
    inside: Seq<AllocEvent>,
    len: nat,
    el_size: nat,
)
    ensures
        ({
            let before = counter_after(start, outside);
            let after = counter_after(before, inside);
            &&& after - before == net_growth(inside)
            &&& overhead_spec(before, after, len as int, el_size as int) == overhead_spec(
                0,
                net_growth(inside),
                len as int,
                el_size as int,
            )
            &&& net_growth(inside) >= len * el_size ==> overhead_spec(
                before,
                after,
                len as int,
                el_size as int,
            ) == Ok::<usize, OverheadError>((net_growth(inside) - len * el_size) as usize)
        }),
{
    let before = counter_after(start, outside);
    lemma_counter_moves_by_net_growth(before, inside);
    assert(len * el_size >= 0) by (nonlinear_arith);
}

} // verus!
