//! A fixed-size worker pool, modelled as a verified state machine.
//!
//! Jobs are one-shot units of work identified by the order in which they
//! were submitted.  A pool owns a FIFO queue of pending jobs and a fixed
//! set of workers; each worker repeatedly takes the job at the head of the
//! queue, runs it, and goes back for more, until shutdown closes the queue
//! and the workers exit.  The state machine here carries the whole
//! scheduling logic — submission, dispatch, completion, worker faults and
//! graceful shutdown — and its contracts pin down the FIFO order, the
//! exactly-once delivery of every job, and the bounded parallelism that a
//! pool of a given size allows.  The threads themselves, and the channel
//! that carries the closures, live with the caller: the caller drives one
//! state-machine step for each event its threads observe.

pub mod pool;
pub mod worker;

use vstd::prelude::*;

verus! {

/// Returns the longer of two strings; the second when their lengths tie.
pub fn longest<'a>(str1: &'a String, str2: &'a String) -> (r: &'a String)
    ensures
        r@ == if str1@.len() > str2@.len() {
            str1@
        } else {
            str2@
        },
{
    if str1.as_str().unicode_len() > str2.as_str().unicode_len() {
        str1
    } else {
        str2
    }
}

} // verus!
