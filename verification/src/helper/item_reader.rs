//! The decisions of the item reader: how a read line loses its ending, and
//! when a batch of items is handed on.
use vstd::prelude::*;

verus! {

/// How many items a batch holds at most.
pub const ITEMS_BUFFER_SIZE: usize = 128;

/// A line as read, without its ending: a trailing `\r\n` goes whatever the
/// line ending is, else a trailing line ending.
pub open spec fn spec_trim_line_ending(b: Seq<u8>, line_ending: u8) -> Seq<u8> {
    if b.len() >= 2 && b[b.len() - 2] == 13u8 && b[b.len() - 1] == 10u8 {
        b.take(b.len() - 2)
    } else if b.len() >= 1 && b[b.len() - 1] == line_ending {
        b.take(b.len() - 1)
    } else {
        b
    }
}

/// Strips the ending of a line read up to and including `line_ending`.
pub fn trim_line_ending(buffer: &mut Vec<u8>, line_ending: u8)
    ensures
        final(buffer)@ == spec_trim_line_ending(old(buffer)@, line_ending),
{
    let n = buffer.len();
    if n >= 2 && buffer[n - 2] == 13u8 && buffer[n - 1] == 10u8 {
        buffer.pop();
        buffer.pop();
        proof {
            assert(buffer@ =~= old(buffer)@.take(n - 2));
        }
    } else if n >= 1 && buffer[n - 1] == line_ending {
        buffer.pop();
        proof {
            assert(buffer@ =~= old(buffer)@.take(n - 1));
        }
    }
}

/// Whether the pending items go out now: when a batch is full, or when
/// there are some and the send timeout has passed since the last batch.
pub fn should_send(pending: usize, timed_out: bool) -> (r: bool)
    ensures
        r == (pending == ITEMS_BUFFER_SIZE || (pending > 0 && timed_out)),
{
    pending == ITEMS_BUFFER_SIZE || (pending > 0 && timed_out)
}

} // verus!
