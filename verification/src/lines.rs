//! The line deframer: drains every complete line out of the
//! line-accumulation buffer, accepting both 2-byte terminators.

use vstd::prelude::*;

use crate::events::{models, Event, EventModel};
use crate::scan::copy_range;

verus! {

/// Carriage return.
pub const CR: u8 = 13;

/// Line feed.
pub const LF: u8 = 10;

/// An accepted 2-byte line terminator starts at position `i`: either the
/// proper telnet end-of-line, or its reversal as sent by a known
/// non-conformant peer.
pub open spec fn is_eol_at(s: Seq<u8>, i: int) -> bool {
    0 <= i && i + 2 <= s.len() && ((s[i] == CR && s[i + 1] == LF) || (s[i] == LF && s[i + 1]
        == CR))
}

/// The position of the first accepted terminator at or after `i`, if any.
pub open spec fn find_eol_from(s: Seq<u8>, i: int) -> Option<int>
    decreases s.len() - i,
{
    if i + 2 > s.len() {
        None
    } else if is_eol_at(s, i) {
        Some(i)
    } else {
        find_eol_from(s, i + 1)
    }
}

/// Whatever `find_eol_from` returns lies at or after its start and leaves
/// room for the 2-byte terminator.
pub proof fn lemma_find_eol_bounds(s: Seq<u8>, i: int)
    ensures
        find_eol_from(s, i) matches Some(j) ==> i <= j && is_eol_at(s, j),
    decreases s.len() - i,
{
    if i + 2 > s.len() {
    } else if is_eol_at(s, i) {
    } else {
        lemma_find_eol_bounds(s, i + 1);
    }
}

/// Every complete line currently in the buffer, in order, as line events
/// with the terminator stripped, together with the leftover bytes.
pub open spec fn deframe_seq(s: Seq<u8>) -> (Seq<EventModel>, Seq<u8>)
    decreases s.len(),
        via deframe_seq_dec
{
    match find_eol_from(s, 0) {
        None => (Seq::empty(), s),
        Some(j) => {
            let r = deframe_seq(s.subrange(j + 2, s.len() as int));
            (seq![EventModel::LineReceive { data: s.subrange(0, j) }] + r.0, r.1)
        },
    }
}

#[via_fn]
proof fn deframe_seq_dec(s: Seq<u8>) {
    lemma_find_eol_bounds(s, 0);
}

/// Drain every complete line out of the buffer, leaving the bytes after the
/// last terminator in place.
pub(crate) fn deframe_buffer(lb: &mut Vec<u8>) -> (events: Vec<Event>)
    ensures
        models(events@) == deframe_seq(old(lb)@).0,
        final(lb)@ == deframe_seq(old(lb)@).1,
{
    let mut events: Vec<Event> = Vec::new();
    let mut done = false;
    proof {
        assert(models(events@) + deframe_seq(lb@).0 =~= deframe_seq(lb@).0);
    }
    while !done
        invariant
            deframe_seq(old(lb)@).0 == models(events@) + deframe_seq(lb@).0,
            deframe_seq(old(lb)@).1 == deframe_seq(lb@).1,
            done ==> find_eol_from(lb@, 0) is None,
        decreases lb@.len(), (if done { 0int } else { 1int }),
    {
        // Look for the first terminator currently buffered.
        let mut j: usize = 0;
        let mut found = false;
        while !found && j < lb.len() && j + 1 < lb.len()
            invariant
                j <= lb@.len(),
                found ==> j + 2 <= lb@.len(),
                find_eol_from(lb@, 0) == (if found {
                    Some(j as int)
                } else {
                    find_eol_from(lb@, j as int)
                }),
            decreases lb@.len() - j, (if found { 0int } else { 1int }),
        {
            let a = lb[j];
            let b = lb[j + 1];
            if (a == CR && b == LF) || (a == LF && b == CR) {
                found = true;
            } else {
                j = j + 1;
            }
        }
        if found {
            let ghost pre = lb@;
            let ghost evs_pre = events@;
            let n = lb.len();
            let line = copy_range(lb, 0, j);
            let rest = copy_range(lb, j + 2, n);
            *lb = rest;
            events.push(Event::LineReceive(line));
            proof {
                let lr = EventModel::LineReceive { data: pre.subrange(0, j as int) };
                let r = deframe_seq(pre.subrange(j + 2, pre.len() as int));
                assert(deframe_seq(pre).0 == seq![lr] + r.0);
                assert(models(events@) =~= models(evs_pre) + seq![lr]);
                assert(models(evs_pre) + (seq![lr] + r.0) =~= (models(evs_pre) + seq![lr]) + r.0);
            }
        } else {
            done = true;
        }
    }
    proof {
        assert(models(events@) + deframe_seq(lb@).0 =~= models(events@));
    }
    events
}

} // verus!
