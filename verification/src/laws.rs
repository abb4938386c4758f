//! Properties of the engine that relate several operations, stated over the
//! same models that the operations' contracts use.

use vstd::prelude::*;

use crate::compatibility::{lemma_flags_clear, lemma_flags_or, Table};
use crate::events::EventModel;
use crate::model::{
    do_spec, dont_spec, process_one, process_spans, receive_spec, will_spec, wont_spec, ProcState,
};
use crate::scan::{
    lemma_finalize_shift, lemma_scan_from_ok, lemma_scan_prefix, lemma_scan_restart,
    lemma_scan_shift, scan_from, scan_init, scan_lift, scan_ok, scan_restart, scan_spans,
    span_closed, ScanState, Span,
};
use crate::telnet::op_command::{IAC, SE};
use crate::ParserModel;

verus! {

/// Asking twice to enable an option on our side emits an event at most on
/// the first call: the second call changes nothing and emits nothing.
pub proof fn lemma_enable_local_idempotent(t: Seq<u8>, option: u8)
    requires
        t.len() == 256,
    ensures
        will_spec(will_spec(t, option).0, option).0 == will_spec(t, option).0,
        will_spec(will_spec(t, option).0, option).1 is None,
{
    let e = t[option as int];
    lemma_flags_or(e, Table::LOCAL_STATE);
}

/// Asking twice to disable an option on our side emits an event at most on
/// the first call: the second call changes nothing and emits nothing.
pub proof fn lemma_disable_local_idempotent(t: Seq<u8>, option: u8)
    requires
        t.len() == 256,
    ensures
        wont_spec(wont_spec(t, option).0, option).0 == wont_spec(t, option).0,
        wont_spec(wont_spec(t, option).0, option).1 is None,
{
    let e = t[option as int];
    lemma_flags_clear(e, Table::LOCAL_STATE);
}

/// Asking the peer twice to enable an option emits an event at most on the
/// first call: the second call changes nothing and emits nothing.
pub proof fn lemma_request_remote_idempotent(t: Seq<u8>, option: u8)
    requires
        t.len() == 256,
    ensures
        do_spec(do_spec(t, option).0, option).0 == do_spec(t, option).0,
        do_spec(do_spec(t, option).0, option).1 is None,
{
    let e = t[option as int];
    lemma_flags_or(e, Table::REMOTE_STATE);
}

/// Asking the peer twice to disable an option emits an event at most on the
/// first call: the second call changes nothing and emits nothing.
pub proof fn lemma_cancel_remote_idempotent(t: Seq<u8>, option: u8)
    requires
        t.len() == 256,
    ensures
        dont_spec(dont_spec(t, option).0, option).0 == dont_spec(t, option).0,
        dont_spec(dont_spec(t, option).0, option).1 is None,
{
    let e = t[option as int];
    lemma_flags_clear(e, Table::REMOTE_STATE);
}

/// Interpreting spans appended after the first `s1.len()` positions is
/// interpreting them on their own.
proof fn lemma_process_shift(st: ProcState, d: bool, s1: Seq<Span>, s2: Seq<Span>, j: int)
    requires
        0 <= j <= s2.len(),
    ensures
        process_spans(st, d, s1 + s2, s1.len() + j) == process_spans(st, d, s2, j),
    decreases s2.len() - j,
{
    if j == s2.len() {
    } else {
        assert((s1 + s2)[s1.len() + j] == s2[j]);
        lemma_process_shift(process_one(st, d, s2[j]), d, s1, s2, j + 1);
    }
}

/// Interpreting a concatenation of span lists is interpreting the first,
/// then the second from the state the first left behind.
proof fn lemma_process_split(st: ProcState, d: bool, s1: Seq<Span>, s2: Seq<Span>, i: int)
    requires
        0 <= i <= s1.len(),
    ensures
        process_spans(st, d, s1 + s2, i) == process_spans(
            process_spans(st, d, s1, i),
            d,
            s2,
            0,
        ),
    decreases s1.len() - i,
{
    if i == s1.len() {
        lemma_process_shift(st, d, s1, s2, 0);
    } else {
        assert((s1 + s2)[i] == s1[i]);
        lemma_process_split(process_one(st, d, s1[i]), d, s1, s2, i + 1);
    }
}

/// Closed spans are never pushed back into the input buffer.
proof fn lemma_process_closed_keeps_push(st: ProcState, d: bool, s: Seq<Span>, i: int)
    requires
        0 <= i,
        forall|m: int| 0 <= m < s.len() ==> span_closed(#[trigger] s[m]),
    ensures
        process_spans(st, d, s, i).push == st.push,
    decreases s.len() - i,
{
    if i >= s.len() {
    } else {
        assert(process_one(st, d, s[i]).push == st.push);
        lemma_process_closed_keeps_push(process_one(st, d, s[i]), d, s, i + 1);
    }
}

/// The events already emitted only prefix what span interpretation emits:
/// they influence neither the new events nor the rest of the state.
proof fn lemma_process_events_prefix(
    t: Seq<u8>,
    l: Seq<u8>,
    pu: Seq<u8>,
    e0: Seq<EventModel>,
    d: bool,
    s: Seq<Span>,
    i: int,
)
    requires
        0 <= i,
    ensures
        ({
            let a = process_spans(ProcState { table: t, line: l, push: pu, events: e0 }, d, s, i);
            let b = process_spans(
                ProcState { table: t, line: l, push: pu, events: Seq::empty() },
                d,
                s,
                i,
            );
            &&& a.table == b.table
            &&& a.line == b.line
            &&& a.push == b.push
            &&& a.events == e0 + b.events
        }),
    decreases s.len() - i,
{
    let sta = ProcState { table: t, line: l, push: pu, events: e0 };
    let stb = ProcState { table: t, line: l, push: pu, events: Seq::<EventModel>::empty() };
    if i >= s.len() {
        assert(e0 + Seq::<EventModel>::empty() =~= e0);
    } else {
        let sa = process_one(sta, d, s[i]);
        let sb = process_one(stb, d, s[i]);
        assert(sa.table == sb.table && sa.line == sb.line && sa.push == sb.push && sa.events
            == e0 + sb.events) by {
            assert forall|ev: EventModel| e0.push(ev) =~= e0 + Seq::<EventModel>::empty().push(
                ev,
            ) by {}
            assert forall|ev1: EventModel, ev2: EventModel| e0.push(ev1).push(ev2) =~= e0 + Seq::<
                EventModel,
            >::empty().push(ev1).push(ev2) by {}
            assert forall|r: Seq<EventModel>| e0 + r =~= e0 + (Seq::<EventModel>::empty() + r) by {}
        };
        lemma_process_events_prefix(sa.table, sa.line, sa.push, sa.events, d, s, i + 1);
        lemma_process_events_prefix(sb.table, sb.line, sb.push, sb.events, d, s, i + 1);
        let a1 = process_spans(
            ProcState { table: sa.table, line: sa.line, push: sa.push, events: Seq::empty() },
            d,
            s,
            i + 1,
        );
        assert(sa =~= ProcState { table: sa.table, line: sa.line, push: sa.push, events: sa.events });
        assert(sb =~= ProcState { table: sb.table, line: sb.line, push: sb.push, events: sb.events });
        assert((e0 + sb.events) + a1.events =~= e0 + (sb.events + a1.events));
    }
}

/// A split position is compatible with fragmentation when the prefix scan
/// ends exactly between protocol units, or inside a subnegotiation whose
/// residue does not yet look terminated.
pub open spec fn split_ok(x: Seq<u8>, k: int) -> bool {
    let m = scan_from(x.take(k), 0, scan_init());
    &&& 0 <= k <= x.len()
    &&& !m.halted
    &&& match m.state {
        ScanState::Normal => m.begin == k,
        ScanState::Sub | ScanState::SubOpt { .. } | ScanState::SubIac { .. } => {
            let r = x.take(k).subrange(m.begin, k);
            !(r.len() >= 2 && r[r.len() - 2] == IAC && r[r.len() - 1] == SE)
        },
        _ => false,
    }
}

/// Fragmentation invariance: feeding a byte sequence in one call produces
/// the same events and the same final state as feeding it split at a
/// compatible position, starting from a parser with an empty input buffer.
/// Splits inside a plain-data run or inside a 2- or 3-byte command change
/// how data is grouped into events and are not compatible; neither is a
/// scan that stops at a compression announcement, which is call-boundary
/// sensitive by design.
pub proof fn lemma_fragmentation_invariance(p: ParserModel, x: Seq<u8>, k: int)
    requires
        p.buffer.len() == 0,
        split_ok(x, k),
        !scan_from(x, 0, scan_init()).halted,
    ensures
        ({
            let whole = receive_spec(p, x);
            let first = receive_spec(p, x.take(k));
            let second = receive_spec(first.0, x.skip(k));
            &&& whole.1 == first.1 + second.1
            &&& whole.0 == second.0
        }),
{
    let x1 = x.take(k);
    let x2 = x.skip(k);
    let init = scan_init();
    let m = scan_from(x1, 0, init);
    let d = p.deframe;
    let whole = receive_spec(p, x);
    let first = receive_spec(p, x1);
    assert(x1.len() == k);
    assert(x1 + x2 =~= x);
    assert(p.buffer + x =~= x);
    assert(p.buffer + x1 =~= x1);

    assert(scan_ok(x1, 0, init));
    lemma_scan_from_ok(x1, 0, init);
    lemma_scan_prefix(x1, x2, 0, init);
    assert(scan_from(x, 0, init) == scan_from(x, k, m));

    let i0 = ProcState { table: p.table, line: p.line, push: Seq::empty(), events: Seq::empty() };
    let st_w = process_spans(i0, d, scan_spans(x), 0);

    if m.state is Normal {
        // The cut lies exactly between two protocol units.
        let f2 = scan_from(x2, 0, init);
        assert(m =~= scan_lift(k, m.spans, init)) by {
            assert(m.spans + Seq::<Span>::empty() =~= m.spans);
        };
        lemma_scan_shift(x1, x2, 0, init, m.spans);
        assert(scan_from(x, k, m) == scan_lift(k, m.spans, f2));

        assert(scan_spans(x1) == m.spans);
        assert(scan_ok(x2, 0, init));
        lemma_scan_from_ok(x2, 0, init);
        lemma_finalize_shift(x1, x2, m.spans, f2);
        assert(scan_spans(x) == m.spans + scan_spans(x2));

        lemma_process_split(i0, d, m.spans, scan_spans(x2), 0);
        let st_1 = process_spans(i0, d, m.spans, 0);
        assert(st_w == process_spans(st_1, d, scan_spans(x2), 0));
        lemma_process_closed_keeps_push(i0, d, m.spans, 0);
        assert(st_1.push =~= Seq::<u8>::empty());
        assert(first.0.buffer + x2 =~= x2);

        let i1 = ProcState {
            table: st_1.table,
            line: st_1.line,
            push: Seq::empty(),
            events: Seq::empty(),
        };
        lemma_process_events_prefix(st_1.table, st_1.line, st_1.push, st_1.events, d, scan_spans(x2), 0);
        assert(st_1 =~= ProcState {
            table: st_1.table,
            line: st_1.line,
            push: st_1.push,
            events: st_1.events,
        });
        assert(ProcState {
            table: st_1.table,
            line: st_1.line,
            push: st_1.push,
            events: Seq::<EventModel>::empty(),
        } =~= i1);

        let second = receive_spec(first.0, x2);
        assert(whole.1 == first.1 + second.1);
        assert(whole.0 == second.0);
    } else {
        // The cut lies inside a subnegotiation: its bytes so far are
        // deferred by the first call and rescanned by the second.
        let b = m.begin;
        assert(scan_ok(x1, k, m));
        let r = x1.skip(b);
        assert(r =~= x1.subrange(b, k));
        assert(b < k);

        assert(scan_restart(init) =~= init);
        lemma_scan_restart(x1, 0, init);
        assert(scan_from(x1, b, scan_restart(m)) == m);

        assert(x1.take(b) + r =~= x1);
        assert(x1.take(b).len() == b);
        lemma_scan_shift(x1.take(b), r, 0, init, m.spans);
        assert(scan_lift(b, m.spans, init) =~= scan_restart(m)) by {
            assert(m.spans + Seq::<Span>::empty() =~= m.spans);
        };
        let rb = scan_from(r, 0, init);
        assert(scan_lift(b, m.spans, rb) == m);
        assert(rb.begin == 0);
        assert(rb.state == m.state);
        assert(!rb.halted);
        assert(rb.spans =~= Seq::<Span>::empty()) by {
            assert((m.spans + rb.spans).len() == m.spans.len());
        };

        let rsp = Span::Sub { bytes: x1.subrange(b, k), rest: None };
        assert(scan_spans(x1) == m.spans.push(rsp));
        assert(m.spans.push(rsp) =~= m.spans + seq![rsp]);
        lemma_process_split(i0, d, m.spans, seq![rsp], 0);
        let j_st = process_spans(i0, d, m.spans, 0);
        lemma_process_closed_keeps_push(i0, d, m.spans, 0);
        let st_1 = process_spans(i0, d, scan_spans(x1), 0);
        assert(st_1 == process_spans(j_st, d, seq![rsp], 0));
        let bytes = x1.subrange(b, k);
        assert(!(bytes.len() >= 2 && bytes[bytes.len() - 2] == IAC && bytes[bytes.len() - 1]
            == SE));
        let po = process_one(j_st, d, rsp);
        assert(seq![rsp][0] == rsp);
        assert(process_spans(j_st, d, seq![rsp], 0) == process_spans(po, d, seq![rsp], 1));
        assert(process_spans(po, d, seq![rsp], 1) == po);
        assert(po == ProcState {
            table: j_st.table,
            line: j_st.line,
            push: j_st.push + bytes,
            events: j_st.events,
        });
        assert(st_1.push =~= bytes) by {
            assert(Seq::<u8>::empty() + bytes =~= bytes);
        };
        assert(st_1.table == j_st.table && st_1.line == j_st.line && st_1.events == j_st.events);

        let xb2 = x.skip(b);
        assert(first.0.buffer == st_1.push);
        assert(st_1.push + x2 =~= xb2);
        lemma_scan_prefix(r, x2, 0, init);
        assert(r + x2 =~= xb2);
        assert(r.len() == k - b);
        let g = scan_from(xb2, k - b, rb);
        assert(scan_from(xb2, 0, init) == g);

        assert(x.take(b) =~= x1.take(b));
        assert(x.take(b) + xb2 =~= x);
        lemma_scan_shift(x.take(b), xb2, k - b, rb, m.spans);
        assert(scan_from(x, k, m) == scan_lift(b, m.spans, g));

        assert(scan_ok(xb2, k - b, rb)) by {
            if m.state matches ScanState::SubIac { .. } {
                assert(xb2[k - b - 1] == x1[k - 1]);
            }
        };
        lemma_scan_from_ok(xb2, k - b, rb);
        assert(0 <= g.begin);
        lemma_finalize_shift(x.take(b), xb2, m.spans, g);
        assert(scan_spans(x) == m.spans + scan_spans(xb2));

        lemma_process_split(i0, d, m.spans, scan_spans(xb2), 0);
        assert(st_w == process_spans(j_st, d, scan_spans(xb2), 0));
        let i1 = ProcState {
            table: st_1.table,
            line: st_1.line,
            push: Seq::empty(),
            events: Seq::empty(),
        };
        lemma_process_events_prefix(j_st.table, j_st.line, j_st.push, j_st.events, d, scan_spans(xb2), 0);
        assert(j_st =~= ProcState {
            table: j_st.table,
            line: j_st.line,
            push: j_st.push,
            events: j_st.events,
        });
        assert(ProcState {
            table: j_st.table,
            line: j_st.line,
            push: j_st.push,
            events: Seq::<EventModel>::empty(),
        } =~= i1) by {
            assert(j_st.push =~= Seq::<u8>::empty());
        };

        let second = receive_spec(first.0, x2);
        assert(whole.1 == first.1 + second.1);
        assert(whole.0 == second.0);
    }
}

} // verus!
