//! The stream classifier: a six-state machine that partitions the unparsed
//! input buffer into typed sub-spans (plain data and command spans in one
//! group, subnegotiation blocks in the other), without interpreting them.

use vstd::prelude::*;

use crate::telnet::op_command::{EOR, GA, IAC, NOP, SB, SE};
use crate::telnet::op_option::{MCCP2, MCCP3};

verus! {

/// The classifier's scanning state.
#[derive(Clone, Copy, Debug)]
pub enum ScanState {
    /// Plain data.
    Normal,
    /// Saw the command introducer.
    Iac,
    /// Saw a negotiation command; the next byte is its option code.
    Neg,
    /// Saw the subnegotiation-start byte; the next byte is the option code.
    Sub,
    /// Inside a subnegotiation body for the given option.
    SubOpt { opt: u8 },
    /// Inside a subnegotiation body, right after an introducer byte.
    SubIac { opt: u8 },
}

/// A classified sub-span of the scanned buffer. Plain spans carry data,
/// 2-byte commands and 3-byte negotiations alike; their first bytes tell
/// them apart. A subnegotiation span may carry the bytes that trailed a
/// compression announcement.
#[verifier::ext_equal]
pub enum Span {
    Plain { bytes: Seq<u8> },
    Sub { bytes: Seq<u8>, rest: Option<Seq<u8>> },
}

/// The scanner's whole state: current scan state, start of the span being
/// built, spans finished so far, and whether a compression announcement
/// stopped the scan.
#[verifier::ext_equal]
pub struct ScanAcc {
    pub state: ScanState,
    pub begin: int,
    pub spans: Seq<Span>,
    pub halted: bool,
}

/// The scanner's state before the first byte.
pub open spec fn scan_init() -> ScanAcc {
    ScanAcc { state: ScanState::Normal, begin: 0, spans: Seq::empty(), halted: false }
}

/// One step of the classifier on byte `i` of the buffer.
pub open spec fn scan_step(buf: Seq<u8>, i: int, acc: ScanAcc) -> ScanAcc {
    let val = buf[i];
    match acc.state {
        ScanState::Normal => {
            if val == IAC {
                let spans = if acc.begin != i {
                    acc.spans.push(Span::Plain { bytes: buf.subrange(acc.begin, i) })
                } else {
                    acc.spans
                };
                ScanAcc { state: ScanState::Iac, begin: i, spans, halted: acc.halted }
            } else {
                acc
            }
        },
        ScanState::Iac => {
            if val == IAC {
                // A doubled introducer outside a subnegotiation is dropped.
                ScanAcc { state: ScanState::Normal, begin: acc.begin, spans: acc.spans, halted: acc.halted }
            } else if val == GA || val == EOR || val == NOP {
                ScanAcc {
                    state: ScanState::Normal,
                    begin: i + 1,
                    spans: acc.spans.push(Span::Plain { bytes: buf.subrange(acc.begin, i + 1) }),
                    halted: acc.halted,
                }
            } else if val == SB {
                ScanAcc { state: ScanState::Sub, begin: acc.begin, spans: acc.spans, halted: acc.halted }
            } else {
                ScanAcc { state: ScanState::Neg, begin: acc.begin, spans: acc.spans, halted: acc.halted }
            }
        },
        ScanState::Neg => ScanAcc {
            state: ScanState::Normal,
            begin: i + 1,
            spans: acc.spans.push(Span::Plain { bytes: buf.subrange(acc.begin, i + 1) }),
            halted: acc.halted,
        },
        ScanState::Sub => ScanAcc {
            state: ScanState::SubOpt { opt: val },
            begin: acc.begin,
            spans: acc.spans,
            halted: acc.halted,
        },
        ScanState::SubOpt { opt } => {
            if val == IAC {
                ScanAcc { state: ScanState::SubIac { opt }, begin: acc.begin, spans: acc.spans, halted: acc.halted }
            } else {
                acc
            }
        },
        ScanState::SubIac { opt } => {
            if val == IAC {
                ScanAcc { state: ScanState::SubIac { opt }, begin: acc.begin, spans: acc.spans, halted: acc.halted }
            } else if val == SE && (opt == MCCP2 || opt == MCCP3) {
                // A compression announcement: everything after the
                // terminator is split off undecoded and scanning stops.
                ScanAcc {
                    state: acc.state,
                    begin: buf.len() as int,
                    spans: acc.spans.push(
                        Span::Sub {
                            bytes: buf.subrange(acc.begin, i + 1),
                            rest: Some(buf.subrange(i + 1, buf.len() as int)),
                        },
                    ),
                    halted: true,
                }
            } else if val == SE {
                ScanAcc {
                    state: ScanState::Normal,
                    begin: i + 1,
                    spans: acc.spans.push(
                        Span::Sub { bytes: buf.subrange(acc.begin, i + 1), rest: None },
                    ),
                    halted: acc.halted,
                }
            } else {
                ScanAcc { state: ScanState::SubOpt { opt }, begin: acc.begin, spans: acc.spans, halted: acc.halted }
            }
        },
    }
}

/// Run the classifier from byte `i` to the end of the buffer, or to the
/// point where a compression announcement stops it.
pub open spec fn scan_from(buf: Seq<u8>, i: int, acc: ScanAcc) -> ScanAcc
    decreases buf.len() - i,
{
    if i < 0 || i >= buf.len() || acc.halted {
        acc
    } else {
        scan_from(buf, i + 1, scan_step(buf, i, acc))
    }
}

/// Close the scan: an unterminated trailing span is still reported, as a
/// subnegotiation span when the scanner stopped inside one.
pub open spec fn scan_finalize(buf: Seq<u8>, acc: ScanAcc) -> Seq<Span> {
    if acc.begin < buf.len() {
        match acc.state {
            ScanState::Sub | ScanState::SubOpt { .. } | ScanState::SubIac { .. } => acc.spans.push(
                Span::Sub { bytes: buf.subrange(acc.begin, buf.len() as int), rest: None },
            ),
            _ => acc.spans.push(
                Span::Plain { bytes: buf.subrange(acc.begin, buf.len() as int) },
            ),
        }
    } else {
        acc.spans
    }
}

/// The sub-spans of a whole buffer, in order.
pub open spec fn scan_spans(buf: Seq<u8>) -> Seq<Span> {
    scan_finalize(buf, scan_from(buf, 0, scan_init()))
}

/// A span the scanner has finished: plain spans always are, and a finished
/// subnegotiation span carries the full header and a valid 2-byte ending.
pub open spec fn span_closed(sp: Span) -> bool {
    match sp {
        Span::Plain { .. } => true,
        Span::Sub { bytes, .. } => bytes.len() >= 5 && bytes[bytes.len() - 2] == IAC
            && bytes[bytes.len() - 1] == SE,
    }
}

/// The scanner's invariant at position `i`: the span under construction
/// starts in bounds, every finished span is closed, and each state pins how
/// far behind its span's start lies.
pub open spec fn scan_ok(buf: Seq<u8>, i: int, acc: ScanAcc) -> bool {
    &&& 0 <= acc.begin <= i <= buf.len()
    &&& !acc.halted
    &&& (forall|m: int| 0 <= m < acc.spans.len() ==> span_closed(#[trigger] acc.spans[m]))
    &&& match acc.state {
        ScanState::Normal => true,
        ScanState::Iac => acc.begin == i - 1,
        ScanState::Neg => acc.begin == i - 2,
        ScanState::Sub => acc.begin == i - 2,
        ScanState::SubOpt { .. } => acc.begin + 3 <= i,
        ScanState::SubIac { .. } => acc.begin + 4 <= i && buf[i - 1] == IAC,
    }
}

/// Scanning from a sound position keeps every finished span closed, and
/// ends either sound at the end of the buffer or halted with nothing left.
pub proof fn lemma_scan_from_ok(buf: Seq<u8>, i: int, acc: ScanAcc)
    requires
        scan_ok(buf, i, acc),
    ensures
        ({
            let f = scan_from(buf, i, acc);
            &&& (forall|m: int| 0 <= m < f.spans.len() ==> span_closed(#[trigger] f.spans[m]))
            &&& (!f.halted ==> scan_ok(buf, buf.len() as int, f))
            &&& (f.halted ==> f.begin == buf.len())
        }),
    decreases buf.len() - i,
{
    if i >= buf.len() {
    } else {
        let acc2 = scan_step(buf, i, acc);
        if acc.state matches ScanState::SubIac { .. } && buf[i] == SE {
            let bytes = buf.subrange(acc.begin, i + 1);
            assert(bytes[bytes.len() - 2] == buf[i - 1]);
            assert(bytes[bytes.len() - 1] == buf[i]);
        }
        if acc2.halted {
            assert(scan_from(buf, i + 1, acc2) == acc2);
        } else {
            assert(scan_ok(buf, i + 1, acc2));
            lemma_scan_from_ok(buf, i + 1, acc2);
        }
    }
}

/// A scanner state carried over to a buffer with `p` spans already emitted
/// and the first `n` bytes already consumed.
pub open spec fn scan_lift(n: int, p: Seq<Span>, acc: ScanAcc) -> ScanAcc {
    ScanAcc { state: acc.state, begin: acc.begin + n, spans: p + acc.spans, halted: acc.halted }
}

/// The state that restarts the span under construction from its first byte.
pub open spec fn scan_restart(acc: ScanAcc) -> ScanAcc {
    ScanAcc { state: ScanState::Normal, begin: acc.begin, spans: acc.spans, halted: false }
}

/// One classifier step on a suffix agrees with the same step on the whole
/// buffer, up to the position offset and the spans already emitted.
pub proof fn lemma_scan_step_shift(x1: Seq<u8>, x2: Seq<u8>, j: int, acc: ScanAcc, p: Seq<Span>)
    requires
        0 <= j < x2.len(),
        0 <= acc.begin <= j,
    ensures
        scan_step(x1 + x2, x1.len() + j, scan_lift(x1.len() as int, p, acc)) == scan_lift(
            x1.len() as int,
            p,
            scan_step(x2, j, acc),
        ),
{
    let n = x1.len() as int;
    let y = x1 + x2;
    assert(y[n + j] == x2[j]);
    assert(y.subrange(acc.begin + n, j + n) =~= x2.subrange(acc.begin, j));
    assert(y.subrange(acc.begin + n, j + 1 + n) =~= x2.subrange(acc.begin, j + 1));
    assert(y.subrange(j + 1 + n, y.len() as int) =~= x2.subrange(j + 1, x2.len() as int));
    assert(p + acc.spans.push(Span::Plain { bytes: x2.subrange(acc.begin, j) }) =~= (p
        + acc.spans).push(Span::Plain { bytes: x2.subrange(acc.begin, j) }));
    assert(p + acc.spans.push(Span::Plain { bytes: x2.subrange(acc.begin, j + 1) }) =~= (p
        + acc.spans).push(Span::Plain { bytes: x2.subrange(acc.begin, j + 1) }));
    assert(p + acc.spans.push(Span::Sub { bytes: x2.subrange(acc.begin, j + 1), rest: None })
        =~= (p + acc.spans).push(
        Span::Sub { bytes: x2.subrange(acc.begin, j + 1), rest: None },
    ));
    assert(p + acc.spans.push(
        Span::Sub {
            bytes: x2.subrange(acc.begin, j + 1),
            rest: Some(x2.subrange(j + 1, x2.len() as int)),
        },
    ) =~= (p + acc.spans).push(
        Span::Sub {
            bytes: x2.subrange(acc.begin, j + 1),
            rest: Some(x2.subrange(j + 1, x2.len() as int)),
        },
    ));
    assert(scan_step(y, n + j, scan_lift(n, p, acc)) =~= scan_lift(n, p, scan_step(x2, j, acc)));
}

/// Scanning a suffix agrees with scanning the whole buffer from the same
/// point, up to the position offset and the spans already emitted.
pub proof fn lemma_scan_shift(x1: Seq<u8>, x2: Seq<u8>, j: int, acc: ScanAcc, p: Seq<Span>)
    requires
        0 <= acc.begin <= j,
    ensures
        scan_from(x1 + x2, x1.len() + j, scan_lift(x1.len() as int, p, acc)) == scan_lift(
            x1.len() as int,
            p,
            scan_from(x2, j, acc),
        ),
    decreases (if j < x2.len() { x2.len() - j } else { 0 }),
{
    let n = x1.len() as int;
    let y = x1 + x2;
    if j >= x2.len() || acc.halted {
        assert(scan_from(y, n + j, scan_lift(n, p, acc)) == scan_lift(n, p, acc));
        assert(scan_from(x2, j, acc) == acc);
    } else {
        lemma_scan_step_shift(x1, x2, j, acc, p);
        let acc2 = scan_step(x2, j, acc);
        assert(scan_from(x2, j, acc) == scan_from(x2, j + 1, acc2));
        assert(scan_from(y, n + j, scan_lift(n, p, acc)) == scan_from(
            y,
            n + j + 1,
            scan_lift(n, p, acc2),
        ));
        if acc2.halted {
            assert(scan_from(x2, j + 1, acc2) == acc2);
            assert(scan_from(y, n + j + 1, scan_lift(n, p, acc2)) == scan_lift(n, p, acc2));
        } else {
            assert(0 <= acc2.begin <= j + 1);
            lemma_scan_shift(x1, x2, j + 1, acc2, p);
        }
    }
}

/// As long as the prefix alone does not halt the scanner, scanning the
/// whole buffer passes through the state the prefix scan ends in.
pub proof fn lemma_scan_prefix(x1: Seq<u8>, x2: Seq<u8>, j: int, acc: ScanAcc)
    requires
        0 <= acc.begin <= j <= x1.len(),
        !acc.halted,
        !scan_from(x1, j, acc).halted,
    ensures
        scan_from(x1 + x2, j, acc) == scan_from(x1 + x2, x1.len() as int, scan_from(x1, j, acc)),
    decreases x1.len() - j,
{
    if j == x1.len() {
    } else {
        let s1 = scan_step(x1, j, acc);
        if s1.halted {
            assert(scan_from(x1, j, acc) == scan_from(x1, j + 1, s1));
            assert(scan_from(x1, j + 1, s1) == s1);
            assert(false);
        } else {
            assert((x1 + x2)[j] == x1[j]);
            assert((x1 + x2).subrange(acc.begin, j) =~= x1.subrange(acc.begin, j));
            assert((x1 + x2).subrange(acc.begin, j + 1) =~= x1.subrange(acc.begin, j + 1));
            assert(scan_step(x1 + x2, j, acc) =~= s1);
            assert(0 <= s1.begin <= j + 1);
            lemma_scan_prefix(x1, x2, j + 1, s1);
        }
    }
}

/// Restarting the scan at the beginning of the span under construction,
/// with the spans emitted so far, reaches the same final state: the bytes
/// of an unfinished span replay to the same place.
pub proof fn lemma_scan_restart(buf: Seq<u8>, i: int, acc: ScanAcc)
    requires
        0 <= i <= buf.len(),
        !acc.halted,
        scan_from(buf, acc.begin, scan_restart(acc)) == scan_from(buf, i, acc),
    ensures
        ({
            let f = scan_from(buf, i, acc);
            !f.halted ==> scan_from(buf, f.begin, scan_restart(f)) == f
        }),
    decreases buf.len() - i,
{
    if i == buf.len() {
    } else {
        let acc2 = scan_step(buf, i, acc);
        assert(scan_from(buf, i, acc) == scan_from(buf, i + 1, acc2));
        if acc2.halted {
            assert(scan_from(buf, i + 1, acc2) == acc2);
        } else {
            assert(scan_from(buf, acc2.begin, scan_restart(acc2)) == scan_from(
                buf,
                i + 1,
                acc2,
            )) by {
                if acc2.begin == acc.begin && acc2.spans == acc.spans {
                    assert(scan_restart(acc2) =~= scan_restart(acc));
                } else if acc2.begin == i + 1 {
                    assert(scan_restart(acc2) =~= acc2);
                } else {
                    // The introducer opened a new span at `i`: one restart
                    // step replays it.
                    assert(acc2.begin == i);
                    assert(scan_step(buf, i, scan_restart(acc2)) =~= acc2);
                    assert(scan_from(buf, i, scan_restart(acc2)) == scan_from(buf, i + 1, acc2));
                }
            };
            lemma_scan_restart(buf, i + 1, acc2);
        }
    }
}

/// Closing the scan of a suffix agrees with closing the scan of the whole
/// buffer, up to the spans already emitted.
pub proof fn lemma_finalize_shift(xa: Seq<u8>, xb: Seq<u8>, p: Seq<Span>, f2: ScanAcc)
    requires
        0 <= f2.begin,
    ensures
        scan_finalize(xa + xb, scan_lift(xa.len() as int, p, f2)) == p + scan_finalize(xb, f2),
{
    let n = xa.len() as int;
    let y = xa + xb;
    if f2.begin < xb.len() {
        let tail = xb.subrange(f2.begin, xb.len() as int);
        assert(y.subrange(f2.begin + n, y.len() as int) =~= tail);
        assert(p + f2.spans.push(Span::Sub { bytes: tail, rest: None }) =~= (p + f2.spans).push(
            Span::Sub { bytes: tail, rest: None },
        ));
        assert(p + f2.spans.push(Span::Plain { bytes: tail }) =~= (p + f2.spans).push(
            Span::Plain { bytes: tail },
        ));
        assert(scan_finalize(y, scan_lift(n, p, f2)) =~= p + scan_finalize(xb, f2));
    } else {
        assert(scan_finalize(y, scan_lift(n, p, f2)) =~= p + scan_finalize(xb, f2));
    }
}

/// A classified sub-span holding copies of its bytes.
pub(crate) enum SpanBuf {
    Plain(Vec<u8>),
    Sub(Vec<u8>, Option<Vec<u8>>),
}

impl SpanBuf {
    /// The abstract span this buffer stands for.
    pub(crate) open spec fn model(&self) -> Span {
        match self {
            SpanBuf::Plain(b) => Span::Plain { bytes: b@ },
            SpanBuf::Sub(b, rest) => Span::Sub {
                bytes: b@,
                rest: match rest {
                    Some(r) => Some(r@),
                    None => None,
                },
            },
        }
    }
}

/// The abstract spans of a list of span buffers.
pub(crate) open spec fn span_models(spans: Seq<SpanBuf>) -> Seq<Span> {
    spans.map_values(|s: SpanBuf| s.model())
}

/// Copy one sub-range of a byte buffer into a fresh buffer.
pub(crate) fn copy_range(v: &Vec<u8>, a: usize, b: usize) -> (r: Vec<u8>)
    requires
        a <= b,
        b <= v@.len(),
    ensures
        r@ == v@.subrange(a as int, b as int),
{
    let mut r: Vec<u8> = Vec::new();
    let mut j: usize = a;
    proof {
        assert(r@ =~= v@.subrange(a as int, a as int));
    }
    while j < b
        invariant
            a <= j <= b,
            b <= v@.len(),
            r@ == v@.subrange(a as int, j as int),
        decreases b - j,
    {
        r.push(v[j]);
        proof {
            assert(v@.subrange(a as int, j + 1) =~= v@.subrange(a as int, j as int).push(v@[j as int]));
        }
        j = j + 1;
    }
    r
}

/// Append every byte of one buffer to another.
pub(crate) fn append_bytes(dst: &mut Vec<u8>, src: &Vec<u8>)
    ensures
        final(dst)@ == old(dst)@ + src@,
{
    append_slice(dst, src.as_slice());
}

/// Append every byte of a slice to a buffer.
pub(crate) fn append_slice(dst: &mut Vec<u8>, src: &[u8])
    ensures
        final(dst)@ == old(dst)@ + src@,
{
    let mut j: usize = 0;
    proof {
        assert(dst@ =~= old(dst)@ + src@.take(0));
    }
    while j < src.len()
        invariant
            j <= src@.len(),
            dst@ == old(dst)@ + src@.take(j as int),
        decreases src@.len() - j,
    {
        dst.push(src[j]);
        proof {
            assert(old(dst)@ + src@.take(j + 1) =~= (old(dst)@ + src@.take(j as int)).push(src@[j as int]));
        }
        j = j + 1;
    }
    proof {
        assert(src@.take(src@.len() as int) =~= src@);
    }
}

/// Classify a whole buffer into its ordered sub-spans.
pub(crate) fn scan_buffer(buf: &Vec<u8>) -> (spans: Vec<SpanBuf>)
    ensures
        span_models(spans@) == scan_spans(buf@),
{
    let mut spans: Vec<SpanBuf> = Vec::new();
    let mut state = ScanState::Normal;
    let mut begin: usize = 0;
    let mut halted = false;
    let mut i: usize = 0;
    proof {
        assert(span_models(spans@) =~= scan_init().spans);
        assert(ScanAcc { state, begin: begin as int, spans: span_models(spans@), halted }
            =~= scan_init());
    }
    while i < buf.len() && !halted
        invariant
            i <= buf@.len(),
            begin <= buf@.len(),
            !halted ==> begin <= i,
            scan_from(buf@, 0, scan_init()) == scan_from(
                buf@,
                i as int,
                ScanAcc { state, begin: begin as int, spans: span_models(spans@), halted },
            ),
        decreases buf@.len() - i,
    {
        let ghost pre = ScanAcc { state, begin: begin as int, spans: span_models(spans@), halted };
        let val = buf[i];
        match state {
            ScanState::Normal => {
                if val == IAC {
                    if begin != i {
                        spans.push(SpanBuf::Plain(copy_range(buf, begin, i)));
                    }
                    state = ScanState::Iac;
                    begin = i;
                }
            },
            ScanState::Iac => {
                if val == IAC {
                    state = ScanState::Normal;
                } else if val == GA || val == EOR || val == NOP {
                    spans.push(SpanBuf::Plain(copy_range(buf, begin, i + 1)));
                    state = ScanState::Normal;
                    begin = i + 1;
                } else if val == SB {
                    state = ScanState::Sub;
                } else {
                    state = ScanState::Neg;
                }
            },
            ScanState::Neg => {
                spans.push(SpanBuf::Plain(copy_range(buf, begin, i + 1)));
                state = ScanState::Normal;
                begin = i + 1;
            },
            ScanState::Sub => {
                state = ScanState::SubOpt { opt: val };
            },
            ScanState::SubOpt { opt } => {
                if val == IAC {
                    state = ScanState::SubIac { opt };
                }
            },
            ScanState::SubIac { opt } => {
                if val == IAC {
                    // Stay right after an introducer.
                } else if val == SE && (opt == MCCP2 || opt == MCCP3) {
                    let bytes = copy_range(buf, begin, i + 1);
                    let rest = copy_range(buf, i + 1, buf.len());
                    spans.push(SpanBuf::Sub(bytes, Some(rest)));
                    begin = buf.len();
                    halted = true;
                } else if val == SE {
                    spans.push(SpanBuf::Sub(copy_range(buf, begin, i + 1), None));
                    state = ScanState::Normal;
                    begin = i + 1;
                } else {
                    state = ScanState::SubOpt { opt };
                }
            },
        }
        proof {
            let post = ScanAcc { state, begin: begin as int, spans: span_models(spans@), halted };
            assert(scan_step(buf@, i as int, pre) =~= post);
            assert(scan_from(buf@, i as int, pre) == scan_from(
                buf@,
                i + 1,
                scan_step(buf@, i as int, pre),
            ));
        }
        i = i + 1;
    }
    proof {
        let cur = ScanAcc { state, begin: begin as int, spans: span_models(spans@), halted };
        assert(scan_from(buf@, i as int, cur) == cur);
    }
    if begin < buf.len() {
        let tail = copy_range(buf, begin, buf.len());
        match state {
            ScanState::Sub | ScanState::SubOpt { .. } | ScanState::SubIac { .. } => {
                spans.push(SpanBuf::Sub(tail, None));
            },
            _ => {
                spans.push(SpanBuf::Plain(tail));
            },
        }
    }
    proof {
        assert(span_models(spans@) =~= scan_spans(buf@));
    }
    spans
}

} // verus!
