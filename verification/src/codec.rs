//! The introducer-escape codec: what byte payloads look like on the wire.
//!
//! Every byte equal to the command introducer (255) is doubled when data is
//! framed for transmission; the receiving side collapses doubled introducers
//! back into one.

use vstd::prelude::*;

use crate::telnet::op_command::IAC;

verus! {

/// A payload as it appears on the wire: every introducer byte doubled,
/// every other byte unchanged.
pub open spec fn escape_seq(s: Seq<u8>) -> Seq<u8>
    decreases s.len(),
{
    if s.len() == 0 {
        Seq::empty()
    } else if s[0] == IAC {
        seq![IAC, IAC] + escape_seq(s.skip(1))
    } else {
        seq![s[0]] + escape_seq(s.skip(1))
    }
}

/// The two-state unescape scan, started in the given state: seeing the
/// introducer in the normal state emits it and arms the collapse; seeing it
/// again right after consumes it silently; any other byte is emitted and
/// returns to the normal state.
pub open spec fn unescape_from(s: Seq<u8>, saw_iac: bool) -> Seq<u8>
    decreases s.len(),
{
    if s.len() == 0 {
        Seq::empty()
    } else if saw_iac && s[0] == IAC {
        unescape_from(s.skip(1), false)
    } else if s[0] == IAC {
        seq![IAC] + unescape_from(s.skip(1), true)
    } else {
        seq![s[0]] + unescape_from(s.skip(1), false)
    }
}

/// A payload with doubled introducer bytes collapsed back into single ones.
pub open spec fn unescape_seq(s: Seq<u8>) -> Seq<u8> {
    unescape_from(s, false)
}

/// Escaping distributes over concatenation.
pub proof fn lemma_escape_seq_append(a: Seq<u8>, b: Seq<u8>)
    ensures
        escape_seq(a + b) == escape_seq(a) + escape_seq(b),
    decreases a.len(),
{
    if a.len() == 0 {
        assert(a + b =~= b);
        assert(escape_seq(a) + escape_seq(b) =~= escape_seq(b));
    } else {
        assert((a + b).skip(1) =~= a.skip(1) + b);
        lemma_escape_seq_append(a.skip(1), b);
        assert(escape_seq(a + b) =~= escape_seq(a) + escape_seq(b));
    }
}

/// Escaping a single byte.
pub proof fn lemma_escape_seq_one(b: u8)
    ensures
        escape_seq(seq![b]) == if b == IAC { seq![IAC, IAC] } else { seq![b] },
{
    let s = seq![b];
    assert(s.skip(1) =~= Seq::<u8>::empty());
    assert(escape_seq(s.skip(1)) == Seq::<u8>::empty());
    if b == IAC {
        assert(escape_seq(s) =~= seq![IAC, IAC]);
    } else {
        assert(escape_seq(s) =~= seq![b]);
    }
}

/// Round-trip: unescaping an escaped payload gives the payload back, for
/// every byte sequence.
pub proof fn lemma_unescape_escape(x: Seq<u8>)
    ensures
        unescape_seq(escape_seq(x)) == x,
    decreases x.len(),
{
    if x.len() == 0 {
    } else {
        let t = x.skip(1);
        lemma_unescape_escape(t);
        if x[0] == IAC {
            assert((seq![IAC, IAC] + escape_seq(t)).skip(1) =~= seq![IAC] + escape_seq(t));
            assert((seq![IAC] + escape_seq(t)).skip(1) =~= escape_seq(t));
            assert(unescape_from(seq![IAC] + escape_seq(t), true) == unescape_from(escape_seq(t), false));
            assert(unescape_seq(escape_seq(x)) =~= x);
        } else {
            assert((seq![x[0]] + escape_seq(t)).skip(1) =~= escape_seq(t));
            assert(unescape_seq(escape_seq(x)) =~= x);
        }
    }
}

} // verus!
