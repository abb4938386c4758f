//! Per-option support and enabled-state bookkeeping: a 4-bit entry for each
//! of the 256 telnet option codes.

use vstd::prelude::*;

verus! {

/// True when the local-support bit is set in a raw entry value.
pub open spec fn local_support_of(v: u8) -> bool {
    v & Table::ENABLED_LOCAL == Table::ENABLED_LOCAL
}

/// True when the remote-support bit is set in a raw entry value.
pub open spec fn remote_support_of(v: u8) -> bool {
    v & Table::ENABLED_REMOTE == Table::ENABLED_REMOTE
}

/// True when the locally-enabled bit is set in a raw entry value.
pub open spec fn local_enabled_of(v: u8) -> bool {
    v & Table::LOCAL_STATE == Table::LOCAL_STATE
}

/// True when the remotely-enabled bit is set in a raw entry value.
pub open spec fn remote_enabled_of(v: u8) -> bool {
    v & Table::REMOTE_STATE == Table::REMOTE_STATE
}

/// Raw entry value with the local-support bit set.
pub open spec fn with_local_support(v: u8) -> u8 {
    v | Table::ENABLED_LOCAL
}

/// Raw entry value with the local-support bit cleared.
pub open spec fn without_local_support(v: u8) -> u8 {
    v & !Table::ENABLED_LOCAL
}

/// Raw entry value with the remote-support bit set.
pub open spec fn with_remote_support(v: u8) -> u8 {
    v | Table::ENABLED_REMOTE
}

/// Raw entry value with the remote-support bit cleared.
pub open spec fn without_remote_support(v: u8) -> u8 {
    v & !Table::ENABLED_REMOTE
}

/// Raw entry value with the locally-enabled bit set.
pub open spec fn with_local_enabled(v: u8) -> u8 {
    v | Table::LOCAL_STATE
}

/// Raw entry value with the locally-enabled bit cleared.
pub open spec fn without_local_enabled(v: u8) -> u8 {
    v & !Table::LOCAL_STATE
}

/// Raw entry value with the remotely-enabled bit set.
pub open spec fn with_remote_enabled(v: u8) -> u8 {
    v | Table::REMOTE_STATE
}

/// Raw entry value with the remotely-enabled bit cleared.
pub open spec fn without_remote_enabled(v: u8) -> u8 {
    v & !Table::REMOTE_STATE
}

/// Setting one defined flag bit preserves every other flag and the
/// undefined high bits.
pub proof fn lemma_flags_or(v: u8, m: u8)
    requires
        m == 1 || m == 2 || m == 4 || m == 8,
    ensures
        local_support_of(v | m) == (local_support_of(v) || m == 1),
        remote_support_of(v | m) == (remote_support_of(v) || m == 2),
        local_enabled_of(v | m) == (local_enabled_of(v) || m == 4),
        remote_enabled_of(v | m) == (remote_enabled_of(v) || m == 8),
        (v | m) & 0xF0 == v & 0xF0,
{
    assert(((v | m) & 1 == 1) == ((v & 1 == 1) || m == 1)) by (bit_vector)
        requires m == 1 || m == 2 || m == 4 || m == 8;
    assert(((v | m) & 2 == 2) == ((v & 2 == 2) || m == 2)) by (bit_vector)
        requires m == 1 || m == 2 || m == 4 || m == 8;
    assert(((v | m) & 4 == 4) == ((v & 4 == 4) || m == 4)) by (bit_vector)
        requires m == 1 || m == 2 || m == 4 || m == 8;
    assert(((v | m) & 8 == 8) == ((v & 8 == 8) || m == 8)) by (bit_vector)
        requires m == 1 || m == 2 || m == 4 || m == 8;
    assert((v | m) & 0xF0 == v & 0xF0) by (bit_vector)
        requires m == 1 || m == 2 || m == 4 || m == 8;
}

/// Clearing one defined flag bit preserves every other flag and the
/// undefined high bits.
pub proof fn lemma_flags_clear(v: u8, m: u8)
    requires
        m == 1 || m == 2 || m == 4 || m == 8,
    ensures
        local_support_of(v & !m) == (local_support_of(v) && m != 1),
        remote_support_of(v & !m) == (remote_support_of(v) && m != 2),
        local_enabled_of(v & !m) == (local_enabled_of(v) && m != 4),
        remote_enabled_of(v & !m) == (remote_enabled_of(v) && m != 8),
        (v & !m) & 0xF0 == v & 0xF0,
{
    assert(((v & !m) & 1 == 1) == ((v & 1 == 1) && m != 1)) by (bit_vector)
        requires m == 1 || m == 2 || m == 4 || m == 8;
    assert(((v & !m) & 2 == 2) == ((v & 2 == 2) && m != 2)) by (bit_vector)
        requires m == 1 || m == 2 || m == 4 || m == 8;
    assert(((v & !m) & 4 == 4) == ((v & 4 == 4) && m != 4)) by (bit_vector)
        requires m == 1 || m == 2 || m == 4 || m == 8;
    assert(((v & !m) & 8 == 8) == ((v & 8 == 8) && m != 8)) by (bit_vector)
        requires m == 1 || m == 2 || m == 4 || m == 8;
    assert((v & !m) & 0xF0 == v & 0xF0) by (bit_vector)
        requires m == 1 || m == 2 || m == 4 || m == 8;
}

/// Masking a raw value to the defined flags keeps each flag and clears
/// everything else.
pub proof fn lemma_flags_mask(v: u8)
    ensures
        local_support_of(v & 0x0F) == local_support_of(v),
        remote_support_of(v & 0x0F) == remote_support_of(v),
        local_enabled_of(v & 0x0F) == local_enabled_of(v),
        remote_enabled_of(v & 0x0F) == remote_enabled_of(v),
        (v & 0x0F) & 0xF0 == 0,
{
    assert(((v & 0x0F) & 1 == 1) == (v & 1 == 1)) by (bit_vector);
    assert(((v & 0x0F) & 2 == 2) == (v & 2 == 2)) by (bit_vector);
    assert(((v & 0x0F) & 4 == 4) == (v & 4 == 4)) by (bit_vector);
    assert(((v & 0x0F) & 8 == 8) == (v & 8 == 8)) by (bit_vector);
    assert((v & 0x0F) & 0xF0 == 0) by (bit_vector);
}

/// An expansion of a bitmask contained in a compatibility [`Table`].
#[derive(Clone, Copy, PartialEq, Eq, Ord, PartialOrd, Hash, Debug)]
pub struct Entry(u8);

impl View for Entry {
    type V = u8;

    closed spec fn view(&self) -> u8 {
        self.0
    }
}

impl Default for Entry {
    /// An entry with every flag clear.
    fn default() -> (r: Self)
        ensures
            r@ == 0,
    {
        Entry(0)
    }
}

impl Entry {
    /// Build an entry from one boolean per flag.
    #[must_use]
    pub fn new(local: bool, remote: bool, local_state: bool, remote_state: bool) -> (r: Self)
        ensures
            local_support_of(r@) == local,
            remote_support_of(r@) == remote,
            local_enabled_of(r@) == local_state,
            remote_enabled_of(r@) == remote_state,
            r@ & 0xF0 == 0,
    {
        let mut entry = Entry(0);
        proof {
            assert(0u8 & 1 != 1 && 0u8 & 2 != 2 && 0u8 & 4 != 4 && 0u8 & 8 != 8
                && 0u8 & 0xF0 == 0) by (bit_vector);
        }
        if local {
            proof { lemma_flags_or(entry@, Table::ENABLED_LOCAL); }
            entry.set_local_support();
        }
        if remote {
            proof { lemma_flags_or(entry@, Table::ENABLED_REMOTE); }
            entry.set_remote_support();
        }
        if local_state {
            proof { lemma_flags_or(entry@, Table::LOCAL_STATE); }
            entry.set_local_enabled();
        }
        if remote_state {
            proof { lemma_flags_or(entry@, Table::REMOTE_STATE); }
            entry.set_remote_enabled();
        }
        entry
    }

    /// Build an entry from a raw flag byte; bits outside the four defined
    /// flags are discarded.
    pub fn from_byte(value: u8) -> (r: Self)
        ensures
            r@ == value & Table::DEFINED_FLAGS,
    {
        Entry(value & Table::DEFINED_FLAGS)
    }

    /// The raw flag byte of this entry.
    pub fn into_byte(self) -> (r: u8)
        ensures
            r == self@,
    {
        self.0
    }

    /// Whether the option is supported on our side.
    #[must_use]
    pub fn local_support(&self) -> (r: bool)
        ensures
            r == local_support_of(self@),
    {
        self.0 & Table::ENABLED_LOCAL == Table::ENABLED_LOCAL
    }

    pub fn set_local_support(&mut self)
        ensures
            final(self)@ == with_local_support(old(self)@),
    {
        self.0 = self.0 | Table::ENABLED_LOCAL;
    }

    pub fn clear_local_support(&mut self)
        ensures
            final(self)@ == without_local_support(old(self)@),
    {
        self.0 = self.0 & !Table::ENABLED_LOCAL;
    }

    /// Whether we accept the peer using the option.
    #[must_use]
    pub fn remote_support(&self) -> (r: bool)
        ensures
            r == remote_support_of(self@),
    {
        self.0 & Table::ENABLED_REMOTE == Table::ENABLED_REMOTE
    }

    pub fn set_remote_support(&mut self)
        ensures
            final(self)@ == with_remote_support(old(self)@),
    {
        self.0 = self.0 | Table::ENABLED_REMOTE;
    }

    pub fn clear_remote_support(&mut self)
        ensures
            final(self)@ == without_remote_support(old(self)@),
    {
        self.0 = self.0 & !Table::ENABLED_REMOTE;
    }

    /// Whether the option is currently active on our sending side.
    #[must_use]
    pub fn local_enabled(&self) -> (r: bool)
        ensures
            r == local_enabled_of(self@),
    {
        self.0 & Table::LOCAL_STATE == Table::LOCAL_STATE
    }

    pub fn set_local_enabled(&mut self)
        ensures
            final(self)@ == with_local_enabled(old(self)@),
    {
        self.0 = self.0 | Table::LOCAL_STATE;
    }

    pub fn clear_local_enabled(&mut self)
        ensures
            final(self)@ == without_local_enabled(old(self)@),
    {
        self.0 = self.0 & !Table::LOCAL_STATE;
    }

    /// Whether the option is currently active on the peer's sending side.
    #[must_use]
    pub fn remote_enabled(&self) -> (r: bool)
        ensures
            r == remote_enabled_of(self@),
    {
        self.0 & Table::REMOTE_STATE == Table::REMOTE_STATE
    }

    pub fn set_remote_enabled(&mut self)
        ensures
            final(self)@ == with_remote_enabled(old(self)@),
    {
        self.0 = self.0 | Table::REMOTE_STATE;
    }

    pub fn clear_remote_enabled(&mut self)
        ensures
            final(self)@ == without_remote_enabled(old(self)@),
    {
        self.0 = self.0 & !Table::REMOTE_STATE;
    }

    /// Clear every flag.
    pub fn clear(&mut self)
        ensures
            final(self)@ == 0,
    {
        *self = Entry(0);
    }
}

/// How many option codes a table covers: one entry per possible `u8` code.
pub const TABLE_SIZE: usize = 256;

/// A table of options that are supported locally or remotely, and their
/// current state.
#[derive(Clone, Debug, Eq, PartialEq)]
pub struct Table {
    options: [Entry; TABLE_SIZE],
}

impl View for Table {
    type V = Seq<u8>;

    closed spec fn view(&self) -> Seq<u8> {
        self.options@.map_values(|e: Entry| e@)
    }
}

impl Default for Table {
    /// A table with every flag of every entry clear.
    fn default() -> (r: Self)
        ensures
            r@.len() == 256,
            forall|i: int| 0 <= i < 256 ==> r@[i] == 0,
    {
        Table { options: [Entry(0); TABLE_SIZE] }
    }
}

impl Table {
    /// Option is locally supported.
    pub const ENABLED_LOCAL: u8 = 1;

    /// Option is remotely supported.
    pub const ENABLED_REMOTE: u8 = 2;

    /// Option is currently enabled locally.
    pub const LOCAL_STATE: u8 = 4;

    /// Option is currently enabled remotely.
    pub const REMOTE_STATE: u8 = 8;

    /// Every bit with a defined meaning in an entry.
    pub const DEFINED_FLAGS: u8 = 15;

    /// A table always holds one entry per possible option code.
    pub proof fn lemma_len(&self)
        ensures
            self@.len() == 256,
    {
    }

    #[must_use]
    pub fn new() -> (r: Self)
        ensures
            r@.len() == 256,
            forall|i: int| 0 <= i < 256 ==> r@[i] == 0,
    {
        Table::default()
    }

    /// Create a table with some option values set, masking each supplied
    /// value to the defined flag bits. Later pairs override earlier ones.
    #[must_use]
    pub fn from_options(values: &[(u8, u8)]) -> (r: Self)
        ensures
            r@ == from_options_seq(values@),
            forall|i: int| 0 <= i < 256 ==> #[trigger] r@[i] & 0xF0 == 0,
    {
        let mut options = Table::default();
        proof {
            assert(0u8 & 0xF0 == 0) by (bit_vector);
            assert(options@ =~= from_options_seq(values@.take(0)));
        }
        let mut k: usize = 0;
        while k < values.len()
            invariant
                k <= values@.len(),
                options@ == from_options_seq(values@.take(k as int)),
                options@.len() == 256,
                forall|i: int| 0 <= i < 256 ==> #[trigger] options@[i] & 0xF0 == 0,
            decreases values@.len() - k,
        {
            let (opt, val) = values[k];
            proof {
                lemma_flags_mask(val);
                assert(values@.take(k as int + 1).drop_last() =~= values@.take(k as int));
                assert(values@.take(k as int + 1).last() == values@[k as int]);
            }
            *options.option_mut(opt) = Entry(val & Table::DEFINED_FLAGS);
            k = k + 1;
        }
        proof {
            assert(values@.take(values@.len() as int) =~= values@);
        }
        options
    }

    /// Enable local support for an option.
    pub fn support_local(&mut self, option: u8)
        ensures
            final(self)@ == old(self)@.update(
                option as int,
                with_local_support(old(self)@[option as int]),
            ),
    {
        self.option_mut(option).set_local_support();
    }

    /// Enable remote support for an option.
    pub fn support_remote(&mut self, option: u8)
        ensures
            final(self)@ == old(self)@.update(
                option as int,
                with_remote_support(old(self)@[option as int]),
            ),
    {
        self.option_mut(option).set_remote_support();
    }

    /// Enable both remote and local support for an option.
    pub fn support(&mut self, option: u8)
        ensures
            final(self)@ == old(self)@.update(
                option as int,
                with_remote_support(with_local_support(old(self)@[option as int])),
            ),
    {
        let entry = self.option_mut(option);
        entry.set_local_support();
        entry.set_remote_support();
    }

    /// Mutable access to the entry for an option code.
    #[must_use]
    pub fn option_mut(&mut self, option: u8) -> (e: &mut Entry)
        ensures
            (*e)@ == old(self)@[option as int],
            final(self)@ =~= old(self)@.update(option as int, (*final(e))@),
    {
        proof {
            self.lemma_len();
        }
        &mut self.options[option as usize]
    }

    /// Read access to the entry for an option code.
    #[must_use]
    pub fn option(&self, option: u8) -> (e: &Entry)
        ensures
            (*e)@ == self@[option as int],
    {
        proof {
            self.lemma_len();
        }
        &self.options[option as usize]
    }

    /// Reset all negotiated enabled-states, preserving the support flags.
    pub fn reset_states(&mut self)
        ensures
            final(self)@.len() == 256,
            forall|i: int| 0 <= i < 256 ==> #[trigger] final(self)@[i]
                == without_remote_enabled(without_local_enabled(old(self)@[i])),
    {
        let mut k: usize = 0;
        while k < TABLE_SIZE
            invariant
                k <= 256,
                self@.len() == 256,
                forall|i: int| 0 <= i < k ==> #[trigger] self@[i]
                    == without_remote_enabled(without_local_enabled(old(self)@[i])),
                forall|i: int| k <= i < 256 ==> #[trigger] self@[i] == old(self)@[i],
            decreases 256 - k,
        {
            let opt = self.option_mut(k as u8);
            opt.clear_local_enabled();
            opt.clear_remote_enabled();
            k = k + 1;
        }
    }
}

/// The table described by a list of `(option code, raw flag byte)` pairs:
/// each pair overwrites the entry at its code with the masked value.
pub open spec fn from_options_seq(values: Seq<(u8, u8)>) -> Seq<u8>
    decreases values.len(),
{
    if values.len() == 0 {
        Seq::new(256, |i: int| 0u8)
    } else {
        let (opt, val) = values.last();
        from_options_seq(values.drop_last()).update(opt as int, val & Table::DEFINED_FLAGS)
    }
}

} // verus!
