//! The MSI-X table of a PCI device: which vectors are masked, which are
//! pending, and which messages are due when the guest unmasks them.

use vstd::prelude::*;

verus! {

/// Size of one entry of the table, in bytes.
pub const MSIX_TABLE_ENTRY_SIZE: u16 = 16;

/// The greatest number that the table size field can hold.
pub const MSIX_TABLE_SIZE_MAX: u16 = 0x7ff;

/// Where in an entry the vector control word stands.
pub const MSIX_TABLE_VEC_CTL: u16 = 0x0c;

/// The mask bit of the vector control word.
pub const MSIX_TABLE_MASK_BIT: u8 = 0x01;

/// The bits of the table offset register that name the BAR.
pub const MSIX_TABLE_BIR: u16 = 0x07;

/// The bits of the table offset register that hold the offset.
pub const MSIX_TABLE_OFFSET: u32 = 0xffff_fff8;

/// Where in an entry the upper half of the message address stands.
pub const MSIX_MSG_UPPER_ADDR: u16 = 0x04;

/// Where in an entry the message data stands.
pub const MSIX_MSG_DATA: u16 = 0x08;

/// Where in the capability the message control register stands.
pub const MSIX_CAP_CONTROL: u8 = 0x02;

/// The enable bit of the message control register.
pub const MSIX_CAP_ENABLE: u16 = 0x8000;

/// The function mask bit of the message control register.
pub const MSIX_CAP_FUNC_MASK: u16 = 0x4000;

/// Size of the capability, in bytes.
pub const MSIX_CAP_SIZE: u8 = 12;

/// Identifier of the capability.
pub const MSIX_CAP_ID: u8 = 0x11;

/// Where in the capability the table offset register stands.
pub const MSIX_CAP_TABLE: u8 = 0x04;

/// Where in the capability the pending bit array offset register stands.
pub const MSIX_CAP_PBA: u8 = 0x08;

/// The word that `s` holds at `at`, low byte first.
pub open spec fn word_at(s: Seq<u8>, at: int) -> u16 {
    (s[at] as u16) | ((s[at + 1] as u16) << 8)
}

/// The double word that `s` holds at `at`, low byte first.
pub open spec fn dword_at(s: Seq<u8>, at: int) -> u32 {
    (s[at] as u32) | ((s[at + 1] as u32) << 8) | ((s[at + 2] as u32) << 16) | ((s[at + 3] as u32)
        << 24)
}

/// The quad word that `s` holds at `at`, low byte first.
pub open spec fn qword_at(s: Seq<u8>, at: int) -> u64 {
    (s[at] as u64) | ((s[at + 1] as u64) << 8) | ((s[at + 2] as u64) << 16) | ((s[at + 3] as u64)
        << 24) | ((s[at + 4] as u64) << 32) | ((s[at + 5] as u64) << 40) | ((s[at + 6] as u64)
        << 48) | ((s[at + 7] as u64) << 56)
}

/// The bytes `s` with the quad word `v` written at `at`, low byte first.
pub open spec fn with_qword_at(s: Seq<u8>, at: int, v: u64) -> Seq<u8> {
    s.update(at, v as u8).update(at + 1, (v >> 8) as u8).update(at + 2, (v >> 16) as u8).update(
        at + 3,
        (v >> 24) as u8,
    ).update(at + 4, (v >> 32) as u8).update(at + 5, (v >> 40) as u8).update(
        at + 6,
        (v >> 48) as u8,
    ).update(at + 7, (v >> 56) as u8)
}

/// The word that `buf` holds at `offset`, or nothing where it does not
/// hold two bytes there.
pub fn le_read_u16(buf: &[u8], offset: usize) -> (r: Option<u16>)
    ensures
        r == if offset + 2 <= buf@.len() {
            Some(word_at(buf@, offset as int))
        } else {
            None
        },
{
    if buf.len() < 2 || offset > buf.len() - 2 {
        return None;
    }
    Some((buf[offset] as u16) | ((buf[offset + 1] as u16) << 8))
}

/// The double word that `buf` holds at `offset`, or nothing where it does
/// not hold four bytes there.
pub fn le_read_u32(buf: &[u8], offset: usize) -> (r: Option<u32>)
    ensures
        r == if offset + 4 <= buf@.len() {
            Some(dword_at(buf@, offset as int))
        } else {
            None
        },
{
    if buf.len() < 4 || offset > buf.len() - 4 {
        return None;
    }
    Some(
        (buf[offset] as u32) | ((buf[offset + 1] as u32) << 8) | ((buf[offset + 2] as u32) << 16)
            | ((buf[offset + 3] as u32) << 24),
    )
}

/// The quad word that `buf` holds at `offset`, or nothing where it does
/// not hold eight bytes there.
pub fn le_read_u64(buf: &[u8], offset: usize) -> (r: Option<u64>)
    ensures
        r == if offset + 8 <= buf@.len() {
            Some(qword_at(buf@, offset as int))
        } else {
            None
        },
{
    if buf.len() < 8 || offset > buf.len() - 8 {
        return None;
    }
    Some(
        (buf[offset] as u64) | ((buf[offset + 1] as u64) << 8) | ((buf[offset + 2] as u64) << 16)
            | ((buf[offset + 3] as u64) << 24) | ((buf[offset + 4] as u64) << 32) | ((buf[offset
            + 5] as u64) << 40) | ((buf[offset + 6] as u64) << 48) | ((buf[offset + 7] as u64)
            << 56),
    )
}

/// The bytes `s` with the word `v` written at `at`, low byte first.
pub open spec fn with_word_at(s: Seq<u8>, at: int, v: u16) -> Seq<u8> {
    s.update(at, v as u8).update(at + 1, (v >> 8) as u8)
}

/// The bytes `s` with the double word `v` written at `at`, low byte
/// first.
pub open spec fn with_dword_at(s: Seq<u8>, at: int, v: u32) -> Seq<u8> {
    s.update(at, v as u8).update(at + 1, (v >> 8) as u8).update(at + 2, (v >> 16) as u8).update(
        at + 3,
        (v >> 24) as u8,
    )
}

/// Writes the word `data` into `buf` at `offset`, low byte first, and
/// tells whether `buf` holds two bytes there; where it does not, `buf`
/// stays as it is.
pub fn le_write_u16(buf: &mut Vec<u8>, offset: usize, data: u16) -> (r: bool)
    ensures
        r == (offset + 2 <= old(buf)@.len()),
        final(buf)@ == if r {
            with_word_at(old(buf)@, offset as int, data)
        } else {
            old(buf)@
        },
{
    if buf.len() < 2 || offset > buf.len() - 2 {
        return false;
    }
    buf.set(offset, #[verifier::truncate] (data as u8));
    buf.set(offset + 1, #[verifier::truncate] ((data >> 8) as u8));
    true
}

/// Writes the double word `data` into `buf` at `offset`, low byte first,
/// and tells whether `buf` holds four bytes there; where it does not,
/// `buf` stays as it is.
pub fn le_write_u32(buf: &mut Vec<u8>, offset: usize, data: u32) -> (r: bool)
    ensures
        r == (offset + 4 <= old(buf)@.len()),
        final(buf)@ == if r {
            with_dword_at(old(buf)@, offset as int, data)
        } else {
            old(buf)@
        },
{
    if buf.len() < 4 || offset > buf.len() - 4 {
        return false;
    }
    buf.set(offset, #[verifier::truncate] (data as u8));
    buf.set(offset + 1, #[verifier::truncate] ((data >> 8) as u8));
    buf.set(offset + 2, #[verifier::truncate] ((data >> 16) as u8));
    buf.set(offset + 3, #[verifier::truncate] ((data >> 24) as u8));
    true
}

/// A quad word that is written is the quad word that is read.
pub proof fn lemma_qword_round_trip(s: Seq<u8>, at: int, v: u64)
    requires
        0 <= at,
        at + 8 <= s.len(),
    ensures
        qword_at(with_qword_at(s, at, v), at) == v,
        with_qword_at(s, at, v).len() == s.len(),
{
    assert((v as u8 as u64) | (((v >> 8) as u8 as u64) << 8) | (((v >> 16) as u8 as u64) << 16) | (((v
        >> 24) as u8 as u64) << 24) | (((v >> 32) as u8 as u64) << 32) | (((v >> 40) as u8 as u64)
        << 40) | (((v >> 48) as u8 as u64) << 48) | (((v >> 56) as u8 as u64) << 56) == v)
        by (bit_vector);
}

/// Writes the quad word `data` into `buf` at `offset`, low byte first,
/// and tells whether `buf` holds eight bytes there; where it does not,
/// `buf` stays as it is.
pub fn le_write_u64(buf: &mut Vec<u8>, offset: usize, data: u64) -> (r: bool)
    ensures
        r == (offset + 8 <= old(buf)@.len()),
        final(buf)@ == if r {
            with_qword_at(old(buf)@, offset as int, data)
        } else {
            old(buf)@
        },
{
    if buf.len() < 8 || offset > buf.len() - 8 {
        return false;
    }
    buf.set(offset, #[verifier::truncate] (data as u8));
    buf.set(offset + 1, #[verifier::truncate] ((data >> 8) as u8));
    buf.set(offset + 2, #[verifier::truncate] ((data >> 16) as u8));
    buf.set(offset + 3, #[verifier::truncate] ((data >> 24) as u8));
    buf.set(offset + 4, #[verifier::truncate] ((data >> 32) as u8));
    buf.set(offset + 5, #[verifier::truncate] ((data >> 40) as u8));
    buf.set(offset + 6, #[verifier::truncate] ((data >> 48) as u8));
    buf.set(offset + 7, #[verifier::truncate] ((data >> 56) as u8));
    true
}

/// Whether the message control register of the capability at
/// `msix_cap_offset` in the configuration space `config` has its enable
/// bit set.
pub fn is_msix_enabled(msix_cap_offset: usize, config: &[u8]) -> (r: bool)
    requires
        msix_cap_offset + 4 <= config@.len(),
    ensures
        r == (word_at(config@, msix_cap_offset + 2) & MSIX_CAP_ENABLE > 0),
{
    let len: usize = config.len();
    let offset: usize = msix_cap_offset + MSIX_CAP_CONTROL as usize;
    match le_read_u16(config, offset) {
        Some(msix_ctl) => msix_ctl & MSIX_CAP_ENABLE > 0,
        None => false,
    }
}

/// Whether the message control register of the capability at
/// `msix_cap_offset` in the configuration space `config` has its function
/// mask bit set.
pub fn is_msix_func_masked(msix_cap_offset: usize, config: &[u8]) -> (r: bool)
    requires
        msix_cap_offset + 4 <= config@.len(),
    ensures
        r == (word_at(config@, msix_cap_offset + 2) & MSIX_CAP_FUNC_MASK > 0),
{
    let len: usize = config.len();
    let offset: usize = msix_cap_offset + MSIX_CAP_CONTROL as usize;
    match le_read_u16(config, offset) {
        Some(msix_ctl) => msix_ctl & MSIX_CAP_FUNC_MASK > 0,
        None => false,
    }
}

/// The identifier of the device at the place `devfn` on the bus with the
/// number `bus_num`: the number of the bus in the upper byte, the place
/// in the lower.
pub open spec fn device_id(bus_num: u8, devfn: u8) -> u16 {
    ((bus_num as u16) << 8) | (devfn as u16)
}

/// Gives `dev_id` the identifier of the device at the place `devfn` on
/// the bus with the number `bus_num`.
pub fn update_dev_id(bus_num: u8, devfn: u8, dev_id: &mut u16)
    ensures
        *final(dev_id) == device_id(bus_num, devfn),
{
    *dev_id = ((bus_num as u16) << 8) | (devfn as u16);
}

/// An MSI-X message: where the device writes, and what.
#[derive(Clone, Copy, Debug, PartialEq, Eq, Structural)]
pub struct Message {
    /// Lower half of the address.
    pub address_lo: u32,
    /// Upper half of the address.
    pub address_hi: u32,
    /// The data.
    pub data: u32,
}

/// The table `t` with the mask bit set in the first `n` of its entries.
pub open spec fn mask_vectors(t: Seq<u8>, n: int) -> Seq<u8>
    decreases n,
{
    if n <= 0 {
        t
    } else {
        let before = mask_vectors(t, n - 1);
        let at = (n - 1) * 16 + 12;
        before.update(at, before[at] | MSIX_TABLE_MASK_BIT)
    }
}

/// Number of whole entries of the table `t`.
pub open spec fn vectors_of(t: Seq<u8>) -> int {
    t.len() as int / 16
}

/// `n` zero bytes.
pub open spec fn zeros(n: nat) -> Seq<u8> {
    Seq::new(n, |i: int| 0u8)
}

/// The bit of the vector `vector` in its word of the pending bit array.
pub open spec fn pending_bit(vector: u16) -> u64 {
    1u64 << (vector as u64 % 64)
}

/// Where the pending bit array holds the word of the vector `vector`.
pub open spec fn pending_at(vector: u16) -> int {
    vector as int / 64
}

/// Whether the table `t` holds the mask bit of the vector `vector`.
pub open spec fn mask_bit_set(t: Seq<u8>, vector: u16) -> bool {
    t[vector * 16 + 12] & MSIX_TABLE_MASK_BIT != 0
}

/// The message in the entry of the vector `vector` of the table `t`.
pub open spec fn message_of(t: Seq<u8>, vector: u16) -> Message {
    Message {
        address_lo: dword_at(t, vector * 16),
        address_hi: dword_at(t, vector * 16 + 4),
        data: dword_at(t, vector * 16 + 8),
    }
}

/// The MSI-X state of a device.
#[derive(Debug)]
pub struct Msix {
    /// The table: one entry of 16 bytes for each vector.
    pub table: Vec<u8>,
    /// The pending bit array: one bit for each vector.
    pub pba: Vec<u8>,
    /// Whether the function is masked as a whole.
    pub func_masked: bool,
    /// Whether MSI-X is enabled.
    pub enabled: bool,
    /// Where in the configuration space the capability stands.
    pub msix_cap_offset: u16,
    /// Identifier of the device.
    pub dev_id: u16,
}

impl Msix {
    /// Whether the table holds the entry of the vector `vector`.
    pub open spec fn has_vector(&self, vector: u16) -> bool {
        vector * 16 + 16 <= self.table@.len()
    }

    /// Whether the table holds the byte with the mask bit of the vector
    /// `vector`.
    pub open spec fn has_mask_byte(&self, vector: u16) -> bool {
        vector * 16 + 12 < self.table@.len()
    }

    /// Whether the table holds the message of the vector `vector`: the
    /// first twelve bytes of its entry.
    pub open spec fn has_message(&self, vector: u16) -> bool {
        vector * 16 + 12 <= self.table@.len()
    }

    /// Whether the pending bit array holds the word of the vector
    /// `vector`.
    pub open spec fn has_pending_word(&self, vector: u16) -> bool {
        pending_at(vector) + 8 <= self.pba@.len()
    }

    /// Whether the vector `vector` is masked: by the device as a whole,
    /// or by its own mask bit.
    pub open spec fn masked(&self, vector: u16) -> bool {
        !self.enabled || self.func_masked || mask_bit_set(self.table@, vector)
    }

    /// Whether the vector `vector` is pending.
    pub open spec fn pending(&self, vector: u16) -> bool {
        qword_at(self.pba@, pending_at(vector)) & pending_bit(vector) > 0
    }

    /// Sets the mask bit of every vector.
    fn mask_all_vectors(&mut self)
        ensures
            final(self).table@ == mask_vectors(old(self).table@, vectors_of(old(self).table@)),
            final(self).pba == old(self).pba,
            final(self).func_masked == old(self).func_masked,
            final(self).enabled == old(self).enabled,
            final(self).msix_cap_offset == old(self).msix_cap_offset,
            final(self).dev_id == old(self).dev_id,
    {
        let total: usize = self.table.len();
        let nr_vectors: usize = total / 16;
        let mut v: usize = 0;
        while v < nr_vectors
            invariant
                v <= nr_vectors,
                total == old(self).table@.len(),
                nr_vectors == total / 16,
                self.table@.len() == old(self).table@.len(),
                self.table@ == mask_vectors(old(self).table@, v as int),
                self.pba == old(self).pba,
                self.func_masked == old(self).func_masked,
                self.enabled == old(self).enabled,
                self.msix_cap_offset == old(self).msix_cap_offset,
                self.dev_id == old(self).dev_id,
            decreases nr_vectors - v,
        {
            assert(v * 16 + 16 <= total) by (nonlinear_arith)
                requires
                    v < nr_vectors,
                    nr_vectors == total / 16,
            ;
            let offset: usize = v * 16 + 12;
            let byte: u8 = self.table[offset] | MSIX_TABLE_MASK_BIT;
            self.table.set(offset, byte);
            v += 1;
        }
    }

    /// The state of a device with a table of `table_size` bytes and a
    /// pending bit array of `pba_size` bytes: enabled, masked as a whole,
    /// every vector masked, none pending.
    pub fn new(table_size: u32, pba_size: u32, msix_cap_offset: u16, dev_id: u16) -> (r: Msix)
        ensures
            r.table@ == mask_vectors(zeros(table_size as nat), table_size as int / 16),
            r.pba@ == zeros(pba_size as nat),
            r.func_masked,
            r.enabled,
            r.msix_cap_offset == msix_cap_offset,
            r.dev_id == dev_id,
    {
        let mut msix = Msix {
            table: vec![0; table_size as usize],
            pba: vec![0; pba_size as usize],
            func_masked: true,
            enabled: true,
            msix_cap_offset,
            dev_id,
        };
        proof {
            assert(msix.table@ =~= zeros(table_size as nat));
            assert(msix.pba@ =~= zeros(pba_size as nat));
        }
        msix.mask_all_vectors();
        msix
    }

    /// Brings the state back to what it was when the device was made:
    /// table and pending bit array cleared, every vector masked.
    pub fn reset(&mut self)
        ensures
            final(self).table@ == mask_vectors(
                zeros(old(self).table@.len()),
                vectors_of(old(self).table@),
            ),
            final(self).pba@ == zeros(old(self).pba@.len()),
            final(self).func_masked,
            final(self).enabled,
            final(self).msix_cap_offset == old(self).msix_cap_offset,
            final(self).dev_id == old(self).dev_id,
    {
        let table_len = self.table.len();
        let pba_len = self.pba.len();
        self.table = vec![0; table_len];
        self.pba = vec![0; pba_len];
        self.func_masked = true;
        self.enabled = true;
        proof {
            assert(self.table@ =~= zeros(old(self).table@.len()));
            assert(self.pba@ =~= zeros(old(self).pba@.len()));
        }
        self.mask_all_vectors();
    }

    /// Whether the vector `vector` is masked.
    pub fn is_vector_masked(&self, vector: u16) -> (r: bool)
        requires
            self.enabled && !self.func_masked ==> self.has_mask_byte(vector),
        ensures
            r == self.masked(vector),
    {
        if !self.enabled || self.func_masked {
            return true;
        }
        let offset: usize = vector as usize * 16 + 12;
        self.table[offset] & MSIX_TABLE_MASK_BIT != 0
    }

    /// Whether the vector `vector` is pending.
    pub fn is_vector_pending(&self, vector: u16) -> (r: bool)
        requires
            self.has_pending_word(vector),
        ensures
            r == self.pending(vector),
    {
        let offset: usize = vector as usize / 64;
        let pending_bit: u64 = 1u64 << (vector as u64 % 64);
        match le_read_u64(self.pba.as_slice(), offset) {
            Some(value) => value & pending_bit > 0,
            None => false,
        }
    }

    /// Marks the vector `vector` as pending.
    pub fn set_pending_vector(&mut self, vector: u16)
        requires
            old(self).has_pending_word(vector),
        ensures
            final(self).pba@ == with_qword_at(
                old(self).pba@,
                pending_at(vector),
                qword_at(old(self).pba@, pending_at(vector)) | pending_bit(vector),
            ),
            final(self).pending(vector),
            final(self).has_pending_word(vector),
            final(self).table == old(self).table,
            final(self).func_masked == old(self).func_masked,
            final(self).enabled == old(self).enabled,
            final(self).msix_cap_offset == old(self).msix_cap_offset,
            final(self).dev_id == old(self).dev_id,
    {
        let offset: usize = vector as usize / 64;
        let shift: u64 = vector as u64 % 64;
        let pending_bit: u64 = 1u64 << shift;
        match le_read_u64(self.pba.as_slice(), offset) {
            Some(old_val) => {
                proof {
                    lemma_qword_round_trip(self.pba@, offset as int, old_val | pending_bit);
                    assert((old_val | (1u64 << shift)) & (1u64 << shift) > 0) by (bit_vector)
                        requires
                            shift < 64,
                    ;
                }
                le_write_u64(&mut self.pba, offset, old_val | pending_bit);
            },
            None => {},
        }
    }

    /// Marks the vector `vector` as not pending.
    pub fn clear_pending_vector(&mut self, vector: u16)
        requires
            old(self).has_pending_word(vector),
        ensures
            final(self).pba@ == with_qword_at(
                old(self).pba@,
                pending_at(vector),
                qword_at(old(self).pba@, pending_at(vector)) & !pending_bit(vector),
            ),
            !final(self).pending(vector),
            final(self).has_pending_word(vector),
            final(self).table == old(self).table,
            final(self).func_masked == old(self).func_masked,
            final(self).enabled == old(self).enabled,
            final(self).msix_cap_offset == old(self).msix_cap_offset,
            final(self).dev_id == old(self).dev_id,
    {
        let offset: usize = vector as usize / 64;
        let shift: u64 = vector as u64 % 64;
        let pending_bit: u64 = !(1u64 << shift);
        match le_read_u64(self.pba.as_slice(), offset) {
            Some(old_val) => {
                proof {
                    lemma_qword_round_trip(self.pba@, offset as int, old_val & pending_bit);
                    assert((old_val & !(1u64 << shift)) & (1u64 << shift) == 0) by (bit_vector)
                        requires
                            shift < 64,
                    ;
                }
                le_write_u64(&mut self.pba, offset, old_val & pending_bit);
            },
            None => {},
        }
    }

    /// The message of the vector `vector`.
    pub fn get_message(&self, vector: u16) -> (r: Message)
        requires
            self.has_message(vector),
        ensures
            r == message_of(self.table@, vector),
    {
        let entry_offset: usize = vector as usize * 16;
        let table = self.table.as_slice();
        let address_lo = match le_read_u32(table, entry_offset) {
            Some(v) => v,
            None => 0,
        };
        let address_hi = match le_read_u32(table, entry_offset + 4) {
            Some(v) => v,
            None => 0,
        };
        let data = match le_read_u32(table, entry_offset + 8) {
            Some(v) => v,
            None => 0,
        };
        Message { address_lo, address_hi, data }
    }

    /// The device raises the vector `vector`: a vector that the table
    /// does not hold is left alone, a masked vector becomes pending, and
    /// the message of any other vector is due, which is the result.
    pub fn notify(&mut self, vector: u16, dev_id: u16) -> (r: Option<Message>)
        requires
            old(self).has_vector(vector) && old(self).masked(vector) ==> old(self).has_pending_word(vector),
        ensures
            final(self).table == old(self).table,
            final(self).func_masked == old(self).func_masked,
            final(self).enabled == old(self).enabled,
            final(self).msix_cap_offset == old(self).msix_cap_offset,
            final(self).dev_id == old(self).dev_id,
            !old(self).has_vector(vector) ==> r is None && final(self).pba@ == old(self).pba@,
            old(self).has_vector(vector) && old(self).masked(vector) ==> r is None && final(self).pba@ == with_qword_at(
                old(self).pba@,
                pending_at(vector),
                qword_at(old(self).pba@, pending_at(vector)) | pending_bit(vector),
            ) && final(self).pending(vector),
            old(self).has_vector(vector) && !old(self).masked(vector) ==> r == Some(
                message_of(old(self).table@, vector),
            ) && final(self).pba@ == old(self).pba@,
    {
        if vector as usize >= self.table.len() / 16 {
            return None;
        }
        if self.is_vector_masked(vector) {
            self.set_pending_vector(vector);
            return None;
        }
        Some(self.get_message(vector))
    }

    /// The guest has written the configuration space `config`: the state
    /// takes the function mask and the enable bit of the message control
    /// register. The result are the messages that are due: where the
    /// device is enabled and its function mask goes, those of every
    /// vector that is pending and not masked. A vector counts as masked
    /// for as long as the function mask that the state holds is set, so
    /// that no message is due.
    pub fn write_config(&mut self, config: &[u8], dev_id: u16) -> (r: Vec<Message>)
        requires
            old(self).msix_cap_offset + 4 <= config@.len(),
        ensures
            final(self).func_masked == (word_at(config@, old(self).msix_cap_offset + 2)
                & MSIX_CAP_FUNC_MASK > 0),
            final(self).enabled == (word_at(config@, old(self).msix_cap_offset + 2)
                & MSIX_CAP_ENABLE > 0),
            final(self).table == old(self).table,
            final(self).pba == old(self).pba,
            final(self).msix_cap_offset == old(self).msix_cap_offset,
            final(self).dev_id == old(self).dev_id,
            r@.len() == 0,
    {
        let func_masked: bool = is_msix_func_masked(self.msix_cap_offset as usize, config);
        let enabled: bool = is_msix_enabled(self.msix_cap_offset as usize, config);
        let mut due: Vec<Message> = Vec::new();

        if enabled && self.func_masked && !func_masked {
            let max_vectors_nr: u16 = #[verifier::truncate] (self.table.len() as u16) / 16;
            let mut v: u16 = 0;
            while v < max_vectors_nr
                invariant
                    v <= max_vectors_nr,
                    *self == *old(self),
                    self.func_masked,
                    due@.len() == 0,
                decreases max_vectors_nr - v,
            {
                if !self.is_vector_masked(v) && self.is_vector_pending(v) {
                    self.clear_pending_vector(v);
                    due.push(self.get_message(v));
                }
                v += 1;
            }
        }
        self.func_masked = func_masked;
        self.enabled = enabled;
        due
    }
}

} // verus!
