//! A builder for ACPI machine language: values that know their byte
//! encoding, and scopes that take such values as children.

use vstd::prelude::*;

verus! {

/// Longest name segment, in bytes.
pub const ACPI_NAME_SEG_MAX: u8 = 4;

/// A value with an encoding in ACPI machine language.
pub trait AmlBuilder {
    /// Whether the value has an encoding.
    spec fn encodable(&self) -> bool;

    /// The encoding of the value.
    spec fn aml(&self) -> Seq<u8>;

    /// The encoding of the value, as bytes.
    fn aml_bytes(&self) -> (r: Vec<u8>)
        requires
            self.encodable(),
        ensures
            r@ == self.aml(),
    ;
}

/// A value that holds a run of encoded children, such as a device or a
/// scope.
pub trait AmlScopeBuilder: AmlBuilder {
    /// What the value holds behind its opcode and its length: its own
    /// header, then the encodings of its children in order.
    spec fn body(&self) -> Seq<u8>;

    /// Puts `child` behind the children that the value holds.
    fn append_child<T: AmlBuilder>(&mut self, child: T)
        requires
            child.encodable(),
        ensures
            final(self).body() == old(self).body() + child.aml(),
            old(self).encodable() ==> final(self).encodable(),
    ;
}

/// Puts the bytes of `src` behind those of `dst`.
fn append_bytes(dst: &mut Vec<u8>, src: &[u8])
    ensures
        final(dst)@ == old(dst)@ + src@,
{
    let mut i: usize = 0;
    while i < src.len()
        invariant
            i <= src.len(),
            dst@ == old(dst)@ + src@.subrange(0, i as int),
        decreases src.len() - i,
    {
        dst.push(src[i]);
        proof {
            assert(dst@ =~= old(dst)@ + src@.subrange(0, i + 1));
        }
        i += 1;
    }
    proof {
        assert(src@.subrange(0, src@.len() as int) =~= src@);
    }
}

/// The bytes of `src`, as a vector of their own.
fn copy_bytes(src: &[u8]) -> (r: Vec<u8>)
    ensures
        r@ == src@,
{
    let mut out: Vec<u8> = Vec::new();
    append_bytes(&mut out, src);
    proof {
        assert(out@ =~= src@);
    }
    out
}

/// The bytes of a text, in UTF-8.
pub open spec fn text_bytes(text: Seq<char>) -> Seq<u8> {
    vstd::utf8::encode_utf8(text)
}

/// The two bytes of a word, lowest first.
pub open spec fn word_bytes(v: u16) -> Seq<u8> {
    seq![v as u8, (v >> 8) as u8]
}

/// The four bytes of a double word, lowest first.
pub open spec fn dword_bytes(v: u32) -> Seq<u8> {
    seq![v as u8, (v >> 8) as u8, (v >> 16) as u8, (v >> 24) as u8]
}

/// The eight bytes of a quad word, lowest first.
pub open spec fn qword_bytes(v: u64) -> Seq<u8> {
    seq![
        v as u8,
        (v >> 8) as u8,
        (v >> 16) as u8,
        (v >> 24) as u8,
        (v >> 32) as u8,
        (v >> 40) as u8,
        (v >> 48) as u8,
        (v >> 56) as u8,
    ]
}

/// The encoding of an integer: the shortest of the constants Zero and
/// One and the byte, word, double word and quad word forms that holds
/// the value.
pub open spec fn integer_aml(v: u64) -> Seq<u8> {
    if v == 0 {
        seq![0x00u8]
    } else if v == 1 {
        seq![0x01u8]
    } else if v <= 0xFF {
        seq![0x0Au8, v as u8]
    } else if v <= 0xFFFF {
        seq![0x0Bu8] + word_bytes(v as u16)
    } else if v <= 0xFFFF_FFFF {
        seq![0x0Cu8] + dword_bytes(v as u32)
    } else {
        seq![0x0Eu8] + qword_bytes(v)
    }
}

/// Whether the byte opens a name: the root sign or the parent sign.
pub open spec fn is_name_prefix(b: u8) -> bool {
    b == 0x5C || b == 0x5E
}

/// Number of bytes of `s` before its first dot, or all of them.
pub open spec fn first_segment_len(s: Seq<u8>) -> nat
    decreases s.len(),
{
    if s.len() == 0 || s[0] == 0x2E {
        0
    } else {
        1 + first_segment_len(s.skip(1))
    }
}

/// Number of root and parent signs at the start of `s`.
pub open spec fn prefix_len(s: Seq<u8>) -> nat
    decreases s.len(),
{
    if s.len() == 0 || !is_name_prefix(s[0]) {
        0
    } else {
        1 + prefix_len(s.skip(1))
    }
}

/// Number of dots in `s`.
pub open spec fn dots(s: Seq<u8>) -> nat
    decreases s.len(),
{
    if s.len() == 0 {
        0
    } else if s[0] == 0x2E {
        1 + dots(s.skip(1))
    } else {
        dots(s.skip(1))
    }
}

/// `n` underscores.
pub open spec fn padding(n: int) -> Seq<u8> {
    Seq::new(
        if n > 0 {
            n as nat
        } else {
            0
        },
        |i: int| 0x5Fu8,
    )
}

/// Whether every segment of `s` between dots has at most four bytes;
/// `held` is the number of bytes of the segment at hand that came before
/// `s`.
pub open spec fn segments_fit(s: Seq<u8>, held: nat) -> bool
    decreases s.len(),
{
    if s.len() == 0 {
        held <= 4
    } else if s[0] == 0x2E {
        held <= 4 && segments_fit(s.skip(1), 0)
    } else {
        segments_fit(s.skip(1), held + 1)
    }
}

/// The segments of `s` between dots, each filled up to four bytes with
/// underscores; `held` is the number of bytes of the segment at hand
/// that came before `s`.
pub open spec fn padded_segments(s: Seq<u8>, held: nat) -> Seq<u8>
    decreases s.len(),
{
    if s.len() == 0 {
        padding(4 - held)
    } else if s[0] == 0x2E {
        padding(4 - held) + padded_segments(s.skip(1), 0)
    } else {
        seq![s[0]] + padded_segments(s.skip(1), held + 1)
    }
}

/// Whether `name` is a name segment: at most four bytes.
pub open spec fn name_seg_ok(name: Seq<u8>) -> bool {
    name.len() <= 4
}

/// The encoding of a name segment: its bytes, filled up to four with
/// underscores.
pub open spec fn name_seg(name: Seq<u8>) -> Seq<u8> {
    name + padding(4 - name.len())
}

/// Where the segments of the name string `s` start: behind its root and
/// parent signs, unless its first segment is nothing but such signs.
pub open spec fn segments_start(s: Seq<u8>) -> nat {
    let lead = prefix_len(s.take(first_segment_len(s) as int));
    if lead == first_segment_len(s) {
        0
    } else {
        lead
    }
}

/// Whether `s` is a name string: segments of at most four bytes with
/// dots between them, no more than 255 of them, behind any number of
/// root and parent signs.
pub open spec fn name_string_ok(s: Seq<u8>) -> bool {
    &&& dots(s) + 1 <= 255
    &&& segments_fit(s.skip(segments_start(s) as int), 0)
}

/// The encoding of a name string: its root and parent signs; then
/// nothing for one segment, the dual prefix for two, and the multi
/// prefix with their number for more; then the segments, each filled up
/// to four bytes. The empty name is the null name.
pub open spec fn name_string(s: Seq<u8>) -> Seq<u8> {
    let lead = prefix_len(s.take(first_segment_len(s) as int));
    let count = dots(s) + 1;
    let signs = s.take(lead as int);
    let segments = padded_segments(s.skip(segments_start(s) as int), 0);
    if count == 1 {
        if s.len() == 0 {
            seq![0x00u8]
        } else {
            signs + segments
        }
    } else if count == 2 {
        signs + seq![0x2Eu8] + segments
    } else {
        signs + seq![0x2Fu8, count as u8] + segments
    }
}

/// Number of bytes that the length of a package of `length` bytes takes.
pub open spec fn pkg_length_bytes(length: usize) -> u128 {
    if length + 1 < 0x40 {
        1
    } else if length + 2 < 0x1000 {
        2
    } else if length + 3 < 0x10_0000 {
        3
    } else {
        4
    }
}

/// The encoding of the length of a package of `length` bytes, which
/// counts its own bytes where `include_self` is set. One byte holds a
/// length below 64. Otherwise the first byte holds the number of bytes
/// that follow in its upper two bits and the lowest four bits of the
/// length, and the bytes that follow hold the rest, lowest first.
pub open spec fn pkg_length(length: usize, include_self: bool) -> Seq<u8> {
    let count = pkg_length_bytes(length);
    let total: u128 = if include_self {
        (length + count) as u128
    } else {
        length as u128
    };
    if count == 1 {
        seq![total as u8]
    } else if count == 2 {
        seq![(0x40u128 | (total & 0xF)) as u8, (total >> 4) as u8]
    } else if count == 3 {
        seq![(0x80u128 | (total & 0xF)) as u8, (total >> 4) as u8, (total >> 12) as u8]
    } else {
        seq![
            (0xC0u128 | (total & 0xF)) as u8,
            (total >> 4) as u8,
            (total >> 12) as u8,
            (total >> 20) as u8,
        ]
    }
}

/// The value of a hexadecimal digit; zero for any other byte.
pub open spec fn hex_value(b: u8) -> u8 {
    if 0x30 <= b <= 0x39 {
        (b - 0x30) as u8
    } else if 0x61 <= b <= 0x66 {
        (b - 0x61 + 10) as u8
    } else if 0x41 <= b <= 0x46 {
        (b - 0x41 + 10) as u8
    } else {
        0
    }
}

/// Whether the byte is a hexadecimal digit.
pub open spec fn is_hex_digit(b: u8) -> bool {
    (0x30 <= b <= 0x39) || (0x61 <= b <= 0x66) || (0x41 <= b <= 0x46)
}

/// Whether `s` is an EISA identifier: three characters from `@` on, then
/// four hexadecimal digits.
pub open spec fn eisa_id_ok(s: Seq<u8>) -> bool {
    &&& s.len() == 7
    &&& forall|i: int| 0 <= i < 3 ==> 0x40 <= #[trigger] s[i] <= 0x7F
    &&& forall|i: int| 3 <= i < 7 ==> is_hex_digit(#[trigger] s[i])
}

/// The number that an EISA identifier stands for: five bits for each of
/// the three characters, counted from `@`, then four bits for each
/// digit.
pub open spec fn eisa_id_value(s: Seq<u8>) -> u32 {
    ((s[0] - 0x40) as u32) << 26 | ((s[1] - 0x40) as u32) << 21 | ((s[2] - 0x40) as u32) << 16 | (
    hex_value(s[3]) as u32) << 12 | (hex_value(s[4]) as u32) << 8 | (hex_value(s[5]) as u32) << 4
        | (hex_value(s[6]) as u32)
}

/// Whether `s` is a UUID in text: 36 bytes, dashes at the places 8, 13,
/// 18 and 23, hexadecimal digits elsewhere.
pub open spec fn uuid_ok(s: Seq<u8>) -> bool {
    &&& s.len() == 36
    &&& s[8] == 0x2D && s[13] == 0x2D && s[18] == 0x2D && s[23] == 0x2D
    &&& forall|i: int| 0 <= i < 36 ==> #[trigger] s[i] == 0x2D || is_hex_digit(s[i])
}

/// The places in the text of a UUID at which the pairs of digits of its
/// 16 bytes start, in the order of the encoding.
pub open spec fn uuid_places() -> Seq<int> {
    seq![6, 4, 2, 0, 11, 9, 16, 14, 19, 21, 24, 26, 28, 30, 32, 34]
}

/// The byte that the two digits of `s` at `place` stand for.
pub open spec fn hex_pair(s: Seq<u8>, place: int) -> u8 {
    hex_value(s[place]) << 4 | hex_value(s[place + 1])
}

/// The 16 bytes of the UUID with the text `s`: the first three groups
/// with their bytes in reverse, the rest in order.
pub open spec fn uuid_bytes(s: Seq<u8>) -> Seq<u8> {
    Seq::new(16, |k: int| hex_pair(s, uuid_places()[k]))
}

/// The value of the hexadecimal digit `b`, or zero.
fn hex_digit(b: u8) -> (r: u8)
    ensures
        r == hex_value(b),
        r < 16,
{
    if 0x30 <= b && b <= 0x39 {
        b - 0x30
    } else if 0x61 <= b && b <= 0x66 {
        b - 0x61 + 10
    } else if 0x41 <= b && b <= 0x46 {
        b - 0x41 + 10
    } else {
        0
    }
}

/// The encoding of the name segment `name`.
pub fn build_name_seg(name: &[u8]) -> (r: Vec<u8>)
    requires
        name_seg_ok(name@),
    ensures
        r@ == name_seg(name@),
{
    let mut bytes = copy_bytes(name);
    let mut i: usize = name.len();
    while i < 4
        invariant
            name@.len() <= i <= 4,
            bytes@ == name@ + padding(i - name@.len()),
        decreases 4 - i,
    {
        bytes.push(0x5F);
        proof {
            assert(bytes@ =~= name@ + padding(i + 1 - name@.len()));
        }
        i += 1;
    }
    bytes
}

/// Puts the segments of `s` from the `from`-th byte on behind `bytes`,
/// each filled up to four bytes.
fn push_segments(bytes: &mut Vec<u8>, s: &[u8], from: usize)
    requires
        from <= s@.len(),
        segments_fit(s@.skip(from as int), 0),
    ensures
        final(bytes)@ == old(bytes)@ + padded_segments(s@.skip(from as int), 0),
{
    let mut i: usize = from;
    let mut held: usize = 0;
    proof {
        assert(old(bytes)@ + Seq::<u8>::empty() =~= old(bytes)@);
    }
    let ghost mut done: Seq<u8> = Seq::empty();
    while i < s.len()
        invariant
            from <= i <= s@.len(),
            held <= i - from,
            bytes@ == old(bytes)@ + done,
            segments_fit(s@.skip(i as int), held as nat),
            done + padded_segments(s@.skip(i as int), held as nat) == padded_segments(
                s@.skip(from as int),
                0,
            ),
        decreases s.len() - i,
    {
        let ghost rest = s@.skip(i as int);
        proof {
            assert(rest[0] == s@[i as int]);
            assert(rest.skip(1) =~= s@.skip(i + 1));
        }
        if s[i] == 0x2E {
            let mut k: usize = held;
            let ghost before = done;
            while k < 4
                invariant
                    held <= k <= 4,
                    bytes@ == old(bytes)@ + done,
                    done == before + padding(k - held),
                decreases 4 - k,
            {
                bytes.push(0x5F);
                proof {
                    done = done.push(0x5Fu8);
                    assert(done =~= before + padding(k + 1 - held));
                }
                k += 1;
            }
            proof {
                assert(done + padded_segments(rest.skip(1), 0) =~= before + padded_segments(
                    rest,
                    held as nat,
                ));
            }
            held = 0;
        } else {
            bytes.push(s[i]);
            proof {
                let before = done;
                done = done.push(s@[i as int]);
                assert(done + padded_segments(rest.skip(1), (held + 1) as nat) =~= before
                    + padded_segments(rest, held as nat));
            }
            held += 1;
        }
        i += 1;
    }
    let mut k: usize = held;
    let ghost before = done;
    proof {
        assert(s@.skip(i as int).len() == 0);
    }
    while k < 4
        invariant
            held <= k <= 4,
            bytes@ == old(bytes)@ + done,
            done == before + padding(k - held),
        decreases 4 - k,
    {
        bytes.push(0x5F);
        proof {
            done = done.push(0x5Fu8);
            assert(done =~= before + padding(k + 1 - held));
        }
        k += 1;
    }
    proof {
        assert(before + padding(0) =~= before);
    }
}

/// The encoding of the name string `name`.
pub fn build_name_string(name: &[u8]) -> (r: Vec<u8>)
    requires
        name_string_ok(name@),
    ensures
        r@ == name_string(name@),
{
    // the end of the first segment
    let mut first_end: usize = 0;
    proof {
        assert(name@.skip(0) =~= name@);
    }
    while first_end < name.len() && name[first_end] != 0x2E
        invariant
            first_end <= name@.len(),
            first_end + first_segment_len(name@.skip(first_end as int)) == first_segment_len(
                name@,
            ),
        decreases name.len() - first_end,
    {
        proof {
            assert(name@.skip(first_end as int).skip(1) =~= name@.skip(first_end + 1));
        }
        first_end += 1;
    }
    let ghost first = name@.take(first_end as int);
    // the root and parent signs at its start
    let mut lead: usize = 0;
    proof {
        assert(first.skip(0) =~= first);
    }
    while lead < first_end && (name[lead] == 0x5C || name[lead] == 0x5E)
        invariant
            lead <= first_end <= name@.len(),
            first == name@.take(first_end as int),
            lead + prefix_len(first.skip(lead as int)) == prefix_len(first),
        decreases first_end - lead,
    {
        proof {
            assert(first.skip(lead as int)[0] == name@[lead as int]);
            assert(first.skip(lead as int).skip(1) =~= first.skip(lead + 1));
        }
        lead += 1;
    }
    proof {
        assert(first.skip(0) =~= first);
        if lead < first_end {
            assert(first.skip(lead as int)[0] == name@[lead as int]);
        }
    }
    // the number of segments
    let mut count: usize = 1;
    let mut i: usize = 0;
    while i < name.len()
        invariant
            i <= name@.len(),
            1 <= count,
            dots(name@) + 1 <= 255,
            count - 1 + dots(name@.skip(i as int)) == dots(name@),
        decreases name.len() - i,
    {
        proof {
            assert(name@.skip(i as int).skip(1) =~= name@.skip(i + 1));
        }
        if name[i] == 0x2E {
            count += 1;
        }
        i += 1;
    }
    let start: usize = if lead == first_end {
        0
    } else {
        lead
    };

    let mut bytes: Vec<u8> = Vec::new();
    let mut k: usize = 0;
    while k < lead
        invariant
            k <= lead <= name@.len(),
            bytes@ == name@.take(k as int),
        decreases lead - k,
    {
        bytes.push(name[k]);
        proof {
            assert(bytes@ =~= name@.take(k + 1));
        }
        k += 1;
    }
    proof {
        assert(first.take(lead as int) =~= name@.take(lead as int));
    }
    if count == 1 {
        if name.len() == 0 {
            bytes.push(0x00);
            proof {
                assert(bytes@ =~= seq![0x00u8]);
            }
        } else {
            push_segments(&mut bytes, name, start);
        }
    } else if count == 2 {
        bytes.push(0x2E);
        push_segments(&mut bytes, name, start);
    } else {
        bytes.push(0x2F);
        bytes.push(count as u8);
        proof {
            assert(bytes@ =~= name@.take(lead as int) + seq![0x2Fu8, count as u8]);
        }
        push_segments(&mut bytes, name, start);
    }
    bytes
}

/// The encoding of the length of a package of `length` bytes, which
/// counts its own bytes where `include_self` is set.
pub fn build_pkg_length(length: usize, include_self: bool) -> (r: Vec<u8>)
    ensures
        r@ == pkg_length(length, include_self),
{
    let len: u128 = length as u128;
    let count: u128 = if len + 1 < 0x40 {
        1
    } else if len + 2 < 0x1000 {
        2
    } else if len + 3 < 0x10_0000 {
        3
    } else {
        4
    };
    let total: u128 = if include_self {
        len + count
    } else {
        len
    };
    let mut bytes: Vec<u8> = Vec::new();
    if count == 1 {
        bytes.push(#[verifier::truncate] (total as u8));
    } else if count == 2 {
        bytes.push(#[verifier::truncate] ((0x40u128 | (total & 0xF)) as u8));
        bytes.push(#[verifier::truncate] ((total >> 4) as u8));
    } else if count == 3 {
        bytes.push(#[verifier::truncate] ((0x80u128 | (total & 0xF)) as u8));
        bytes.push(#[verifier::truncate] ((total >> 4) as u8));
        bytes.push(#[verifier::truncate] ((total >> 12) as u8));
    } else {
        bytes.push(#[verifier::truncate] ((0xC0u128 | (total & 0xF)) as u8));
        bytes.push(#[verifier::truncate] ((total >> 4) as u8));
        bytes.push(#[verifier::truncate] ((total >> 12) as u8));
        bytes.push(#[verifier::truncate] ((total >> 20) as u8));
    }
    proof {
        assert(bytes@ =~= pkg_length(length, include_self));
    }
    bytes
}

/// An opcode, the length of what follows counted with its own bytes, and
/// what follows.
pub open spec fn package_aml(opcode: Seq<u8>, body: Seq<u8>) -> Seq<u8> {
    opcode + pkg_length(body.len() as usize, true) + body
}

/// The bytes of a package: `opcode`, the length of `body` counted with
/// its own bytes, and `body`.
fn build_package(opcode: &[u8], body: &Vec<u8>) -> (r: Vec<u8>)
    ensures
        r@ == package_aml(opcode@, body@),
{
    let mut bytes = copy_bytes(opcode);
    let mut length = build_pkg_length(body.len(), true);
    bytes.append(&mut length);
    append_bytes(&mut bytes, body.as_slice());
    bytes
}

/// The constant zero.
#[derive(Clone, Copy, Debug)]
pub struct AmlZero;

impl AmlBuilder for AmlZero {
    open spec fn encodable(&self) -> bool {
        true
    }

    open spec fn aml(&self) -> Seq<u8> {
        seq![0x00u8]
    }

    fn aml_bytes(&self) -> (r: Vec<u8>) {
        let mut bytes: Vec<u8> = Vec::new();
        bytes.push(0x00);
        bytes
    }
}

/// The constant one.
#[derive(Clone, Copy, Debug)]
pub struct AmlOne;

impl AmlBuilder for AmlOne {
    open spec fn encodable(&self) -> bool {
        true
    }

    open spec fn aml(&self) -> Seq<u8> {
        seq![0x01u8]
    }

    fn aml_bytes(&self) -> (r: Vec<u8>) {
        let mut bytes: Vec<u8> = Vec::new();
        bytes.push(0x01);
        bytes
    }
}

/// The constant with every bit set.
#[derive(Clone, Copy, Debug)]
pub struct AmlOnes;

impl AmlBuilder for AmlOnes {
    open spec fn encodable(&self) -> bool {
        true
    }

    open spec fn aml(&self) -> Seq<u8> {
        seq![0xFFu8]
    }

    fn aml_bytes(&self) -> (r: Vec<u8>) {
        let mut bytes: Vec<u8> = Vec::new();
        bytes.push(0xFF);
        bytes
    }
}

/// An integer of one byte.
#[derive(Clone, Copy, Debug)]
pub struct AmlByte(pub u8);

impl AmlBuilder for AmlByte {
    open spec fn encodable(&self) -> bool {
        true
    }

    open spec fn aml(&self) -> Seq<u8> {
        seq![0x0Au8, self.0]
    }

    fn aml_bytes(&self) -> (r: Vec<u8>) {
        let mut bytes: Vec<u8> = Vec::new();
        bytes.push(0x0A);
        bytes.push(self.0);
        bytes
    }
}

/// An integer of two bytes.
#[derive(Clone, Copy, Debug)]
pub struct AmlWord(pub u16);

impl AmlBuilder for AmlWord {
    open spec fn encodable(&self) -> bool {
        true
    }

    open spec fn aml(&self) -> Seq<u8> {
        seq![0x0Bu8] + word_bytes(self.0)
    }

    fn aml_bytes(&self) -> (r: Vec<u8>) {
        let v = self.0;
        let mut bytes: Vec<u8> = Vec::new();
        bytes.push(0x0B);
        bytes.push(#[verifier::truncate] (v as u8));
        bytes.push(#[verifier::truncate] ((v >> 8) as u8));
        proof {
            assert(bytes@ =~= seq![0x0Bu8] + word_bytes(v));
        }
        bytes
    }
}

/// An integer of four bytes.
#[derive(Clone, Copy, Debug)]
pub struct AmlDWord(pub u32);

impl AmlBuilder for AmlDWord {
    open spec fn encodable(&self) -> bool {
        true
    }

    open spec fn aml(&self) -> Seq<u8> {
        seq![0x0Cu8] + dword_bytes(self.0)
    }

    fn aml_bytes(&self) -> (r: Vec<u8>) {
        let v = self.0;
        let mut bytes: Vec<u8> = Vec::new();
        bytes.push(0x0C);
        bytes.push(#[verifier::truncate] (v as u8));
        bytes.push(#[verifier::truncate] ((v >> 8) as u8));
        bytes.push(#[verifier::truncate] ((v >> 16) as u8));
        bytes.push(#[verifier::truncate] ((v >> 24) as u8));
        proof {
            assert(bytes@ =~= seq![0x0Cu8] + dword_bytes(v));
        }
        bytes
    }
}

/// An integer of eight bytes.
#[derive(Clone, Copy, Debug)]
pub struct AmlQWord(pub u64);

impl AmlBuilder for AmlQWord {
    open spec fn encodable(&self) -> bool {
        true
    }

    open spec fn aml(&self) -> Seq<u8> {
        seq![0x0Eu8] + qword_bytes(self.0)
    }

    fn aml_bytes(&self) -> (r: Vec<u8>) {
        let v = self.0;
        let mut bytes: Vec<u8> = Vec::new();
        bytes.push(0x0E);
        bytes.push(#[verifier::truncate] (v as u8));
        bytes.push(#[verifier::truncate] ((v >> 8) as u8));
        bytes.push(#[verifier::truncate] ((v >> 16) as u8));
        bytes.push(#[verifier::truncate] ((v >> 24) as u8));
        bytes.push(#[verifier::truncate] ((v >> 32) as u8));
        bytes.push(#[verifier::truncate] ((v >> 40) as u8));
        bytes.push(#[verifier::truncate] ((v >> 48) as u8));
        bytes.push(#[verifier::truncate] ((v >> 56) as u8));
        proof {
            assert(bytes@ =~= seq![0x0Eu8] + qword_bytes(v));
        }
        bytes
    }
}

/// An integer, in the shortest form that holds it.
#[derive(Clone, Copy, Debug)]
pub struct AmlInteger(pub u64);

impl AmlBuilder for AmlInteger {
    open spec fn encodable(&self) -> bool {
        true
    }

    open spec fn aml(&self) -> Seq<u8> {
        integer_aml(self.0)
    }

    fn aml_bytes(&self) -> (r: Vec<u8>) {
        let v = self.0;
        if v == 0 {
            AmlZero.aml_bytes()
        } else if v == 1 {
            AmlOne.aml_bytes()
        } else if v <= 0xFF {
            AmlByte(#[verifier::truncate] (v as u8)).aml_bytes()
        } else if v <= 0xFFFF {
            AmlWord(#[verifier::truncate] (v as u16)).aml_bytes()
        } else if v <= 0xFFFF_FFFF {
            AmlDWord(#[verifier::truncate] (v as u32)).aml_bytes()
        } else {
            AmlQWord(v).aml_bytes()
        }
    }
}

/// A text, closed by a zero byte.
#[derive(Debug)]
pub struct AmlString(pub String);

impl AmlBuilder for AmlString {
    open spec fn encodable(&self) -> bool {
        true
    }

    open spec fn aml(&self) -> Seq<u8> {
        seq![0x0Du8] + text_bytes(self.0@) + seq![0x00u8]
    }

    fn aml_bytes(&self) -> (r: Vec<u8>) {
        let mut bytes: Vec<u8> = Vec::new();
        bytes.push(0x0D);
        append_bytes(&mut bytes, self.0.as_str().as_bytes());
        bytes.push(0x0);
        proof {
            assert(bytes@ =~= seq![0x0Du8] + text_bytes(self.0@) + seq![0x00u8]);
        }
        bytes
    }
}

/// The declaration of a named object.
#[derive(Debug)]
pub struct AmlNameDecl {
    name: Vec<u8>,
    obj: Vec<u8>,
}

impl AmlNameDecl {
    /// The name that is declared.
    pub closed spec fn name(&self) -> Seq<u8> {
        self.name@
    }

    /// The encoding of the object that is named.
    pub closed spec fn object(&self) -> Seq<u8> {
        self.obj@
    }

    /// The declaration of `obj` under the name `name`.
    pub fn new<T: AmlBuilder>(name: &str, obj: T) -> (r: AmlNameDecl)
        requires
            obj.encodable(),
        ensures
            r.name() == text_bytes(name@),
            r.object() == obj.aml(),
    {
        AmlNameDecl { name: copy_bytes(name.as_bytes()), obj: obj.aml_bytes() }
    }
}

impl AmlBuilder for AmlNameDecl {
    open spec fn encodable(&self) -> bool {
        name_string_ok(self.name())
    }

    open spec fn aml(&self) -> Seq<u8> {
        seq![0x08u8] + name_string(self.name()) + self.object()
    }

    fn aml_bytes(&self) -> (r: Vec<u8>) {
        let mut bytes: Vec<u8> = Vec::new();
        bytes.push(0x08);
        let mut name = build_name_string(self.name.as_slice());
        bytes.append(&mut name);
        append_bytes(&mut bytes, self.obj.as_slice());
        bytes
    }
}

/// A named object that has been declared before.
#[derive(Debug)]
pub struct AmlName(pub String);

impl Clone for AmlName {
    fn clone(&self) -> (r: AmlName)
        ensures
            r.0@ == self.0@,
    {
        AmlName(self.0.clone())
    }
}

impl AmlBuilder for AmlName {
    open spec fn encodable(&self) -> bool {
        name_string_ok(text_bytes(self.0@))
    }

    open spec fn aml(&self) -> Seq<u8> {
        name_string(text_bytes(self.0@))
    }

    fn aml_bytes(&self) -> (r: Vec<u8>) {
        build_name_string(self.0.as_str().as_bytes())
    }
}

/// An EISA identifier, such as `PNP0A03`.
#[derive(Debug)]
pub struct AmlEisaId {
    name: Vec<u8>,
}

impl AmlEisaId {
    /// The text of the identifier.
    pub closed spec fn name(&self) -> Seq<u8> {
        self.name@
    }

    /// The identifier with the text `name`, which has seven bytes.
    pub fn new(name: &str) -> (r: AmlEisaId)
        requires
            text_bytes(name@).len() == 7,
        ensures
            r.name() == text_bytes(name@),
    {
        AmlEisaId { name: copy_bytes(name.as_bytes()) }
    }
}

impl AmlBuilder for AmlEisaId {
    open spec fn encodable(&self) -> bool {
        eisa_id_ok(self.name())
    }

    open spec fn aml(&self) -> Seq<u8> {
        let value = eisa_id_value(self.name());
        seq![0x0Cu8, (value >> 24) as u8, (value >> 16) as u8, (value >> 8) as u8, value as u8]
    }

    fn aml_bytes(&self) -> (r: Vec<u8>) {
        let s = &self.name;
        let h3 = hex_digit(s[3]);
        let h4 = hex_digit(s[4]);
        let h5 = hex_digit(s[5]);
        let h6 = hex_digit(s[6]);
        let value: u32 = ((s[0] - 0x40) as u32) << 26 | ((s[1] - 0x40) as u32) << 21 | ((s[2]
            - 0x40) as u32) << 16 | (h3 as u32) << 12 | (h4 as u32) << 8 | (h5 as u32) << 4 | (
        h6 as u32);
        let mut bytes: Vec<u8> = Vec::new();
        bytes.push(0x0C);
        bytes.push(#[verifier::truncate] ((value >> 24) as u8));
        bytes.push(#[verifier::truncate] ((value >> 16) as u8));
        bytes.push(#[verifier::truncate] ((value >> 8) as u8));
        bytes.push(#[verifier::truncate] (value as u8));
        proof {
            assert(value == eisa_id_value(self.name()));
            assert(bytes@ =~= self.aml());
        }
        bytes
    }
}

/// A UUID, given as text in the form
/// `aabbccdd-eeff-gghh-iijj-kkllmmnnoopp`, as a buffer of 16 bytes.
#[derive(Debug)]
pub struct AmlToUuid {
    name: Vec<u8>,
}

impl AmlToUuid {
    /// The text of the UUID.
    pub closed spec fn name(&self) -> Seq<u8> {
        self.name@
    }

    /// The UUID with the text `text`.
    pub fn new(text: &str) -> (r: AmlToUuid)
        requires
            uuid_ok(text_bytes(text@)),
        ensures
            r.name() == text_bytes(text@),
    {
        AmlToUuid { name: copy_bytes(text.as_bytes()) }
    }

    /// Whether `uuid` has the form of a UUID: 36 bytes, dashes at the
    /// places 8, 13, 18 and 23, and nothing but dashes and hexadecimal
    /// digits.
    pub fn check_valid_uuid(uuid: &str) -> (r: bool)
        ensures
            r == uuid_ok(text_bytes(uuid@)),
    {
        let s = uuid.as_bytes();
        if s.len() != 36 {
            return false;
        }
        if s[8] != 0x2D || s[13] != 0x2D || s[18] != 0x2D || s[23] != 0x2D {
            return false;
        }
        let mut i: usize = 0;
        while i < 36
            invariant
                i <= 36,
                s@.len() == 36,
                s@ == text_bytes(uuid@),
                s@[8] == 0x2D && s@[13] == 0x2D && s@[18] == 0x2D && s@[23] == 0x2D,
                forall|k: int| 0 <= k < i ==> #[trigger] s@[k] == 0x2D || is_hex_digit(s@[k]),
            decreases 36 - i,
        {
            let b = s[i];
            let digit = (0x30 <= b && b <= 0x39) || (0x61 <= b && b <= 0x66) || (0x41 <= b && b
                <= 0x46);
            if b != 0x2D && !digit {
                return false;
            }
            i += 1;
        }
        true
    }
}

/// Whether the digits of the 16 bytes of a UUID stand at their places in
/// the text `s`.
pub open spec fn uuid_digits_ok(s: Seq<u8>) -> bool {
    forall|k: int|
        0 <= k < 16 ==> is_hex_digit(s[#[trigger] uuid_places()[k]]) && is_hex_digit(
            s[uuid_places()[k] + 1],
        )
}

impl AmlBuilder for AmlToUuid {
    open spec fn encodable(&self) -> bool {
        uuid_ok(self.name()) && uuid_digits_ok(self.name())
    }

    open spec fn aml(&self) -> Seq<u8> {
        uuid_bytes(self.name())
    }

    fn aml_bytes(&self) -> (r: Vec<u8>) {
        let s = &self.name;
        let places: [usize; 16] = [6, 4, 2, 0, 11, 9, 16, 14, 19, 21, 24, 26, 28, 30, 32, 34];
        let mut bytes: Vec<u8> = Vec::new();
        let mut k: usize = 0;
        while k < 16
            invariant
                k <= 16,
                s@.len() == 36,
                s@ == self.name(),
                forall|j: int| 0 <= j < 16 ==> #[trigger] places@[j] == uuid_places()[j],
                bytes@ == Seq::new(k as nat, |j: int| hex_pair(s@, uuid_places()[j])),
            decreases 16 - k,
        {
            let place: usize = places[k];
            proof {
                assert(places@[k as int] == uuid_places()[k as int]);
            }
            let high = hex_digit(s[place]);
            let low = hex_digit(s[place + 1]);
            bytes.push(high << 4 | low);
            proof {
                assert(bytes@ =~= Seq::new((k + 1) as nat, |j: int| hex_pair(s@, uuid_places()[j])));
            }
            k += 1;
        }
        bytes
    }
}

/// A buffer: an array of bytes, with its length.
#[derive(Debug)]
pub struct AmlBuffer(pub Vec<u8>);

impl AmlBuilder for AmlBuffer {
    open spec fn encodable(&self) -> bool {
        self.0@.len() + 9 <= usize::MAX
    }

    open spec fn aml(&self) -> Seq<u8> {
        let count = integer_aml(self.0@.len() as u64);
        seq![0x11u8] + pkg_length((count.len() + self.0@.len()) as usize, true) + count + self.0@
    }

    fn aml_bytes(&self) -> (r: Vec<u8>) {
        let mut bytes: Vec<u8> = Vec::new();
        bytes.push(0x11);
        let mut len_bytes = AmlInteger(self.0.len() as u64).aml_bytes();
        let mut length = build_pkg_length(len_bytes.len() + self.0.len(), true);
        bytes.append(&mut length);
        bytes.append(&mut len_bytes);
        append_bytes(&mut bytes, self.0.as_slice());
        bytes
    }
}

/// A package: an array of other objects, with their number.
#[derive(Debug)]
pub struct AmlPackage {
    elem_count: u8,
    buf: Vec<u8>,
}

impl AmlPackage {
    /// What stands behind the opcode and the length.
    pub closed spec fn held(&self) -> Seq<u8> {
        self.buf@
    }

    /// A package of `elem_count` objects, which are still to be appended.
    pub fn new(elem_count: u8) -> (r: AmlPackage)
        ensures
            r.held() == seq![elem_count],
    {
        let mut buf: Vec<u8> = Vec::new();
        buf.push(elem_count);
        AmlPackage { elem_count, buf }
    }
}

impl AmlBuilder for AmlPackage {
    open spec fn encodable(&self) -> bool {
        true
    }

    open spec fn aml(&self) -> Seq<u8> {
        package_aml(seq![0x12u8], self.held())
    }

    fn aml_bytes(&self) -> (r: Vec<u8>) {
        let opcode: [u8; 1] = [0x12];
        let r = build_package(opcode.as_slice(), &self.buf);
        proof {
            assert(opcode@ =~= seq![0x12u8]);
        }
        r
    }
}

impl AmlScopeBuilder for AmlPackage {
    open spec fn body(&self) -> Seq<u8> {
        self.held()
    }

    fn append_child<T: AmlBuilder>(&mut self, child: T) {
        let mut bytes = child.aml_bytes();
        self.buf.append(&mut bytes);
    }
}

/// A package whose number of objects is worked out when it is read.
#[derive(Debug)]
pub struct AmlVarPackage {
    elem_count: u8,
    buf: Vec<u8>,
}

impl AmlVarPackage {
    /// What stands behind the opcode and the length.
    pub closed spec fn held(&self) -> Seq<u8> {
        self.buf@
    }

    /// A package of `elem_count` objects, which are still to be appended.
    pub fn new(elem_count: u8) -> (r: AmlVarPackage)
        ensures
            r.held() == seq![elem_count],
    {
        let mut buf: Vec<u8> = Vec::new();
        buf.push(elem_count);
        AmlVarPackage { elem_count, buf }
    }
}

impl AmlBuilder for AmlVarPackage {
    open spec fn encodable(&self) -> bool {
        true
    }

    open spec fn aml(&self) -> Seq<u8> {
        package_aml(seq![0x13u8], self.held())
    }

    fn aml_bytes(&self) -> (r: Vec<u8>) {
        let opcode: [u8; 1] = [0x13];
        let r = build_package(opcode.as_slice(), &self.buf);
        proof {
            assert(opcode@ =~= seq![0x13u8]);
        }
        r
    }
}

impl AmlScopeBuilder for AmlVarPackage {
    open spec fn body(&self) -> Seq<u8> {
        self.held()
    }

    fn append_child<T: AmlBuilder>(&mut self, child: T) {
        let mut bytes = child.aml_bytes();
        self.buf.append(&mut bytes);
    }
}

/// The address space of an operation region.
#[derive(Copy, Clone, Debug, PartialEq, Eq, Structural)]
pub enum AmlAddressSpaceType {
    /// System memory.
    SystemMemory,
    /// System I/O.
    SystemIO,
    /// PCI configuration space.
    PCIConfig,
    /// The space of the embedded controller.
    EmbeddedControl,
    /// SMBus.
    SMBus,
    /// CMOS.
    SystemCMOS,
    /// The target of a PCI BAR.
    PciBarTarget,
    /// IPMI.
    IPMI,
    /// General purpose I/O.
    GeneralPurposeIO,
    /// A generic serial bus.
    GenericSerialBus,
    /// The platform communications channel.
    PCC,
}

impl AmlAddressSpaceType {
    /// The number that stands for the value in an encoding.
    pub open spec fn spec_code(self) -> u8 {
        match self {
            AmlAddressSpaceType::SystemMemory => 0,
            AmlAddressSpaceType::SystemIO => 1,
            AmlAddressSpaceType::PCIConfig => 2,
            AmlAddressSpaceType::EmbeddedControl => 3,
            AmlAddressSpaceType::SMBus => 4,
            AmlAddressSpaceType::SystemCMOS => 5,
            AmlAddressSpaceType::PciBarTarget => 6,
            AmlAddressSpaceType::IPMI => 7,
            AmlAddressSpaceType::GeneralPurposeIO => 8,
            AmlAddressSpaceType::GenericSerialBus => 9,
            AmlAddressSpaceType::PCC => 10,
        }
    }

    /// The number that stands for the value in an encoding.
    pub fn code(self) -> (r: u8)
        ensures
            r == self.spec_code(),
    {
        match self {
            AmlAddressSpaceType::SystemMemory => 0,
            AmlAddressSpaceType::SystemIO => 1,
            AmlAddressSpaceType::PCIConfig => 2,
            AmlAddressSpaceType::EmbeddedControl => 3,
            AmlAddressSpaceType::SMBus => 4,
            AmlAddressSpaceType::SystemCMOS => 5,
            AmlAddressSpaceType::PciBarTarget => 6,
            AmlAddressSpaceType::IPMI => 7,
            AmlAddressSpaceType::GeneralPurposeIO => 8,
            AmlAddressSpaceType::GenericSerialBus => 9,
            AmlAddressSpaceType::PCC => 10,
        }
    }
}

/// An operation region: a named range of an address space.
#[derive(Debug)]
pub struct AmlOpRegion {
    name: Vec<u8>,
    space_type: AmlAddressSpaceType,
    offset: u64,
    length: u64,
}

impl AmlOpRegion {
    /// The name of the region.
    pub closed spec fn name(&self) -> Seq<u8> {
        self.name@
    }

    /// The address space of the region.
    pub closed spec fn space(&self) -> AmlAddressSpaceType {
        self.space_type
    }

    /// Where the region starts.
    pub closed spec fn start(&self) -> u64 {
        self.offset
    }

    /// How long the region is.
    pub closed spec fn len(&self) -> u64 {
        self.length
    }

    /// The region `name` of `length` bytes at `offset` in the address
    /// space `space_type`.
    pub fn new(name: &str, space_type: AmlAddressSpaceType, offset: u64, length: u64) -> (r:
        AmlOpRegion)
        ensures
            r.name() == text_bytes(name@),
            r.space() == space_type,
            r.start() == offset,
            r.len() == length,
    {
        AmlOpRegion { name: copy_bytes(name.as_bytes()), space_type, offset, length }
    }
}

impl AmlBuilder for AmlOpRegion {
    open spec fn encodable(&self) -> bool {
        name_string_ok(self.name())
    }

    open spec fn aml(&self) -> Seq<u8> {
        seq![0x5Bu8, 0x80u8] + name_string(self.name()) + seq![self.space().spec_code()]
            + integer_aml(self.start()) + integer_aml(self.len())
    }

    fn aml_bytes(&self) -> (r: Vec<u8>) {
        let mut bytes: Vec<u8> = Vec::new();
        bytes.push(0x5B);
        bytes.push(0x80);
        let mut name = build_name_string(self.name.as_slice());
        bytes.append(&mut name);
        bytes.push(self.space_type.code());
        let mut offset = AmlInteger(self.offset).aml_bytes();
        bytes.append(&mut offset);
        let mut length = AmlInteger(self.length).aml_bytes();
        bytes.append(&mut length);
        proof {
            assert(bytes@ =~= self.aml());
        }
        bytes
    }
}

/// The width in which the units of a field are accessed.
#[derive(Copy, Clone, Debug, PartialEq, Eq, Structural)]
pub enum AmlFieldAccessType {
    /// Any width.
    Any,
    /// One byte.
    Byte,
    /// Two bytes.
    Word,
    /// Four bytes.
    DWord,
    /// Eight bytes.
    QWord,
    /// A buffer.
    Buffer,
}

impl AmlFieldAccessType {
    /// The number that stands for the value in an encoding.
    pub open spec fn spec_code(self) -> u8 {
        match self {
            AmlFieldAccessType::Any => 0,
            AmlFieldAccessType::Byte => 1,
            AmlFieldAccessType::Word => 2,
            AmlFieldAccessType::DWord => 3,
            AmlFieldAccessType::QWord => 4,
            AmlFieldAccessType::Buffer => 5,
        }
    }

    /// The number that stands for the value in an encoding.
    pub fn code(self) -> (r: u8)
        ensures
            r == self.spec_code(),
    {
        match self {
            AmlFieldAccessType::Any => 0,
            AmlFieldAccessType::Byte => 1,
            AmlFieldAccessType::Word => 2,
            AmlFieldAccessType::DWord => 3,
            AmlFieldAccessType::QWord => 4,
            AmlFieldAccessType::Buffer => 5,
        }
    }
}

/// Whether the global lock is taken for an access to a field.
#[derive(Copy, Clone, Debug, PartialEq, Eq, Structural)]
pub enum AmlFieldLockRule {
    /// The lock is not taken.
    NoLock,
    /// The lock is taken.
    Lock,
}

impl AmlFieldLockRule {
    /// The number that stands for the value in an encoding.
    pub open spec fn spec_code(self) -> u8 {
        match self {
            AmlFieldLockRule::NoLock => 0,
            AmlFieldLockRule::Lock => 1,
        }
    }

    /// The number that stands for the value in an encoding.
    pub fn code(self) -> (r: u8)
        ensures
            r == self.spec_code(),
    {
        match self {
            AmlFieldLockRule::NoLock => 0,
            AmlFieldLockRule::Lock => 1,
        }
    }
}

/// What becomes of the bits of a field that a write leaves out.
#[derive(Copy, Clone, Debug, PartialEq, Eq, Structural)]
pub enum AmlFieldUpdateRule {
    /// They stay as they are.
    Preserve,
    /// They are set.
    WriteAsOnes,
    /// They are cleared.
    WriteAsZeros,
}

impl AmlFieldUpdateRule {
    /// The number that stands for the value in an encoding.
    pub open spec fn spec_code(self) -> u8 {
        match self {
            AmlFieldUpdateRule::Preserve => 0,
            AmlFieldUpdateRule::WriteAsOnes => 1,
            AmlFieldUpdateRule::WriteAsZeros => 2,
        }
    }

    /// The number that stands for the value in an encoding.
    pub fn code(self) -> (r: u8)
        ensures
            r == self.spec_code(),
    {
        match self {
            AmlFieldUpdateRule::Preserve => 0,
            AmlFieldUpdateRule::WriteAsOnes => 1,
            AmlFieldUpdateRule::WriteAsZeros => 2,
        }
    }
}

/// The flags of a field: the update rule in the bits from 5 on, the lock
/// rule in bit 4 down to 1, the access type in the lowest four bits.
pub open spec fn field_flags(
    acc_ty: AmlFieldAccessType,
    lock_r: AmlFieldLockRule,
    update_r: AmlFieldUpdateRule,
) -> u8 {
    (update_r.spec_code() << 5) | (lock_r.spec_code() << 1) | (acc_ty.spec_code() & 0x0F)
}

/// A field: the units into which an operation region is cut.
#[derive(Debug)]
pub struct AmlField {
    name: Vec<u8>,
    access_type: AmlFieldAccessType,
    lock_rule: AmlFieldLockRule,
    update_rule: AmlFieldUpdateRule,
    buf: Vec<u8>,
}

impl AmlField {
    /// What stands behind the opcode and the length.
    pub closed spec fn held(&self) -> Seq<u8> {
        self.buf@
    }

    /// The field of the operation region `name`, with its rules; the
    /// units are still to be appended.
    pub fn new(
        name: &str,
        acc_ty: AmlFieldAccessType,
        lock_r: AmlFieldLockRule,
        update_r: AmlFieldUpdateRule,
    ) -> (r: AmlField)
        requires
            name_string_ok(text_bytes(name@)),
        ensures
            r.held() == name_string(text_bytes(name@)) + seq![field_flags(acc_ty, lock_r, update_r)],
    {
        let flag: u8 = (update_r.code() << 5) | (lock_r.code() << 1) | (acc_ty.code() & 0x0F);
        let mut bytes = build_name_string(name.as_bytes());
        bytes.push(flag);
        AmlField {
            name: copy_bytes(name.as_bytes()),
            access_type: acc_ty,
            lock_rule: lock_r,
            update_rule: update_r,
            buf: bytes,
        }
    }
}

impl AmlBuilder for AmlField {
    open spec fn encodable(&self) -> bool {
        true
    }

    open spec fn aml(&self) -> Seq<u8> {
        package_aml(seq![0x5Bu8, 0x81u8], self.held())
    }

    fn aml_bytes(&self) -> (r: Vec<u8>) {
        let opcode: [u8; 2] = [0x5B, 0x81];
        let r = build_package(opcode.as_slice(), &self.buf);
        proof {
            assert(opcode@ =~= seq![0x5Bu8, 0x81u8]);
        }
        r
    }
}

impl AmlScopeBuilder for AmlField {
    open spec fn body(&self) -> Seq<u8> {
        self.held()
    }

    fn append_child<T: AmlBuilder>(&mut self, child: T) {
        let mut bytes = child.aml_bytes();
        self.buf.append(&mut bytes);
    }
}

/// One unit of a field: a name and a number of bits, or a gap without a
/// name.
#[derive(Debug)]
pub struct AmlFieldUnit {
    name: Option<Vec<u8>>,
    length: u8,
}

impl AmlFieldUnit {
    /// The name of the unit, if it has one.
    pub closed spec fn name(&self) -> Option<Seq<u8>> {
        match self.name {
            Some(n) => Some(n@),
            None => None,
        }
    }

    /// The number of bits of the unit.
    pub closed spec fn bits(&self) -> u8 {
        self.length
    }

    /// A unit of `length` bits with the name `name`, or a gap of as many
    /// bits.
    pub fn new(name: Option<&str>, length: u8) -> (r: AmlFieldUnit)
        ensures
            r.name() == match name {
                Some(n) => Some(text_bytes(n@)),
                None => None,
            },
            r.bits() == length,
    {
        let name = match name {
            Some(n) => Some(copy_bytes(n.as_bytes())),
            None => None,
        };
        AmlFieldUnit { name, length }
    }
}

impl AmlBuilder for AmlFieldUnit {
    open spec fn encodable(&self) -> bool {
        self.name() matches Some(n) ==> name_seg_ok(n)
    }

    open spec fn aml(&self) -> Seq<u8> {
        (match self.name() {
            Some(n) => name_seg(n),
            None => seq![0x00u8],
        }) + pkg_length(self.bits() as usize, false)
    }

    fn aml_bytes(&self) -> (r: Vec<u8>) {
        let mut bytes = match &self.name {
            Some(n) => build_name_seg(n.as_slice()),
            None => {
                let mut zero: Vec<u8> = Vec::new();
                zero.push(0x00);
                zero
            },
        };
        let mut length = build_pkg_length(self.length as usize, false);
        bytes.append(&mut length);
        bytes
    }
}

/// A scope: the objects under one name.
#[derive(Debug)]
pub struct AmlScope {
    name: Vec<u8>,
    buf: Vec<u8>,
}

impl AmlScope {
    /// What stands behind the opcode and the length.
    pub closed spec fn held(&self) -> Seq<u8> {
        self.buf@
    }

    /// The scope `name`, with its objects still to be appended.
    pub fn new(name: &str) -> (r: AmlScope)
        requires
            name_string_ok(text_bytes(name@)),
        ensures
            r.held() == name_string(text_bytes(name@)),
    {
        AmlScope { name: copy_bytes(name.as_bytes()), buf: build_name_string(name.as_bytes()) }
    }
}

impl AmlBuilder for AmlScope {
    open spec fn encodable(&self) -> bool {
        true
    }

    open spec fn aml(&self) -> Seq<u8> {
        package_aml(seq![0x10u8], self.held())
    }

    fn aml_bytes(&self) -> (r: Vec<u8>) {
        let opcode: [u8; 1] = [0x10];
        let r = build_package(opcode.as_slice(), &self.buf);
        proof {
            assert(opcode@ =~= seq![0x10u8]);
        }
        r
    }
}

impl AmlScopeBuilder for AmlScope {
    open spec fn body(&self) -> Seq<u8> {
        self.held()
    }

    fn append_child<T: AmlBuilder>(&mut self, child: T) {
        let mut bytes = child.aml_bytes();
        self.buf.append(&mut bytes);
    }
}

/// A device.
#[derive(Debug)]
pub struct AmlDevice {
    name: Vec<u8>,
    buf: Vec<u8>,
}

impl AmlDevice {
    /// What stands behind the opcode and the length.
    pub closed spec fn held(&self) -> Seq<u8> {
        self.buf@
    }

    /// The device `name`, with its objects still to be appended.
    pub fn new(name: &str) -> (r: AmlDevice)
        requires
            name_string_ok(text_bytes(name@)),
        ensures
            r.held() == name_string(text_bytes(name@)),
    {
        AmlDevice { name: copy_bytes(name.as_bytes()), buf: build_name_string(name.as_bytes()) }
    }
}

impl AmlBuilder for AmlDevice {
    open spec fn encodable(&self) -> bool {
        true
    }

    open spec fn aml(&self) -> Seq<u8> {
        package_aml(seq![0x5Bu8, 0x82u8], self.held())
    }

    fn aml_bytes(&self) -> (r: Vec<u8>) {
        let opcode: [u8; 2] = [0x5B, 0x82];
        let r = build_package(opcode.as_slice(), &self.buf);
        proof {
            assert(opcode@ =~= seq![0x5Bu8, 0x82u8]);
        }
        r
    }
}

impl AmlScopeBuilder for AmlDevice {
    open spec fn body(&self) -> Seq<u8> {
        self.held()
    }

    fn append_child<T: AmlBuilder>(&mut self, child: T) {
        let mut bytes = child.aml_bytes();
        self.buf.append(&mut bytes);
    }
}

/// The flags of a method: the number of arguments in the lowest three
/// bits, and bit 3 for a serialized method.
pub open spec fn method_flags(args_count: u8, serialized: bool) -> u8 {
    if serialized {
        args_count | 0x08
    } else {
        args_count
    }
}

/// A method.
#[derive(Debug)]
pub struct AmlMethod {
    name: Vec<u8>,
    args_count: u8,
    serialized: bool,
    buf: Vec<u8>,
}

impl AmlMethod {
    /// What stands behind the opcode and the length.
    pub closed spec fn held(&self) -> Seq<u8> {
        self.buf@
    }

    /// The method `name` of `args_count` arguments, seven at most, with
    /// its body still to be appended.
    pub fn new(name: &str, args_count: u8, serialized: bool) -> (r: AmlMethod)
        requires
            args_count <= 7,
            name_string_ok(text_bytes(name@)),
        ensures
            r.held() == name_string(text_bytes(name@)) + seq![method_flags(args_count, serialized)],
    {
        let mut flag: u8 = args_count;
        if serialized {
            flag = flag | 0x08;
        }
        let mut bytes = build_name_string(name.as_bytes());
        bytes.push(flag);
        AmlMethod { name: copy_bytes(name.as_bytes()), args_count, serialized, buf: bytes }
    }
}

impl AmlBuilder for AmlMethod {
    open spec fn encodable(&self) -> bool {
        true
    }

    open spec fn aml(&self) -> Seq<u8> {
        package_aml(seq![0x14u8], self.held())
    }

    fn aml_bytes(&self) -> (r: Vec<u8>) {
        let opcode: [u8; 1] = [0x14];
        let r = build_package(opcode.as_slice(), &self.buf);
        proof {
            assert(opcode@ =~= seq![0x14u8]);
        }
        r
    }
}

impl AmlScopeBuilder for AmlMethod {
    open spec fn body(&self) -> Seq<u8> {
        self.held()
    }

    fn append_child<T: AmlBuilder>(&mut self, child: T) {
        let mut bytes = child.aml_bytes();
        self.buf.append(&mut bytes);
    }
}

/// One of the eight local variables of a method.
#[derive(Copy, Clone, Debug)]
pub struct AmlLocal(pub u8);

impl AmlBuilder for AmlLocal {
    open spec fn encodable(&self) -> bool {
        self.0 <= 7
    }

    open spec fn aml(&self) -> Seq<u8> {
        seq![(0x60 + self.0) as u8]
    }

    fn aml_bytes(&self) -> (r: Vec<u8>) {
        let mut bytes: Vec<u8> = Vec::new();
        bytes.push(0x60 + self.0);
        bytes
    }
}

/// One of the seven arguments of a method.
#[derive(Copy, Clone, Debug)]
pub struct AmlArg(pub u8);

impl AmlBuilder for AmlArg {
    open spec fn encodable(&self) -> bool {
        self.0 <= 6
    }

    open spec fn aml(&self) -> Seq<u8> {
        seq![(0x68 + self.0) as u8]
    }

    fn aml_bytes(&self) -> (r: Vec<u8>) {
        let mut bytes: Vec<u8> = Vec::new();
        bytes.push(0x68 + self.0);
        bytes
    }
}

/// The return from a method.
#[derive(Debug)]
pub struct AmlReturn {
    value: Vec<u8>,
}

impl AmlReturn {
    /// The encoding of the value that is returned.
    pub closed spec fn value(&self) -> Seq<u8> {
        self.value@
    }

    /// A return of zero.
    pub fn new() -> (r: AmlReturn)
        ensures
            r.value() == seq![0x00u8],
    {
        let mut value: Vec<u8> = Vec::new();
        value.push(0x00);
        AmlReturn { value }
    }

    /// A return of `val`.
    pub fn with_value<T: AmlBuilder>(val: T) -> (r: AmlReturn)
        requires
            val.encodable(),
        ensures
            r.value() == val.aml(),
    {
        AmlReturn { value: val.aml_bytes() }
    }
}

impl AmlBuilder for AmlReturn {
    open spec fn encodable(&self) -> bool {
        true
    }

    open spec fn aml(&self) -> Seq<u8> {
        seq![0xA4u8] + self.value()
    }

    fn aml_bytes(&self) -> (r: Vec<u8>) {
        let mut bytes: Vec<u8> = Vec::new();
        bytes.push(0xA4);
        append_bytes(&mut bytes, self.value.as_slice());
        bytes
    }
}

/// The encodings of the first `n` of `args`, one after the other.
pub open spec fn args_aml<T: AmlBuilder>(args: Seq<T>, n: int) -> Seq<u8>
    decreases n,
{
    if n <= 0 || n > args.len() {
        Seq::empty()
    } else {
        args_aml(args, n - 1) + args[n - 1].aml()
    }
}

/// The call of a method.
#[derive(Debug)]
pub struct AmlCall {
    name: Vec<u8>,
    buf: Vec<u8>,
}

impl AmlCall {
    /// The name of the method.
    pub closed spec fn name(&self) -> Seq<u8> {
        self.name@
    }

    /// The encodings of the arguments, in order.
    pub closed spec fn arguments(&self) -> Seq<u8> {
        self.buf@
    }

    /// The call of the method `name` with the arguments `args`.
    pub fn new<T: AmlBuilder>(name: &str, args: Vec<T>) -> (r: AmlCall)
        requires
            forall|i: int| 0 <= i < args@.len() ==> (#[trigger] args@[i]).encodable(),
        ensures
            r.name() == text_bytes(name@),
            r.arguments() == args_aml(args@, args@.len() as int),
    {
        let mut bytes: Vec<u8> = Vec::new();
        let mut i: usize = 0;
        while i < args.len()
            invariant
                i <= args@.len(),
                forall|k: int| 0 <= k < args@.len() ==> (#[trigger] args@[k]).encodable(),
                bytes@ == args_aml(args@, i as int),
            decreases args.len() - i,
        {
            let mut arg = args[i].aml_bytes();
            bytes.append(&mut arg);
            i += 1;
        }
        AmlCall { name: copy_bytes(name.as_bytes()), buf: bytes }
    }
}

impl AmlBuilder for AmlCall {
    open spec fn encodable(&self) -> bool {
        name_string_ok(self.name())
    }

    open spec fn aml(&self) -> Seq<u8> {
        name_string(self.name()) + self.arguments()
    }

    fn aml_bytes(&self) -> (r: Vec<u8>) {
        let mut bytes = build_name_string(self.name.as_slice());
        append_bytes(&mut bytes, self.buf.as_slice());
        bytes
    }
}

/// The sum of two integers, stored to a destination.
#[derive(Debug)]
pub struct AmlAdd {
    arg1: Vec<u8>,
    arg2: Vec<u8>,
    dst: Vec<u8>,
}

impl AmlAdd {
    /// The encodings of the two operands and of the destination, in
    /// order.
    pub closed spec fn operands(&self) -> Seq<u8> {
        self.arg1@ + self.arg2@ + self.dst@
    }

    /// The operation on `a1` and `a2`, with its result stored to `d`.
    pub fn new<A: AmlBuilder, B: AmlBuilder, D: AmlBuilder>(a1: A, a2: B, d: D) -> (r: AmlAdd)
        requires
            a1.encodable(),
            a2.encodable(),
            d.encodable(),
        ensures
            r.operands() == a1.aml() + a2.aml() + d.aml(),
    {
        AmlAdd { arg1: a1.aml_bytes(), arg2: a2.aml_bytes(), dst: d.aml_bytes() }
    }
}

impl AmlBuilder for AmlAdd {
    open spec fn encodable(&self) -> bool {
        true
    }

    open spec fn aml(&self) -> Seq<u8> {
        seq![0x72u8] + self.operands()
    }

    fn aml_bytes(&self) -> (r: Vec<u8>) {
        let mut bytes: Vec<u8> = Vec::new();
        bytes.push(0x72);
        append_bytes(&mut bytes, self.arg1.as_slice());
        append_bytes(&mut bytes, self.arg2.as_slice());
        append_bytes(&mut bytes, self.dst.as_slice());
        proof {
            assert(bytes@ =~= seq![0x72u8] + self.operands());
        }
        bytes
    }
}

/// The difference of two integers, stored to a destination.
#[derive(Debug)]
pub struct AmlSubtract {
    arg1: Vec<u8>,
    arg2: Vec<u8>,
    dst: Vec<u8>,
}

impl AmlSubtract {
    /// The encodings of the two operands and of the destination, in
    /// order.
    pub closed spec fn operands(&self) -> Seq<u8> {
        self.arg1@ + self.arg2@ + self.dst@
    }

    /// The operation on `a1` and `a2`, with its result stored to `d`.
    pub fn new<A: AmlBuilder, B: AmlBuilder, D: AmlBuilder>(a1: A, a2: B, d: D) -> (r: AmlSubtract)
        requires
            a1.encodable(),
            a2.encodable(),
            d.encodable(),
        ensures
            r.operands() == a1.aml() + a2.aml() + d.aml(),
    {
        AmlSubtract { arg1: a1.aml_bytes(), arg2: a2.aml_bytes(), dst: d.aml_bytes() }
    }
}

impl AmlBuilder for AmlSubtract {
    open spec fn encodable(&self) -> bool {
        true
    }

    open spec fn aml(&self) -> Seq<u8> {
        seq![0x74u8] + self.operands()
    }

    fn aml_bytes(&self) -> (r: Vec<u8>) {
        let mut bytes: Vec<u8> = Vec::new();
        bytes.push(0x74);
        append_bytes(&mut bytes, self.arg1.as_slice());
        append_bytes(&mut bytes, self.arg2.as_slice());
        append_bytes(&mut bytes, self.dst.as_slice());
        proof {
            assert(bytes@ =~= seq![0x74u8] + self.operands());
        }
        bytes
    }
}

/// Two strings, integers or buffers joined, stored to a destination.
#[derive(Debug)]
pub struct AmlConcat {
    arg1: Vec<u8>,
    arg2: Vec<u8>,
    dst: Vec<u8>,
}

impl AmlConcat {
    /// The encodings of the two operands and of the destination, in
    /// order.
    pub closed spec fn operands(&self) -> Seq<u8> {
        self.arg1@ + self.arg2@ + self.dst@
    }

    /// The operation on `a1` and `a2`, with its result stored to `d`.
    pub fn new<A: AmlBuilder, B: AmlBuilder, D: AmlBuilder>(a1: A, a2: B, d: D) -> (r: AmlConcat)
        requires
            a1.encodable(),
            a2.encodable(),
            d.encodable(),
        ensures
            r.operands() == a1.aml() + a2.aml() + d.aml(),
    {
        AmlConcat { arg1: a1.aml_bytes(), arg2: a2.aml_bytes(), dst: d.aml_bytes() }
    }
}

impl AmlBuilder for AmlConcat {
    open spec fn encodable(&self) -> bool {
        true
    }

    open spec fn aml(&self) -> Seq<u8> {
        seq![0x73u8] + self.operands()
    }

    fn aml_bytes(&self) -> (r: Vec<u8>) {
        let mut bytes: Vec<u8> = Vec::new();
        bytes.push(0x73);
        append_bytes(&mut bytes, self.arg1.as_slice());
        append_bytes(&mut bytes, self.arg2.as_slice());
        append_bytes(&mut bytes, self.dst.as_slice());
        proof {
            assert(bytes@ =~= seq![0x73u8] + self.operands());
        }
        bytes
    }
}

/// The bitwise and of two integers, stored to a destination.
#[derive(Debug)]
pub struct AmlAnd {
    arg1: Vec<u8>,
    arg2: Vec<u8>,
    dst: Vec<u8>,
}

impl AmlAnd {
    /// The encodings of the two operands and of the destination, in
    /// order.
    pub closed spec fn operands(&self) -> Seq<u8> {
        self.arg1@ + self.arg2@ + self.dst@
    }

    /// The operation on `a1` and `a2`, with its result stored to `d`.
    pub fn new<A: AmlBuilder, B: AmlBuilder, D: AmlBuilder>(a1: A, a2: B, d: D) -> (r: AmlAnd)
        requires
            a1.encodable(),
            a2.encodable(),
            d.encodable(),
        ensures
            r.operands() == a1.aml() + a2.aml() + d.aml(),
    {
        AmlAnd { arg1: a1.aml_bytes(), arg2: a2.aml_bytes(), dst: d.aml_bytes() }
    }
}

impl AmlBuilder for AmlAnd {
    open spec fn encodable(&self) -> bool {
        true
    }

    open spec fn aml(&self) -> Seq<u8> {
        seq![0x7Bu8] + self.operands()
    }

    fn aml_bytes(&self) -> (r: Vec<u8>) {
        let mut bytes: Vec<u8> = Vec::new();
        bytes.push(0x7B);
        append_bytes(&mut bytes, self.arg1.as_slice());
        append_bytes(&mut bytes, self.arg2.as_slice());
        append_bytes(&mut bytes, self.dst.as_slice());
        proof {
            assert(bytes@ =~= seq![0x7Bu8] + self.operands());
        }
        bytes
    }
}

/// The bitwise or of two integers, stored to a destination.
#[derive(Debug)]
pub struct AmlOr {
    arg1: Vec<u8>,
    arg2: Vec<u8>,
    dst: Vec<u8>,
}

impl AmlOr {
    /// The encodings of the two operands and of the destination, in
    /// order.
    pub closed spec fn operands(&self) -> Seq<u8> {
        self.arg1@ + self.arg2@ + self.dst@
    }

    /// The operation on `a1` and `a2`, with its result stored to `d`.
    pub fn new<A: AmlBuilder, B: AmlBuilder, D: AmlBuilder>(a1: A, a2: B, d: D) -> (r: AmlOr)
        requires
            a1.encodable(),
            a2.encodable(),
            d.encodable(),
        ensures
            r.operands() == a1.aml() + a2.aml() + d.aml(),
    {
        AmlOr { arg1: a1.aml_bytes(), arg2: a2.aml_bytes(), dst: d.aml_bytes() }
    }
}

impl AmlBuilder for AmlOr {
    open spec fn encodable(&self) -> bool {
        true
    }

    open spec fn aml(&self) -> Seq<u8> {
        seq![0x7Du8] + self.operands()
    }

    fn aml_bytes(&self) -> (r: Vec<u8>) {
        let mut bytes: Vec<u8> = Vec::new();
        bytes.push(0x7D);
        append_bytes(&mut bytes, self.arg1.as_slice());
        append_bytes(&mut bytes, self.arg2.as_slice());
        append_bytes(&mut bytes, self.dst.as_slice());
        proof {
            assert(bytes@ =~= seq![0x7Du8] + self.operands());
        }
        bytes
    }
}

/// An integer shifted left, stored to a destination.
#[derive(Debug)]
pub struct AmlShiftLeft {
    arg1: Vec<u8>,
    arg2: Vec<u8>,
    dst: Vec<u8>,
}

impl AmlShiftLeft {
    /// The encodings of the two operands and of the destination, in
    /// order.
    pub closed spec fn operands(&self) -> Seq<u8> {
        self.arg1@ + self.arg2@ + self.dst@
    }

    /// The operation on `a1` and `a2`, with its result stored to `d`.
    pub fn new<A: AmlBuilder, B: AmlBuilder, D: AmlBuilder>(a1: A, a2: B, d: D) -> (r: AmlShiftLeft)
        requires
            a1.encodable(),
            a2.encodable(),
            d.encodable(),
        ensures
            r.operands() == a1.aml() + a2.aml() + d.aml(),
    {
        AmlShiftLeft { arg1: a1.aml_bytes(), arg2: a2.aml_bytes(), dst: d.aml_bytes() }
    }
}

impl AmlBuilder for AmlShiftLeft {
    open spec fn encodable(&self) -> bool {
        true
    }

    open spec fn aml(&self) -> Seq<u8> {
        seq![0x79u8] + self.operands()
    }

    fn aml_bytes(&self) -> (r: Vec<u8>) {
        let mut bytes: Vec<u8> = Vec::new();
        bytes.push(0x79);
        append_bytes(&mut bytes, self.arg1.as_slice());
        append_bytes(&mut bytes, self.arg2.as_slice());
        append_bytes(&mut bytes, self.dst.as_slice());
        proof {
            assert(bytes@ =~= seq![0x79u8] + self.operands());
        }
        bytes
    }
}

/// An integer shifted right, stored to a destination.
#[derive(Debug)]
pub struct AmlShiftRight {
    arg1: Vec<u8>,
    arg2: Vec<u8>,
    dst: Vec<u8>,
}

impl AmlShiftRight {
    /// The encodings of the two operands and of the destination, in
    /// order.
    pub closed spec fn operands(&self) -> Seq<u8> {
        self.arg1@ + self.arg2@ + self.dst@
    }

    /// The operation on `a1` and `a2`, with its result stored to `d`.
    pub fn new<A: AmlBuilder, B: AmlBuilder, D: AmlBuilder>(a1: A, a2: B, d: D) -> (r: AmlShiftRight)
        requires
            a1.encodable(),
            a2.encodable(),
            d.encodable(),
        ensures
            r.operands() == a1.aml() + a2.aml() + d.aml(),
    {
        AmlShiftRight { arg1: a1.aml_bytes(), arg2: a2.aml_bytes(), dst: d.aml_bytes() }
    }
}

impl AmlBuilder for AmlShiftRight {
    open spec fn encodable(&self) -> bool {
        true
    }

    open spec fn aml(&self) -> Seq<u8> {
        seq![0x7Au8] + self.operands()
    }

    fn aml_bytes(&self) -> (r: Vec<u8>) {
        let mut bytes: Vec<u8> = Vec::new();
        bytes.push(0x7A);
        append_bytes(&mut bytes, self.arg1.as_slice());
        append_bytes(&mut bytes, self.arg2.as_slice());
        append_bytes(&mut bytes, self.dst.as_slice());
        proof {
            assert(bytes@ =~= seq![0x7Au8] + self.operands());
        }
        bytes
    }
}

/// A reference to a member of a buffer, a package or a string, by its
/// index, stored to a destination.
#[derive(Debug)]
pub struct AmlIndex {
    arg1: Vec<u8>,
    arg2: Vec<u8>,
    dst: Vec<u8>,
}

impl AmlIndex {
    /// The encodings of the two operands and of the destination, in
    /// order.
    pub closed spec fn operands(&self) -> Seq<u8> {
        self.arg1@ + self.arg2@ + self.dst@
    }

    /// The operation on `a1` and `a2`, with its result stored to `d`.
    pub fn new<A: AmlBuilder, B: AmlBuilder, D: AmlBuilder>(a1: A, a2: B, d: D) -> (r: AmlIndex)
        requires
            a1.encodable(),
            a2.encodable(),
            d.encodable(),
        ensures
            r.operands() == a1.aml() + a2.aml() + d.aml(),
    {
        AmlIndex { arg1: a1.aml_bytes(), arg2: a2.aml_bytes(), dst: d.aml_bytes() }
    }
}

impl AmlBuilder for AmlIndex {
    open spec fn encodable(&self) -> bool {
        true
    }

    open spec fn aml(&self) -> Seq<u8> {
        seq![0x88u8] + self.operands()
    }

    fn aml_bytes(&self) -> (r: Vec<u8>) {
        let mut bytes: Vec<u8> = Vec::new();
        bytes.push(0x88);
        append_bytes(&mut bytes, self.arg1.as_slice());
        append_bytes(&mut bytes, self.arg2.as_slice());
        append_bytes(&mut bytes, self.dst.as_slice());
        proof {
            assert(bytes@ =~= seq![0x88u8] + self.operands());
        }
        bytes
    }
}

/// An integer raised by one.
#[derive(Debug)]
pub struct AmlIncrement {
    arg: Vec<u8>,
}

impl AmlIncrement {
    /// The encoding of the operand.
    pub closed spec fn operands(&self) -> Seq<u8> {
        self.arg@
    }

    /// The operation on `a1`.
    pub fn new<T: AmlBuilder>(a1: T) -> (r: AmlIncrement)
        requires
            a1.encodable(),
        ensures
            r.operands() == a1.aml(),
    {
        AmlIncrement { arg: a1.aml_bytes() }
    }
}

impl AmlBuilder for AmlIncrement {
    open spec fn encodable(&self) -> bool {
        true
    }

    open spec fn aml(&self) -> Seq<u8> {
        seq![0x75u8] + self.operands()
    }

    fn aml_bytes(&self) -> (r: Vec<u8>) {
        let mut bytes: Vec<u8> = Vec::new();
        bytes.push(0x75);
        append_bytes(&mut bytes, self.arg.as_slice());
        bytes
    }
}

/// An integer lowered by one.
#[derive(Debug)]
pub struct AmlDecrement {
    arg: Vec<u8>,
}

impl AmlDecrement {
    /// The encoding of the operand.
    pub closed spec fn operands(&self) -> Seq<u8> {
        self.arg@
    }

    /// The operation on `a1`.
    pub fn new<T: AmlBuilder>(a1: T) -> (r: AmlDecrement)
        requires
            a1.encodable(),
        ensures
            r.operands() == a1.aml(),
    {
        AmlDecrement { arg: a1.aml_bytes() }
    }
}

impl AmlBuilder for AmlDecrement {
    open spec fn encodable(&self) -> bool {
        true
    }

    open spec fn aml(&self) -> Seq<u8> {
        seq![0x76u8] + self.operands()
    }

    fn aml_bytes(&self) -> (r: Vec<u8>) {
        let mut bytes: Vec<u8> = Vec::new();
        bytes.push(0x76);
        append_bytes(&mut bytes, self.arg.as_slice());
        bytes
    }
}

/// The logical not of an integer.
#[derive(Debug)]
pub struct AmlLNot {
    arg: Vec<u8>,
}

impl AmlLNot {
    /// The encoding of the operand.
    pub closed spec fn operands(&self) -> Seq<u8> {
        self.arg@
    }

    /// The operation on `a1`.
    pub fn new<T: AmlBuilder>(a1: T) -> (r: AmlLNot)
        requires
            a1.encodable(),
        ensures
            r.operands() == a1.aml(),
    {
        AmlLNot { arg: a1.aml_bytes() }
    }
}

impl AmlBuilder for AmlLNot {
    open spec fn encodable(&self) -> bool {
        true
    }

    open spec fn aml(&self) -> Seq<u8> {
        seq![0x92u8] + self.operands()
    }

    fn aml_bytes(&self) -> (r: Vec<u8>) {
        let mut bytes: Vec<u8> = Vec::new();
        bytes.push(0x92);
        append_bytes(&mut bytes, self.arg.as_slice());
        bytes
    }
}

/// The size of a buffer, a string or a package.
#[derive(Debug)]
pub struct AmlSizeOf {
    arg: Vec<u8>,
}

impl AmlSizeOf {
    /// The encoding of the operand.
    pub closed spec fn operands(&self) -> Seq<u8> {
        self.arg@
    }

    /// The operation on `a1`.
    pub fn new<T: AmlBuilder>(a1: T) -> (r: AmlSizeOf)
        requires
            a1.encodable(),
        ensures
            r.operands() == a1.aml(),
    {
        AmlSizeOf { arg: a1.aml_bytes() }
    }
}

impl AmlBuilder for AmlSizeOf {
    open spec fn encodable(&self) -> bool {
        true
    }

    open spec fn aml(&self) -> Seq<u8> {
        seq![0x87u8] + self.operands()
    }

    fn aml_bytes(&self) -> (r: Vec<u8>) {
        let mut bytes: Vec<u8> = Vec::new();
        bytes.push(0x87);
        append_bytes(&mut bytes, self.arg.as_slice());
        bytes
    }
}

/// The object behind a reference.
#[derive(Debug)]
pub struct AmlDeRefOf {
    arg: Vec<u8>,
}

impl AmlDeRefOf {
    /// The encoding of the operand.
    pub closed spec fn operands(&self) -> Seq<u8> {
        self.arg@
    }

    /// The operation on `a1`.
    pub fn new<T: AmlBuilder>(a1: T) -> (r: AmlDeRefOf)
        requires
            a1.encodable(),
        ensures
            r.operands() == a1.aml(),
    {
        AmlDeRefOf { arg: a1.aml_bytes() }
    }
}

impl AmlBuilder for AmlDeRefOf {
    open spec fn encodable(&self) -> bool {
        true
    }

    open spec fn aml(&self) -> Seq<u8> {
        seq![0x83u8] + self.operands()
    }

    fn aml_bytes(&self) -> (r: Vec<u8>) {
        let mut bytes: Vec<u8> = Vec::new();
        bytes.push(0x83);
        append_bytes(&mut bytes, self.arg.as_slice());
        bytes
    }
}

/// A value stored to a destination.
#[derive(Debug)]
pub struct AmlStore {
    arg1: Vec<u8>,
    arg2: Vec<u8>,
}

impl AmlStore {
    /// The encodings of the two operands, in order.
    pub closed spec fn operands(&self) -> Seq<u8> {
        self.arg1@ + self.arg2@
    }

    /// The operation on `a1` and `a2`.
    pub fn new<A: AmlBuilder, B: AmlBuilder>(a1: A, a2: B) -> (r: AmlStore)
        requires
            a1.encodable(),
            a2.encodable(),
        ensures
            r.operands() == a1.aml() + a2.aml(),
    {
        AmlStore { arg1: a1.aml_bytes(), arg2: a2.aml_bytes() }
    }
}

impl AmlBuilder for AmlStore {
    open spec fn encodable(&self) -> bool {
        true
    }

    open spec fn aml(&self) -> Seq<u8> {
        seq![0x70u8] + self.operands()
    }

    fn aml_bytes(&self) -> (r: Vec<u8>) {
        let mut bytes: Vec<u8> = Vec::new();
        bytes.push(0x70);
        append_bytes(&mut bytes, self.arg1.as_slice());
        append_bytes(&mut bytes, self.arg2.as_slice());
        proof {
            assert(bytes@ =~= seq![0x70u8] + self.operands());
        }
        bytes
    }
}

/// A notification of an object with a value.
#[derive(Debug)]
pub struct AmlNotify {
    arg1: Vec<u8>,
    arg2: Vec<u8>,
}

impl AmlNotify {
    /// The encodings of the two operands, in order.
    pub closed spec fn operands(&self) -> Seq<u8> {
        self.arg1@ + self.arg2@
    }

    /// The operation on `a1` and `a2`.
    pub fn new<A: AmlBuilder, B: AmlBuilder>(a1: A, a2: B) -> (r: AmlNotify)
        requires
            a1.encodable(),
            a2.encodable(),
        ensures
            r.operands() == a1.aml() + a2.aml(),
    {
        AmlNotify { arg1: a1.aml_bytes(), arg2: a2.aml_bytes() }
    }
}

impl AmlBuilder for AmlNotify {
    open spec fn encodable(&self) -> bool {
        true
    }

    open spec fn aml(&self) -> Seq<u8> {
        seq![0x86u8] + self.operands()
    }

    fn aml_bytes(&self) -> (r: Vec<u8>) {
        let mut bytes: Vec<u8> = Vec::new();
        bytes.push(0x86);
        append_bytes(&mut bytes, self.arg1.as_slice());
        append_bytes(&mut bytes, self.arg2.as_slice());
        proof {
            assert(bytes@ =~= seq![0x86u8] + self.operands());
        }
        bytes
    }
}

/// Whether two values are equal.
#[derive(Debug)]
pub struct AmlEqual {
    arg1: Vec<u8>,
    arg2: Vec<u8>,
}

impl AmlEqual {
    /// The encodings of the two operands, in order.
    pub closed spec fn operands(&self) -> Seq<u8> {
        self.arg1@ + self.arg2@
    }

    /// The operation on `a1` and `a2`.
    pub fn new<A: AmlBuilder, B: AmlBuilder>(a1: A, a2: B) -> (r: AmlEqual)
        requires
            a1.encodable(),
            a2.encodable(),
        ensures
            r.operands() == a1.aml() + a2.aml(),
    {
        AmlEqual { arg1: a1.aml_bytes(), arg2: a2.aml_bytes() }
    }
}

impl AmlBuilder for AmlEqual {
    open spec fn encodable(&self) -> bool {
        true
    }

    open spec fn aml(&self) -> Seq<u8> {
        seq![0x93u8] + self.operands()
    }

    fn aml_bytes(&self) -> (r: Vec<u8>) {
        let mut bytes: Vec<u8> = Vec::new();
        bytes.push(0x93);
        append_bytes(&mut bytes, self.arg1.as_slice());
        append_bytes(&mut bytes, self.arg2.as_slice());
        proof {
            assert(bytes@ =~= seq![0x93u8] + self.operands());
        }
        bytes
    }
}

/// Whether the first value is greater than the second.
#[derive(Debug)]
pub struct AmlLGreater {
    arg1: Vec<u8>,
    arg2: Vec<u8>,
}

impl AmlLGreater {
    /// The encodings of the two operands, in order.
    pub closed spec fn operands(&self) -> Seq<u8> {
        self.arg1@ + self.arg2@
    }

    /// The operation on `a1` and `a2`.
    pub fn new<A: AmlBuilder, B: AmlBuilder>(a1: A, a2: B) -> (r: AmlLGreater)
        requires
            a1.encodable(),
            a2.encodable(),
        ensures
            r.operands() == a1.aml() + a2.aml(),
    {
        AmlLGreater { arg1: a1.aml_bytes(), arg2: a2.aml_bytes() }
    }
}

impl AmlBuilder for AmlLGreater {
    open spec fn encodable(&self) -> bool {
        true
    }

    open spec fn aml(&self) -> Seq<u8> {
        seq![0x94u8] + self.operands()
    }

    fn aml_bytes(&self) -> (r: Vec<u8>) {
        let mut bytes: Vec<u8> = Vec::new();
        bytes.push(0x94);
        append_bytes(&mut bytes, self.arg1.as_slice());
        append_bytes(&mut bytes, self.arg2.as_slice());
        proof {
            assert(bytes@ =~= seq![0x94u8] + self.operands());
        }
        bytes
    }
}

/// Whether the first value is less than the second.
#[derive(Debug)]
pub struct AmlLLess {
    arg1: Vec<u8>,
    arg2: Vec<u8>,
}

impl AmlLLess {
    /// The encodings of the two operands, in order.
    pub closed spec fn operands(&self) -> Seq<u8> {
        self.arg1@ + self.arg2@
    }

    /// The operation on `a1` and `a2`.
    pub fn new<A: AmlBuilder, B: AmlBuilder>(a1: A, a2: B) -> (r: AmlLLess)
        requires
            a1.encodable(),
            a2.encodable(),
        ensures
            r.operands() == a1.aml() + a2.aml(),
    {
        AmlLLess { arg1: a1.aml_bytes(), arg2: a2.aml_bytes() }
    }
}

impl AmlBuilder for AmlLLess {
    open spec fn encodable(&self) -> bool {
        true
    }

    open spec fn aml(&self) -> Seq<u8> {
        seq![0x95u8] + self.operands()
    }

    fn aml_bytes(&self) -> (r: Vec<u8>) {
        let mut bytes: Vec<u8> = Vec::new();
        bytes.push(0x95);
        append_bytes(&mut bytes, self.arg1.as_slice());
        append_bytes(&mut bytes, self.arg2.as_slice());
        proof {
            assert(bytes@ =~= seq![0x95u8] + self.operands());
        }
        bytes
    }
}

/// The logical and of two values.
#[derive(Debug)]
pub struct AmlLAnd {
    arg1: Vec<u8>,
    arg2: Vec<u8>,
}

impl AmlLAnd {
    /// The encodings of the two operands, in order.
    pub closed spec fn operands(&self) -> Seq<u8> {
        self.arg1@ + self.arg2@
    }

    /// The operation on `a1` and `a2`.
    pub fn new<A: AmlBuilder, B: AmlBuilder>(a1: A, a2: B) -> (r: AmlLAnd)
        requires
            a1.encodable(),
            a2.encodable(),
        ensures
            r.operands() == a1.aml() + a2.aml(),
    {
        AmlLAnd { arg1: a1.aml_bytes(), arg2: a2.aml_bytes() }
    }
}

impl AmlBuilder for AmlLAnd {
    open spec fn encodable(&self) -> bool {
        true
    }

    open spec fn aml(&self) -> Seq<u8> {
        seq![0x90u8] + self.operands()
    }

    fn aml_bytes(&self) -> (r: Vec<u8>) {
        let mut bytes: Vec<u8> = Vec::new();
        bytes.push(0x90);
        append_bytes(&mut bytes, self.arg1.as_slice());
        append_bytes(&mut bytes, self.arg2.as_slice());
        proof {
            assert(bytes@ =~= seq![0x90u8] + self.operands());
        }
        bytes
    }
}

/// The logical or of two values.
#[derive(Debug)]
pub struct AmlLOr {
    arg1: Vec<u8>,
    arg2: Vec<u8>,
}

impl AmlLOr {
    /// The encodings of the two operands, in order.
    pub closed spec fn operands(&self) -> Seq<u8> {
        self.arg1@ + self.arg2@
    }

    /// The operation on `a1` and `a2`.
    pub fn new<A: AmlBuilder, B: AmlBuilder>(a1: A, a2: B) -> (r: AmlLOr)
        requires
            a1.encodable(),
            a2.encodable(),
        ensures
            r.operands() == a1.aml() + a2.aml(),
    {
        AmlLOr { arg1: a1.aml_bytes(), arg2: a2.aml_bytes() }
    }
}

impl AmlBuilder for AmlLOr {
    open spec fn encodable(&self) -> bool {
        true
    }

    open spec fn aml(&self) -> Seq<u8> {
        seq![0x91u8] + self.operands()
    }

    fn aml_bytes(&self) -> (r: Vec<u8>) {
        let mut bytes: Vec<u8> = Vec::new();
        bytes.push(0x91);
        append_bytes(&mut bytes, self.arg1.as_slice());
        append_bytes(&mut bytes, self.arg2.as_slice());
        proof {
            assert(bytes@ =~= seq![0x91u8] + self.operands());
        }
        bytes
    }
}

/// A branch that is taken where its condition holds.
#[derive(Debug)]
pub struct AmlIf {
    buf: Vec<u8>,
}

impl AmlIf {
    /// What stands behind the opcode and the length.
    pub closed spec fn held(&self) -> Seq<u8> {
        self.buf@
    }

    /// The branch under the condition `predicate`, with its body still to
    /// be appended.
    pub fn new<T: AmlBuilder>(predicate: T) -> (r: AmlIf)
        requires
            predicate.encodable(),
        ensures
            r.held() == predicate.aml(),
    {
        AmlIf { buf: predicate.aml_bytes() }
    }
}

impl AmlBuilder for AmlIf {
    open spec fn encodable(&self) -> bool {
        true
    }

    open spec fn aml(&self) -> Seq<u8> {
        package_aml(seq![0xA0u8], self.held())
    }

    fn aml_bytes(&self) -> (r: Vec<u8>) {
        let opcode: [u8; 1] = [0xA0];
        let r = build_package(opcode.as_slice(), &self.buf);
        proof {
            assert(opcode@ =~= seq![0xA0u8]);
        }
        r
    }
}

impl AmlScopeBuilder for AmlIf {
    open spec fn body(&self) -> Seq<u8> {
        self.held()
    }

    fn append_child<T: AmlBuilder>(&mut self, child: T) {
        let mut bytes = child.aml_bytes();
        self.buf.append(&mut bytes);
    }
}

/// The branch that is taken where the condition before it fails.
#[derive(Debug)]
pub struct AmlElse {
    buf: Vec<u8>,
}

impl AmlElse {
    /// What stands behind the opcode and the length.
    pub closed spec fn held(&self) -> Seq<u8> {
        self.buf@
    }

    /// The branch, with its body still to be appended.
    pub fn new() -> (r: AmlElse)
        ensures
            r.held() == Seq::<u8>::empty(),
    {
        AmlElse { buf: Vec::new() }
    }
}

impl AmlBuilder for AmlElse {
    open spec fn encodable(&self) -> bool {
        true
    }

    open spec fn aml(&self) -> Seq<u8> {
        package_aml(seq![0xA1u8], self.held())
    }

    fn aml_bytes(&self) -> (r: Vec<u8>) {
        let opcode: [u8; 1] = [0xA1];
        let r = build_package(opcode.as_slice(), &self.buf);
        proof {
            assert(opcode@ =~= seq![0xA1u8]);
        }
        r
    }
}

impl AmlScopeBuilder for AmlElse {
    open spec fn body(&self) -> Seq<u8> {
        self.held()
    }

    fn append_child<T: AmlBuilder>(&mut self, child: T) {
        let mut bytes = child.aml_bytes();
        self.buf.append(&mut bytes);
    }
}

/// A loop that runs while its condition holds.
#[derive(Debug)]
pub struct AmlWhile {
    buf: Vec<u8>,
}

impl AmlWhile {
    /// What stands behind the opcode and the length.
    pub closed spec fn held(&self) -> Seq<u8> {
        self.buf@
    }

    /// The loop under the condition `predicate`, with its body still to be
    /// appended.
    pub fn new<T: AmlBuilder>(predicate: T) -> (r: AmlWhile)
        requires
            predicate.encodable(),
        ensures
            r.held() == predicate.aml(),
    {
        AmlWhile { buf: predicate.aml_bytes() }
    }
}

impl AmlBuilder for AmlWhile {
    open spec fn encodable(&self) -> bool {
        true
    }

    open spec fn aml(&self) -> Seq<u8> {
        package_aml(seq![0xA2u8], self.held())
    }

    fn aml_bytes(&self) -> (r: Vec<u8>) {
        let opcode: [u8; 1] = [0xA2];
        let r = build_package(opcode.as_slice(), &self.buf);
        proof {
            assert(opcode@ =~= seq![0xA2u8]);
        }
        r
    }
}

impl AmlScopeBuilder for AmlWhile {
    open spec fn body(&self) -> Seq<u8> {
        self.held()
    }

    fn append_child<T: AmlBuilder>(&mut self, child: T) {
        let mut bytes = child.aml_bytes();
        self.buf.append(&mut bytes);
    }
}

} // verus!
