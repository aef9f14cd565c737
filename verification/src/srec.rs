//! The checksummed line-oriented text container used to store and load
//! compiled images.  Each line carries a record-type tag, a big-endian
//! address of 2, 3 or 4 bytes depending on the type, up to 252 data
//! bytes, and a one-byte checksum: the bitwise complement of the
//! truncated sum of the byte count, the address bytes and the data.

use vstd::prelude::*;

use crate::lexer::spec_trim;
use crate::lexer::trim_bytes;
use crate::util::copy_bytes;
use crate::util::append_bytes;
use crate::vm::Code;
use crate::vm::CodeSection;

verus! {

/// What is wrong with a rejected line.
#[derive(Copy, Clone, PartialEq, Eq, Structural, Debug)]
pub enum LineFault {
    /// Too short, too long, or not starting with the record marker.
    BadShape,
    /// The stated byte count does not match the line, or the line is
    /// too short for its record type.
    BadByteCount,
    /// The stated checksum does not match the line's contents.
    BadChecksum,
    /// A count record that does not match the number of records before
    /// it.
    BadRecordCount,
}

/// A rejected line: its 1-based line number and the fault.
#[derive(Copy, Clone, PartialEq, Eq, Structural, Debug)]
pub enum SrecordError {
    InvalidLine(u32, LineFault),
}

/// The record types, one per tag digit.
#[derive(Copy, Clone, PartialEq, Eq, Structural, Debug)]
pub enum SrecType {
    SrecUnknown,
    SrecHeader,
    SrecData16,
    SrecData24,
    SrecData32,
    SrecReserved,
    SrecCount16,
    SrecCount24,
    SrecStart32,
    SrecStart24,
    SrecStart16,
}

/// The record type a tag byte names.
pub open spec fn spec_from_byte(c: u8) -> SrecType {
    if c == ('0' as u8) {
        SrecType::SrecHeader
    } else if c == ('1' as u8) {
        SrecType::SrecData16
    } else if c == ('2' as u8) {
        SrecType::SrecData24
    } else if c == ('3' as u8) {
        SrecType::SrecData32
    } else if c == ('4' as u8) {
        SrecType::SrecReserved
    } else if c == ('5' as u8) {
        SrecType::SrecCount16
    } else if c == ('6' as u8) {
        SrecType::SrecCount24
    } else if c == ('7' as u8) {
        SrecType::SrecStart32
    } else if c == ('8' as u8) {
        SrecType::SrecStart24
    } else if c == ('9' as u8) {
        SrecType::SrecStart16
    } else {
        SrecType::SrecUnknown
    }
}

/// The tag byte of a record type; the unknown type prints as a zero
/// byte.
pub open spec fn spec_to_char(t: SrecType) -> u8 {
    match t {
        SrecType::SrecHeader => ('0' as u8),
        SrecType::SrecData16 => ('1' as u8),
        SrecType::SrecData24 => ('2' as u8),
        SrecType::SrecData32 => ('3' as u8),
        SrecType::SrecReserved => ('4' as u8),
        SrecType::SrecCount16 => ('5' as u8),
        SrecType::SrecCount24 => ('6' as u8),
        SrecType::SrecStart32 => ('7' as u8),
        SrecType::SrecStart24 => ('8' as u8),
        SrecType::SrecStart16 => ('9' as u8),
        SrecType::SrecUnknown => 0,
    }
}

impl SrecType {
    /// Reads a tag byte.
    pub fn from_byte(c: u8) -> (t: SrecType)
        ensures
            t == spec_from_byte(c),
    {
        if c == ('0' as u8) {
            SrecType::SrecHeader
        } else if c == ('1' as u8) {
            SrecType::SrecData16
        } else if c == ('2' as u8) {
            SrecType::SrecData24
        } else if c == ('3' as u8) {
            SrecType::SrecData32
        } else if c == ('4' as u8) {
            SrecType::SrecReserved
        } else if c == ('5' as u8) {
            SrecType::SrecCount16
        } else if c == ('6' as u8) {
            SrecType::SrecCount24
        } else if c == ('7' as u8) {
            SrecType::SrecStart32
        } else if c == ('8' as u8) {
            SrecType::SrecStart24
        } else if c == ('9' as u8) {
            SrecType::SrecStart16
        } else {
            SrecType::SrecUnknown
        }
    }

    /// Writes the tag byte.
    pub fn to_char(&self) -> (c: u8)
        ensures
            c == spec_to_char(*self),
    {
        match self {
            SrecType::SrecHeader => ('0' as u8),
            SrecType::SrecData16 => ('1' as u8),
            SrecType::SrecData24 => ('2' as u8),
            SrecType::SrecData32 => ('3' as u8),
            SrecType::SrecReserved => ('4' as u8),
            SrecType::SrecCount16 => ('5' as u8),
            SrecType::SrecCount24 => ('6' as u8),
            SrecType::SrecStart32 => ('7' as u8),
            SrecType::SrecStart24 => ('8' as u8),
            SrecType::SrecStart16 => ('9' as u8),
            SrecType::SrecUnknown => 0,
        }
    }

    /// How many address bytes records of this type carry on a line.
    pub open spec fn spec_addr_len(self) -> nat {
        match self {
            SrecType::SrecHeader => 2,
            SrecType::SrecData16 => 2,
            SrecType::SrecCount16 => 2,
            SrecType::SrecStart16 => 2,
            SrecType::SrecData24 => 3,
            SrecType::SrecCount24 => 3,
            SrecType::SrecStart24 => 3,
            SrecType::SrecData32 => 4,
            SrecType::SrecStart32 => 4,
            _ => 0,
        }
    }
}

/// The value of one hexadecimal text digit as this codec reads it:
/// `0`-`9` and upper-case `A`-`F`; anything else reads as 0.
pub open spec fn spec_hex_to_byte(h: u8) -> u8 {
    if ('0' as u8) <= h <= ('9' as u8) {
        (h - ('0' as u8)) as u8
    } else if ('A' as u8) <= h <= ('F' as u8) {
        (h - ('A' as u8) + 10) as u8
    } else {
        0
    }
}

/// Executable twin of [`spec_hex_to_byte`].
pub fn hex_to_byte(h: u8) -> (r: u8)
    ensures
        r == spec_hex_to_byte(h),
{
    if ('0' as u8) <= h && h <= ('9' as u8) {
        h - ('0' as u8)
    } else if ('A' as u8) <= h && h <= ('F' as u8) {
        h - ('A' as u8) + 10
    } else {
        0
    }
}

/// Hex text decoded two digits per byte; text of odd length decodes to
/// nothing.
pub open spec fn spec_convert_hex(s: Seq<u8>) -> Seq<u8> {
    if s.len() % 2 != 0 {
        Seq::empty()
    } else {
        Seq::new(
            s.len() / 2,
            |i: int| (spec_hex_to_byte(s[2 * i]) * 16 + spec_hex_to_byte(s[2 * i + 1])) as u8,
        )
    }
}

/// Decodes hex text, two digits per byte.
pub fn convert_hex(bytes: &[u8]) -> (r: Vec<u8>)
    ensures
        r@ == spec_convert_hex(bytes@),
{
    let mut converted: Vec<u8> = Vec::new();
    if bytes.len() % 2 != 0 {
        return converted;
    }
    let n = bytes.len();
    let half = n / 2;
    let mut i: usize = 0;
    while i < half
        invariant
            0 <= i <= half,
            n == bytes@.len(),
            half == bytes@.len() / 2,
            bytes@.len() % 2 == 0,
            converted@ =~= spec_convert_hex(bytes@).take(i as int),
        decreases half - i,
    {
        proof {
            assert(2 * i + 1 < n);
        }
        let num = hex_to_byte(bytes[2 * i]) * 16 + hex_to_byte(bytes[2 * i + 1]);
        converted.push(num);
        proof {
            assert(converted@ =~= spec_convert_hex(bytes@).take(i as int + 1));
        }
        i += 1;
    }
    proof {
        assert(converted@ =~= spec_convert_hex(bytes@));
    }
    converted
}

/// A big-endian address of 2, 3 or 4 bytes; any other length reads 0.
pub open spec fn spec_bytes_to_address(bytes: Seq<u8>) -> u32 {
    if bytes.len() == 2 {
        ((bytes[0] as u32) * 0x100 + (bytes[1] as u32)) as u32
    } else if bytes.len() == 3 {
        ((bytes[0] as u32) * 0x10000 + (bytes[1] as u32) * 0x100 + (bytes[2] as u32)) as u32
    } else if bytes.len() == 4 {
        ((bytes[0] as u32) * 0x1000000 + (bytes[1] as u32) * 0x10000 + (bytes[2] as u32) * 0x100
            + (bytes[3] as u32)) as u32
    } else {
        0
    }
}

/// Reads a big-endian address of 2, 3 or 4 bytes.
pub fn bytes_to_address(bytes: &[u8]) -> (r: u32)
    ensures
        r == spec_bytes_to_address(bytes@),
{
    if bytes.len() == 2 {
        (bytes[0] as u32) * 0x100 + (bytes[1] as u32)
    } else if bytes.len() == 3 {
        (bytes[0] as u32) * 0x10000 + (bytes[1] as u32) * 0x100 + (bytes[2] as u32)
    } else if bytes.len() == 4 {
        (bytes[0] as u32) * 0x1000000 + (bytes[1] as u32) * 0x10000 + (bytes[2] as u32) * 0x100
            + (bytes[3] as u32)
    } else {
        0
    }
}

/// One upper-case hex digit.
pub open spec fn spec_hex_digit(d: u8) -> u8 {
    if d < 10 {
        (('0' as u8) + d) as u8
    } else {
        (('A' as u8) + d - 10) as u8
    }
}

/// A byte string as upper-case hex text, two digits per byte.
pub open spec fn spec_hex_text(s: Seq<u8>) -> Seq<u8> {
    Seq::new(
        2 * s.len(),
        |i: int|
            if i % 2 == 0 {
                spec_hex_digit(s[i / 2] / 16)
            } else {
                spec_hex_digit(s[i / 2] % 16)
            },
    )
}

/// Renders a byte string as upper-case hex text.
pub fn to_hex_string(bytes: &[u8]) -> (r: Vec<u8>)
    ensures
        r@ == spec_hex_text(bytes@),
{
    let mut out: Vec<u8> = Vec::new();
    let mut i: usize = 0;
    while i < bytes.len()
        invariant
            0 <= i <= bytes@.len(),
            out@ =~= spec_hex_text(bytes@).take(2 * i as int),
        decreases bytes@.len() - i,
    {
        let b = bytes[i];
        let hi = b / 16;
        let lo = b % 16;
        let dh = if hi < 10 {
            ('0' as u8) + hi
        } else {
            ('A' as u8) + (hi - 10)
        };
        let dl = if lo < 10 {
            ('0' as u8) + lo
        } else {
            ('A' as u8) + (lo - 10)
        };
        out.push(dh);
        out.push(dl);
        proof {
            assert(out@ =~= spec_hex_text(bytes@).take(2 * (i as int + 1)));
        }
        i += 1;
    }
    proof {
        assert(out@ =~= spec_hex_text(bytes@));
    }
    out
}

/// One line of the container: record type, address, and data bytes.
#[derive(Debug)]
pub struct Line {
    pub rec_type: SrecType,
    pub address: u32,
    pub data: Vec<u8>,
}

/// The wrapping byte sum of a byte string.
pub open spec fn sum8(s: Seq<u8>) -> u8
    decreases s.len(),
{
    if s.len() == 0 {
        0
    } else {
        sum8(s.drop_last()).wrapping_add(s.last())
    }
}

/// The byte count a line states: data length plus the checksum byte plus
/// the address bytes, truncated to one byte.
pub open spec fn spec_byte_count(t: SrecType, dlen: nat) -> u8 {
    (((dlen % 0x100) + 1 + t.spec_addr_len()) % 0x100) as u8
}

/// The address bytes that enter a line's checksum: the low two bytes
/// always, plus the higher bytes for every record type whose address
/// field carries them.
pub open spec fn spec_addr_sum_bytes(t: SrecType, address: u32) -> Seq<u8> {
    let b0 = (address % 0x100) as u8;
    let b1 = ((address / 0x100) % 0x100) as u8;
    let b2 = ((address / 0x10000) % 0x100) as u8;
    let b3 = ((address / 0x1000000) % 0x100) as u8;
    if t.spec_addr_len() == 3 {
        seq![b0, b1, b2]
    } else if t.spec_addr_len() == 4 {
        seq![b0, b1, b2, b3]
    } else {
        seq![b0, b1]
    }
}

/// A line's checksum: the bitwise complement (255 minus) of the wrapping
/// sum of its byte count, its address bytes, and its data.
pub open spec fn spec_checksum(t: SrecType, address: u32, data: Seq<u8>) -> u8 {
    (255 - sum8(seq![spec_byte_count(t, data.len())] + spec_addr_sum_bytes(t, address) + data)) as u8
}

/// Byte sums extend one byte at a time.
proof fn lemma_sum8_push(s: Seq<u8>, b: u8)
    ensures
        sum8(s.push(b)) == sum8(s).wrapping_add(b),
{
    assert(s.push(b).drop_last() =~= s);
    assert(s.push(b).last() == b);
}

impl Line {
    /// A line with no address and no data yet.
    pub fn new(rec_type: SrecType) -> (r: Line)
        ensures
            r.rec_type == rec_type,
            r.address == 0,
            r.data@ == Seq::<u8>::empty(),
    {
        Line { rec_type, address: 0, data: Vec::new() }
    }

    /// A line with data and no address.
    pub fn new_with_data(rec_type: SrecType, data: Vec<u8>) -> (r: Line)
        ensures
            r.rec_type == rec_type,
            r.address == 0,
            r.data == data,
    {
        Line { rec_type, address: 0, data }
    }

    /// The byte count this line states.
    pub fn byte_count(&self) -> (r: u8)
        ensures
            r == spec_byte_count(self.rec_type, self.data@.len()),
    {
        let mut count: u8 = (self.data.len() % 256) as u8;
        count = count.wrapping_add(1);
        let extra: u8 = match self.rec_type {
            SrecType::SrecHeader => 2,
            SrecType::SrecData16 => 2,
            SrecType::SrecCount16 => 2,
            SrecType::SrecStart16 => 2,
            SrecType::SrecData24 => 3,
            SrecType::SrecCount24 => 3,
            SrecType::SrecStart24 => 3,
            SrecType::SrecData32 => 4,
            SrecType::SrecStart32 => 4,
            _ => 0,
        };
        count = count.wrapping_add(extra);
        proof {
            assert(count == spec_byte_count(self.rec_type, self.data@.len()));
        }
        count
    }

    /// This line's checksum.
    pub fn gen_checksum(&self) -> (r: u8)
        ensures
            r == spec_checksum(self.rec_type, self.address, self.data@),
    {
        let bc = self.byte_count();
        let mut sum: u8 = bc;
        let b0 = (self.address % 0x100) as u8;
        let b1 = ((self.address / 0x100) % 0x100) as u8;
        let b2 = ((self.address / 0x10000) % 0x100) as u8;
        let b3 = ((self.address / 0x1000000) % 0x100) as u8;
        let ghost pre: Seq<u8> = seq![bc] + spec_addr_sum_bytes(self.rec_type, self.address);
        sum = sum.wrapping_add(b0);
        sum = sum.wrapping_add(b1);
        let w24 = match self.rec_type {
            SrecType::SrecData24 => true,
            SrecType::SrecCount24 => true,
            SrecType::SrecStart24 => true,
            _ => false,
        };
        let w32 = match self.rec_type {
            SrecType::SrecData32 => true,
            SrecType::SrecStart32 => true,
            _ => false,
        };
        if w24 {
            sum = sum.wrapping_add(b2);
        } else if w32 {
            sum = sum.wrapping_add(b2);
            sum = sum.wrapping_add(b3);
        }
        proof {
            let abs = spec_addr_sum_bytes(self.rec_type, self.address);
            assert(sum == sum8(pre)) by {
                if w24 {
                    assert(pre =~= seq![bc].push(b0).push(b1).push(b2));
                    lemma_sum8_push(seq![bc].push(b0).push(b1), b2);
                    lemma_sum8_push(seq![bc].push(b0), b1);
                    lemma_sum8_push(seq![bc], b0);
                    assert(sum8(seq![bc]) == bc) by {
                        assert(seq![bc].drop_last() =~= Seq::<u8>::empty());
                        assert(sum8(Seq::<u8>::empty()) == 0);
                    }
                } else if w32 {
                    assert(pre =~= seq![bc].push(b0).push(b1).push(b2).push(b3));
                    lemma_sum8_push(seq![bc].push(b0).push(b1).push(b2), b3);
                    lemma_sum8_push(seq![bc].push(b0).push(b1), b2);
                    lemma_sum8_push(seq![bc].push(b0), b1);
                    lemma_sum8_push(seq![bc], b0);
                    assert(sum8(seq![bc]) == bc) by {
                        assert(seq![bc].drop_last() =~= Seq::<u8>::empty());
                        assert(sum8(Seq::<u8>::empty()) == 0);
                    }
                } else {
                    assert(pre =~= seq![bc].push(b0).push(b1));
                    lemma_sum8_push(seq![bc].push(b0), b1);
                    lemma_sum8_push(seq![bc], b0);
                    assert(sum8(seq![bc]) == bc) by {
                        assert(seq![bc].drop_last() =~= Seq::<u8>::empty());
                        assert(sum8(Seq::<u8>::empty()) == 0);
                    }
                }
            }
        }
        let mut i: usize = 0;
        while i < self.data.len()
            invariant
                0 <= i <= self.data@.len(),
                sum == sum8(pre + self.data@.take(i as int)),
                pre == seq![spec_byte_count(self.rec_type, self.data@.len())]
                    + spec_addr_sum_bytes(self.rec_type, self.address),
            decreases self.data@.len() - i,
        {
            proof {
                lemma_sum8_push(pre + self.data@.take(i as int), self.data@[i as int]);
                assert((pre + self.data@.take(i as int)).push(self.data@[i as int]) =~= pre
                    + self.data@.take(i as int + 1));
            }
            sum = sum.wrapping_add(self.data[i]);
            i += 1;
        }
        proof {
            assert(pre + self.data@.take(self.data@.len() as int) =~= pre + self.data@);
        }
        255 - sum
    }
}

/// A whole container: its lines in order.
#[derive(Debug)]
pub struct Srecord(pub Vec<Line>);

impl Srecord {
    /// Appends a header record carrying the given bytes.
    pub fn add_header(&mut self, data: &[u8])
        ensures
            final(self).0@.len() == old(self).0@.len() + 1,
            final(self).0@.drop_last() == old(self).0@,
            final(self).0@.last().rec_type == SrecType::SrecHeader,
            final(self).0@.last().address == 0,
            final(self).0@.last().data@ == data@,
    {
        self.0.push(Line::new_with_data(SrecType::SrecHeader, copy_bytes(data)));
        proof {
            assert(self.0@.drop_last() =~= old(self).0@);
        }
    }

    /// Appends a record with a 16-bit address.
    pub fn add_record16(&mut self, rec_type: SrecType, address: u16, data: &[u8])
        ensures
            final(self).0@.len() == old(self).0@.len() + 1,
            final(self).0@.drop_last() == old(self).0@,
            final(self).0@.last().rec_type == rec_type,
            final(self).0@.last().address == address as u32,
            final(self).0@.last().data@ == data@,
    {
        self.0.push(Line { rec_type, address: address as u32, data: copy_bytes(data) });
        proof {
            assert(self.0@.drop_last() =~= old(self).0@);
        }
    }

    /// Appends a record with a 32-bit address.
    pub fn add_record32(&mut self, rec_type: SrecType, address: u32, data: &[u8])
        ensures
            final(self).0@.len() == old(self).0@.len() + 1,
            final(self).0@.drop_last() == old(self).0@,
            final(self).0@.last().rec_type == rec_type,
            final(self).0@.last().address == address,
            final(self).0@.last().data@ == data@,
    {
        self.0.push(Line { rec_type, address, data: copy_bytes(data) });
        proof {
            assert(self.0@.drop_last() =~= old(self).0@);
        }
    }
}

/// The minimal upper-case hex digits of a value; zero prints as nothing.
pub open spec fn hex_min(a: nat) -> Seq<u8>
    decreases a,
{
    if a == 0 {
        Seq::empty()
    } else {
        hex_min(a / 16).push(spec_hex_digit((a % 16) as u8))
    }
}

/// An address as at least four upper-case hex digits, zero-padded, and
/// more digits only when the value needs them.
pub open spec fn spec_addr_hex(a: u32) -> Seq<u8> {
    if hex_min(a as nat).len() >= 4 {
        hex_min(a as nat)
    } else {
        Seq::new((4 - hex_min(a as nat).len()) as nat, |i: int| ('0' as u8)) + hex_min(a as nat)
    }
}

/// Renders an address as at-least-four-digit upper-case hex.
fn addr_hex(a: u32) -> (r: Vec<u8>)
    ensures
        r@ == spec_addr_hex(a),
{
    let mut acc: Vec<u8> = Vec::new();
    let mut x = a;
    proof {
        assert(acc@.reverse() =~= Seq::<u8>::empty());
        assert(hex_min(a as nat) =~= hex_min(x as nat) + acc@.reverse());
    }
    while x > 0
        invariant
            hex_min(a as nat) == hex_min(x as nat) + acc@.reverse(),
        decreases x,
    {
        let d = (x % 16) as u8;
        let dch = if d < 10 {
            ('0' as u8) + d
        } else {
            ('A' as u8) + (d - 10)
        };
        let ghost acc_pre = acc@;
        acc.push(dch);
        x = x / 16;
        proof {
            assert(acc@.reverse() =~= seq![dch] + acc_pre.reverse());
            assert(hex_min(x as nat).push(dch) + acc_pre.reverse() =~= hex_min(x as nat) + (
            seq![dch] + acc_pre.reverse()));
        }
    }
    proof {
        assert(hex_min(0nat) =~= Seq::<u8>::empty());
        assert(hex_min(a as nat) =~= acc@.reverse());
    }
    proof {
        assert(spec_addr_hex(a) =~= Seq::new(
            (if acc@.len() < 4 {
                4 - acc@.len()
            } else {
                0
            }) as nat,
            |i: int| ('0' as u8),
        ) + acc@.reverse());
    }
    while acc.len() < 4
        invariant
            spec_addr_hex(a) == Seq::new(
                (if acc@.len() < 4 {
                    4 - acc@.len()
                } else {
                    0
                }) as nat,
                |i: int| ('0' as u8),
            ) + acc@.reverse(),
        decreases 4 - acc@.len(),
    {
        let ghost acc_pre = acc@;
        acc.push('0' as u8);
        proof {
            assert(acc@.reverse() =~= seq![('0' as u8)] + acc_pre.reverse());
            assert(Seq::new(
                (if acc_pre.len() < 4 {
                    4 - acc_pre.len()
                } else {
                    0
                }) as nat,
                |i: int| ('0' as u8),
            ) + acc_pre.reverse() =~= Seq::new(
                (if acc@.len() < 4 {
                    4 - acc@.len()
                } else {
                    0
                }) as nat,
                |i: int| ('0' as u8),
            ) + acc@.reverse());
        }
    }
    proof {
        assert(spec_addr_hex(a) =~= acc@.reverse());
    }
    let mut out: Vec<u8> = Vec::new();
    while acc.len() > 0
        invariant
            out@ + acc@.reverse() == spec_addr_hex(a),
        decreases acc@.len(),
    {
        let ghost acc_pre = acc@;
        let d = match acc.pop() {
            Some(d) => d,
            None => {
                assert(false);
                0
            },
        };
        out.push(d);
        proof {
            assert(acc_pre.reverse() =~= seq![d] + acc@.reverse());
            assert(out@ + acc@.reverse() =~= spec_addr_hex(a));
        }
    }
    proof {
        assert(acc@.reverse() =~= Seq::<u8>::empty());
        assert(out@ =~= spec_addr_hex(a));
    }
    out
}

/// One line's rendered text: the `S` marker, the type tag, the byte
/// count, the address, the data and the checksum, all in hex.
pub open spec fn spec_render_line(l: Line) -> Seq<u8> {
    seq![('S' as u8), spec_to_char(l.rec_type)] + spec_hex_text(
        seq![spec_byte_count(l.rec_type, l.data@.len())],
    ) + spec_addr_hex(l.address) + spec_hex_text(l.data@) + spec_hex_text(
        seq![spec_checksum(l.rec_type, l.address, l.data@)],
    )
}

impl Line {
    /// Renders this line as text.
    pub fn render(&self) -> (r: Vec<u8>)
        ensures
            r@ == spec_render_line(*self),
    {
        let mut out: Vec<u8> = Vec::new();
        out.push('S' as u8);
        out.push(self.rec_type.to_char());
        proof {
            assert(out@ =~= seq![('S' as u8), spec_to_char(self.rec_type)]);
        }
        let bc = [self.byte_count()];
        proof {
            assert(bc@ =~= seq![spec_byte_count(self.rec_type, self.data@.len())]);
        }
        let bch = to_hex_string(bc.as_slice());
        append_bytes(&mut out, bch.as_slice());
        let ah = addr_hex(self.address);
        append_bytes(&mut out, ah.as_slice());
        let dh = to_hex_string(self.data.as_slice());
        append_bytes(&mut out, dh.as_slice());
        let ck = [self.gen_checksum()];
        proof {
            assert(ck@ =~= seq![spec_checksum(self.rec_type, self.address, self.data@)]);
        }
        let ckh = to_hex_string(ck.as_slice());
        append_bytes(&mut out, ckh.as_slice());
        proof {
            assert(out@ =~= spec_render_line(*self));
        }
        out
    }
}

/// A whole container's rendered text: each line followed by a newline.
pub open spec fn spec_render_all(ls: Seq<Line>) -> Seq<u8>
    decreases ls.len(),
{
    if ls.len() == 0 {
        Seq::empty()
    } else {
        spec_render_line(ls[0]) + seq![('\n' as u8)] + spec_render_all(ls.drop_first())
    }
}

impl Srecord {
    /// Renders every line, one per text line.
    pub fn render(&self) -> (r: Vec<u8>)
        ensures
            r@ == spec_render_all(self.0@),
    {
        let mut out: Vec<u8> = Vec::new();
        let mut i: usize = 0;
        proof {
            assert(self.0@.skip(0) =~= self.0@);
        }
        while i < self.0.len()
            invariant
                0 <= i <= self.0@.len(),
                out@ + spec_render_all(self.0@.skip(i as int)) == spec_render_all(self.0@),
            decreases self.0@.len() - i,
        {
            let ghost out_pre = out@;
            let lh = self.0[i].render();
            append_bytes(&mut out, lh.as_slice());
            out.push('\n' as u8);
            proof {
                let rest = self.0@.skip(i as int);
                assert(rest[0] == self.0@[i as int]);
                assert(rest.drop_first() =~= self.0@.skip(i as int + 1));
                assert(out@ =~= out_pre + spec_render_line(self.0@[i as int]) + seq![('\n'
                    as u8)]);
                assert(out@ + spec_render_all(self.0@.skip(i as int + 1)) =~= out_pre
                    + spec_render_all(rest));
            }
            i += 1;
        }
        proof {
            assert(spec_render_all(self.0@.skip(self.0@.len() as int)) =~= Seq::<u8>::empty());
        }
        out
    }
}

/// The first index of `b` in `s` at or after `i`, or the length when
/// `b` does not occur.
pub open spec fn idx_of(s: Seq<u8>, b: u8, i: int) -> int
    decreases s.len() - i,
{
    if i < 0 || i >= s.len() {
        s.len() as int
    } else if s[i] == b {
        i
    } else {
        idx_of(s, b, i + 1)
    }
}

/// `idx_of` lands on the first occurrence.
proof fn lemma_idx_of(s: Seq<u8>, b: u8, i: int)
    requires
        0 <= i <= s.len(),
    ensures
        i <= idx_of(s, b, i) <= s.len(),
        idx_of(s, b, i) < s.len() ==> s[idx_of(s, b, i)] == b,
        forall|j: int| i <= j < idx_of(s, b, i) ==> s[j] != b,
    decreases s.len() - i,
{
    if i < s.len() && s[i] != b {
        lemma_idx_of(s, b, i + 1);
    }
}

/// A text split into lines on `\n`; the final fragment counts only when
/// nonempty (a trailing newline opens no empty line).
pub open spec fn split_nl(s: Seq<u8>) -> Seq<Seq<u8>>
    decreases s.len(),
{
    if s.len() == 0 {
        Seq::empty()
    } else {
        let i = idx_of(s, ('\n' as u8), 0);
        if i < 0 || i >= s.len() {
            seq![s]
        } else {
            seq![s.take(i)] + split_nl(s.skip(i + 1))
        }
    }
}

/// Splits a text into lines on `\n`.
fn split_lines(src: &[u8]) -> (r: Vec<Vec<u8>>)
    ensures
        r.deep_view() == split_nl(src@),
{
    let mut out: Vec<Vec<u8>> = Vec::new();
    let n = src.len();
    let mut start: usize = 0;
    let mut pos: usize = 0;
    proof {
        assert(src@.skip(0) =~= src@);
        assert(out.deep_view() + split_nl(src@.skip(0)) =~= split_nl(src@));
    }
    while pos < n
        invariant
            n == src@.len(),
            0 <= start <= pos <= n,
            forall|j: int| start <= j < pos ==> src@[j] != ('\n' as u8),
            out.deep_view() + split_nl(src@.skip(start as int)) == split_nl(src@),
        decreases n - pos,
    {
        if src[pos] == ('\n' as u8) {
            let ghost out_pre = out.deep_view();
            let seg = crate::util::copy_bytes_prefix(
                crate::util::copy_bytes_from(src, start).as_slice(),
                pos - start,
            );
            out.push(seg);
            proof {
                let rest = src@.skip(start as int);
                lemma_idx_of(rest, ('\n' as u8), 0);
                assert forall|j: int| 0 <= j < pos - start implies rest[j] != ('\n' as u8) by {
                    assert(rest[j] == src@[start + j]);
                }
                assert(rest[pos - start] == ('\n' as u8));
                assert(idx_of(rest, ('\n' as u8), 0) == pos - start) by {
                    if idx_of(rest, ('\n' as u8), 0) < pos - start {
                        assert(rest[idx_of(rest, ('\n' as u8), 0)] != ('\n' as u8));
                    }
                }
                assert(seg@ =~= rest.take(pos - start));
                assert(rest.skip(pos - start + 1) =~= src@.skip(pos as int + 1));
                assert(out.deep_view() =~~= out_pre.push(seg@));
                assert(out.deep_view() + split_nl(src@.skip(pos as int + 1)) =~~= out_pre + (
                seq![rest.take(pos - start)] + split_nl(rest.skip(pos - start + 1))));
            }
            start = pos + 1;
        }
        pos += 1;
    }
    if start < n {
        let ghost out_pre = out.deep_view();
        let seg = crate::util::copy_bytes_from(src, start);
        out.push(seg);
        proof {
            let rest = src@.skip(start as int);
            lemma_idx_of(rest, ('\n' as u8), 0);
            assert forall|j: int| 0 <= j < rest.len() implies rest[j] != ('\n' as u8) by {
                assert(rest[j] == src@[start + j]);
            }
            assert(idx_of(rest, ('\n' as u8), 0) == rest.len());
            assert(split_nl(rest) =~= seq![rest]);
            assert(out.deep_view() =~~= out_pre.push(seg@));
            assert(out.deep_view() =~~= out_pre + seq![rest]);
        }
    } else {
        proof {
            assert(split_nl(src@.skip(start as int)) =~= Seq::<Seq<u8>>::empty());
            assert(out.deep_view() + Seq::<Seq<u8>>::empty() =~= out.deep_view());
        }
    }
    out
}

/// What one trimmed line parses to: its record type, address and data
/// bytes, or the first fault found.  `prior` is how many records stand
/// before this line, which a count record must match (as one less than
/// the count of all records including itself).
pub open spec fn spec_parse_line(raw: Seq<u8>, prior: nat) -> Result<
    (SrecType, u32, Seq<u8>),
    LineFault,
> {
    let line = spec_trim(raw);
    if line.len() < 10 || line.len() > 514 || line[0] != ('S' as u8) {
        Err(LineFault::BadShape)
    } else {
        let conv = spec_convert_hex(line.skip(2));
        if conv.len() < 1 || conv.len() - 1 != conv[0] {
            Err(LineFault::BadByteCount)
        } else {
            let t = spec_from_byte(line[1]);
            let ds: int = if t.spec_addr_len() == 0 {
                3
            } else {
                1 + t.spec_addr_len() as int
            };
            if conv.len() < ds + 1 {
                Err(LineFault::BadByteCount)
            } else {
                let addr: u32 = if t.spec_addr_len() == 0 {
                    0
                } else {
                    spec_bytes_to_address(conv.subrange(1, 1 + t.spec_addr_len() as int))
                };
                let data = conv.subrange(ds, conv.len() - 1);
                let chk = conv.last();
                if spec_checksum(t, addr, data) != chk {
                    Err(LineFault::BadChecksum)
                } else if (t == SrecType::SrecCount16 || t == SrecType::SrecCount24) && (prior
                    == 0 || prior - 1 != addr) {
                    Err(LineFault::BadRecordCount)
                } else {
                    Ok((t, addr, data))
                }
            }
        }
    }
}

/// What a list of lines parses to, reading from line `k` on with `k`
/// records already taken in: all the records, or the first line fault
/// with its 1-based line number.
pub open spec fn spec_parse_lines(ls: Seq<Seq<u8>>, k: int) -> Result<
    Seq<(SrecType, u32, Seq<u8>)>,
    SrecordError,
>
    decreases ls.len() - k,
{
    if k < 0 || k >= ls.len() {
        Ok(Seq::empty())
    } else {
        match spec_parse_line(ls[k], k as nat) {
            Err(f) => Err(SrecordError::InvalidLine((k as u32).wrapping_add(1), f)),
            Ok(m) => match spec_parse_lines(ls, k + 1) {
                Err(e) => Err(e),
                Ok(rest) => Ok(seq![m] + rest),
            },
        }
    }
}

/// The records a container holds, as the contracts speak of them.
pub open spec fn line_models(ls: Seq<Line>) -> Seq<(SrecType, u32, Seq<u8>)> {
    ls.map_values(|l: Line| (l.rec_type, l.address, l.data@))
}

/// Parses a container from its text: lines split on `\n`, each trimmed
/// of surrounding whitespace, checked in shape, byte count, checksum and
/// record count, and decoded in order.  The result holds exactly the
/// records the line list parses to, and the error names the first bad
/// line.
#[verifier::rlimit(100)]
pub fn parse_text(src: &[u8]) -> (r: Result<Srecord, SrecordError>)
    ensures
        ({
            match spec_parse_lines(split_nl(src@), 0) {
                Ok(ms) => r matches Ok(rec) && line_models(rec.0@) == ms,
                Err(e) => r == Err::<Srecord, SrecordError>(e),
            }
        }),
{
    let lines = split_lines(src);
    let ghost ls = split_nl(src@);
    let mut records: Vec<Line> = Vec::new();
    let mut i: usize = 0;
    proof {
        assert(line_models(Seq::<Line>::empty()) =~= Seq::<(SrecType, u32, Seq<u8>)>::empty());
    }
    while i < lines.len()
        invariant
            ls == split_nl(src@),
            lines.deep_view() == ls,
            lines@.len() == ls.len(),
            0 <= i <= ls.len(),
            records@.len() == i,
            ({
                match spec_parse_lines(ls, i as int) {
                    Ok(rest) => spec_parse_lines(ls, 0) == Ok::<
                        Seq<(SrecType, u32, Seq<u8>)>,
                        SrecordError,
                    >(line_models(records@) + rest),
                    Err(e) => spec_parse_lines(ls, 0) == Err::<
                        Seq<(SrecType, u32, Seq<u8>)>,
                        SrecordError,
                    >(e),
                }
            }),
        decreases ls.len() - i,
    {
        proof {
            assert(lines@[i as int]@ == ls[i as int]);
        }
        let raw = &lines[i];
        let line = trim_bytes(raw.as_slice());
        if line.len() < 10 || line.len() > 514 || line[0] != ('S' as u8) {
            return Err(SrecordError::InvalidLine((i as u32).wrapping_add(1), LineFault::BadShape));
        }
        let hexpart = crate::util::copy_bytes_from(line.as_slice(), 2);
        let conv = convert_hex(hexpart.as_slice());
        if conv.len() < 1 {
            return Err(
                SrecordError::InvalidLine((i as u32).wrapping_add(1), LineFault::BadByteCount),
            );
        }
        let bcount = conv[0];
        if conv.len() - 1 != bcount as usize {
            return Err(
                SrecordError::InvalidLine((i as u32).wrapping_add(1), LineFault::BadByteCount),
            );
        }
        let t = SrecType::from_byte(line[1]);
        let alen: usize = match t {
            SrecType::SrecHeader => 2,
            SrecType::SrecData16 => 2,
            SrecType::SrecCount16 => 2,
            SrecType::SrecStart16 => 2,
            SrecType::SrecData24 => 3,
            SrecType::SrecCount24 => 3,
            SrecType::SrecStart24 => 3,
            SrecType::SrecData32 => 4,
            SrecType::SrecStart32 => 4,
            _ => 0,
        };
        let ds: usize = if alen == 0 {
            3
        } else {
            1 + alen
        };
        if conv.len() < ds + 1 {
            return Err(
                SrecordError::InvalidLine((i as u32).wrapping_add(1), LineFault::BadByteCount),
            );
        }
        let addr: u32 = if alen == 0 {
            0
        } else {
            let abytes = crate::util::copy_bytes_prefix(
                crate::util::copy_bytes_from(conv.as_slice(), 1).as_slice(),
                alen,
            );
            proof {
                assert(abytes@ =~= conv@.subrange(1, 1 + alen as int));
            }
            bytes_to_address(abytes.as_slice())
        };
        let chk = conv[conv.len() - 1];
        let data = crate::util::copy_bytes_prefix(
            crate::util::copy_bytes_from(conv.as_slice(), ds).as_slice(),
            conv.len() - 1 - ds,
        );
        proof {
            assert(data@ =~= conv@.subrange(ds as int, conv@.len() - 1));
        }
        let rec = Line { rec_type: t, address: addr, data };
        if rec.gen_checksum() != chk {
            return Err(
                SrecordError::InvalidLine((i as u32).wrapping_add(1), LineFault::BadChecksum),
            );
        }
        let is_count = match t {
            SrecType::SrecCount16 => true,
            SrecType::SrecCount24 => true,
            _ => false,
        };
        if is_count {
            if records.len() == 0 || (records.len() - 1) as u64 != addr as u64 {
                return Err(
                    SrecordError::InvalidLine(
                        (i as u32).wrapping_add(1),
                        LineFault::BadRecordCount,
                    ),
                );
            }
        }
        let ghost recs_pre = records@;
        records.push(rec);
        proof {
            assert(spec_parse_line(ls[i as int], i as nat) == Ok::<
                (SrecType, u32, Seq<u8>),
                LineFault,
            >((t, addr, data@)));
            assert(line_models(records@) =~= line_models(recs_pre).push((t, addr, data@)));
            match spec_parse_lines(ls, i as int + 1) {
                Ok(rest) => {
                    assert(line_models(records@) + rest =~= line_models(recs_pre) + (seq![
                        (t, addr, data@),
                    ] + rest));
                },
                Err(_) => {},
            }
        }
        i += 1;
    }
    proof {
        assert(line_models(records@) + Seq::<(SrecType, u32, Seq<u8>)>::empty() =~= line_models(
            records@,
        ));
    }
    Ok(Srecord(records))
}

/// The data records one code section becomes: full 252-byte chunks, then
/// whatever remains (possibly nothing), each at the address its bytes
/// load at.
pub open spec fn chunk_recs(org: u16, bytes: Seq<u8>) -> Seq<(u16, Seq<u8>)>
    decreases bytes.len(),
{
    if bytes.len() > 252 {
        seq![(org, bytes.take(252))] + chunk_recs(org.wrapping_add(252), bytes.skip(252))
    } else {
        seq![(org, bytes)]
    }
}

/// The data records of a whole image, section by section from `k`.
pub open spec fn all_chunks(code: Seq<CodeSection>, k: int) -> Seq<(u16, Seq<u8>)>
    decreases code.len() - k,
{
    if k < 0 || k >= code.len() {
        Seq::empty()
    } else {
        chunk_recs(code[k].org, code[k].code@) + all_chunks(code, k + 1)
    }
}

/// Encodes a compiled image as a container: a header record carrying
/// `header`, one 16-bit data record per 252-byte chunk of each section,
/// a count record when the data record count fits 16 bits, and a start
/// record at address 0.
#[verifier::rlimit(50)]
pub fn code_to_srecord(code: &[CodeSection], header: &[u8]) -> (r: Srecord)
    ensures
        ({
            let ch = all_chunks(code@, 0);
            let cnt = ch.len() as int;
            let withcount: int = if cnt < 0xFFFF {
                1
            } else {
                0
            };
            &&& r.0@.len() == 2 + cnt + withcount
            &&& r.0@[0].rec_type == SrecType::SrecHeader
            &&& r.0@[0].address == 0
            &&& r.0@[0].data@ == header@
            &&& forall|j: int|
                0 <= j < cnt ==> {
                    let rec = #[trigger] r.0@[1 + j];
                    &&& rec.rec_type == SrecType::SrecData16
                    &&& rec.address == ch[j].0 as u32
                    &&& rec.data@ == ch[j].1
                }
            &&& (cnt < 0xFFFF ==> r.0@[1 + cnt].rec_type == SrecType::SrecCount16 && r.0@[1
                + cnt].address == cnt && r.0@[1 + cnt].data@ == Seq::<u8>::empty())
            &&& r.0@.last().rec_type == SrecType::SrecStart16
            &&& r.0@.last().address == 0
            &&& r.0@.last().data@ == Seq::<u8>::empty()
        }),
{
    let mut records = Srecord(Vec::new());
    records.add_header(header);
    let mut line_count: usize = 0;
    let mut si: usize = 0;
    proof {
        assert(all_chunks(code@, 0).take(0) =~= Seq::<(u16, Seq<u8>)>::empty());
    }
    while si < code.len()
        invariant
            0 <= si <= code@.len(),
            records.0@.len() == 1 + line_count,
            line_count + all_chunks(code@, si as int).len() == all_chunks(code@, 0).len(),
            records.0@[0].rec_type == SrecType::SrecHeader,
            records.0@[0].address == 0,
            records.0@[0].data@ == header@,
            forall|j: int|
                0 <= j < line_count ==> {
                    let rec = #[trigger] records.0@[1 + j];
                    &&& rec.rec_type == SrecType::SrecData16
                    &&& rec.address == all_chunks(code@, 0)[j].0 as u32
                    &&& rec.data@ == all_chunks(code@, 0)[j].1
                },
            all_chunks(code@, 0) == all_chunks(code@, 0).take(line_count as int) + all_chunks(
                code@,
                si as int,
            ),
        decreases code@.len() - si,
    {
        let n0 = code[si].code.len();
        let mut total_len = n0;
        let mut pc = code[si].org;
        let mut start: usize = 0;
        let ghost sec_bytes = code@[si as int].code@;
        proof {
            assert(sec_bytes.skip(0) =~= sec_bytes);
        }
        while total_len > 252
            invariant
                0 <= si < code@.len(),
                sec_bytes == code@[si as int].code@,
                n0 == sec_bytes.len(),
                start + total_len == n0,
                records.0@.len() == 1 + line_count,
                records.0@[0].rec_type == SrecType::SrecHeader,
                records.0@[0].address == 0,
                records.0@[0].data@ == header@,
                forall|j: int|
                    0 <= j < line_count ==> {
                        let rec = #[trigger] records.0@[1 + j];
                        &&& rec.rec_type == SrecType::SrecData16
                        &&& rec.address == all_chunks(code@, 0)[j].0 as u32
                        &&& rec.data@ == all_chunks(code@, 0)[j].1
                    },
                line_count + chunk_recs(pc, sec_bytes.skip(start as int)).len() + all_chunks(
                    code@,
                    si as int + 1,
                ).len() == all_chunks(code@, 0).len(),
                all_chunks(code@, 0) == all_chunks(code@, 0).take(line_count as int) + chunk_recs(
                    pc,
                    sec_bytes.skip(start as int),
                ) + all_chunks(code@, si as int + 1),
            decreases total_len,
        {
            let chunk = crate::util::copy_bytes_prefix(
                crate::util::copy_bytes_from(code[si].code.as_slice(), start).as_slice(),
                252,
            );
            proof {
                assert(chunk@ =~= sec_bytes.skip(start as int).take(252));
            }
            let ghost lc_pre = line_count as int;
            let ghost recs_pre = records.0@;
            records.add_record16(SrecType::SrecData16, pc, chunk.as_slice());
            let rl = records.0.len();
            proof {
                assert(rl == 2 + lc_pre);
                let rem = sec_bytes.skip(start as int);
                assert(chunk_recs(pc, rem) == seq![(pc, rem.take(252))] + chunk_recs(
                    pc.wrapping_add(252),
                    rem.skip(252),
                ));
                assert(all_chunks(code@, 0)[lc_pre] == (pc, rem.take(252))) by {
                    assert(all_chunks(code@, 0) == all_chunks(code@, 0).take(lc_pre)
                        + chunk_recs(pc, rem) + all_chunks(code@, si as int + 1));
                }
                assert(rem.skip(252) =~= sec_bytes.skip(start as int + 252));
                assert(all_chunks(code@, 0).take(lc_pre + 1) =~= all_chunks(code@, 0).take(
                    lc_pre,
                ) + seq![(pc, rem.take(252))]);
                assert(all_chunks(code@, 0) =~= all_chunks(code@, 0).take(lc_pre + 1)
                    + chunk_recs(pc.wrapping_add(252), sec_bytes.skip(start as int + 252))
                    + all_chunks(code@, si as int + 1));
                assert forall|j: int| 0 <= j < lc_pre + 1 implies {
                    let rec = #[trigger] records.0@[1 + j];
                    &&& rec.rec_type == SrecType::SrecData16
                    &&& rec.address == all_chunks(code@, 0)[j].0 as u32
                    &&& rec.data@ == all_chunks(code@, 0)[j].1
                } by {
                    if j < lc_pre {
                        assert(records.0@.drop_last()[1 + j] == recs_pre[1 + j]);
                        assert(records.0@[1 + j] == records.0@.drop_last()[1 + j]);
                    } else {
                        assert(records.0@[1 + j] == records.0@.last());
                    }
                }
            }
            pc = pc.wrapping_add(252);
            start += 252;
            total_len -= 252;
            line_count += 1;
        }
        let tail = crate::util::copy_bytes_from(code[si].code.as_slice(), start);
        proof {
            assert(tail@ =~= sec_bytes.skip(start as int));
        }
        let ghost lc_pre = line_count as int;
        let ghost recs_pre = records.0@;
        records.add_record16(SrecType::SrecData16, pc, tail.as_slice());
        let rl = records.0.len();
        proof {
            assert(rl == 2 + lc_pre);
            let rem = sec_bytes.skip(start as int);
            assert(chunk_recs(pc, rem) == seq![(pc, rem)]);
            assert(all_chunks(code@, 0)[lc_pre] == (pc, rem)) by {
                assert(all_chunks(code@, 0) == all_chunks(code@, 0).take(lc_pre) + chunk_recs(
                    pc,
                    rem,
                ) + all_chunks(code@, si as int + 1));
            }
            assert(all_chunks(code@, 0).take(lc_pre + 1) =~= all_chunks(code@, 0).take(lc_pre)
                + seq![(pc, rem)]);
            assert(all_chunks(code@, 0) =~= all_chunks(code@, 0).take(lc_pre + 1) + all_chunks(
                code@,
                si as int + 1,
            ));
            assert forall|j: int| 0 <= j < lc_pre + 1 implies {
                let rec = #[trigger] records.0@[1 + j];
                &&& rec.rec_type == SrecType::SrecData16
                &&& rec.address == all_chunks(code@, 0)[j].0 as u32
                &&& rec.data@ == all_chunks(code@, 0)[j].1
            } by {
                if j < lc_pre {
                    assert(records.0@.drop_last()[1 + j] == recs_pre[1 + j]);
                    assert(records.0@[1 + j] == records.0@.drop_last()[1 + j]);
                } else {
                    assert(records.0@[1 + j] == records.0@.last());
                }
            }
        }
        line_count += 1;
        si += 1;
    }
    proof {
        assert(all_chunks(code@, si as int) =~= Seq::<(u16, Seq<u8>)>::empty());
        assert(all_chunks(code@, 0).take(line_count as int) =~= all_chunks(code@, 0));
    }
    let none: [u8; 0] = [];
    if line_count < 0xFFFF {
        let ghost pre1 = records.0@;
        records.add_record16(SrecType::SrecCount16, line_count as u16, none.as_slice());
        proof {
            assert(records.0@.last().data@ =~= Seq::<u8>::empty());
            assert forall|j: int| 0 <= j < pre1.len() implies #[trigger] records.0@[j]
                == pre1[j] by {
                assert(records.0@.drop_last()[j] == pre1[j]);
            }
        }
    }
    let ghost pre2 = records.0@;
    records.add_record16(SrecType::SrecStart16, 0, none.as_slice());
    proof {
        assert(records.0@.last().data@ =~= Seq::<u8>::empty());
        assert forall|j: int| 0 <= j < pre2.len() implies #[trigger] records.0@[j] == pre2[j] by {
            assert(records.0@.drop_last()[j] == pre2[j]);
        }
    }
    records
}

/// Reads a container back as a compiled image: every record, whatever
/// its type, becomes a code section at the low 16 bits of its address.
pub fn srecord_to_code(records: &Srecord) -> (r: Code)
    ensures
        r@.len() == records.0@.len(),
        forall|j: int|
            0 <= j < r@.len() ==> {
                let cs = #[trigger] r@[j];
                &&& cs.org == (records.0@[j].address % 0x10000) as u16
                &&& cs.code@ == records.0@[j].data@
            },
{
    let mut code: Vec<CodeSection> = Vec::new();
    let mut i: usize = 0;
    while i < records.0.len()
        invariant
            0 <= i <= records.0@.len(),
            code@.len() == i,
            forall|j: int|
                0 <= j < i ==> {
                    let cs = #[trigger] code@[j];
                    &&& cs.org == (records.0@[j].address % 0x10000) as u16
                    &&& cs.code@ == records.0@[j].data@
                },
        decreases records.0@.len() - i,
    {
        let org = (records.0[i].address % 0x10000) as u16;
        let data = copy_bytes(records.0[i].data.as_slice());
        code.push(CodeSection { org, code: data });
        i += 1;
    }
    code
}

} // verus!
