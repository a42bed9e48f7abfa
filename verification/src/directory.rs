use vstd::prelude::*;
use crate::raw::{low32, low8, low8_of, low32_of, push_zeros, round_up_even, zeros, copy_range};
use crate::types::{
    be_u16, be_u32, le_u16, le_u32, u16_be, u16_le, u32_be, u32_le, IsoStringFile, U16LsbMsb,
    U32LsbMsb,
};

verus! {

/// The number of bytes of a directory record before its identifier.
pub const RECORD_HEADER_SIZE: usize = 33;

/// The bytes of a 32-bit number in both byte orders, little-endian first.
pub open spec fn both_u32(v: u32) -> Seq<u8> {
    u32_le(v) + u32_be(v)
}

/// The bytes of a 16-bit number in both byte orders, little-endian first.
pub open spec fn both_u16(v: u16) -> Seq<u8> {
    u16_le(v) + u16_be(v)
}

/// The length byte of the record of an identifier of `id_len` bytes: the header and
/// the identifier, rounded up to an even number, as far as one byte holds it.
pub open spec fn record_len_byte(id_len: int) -> u8 {
    low8(round_up_even(33 + id_len))
}

/// The number of zero bytes that follow the identifier of a record: what its length
/// byte says beyond header and identifier.
pub open spec fn record_pad(id_len: int) -> int {
    if 33 + id_len < record_len_byte(id_len) {
        record_len_byte(id_len) - (33 + id_len)
    } else {
        0
    }
}

/// The number of bytes that the record of an identifier of `id_len` bytes takes in a
/// directory.
pub open spec fn record_span(id_len: int) -> int {
    33 + id_len + record_pad(id_len)
}

/// The 33 header bytes of the record of an extent at block `lba` with `size` bytes,
/// under an identifier of `id_len` bytes.
pub open spec fn record_header_bytes(id_len: int, flags: u8, lba: u32, size: u32) -> Seq<u8> {
    seq![record_len_byte(id_len), 0u8] + both_u32(lba) + both_u32(size) + zeros(7) + seq![
        flags,
        0u8,
        0u8,
    ] + both_u16(1) + seq![low8(id_len)]
}

/// The bytes of a directory record: header, identifier and padding.
pub open spec fn record_bytes(name: Seq<u8>, flags: u8, lba: u32, size: u32) -> Seq<u8> {
    record_header_bytes(name.len() as int, flags, lba, size) + name + zeros(
        record_pad(name.len() as int) as nat,
    )
}

/// A record takes as many bytes as header, identifier and padding have.
pub proof fn record_bytes_len(name: Seq<u8>, flags: u8, lba: u32, size: u32)
    ensures
        record_bytes(name, flags, lba, size).len() == record_span(name.len() as int),
        record_header_bytes(name.len() as int, flags, lba, size).len() == 33,
        record_span(name.len() as int) >= 33,
{
    crate::types::u32_round_trip(lba);
    crate::types::u32_round_trip(size);
    crate::types::u16_round_trip(1);
}

/// What stands where in the header of a record: the length byte, the block and the
/// size in both byte orders, the flags, the volume number one in both byte orders,
/// and the length of the identifier.
#[verifier::spinoff_prover]
pub proof fn record_header_fields(id_len: int, flags: u8, lba: u32, size: u32)
    ensures
        ({
            let h = record_header_bytes(id_len, flags, lba, size);
            &&& h.len() == 33
            &&& h[0] == record_len_byte(id_len)
            &&& h[25] == flags
            &&& h[32] == low8(id_len)
            &&& h.subrange(2, 6) == u32_le(lba)
            &&& h.subrange(6, 10) == u32_be(lba)
            &&& h.subrange(10, 14) == u32_le(size)
            &&& h.subrange(14, 18) == u32_be(size)
            &&& h.subrange(28, 30) == u16_le(1)
            &&& h.subrange(30, 32) == u16_be(1)
        }),
{
    crate::types::u32_round_trip(lba);
    crate::types::u32_round_trip(size);
    crate::types::u16_round_trip(1);
    let a = seq![record_len_byte(id_len), 0u8];
    let b = a + both_u32(lba);
    let c = b + both_u32(size);
    let d = c + zeros(7);
    let e = d + seq![flags, 0u8, 0u8];
    let f = e + both_u16(1);
    let h = f + seq![low8(id_len)];
    assert(h == record_header_bytes(id_len, flags, lba, size));
    crate::raw::parts_of_sum(a, both_u32(lba));
    crate::raw::parts_of_sum(u32_le(lba), u32_be(lba));
    crate::raw::part_of_part(b, 2, 8, 0, 4);
    crate::raw::part_of_part(b, 2, 8, 4, 8);
    assert(b.subrange(2, 6) == u32_le(lba));
    assert(b.subrange(6, 10) == u32_be(lba));
    crate::raw::parts_of_sum(b, both_u32(size));
    crate::raw::parts_of_sum(u32_le(size), u32_be(size));
    crate::raw::part_of_part(c, 10, 8, 0, 4);
    crate::raw::part_of_part(c, 10, 8, 4, 8);
    assert(c.subrange(10, 14) == u32_le(size));
    assert(c.subrange(14, 18) == u32_be(size));
    crate::raw::part_of_head(b, both_u32(size), 2, 6);
    crate::raw::part_of_head(b, both_u32(size), 6, 10);
    assert(c.subrange(2, 6) == u32_le(lba));
    assert(c.subrange(6, 10) == u32_be(lba));
    crate::raw::part_of_head(c, zeros(7), 2, 6);
    crate::raw::part_of_head(c, zeros(7), 6, 10);
    crate::raw::part_of_head(c, zeros(7), 10, 14);
    crate::raw::part_of_head(c, zeros(7), 14, 18);
    crate::raw::part_of_head(d, seq![flags, 0u8, 0u8], 2, 6);
    crate::raw::part_of_head(d, seq![flags, 0u8, 0u8], 6, 10);
    crate::raw::part_of_head(d, seq![flags, 0u8, 0u8], 10, 14);
    crate::raw::part_of_head(d, seq![flags, 0u8, 0u8], 14, 18);
    assert(e.len() == 28);
    assert(e[25] == flags);
    crate::raw::parts_of_sum(e, both_u16(1));
    crate::raw::parts_of_sum(u16_le(1), u16_be(1));
    crate::raw::part_of_part(f, 28, 4, 0, 2);
    crate::raw::part_of_part(f, 28, 4, 2, 4);
    crate::raw::part_of_head(e, both_u16(1), 2, 6);
    crate::raw::part_of_head(e, both_u16(1), 6, 10);
    crate::raw::part_of_head(e, both_u16(1), 10, 14);
    crate::raw::part_of_head(e, both_u16(1), 14, 18);
    assert(f[25] == e[25]);
    crate::raw::part_of_head(f, seq![low8(id_len)], 2, 6);
    crate::raw::part_of_head(f, seq![low8(id_len)], 6, 10);
    crate::raw::part_of_head(f, seq![low8(id_len)], 10, 14);
    crate::raw::part_of_head(f, seq![low8(id_len)], 14, 18);
    crate::raw::part_of_head(f, seq![low8(id_len)], 28, 30);
    crate::raw::part_of_head(f, seq![low8(id_len)], 30, 32);
    assert(h[25] == f[25]);
    assert(h[0] == a[0]);
    assert(h[32] == low8(id_len));
}

/// For an identifier of at most 221 bytes the length byte is exact: it is even and
/// covers header, identifier and one zero byte where their sum is odd.
pub proof fn record_length_is_even(id_len: int)
    requires
        0 <= id_len <= 221,
    ensures
        record_len_byte(id_len) == round_up_even(33 + id_len),
        record_len_byte(id_len) % 2 == 0,
        record_span(id_len) == round_up_even(33 + id_len),
        record_pad(id_len) == (33 + id_len) % 2,
{
}

/// The number of zero bytes that follow an identifier of `id_len` bytes in a record.
pub fn record_pad_of(id_len: usize) -> (pad: usize)
    ensures
        pad == record_pad(id_len as int),
        pad <= 1,
{
    if id_len <= 221 {
        (33 + id_len) % 2
    } else {
        let sum: usize = (33 + id_len % 0x100) % 0x100;
        let rounded: usize = (sum + sum % 2) % 0x100;
        assert(rounded == record_len_byte(id_len as int));
        0
    }
}

/// The date and time of a directory record.
#[derive(Debug, Clone, Copy)]
pub struct DirDateTime {
    /// Number of years since 1900
    year: u8,
    month: u8,
    day: u8,
    hour: u8,
    minute: u8,
    second: u8,
    offset: u8,
}

impl DirDateTime {
    /// The seven bytes of the field.
    pub closed spec fn encoding(&self) -> Seq<u8> {
        seq![self.year, self.month, self.day, self.hour, self.minute, self.second, self.offset]
    }

    /// The field always holds seven bytes.
    pub proof fn encoding_len(&self)
        ensures
            self.encoding().len() == 7,
    {
    }

    /// Appends the bytes of the field to `out`.
    pub fn store(&self, out: &mut Vec<u8>)
        ensures
            final(out)@ == old(out)@ + self.encoding(),
    {
        out.push(self.year);
        out.push(self.month);
        out.push(self.day);
        out.push(self.hour);
        out.push(self.minute);
        out.push(self.second);
        out.push(self.offset);
        assert(out@ =~= old(out)@ + self.encoding());
    }

    /// The field that holds the seven bytes of `bytes` from `at` on.
    pub fn load(bytes: &[u8], at: usize) -> (date: Self)
        requires
            at + 7 <= bytes@.len(),
        ensures
            date.encoding() == bytes@.subrange(at as int, at + 7),
    {
        let date = DirDateTime {
            year: bytes[at],
            month: bytes[at + 1],
            day: bytes[at + 2],
            hour: bytes[at + 3],
            minute: bytes[at + 4],
            second: bytes[at + 5],
            offset: bytes[at + 6],
        };
        assert(date.encoding() =~= bytes@.subrange(at as int, at + 7));
        date
    }
}

impl Default for DirDateTime {
    fn default() -> (date: Self)
        ensures
            date.encoding() == zeros(7),
    {
        let date = Self { year: 0, month: 0, day: 0, hour: 0, minute: 0, second: 0, offset: 0 };
        assert(date.encoding() =~= zeros(7));
        date
    }
}

/// Where an extent lies: its first block, and its number of bytes.
#[derive(Debug, Clone, Copy, PartialEq, Eq, Structural)]
pub struct DirectoryRef {
    pub offset: u64,
    pub size: u64,
}

impl Default for DirectoryRef {
    fn default() -> (place: Self)
        ensures
            place == (DirectoryRef { offset: 0, size: 0 }),
    {
        DirectoryRef { offset: 0, size: 0 }
    }
}

/// The flag bits of a directory record.
#[derive(Debug, Clone, Copy, PartialEq, Eq, Structural)]
pub struct FileFlags {
    bits: u8,
}

impl FileFlags {
    /// The flag byte.
    pub closed spec fn spec_bits(self) -> u8 {
        self.bits
    }

    /// No flag.
    pub fn empty() -> (flags: Self)
        ensures
            flags.spec_bits() == 0,
    {
        FileFlags { bits: 0 }
    }

    /// The entry is hidden.
    pub fn hidden() -> (flags: Self)
        ensures
            flags.spec_bits() == 0x01,
    {
        FileFlags { bits: 0x01 }
    }

    /// The entry is a directory.
    pub fn directory() -> (flags: Self)
        ensures
            flags.spec_bits() == 0x02,
    {
        FileFlags { bits: 0x02 }
    }

    /// The entry is an associated file.
    pub fn associated_file() -> (flags: Self)
        ensures
            flags.spec_bits() == 0x04,
    {
        FileFlags { bits: 0x04 }
    }

    /// The extended attribute record tells the format of the file.
    pub fn extended_attributes() -> (flags: Self)
        ensures
            flags.spec_bits() == 0x08,
    {
        FileFlags { bits: 0x08 }
    }

    /// The extended attribute record holds owner and permissions.
    pub fn extended_permissions() -> (flags: Self)
        ensures
            flags.spec_bits() == 0x10,
    {
        FileFlags { bits: 0x10 }
    }

    /// The record is not the last one of its file.
    pub fn not_final() -> (flags: Self)
        ensures
            flags.spec_bits() == 0x80,
    {
        FileFlags { bits: 0x80 }
    }

    /// The flags that the byte `bits` holds, known or not.
    pub fn from_bits_retain(bits: u8) -> (flags: Self)
        ensures
            flags.spec_bits() == bits,
    {
        FileFlags { bits }
    }

    /// The flag byte.
    pub fn bits(&self) -> (bits: u8)
        ensures
            bits == self.spec_bits(),
    {
        self.bits
    }

    /// Whether every flag of `other` is set.
    pub fn contains(&self, other: FileFlags) -> (all: bool)
        ensures
            all == (self.spec_bits() & other.spec_bits() == other.spec_bits()),
    {
        self.bits & other.bits == other.bits
    }
}

/// Whether the flag byte `flags` marks a directory.
pub open spec fn marks_directory(flags: u8) -> bool {
    flags & 0x02 == 0x02
}

/// The header of a directory record: all of it but the identifier.
#[derive(Clone, Copy)]
pub struct DirectoryRecordHeader {
    pub len: u8,
    pub extended_attr_record: u8,
    /// The first block of the extent
    pub extent: U32LsbMsb,
    /// The length of the data in bytes
    pub data_len: U32LsbMsb,
    pub date_time: DirDateTime,
    pub flags: u8,
    pub file_unit_size: u8,
    pub interleave_gap_size: u8,
    pub volume_sequence_number: U16LsbMsb,
    pub file_identifier_len: u8,
}

impl Default for DirectoryRecordHeader {
    fn default() -> (header: Self)
        ensures
            header.encoding() == zeros(33),
            header.consistent(),
    {
        let header = Self {
            len: 0,
            extended_attr_record: 0,
            extent: U32LsbMsb::new(0),
            data_len: U32LsbMsb::new(0),
            date_time: DirDateTime::default(),
            flags: 0,
            file_unit_size: 0,
            interleave_gap_size: 0,
            volume_sequence_number: U16LsbMsb::new(0),
            file_identifier_len: 0,
        };
        proof {
            crate::types::u32_pair_layout(0);
            crate::types::u16_pair_layout(0);
            assert(u32_le(0) =~= zeros(4));
            assert(u32_be(0) =~= zeros(4));
            assert(u16_le(0) =~= zeros(2));
            assert(u16_be(0) =~= zeros(2));
            assert(header.extent.layout() =~= zeros(8));
            assert(header.data_len.layout() =~= zeros(8));
            assert(header.volume_sequence_number.layout() =~= zeros(4));
            assert(header.encoding() =~= zeros(33));
        }
        header
    }
}

impl DirectoryRecordHeader {
    /// The 33 bytes of the header.
    pub open spec fn encoding(&self) -> Seq<u8> {
        seq![self.len, self.extended_attr_record] + self.extent.layout() + self.data_len.layout()
            + self.date_time.encoding() + seq![
            self.flags,
            self.file_unit_size,
            self.interleave_gap_size,
        ] + self.volume_sequence_number.layout() + seq![self.file_identifier_len]
    }

    /// Whether each number of the header is the same in both byte orders.
    pub open spec fn consistent(&self) -> bool {
        &&& self.extent.consistent()
        &&& self.data_len.consistent()
        &&& self.volume_sequence_number.consistent()
    }

    /// The header always holds 33 bytes.
    pub proof fn encoding_len(&self)
        ensures
            self.encoding().len() == 33,
    {
        self.extent.layout_laws();
        self.data_len.layout_laws();
        self.volume_sequence_number.layout_laws();
        self.date_time.encoding_len();
    }

    /// Where the fields of the header stand in its 33 bytes.
    pub proof fn fields(&self)
        ensures
            self.encoding().len() == 33,
            self.len == self.encoding()[0],
            self.flags == self.encoding()[25],
            self.file_identifier_len == self.encoding()[32],
            self.extent.lsb_value() == le_u32(self.encoding().subrange(2, 6)),
            self.extent.msb_value() == be_u32(self.encoding().subrange(6, 10)),
            self.data_len.lsb_value() == le_u32(self.encoding().subrange(10, 14)),
            self.data_len.msb_value() == be_u32(self.encoding().subrange(14, 18)),
            self.volume_sequence_number.lsb_value() == le_u16(self.encoding().subrange(28, 30)),
            self.volume_sequence_number.msb_value() == be_u16(self.encoding().subrange(30, 32)),
    {
        self.encoding_len();
        self.date_time.encoding_len();
        crate::types::u32_pair_values(&self.extent);
        crate::types::u32_pair_values(&self.data_len);
        crate::types::u16_pair_values(&self.volume_sequence_number);
        let e = self.encoding();
        assert(e.subrange(2, 10) =~= self.extent.layout());
        assert(e.subrange(10, 18) =~= self.data_len.layout());
        assert(e.subrange(28, 32) =~= self.volume_sequence_number.layout());
        assert(e.subrange(2, 6) =~= e.subrange(2, 10).subrange(0, 4));
        assert(e.subrange(6, 10) =~= e.subrange(2, 10).subrange(4, 8));
        assert(e.subrange(10, 14) =~= e.subrange(10, 18).subrange(0, 4));
        assert(e.subrange(14, 18) =~= e.subrange(10, 18).subrange(4, 8));
        assert(e.subrange(28, 30) =~= e.subrange(28, 32).subrange(0, 2));
        assert(e.subrange(30, 32) =~= e.subrange(28, 32).subrange(2, 4));
    }

    /// Whether each number of the header that stands in `bytes` at `at` is the same
    /// in both byte orders.
    pub open spec fn consistent_at(bytes: Seq<u8>, at: int) -> bool {
        &&& le_u32(bytes.subrange(at + 2, at + 6)) == be_u32(bytes.subrange(at + 6, at + 10))
        &&& le_u32(bytes.subrange(at + 10, at + 14)) == be_u32(bytes.subrange(at + 14, at + 18))
        &&& le_u16(bytes.subrange(at + 28, at + 30)) == be_u16(bytes.subrange(at + 30, at + 32))
    }

    /// What a header that was read from `bytes` at `at` holds, by the bytes there.
    pub proof fn fields_at(&self, bytes: Seq<u8>, at: int)
        requires
            0 <= at,
            at + 33 <= bytes.len(),
            self.encoding() == bytes.subrange(at, at + 33),
        ensures
            self.len == bytes[at],
            self.flags == bytes[at + 25],
            self.file_identifier_len == bytes[at + 32],
            self.extent.lsb_value() == le_u32(bytes.subrange(at + 2, at + 6)),
            self.data_len.lsb_value() == le_u32(bytes.subrange(at + 10, at + 14)),
            self.consistent() == Self::consistent_at(bytes, at),
    {
        self.fields();
        let e = self.encoding();
        assert(e.subrange(2, 6) =~= bytes.subrange(at + 2, at + 6));
        assert(e.subrange(6, 10) =~= bytes.subrange(at + 6, at + 10));
        assert(e.subrange(10, 14) =~= bytes.subrange(at + 10, at + 14));
        assert(e.subrange(14, 18) =~= bytes.subrange(at + 14, at + 18));
        assert(e.subrange(28, 30) =~= bytes.subrange(at + 28, at + 30));
        assert(e.subrange(30, 32) =~= bytes.subrange(at + 30, at + 32));
    }

    /// Whether each number of the header is the same in both byte orders.
    pub fn is_consistent(&self) -> (same: bool)
        ensures
            same == self.consistent(),
    {
        self.extent.read_lsb() == self.extent.read_msb() && self.data_len.read_lsb()
            == self.data_len.read_msb() && self.volume_sequence_number.read_lsb()
            == self.volume_sequence_number.read_msb()
    }

    /// The header that the 33 bytes of `bytes` hold.
    pub fn from_bytes(bytes: &[u8]) -> (header: Self)
        requires
            bytes@.len() == 33,
        ensures
            header.encoding() == bytes@,
    {
        Self::load(bytes, 0)
    }

    /// The header that the 33 bytes of `bytes` from `at` on hold.
    pub fn load(bytes: &[u8], at: usize) -> (header: Self)
        requires
            at + 33 <= bytes@.len(),
        ensures
            header.encoding() == bytes@.subrange(at as int, at + 33),
    {
        let header = Self {
            len: bytes[at],
            extended_attr_record: bytes[at + 1],
            extent: U32LsbMsb::load(bytes, at + 2),
            data_len: U32LsbMsb::load(bytes, at + 10),
            date_time: DirDateTime::load(bytes, at + 18),
            flags: bytes[at + 25],
            file_unit_size: bytes[at + 26],
            interleave_gap_size: bytes[at + 27],
            volume_sequence_number: U16LsbMsb::load(bytes, at + 28),
            file_identifier_len: bytes[at + 32],
        };
        proof {
            header.encoding_len();
            header.extent.layout_laws();
            header.data_len.layout_laws();
            header.volume_sequence_number.layout_laws();
            header.date_time.encoding_len();
            assert(header.encoding() =~= bytes@.subrange(at as int, at + 33));
        }
        header
    }

    /// Appends the 33 bytes of the header to `out`.
    pub fn store(&self, out: &mut Vec<u8>)
        ensures
            final(out)@ == old(out)@ + self.encoding(),
    {
        out.push(self.len);
        out.push(self.extended_attr_record);
        self.extent.store(out);
        self.data_len.store(out);
        self.date_time.store(out);
        out.push(self.flags);
        out.push(self.file_unit_size);
        out.push(self.interleave_gap_size);
        self.volume_sequence_number.store(out);
        out.push(self.file_identifier_len);
        assert(out@ =~= old(out)@ + self.encoding());
    }

    /// The 33 bytes of the header.
    pub fn to_bytes(&self) -> (bytes: Vec<u8>)
        ensures
            bytes@ == self.encoding(),
    {
        let mut bytes: Vec<u8> = Vec::new();
        self.store(&mut bytes);
        bytes
    }

    /// Whether the record describes a directory.
    pub fn is_directory(&self) -> (dir: bool)
        ensures
            dir == marks_directory(self.flags),
    {
        FileFlags::from_bits_retain(self.flags).contains(FileFlags::directory())
    }
}

/// A directory record: header and identifier.
pub struct DirectoryRecord {
    pub header: DirectoryRecordHeader,
    pub name: IsoStringFile,
}

impl Clone for DirectoryRecord {
    fn clone(&self) -> (copy: Self)
        ensures
            copy.header == self.header,
            copy.name@ == self.name@,
    {
        DirectoryRecord { header: self.header, name: self.name.clone() }
    }
}

impl DirectoryRecord {
    /// The bytes of header and identifier, without padding.
    pub open spec fn encoding(&self) -> Seq<u8> {
        self.header.encoding() + self.name@
    }

    /// The bytes that the record takes in a directory: header, identifier, and as many
    /// zero bytes as the length byte asks for beyond them.
    pub open spec fn padded_encoding(&self) -> Seq<u8> {
        self.encoding() + zeros(self.pad() as nat)
    }

    /// The number of zero bytes that follow the identifier in a directory.
    pub open spec fn pad(&self) -> int {
        if 33 + self.name@.len() < self.header.len {
            self.header.len - (33 + self.name@.len())
        } else {
            0
        }
    }

    /// The number of bytes of the header and of the identifier up to its first space.
    pub fn size(&self) -> (n: usize)
        requires
            33 + self.name@.len() <= usize::MAX,
        ensures
            n == 33 + crate::types::first_space(self.name@, 0),
    {
        let used = self.name.len();
        let total = self.name.bytes().len();
        33 + used
    }

    /// The bytes of header and identifier, without padding.
    pub fn to_bytes(&self) -> (bytes: Vec<u8>)
        ensures
            bytes@ == self.encoding(),
    {
        let mut bytes: Vec<u8> = Vec::new();
        self.header.store(&mut bytes);
        bytes.extend_from_slice(self.name.bytes());
        bytes
    }

    /// The record of the extent `dir_ref` under the identifier `name`. Block and size
    /// are cut to 32 bits, the two length bytes to eight.
    pub fn new(name: &[u8], dir_ref: DirectoryRef, flags: FileFlags) -> (record: Self)
        ensures
            record.padded_encoding() == record_bytes(
                name@,
                flags.spec_bits(),
                low32(dir_ref.offset as int),
                low32(dir_ref.size as int),
            ),
            record.name@ == name@,
            record.header.consistent(),
            record.header.len == record_len_byte(name@.len() as int),
            record.header.flags == flags.spec_bits(),
            record.header.file_identifier_len == low8(name@.len() as int),
            record.header.extent.lsb_value() == low32(dir_ref.offset as int),
            record.header.data_len.lsb_value() == low32(dir_ref.size as int),
    {
        let n = name.len();
        let sum: usize = (33 + n % 0x100) % 0x100;
        let rounded: usize = (sum + sum % 2) % 0x100;
        assert(rounded == record_len_byte(n as int));
        let record = Self {
            header: DirectoryRecordHeader {
                len: rounded as u8,
                extended_attr_record: 0,
                extent: U32LsbMsb::new(low32_of(dir_ref.offset)),
                data_len: U32LsbMsb::new(low32_of(dir_ref.size)),
                date_time: DirDateTime::default(),
                flags: flags.bits(),
                file_unit_size: 0,
                interleave_gap_size: 0,
                volume_sequence_number: U16LsbMsb::new(1),
                file_identifier_len: low8_of(n),
            },
            name: IsoStringFile::from_bytes(name),
        };
        proof {
            assert(record.header.encoding() =~= record_header_bytes(
                name@.len() as int,
                flags.spec_bits(),
                low32(dir_ref.offset as int),
                low32(dir_ref.size as int),
            ));
        }
        record
    }

    /// The record of the directory at `dir_ref` under the identifier `name`.
    pub fn directory(name: &[u8], dir_ref: DirectoryRef) -> (record: Self)
        ensures
            record.padded_encoding() == record_bytes(
                name@,
                0x02,
                low32(dir_ref.offset as int),
                low32(dir_ref.size as int),
            ),
            record.name@ == name@,
    {
        Self::new(name, dir_ref, FileFlags::directory())
    }

    /// The record of the file at `dir_ref` under the identifier `name`.
    pub fn file(name: &[u8], dir_ref: DirectoryRef) -> (record: Self)
        ensures
            record.padded_encoding() == record_bytes(
                name@,
                0,
                low32(dir_ref.offset as int),
                low32(dir_ref.size as int),
            ),
            record.name@ == name@,
    {
        Self::new(name, dir_ref, FileFlags::empty())
    }

    /// Appends the record as it stands in a directory to `out`: header, identifier and
    /// padding. Returns the number of bytes of header and identifier.
    pub fn write(&self, out: &mut Vec<u8>) -> (written: usize)
        requires
            33 + self.name@.len() <= usize::MAX,
        ensures
            final(out)@ == old(out)@ + self.padded_encoding(),
            written == 33 + self.name@.len(),
    {
        self.header.store(out);
        out.extend_from_slice(self.name.bytes());
        let written: usize = 33 + self.name.bytes().len();
        let len = self.header.len as usize;
        if written < len {
            push_zeros(out, len - written);
        }
        assert(out@ =~= old(out)@ + self.padded_encoding());
        written
    }

    /// The record that stands in `bytes` at `at`, with an identifier of as many bytes
    /// as its header says.
    pub fn load(bytes: &[u8], at: usize) -> (record: Self)
        requires
            at + 33 <= bytes@.len(),
            at + 33 + bytes@[at + 32] <= bytes@.len(),
        ensures
            record.encoding() == bytes@.subrange(at as int, at + 33 + bytes@[at + 32]),
            record.header.encoding() == bytes@.subrange(at as int, at + 33),
            record.name@ == bytes@.subrange(at + 33, at + 33 + bytes@[at + 32]),
    {
        let total = bytes.len();
        let header = DirectoryRecordHeader::load(bytes, at);
        proof {
            header.encoding_len();
            assert(header.encoding()[32] == header.file_identifier_len);
            assert(bytes@.subrange(at as int, at + 33)[32] == bytes@[at + 32]);
        }
        let id_len = header.file_identifier_len as usize;
        let name = copy_range(bytes, at + 33, at + 33 + id_len);
        let record = Self { header, name: IsoStringFile::from_bytes(name.as_slice()) };
        assert(record.encoding() =~= bytes@.subrange(at as int, at + 33 + bytes@[at + 32]));
        record
    }
}

/// The record of the root directory as the primary volume descriptor holds it.
#[derive(Clone, Copy)]
pub struct RootDirectoryEntry {
    pub header: DirectoryRecordHeader,
    /// The root directory has the one-byte identifier zero.
    pub padding: u8,
}

impl Default for RootDirectoryEntry {
    fn default() -> (entry: Self)
        ensures
            entry.encoding() == zeros(34),
            entry.header.consistent(),
    {
        let entry = RootDirectoryEntry { header: DirectoryRecordHeader::default(), padding: 0 };
        assert(entry.encoding() =~= zeros(34));
        entry
    }
}

impl RootDirectoryEntry {
    /// The 34 bytes of the record.
    pub open spec fn encoding(&self) -> Seq<u8> {
        self.header.encoding() + seq![self.padding]
    }

    /// The record always holds 34 bytes.
    pub proof fn encoding_len(&self)
        ensures
            self.encoding().len() == 34,
    {
        self.header.encoding_len();
    }

    /// The record of a root directory at `dir_ref`: that of a directory under the
    /// one-byte identifier zero.
    pub fn new(dir_ref: DirectoryRef) -> (entry: Self)
        ensures
            entry.encoding() == record_bytes(
                seq![0u8],
                0x02,
                low32(dir_ref.offset as int),
                low32(dir_ref.size as int),
            ),
            entry.header.consistent(),
            entry.header.extent.lsb_value() == low32(dir_ref.offset as int),
            entry.header.data_len.lsb_value() == low32(dir_ref.size as int),
    {
        let name: [u8; 1] = [0];
        let record = DirectoryRecord::new(name.as_slice(), dir_ref, FileFlags::directory());
        let entry = RootDirectoryEntry { header: record.header, padding: 0 };
        proof {
            assert(record.pad() == 0);
            assert(record.name@ =~= seq![0u8]);
            assert(entry.encoding() =~= record.padded_encoding());
        }
        entry
    }

    /// Appends the 34 bytes of the record to `out`.
    pub fn store(&self, out: &mut Vec<u8>)
        ensures
            final(out)@ == old(out)@ + self.encoding(),
    {
        self.header.store(out);
        out.push(self.padding);
        assert(out@ =~= old(out)@ + self.encoding());
    }

    /// The record that the 34 bytes of `bytes` from `at` on hold.
    pub fn load(bytes: &[u8], at: usize) -> (entry: Self)
        requires
            at + 34 <= bytes@.len(),
        ensures
            entry.encoding() == bytes@.subrange(at as int, at + 34),
    {
        let total = bytes.len();
        let entry = RootDirectoryEntry {
            header: DirectoryRecordHeader::load(bytes, at),
            padding: bytes[at + 33],
        };
        proof {
            entry.header.encoding_len();
            assert(entry.encoding() =~= bytes@.subrange(at as int, at + 34));
        }
        entry
    }
}

} // verus!
