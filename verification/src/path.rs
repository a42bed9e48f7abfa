use vstd::prelude::*;
use crate::error::IsoError;
use crate::raw::{copy_range, load_array, low8, low8_of, round_up_even};
use crate::types::EndianType;

verus! {

/// The number of bytes of a path table entry before its name.
pub const PATH_ENTRY_HEADER_SIZE: usize = 8;

/// The bytes of the path table entry of a directory named `name` whose extent starts
/// at block `lba` and whose parent has the number `parent`, with the numbers in the
/// byte order `endian`: eight header bytes, the name, and one zero byte where the name
/// has an odd number of bytes.
pub open spec fn path_entry_bytes(name: Seq<u8>, lba: u32, parent: u16, endian: EndianType) -> Seq<
    u8,
> {
    seq![low8(name.len() as int), 0u8] + endian.spec_u32_bytes(lba) + endian.spec_u16_bytes(parent)
        + name + path_entry_pad(name.len() as int)
}

/// The padding after a name of `n` bytes: one zero byte where `n` is odd.
pub open spec fn path_entry_pad(n: int) -> Seq<u8> {
    if n % 2 == 1 {
        seq![0u8]
    } else {
        Seq::empty()
    }
}

/// The number of bytes of the path table entry of a name of `n` bytes.
pub open spec fn path_entry_span(n: int) -> int {
    round_up_even(8 + n)
}

/// An entry has the same number of bytes in either byte order, and that number is
/// even.
pub proof fn path_entry_len(name: Seq<u8>, lba: u32, parent: u16, endian: EndianType)
    ensures
        path_entry_bytes(name, lba, parent, endian).len() == path_entry_span(name.len() as int),
        path_entry_span(name.len() as int) % 2 == 0,
{
    endian.round_trip(parent, lba, 0);
}

/// The first eight bytes of a path table entry.
#[derive(Debug, Clone, Copy)]
pub struct PathTableEntryHeader {
    pub len: u8,
    pub extended_attr_record: u8,
    pub parent_lba: [u8; 4],
    pub parent_directory_number: [u8; 2],
}

impl PathTableEntryHeader {
    /// The eight bytes of the header.
    pub open spec fn encoding(&self) -> Seq<u8> {
        seq![self.len, self.extended_attr_record] + self.parent_lba@
            + self.parent_directory_number@
    }

    /// The header that the eight bytes of `bytes` hold.
    pub fn from_bytes(bytes: &[u8]) -> (header: Self)
        requires
            bytes@.len() == 8,
        ensures
            header.encoding() == bytes@,
    {
        Self::load(bytes, 0)
    }

    /// The header that the eight bytes of `bytes` from `at` on hold.
    pub fn load(bytes: &[u8], at: usize) -> (header: Self)
        requires
            at + 8 <= bytes@.len(),
        ensures
            header.encoding() == bytes@.subrange(at as int, at + 8),
    {
        let total = bytes.len();
        let header = PathTableEntryHeader {
            len: bytes[at],
            extended_attr_record: bytes[at + 1],
            parent_lba: load_array::<4>(bytes, at + 2),
            parent_directory_number: load_array::<2>(bytes, at + 6),
        };
        assert(header.encoding() =~= bytes@.subrange(at as int, at + 8));
        header
    }
}

/// An entry of a path table, with its numbers read.
#[derive(Debug)]
pub struct PathTableEntry {
    pub length: u8,
    pub extended_attr_record: u8,
    pub parent_lba: u32,
    pub parent_index: u16,
    pub name: Vec<u8>,
}

impl Clone for PathTableEntry {
    fn clone(&self) -> (copy: Self)
        ensures
            copy.length == self.length,
            copy.extended_attr_record == self.extended_attr_record,
            copy.parent_lba == self.parent_lba,
            copy.parent_index == self.parent_index,
            copy.name@ == self.name@,
    {
        PathTableEntry {
            length: self.length,
            extended_attr_record: self.extended_attr_record,
            parent_lba: self.parent_lba,
            parent_index: self.parent_index,
            name: self.name.clone(),
        }
    }
}

/// Whether a whole path table entry stands in `bytes` at `at`.
pub open spec fn path_entry_fits(bytes: Seq<u8>, at: int) -> bool {
    &&& 0 <= at
    &&& at + 8 <= bytes.len()
    &&& at + path_entry_span(bytes[at] as int) <= bytes.len()
}

impl PathTableEntry {
    /// The bytes of the entry in the byte order `endian`.
    pub open spec fn encoding(&self, endian: EndianType) -> Seq<u8> {
        path_entry_bytes(self.name@, self.parent_lba, self.parent_index, endian)
    }

    /// Whether the entry is the one that stands in `bytes` at `at`, its numbers read in
    /// the byte order `endian`.
    pub open spec fn stands_at(&self, bytes: Seq<u8>, at: int, endian: EndianType) -> bool {
        &&& self.length == bytes[at]
        &&& self.extended_attr_record == bytes[at + 1]
        &&& self.parent_lba == endian.spec_read_u32(bytes.subrange(at + 2, at + 6))
        &&& self.parent_index == endian.spec_read_u16(bytes.subrange(at + 6, at + 8))
        &&& self.name@ == bytes.subrange(at + 8, at + 8 + bytes[at])
    }

    /// Reads the entry that stands in `bytes` at `at`, with its padding. It fails with
    /// `IOFailed` where `bytes` end before the entry does, and never otherwise.
    pub fn parse(bytes: &[u8], at: usize, endian: EndianType) -> (r: Result<Self, IsoError>)
        ensures
            r is Ok <==> path_entry_fits(bytes@, at as int),
            r matches Ok(entry) ==> entry.stands_at(bytes@, at as int, endian),
            r matches Err(e) ==> e == IsoError::IOFailed,
    {
        let total = bytes.len();
        if at > total || total - at < 8 {
            return Err(IsoError::IOFailed);
        }
        let header = PathTableEntryHeader::load(bytes, at);
        assert(header.encoding()[0] == header.len);
        assert(bytes@.subrange(at as int, at + 8)[0] == bytes@[at as int]);
        let n = header.len as usize;
        let span = 8 + n + n % 2;
        if total - at < span {
            return Err(IsoError::IOFailed);
        }
        let name = copy_range(bytes, at + 8, at + 8 + n);
        proof {
            assert(header.parent_lba@ =~= bytes@.subrange(at + 2, at + 6)) by {
                assert(header.encoding().subrange(2, 6) =~= header.parent_lba@);
            }
            assert(header.parent_directory_number@ =~= bytes@.subrange(at + 6, at + 8)) by {
                assert(header.encoding().subrange(6, 8) =~= header.parent_directory_number@);
            }
            assert(header.encoding()[1] == header.extended_attr_record);
        }
        Ok(
            PathTableEntry {
                length: header.len,
                extended_attr_record: header.extended_attr_record,
                parent_lba: endian.read_u32(header.parent_lba),
                parent_index: endian.read_u16(header.parent_directory_number),
                name,
            },
        )
    }

    /// Appends the bytes of the entry in the byte order `endian` to `out`.
    pub fn store(&self, endian: EndianType, out: &mut Vec<u8>)
        ensures
            final(out)@ == old(out)@ + self.encoding(endian),
    {
        let n = self.name.len();
        out.push(low8_of(n));
        out.push(0);
        let lba = endian.u32_bytes(self.parent_lba);
        out.extend_from_slice(lba.as_slice());
        let parent = endian.u16_bytes(self.parent_index);
        out.extend_from_slice(parent.as_slice());
        out.extend_from_slice(self.name.as_slice());
        if n % 2 == 1 {
            out.push(0);
        }
        assert(out@ =~= old(out)@ + self.encoding(endian));
    }

    /// The bytes of the entry in the byte order `endian`.
    pub fn to_bytes(&self, endian: EndianType) -> (bytes: Vec<u8>)
        ensures
            bytes@ == self.encoding(endian),
    {
        let mut bytes: Vec<u8> = Vec::new();
        self.store(endian, &mut bytes);
        bytes
    }

    /// The number of bytes of the entry, padding included.
    pub fn size(&self) -> (n: usize)
        requires
            self.name@.len() + 9 <= usize::MAX,
        ensures
            n == path_entry_span(self.name@.len() as int),
    {
        let n = 8 + self.name.len();
        n + n % 2
    }
}

/// Appends to `out` the path table entry of a directory named `name` whose extent
/// starts at block `lba` and whose parent has the number `parent`.
pub fn store_path_entry(out: &mut Vec<u8>, name: &[u8], lba: u32, parent: u16, endian: EndianType)
    ensures
        final(out)@ == old(out)@ + path_entry_bytes(name@, lba, parent, endian),
{
    let n = name.len();
    out.push(low8_of(n));
    out.push(0);
    let lba_bytes = endian.u32_bytes(lba);
    out.extend_from_slice(lba_bytes.as_slice());
    let parent_bytes = endian.u16_bytes(parent);
    out.extend_from_slice(parent_bytes.as_slice());
    out.extend_from_slice(name);
    if n % 2 == 1 {
        out.push(0);
    }
    assert(out@ =~= old(out)@ + path_entry_bytes(name@, lba, parent, endian));
}

/// Reading an entry back from its own bytes gives the entry, in either byte order.
pub proof fn path_entry_round_trip(
    entry: PathTableEntry,
    endian: EndianType,
    before: Seq<u8>,
    after: Seq<u8>,
)
    requires
        entry.name@.len() <= 255,
        entry.length == entry.name@.len(),
        entry.extended_attr_record == 0,
    ensures
        path_entry_fits(before + entry.encoding(endian) + after, before.len() as int),
        entry.stands_at(before + entry.encoding(endian) + after, before.len() as int, endian),
{
    let bytes = before + entry.encoding(endian) + after;
    let at = before.len() as int;
    let e = entry.encoding(endian);
    endian.round_trip(entry.parent_index, entry.parent_lba, 0);
    path_entry_len(entry.name@, entry.parent_lba, entry.parent_index, endian);
    assert(bytes.subrange(at, at + e.len()) =~= e);
    assert(bytes[at] == e[0]);
    assert(bytes[at + 1] == e[1]);
    assert(bytes.subrange(at + 2, at + 6) =~= endian.spec_u32_bytes(entry.parent_lba));
    assert(bytes.subrange(at + 6, at + 8) =~= endian.spec_u16_bytes(entry.parent_index));
    assert(bytes.subrange(at + 8, at + 8 + bytes[at]) =~= entry.name@);
}

} // verus!
