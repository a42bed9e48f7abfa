use vstd::prelude::*;
use crate::error::IsoError;
use crate::raw::{load_array, push_zeros, zeros};
use crate::types::{le_u16, u16_le, u32_le, Endian, LittleEndian, U16, U32};

verus! {

/// The number of bytes of an entry of a boot catalogue.
pub const CATALOGUE_ENTRY_SIZE: usize = 32;

/// The platform that a boot entry is meant for.
#[derive(Debug, Clone, Copy, PartialEq, Eq, Structural)]
pub enum PlatformId {
    /// This is for X8086, X86, and X86_64 architectures.
    X80X86,
    PowerPC,
    Macintosh,
    UEFI,
    Unknown(u8),
}

impl PlatformId {
    /// The platform that the byte `value` stands for.
    pub open spec fn spec_from_u8(value: u8) -> Self {
        if value == 0x00 {
            Self::X80X86
        } else if value == 0x01 {
            Self::PowerPC
        } else if value == 0x02 {
            Self::Macintosh
        } else if value == 0xEF {
            Self::UEFI
        } else {
            Self::Unknown(value)
        }
    }

    /// The byte that stands for the platform.
    pub open spec fn spec_to_u8(self) -> u8 {
        match self {
            Self::X80X86 => 0x00,
            Self::PowerPC => 0x01,
            Self::Macintosh => 0x02,
            Self::UEFI => 0xEF,
            Self::Unknown(value) => value,
        }
    }

    /// The platform that the byte `value` stands for.
    pub fn from_u8(value: u8) -> (platform: Self)
        ensures
            platform == Self::spec_from_u8(value),
    {
        match value {
            0x00 => Self::X80X86,
            0x01 => Self::PowerPC,
            0x02 => Self::Macintosh,
            0xEF => Self::UEFI,
            value => Self::Unknown(value),
        }
    }

    /// The byte that stands for the platform.
    pub fn to_u8(self) -> (value: u8)
        ensures
            value == self.spec_to_u8(),
    {
        match self {
            Self::X80X86 => 0x00,
            Self::PowerPC => 0x01,
            Self::Macintosh => 0x02,
            Self::UEFI => 0xEF,
            Self::Unknown(value) => value,
        }
    }

    /// The byte of the platform of a byte is that byte.
    pub proof fn byte_round_trip(value: u8)
        ensures
            Self::spec_from_u8(value).spec_to_u8() == value,
    {
    }
}

/// The kind of medium that a boot image stands for.
#[derive(Debug, Clone, Copy, PartialEq, Eq, Structural)]
pub enum MediaType {
    /// 0x00 = No emulation
    NoEmulation,
    Unknown(u8),
}

impl MediaType {
    /// The kind that the byte `value` stands for.
    pub open spec fn spec_from_u8(value: u8) -> Self {
        if value == 0x00 {
            Self::NoEmulation
        } else {
            Self::Unknown(value)
        }
    }

    /// The byte that stands for the kind.
    pub open spec fn spec_to_u8(self) -> u8 {
        match self {
            Self::NoEmulation => 0x00,
            Self::Unknown(value) => value,
        }
    }

    /// The kind that the byte `value` stands for.
    pub fn from_u8(value: u8) -> (media: Self)
        ensures
            media == Self::spec_from_u8(value),
    {
        match value {
            0x00 => Self::NoEmulation,
            value => Self::Unknown(value),
        }
    }

    /// The byte that stands for the kind.
    pub fn to_u8(self) -> (value: u8)
        ensures
            value == self.spec_to_u8(),
    {
        match self {
            Self::NoEmulation => 0x00,
            Self::Unknown(value) => value,
        }
    }

    /// The byte of the kind of a byte is that byte.
    pub proof fn byte_round_trip(value: u8)
        ensures
            Self::spec_from_u8(value).spec_to_u8() == value,
    {
    }
}

/// The sum of the first `words` 16-bit little-endian words of `bytes`.
pub open spec fn word_sum(bytes: Seq<u8>, words: int) -> int
    decreases words,
{
    if words <= 0 {
        0
    } else {
        word_sum(bytes, words - 1) + bytes[2 * words - 2] + 0x100 * bytes[2 * words - 1]
    }
}

/// `entry` with its checksum, the bytes 28 and 29, set to zero.
pub open spec fn without_checksum(entry: Seq<u8>) -> Seq<u8> {
    entry.update(28, 0u8).update(29, 0u8)
}

/// The checksum that makes the sixteen words of the 32 bytes `entry` add up to a
/// multiple of 65536: what their sum without the checksum lacks to the next one.
pub open spec fn validation_checksum(entry: Seq<u8>) -> u16 {
    ((0x1_0000 - word_sum(without_checksum(entry), 16) % 0x1_0000) % 0x1_0000) as u16
}

/// Whether the 32 bytes `entry` are a valid validation entry: the first byte is one
/// and the sixteen words add up to a multiple of 65536.
pub open spec fn validation_holds(entry: Seq<u8>) -> bool {
    entry[0] == 1 && le_u16(entry.subrange(28, 30)) == validation_checksum(entry)
}

/// Taking the checksum out of an entry lowers the sum of its words by the checksum.
pub proof fn word_sum_without_checksum(entry: Seq<u8>)
    requires
        entry.len() == 32,
    ensures
        word_sum(entry, 16) == word_sum(without_checksum(entry), 16) + le_u16(
            entry.subrange(28, 30),
        ),
{
    let cut = without_checksum(entry);
    assert(word_sum(entry, 14) == word_sum(cut, 14)) by {
        word_sum_same(entry, cut, 14);
    }
    assert(entry.subrange(28, 30)[0] == entry[28]);
    assert(entry.subrange(28, 30)[1] == entry[29]);
    reveal_with_fuel(word_sum, 3);
}

/// Two byte strings that agree on their first `words` words have the same sum there.
proof fn word_sum_same(a: Seq<u8>, b: Seq<u8>, words: int)
    requires
        0 <= words,
        2 * words <= a.len(),
        2 * words <= b.len(),
        forall|i: int| 0 <= i < 2 * words ==> a[i] == b[i],
    ensures
        word_sum(a, words) == word_sum(b, words),
    decreases words,
{
    if words > 0 {
        word_sum_same(a, b, words - 1);
    }
}

/// The sixteen words of a valid validation entry add up to a multiple of 65536.
pub proof fn validation_sum_is_zero(entry: Seq<u8>)
    requires
        entry.len() == 32,
        validation_holds(entry),
    ensures
        word_sum(entry, 16) % 0x1_0000 == 0,
{
    word_sum_without_checksum(entry);
    let s = word_sum(without_checksum(entry), 16);
    let c = validation_checksum(entry) as int;
    assert(c == (0x1_0000 - s % 0x1_0000) % 0x1_0000);
    assert((s + c) % 0x1_0000 == 0) by {
        let r = s % 0x1_0000;
        assert(s == 0x1_0000 * (s / 0x1_0000) + r);
        if r == 0 {
            assert(c == 0);
        } else {
            assert(c == 0x1_0000 - r);
            assert(s + c == 0x1_0000 * (s / 0x1_0000 + 1));
        }
    }
}

/// The 32 bytes of the validation entry of every catalogue that is written: header
/// one, platform zero, no manufacturer, the checksum `AA 55` and the key `55 AA`.
pub open spec fn validation_entry_bytes() -> Seq<u8> {
    seq![1u8, 0u8, 0u8, 0u8] + zeros(24) + seq![0xAAu8, 0x55u8, 0x55u8, 0xAAu8]
}

/// The first entry of a boot catalogue, which shows that the catalogue is sound.
#[derive(Clone, Copy)]
pub struct BootValidationEntry {
    pub header_id: u8,
    pub platform_id: u8,
    pub reserved: [u8; 2],
    pub manufacturer: [u8; 24],
    pub checksum: U16<LittleEndian>,
    /// 0x55AA
    pub key: [u8; 2],
}

impl BootValidationEntry {
    /// The 32 bytes of the entry.
    pub open spec fn encoding(&self) -> Seq<u8> {
        seq![self.header_id, self.platform_id] + self.reserved@ + self.manufacturer@
            + self.checksum.layout() + self.key@
    }

    /// The entry always holds 32 bytes, with the checksum at 28.
    pub proof fn encoding_len(&self)
        ensures
            self.encoding().len() == 32,
            self.encoding().subrange(28, 30) == self.checksum.layout(),
            self.encoding()[0] == self.header_id,
    {
        self.checksum.layout_laws(0);
        assert(self.encoding().subrange(28, 30) =~= self.checksum.layout());
    }

    /// The entry of every catalogue that is written.
    pub fn new() -> (entry: Self)
        ensures
            entry.encoding() == validation_entry_bytes(),
            validation_holds(entry.encoding()),
    {
        let mut entry = Self {
            header_id: 1,
            platform_id: 0,
            reserved: [0; 2],
            manufacturer: [0; 24],
            checksum: U16::new(0),
            key: [0x55, 0xAA],
        };
        let sum = entry.calculate_checksum();
        proof {
            entry.encoding_len();
            let cut = without_checksum(entry.encoding());
            assert(cut =~= seq![1u8, 0u8, 0u8, 0u8] + zeros(24) + seq![0u8, 0u8, 0x55u8, 0xAAu8]);
            assert(word_sum(cut, 16) == 0xAA56) by {
                reveal_with_fuel(word_sum, 17);
            }
            assert(sum == 0x55AA);
        }
        entry.checksum.set(sum);
        proof {
            entry.encoding_len();
            assert(u16_le(0x55AA) =~= seq![0xAAu8, 0x55u8]);
            assert(entry.reserved@ =~= zeros(2));
            assert(entry.manufacturer@ =~= zeros(24));
            assert(entry.encoding() =~= validation_entry_bytes());
            assert(without_checksum(entry.encoding()) =~= seq![1u8, 0u8, 0u8, 0u8] + zeros(24)
                + seq![0u8, 0u8, 0x55u8, 0xAAu8]);
        }
        entry
    }

    /// The entry that the 32 bytes of `bytes` from `at` on hold.
    pub fn parse(bytes: &[u8], at: usize) -> (r: Result<Self, IsoError>)
        ensures
            r is Ok <==> at + 32 <= bytes@.len(),
            r matches Ok(entry) ==> entry.encoding() == bytes@.subrange(at as int, at + 32),
            r matches Err(e) ==> e == IsoError::IOFailed,
    {
        let total = bytes.len();
        if at > total || total - at < 32 {
            return Err(IsoError::IOFailed);
        }
        let entry = Self {
            header_id: bytes[at],
            platform_id: bytes[at + 1],
            reserved: load_array::<2>(bytes, at + 2),
            manufacturer: load_array::<24>(bytes, at + 4),
            checksum: U16::<LittleEndian>::load(bytes, at + 28),
            key: load_array::<2>(bytes, at + 30),
        };
        proof {
            entry.encoding_len();
            assert(entry.encoding() =~= bytes@.subrange(at as int, at + 32));
        }
        Ok(entry)
    }

    /// Whether the first byte is one and the checksum is the one that belongs to the
    /// other bytes.
    pub fn is_valid(&self) -> (valid: bool)
        ensures
            valid == validation_holds(self.encoding()),
    {
        proof {
            self.encoding_len();
        }
        self.header_id == 0x01 && self.checksum.get() == self.calculate_checksum()
    }

    /// The checksum that belongs to the other bytes of the entry.
    pub fn calculate_checksum(&self) -> (sum: u16)
        ensures
            sum == validation_checksum(self.encoding()),
    {
        let mut bytes = self.to_bytes();
        proof {
            self.encoding_len();
        }
        bytes[28] = 0;
        bytes[29] = 0;
        assert(bytes@ =~= without_checksum(self.encoding()));
        let mut checksum: u32 = 0;
        let mut i: usize = 0;
        while i < 16
            invariant
                i <= 16,
                bytes@.len() == 32,
                checksum == word_sum(bytes@, i as int) % 0x1_0000,
            decreases 16 - i,
        {
            let value: u32 = bytes[2 * i] as u32 + 0x100 * (bytes[2 * i + 1] as u32);
            checksum = (checksum + value) % 0x1_0000;
            i += 1;
        }
        ((0x1_0000 - checksum) % 0x1_0000) as u16
    }

    /// Appends the 32 bytes of the entry to `out`.
    pub fn store(&self, out: &mut Vec<u8>)
        ensures
            final(out)@ == old(out)@ + self.encoding(),
    {
        out.push(self.header_id);
        out.push(self.platform_id);
        out.extend_from_slice(self.reserved.as_slice());
        out.extend_from_slice(self.manufacturer.as_slice());
        self.checksum.store(out);
        out.extend_from_slice(self.key.as_slice());
        assert(out@ =~= old(out)@ + self.encoding());
    }

    /// The 32 bytes of the entry.
    pub fn to_bytes(&self) -> (bytes: Vec<u8>)
        ensures
            bytes@ == self.encoding(),
    {
        let mut bytes: Vec<u8> = Vec::new();
        self.store(&mut bytes);
        bytes
    }
}

/// The entry at the head of a section of a boot catalogue.
#[derive(Clone, Copy)]
pub struct BootSectionHeaderEntry {
    /// 0x90 = Header, more headers follow
    /// 0x91 = Final header
    pub header_type: u8,
    pub platform_id: u8,
    pub section_count: U16<LittleEndian>,
    pub section_ident: [u8; 28],
}

impl BootSectionHeaderEntry {
    /// The 32 bytes of the entry.
    pub open spec fn encoding(&self) -> Seq<u8> {
        seq![self.header_type, self.platform_id] + self.section_count.layout()
            + self.section_ident@
    }

    /// The entry always holds 32 bytes.
    pub proof fn encoding_len(&self)
        ensures
            self.encoding().len() == 32,
    {
        self.section_count.layout_laws(0);
    }

    /// The entry that the 32 bytes of `bytes` from `at` on hold.
    pub fn load(bytes: &[u8], at: usize) -> (entry: Self)
        requires
            at + 32 <= bytes@.len(),
        ensures
            entry.encoding() == bytes@.subrange(at as int, at + 32),
    {
        let total = bytes.len();
        let entry = Self {
            header_type: bytes[at],
            platform_id: bytes[at + 1],
            section_count: U16::<LittleEndian>::load(bytes, at + 2),
            section_ident: load_array::<28>(bytes, at + 4),
        };
        proof {
            entry.encoding_len();
            assert(entry.encoding() =~= bytes@.subrange(at as int, at + 32));
        }
        entry
    }

    /// Appends the 32 bytes of the entry to `out`.
    pub fn store(&self, out: &mut Vec<u8>)
        ensures
            final(out)@ == old(out)@ + self.encoding(),
    {
        out.push(self.header_type);
        out.push(self.platform_id);
        self.section_count.store(out);
        out.extend_from_slice(self.section_ident.as_slice());
        assert(out@ =~= old(out)@ + self.encoding());
    }
}

/// The 32 bytes of the entry of a bootable image of the medium `media` that begins at
/// the block `rba`, of which `sectors` sectors are loaded at the segment `segment`.
pub open spec fn boot_entry_bytes(media: u8, segment: u16, sectors: u16, rba: u32) -> Seq<u8> {
    seq![0x88u8, media] + u16_le(segment) + seq![0u8, 0u8] + u16_le(sectors) + u32_le(rba) + seq![
        0u8,
    ] + zeros(19)
}

/// An entry of a boot catalogue that describes one boot image.
#[derive(Clone, Copy)]
pub struct BootSectionEntry {
    /// 0x88 = Bootable, 0x00 = Not bootable
    pub boot_indicator: u8,
    pub boot_media_type: u8,
    pub load_segment: U16<LittleEndian>,
    pub system_type: u8,
    pub reserved0: u8,
    pub sector_count: U16<LittleEndian>,
    pub load_rba: U32<LittleEndian>,
    pub selection_criteria: u8,
    pub vendor_unique: [u8; 19],
}

impl BootSectionEntry {
    /// The 32 bytes of the entry.
    pub open spec fn encoding(&self) -> Seq<u8> {
        seq![self.boot_indicator, self.boot_media_type] + self.load_segment.layout() + seq![
            self.system_type,
            self.reserved0,
        ] + self.sector_count.layout() + self.load_rba.layout() + seq![self.selection_criteria]
            + self.vendor_unique@
    }

    /// The entry always holds 32 bytes, and begins with the boot indicator.
    pub proof fn encoding_len(&self)
        ensures
            self.encoding().len() == 32,
            self.encoding()[0] == self.boot_indicator,
    {
        self.load_segment.layout_laws(0);
        self.sector_count.layout_laws(0);
        self.load_rba.layout_laws(0);
    }

    /// The entry of a bootable image.
    pub fn new(media_type: MediaType, load_segment: u16, sector_count: u16, load_rba: u32) -> (entry:
        Self)
        ensures
            entry.encoding() == boot_entry_bytes(
                media_type.spec_to_u8(),
                load_segment,
                sector_count,
                load_rba,
            ),
            entry.boot_indicator == 0x88,
            entry.sector_count.value() == sector_count,
            entry.load_rba.value() == load_rba,
    {
        let entry = Self {
            boot_indicator: 0x88,
            boot_media_type: media_type.to_u8(),
            load_segment: U16::new(load_segment),
            system_type: 0,
            reserved0: 0,
            sector_count: U16::new(sector_count),
            load_rba: U32::new(load_rba),
            selection_criteria: 0,
            vendor_unique: [0; 19],
        };
        proof {
            assert(entry.vendor_unique@ =~= zeros(19));
            assert(entry.encoding() =~= boot_entry_bytes(
                media_type.spec_to_u8(),
                load_segment,
                sector_count,
                load_rba,
            ));
        }
        entry
    }

    /// The entry that the 32 bytes of `bytes` from `at` on hold.
    pub fn parse(bytes: &[u8], at: usize) -> (r: Result<Self, IsoError>)
        ensures
            r is Ok <==> at + 32 <= bytes@.len(),
            r matches Ok(entry) ==> entry.encoding() == bytes@.subrange(at as int, at + 32),
            r matches Err(e) ==> e == IsoError::IOFailed,
    {
        let total = bytes.len();
        if at > total || total - at < 32 {
            return Err(IsoError::IOFailed);
        }
        let entry = Self {
            boot_indicator: bytes[at],
            boot_media_type: bytes[at + 1],
            load_segment: U16::<LittleEndian>::load(bytes, at + 2),
            system_type: bytes[at + 4],
            reserved0: bytes[at + 5],
            sector_count: U16::<LittleEndian>::load(bytes, at + 6),
            load_rba: U32::<LittleEndian>::load(bytes, at + 8),
            selection_criteria: bytes[at + 12],
            vendor_unique: load_array::<19>(bytes, at + 13),
        };
        proof {
            entry.encoding_len();
            assert(entry.encoding() =~= bytes@.subrange(at as int, at + 32));
        }
        Ok(entry)
    }

    /// Whether the entry is marked bootable.
    pub fn is_valid(&self) -> (valid: bool)
        ensures
            valid == (self.boot_indicator == 0x88),
    {
        self.boot_indicator == 0x88
    }

    /// Appends the 32 bytes of the entry to `out`.
    pub fn store(&self, out: &mut Vec<u8>)
        ensures
            final(out)@ == old(out)@ + self.encoding(),
    {
        out.push(self.boot_indicator);
        out.push(self.boot_media_type);
        self.load_segment.store(out);
        out.push(self.system_type);
        out.push(self.reserved0);
        self.sector_count.store(out);
        self.load_rba.store(out);
        out.push(self.selection_criteria);
        out.extend_from_slice(self.vendor_unique.as_slice());
        assert(out@ =~= old(out)@ + self.encoding());
    }
}

/// An entry of a boot catalogue that goes on from the entry before it.
#[derive(Debug, Clone, Copy)]
pub struct BootSectionEntryExtension {
    // Must be 0x44
    pub extension_indicator: u8,
    // Bit 5: 1 = more extensions follow, 0 = final extension
    pub flags: u8,
    pub vendor_unique: [u8; 30],
}

impl BootSectionEntryExtension {
    /// The 32 bytes of the entry.
    pub open spec fn encoding(&self) -> Seq<u8> {
        seq![self.extension_indicator, self.flags] + self.vendor_unique@
    }

    /// Appends the 32 bytes of the entry to `out`.
    pub fn store(&self, out: &mut Vec<u8>)
        ensures
            final(out)@ == old(out)@ + self.encoding(),
    {
        out.push(self.extension_indicator);
        out.push(self.flags);
        out.extend_from_slice(self.vendor_unique.as_slice());
        assert(out@ =~= old(out)@ + self.encoding());
    }
}

/// An entry of a boot catalogue of any kind.
#[derive(Clone, Copy)]
pub enum BootCatalogueEntry {
    Validation(BootValidationEntry),
    SectionHeader(BootSectionHeaderEntry),
    SectionEntry(BootSectionEntry),
    SectionEntryExtension(BootSectionEntryExtension),
}

impl BootCatalogueEntry {
    /// The 32 bytes of the entry.
    pub open spec fn encoding(&self) -> Seq<u8> {
        match self {
            BootCatalogueEntry::Validation(entry) => entry.encoding(),
            BootCatalogueEntry::SectionHeader(entry) => entry.encoding(),
            BootCatalogueEntry::SectionEntry(entry) => entry.encoding(),
            BootCatalogueEntry::SectionEntryExtension(entry) => entry.encoding(),
        }
    }

    /// The 32 bytes of the entry.
    pub fn as_bytes(&self) -> (bytes: Vec<u8>)
        ensures
            bytes@ == self.encoding(),
    {
        let mut bytes: Vec<u8> = Vec::new();
        match self {
            BootCatalogueEntry::Validation(entry) => entry.store(&mut bytes),
            BootCatalogueEntry::SectionHeader(entry) => entry.store(&mut bytes),
            BootCatalogueEntry::SectionEntry(entry) => entry.store(&mut bytes),
            BootCatalogueEntry::SectionEntryExtension(entry) => entry.store(&mut bytes),
        }
        bytes
    }

    /// The number of bytes of an entry: 32, whatever its kind.
    pub fn size(&self) -> (n: usize)
        ensures
            n == 32,
    {
        32
    }
}

/// A section of a boot catalogue as bytes: the 32 bytes of its header, and the 32
/// bytes of each of its entries.
pub type SectionBytes = (Seq<u8>, Seq<Seq<u8>>);

/// The sections `done`, and after them the section `open` where there is one.
pub open spec fn sections_closed(done: Seq<SectionBytes>, open: Option<SectionBytes>) -> Seq<
    SectionBytes,
> {
    match open {
        Some(section) => done.push(section),
        None => done,
    }
}

/// How reading the sections of a catalogue goes on in `bytes` at `at`, where `done`
/// are the sections read so far, `open` is the section that is being read, and
/// `has_more` says whether its header announced another one. A header, `0x90` or
/// `0x91`, opens a section; a zero byte ends the catalogue unless another header was
/// announced; any other entry belongs to the open section, and is `CorruptImage`
/// where none is open. Where `bytes` end first the result is `IOFailed`.
pub open spec fn sections_scan(
    bytes: Seq<u8>,
    at: int,
    has_more: bool,
    open: Option<SectionBytes>,
    done: Seq<SectionBytes>,
) -> Result<Seq<SectionBytes>, IsoError>
    decreases bytes.len() - at,
{
    if at < 0 || at + 32 > bytes.len() {
        Err(IsoError::IOFailed)
    } else {
        let entry = bytes.subrange(at, at + 32);
        if bytes[at] == 0 && !has_more {
            Ok(sections_closed(done, open))
        } else if bytes[at] == 0x90 || bytes[at] == 0x91 {
            sections_scan(
                bytes,
                at + 32,
                bytes[at] == 0x90,
                Some((entry, Seq::empty())),
                sections_closed(done, open),
            )
        } else {
            match open {
                None => Err(IsoError::CorruptImage),
                Some(section) => sections_scan(
                    bytes,
                    at + 32,
                    has_more,
                    Some((section.0, section.1.push(entry))),
                    done,
                ),
            }
        }
    }
}

/// How reading the boot catalogue that begins in `bytes` at `at` ends: with its
/// sections; with `IOFailed` where `bytes` end before the catalogue does; or with
/// `CorruptImage` where the validation entry does not hold, the default entry is not
/// bootable, or an entry stands outside a section.
pub open spec fn catalogue_scan(bytes: Seq<u8>, at: int) -> Result<Seq<SectionBytes>, IsoError> {
    if at < 0 || at + 32 > bytes.len() {
        Err(IsoError::IOFailed)
    } else if !validation_holds(bytes.subrange(at, at + 32)) {
        Err(IsoError::CorruptImage)
    } else if at + 64 > bytes.len() {
        Err(IsoError::IOFailed)
    } else if bytes[at + 32] != 0x88 {
        Err(IsoError::CorruptImage)
    } else {
        sections_scan(bytes, at + 64, false, None, Seq::empty())
    }
}

/// The bytes of each of the entries `entries`.
pub open spec fn entries_view(entries: Seq<BootSectionEntry>) -> Seq<Seq<u8>> {
    Seq::new(entries.len(), |i: int| entries[i].encoding())
}

/// The bytes of each of the sections `sections`.
pub open spec fn sections_view(
    sections: Seq<(BootSectionHeaderEntry, Vec<BootSectionEntry>)>,
) -> Seq<SectionBytes> {
    Seq::new(sections.len(), |i: int| (sections[i].0.encoding(), entries_view(sections[i].1@)))
}

/// The bytes of the entries `entries`, one after the other.
pub open spec fn entries_bytes(entries: Seq<BootSectionEntry>, upto: int) -> Seq<u8>
    decreases upto,
{
    if upto <= 0 {
        Seq::empty()
    } else {
        entries_bytes(entries, upto - 1) + entries[upto - 1].encoding()
    }
}

/// The bytes of the first `upto` sections of `sections`, each a header and its
/// entries.
pub open spec fn sections_bytes(
    sections: Seq<(BootSectionHeaderEntry, Vec<BootSectionEntry>)>,
    upto: int,
) -> Seq<u8>
    decreases upto,
{
    if upto <= 0 {
        Seq::empty()
    } else {
        sections_bytes(sections, upto - 1) + sections[upto - 1].0.encoding() + entries_bytes(
            sections[upto - 1].1@,
            sections[upto - 1].1@.len() as int,
        )
    }
}

/// The 96 bytes of a catalogue with one boot image and no sections: the validation
/// entry, the entry of the image, and 32 zero bytes.
pub open spec fn catalogue_bytes(media: u8, segment: u16, sectors: u16, rba: u32) -> Seq<u8> {
    validation_entry_bytes() + boot_entry_bytes(media, segment, sectors, rba) + zeros(32)
}

/// A catalogue with one boot image and no sections has 96 bytes, and begins with a
/// validation entry that holds.
pub proof fn catalogue_bytes_len(media: u8, segment: u16, sectors: u16, rba: u32)
    ensures
        catalogue_bytes(media, segment, sectors, rba).len() == 96,
        catalogue_bytes(media, segment, sectors, rba).subrange(0, 32) == validation_entry_bytes(),
        catalogue_bytes(media, segment, sectors, rba).subrange(32, 64) == boot_entry_bytes(
            media,
            segment,
            sectors,
            rba,
        ),
        catalogue_bytes(media, segment, sectors, rba).subrange(64, 96) == zeros(32),
{
    crate::types::u16_round_trip(segment);
    crate::types::u16_round_trip(sectors);
    crate::types::u32_round_trip(rba);
    let c = catalogue_bytes(media, segment, sectors, rba);
    assert(validation_entry_bytes().len() == 32);
    assert(boot_entry_bytes(media, segment, sectors, rba).len() == 32);
    assert(c.subrange(0, 32) =~= validation_entry_bytes());
    assert(c.subrange(32, 64) =~= boot_entry_bytes(media, segment, sectors, rba));
    assert(c.subrange(64, 96) =~= zeros(32));
}

/// The validation entry that is written holds: its sixteen words add up to a
/// multiple of 65536.
pub proof fn written_validation_entry_holds()
    ensures
        validation_holds(validation_entry_bytes()),
        word_sum(validation_entry_bytes(), 16) % 0x1_0000 == 0,
{
    let e = validation_entry_bytes();
    let cut = without_checksum(e);
    assert(cut =~= seq![1u8, 0u8, 0u8, 0u8] + zeros(24) + seq![0u8, 0u8, 0x55u8, 0xAAu8]);
    assert(word_sum(cut, 16) == 0xAA56) by {
        reveal_with_fuel(word_sum, 17);
    }
    assert(e.subrange(28, 30) =~= seq![0xAAu8, 0x55u8]);
    assert(le_u16(e.subrange(28, 30)) == 0x55AA);
    validation_sum_is_zero(e);
}

/// A boot catalogue.
pub struct BootCatalogue {
    validation: BootValidationEntry,
    default_entry: BootSectionEntry,
    sections: Vec<(BootSectionHeaderEntry, Vec<BootSectionEntry>)>,
}

impl BootCatalogue {
    /// The validation entry.
    pub closed spec fn spec_validation(&self) -> BootValidationEntry {
        self.validation
    }

    /// The entry of the image that is booted by default.
    pub closed spec fn spec_default_entry(&self) -> BootSectionEntry {
        self.default_entry
    }

    /// The sections.
    pub closed spec fn spec_sections(&self) -> Seq<(BootSectionHeaderEntry, Vec<BootSectionEntry>)> {
        self.sections@
    }

    /// The bytes of the catalogue: validation entry, default entry, the sections, and
    /// 32 zero bytes.
    pub open spec fn encoding(&self) -> Seq<u8> {
        self.spec_validation().encoding() + self.spec_default_entry().encoding() + sections_bytes(
            self.spec_sections(),
            self.spec_sections().len() as int,
        ) + zeros(32)
    }

    /// The catalogue with one boot image and no sections.
    pub fn new(media_type: MediaType, load_segment: u16, sector_count: u16, load_rba: u32) -> (c:
        Self)
        ensures
            c.encoding() == catalogue_bytes(
                media_type.spec_to_u8(),
                load_segment,
                sector_count,
                load_rba,
            ),
            c.spec_sections().len() == 0,
    {
        let c = Self {
            validation: BootValidationEntry::new(),
            default_entry: BootSectionEntry::new(media_type, load_segment, sector_count, load_rba),
            sections: Vec::new(),
        };
        assert(c.encoding() =~= catalogue_bytes(
            media_type.spec_to_u8(),
            load_segment,
            sector_count,
            load_rba,
        ));
        c
    }

    /// The validation entry.
    pub fn validation(&self) -> (entry: &BootValidationEntry)
        ensures
            *entry == self.spec_validation(),
    {
        &self.validation
    }

    /// The entry of the image that is booted by default.
    pub fn default_entry(&self) -> (entry: &BootSectionEntry)
        ensures
            *entry == self.spec_default_entry(),
    {
        &self.default_entry
    }

    /// The sections.
    pub fn sections(&self) -> (sections: &Vec<(BootSectionHeaderEntry, Vec<BootSectionEntry>)>)
        ensures
            sections@ == self.spec_sections(),
    {
        &self.sections
    }

    /// Reads the catalogue that begins in `bytes` at `at`.
    pub fn parse(bytes: &[u8], at: usize) -> (r: Result<Self, IsoError>)
        ensures
            r matches Ok(c) ==> {
                &&& catalogue_scan(bytes@, at as int) == Ok::<Seq<SectionBytes>, IsoError>(
                    sections_view(c.spec_sections()),
                )
                &&& c.spec_validation().encoding() == bytes@.subrange(at as int, at + 32)
                &&& c.spec_default_entry().encoding() == bytes@.subrange(at + 32, at + 64)
            },
            r matches Err(e) ==> catalogue_scan(bytes@, at as int) == Err::<
                Seq<SectionBytes>,
                IsoError,
            >(e),
    {
        let total = bytes.len();
        let validation = match BootValidationEntry::parse(bytes, at) {
            Ok(entry) => entry,
            Err(e) => {
                return Err(e);
            },
        };
        if !validation.is_valid() {
            return Err(IsoError::CorruptImage);
        }
        let default_entry = match BootSectionEntry::parse(bytes, at + 32) {
            Ok(entry) => entry,
            Err(e) => {
                return Err(e);
            },
        };
        proof {
            default_entry.encoding_len();
            assert(bytes@.subrange(at + 32, at + 64)[0] == bytes@[at + 32]);
        }
        if !default_entry.is_valid() {
            return Err(IsoError::CorruptImage);
        }
        let mut sections: Vec<(BootSectionHeaderEntry, Vec<BootSectionEntry>)> = Vec::new();
        let mut has_more = false;
        let mut header: Option<BootSectionHeaderEntry> = None;
        let mut entries: Vec<BootSectionEntry> = Vec::new();
        let mut cur: usize = at + 64;
        assert(sections_view(sections@) =~= Seq::<SectionBytes>::empty());
        loop
            invariant
                total == bytes@.len(),
                at + 64 <= cur <= total,
                header is None ==> entries@.len() == 0,
                validation.encoding() == bytes@.subrange(at as int, at + 32),
                default_entry.encoding() == bytes@.subrange(at + 32, at + 64),
                catalogue_scan(bytes@, at as int) == sections_scan(
                    bytes@,
                    cur as int,
                    has_more,
                    match header {
                        Some(h) => Some((h.encoding(), entries_view(entries@))),
                        None => None,
                    },
                    sections_view(sections@),
                ),
            decreases total - cur,
        {
            if total - cur < 32 {
                return Err(IsoError::IOFailed);
            }
            let ghost open: Option<SectionBytes> = match header {
                Some(h) => Some((h.encoding(), entries_view(entries@))),
                None => None,
            };
            let ghost done = sections_view(sections@);
            let id = bytes[cur];
            if id == 0x00 && !has_more {
                assert(sections_scan(bytes@, cur as int, has_more, open, done) == Ok::<
                    Seq<SectionBytes>,
                    IsoError,
                >(sections_closed(done, open)));
                if let Some(h) = header {
                    sections.push((h, entries));
                    assert(sections_view(sections@) =~= sections_closed(done, open));
                }
                let c = Self { validation, default_entry, sections };
                assert(sections_view(c.spec_sections()) == sections_closed(done, open));
                return Ok(c);
            } else if id == 0x90 || id == 0x91 {
                has_more = id == 0x90;
                if let Some(h) = header {
                    sections.push((h, entries));
                    entries = Vec::new();
                    assert(sections_view(sections@) =~= sections_closed(done, open));
                }
                header = Some(BootSectionHeaderEntry::load(bytes, cur));
                assert(entries_view(entries@) =~= Seq::<Seq<u8>>::empty());
            } else {
                match header {
                    None => {
                        return Err(IsoError::CorruptImage);
                    },
                    Some(_) => {
                        let entry = match BootSectionEntry::parse(bytes, cur) {
                            Ok(entry) => entry,
                            Err(e) => {
                                return Err(e);
                            },
                        };
                        let ghost before = entries_view(entries@);
                        entries.push(entry);
                        assert(entries_view(entries@) =~= before.push(entry.encoding()));
                    },
                }
            }
            cur = cur + 32;
        }
    }

    /// Appends the bytes of the catalogue to `out`.
    pub fn write(&self, out: &mut Vec<u8>)
        ensures
            final(out)@ == old(out)@ + self.encoding(),
    {
        self.validation.store(out);
        self.default_entry.store(out);
        let ghost start = out@;
        let mut i: usize = 0;
        while i < self.sections.len()
            invariant
                i <= self.sections@.len(),
                out@ == start + sections_bytes(self.sections@, i as int),
            decreases self.sections@.len() - i,
        {
            let section = &self.sections[i];
            section.0.store(out);
            let ghost mid = out@;
            let mut j: usize = 0;
            while j < section.1.len()
                invariant
                    j <= section.1@.len(),
                    out@ == mid + entries_bytes(section.1@, j as int),
                decreases section.1@.len() - j,
            {
                section.1[j].store(out);
                j += 1;
                assert(out@ =~= mid + entries_bytes(section.1@, j as int));
            }
            i += 1;
            assert(out@ =~= start + sections_bytes(self.sections@, i as int));
        }
        push_zeros(out, 32);
        assert(out@ =~= old(out)@ + self.encoding());
    }
}

/// The sum of the 32-bit little-endian words of `data` from `from` on; bytes that
/// the last word lacks count as zero.
pub open spec fn dword_sum(data: Seq<u8>, from: int) -> int
    decreases data.len() + 4 - from,
{
    if from < 0 || from >= data.len() {
        0
    } else {
        byte_or_zero(data, from) + 0x100 * byte_or_zero(data, from + 1) + 0x1_0000 * byte_or_zero(
            data,
            from + 2,
        ) + 0x100_0000 * byte_or_zero(data, from + 3) + dword_sum(data, from + 4)
    }
}

/// The byte of `data` at `at`, or zero where `data` ends before it.
pub open spec fn byte_or_zero(data: Seq<u8>, at: int) -> int {
    if 0 <= at < data.len() {
        data[at] as int
    } else {
        0
    }
}

/// The checksum of a boot image: the sum of its 32-bit words from the byte 64 on, as
/// far as 32 bits hold it.
pub open spec fn boot_image_checksum(data: Seq<u8>) -> u32 {
    (dword_sum(data, 64) % 0x1_0000_0000) as u32
}

/// The checksum of a boot image: the sum of its 32-bit words from the byte 64 on, as
/// far as 32 bits hold it.
pub fn checksum_of_boot_image(data: &[u8]) -> (sum: u32)
    ensures
        sum == boot_image_checksum(data@),
{
    let total = data.len();
    let mut acc: u64 = 0;
    let mut i: usize = 64;
    if total <= 64 {
        return 0;
    }
    while i < total
        invariant
            total == data@.len(),
            64 <= i <= total,
            acc < 0x1_0000_0000,
            (dword_sum(data@, 64) - (acc + dword_sum(data@, i as int))) % 0x1_0000_0000 == 0,
        decreases total - i,
    {
        let b0: u64 = data[i] as u64;
        let b1: u64 = if total - i > 1 {
            data[i + 1] as u64
        } else {
            0
        };
        let b2: u64 = if total - i > 2 {
            data[i + 2] as u64
        } else {
            0
        };
        let b3: u64 = if total - i > 3 {
            data[i + 3] as u64
        } else {
            0
        };
        let word: u64 = b0 + 0x100 * b1 + 0x1_0000 * b2 + 0x100_0000 * b3;
        let ghost before = acc as int;
        let ghost at = i as int;
        acc = (acc + word) % 0x1_0000_0000;
        proof {
            assert(dword_sum(data@, at) == word + dword_sum(data@, at + 4));
            assert((before + word - acc) % 0x1_0000_0000 == 0);
        }
        if total - i <= 4 {
            i = total;
            assert(dword_sum(data@, at + 4) == 0);
            assert(dword_sum(data@, i as int) == 0);
        } else {
            i = i + 4;
        }
    }
    assert(dword_sum(data@, i as int) == 0);
    acc as u32
}

/// The 56 bytes of the boot information table of a boot image of `len` bytes at the
/// block `lba` with the checksum `sum`: the block of the primary volume descriptor,
/// which is 16, then block, length and checksum, and forty zero bytes.
pub open spec fn boot_info_bytes(lba: u32, len: u32, sum: u32) -> Seq<u8> {
    u32_le(16) + u32_le(lba) + u32_le(len) + u32_le(sum) + zeros(40)
}

/// The table that tells a boot image where it lies on the volume. It stands in the
/// bytes 8 to 63 of the image.
#[derive(Clone, Copy)]
pub struct BootInfoTable {
    pub iso_start: U32<LittleEndian>,
    pub boot_image_lba: U32<LittleEndian>,
    pub boot_file_size: U32<LittleEndian>,
    pub checksum: U32<LittleEndian>,
    pub reserved: [u8; 40],
}

impl BootInfoTable {
    /// The 56 bytes of the table.
    pub open spec fn encoding(&self) -> Seq<u8> {
        self.iso_start.layout() + self.boot_image_lba.layout() + self.boot_file_size.layout()
            + self.checksum.layout() + self.reserved@
    }

    /// The table always holds 56 bytes.
    pub proof fn encoding_len(&self)
        ensures
            self.encoding().len() == 56,
    {
        self.iso_start.layout_laws(0);
        self.boot_image_lba.layout_laws(0);
        self.boot_file_size.layout_laws(0);
        self.checksum.layout_laws(0);
    }

    /// The table of a boot image of `size` bytes at the block `lba` with the checksum
    /// `checksum`.
    pub fn new(lba: u32, size: u32, checksum: u32) -> (table: Self)
        ensures
            table.encoding() == boot_info_bytes(lba, size, checksum),
            table.iso_start.value() == 16,
            table.boot_image_lba.value() == lba,
            table.boot_file_size.value() == size,
            table.checksum.value() == checksum,
    {
        let table = Self {
            iso_start: U32::new(16),
            boot_image_lba: U32::new(lba),
            boot_file_size: U32::new(size),
            checksum: U32::new(checksum),
            reserved: [0; 40],
        };
        assert(table.reserved@ =~= zeros(40));
        table
    }

    /// Appends the 56 bytes of the table to `out`.
    pub fn store(&self, out: &mut Vec<u8>)
        ensures
            final(out)@ == old(out)@ + self.encoding(),
    {
        self.iso_start.store(out);
        self.boot_image_lba.store(out);
        self.boot_file_size.store(out);
        self.checksum.store(out);
        out.extend_from_slice(self.reserved.as_slice());
        assert(out@ =~= old(out)@ + self.encoding());
    }

    /// The table that the 56 bytes of `bytes` from `at` on hold.
    pub fn load(bytes: &[u8], at: usize) -> (table: Self)
        requires
            at + 56 <= bytes@.len(),
        ensures
            table.encoding() == bytes@.subrange(at as int, at + 56),
    {
        let total = bytes.len();
        let table = Self {
            iso_start: U32::<LittleEndian>::load(bytes, at),
            boot_image_lba: U32::<LittleEndian>::load(bytes, at + 4),
            boot_file_size: U32::<LittleEndian>::load(bytes, at + 8),
            checksum: U32::<LittleEndian>::load(bytes, at + 12),
            reserved: load_array::<40>(bytes, at + 16),
        };
        proof {
            table.encoding_len();
            assert(table.encoding() =~= bytes@.subrange(at as int, at + 56));
        }
        table
    }
}

} // verus!
