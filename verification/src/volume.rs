use vstd::prelude::*;
use crate::directory::{both_u16, both_u32, RootDirectoryEntry};
use crate::error::IsoError;
use crate::raw::{load_array, zeros};
use crate::types::{
    be_u16, be_u32, le_u16, le_u32, space_padded, u32_be, u32_le, BigEndian, DecDateTime, Endian,
    IsoStrA, IsoStrD, LittleEndian, U16LsbMsb, U32, U32LsbMsb,
};

verus! {

/// The number of bytes of a volume descriptor.
pub const DESCRIPTOR_SIZE: usize = 2048;

/// The block at which the volume descriptors begin.
pub const FIRST_DESCRIPTOR_LBA: usize = 16;

/// The kind of a volume descriptor, by its first byte.
#[derive(Debug, Clone, Copy, PartialEq, Eq, Structural)]
pub enum VolumeDescriptorType {
    BootRecord,
    PrimaryVolumeDescriptor,
    SupplementaryVolumeDescriptor,
    VolumePartitionDescriptor,
    VolumeSetTerminator,
    Unknown(u8),
}

impl VolumeDescriptorType {
    /// The byte that stands for the kind.
    pub open spec fn spec_to_u8(self) -> u8 {
        match self {
            Self::BootRecord => 0x00,
            Self::PrimaryVolumeDescriptor => 0x01,
            Self::SupplementaryVolumeDescriptor => 0x02,
            Self::VolumePartitionDescriptor => 0x03,
            Self::VolumeSetTerminator => 0xFF,
            Self::Unknown(value) => value,
        }
    }

    /// The kind that the byte `value` stands for.
    pub open spec fn spec_from_u8(value: u8) -> Self {
        if value == 0x00 {
            Self::BootRecord
        } else if value == 0x01 {
            Self::PrimaryVolumeDescriptor
        } else if value == 0x02 {
            Self::SupplementaryVolumeDescriptor
        } else if value == 0x03 {
            Self::VolumePartitionDescriptor
        } else if value == 0xFF {
            Self::VolumeSetTerminator
        } else {
            Self::Unknown(value)
        }
    }

    /// The byte that stands for the kind.
    pub fn to_u8(self) -> (value: u8)
        ensures
            value == self.spec_to_u8(),
    {
        match self {
            Self::BootRecord => 0x00,
            Self::PrimaryVolumeDescriptor => 0x01,
            Self::SupplementaryVolumeDescriptor => 0x02,
            Self::VolumePartitionDescriptor => 0x03,
            Self::VolumeSetTerminator => 0xFF,
            Self::Unknown(value) => value,
        }
    }

    /// The kind that the byte `value` stands for.
    pub fn from_u8(value: u8) -> (kind: Self)
        ensures
            kind == Self::spec_from_u8(value),
    {
        match value {
            0x00 => Self::BootRecord,
            0x01 => Self::PrimaryVolumeDescriptor,
            0x02 => Self::SupplementaryVolumeDescriptor,
            0x03 => Self::VolumePartitionDescriptor,
            0xFF => Self::VolumeSetTerminator,
            value => Self::Unknown(value),
        }
    }

    /// The byte of the kind of a byte is that byte.
    pub proof fn byte_round_trip(value: u8)
        ensures
            Self::spec_from_u8(value).spec_to_u8() == value,
    {
    }
}

/// The five bytes `CD001` that every volume descriptor carries.
pub open spec fn standard_identifier() -> Seq<u8> {
    seq![0x43u8, 0x44u8, 0x30u8, 0x30u8, 0x31u8]
}

/// The seven bytes at the head of a volume descriptor of the kind byte `kind`.
pub open spec fn descriptor_header_bytes(kind: u8) -> Seq<u8> {
    seq![kind] + standard_identifier() + seq![1u8]
}

/// The first seven bytes of a volume descriptor.
#[derive(Clone, Copy)]
pub struct VolumeDescriptorHeader {
    pub descriptor_type: u8,
    pub standard_identifier: IsoStrA<5>,
    pub version: u8,
}

impl VolumeDescriptorHeader {
    /// The seven bytes of the header.
    pub open spec fn encoding(&self) -> Seq<u8> {
        seq![self.descriptor_type] + self.standard_identifier.bytes() + seq![self.version]
    }

    /// Whether the header carries `CD001`.
    pub open spec fn spec_is_valid(&self) -> bool {
        self.standard_identifier.bytes() == standard_identifier()
    }

    /// The header always holds seven bytes.
    pub proof fn encoding_len(&self)
        ensures
            self.encoding().len() == 7,
    {
        self.standard_identifier.bytes_len();
    }

    /// The header of a descriptor of the kind `ty`, with `CD001` and version 1.
    pub fn new(ty: VolumeDescriptorType) -> (header: Self)
        ensures
            header.encoding() == descriptor_header_bytes(ty.spec_to_u8()),
            header.spec_is_valid(),
    {
        let id: [u8; 5] = [0x43, 0x44, 0x30, 0x30, 0x31];
        let header = Self {
            descriptor_type: ty.to_u8(),
            standard_identifier: IsoStrA::from_bytes_exact(id),
            version: 1,
        };
        assert(id@ =~= standard_identifier());
        header
    }

    /// Whether the header carries `CD001`.
    pub fn is_valid(&self) -> (valid: bool)
        ensures
            valid == self.spec_is_valid(),
    {
        let id: [u8; 5] = [0x43, 0x44, 0x30, 0x30, 0x31];
        assert(id@ =~= standard_identifier());
        crate::raw::same_bytes(self.standard_identifier.as_bytes(), id.as_slice())
    }

    /// The header that the seven bytes of `bytes` hold.
    pub fn from_bytes(bytes: &[u8]) -> (header: Self)
        requires
            bytes@.len() == 7,
        ensures
            header.encoding() == bytes@,
    {
        Self::load(bytes, 0)
    }

    /// The header that the seven bytes of `bytes` from `at` on hold.
    pub fn load(bytes: &[u8], at: usize) -> (header: Self)
        requires
            at + 7 <= bytes@.len(),
        ensures
            header.encoding() == bytes@.subrange(at as int, at + 7),
            header.descriptor_type == bytes@[at as int],
            header.standard_identifier.bytes() == bytes@.subrange(at + 1, at + 6),
    {
        let total = bytes.len();
        let header = Self {
            descriptor_type: bytes[at],
            standard_identifier: IsoStrA::load(bytes, at + 1),
            version: bytes[at + 6],
        };
        assert(header.encoding() =~= bytes@.subrange(at as int, at + 7));
        header
    }

    /// Appends the seven bytes of the header to `out`.
    pub fn store(&self, out: &mut Vec<u8>)
        ensures
            final(out)@ == old(out)@ + self.encoding(),
    {
        out.push(self.descriptor_type);
        self.standard_identifier.store(out);
        out.push(self.version);
        assert(out@ =~= old(out)@ + self.encoding());
    }
}

/// A volume descriptor of a kind that this library does not read further.
#[derive(Clone, Copy)]
pub struct UnknownVolumeDescriptor {
    header: VolumeDescriptorHeader,
    data: [u8; 2041],
}

impl UnknownVolumeDescriptor {
    /// The 2048 bytes of the descriptor.
    pub closed spec fn encoding(&self) -> Seq<u8> {
        self.header.encoding() + self.data@
    }

    /// The header of the descriptor.
    pub closed spec fn spec_header(&self) -> VolumeDescriptorHeader {
        self.header
    }

    /// The descriptor always holds 2048 bytes, of which the header is the first seven.
    pub proof fn encoding_len(&self)
        ensures
            self.encoding().len() == 2048,
            self.encoding().subrange(0, 7) == self.spec_header().encoding(),
    {
        self.header.encoding_len();
        assert(self.encoding().subrange(0, 7) =~= self.header.encoding());
    }

    /// The header of the descriptor.
    pub fn header(&self) -> (header: VolumeDescriptorHeader)
        ensures
            header == self.spec_header(),
    {
        self.header
    }

    /// The descriptor that the 2048 bytes of `bytes` from `at` on hold.
    pub fn load(bytes: &[u8], at: usize) -> (d: Self)
        requires
            at + 2048 <= bytes@.len(),
        ensures
            d.encoding() == bytes@.subrange(at as int, at + 2048),
    {
        let total = bytes.len();
        let d = Self {
            header: VolumeDescriptorHeader::load(bytes, at),
            data: load_array::<2041>(bytes, at + 7),
        };
        assert(d.encoding() =~= bytes@.subrange(at as int, at + 2048));
        d
    }

    /// Appends the 2048 bytes of the descriptor to `out`.
    pub fn store(&self, out: &mut Vec<u8>)
        ensures
            final(out)@ == old(out)@ + self.encoding(),
    {
        self.header.store(out);
        out.extend_from_slice(self.data.as_slice());
    }
}

/// The eight bytes `ISOIMAGE`, the volume identifier of every image that is written.
pub open spec fn volume_name() -> Seq<u8> {
    seq![0x49u8, 0x53u8, 0x4Fu8, 0x49u8, 0x4Du8, 0x41u8, 0x47u8, 0x45u8]
}

/// The six bytes `ISO-RS`, the application identifier of every image that is written.
pub open spec fn application_name() -> Seq<u8> {
    seq![0x49u8, 0x53u8, 0x4Fu8, 0x2Du8, 0x52u8, 0x53u8]
}

/// The first 156 bytes of a primary volume descriptor of a volume of `sectors`
/// blocks, whose path tables have `table_size` bytes and begin at the blocks
/// `l_table` and `m_table`.
pub open spec fn primary_head_bytes(sectors: u32, table_size: u32, l_table: u32, m_table: u32) -> Seq<
    u8,
> {
    descriptor_header_bytes(1) + seq![0u8] + space_padded(Seq::empty(), 32) + space_padded(
        volume_name(),
        32,
    ) + zeros(8) + both_u32(sectors) + zeros(32) + both_u16(1) + both_u16(1) + both_u16(2048)
        + both_u32(table_size) + u32_le(l_table) + u32_le(0) + u32_be(m_table) + u32_be(0)
}

/// The 623 bytes of identifiers that follow the root record in a primary volume
/// descriptor.
pub open spec fn primary_identifier_bytes() -> Seq<u8> {
    space_padded(Seq::empty(), 128) + space_padded(Seq::empty(), 128) + space_padded(
        Seq::empty(),
        128,
    ) + space_padded(application_name(), 128) + space_padded(Seq::empty(), 37) + space_padded(
        Seq::empty(),
        37,
    ) + space_padded(Seq::empty(), 37)
}

/// The 2048 bytes of the primary volume descriptor of a volume of `sectors` blocks
/// with the root record `root`, whose path tables have `table_size` bytes and begin at
/// the blocks `l_table` and `m_table`, and whose four dates are `created`, `modified`,
/// `expires` and `effective`.
#[verifier::opaque]
pub open spec fn primary_bytes(
    sectors: u32,
    root: Seq<u8>,
    table_size: u32,
    l_table: u32,
    m_table: u32,
    created: Seq<u8>,
    modified: Seq<u8>,
    expires: Seq<u8>,
    effective: Seq<u8>,
) -> Seq<u8> {
    primary_head_bytes(sectors, table_size, l_table, m_table) + root + primary_identifier_bytes()
        + created + modified + expires + effective + seq![1u8, 0u8] + zeros(512) + zeros(653)
}

/// A primary volume descriptor has 2048 bytes, where its root record has 34 and each
/// of its dates has 17.
pub proof fn primary_bytes_len(
    sectors: u32,
    root: Seq<u8>,
    table_size: u32,
    l_table: u32,
    m_table: u32,
    created: Seq<u8>,
    modified: Seq<u8>,
    expires: Seq<u8>,
    effective: Seq<u8>,
)
    requires
        root.len() == 34,
        created.len() == 17,
        modified.len() == 17,
        expires.len() == 17,
        effective.len() == 17,
    ensures
        primary_head_bytes(sectors, table_size, l_table, m_table).len() == 156,
        primary_identifier_bytes().len() == 623,
        primary_bytes(
            sectors,
            root,
            table_size,
            l_table,
            m_table,
            created,
            modified,
            expires,
            effective,
        ).len() == 2048,
{
    reveal(primary_bytes);
    crate::types::u32_round_trip(sectors);
    crate::types::u32_round_trip(table_size);
    crate::types::u32_round_trip(l_table);
    crate::types::u32_round_trip(m_table);
    crate::types::u32_round_trip(0);
    crate::types::u16_round_trip(1);
    crate::types::u16_round_trip(2048);
    assert(primary_head_bytes(sectors, table_size, l_table, m_table).len() == 156);
    assert(primary_identifier_bytes().len() == 623);
}

/// What stands where in a primary volume descriptor: the kind byte one and `CD001`
/// at its head, the size and the places of the path tables, and the root record from
/// the byte 156 on.
pub proof fn primary_bytes_fields(
    sectors: u32,
    root: Seq<u8>,
    table_size: u32,
    l_table: u32,
    m_table: u32,
    created: Seq<u8>,
    modified: Seq<u8>,
    expires: Seq<u8>,
    effective: Seq<u8>,
)
    requires
        root.len() == 34,
        created.len() == 17,
        modified.len() == 17,
        expires.len() == 17,
        effective.len() == 17,
    ensures
        ({
            let p = primary_bytes(
                sectors,
                root,
                table_size,
                l_table,
                m_table,
                created,
                modified,
                expires,
                effective,
            );
            &&& p.len() == 2048
            &&& p[0] == 1
            &&& p.subrange(1, 6) == standard_identifier()
            &&& le_u32(p.subrange(80, 84)) == sectors
            &&& be_u32(p.subrange(84, 88)) == sectors
            &&& le_u16(p.subrange(120, 122)) == 1
            &&& be_u16(p.subrange(122, 124)) == 1
            &&& le_u16(p.subrange(124, 126)) == 1
            &&& be_u16(p.subrange(126, 128)) == 1
            &&& le_u16(p.subrange(128, 130)) == 2048
            &&& be_u16(p.subrange(130, 132)) == 2048
            &&& le_u32(p.subrange(132, 136)) == table_size
            &&& be_u32(p.subrange(136, 140)) == table_size
            &&& le_u32(p.subrange(140, 144)) == l_table
            &&& be_u32(p.subrange(148, 152)) == m_table
            &&& p.subrange(156, 190) == root
        }),
{
    let p = primary_bytes(
        sectors,
        root,
        table_size,
        l_table,
        m_table,
        created,
        modified,
        expires,
        effective,
    );
    primary_bytes_len(
        sectors,
        root,
        table_size,
        l_table,
        m_table,
        created,
        modified,
        expires,
        effective,
    );
    reveal(primary_bytes);
    let h = primary_head_bytes(sectors, table_size, l_table, m_table);
    assert(p.subrange(0, 156) =~= h);
    assert(p.subrange(156, 190) =~= root);
    crate::types::u32_round_trip(sectors);
    crate::types::u32_round_trip(table_size);
    crate::types::u32_round_trip(l_table);
    crate::types::u32_round_trip(m_table);
    crate::types::u32_round_trip(0);
    crate::types::u16_round_trip(1);
    crate::types::u16_round_trip(2048);
    assert(h[0] == 1);
    assert(h.subrange(1, 6) =~= standard_identifier());
    assert(h.subrange(80, 84) =~= u32_le(sectors));
    assert(h.subrange(84, 88) =~= u32_be(sectors));
    assert(h.subrange(120, 122) =~= crate::types::u16_le(1));
    assert(h.subrange(122, 124) =~= crate::types::u16_be(1));
    assert(h.subrange(124, 126) =~= crate::types::u16_le(1));
    assert(h.subrange(126, 128) =~= crate::types::u16_be(1));
    assert(h.subrange(128, 130) =~= crate::types::u16_le(2048));
    assert(h.subrange(130, 132) =~= crate::types::u16_be(2048));
    assert(h.subrange(132, 136) =~= u32_le(table_size));
    assert(h.subrange(136, 140) =~= u32_be(table_size));
    assert(h.subrange(140, 144) =~= u32_le(l_table));
    assert(h.subrange(148, 152) =~= u32_be(m_table));
    crate::raw::part_of_part(p, 0, 156, 1, 6);
    crate::raw::part_of_part(p, 0, 156, 80, 84);
    crate::raw::part_of_part(p, 0, 156, 84, 88);
    crate::raw::part_of_part(p, 0, 156, 120, 122);
    crate::raw::part_of_part(p, 0, 156, 122, 124);
    crate::raw::part_of_part(p, 0, 156, 124, 126);
    crate::raw::part_of_part(p, 0, 156, 126, 128);
    crate::raw::part_of_part(p, 0, 156, 128, 130);
    crate::raw::part_of_part(p, 0, 156, 130, 132);
    crate::raw::part_of_part(p, 0, 156, 132, 136);
    crate::raw::part_of_part(p, 0, 156, 136, 140);
    crate::raw::part_of_part(p, 0, 156, 140, 144);
    crate::raw::part_of_part(p, 0, 156, 148, 152);
    assert(p[0] == h[0]);
}

/// The primary volume descriptor.
#[derive(Clone, Copy)]
pub struct PrimaryVolumeDescriptor {
    pub header: VolumeDescriptorHeader,
    pub unused0: u8,
    pub system_identifier: IsoStrA<32>,
    pub volume_identifier: IsoStrD<32>,
    pub unused1: [u8; 8],
    pub volume_space_size: U32LsbMsb,
    pub unused2: [u8; 32],
    pub volume_set_size: U16LsbMsb,
    pub volume_sequence_number: U16LsbMsb,
    pub logical_block_size: U16LsbMsb,
    pub path_table_size: U32LsbMsb,
    pub type_l_path_table: U32<LittleEndian>,
    pub opt_type_l_path_table: U32<LittleEndian>,
    pub type_m_path_table: U32<BigEndian>,
    pub opt_type_m_path_table: U32<BigEndian>,
    pub dir_record: RootDirectoryEntry,
    pub volume_set_identifier: IsoStrD<128>,
    pub publisher_identifier: IsoStrA<128>,
    pub preparer_identifier: IsoStrA<128>,
    pub application_identifier: IsoStrA<128>,
    pub copyright_file_identifier: IsoStrD<37>,
    pub abstract_file_identifier: IsoStrD<37>,
    pub bibliographic_file_identifier: IsoStrD<37>,
    pub creation_date: DecDateTime,
    pub modification_date: DecDateTime,
    pub expiration_date: DecDateTime,
    pub effective_date: DecDateTime,
    pub file_structure_version: u8,
    pub unused3: u8,
    pub app_data: [u8; 512],
    pub reserved: [u8; 653],
}

impl PrimaryVolumeDescriptor {
    /// The first 156 bytes of the descriptor: all that stands before the root record.
    pub open spec fn head_encoding(&self) -> Seq<u8> {
        self.header.encoding() + seq![self.unused0] + self.system_identifier.bytes()
            + self.volume_identifier.bytes() + self.unused1@ + self.volume_space_size.layout()
            + self.unused2@ + self.volume_set_size.layout() + self.volume_sequence_number.layout()
            + self.logical_block_size.layout() + self.path_table_size.layout()
            + self.type_l_path_table.layout() + self.opt_type_l_path_table.layout()
            + self.type_m_path_table.layout() + self.opt_type_m_path_table.layout()
    }

    /// The 623 bytes of identifiers that follow the root record.
    pub open spec fn identifier_encoding(&self) -> Seq<u8> {
        self.volume_set_identifier.bytes() + self.publisher_identifier.bytes()
            + self.preparer_identifier.bytes() + self.application_identifier.bytes()
            + self.copyright_file_identifier.bytes() + self.abstract_file_identifier.bytes()
            + self.bibliographic_file_identifier.bytes()
    }

    /// The 2048 bytes of the descriptor.
    pub open spec fn encoding(&self) -> Seq<u8> {
        self.head_encoding() + self.dir_record.encoding() + self.identifier_encoding()
            + self.creation_date.encoding() + self.modification_date.encoding()
            + self.expiration_date.encoding() + self.effective_date.encoding() + seq![
            self.file_structure_version,
            self.unused3,
        ] + self.app_data@ + self.reserved@
    }

    /// Whether each number of the descriptor is the same in both byte orders.
    pub open spec fn consistent(&self) -> bool {
        &&& self.volume_space_size.consistent()
        &&& self.volume_set_size.consistent()
        &&& self.volume_sequence_number.consistent()
        &&& self.logical_block_size.consistent()
        &&& self.path_table_size.consistent()
        &&& self.dir_record.header.consistent()
    }

    /// The lengths of the parts of the descriptor.
    pub proof fn encoding_len(&self)
        ensures
            self.head_encoding().len() == 156,
            self.identifier_encoding().len() == 623,
            self.encoding().len() == 2048,
            self.encoding().subrange(0, 7) == self.header.encoding(),
    {
        self.header.encoding_len();
        self.system_identifier.bytes_len();
        self.volume_identifier.bytes_len();
        self.volume_space_size.layout_laws();
        self.volume_set_size.layout_laws();
        self.volume_sequence_number.layout_laws();
        self.logical_block_size.layout_laws();
        self.path_table_size.layout_laws();
        self.type_l_path_table.layout_laws(0);
        self.opt_type_l_path_table.layout_laws(0);
        self.type_m_path_table.layout_laws(0);
        self.opt_type_m_path_table.layout_laws(0);
        self.dir_record.encoding_len();
        self.volume_set_identifier.bytes_len();
        self.publisher_identifier.bytes_len();
        self.preparer_identifier.bytes_len();
        self.application_identifier.bytes_len();
        self.copyright_file_identifier.bytes_len();
        self.abstract_file_identifier.bytes_len();
        self.bibliographic_file_identifier.bytes_len();
        self.creation_date.encoding_len();
        self.modification_date.encoding_len();
        self.expiration_date.encoding_len();
        self.effective_date.encoding_len();
        assert(self.head_encoding().len() == 156);
        assert(self.identifier_encoding().len() == 623);
        assert(self.encoding().subrange(0, 7) =~= self.header.encoding());
    }
}

impl PrimaryVolumeDescriptor {
    /// Whether each number of the primary volume descriptor that stands in `bytes` at
    /// `at` is the same in both byte orders.
    pub open spec fn consistent_at(bytes: Seq<u8>, at: int) -> bool {
        &&& le_u32(bytes.subrange(at + 80, at + 84)) == be_u32(bytes.subrange(at + 84, at + 88))
        &&& le_u16(bytes.subrange(at + 120, at + 122)) == be_u16(
            bytes.subrange(at + 122, at + 124),
        )
        &&& le_u16(bytes.subrange(at + 124, at + 126)) == be_u16(
            bytes.subrange(at + 126, at + 128),
        )
        &&& le_u16(bytes.subrange(at + 128, at + 130)) == be_u16(
            bytes.subrange(at + 130, at + 132),
        )
        &&& le_u32(bytes.subrange(at + 132, at + 136)) == be_u32(
            bytes.subrange(at + 136, at + 140),
        )
        &&& crate::directory::DirectoryRecordHeader::consistent_at(bytes, at + 156)
    }

    /// Where the numbers of the descriptor stand in its first 156 bytes.
    pub proof fn head_fields(&self)
        ensures
            self.head_encoding().len() == 156,
            self.volume_space_size.layout() == self.head_encoding().subrange(80, 88),
            self.volume_set_size.layout() == self.head_encoding().subrange(120, 124),
            self.volume_sequence_number.layout() == self.head_encoding().subrange(124, 128),
            self.logical_block_size.layout() == self.head_encoding().subrange(128, 132),
            self.path_table_size.layout() == self.head_encoding().subrange(132, 140),
            self.type_l_path_table.layout() == self.head_encoding().subrange(140, 144),
            self.type_m_path_table.layout() == self.head_encoding().subrange(148, 152),
    {
        self.encoding_len();
        self.header.encoding_len();
        self.system_identifier.bytes_len();
        self.volume_identifier.bytes_len();
        self.volume_space_size.layout_laws();
        self.volume_set_size.layout_laws();
        self.volume_sequence_number.layout_laws();
        self.logical_block_size.layout_laws();
        self.path_table_size.layout_laws();
        self.type_l_path_table.layout_laws(0);
        self.opt_type_l_path_table.layout_laws(0);
        self.type_m_path_table.layout_laws(0);
        self.opt_type_m_path_table.layout_laws(0);
        let h = self.head_encoding();
        assert(h.subrange(80, 88) =~= self.volume_space_size.layout());
        assert(h.subrange(120, 124) =~= self.volume_set_size.layout());
        assert(h.subrange(124, 128) =~= self.volume_sequence_number.layout());
        assert(h.subrange(128, 132) =~= self.logical_block_size.layout());
        assert(h.subrange(132, 140) =~= self.path_table_size.layout());
        assert(h.subrange(140, 144) =~= self.type_l_path_table.layout());
        assert(h.subrange(148, 152) =~= self.type_m_path_table.layout());
    }

    /// What the descriptor holds, by its own bytes.
    pub proof fn fields(&self)
        ensures
            self.encoding().len() == 2048,
            self.volume_space_size.lsb_value() == le_u32(self.encoding().subrange(80, 84)),
            self.volume_space_size.msb_value() == be_u32(self.encoding().subrange(84, 88)),
            self.volume_set_size.lsb_value() == le_u16(self.encoding().subrange(120, 122)),
            self.volume_set_size.msb_value() == be_u16(self.encoding().subrange(122, 124)),
            self.volume_sequence_number.lsb_value() == le_u16(self.encoding().subrange(124, 126)),
            self.volume_sequence_number.msb_value() == be_u16(self.encoding().subrange(126, 128)),
            self.logical_block_size.lsb_value() == le_u16(self.encoding().subrange(128, 130)),
            self.logical_block_size.msb_value() == be_u16(self.encoding().subrange(130, 132)),
            self.path_table_size.lsb_value() == le_u32(self.encoding().subrange(132, 136)),
            self.path_table_size.msb_value() == be_u32(self.encoding().subrange(136, 140)),
            self.type_l_path_table.value() == le_u32(self.encoding().subrange(140, 144)),
            self.type_m_path_table.value() == be_u32(self.encoding().subrange(148, 152)),
            self.dir_record.header.encoding() == self.encoding().subrange(156, 189),
    {
        self.head_fields();
        self.encoding_len();
        self.dir_record.encoding_len();
        self.dir_record.header.encoding_len();
        let e = self.encoding();
        let h = self.head_encoding();
        assert(e.subrange(0, 156) =~= h);
        assert(e.subrange(156, 189) =~= self.dir_record.header.encoding());
        crate::types::u32_pair_values(&self.volume_space_size);
        crate::types::u32_pair_values(&self.path_table_size);
        crate::types::u16_pair_values(&self.volume_set_size);
        crate::types::u16_pair_values(&self.volume_sequence_number);
        crate::types::u16_pair_values(&self.logical_block_size);
        crate::raw::part_of_part(e, 0, 156, 80, 88);
        crate::raw::part_of_part(e, 0, 156, 120, 124);
        crate::raw::part_of_part(e, 0, 156, 124, 128);
        crate::raw::part_of_part(e, 0, 156, 128, 132);
        crate::raw::part_of_part(e, 0, 156, 132, 140);
        crate::raw::part_of_part(e, 0, 156, 140, 144);
        crate::raw::part_of_part(e, 0, 156, 148, 152);
        crate::raw::part_of_part(e, 80, 8, 0, 4);
        crate::raw::part_of_part(e, 80, 8, 4, 8);
        crate::raw::part_of_part(e, 120, 4, 0, 2);
        crate::raw::part_of_part(e, 120, 4, 2, 4);
        crate::raw::part_of_part(e, 124, 4, 0, 2);
        crate::raw::part_of_part(e, 124, 4, 2, 4);
        crate::raw::part_of_part(e, 128, 4, 0, 2);
        crate::raw::part_of_part(e, 128, 4, 2, 4);
        crate::raw::part_of_part(e, 132, 8, 0, 4);
        crate::raw::part_of_part(e, 132, 8, 4, 8);
    }

    /// What a descriptor that was read from `bytes` at `at` holds, by the bytes there.
    pub proof fn fields_at(&self, bytes: Seq<u8>, at: int)
        requires
            0 <= at,
            at + 2048 <= bytes.len(),
            self.encoding() == bytes.subrange(at, at + 2048),
        ensures
            self.consistent() == Self::consistent_at(bytes, at),
            self.path_table_size.lsb_value() == le_u32(bytes.subrange(at + 132, at + 136)),
            self.type_l_path_table.value() == le_u32(bytes.subrange(at + 140, at + 144)),
            self.type_m_path_table.value() == be_u32(bytes.subrange(at + 148, at + 152)),
            self.dir_record.header.extent.lsb_value() == le_u32(
                bytes.subrange(at + 158, at + 162),
            ),
            self.dir_record.header.data_len.lsb_value() == le_u32(
                bytes.subrange(at + 166, at + 170),
            ),
    {
        self.fields();
        crate::raw::part_of_part(bytes, at, 2048, 80, 84);
        crate::raw::part_of_part(bytes, at, 2048, 84, 88);
        crate::raw::part_of_part(bytes, at, 2048, 120, 122);
        crate::raw::part_of_part(bytes, at, 2048, 122, 124);
        crate::raw::part_of_part(bytes, at, 2048, 124, 126);
        crate::raw::part_of_part(bytes, at, 2048, 126, 128);
        crate::raw::part_of_part(bytes, at, 2048, 128, 130);
        crate::raw::part_of_part(bytes, at, 2048, 130, 132);
        crate::raw::part_of_part(bytes, at, 2048, 132, 136);
        crate::raw::part_of_part(bytes, at, 2048, 136, 140);
        crate::raw::part_of_part(bytes, at, 2048, 140, 144);
        crate::raw::part_of_part(bytes, at, 2048, 148, 152);
        crate::raw::part_of_part(bytes, at, 2048, 156, 189);
        self.dir_record.header.fields_at(bytes, at + 156);
    }

    /// Whether each number of the descriptor is the same in both byte orders.
    pub fn is_consistent(&self) -> (same: bool)
        ensures
            same == self.consistent(),
    {
        self.volume_space_size.read_lsb() == self.volume_space_size.read_msb()
            && self.volume_set_size.read_lsb() == self.volume_set_size.read_msb()
            && self.volume_sequence_number.read_lsb() == self.volume_sequence_number.read_msb()
            && self.logical_block_size.read_lsb() == self.logical_block_size.read_msb()
            && self.path_table_size.read_lsb() == self.path_table_size.read_msb()
            && self.dir_record.header.is_consistent()
    }

    /// The descriptor of a volume of `sectors` blocks with the four given dates, in
    /// which the root record and the places of the path tables are still zero.
    pub fn with_dates(
        sectors: u32,
        created: DecDateTime,
        modified: DecDateTime,
        expires: DecDateTime,
        effective: DecDateTime,
    ) -> (d: Self)
        ensures
            d.encoding() == primary_bytes(
                sectors,
                zeros(34),
                0,
                0,
                0,
                created.encoding(),
                modified.encoding(),
                expires.encoding(),
                effective.encoding(),
            ),
            d.consistent(),
            d.header.spec_is_valid(),
            d.creation_date == created,
            d.modification_date == modified,
            d.expiration_date == expires,
            d.effective_date == effective,
    {
        Self::describe(
            sectors,
            RootDirectoryEntry::default(),
            0,
            0,
            0,
            created,
            modified,
            expires,
            effective,
        )
    }

    /// The descriptor of a volume of `sectors` blocks with the root record `root`,
    /// whose path tables have `table_size` bytes and begin at the blocks `l_table` and
    /// `m_table`, with the four given dates.
    pub fn describe(
        sectors: u32,
        root: RootDirectoryEntry,
        table_size: u32,
        l_table: u32,
        m_table: u32,
        created: DecDateTime,
        modified: DecDateTime,
        expires: DecDateTime,
        effective: DecDateTime,
    ) -> (d: Self)
        ensures
            d.encoding() == primary_bytes(
                sectors,
                root.encoding(),
                table_size,
                l_table,
                m_table,
                created.encoding(),
                modified.encoding(),
                expires.encoding(),
                effective.encoding(),
            ),
            root.header.consistent() ==> d.consistent(),
            d.header.spec_is_valid(),
            d.dir_record == root,
            d.creation_date == created,
            d.modification_date == modified,
            d.expiration_date == expires,
            d.effective_date == effective,
            d.path_table_size.lsb_value() == table_size,
            d.type_l_path_table.value() == l_table,
            d.type_m_path_table.value() == m_table,
    {
        let volume: [u8; 8] = [0x49, 0x53, 0x4F, 0x49, 0x4D, 0x41, 0x47, 0x45];
        let application: [u8; 6] = [0x49, 0x53, 0x4F, 0x2D, 0x52, 0x53];
        assert(volume@ =~= volume_name());
        assert(application@ =~= application_name());
        let d = Self {
            header: VolumeDescriptorHeader::new(VolumeDescriptorType::PrimaryVolumeDescriptor),
            unused0: 0,
            system_identifier: IsoStrA::empty(),
            volume_identifier: IsoStrD::padded(volume.as_slice()),
            unused1: [0; 8],
            volume_space_size: U32LsbMsb::new(sectors),
            unused2: [0; 32],
            volume_set_size: U16LsbMsb::new(1),
            volume_sequence_number: U16LsbMsb::new(1),
            logical_block_size: U16LsbMsb::new(2048),
            path_table_size: U32LsbMsb::new(table_size),
            type_l_path_table: U32::<LittleEndian>::new(l_table),
            opt_type_l_path_table: U32::<LittleEndian>::new(0),
            type_m_path_table: U32::<BigEndian>::new(m_table),
            opt_type_m_path_table: U32::<BigEndian>::new(0),
            dir_record: root,
            volume_set_identifier: IsoStrD::empty(),
            publisher_identifier: IsoStrA::empty(),
            preparer_identifier: IsoStrA::empty(),
            application_identifier: IsoStrA::padded(application.as_slice()),
            copyright_file_identifier: IsoStrD::empty(),
            abstract_file_identifier: IsoStrD::empty(),
            bibliographic_file_identifier: IsoStrD::empty(),
            creation_date: created,
            modification_date: modified,
            expiration_date: expires,
            effective_date: effective,
            file_structure_version: 1,
            unused3: 0,
            app_data: [0; 512],
            reserved: [0; 653],
        };
        proof {
            crate::types::u32_pair_layout(sectors);
            crate::types::u32_pair_layout(table_size);
            crate::types::u16_pair_layout(1);
            crate::types::u16_pair_layout(2048);
            assert(d.unused1@ =~= zeros(8));
            assert(d.unused2@ =~= zeros(32));
            assert(d.app_data@ =~= zeros(512));
            assert(d.reserved@ =~= zeros(653));
            assert(d.head_encoding() =~= primary_head_bytes(sectors, table_size, l_table, m_table));
            assert(d.identifier_encoding() =~= primary_identifier_bytes());
            reveal(primary_bytes);
        }
        d
    }

    /// The descriptor of a volume of `sectors` blocks, dated by the system clock. It
    /// fails where the clock's reading cannot be written down, as `DecDateTime::now`
    /// does.
    pub fn new(sectors: u32) -> (r: Result<Self, IsoError>)
        ensures
            r matches Ok(d) ==> d.creation_date.is_reading() && d.modification_date.is_reading()
                && d.expiration_date.is_reading() && d.effective_date.is_reading(),
            r matches Ok(d) ==> d.consistent() && d.header.spec_is_valid() && d.encoding()
                == primary_bytes(
                sectors,
                zeros(34),
                0,
                0,
                0,
                d.creation_date.encoding(),
                d.modification_date.encoding(),
                d.expiration_date.encoding(),
                d.effective_date.encoding(),
            ),
            r matches Err(e) ==> e == IsoError::IdentifierTooLong || e
                == IsoError::InvalidCharacter,
    {
        let created = match DecDateTime::now() {
            Ok(date) => date,
            Err(e) => {
                return Err(e);
            },
        };
        let modified = match DecDateTime::now() {
            Ok(date) => date,
            Err(e) => {
                return Err(e);
            },
        };
        let expires = match DecDateTime::now() {
            Ok(date) => date,
            Err(e) => {
                return Err(e);
            },
        };
        let effective = match DecDateTime::now() {
            Ok(date) => date,
            Err(e) => {
                return Err(e);
            },
        };
        Ok(Self::with_dates(sectors, created, modified, expires, effective))
    }

    /// Appends the first 156 bytes of the descriptor to `out`.
    fn store_head(&self, out: &mut Vec<u8>)
        ensures
            final(out)@ == old(out)@ + self.head_encoding(),
    {
        self.header.store(out);
        out.push(self.unused0);
        self.system_identifier.store(out);
        self.volume_identifier.store(out);
        out.extend_from_slice(self.unused1.as_slice());
        self.volume_space_size.store(out);
        out.extend_from_slice(self.unused2.as_slice());
        let ghost first = out@;
        self.volume_set_size.store(out);
        self.volume_sequence_number.store(out);
        self.logical_block_size.store(out);
        self.path_table_size.store(out);
        self.type_l_path_table.store(out);
        self.opt_type_l_path_table.store(out);
        self.type_m_path_table.store(out);
        self.opt_type_m_path_table.store(out);
        assert(out@ =~= old(out)@ + self.head_encoding());
    }

    /// Appends the 623 bytes of identifiers to `out`.
    fn store_identifiers(&self, out: &mut Vec<u8>)
        ensures
            final(out)@ == old(out)@ + self.identifier_encoding(),
    {
        self.volume_set_identifier.store(out);
        self.publisher_identifier.store(out);
        self.preparer_identifier.store(out);
        self.application_identifier.store(out);
        self.copyright_file_identifier.store(out);
        self.abstract_file_identifier.store(out);
        self.bibliographic_file_identifier.store(out);
        assert(out@ =~= old(out)@ + self.identifier_encoding());
    }

    /// Appends the 2048 bytes of the descriptor to `out`.
    pub fn store(&self, out: &mut Vec<u8>)
        ensures
            final(out)@ == old(out)@ + self.encoding(),
    {
        self.store_head(out);
        self.dir_record.store(out);
        self.store_identifiers(out);
        self.creation_date.store(out);
        self.modification_date.store(out);
        self.expiration_date.store(out);
        self.effective_date.store(out);
        out.push(self.file_structure_version);
        out.push(self.unused3);
        out.extend_from_slice(self.app_data.as_slice());
        out.extend_from_slice(self.reserved.as_slice());
        assert(out@ =~= old(out)@ + self.encoding());
    }

    /// The descriptor that the 2048 bytes of `bytes` from `at` on hold.
    pub fn load(bytes: &[u8], at: usize) -> (d: Self)
        requires
            at + 2048 <= bytes@.len(),
        ensures
            d.encoding() == bytes@.subrange(at as int, at + 2048),
    {
        let total = bytes.len();
        let d = Self {
            header: VolumeDescriptorHeader::load(bytes, at),
            unused0: bytes[at + 7],
            system_identifier: IsoStrA::load(bytes, at + 8),
            volume_identifier: IsoStrD::load(bytes, at + 40),
            unused1: load_array::<8>(bytes, at + 72),
            volume_space_size: U32LsbMsb::load(bytes, at + 80),
            unused2: load_array::<32>(bytes, at + 88),
            volume_set_size: U16LsbMsb::load(bytes, at + 120),
            volume_sequence_number: U16LsbMsb::load(bytes, at + 124),
            logical_block_size: U16LsbMsb::load(bytes, at + 128),
            path_table_size: U32LsbMsb::load(bytes, at + 132),
            type_l_path_table: U32::<LittleEndian>::load(bytes, at + 140),
            opt_type_l_path_table: U32::<LittleEndian>::load(bytes, at + 144),
            type_m_path_table: U32::<BigEndian>::load(bytes, at + 148),
            opt_type_m_path_table: U32::<BigEndian>::load(bytes, at + 152),
            dir_record: RootDirectoryEntry::load(bytes, at + 156),
            volume_set_identifier: IsoStrD::load(bytes, at + 190),
            publisher_identifier: IsoStrA::load(bytes, at + 318),
            preparer_identifier: IsoStrA::load(bytes, at + 446),
            application_identifier: IsoStrA::load(bytes, at + 574),
            copyright_file_identifier: IsoStrD::load(bytes, at + 702),
            abstract_file_identifier: IsoStrD::load(bytes, at + 739),
            bibliographic_file_identifier: IsoStrD::load(bytes, at + 776),
            creation_date: DecDateTime::load(bytes, at + 813),
            modification_date: DecDateTime::load(bytes, at + 830),
            expiration_date: DecDateTime::load(bytes, at + 847),
            effective_date: DecDateTime::load(bytes, at + 864),
            file_structure_version: bytes[at + 881],
            unused3: bytes[at + 882],
            app_data: load_array::<512>(bytes, at + 883),
            reserved: load_array::<653>(bytes, at + 1395),
        };
        proof {
            d.encoding_len();
            assert(d.head_encoding() =~= bytes@.subrange(at as int, at + 156));
            assert(d.identifier_encoding() =~= bytes@.subrange(at + 190, at + 813));
            assert(d.encoding() =~= bytes@.subrange(at as int, at + 2048));
        }
        d
    }
}

/// The 32 bytes that name the El Torito boot system: `EL TORITO SPECIFICATION` and
/// nine zero bytes.
pub open spec fn el_torito_name() -> Seq<u8> {
    seq![
        0x45u8, 0x4Cu8, 0x20u8, 0x54u8, 0x4Fu8, 0x52u8, 0x49u8, 0x54u8, 0x4Fu8, 0x20u8, 0x53u8,
        0x50u8, 0x45u8, 0x43u8, 0x49u8, 0x46u8, 0x49u8, 0x43u8, 0x41u8, 0x54u8, 0x49u8, 0x4Fu8,
        0x4Eu8, 0u8, 0u8, 0u8, 0u8, 0u8, 0u8, 0u8, 0u8, 0u8,
    ]
}

/// The 2048 bytes of the boot record of a volume whose boot catalogue begins at the
/// block `catalog`.
pub open spec fn boot_record_bytes(catalog: u32) -> Seq<u8> {
    descriptor_header_bytes(0) + el_torito_name() + zeros(32) + u32_le(catalog) + zeros(1973)
}

/// A boot record has 2048 bytes: the kind byte zero and `CD001` at its head, and the
/// block of the boot catalogue in its bytes 71 to 74.
pub proof fn boot_record_bytes_len(catalog: u32)
    ensures
        boot_record_bytes(catalog).len() == 2048,
        boot_record_bytes(catalog)[0] == 0,
        boot_record_bytes(catalog).subrange(1, 6) == standard_identifier(),
        le_u32(boot_record_bytes(catalog).subrange(71, 75)) == catalog,
{
    crate::types::u32_round_trip(catalog);
    assert(boot_record_bytes(catalog).subrange(1, 6) =~= standard_identifier());
    assert(boot_record_bytes(catalog).subrange(71, 75) =~= u32_le(catalog));
}

/// The boot record: the volume descriptor that points to the boot catalogue.
#[derive(Clone, Copy)]
pub struct BootRecordVolumeDescriptor {
    pub header: VolumeDescriptorHeader,
    pub boot_system_identifier: [u8; 32],
    pub unused0: [u8; 32],
    pub catalog_ptr: U32<LittleEndian>,
    pub unused1: [u8; 1973],
}

impl BootRecordVolumeDescriptor {
    /// The 2048 bytes of the descriptor.
    pub open spec fn encoding(&self) -> Seq<u8> {
        self.header.encoding() + self.boot_system_identifier@ + self.unused0@
            + self.catalog_ptr.layout() + self.unused1@
    }

    /// The descriptor always holds 2048 bytes, of which the header is the first seven.
    pub proof fn encoding_len(&self)
        ensures
            self.encoding().len() == 2048,
            self.encoding().subrange(0, 7) == self.header.encoding(),
            self.encoding().subrange(71, 75) == self.catalog_ptr.layout(),
    {
        self.header.encoding_len();
        self.catalog_ptr.layout_laws(0);
        assert(self.encoding().subrange(0, 7) =~= self.header.encoding());
        assert(self.encoding().subrange(71, 75) =~= self.catalog_ptr.layout());
    }

    /// The boot record of a volume whose boot catalogue begins at the block
    /// `catalog_ptr`.
    pub fn new(catalog_ptr: u32) -> (d: Self)
        ensures
            d.encoding() == boot_record_bytes(catalog_ptr),
            d.catalog_ptr.value() == catalog_ptr,
            d.header.spec_is_valid(),
    {
        let name: [u8; 32] = [
            0x45, 0x4C, 0x20, 0x54, 0x4F, 0x52, 0x49, 0x54, 0x4F, 0x20, 0x53, 0x50, 0x45, 0x43,
            0x49, 0x46, 0x49, 0x43, 0x41, 0x54, 0x49, 0x4F, 0x4E, 0, 0, 0, 0, 0, 0, 0, 0, 0,
        ];
        assert(name@ =~= el_torito_name());
        let d = Self {
            header: VolumeDescriptorHeader::new(VolumeDescriptorType::BootRecord),
            boot_system_identifier: name,
            unused0: [0; 32],
            catalog_ptr: U32::<LittleEndian>::new(catalog_ptr),
            unused1: [0; 1973],
        };
        proof {
            assert(d.unused0@ =~= zeros(32));
            assert(d.unused1@ =~= zeros(1973));
        }
        d
    }

    /// Appends the 2048 bytes of the descriptor to `out`.
    pub fn store(&self, out: &mut Vec<u8>)
        ensures
            final(out)@ == old(out)@ + self.encoding(),
    {
        self.header.store(out);
        out.extend_from_slice(self.boot_system_identifier.as_slice());
        out.extend_from_slice(self.unused0.as_slice());
        self.catalog_ptr.store(out);
        out.extend_from_slice(self.unused1.as_slice());
    }

    /// The descriptor that the 2048 bytes of `bytes` from `at` on hold.
    pub fn load(bytes: &[u8], at: usize) -> (d: Self)
        requires
            at + 2048 <= bytes@.len(),
        ensures
            d.encoding() == bytes@.subrange(at as int, at + 2048),
    {
        let total = bytes.len();
        let d = Self {
            header: VolumeDescriptorHeader::load(bytes, at),
            boot_system_identifier: load_array::<32>(bytes, at + 7),
            unused0: load_array::<32>(bytes, at + 39),
            catalog_ptr: U32::<LittleEndian>::load(bytes, at + 71),
            unused1: load_array::<1973>(bytes, at + 75),
        };
        proof {
            d.encoding_len();
            assert(d.encoding() =~= bytes@.subrange(at as int, at + 2048));
        }
        d
    }
}

/// The 2048 bytes of the descriptor that ends the set.
pub open spec fn terminator_bytes() -> Seq<u8> {
    descriptor_header_bytes(0xFF) + zeros(2041)
}

/// The descriptor that ends the set has 2048 bytes, with the kind byte `FF` and
/// `CD001` at its head.
pub proof fn terminator_bytes_len()
    ensures
        terminator_bytes().len() == 2048,
        terminator_bytes()[0] == 0xFF,
        terminator_bytes().subrange(1, 6) == standard_identifier(),
{
    assert(terminator_bytes().subrange(1, 6) =~= standard_identifier());
}

/// The volume descriptor that ends the set.
#[derive(Clone, Copy)]
pub struct VolumeDescriptorSetTerminator {
    header: VolumeDescriptorHeader,
    padding: [u8; 2041],
}

impl VolumeDescriptorSetTerminator {
    /// The 2048 bytes of the descriptor.
    pub closed spec fn encoding(&self) -> Seq<u8> {
        self.header.encoding() + self.padding@
    }

    /// The header of the descriptor.
    pub closed spec fn spec_header(&self) -> VolumeDescriptorHeader {
        self.header
    }

    /// The descriptor always holds 2048 bytes, of which the header is the first seven.
    pub proof fn encoding_len(&self)
        ensures
            self.encoding().len() == 2048,
            self.encoding().subrange(0, 7) == self.spec_header().encoding(),
    {
        self.header.encoding_len();
        assert(self.encoding().subrange(0, 7) =~= self.header.encoding());
    }

    /// The descriptor that ends a set.
    pub fn new() -> (d: Self)
        ensures
            d.encoding() == terminator_bytes(),
    {
        let d = Self {
            header: VolumeDescriptorHeader::new(VolumeDescriptorType::VolumeSetTerminator),
            padding: [0; 2041],
        };
        assert(d.padding@ =~= zeros(2041));
        d
    }

    /// The header of the descriptor.
    pub fn header(&self) -> (header: VolumeDescriptorHeader)
        ensures
            header == self.spec_header(),
    {
        self.header
    }

    /// The 2048 bytes of the descriptor.
    pub fn to_bytes(&self) -> (bytes: Vec<u8>)
        ensures
            bytes@ == self.encoding(),
    {
        let mut bytes: Vec<u8> = Vec::new();
        self.store(&mut bytes);
        bytes
    }

    /// Appends the 2048 bytes of the descriptor to `out`.
    pub fn store(&self, out: &mut Vec<u8>)
        ensures
            final(out)@ == old(out)@ + self.encoding(),
    {
        self.header.store(out);
        out.extend_from_slice(self.padding.as_slice());
    }

    /// The descriptor that the 2048 bytes of `bytes` from `at` on hold.
    pub fn load(bytes: &[u8], at: usize) -> (d: Self)
        requires
            at + 2048 <= bytes@.len(),
        ensures
            d.encoding() == bytes@.subrange(at as int, at + 2048),
    {
        let total = bytes.len();
        let d = Self {
            header: VolumeDescriptorHeader::load(bytes, at),
            padding: load_array::<2041>(bytes, at + 7),
        };
        assert(d.encoding() =~= bytes@.subrange(at as int, at + 2048));
        d
    }
}

/// A volume descriptor of any kind.
#[derive(Clone, Copy)]
pub enum VolumeDescriptor {
    BootRecord(BootRecordVolumeDescriptor),
    Primary(PrimaryVolumeDescriptor),
    End(VolumeDescriptorSetTerminator),
    Unknown(UnknownVolumeDescriptor),
}

impl VolumeDescriptor {
    /// The 2048 bytes of the descriptor.
    pub open spec fn encoding(&self) -> Seq<u8> {
        match self {
            VolumeDescriptor::BootRecord(entry) => entry.encoding(),
            VolumeDescriptor::Primary(entry) => entry.encoding(),
            VolumeDescriptor::End(entry) => entry.encoding(),
            VolumeDescriptor::Unknown(entry) => entry.encoding(),
        }
    }

    /// The header of the descriptor.
    pub open spec fn spec_header(&self) -> VolumeDescriptorHeader {
        match self {
            VolumeDescriptor::BootRecord(entry) => entry.header,
            VolumeDescriptor::Primary(entry) => entry.header,
            VolumeDescriptor::End(entry) => entry.spec_header(),
            VolumeDescriptor::Unknown(entry) => entry.spec_header(),
        }
    }

    /// A descriptor always holds 2048 bytes, of which the header is the first seven.
    pub proof fn encoding_len(&self)
        ensures
            self.encoding().len() == 2048,
            self.encoding().subrange(0, 7) == self.spec_header().encoding(),
    {
        match self {
            VolumeDescriptor::BootRecord(entry) => entry.encoding_len(),
            VolumeDescriptor::Primary(entry) => entry.encoding_len(),
            VolumeDescriptor::End(entry) => entry.encoding_len(),
            VolumeDescriptor::Unknown(entry) => entry.encoding_len(),
        }
    }

    /// The 2048 bytes of the descriptor.
    pub fn as_bytes(&self) -> (bytes: Vec<u8>)
        ensures
            bytes@ == self.encoding(),
    {
        self.to_bytes()
    }

    /// The 2048 bytes of the descriptor.
    pub fn to_bytes(&self) -> (bytes: Vec<u8>)
        ensures
            bytes@ == self.encoding(),
    {
        let mut bytes: Vec<u8> = Vec::new();
        self.store(&mut bytes);
        bytes
    }

    /// Appends the 2048 bytes of the descriptor to `out`.
    pub fn store(&self, out: &mut Vec<u8>)
        ensures
            final(out)@ == old(out)@ + self.encoding(),
    {
        match self {
            VolumeDescriptor::BootRecord(entry) => entry.store(out),
            VolumeDescriptor::Primary(entry) => entry.store(out),
            VolumeDescriptor::End(entry) => entry.store(out),
            VolumeDescriptor::Unknown(entry) => entry.store(out),
        }
    }

    /// The header of the descriptor.
    pub fn header(&self) -> (header: VolumeDescriptorHeader)
        ensures
            header == self.spec_header(),
    {
        match self {
            VolumeDescriptor::BootRecord(entry) => entry.header,
            VolumeDescriptor::Primary(entry) => entry.header,
            VolumeDescriptor::End(entry) => entry.header(),
            VolumeDescriptor::Unknown(entry) => entry.header(),
        }
    }

    /// The descriptor that the 2048 bytes of `data` hold, of the kind that the first
    /// byte names.
    pub fn new(data: &[u8]) -> (d: Self)
        requires
            data@.len() == 2048,
        ensures
            d.encoding() == data@,
            d is BootRecord <==> data@[0] == 0x00,
            d is Primary <==> data@[0] == 0x01,
            d is End <==> data@[0] == 0xFF,
    {
        Self::load(data, 0)
    }

    /// The descriptor that the 2048 bytes of `bytes` from `at` on hold, of the kind
    /// that the first byte names.
    pub fn load(bytes: &[u8], at: usize) -> (d: Self)
        requires
            at + 2048 <= bytes@.len(),
        ensures
            d.encoding() == bytes@.subrange(at as int, at + 2048),
            d is BootRecord <==> bytes@[at as int] == 0x00,
            d is Primary <==> bytes@[at as int] == 0x01,
            d is End <==> bytes@[at as int] == 0xFF,
    {
        let ty = VolumeDescriptorType::from_u8(bytes[at]);
        match ty {
            VolumeDescriptorType::BootRecord => VolumeDescriptor::BootRecord(
                BootRecordVolumeDescriptor::load(bytes, at),
            ),
            VolumeDescriptorType::PrimaryVolumeDescriptor => VolumeDescriptor::Primary(
                PrimaryVolumeDescriptor::load(bytes, at),
            ),
            VolumeDescriptorType::VolumeSetTerminator => VolumeDescriptor::End(
                VolumeDescriptorSetTerminator::load(bytes, at),
            ),
            _ => VolumeDescriptor::Unknown(UnknownVolumeDescriptor::load(bytes, at)),
        }
    }
}

/// The bytes of the first `upto` descriptors of `set`, one after the other.
pub open spec fn descriptors_bytes(set: Seq<VolumeDescriptor>, upto: int) -> Seq<u8>
    decreases upto,
{
    if upto <= 0 {
        Seq::empty()
    } else {
        descriptors_bytes(set, upto - 1) + set[upto - 1].encoding()
    }
}

/// The first `upto` descriptors take 2048 bytes each.
pub proof fn descriptors_bytes_len(set: Seq<VolumeDescriptor>, upto: int)
    requires
        0 <= upto <= set.len(),
    ensures
        descriptors_bytes(set, upto).len() == 2048 * upto,
    decreases upto,
{
    if upto > 0 {
        descriptors_bytes_len(set, upto - 1);
        set[upto - 1].encoding_len();
    }
}

/// How reading a descriptor set that begins in `bytes` at `at` ends: with the number
/// of descriptors before the one that ends the set; with `IOFailed` where `bytes` end
/// before the set does; or with `CorruptImage` at the first descriptor without
/// `CD001`.
pub open spec fn descriptor_scan(bytes: Seq<u8>, at: int) -> Result<nat, IsoError>
    decreases bytes.len() - at,
{
    if at < 0 || at + 2048 > bytes.len() {
        Err(IsoError::IOFailed)
    } else if bytes.subrange(at + 1, at + 6) != standard_identifier() {
        Err(IsoError::CorruptImage)
    } else if bytes[at] == 0xFF {
        Ok(0)
    } else {
        match descriptor_scan(bytes, at + 2048) {
            Ok(n) => Ok(n + 1),
            Err(e) => Err(e),
        }
    }
}

/// What `descriptor_scan` from `at` gives where it has passed `passed` descriptors
/// and goes on as `rest`.
pub open spec fn scan_after(passed: nat, rest: Result<nat, IsoError>) -> Result<nat, IsoError> {
    match rest {
        Ok(n) => Ok(n + passed),
        Err(e) => Err(e),
    }
}

/// The volume descriptors of an image, without the one that ends the set.
pub struct VolumeDescriptorList {
    pub descriptors: Vec<VolumeDescriptor>,
}

impl VolumeDescriptorList {
    /// The bytes of the set: the descriptors, then the one that ends the set.
    pub open spec fn encoding(&self) -> Seq<u8> {
        descriptors_bytes(self.descriptors@, self.descriptors@.len() as int) + terminator_bytes()
    }

    /// The index of the first primary descriptor at or after `from`, or the number of
    /// descriptors where there is none.
    pub open spec fn first_primary(set: Seq<VolumeDescriptor>, from: int) -> int
        decreases set.len() - from,
    {
        if from < 0 || from >= set.len() {
            set.len() as int
        } else if set[from] is Primary {
            from
        } else {
            Self::first_primary(set, from + 1)
        }
    }

    /// The index of the first boot record at or after `from`, or the number of
    /// descriptors where there is none.
    pub open spec fn first_boot_record(set: Seq<VolumeDescriptor>, from: int) -> int
        decreases set.len() - from,
    {
        if from < 0 || from >= set.len() {
            set.len() as int
        } else if set[from] is BootRecord {
            from
        } else {
            Self::first_boot_record(set, from + 1)
        }
    }

    /// The list without descriptors.
    pub fn empty() -> (list: Self)
        ensures
            list.descriptors@.len() == 0,
    {
        Self { descriptors: Vec::new() }
    }

    /// Reads the descriptors that stand in `bytes` from `at` on, up to the one that
    /// ends the set.
    pub fn parse(bytes: &[u8], at: usize) -> (r: Result<Self, IsoError>)
        ensures
            r matches Ok(list) ==> {
                &&& descriptor_scan(bytes@, at as int) == Ok::<nat, IsoError>(
                    list.descriptors@.len(),
                )
                &&& at + 2048 * (list.descriptors@.len() + 1) <= bytes@.len()
                &&& forall|i: int|
                    0 <= i < list.descriptors@.len() ==> (#[trigger] list.descriptors@[i]).encoding()
                        == bytes@.subrange(at + 2048 * i, at + 2048 * i + 2048)
                &&& forall|i: int|
                    0 <= i < list.descriptors@.len() ==> {
                        &&& (#[trigger] list.descriptors@[i] is Primary) <==> bytes@[at + 2048 * i]
                            == 0x01
                        &&& (list.descriptors@[i] is BootRecord) <==> bytes@[at + 2048 * i] == 0x00
                    }
            },
            r matches Err(e) ==> descriptor_scan(bytes@, at as int) == Err::<nat, IsoError>(e),
    {
        let total = bytes.len();
        let mut descriptors: Vec<VolumeDescriptor> = Vec::new();
        let mut cur: usize = at;
        loop
            invariant
                total == bytes@.len(),
                at <= cur,
                cur == at + 2048 * descriptors@.len(),
                descriptor_scan(bytes@, at as int) == scan_after(
                    descriptors@.len(),
                    descriptor_scan(bytes@, cur as int),
                ),
                forall|i: int|
                    0 <= i < descriptors@.len() ==> (#[trigger] descriptors@[i]).encoding()
                        == bytes@.subrange(at + 2048 * i, at + 2048 * i + 2048),
                forall|i: int|
                    0 <= i < descriptors@.len() ==> {
                        &&& (#[trigger] descriptors@[i] is Primary) <==> bytes@[at + 2048 * i]
                            == 0x01
                        &&& (descriptors@[i] is BootRecord) <==> bytes@[at + 2048 * i] == 0x00
                    },
            decreases total - cur,
        {
            if cur > total || total - cur < 2048 {
                return Err(IsoError::IOFailed);
            }
            let header = VolumeDescriptorHeader::load(bytes, cur);
            if !header.is_valid() {
                return Err(IsoError::CorruptImage);
            }
            let ty = VolumeDescriptorType::from_u8(header.descriptor_type);
            if let VolumeDescriptorType::VolumeSetTerminator = ty {
                return Ok(Self { descriptors });
            }
            let d = VolumeDescriptor::load(bytes, cur);
            descriptors.push(d);
            cur = cur + 2048;
        }
    }

    /// The first primary descriptor of the list.
    pub fn primary(&self) -> (d: &PrimaryVolumeDescriptor)
        requires
            Self::first_primary(self.descriptors@, 0) < self.descriptors@.len(),
        ensures
            self.descriptors@[Self::first_primary(self.descriptors@, 0)]
                == VolumeDescriptor::Primary(*d),
    {
        let n = self.descriptors.len();
        let mut i: usize = 0;
        loop
            invariant
                n == self.descriptors@.len(),
                i < self.descriptors@.len(),
                Self::first_primary(self.descriptors@, 0) < self.descriptors@.len(),
                Self::first_primary(self.descriptors@, 0) == Self::first_primary(
                    self.descriptors@,
                    i as int,
                ),
            decreases self.descriptors@.len() - i,
        {
            if let VolumeDescriptor::Primary(d) = &self.descriptors[i] {
                return d;
            }
            assert(Self::first_primary(self.descriptors@, i + 1) < self.descriptors@.len());
            i += 1;
        }
    }

    /// The first primary descriptor of the list, to be changed in place.
    pub fn primary_mut(&mut self) -> (d: &mut PrimaryVolumeDescriptor)
        requires
            Self::first_primary(old(self).descriptors@, 0) < old(self).descriptors@.len(),
        ensures
            ({
                let at = Self::first_primary(old(self).descriptors@, 0);
                &&& old(self).descriptors@[at] == VolumeDescriptor::Primary(*d)
                &&& final(self).descriptors@ == old(self).descriptors@.update(
                    at,
                    VolumeDescriptor::Primary(*final(d)),
                )
            }),
    {
        let at = self.find_primary();
        let i = at.unwrap();
        match &mut self.descriptors[i] {
            VolumeDescriptor::Primary(d) => d,
            _ => vstd::pervasive::unreached(),
        }
    }

    /// The index of the first primary descriptor of the list, if it has one.
    pub fn find_primary(&self) -> (at: Option<usize>)
        ensures
            at is Some <==> Self::first_primary(self.descriptors@, 0) < self.descriptors@.len(),
            at matches Some(i) ==> i == Self::first_primary(self.descriptors@, 0)
                && self.descriptors@[i as int] is Primary,
    {
        let mut i: usize = 0;
        while i < self.descriptors.len()
            invariant
                i <= self.descriptors@.len(),
                Self::first_primary(self.descriptors@, 0) == Self::first_primary(
                    self.descriptors@,
                    i as int,
                ),
            decreases self.descriptors@.len() - i,
        {
            if let VolumeDescriptor::Primary(_) = &self.descriptors[i] {
                return Some(i);
            }
            i += 1;
        }
        None
    }

    /// The first boot record of the list, if it has one.
    pub fn boot_record(&self) -> (d: Option<&BootRecordVolumeDescriptor>)
        ensures
            d is Some <==> Self::first_boot_record(self.descriptors@, 0)
                < self.descriptors@.len(),
            d matches Some(record) ==> self.descriptors@[Self::first_boot_record(
                self.descriptors@,
                0,
            )] == VolumeDescriptor::BootRecord(*record),
    {
        let mut i: usize = 0;
        while i < self.descriptors.len()
            invariant
                i <= self.descriptors@.len(),
                Self::first_boot_record(self.descriptors@, 0) == Self::first_boot_record(
                    self.descriptors@,
                    i as int,
                ),
            decreases self.descriptors@.len() - i,
        {
            if let VolumeDescriptor::BootRecord(d) = &self.descriptors[i] {
                return Some(d);
            }
            i += 1;
        }
        None
    }

    /// Adds `descriptor` at the end of the list.
    pub fn push(&mut self, descriptor: VolumeDescriptor)
        ensures
            final(self).descriptors@ == old(self).descriptors@.push(descriptor),
    {
        self.descriptors.push(descriptor);
    }

    /// Appends the bytes of the set to `out`: the descriptors, then the one that ends
    /// the set. Returns their number.
    pub fn write(&self, out: &mut Vec<u8>) -> (written: usize)
        requires
            2048 * (self.descriptors@.len() + 1) <= usize::MAX,
        ensures
            final(out)@ == old(out)@ + self.encoding(),
            written == 2048 * (self.descriptors@.len() + 1),
            self.encoding().len() == written,
    {
        let mut written: usize = 0;
        let mut i: usize = 0;
        while i < self.descriptors.len()
            invariant
                i <= self.descriptors@.len(),
                2048 * (self.descriptors@.len() + 1) <= usize::MAX,
                written == 2048 * i,
                out@ == old(out)@ + descriptors_bytes(self.descriptors@, i as int),
            decreases self.descriptors@.len() - i,
        {
            self.descriptors[i].store(out);
            written += 2048;
            i += 1;
            assert(out@ =~= old(out)@ + descriptors_bytes(self.descriptors@, i as int));
        }
        VolumeDescriptorSetTerminator::new().store(out);
        written += 2048;
        proof {
            descriptors_bytes_len(self.descriptors@, self.descriptors@.len() as int);
            assert(out@ =~= old(out)@ + self.encoding());
        }
        written
    }

    /// The number of bytes of the set.
    pub fn size_required(&self) -> (n: usize)
        requires
            2048 * (self.descriptors@.len() + 1) <= usize::MAX,
        ensures
            n == 2048 * (self.descriptors@.len() + 1),
    {
        (self.descriptors.len() + 1) * 2048
    }
}

} // verus!
