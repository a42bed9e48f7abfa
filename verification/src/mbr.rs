use vstd::prelude::*;
use crate::raw::{load_array, zeros};
use crate::types::{u32_le, Endian, LittleEndian, U32};

verus! {

/// The number of bytes of a master boot record.
pub const MBR_SIZE: usize = 512;

/// The kind byte of the partition of a protective master boot record.
pub const PROTECTIVE_PARTITION_TYPE: u8 = 0x17;

/// The 16 bytes of the partition entry of a protective master boot record for a
/// volume of `sectors` sectors: not bootable, of the kind `0x17`, from sector one on.
pub open spec fn partition_bytes(sectors: u32) -> Seq<u8> {
    seq![0u8, 0u8, 0u8, 0u8, 0x17u8, 0u8, 0u8, 0u8] + u32_le(1) + u32_le(sectors)
}

/// The 512 bytes of a protective master boot record for a volume of `sectors`
/// sectors: no boot code, one partition entry, and the signature `55 AA`.
pub open spec fn mbr_bytes(sectors: u32) -> Seq<u8> {
    zeros(446) + partition_bytes(sectors) + zeros(48) + seq![0x55u8, 0xAAu8]
}

/// A protective master boot record has 512 bytes; its last two are `55 AA`, and the
/// partition entry in its bytes 446 to 461 is of the kind `0x17` from sector one on.
pub proof fn mbr_bytes_len(sectors: u32)
    ensures
        mbr_bytes(sectors).len() == 512,
        mbr_bytes(sectors)[510] == 0x55,
        mbr_bytes(sectors)[511] == 0xAA,
        mbr_bytes(sectors)[446] == 0x00,
        mbr_bytes(sectors)[450] == 0x17,
        mbr_bytes(sectors).subrange(454, 458) == u32_le(1),
        mbr_bytes(sectors).subrange(458, 462) == u32_le(sectors),
{
    crate::types::u32_round_trip(1);
    crate::types::u32_round_trip(sectors);
    assert(mbr_bytes(sectors).subrange(454, 458) =~= u32_le(1));
    assert(mbr_bytes(sectors).subrange(458, 462) =~= u32_le(sectors));
}

/// One entry of the partition table of a master boot record.
#[derive(Clone, Copy)]
pub struct PartitionEntry {
    pub status: u8,
    pub first_chs: [u8; 3],
    pub partition_type: u8,
    pub last_chs: [u8; 3],
    pub start_lba: U32<LittleEndian>,
    pub sector_count: U32<LittleEndian>,
}

impl PartitionEntry {
    /// The 16 bytes of the entry.
    pub open spec fn encoding(&self) -> Seq<u8> {
        seq![self.status] + self.first_chs@ + seq![self.partition_type] + self.last_chs@
            + self.start_lba.layout() + self.sector_count.layout()
    }

    /// The entry always holds 16 bytes.
    pub proof fn encoding_len(&self)
        ensures
            self.encoding().len() == 16,
    {
        self.start_lba.layout_laws(0);
        self.sector_count.layout_laws(0);
    }

    /// The entry of the partition that protects a volume of `sectors` sectors.
    pub fn protective(sectors: u32) -> (entry: Self)
        ensures
            entry.encoding() == partition_bytes(sectors),
            entry.partition_type == 0x17,
            entry.status == 0,
            entry.start_lba.value() == 1,
            entry.sector_count.value() == sectors,
    {
        let entry = Self {
            status: 0,
            first_chs: [0; 3],
            partition_type: PROTECTIVE_PARTITION_TYPE,
            last_chs: [0; 3],
            start_lba: U32::new(1),
            sector_count: U32::new(sectors),
        };
        assert(entry.encoding() =~= partition_bytes(sectors));
        entry
    }

    /// Appends the 16 bytes of the entry to `out`.
    pub fn store(&self, out: &mut Vec<u8>)
        ensures
            final(out)@ == old(out)@ + self.encoding(),
    {
        out.push(self.status);
        out.extend_from_slice(self.first_chs.as_slice());
        out.push(self.partition_type);
        out.extend_from_slice(self.last_chs.as_slice());
        self.start_lba.store(out);
        self.sector_count.store(out);
        assert(out@ =~= old(out)@ + self.encoding());
    }

    /// The entry that the 16 bytes of `bytes` from `at` on hold.
    pub fn load(bytes: &[u8], at: usize) -> (entry: Self)
        requires
            at + 16 <= bytes@.len(),
        ensures
            entry.encoding() == bytes@.subrange(at as int, at + 16),
    {
        let total = bytes.len();
        let entry = Self {
            status: bytes[at],
            first_chs: load_array::<3>(bytes, at + 1),
            partition_type: bytes[at + 4],
            last_chs: load_array::<3>(bytes, at + 5),
            start_lba: U32::<LittleEndian>::load(bytes, at + 8),
            sector_count: U32::<LittleEndian>::load(bytes, at + 12),
        };
        proof {
            entry.encoding_len();
            assert(entry.encoding() =~= bytes@.subrange(at as int, at + 16));
        }
        entry
    }
}

/// A master boot record whose one partition spans the whole volume, so that firmware
/// which looks for a partition table finds the medium in use.
#[derive(Clone, Copy)]
pub struct ProtectiveMbr {
    pub boot_code: [u8; 446],
    pub partition: PartitionEntry,
    pub reserved: [u8; 48],
    pub signature: [u8; 2],
}

impl ProtectiveMbr {
    /// The 512 bytes of the record.
    pub open spec fn encoding(&self) -> Seq<u8> {
        self.boot_code@ + self.partition.encoding() + self.reserved@ + self.signature@
    }

    /// Whether the record is a valid protective master boot record: it ends with the
    /// signature `55 AA` and its partition is of the kind `0x17` from sector one on.
    pub open spec fn spec_is_valid(&self) -> bool {
        &&& self.signature@ == seq![0x55u8, 0xAAu8]
        &&& self.partition.partition_type == 0x17
        &&& self.partition.start_lba.value() == 1
    }

    /// The record always holds 512 bytes.
    pub proof fn encoding_len(&self)
        ensures
            self.encoding().len() == 512,
    {
        self.partition.encoding_len();
    }

    /// The record for a volume of `sectors` sectors.
    pub fn new(sectors: u32) -> (mbr: Self)
        ensures
            mbr.encoding() == mbr_bytes(sectors),
            mbr.spec_is_valid(),
            mbr.partition.sector_count.value() == sectors,
    {
        let mbr = Self {
            boot_code: [0; 446],
            partition: PartitionEntry::protective(sectors),
            reserved: [0; 48],
            signature: [0x55, 0xAA],
        };
        proof {
            assert(mbr.boot_code@ =~= zeros(446));
            assert(mbr.reserved@ =~= zeros(48));
            assert(mbr.signature@ =~= seq![0x55u8, 0xAAu8]);
        }
        mbr
    }

    /// Whether the record is a valid protective master boot record.
    pub fn is_valid(&self) -> (valid: bool)
        ensures
            valid == self.spec_is_valid(),
    {
        let valid = self.signature[0] == 0x55 && self.signature[1] == 0xAA
            && self.partition.partition_type == 0x17 && self.partition.start_lba.get() == 1;
        proof {
            if valid {
                assert(self.signature@ =~= seq![0x55u8, 0xAAu8]);
            } else if self.signature@ == seq![0x55u8, 0xAAu8] {
                assert(self.signature@[0] == 0x55u8);
                assert(self.signature@[1] == 0xAAu8);
            }
        }
        valid
    }

    /// Appends the 512 bytes of the record to `out`.
    pub fn store(&self, out: &mut Vec<u8>)
        ensures
            final(out)@ == old(out)@ + self.encoding(),
    {
        out.extend_from_slice(self.boot_code.as_slice());
        self.partition.store(out);
        out.extend_from_slice(self.reserved.as_slice());
        out.extend_from_slice(self.signature.as_slice());
    }

    /// The 512 bytes of the record.
    pub fn to_bytes(&self) -> (bytes: Vec<u8>)
        ensures
            bytes@ == self.encoding(),
    {
        let mut bytes: Vec<u8> = Vec::new();
        self.store(&mut bytes);
        bytes
    }

    /// The record that the first 512 bytes of `bytes` hold.
    pub fn load(bytes: &[u8]) -> (mbr: Self)
        requires
            512 <= bytes@.len(),
        ensures
            mbr.encoding() == bytes@.subrange(0, 512),
    {
        let mbr = Self {
            boot_code: load_array::<446>(bytes, 0),
            partition: PartitionEntry::load(bytes, 446),
            reserved: load_array::<48>(bytes, 462),
            signature: load_array::<2>(bytes, 510),
        };
        proof {
            mbr.encoding_len();
            assert(mbr.encoding() =~= bytes@.subrange(0, 512));
        }
        mbr
    }
}

} // verus!
