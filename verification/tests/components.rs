use iso9660_rs::boot::{
    checksum_of_boot_image, BootCatalogue, BootCatalogueEntry, BootInfoTable,
    BootSectionEntry, BootSectionEntryExtension, BootValidationEntry, MediaType, PlatformId,
};
use iso9660_rs::directory::{
    record_pad_of, DirDateTime, DirectoryRecord, DirectoryRecordHeader, DirectoryRef, FileFlags,
    RootDirectoryEntry,
};
use iso9660_rs::file::{same_text, File, FileData, FileInput};
use iso9660_rs::mbr::{PartitionEntry, ProtectiveMbr};
use iso9660_rs::path::{store_path_entry, PathTableEntry, PathTableEntryHeader};
use iso9660_rs::raw::{copy_range, load_array, low32_of, low8_of, push_sector_gap, push_zeros, same_bytes};
use iso9660_rs::reader::{read_extent, IsoDirectory, IsoPathTable, PathTableRef};
use iso9660_rs::tree::IsoFile;
use iso9660_rs::types::{
    decimal_digits, host_is_little_endian, signed_decimal_digits, BigEndian, Charset, CharsetA,
    CharsetD, CharsetFile, DecDateTime, Endian, EndianType, Endianness, IsoStrA, IsoStrD,
    IsoStringFile, LittleEndian, NativeEndian, U16LsbMsb, U32LsbMsb, U64LsbMsb, U16, U32, U64,
};
use iso9660_rs::volume::{
    BootRecordVolumeDescriptor, PrimaryVolumeDescriptor, UnknownVolumeDescriptor,
    VolumeDescriptor, VolumeDescriptorHeader, VolumeDescriptorList,
    VolumeDescriptorSetTerminator, VolumeDescriptorType,
};
use iso9660_rs::{to_sectors_ceil, IsoError};

fn date() -> DecDateTime {
    DecDateTime::from_parts(1999, 12, 31, 23, 59, 58, 99).unwrap()
}

#[test]
fn sectors_are_rounded_up() {
    assert_eq!(to_sectors_ceil(0), 0);
    assert_eq!(to_sectors_ceil(1), 1);
    assert_eq!(to_sectors_ceil(2048), 1);
    assert_eq!(to_sectors_ceil(2049), 2);
    assert_eq!(to_sectors_ceil(usize::MAX), usize::MAX / 2048 + 1);
}

#[test]
fn a_characters() {
    assert!(CharsetA::is_valid(b"ABC XYZ 0123456789"));
    assert!(CharsetA::is_valid(b"!\"%&'()*+,-./:;<=>?"));
    assert!(CharsetA::is_valid(b""));
    assert!(!CharsetA::is_valid(b"abc"));
    assert!(!CharsetA::is_valid(b"A_B"));
    assert!(!CharsetA::is_valid(b"A$"));
    assert!(!CharsetA::is_valid(b"A#"));
    assert!(!CharsetA::is_valid(b"A@"));
    assert!(!CharsetA::is_valid(&[0x41, 0x00]));
    assert!(!CharsetA::is_valid(&[0x41, 0x80]));
}

#[test]
fn d_characters() {
    assert!(CharsetD::is_valid(b"ABCXYZ_0189"));
    assert!(!CharsetD::is_valid(b"A B"));
    assert!(!CharsetD::is_valid(b"a"));
    assert!(!CharsetD::is_valid(b"A.B"));
    assert!(!CharsetD::is_valid(b"-"));
}

#[test]
fn file_characters() {
    assert!(CharsetFile::is_valid(b"ABCxyz_09./"));
    assert!(!CharsetFile::is_valid(b"A B"));
    assert!(!CharsetFile::is_valid(b"A;1"));
    assert!(!CharsetFile::is_valid(&[0]));
    assert!(!CharsetFile::is_valid(&[1]));
    // every d-character is a file character
    for c in 0..=255u8 {
        if CharsetD::is_valid(&[c]) {
            assert!(CharsetFile::is_valid(&[c]));
        }
    }
}

#[test]
fn fixed_strings() {
    let empty = IsoStrA::<5>::empty();
    assert_eq!(empty.as_bytes(), b"     ");
    assert_eq!(empty.len(), 0);
    assert_eq!(IsoStrA::<5>::max_len(), 5);
    let s = IsoStrA::<8>::from_str("CD001").unwrap();
    assert_eq!(s.as_bytes(), b"CD001   ");
    assert_eq!(s.len(), 5);
    assert_eq!(s.to_str(), "CD001");
    let full = IsoStrD::<3>::from_str("ABC").unwrap();
    assert_eq!(full.len(), 3);
    assert_eq!(IsoStrD::<3>::from_str("ABCD").err(), Some(IsoError::IdentifierTooLong));
    assert_eq!(IsoStrD::<3>::from_str("a").err(), Some(IsoError::InvalidCharacter));
    // the length is tested first
    assert_eq!(IsoStrD::<3>::from_str("abcd").err(), Some(IsoError::IdentifierTooLong));
    assert_eq!(IsoStrD::<4>::from_bytes(b"A_1").unwrap().as_bytes(), b"A_1 ");
    let exact = IsoStrD::<2>::from_bytes_exact([0x61, 0x00]);
    assert_eq!(exact.as_bytes(), &[0x61, 0x00]);
    assert!(exact.same(&exact.clone()));
    assert!(!exact.same(&IsoStrD::<2>::empty()));
    let padded = IsoStrD::<4>::padded(b"ab");
    assert_eq!(padded.as_bytes(), b"ab  ");
    let mut out = vec![9u8];
    padded.store(&mut out);
    assert_eq!(out, b"\x09ab  ");
    let loaded = IsoStrD::<3>::load(b"xABCy", 1);
    assert_eq!(loaded.as_bytes(), b"ABC");
    assert_eq!(IsoStrA::<1>::from_bytes_exact([0]).to_str(), "\\x00");
    assert_eq!(IsoStrA::<1>::from_bytes_exact([1]).to_str(), "\\x01");
    assert_eq!(IsoStrA::<1>::from_bytes_exact([b'Z']).to_str(), "Z");
}

#[test]
fn open_strings() {
    let empty = IsoStringFile::empty();
    assert_eq!(empty.bytes(), b"");
    assert_eq!(empty.len(), 0);
    assert_eq!(IsoStringFile::with_capacity(10).bytes(), b"");
    let s = IsoStringFile::from_bytes(b"A.TXT B");
    assert_eq!(s.bytes(), b"A.TXT B");
    assert_eq!(s.len(), 5);
    assert_eq!(s.to_str(), "A.TXT");
    assert!(!s.is_valid());
    assert!(IsoStringFile::from_bytes(b"A.TXT").is_valid());
    assert_eq!(s.clone().bytes(), s.bytes());
    assert_eq!(IsoStringFile::from_bytes(&[0]).to_str(), "\\x00");
    assert_eq!(IsoStringFile::from_bytes(&[1]).to_str(), "\\x01");
}

#[test]
fn byte_orders() {
    let le = EndianType::LittleEndian;
    let be = EndianType::BigEndian;
    assert_eq!(le.read_u16([0x34, 0x12]), 0x1234);
    assert_eq!(be.read_u16([0x34, 0x12]), 0x3412);
    assert_eq!(le.read_u32([0x78, 0x56, 0x34, 0x12]), 0x12345678);
    assert_eq!(be.read_u32([0x78, 0x56, 0x34, 0x12]), 0x78563412);
    assert_eq!(le.read_u64([1, 2, 3, 4, 5, 6, 7, 8]), 0x0807060504030201);
    assert_eq!(be.read_u64([1, 2, 3, 4, 5, 6, 7, 8]), 0x0102030405060708);
    assert_eq!(le.u16_bytes(0x1234), [0x34, 0x12]);
    assert_eq!(be.u16_bytes(0x1234), [0x12, 0x34]);
    assert_eq!(le.u32_bytes(0x12345678), [0x78, 0x56, 0x34, 0x12]);
    assert_eq!(be.u32_bytes(0x12345678), [0x12, 0x34, 0x56, 0x78]);
    assert_eq!(le.u64_bytes(0x0102030405060708), [8, 7, 6, 5, 4, 3, 2, 1]);
    assert_eq!(be.u64_bytes(0x0102030405060708), [1, 2, 3, 4, 5, 6, 7, 8]);
    assert_eq!(le.u32_bytes(u32::MAX), [0xFF; 4]);
    assert_eq!(be.u16_bytes(0), [0, 0]);
    let mut b = [0u8; 4];
    be.write_u32(0xDEADBEEF, &mut b);
    assert_eq!(b, [0xDE, 0xAD, 0xBE, 0xEF]);
    le.write_u32(0xDEADBEEF, &mut b);
    assert_eq!(b, [0xEF, 0xBE, 0xAD, 0xDE]);
    assert!(le.little());
    assert!(!be.little());
}

#[test]
fn native_order_is_that_of_the_machine() {
    let native = EndianType::NativeEndian;
    assert_eq!(host_is_little_endian(), (u16::from_ne_bytes([1, 0]) == 1));
    assert_eq!(native.little(), (u16::from_ne_bytes([1, 0]) == 1));
    assert_eq!(native.u16_bytes(0x1234), 0x1234u16.to_ne_bytes());
    assert_eq!(native.u32_bytes(0x12345678), 0x12345678u32.to_ne_bytes());
    assert_eq!(native.u64_bytes(0x0102030405060708), 0x0102030405060708u64.to_ne_bytes());
    assert_eq!(native.read_u16([0x34, 0x12]), u16::from_ne_bytes([0x34, 0x12]));
    assert_eq!(native.read_u32([1, 2, 3, 4]), u32::from_ne_bytes([1, 2, 3, 4]));
    let mut out = Vec::new();
    U16::<NativeEndian>::new(0x1234).store(&mut out);
    assert_eq!(out, 0x1234u16.to_ne_bytes());
}

#[test]
fn byte_order_types() {
    assert_eq!(NativeEndian::get(), EndianType::NativeEndian);
    assert_eq!(LittleEndian::get(), EndianType::LittleEndian);
    assert_eq!(BigEndian::get(), EndianType::BigEndian);
    assert_eq!(LittleEndian::get_u16([1, 2]), 0x0201);
    assert_eq!(BigEndian::get_u16([1, 2]), 0x0102);
    assert_eq!(LittleEndian::get_u32([1, 2, 3, 4]), 0x04030201);
    assert_eq!(BigEndian::get_u32([1, 2, 3, 4]), 0x01020304);
    assert_eq!(LittleEndian::get_u64([1, 2, 3, 4, 5, 6, 7, 8]), 0x0807060504030201);
    assert_eq!(BigEndian::get_u64([1, 2, 3, 4, 5, 6, 7, 8]), 0x0102030405060708);
    let mut b2 = [0u8; 2];
    LittleEndian::set_u16(0xABCD, &mut b2);
    assert_eq!(b2, [0xCD, 0xAB]);
    BigEndian::set_u16(0xABCD, &mut b2);
    assert_eq!(b2, [0xAB, 0xCD]);
    let mut b4 = [0u8; 4];
    BigEndian::set_u32(1, &mut b4);
    assert_eq!(b4, [0, 0, 0, 1]);
    LittleEndian::set_u32(1, &mut b4);
    assert_eq!(b4, [1, 0, 0, 0]);
    let mut b8 = [0u8; 8];
    BigEndian::set_u64(1, &mut b8);
    assert_eq!(b8, [0, 0, 0, 0, 0, 0, 0, 1]);
    LittleEndian::set_u64(1, &mut b8);
    assert_eq!(b8, [1, 0, 0, 0, 0, 0, 0, 0]);
    NativeEndian::set_u64(7, &mut b8);
    assert_eq!(NativeEndian::get_u64(b8), 7);
}

#[test]
fn kept_numbers() {
    let mut out = Vec::new();
    let mut a = U16::<BigEndian>::new(0x0102);
    a.store(&mut out);
    assert_eq!(a.get(), 0x0102);
    assert_eq!(a.size(), 2);
    a.set(0x0304);
    a.store(&mut out);
    U32::<LittleEndian>::new(0x0A0B0C0D).store(&mut out);
    U64::<BigEndian>::new(1).store(&mut out);
    assert_eq!(
        out,
        vec![1, 2, 3, 4, 0x0D, 0x0C, 0x0B, 0x0A, 0, 0, 0, 0, 0, 0, 0, 1]
    );
    assert_eq!(U16::<BigEndian>::load(&out, 2).get(), 0x0304);
    assert_eq!(U32::<LittleEndian>::load(&out, 4).get(), 0x0A0B0C0D);
    assert_eq!(U32::<BigEndian>::load(&out, 4).get(), 0x0D0C0B0A);
    assert_eq!(U64::<BigEndian>::load(&out, 8).get(), 1);
    assert_eq!(U64::<LittleEndian>::load(&out, 8).get(), 1 << 56);
    assert_eq!(U32::<LittleEndian>::new(5).clone().get(), 5);
}

#[test]
fn numbers_in_both_orders() {
    let mut n = U32LsbMsb::new(0x01020304);
    let mut out = Vec::new();
    n.store(&mut out);
    assert_eq!(out, vec![4, 3, 2, 1, 1, 2, 3, 4]);
    assert_eq!(n.read(), 0x01020304);
    assert_eq!(n.read_lsb(), 0x01020304);
    assert_eq!(n.read_msb(), 0x01020304);
    n.write(7);
    assert_eq!(n.read(), 7);
    assert_eq!(n.read_msb(), 7);
    let s = U16LsbMsb::new(2048);
    let mut out = Vec::new();
    s.store(&mut out);
    assert_eq!(out, vec![0, 8, 8, 0]);
    let l = U64LsbMsb::new(1);
    let mut out = Vec::new();
    l.store(&mut out);
    assert_eq!(out, vec![1, 0, 0, 0, 0, 0, 0, 0, 0, 0, 0, 0, 0, 0, 0, 1]);
    // two copies that differ
    let odd = U32LsbMsb::load(&[1, 0, 0, 0, 0, 0, 0, 2], 0);
    assert_eq!(odd.read_lsb(), 1);
    assert_eq!(odd.read_msb(), 2);
    assert_eq!(odd.read(), if (u16::from_ne_bytes([1, 0]) == 1) { 1 } else { 2 });
}

#[test]
fn decimal_text() {
    assert_eq!(decimal_digits(0), b"0");
    assert_eq!(decimal_digits(7), b"7");
    assert_eq!(decimal_digits(10), b"10");
    assert_eq!(decimal_digits(2024), b"2024");
    assert_eq!(decimal_digits(u32::MAX), b"4294967295");
    assert_eq!(signed_decimal_digits(0), b"0");
    assert_eq!(signed_decimal_digits(-5), b"-5");
    assert_eq!(signed_decimal_digits(i32::MIN), b"-2147483648");
    assert_eq!(signed_decimal_digits(i32::MAX), b"2147483647");
}

#[test]
fn decimal_dates() {
    let d = date();
    let mut out = Vec::new();
    d.store(&mut out);
    assert_eq!(out, b"1999123123595899\0");
    let small = DecDateTime::from_parts(7, 1, 2, 3, 4, 5, 6).unwrap();
    let mut out = Vec::new();
    small.store(&mut out);
    assert_eq!(out, b"7   1 2 3 4 5 6 \0");
    assert_eq!(DecDateTime::load(&out, 0).year.as_bytes(), b"7   ");
    assert_eq!(
        DecDateTime::from_parts(10000, 1, 1, 0, 0, 0, 0).err(),
        Some(IsoError::IdentifierTooLong)
    );
    assert_eq!(
        DecDateTime::from_parts(-1, 1, 1, 0, 0, 0, 0).err(),
        Some(IsoError::InvalidCharacter)
    );
    assert_eq!(
        DecDateTime::from_parts(-1000, 1, 1, 0, 0, 0, 0).err(),
        Some(IsoError::IdentifierTooLong)
    );
    assert_eq!(
        DecDateTime::from_parts(2000, 1, 1, 0, 0, 0, 100).err(),
        Some(IsoError::IdentifierTooLong)
    );
    assert_eq!(
        DecDateTime::from_parts(2000, 100, 1, 0, 0, 0, 0).err(),
        Some(IsoError::IdentifierTooLong)
    );
    assert!(DecDateTime::from_parts(9999, 12, 31, 23, 59, 59, 99).is_ok());
}

#[test]
fn the_clock_is_read() {
    let now = DecDateTime::now().unwrap();
    let year: u32 = std::str::from_utf8(now.year.as_bytes()).unwrap().trim().parse().unwrap();
    assert!(year >= 2024);
    let month: u32 = std::str::from_utf8(now.month.as_bytes()).unwrap().trim().parse().unwrap();
    assert!((1..=12).contains(&month));
    let day: u32 = std::str::from_utf8(now.day.as_bytes()).unwrap().trim().parse().unwrap();
    assert!((1..=31).contains(&day));
    assert_eq!(now.timezone, 0);
}

#[test]
fn descriptor_kinds() {
    assert_eq!(VolumeDescriptorType::BootRecord.to_u8(), 0);
    assert_eq!(VolumeDescriptorType::PrimaryVolumeDescriptor.to_u8(), 1);
    assert_eq!(VolumeDescriptorType::SupplementaryVolumeDescriptor.to_u8(), 2);
    assert_eq!(VolumeDescriptorType::VolumePartitionDescriptor.to_u8(), 3);
    assert_eq!(VolumeDescriptorType::VolumeSetTerminator.to_u8(), 0xFF);
    assert_eq!(VolumeDescriptorType::Unknown(9).to_u8(), 9);
    assert_eq!(VolumeDescriptorType::from_u8(0), VolumeDescriptorType::BootRecord);
    assert_eq!(VolumeDescriptorType::from_u8(1), VolumeDescriptorType::PrimaryVolumeDescriptor);
    assert_eq!(
        VolumeDescriptorType::from_u8(2),
        VolumeDescriptorType::SupplementaryVolumeDescriptor
    );
    assert_eq!(VolumeDescriptorType::from_u8(3), VolumeDescriptorType::VolumePartitionDescriptor);
    assert_eq!(VolumeDescriptorType::from_u8(0xFF), VolumeDescriptorType::VolumeSetTerminator);
    assert_eq!(VolumeDescriptorType::from_u8(4), VolumeDescriptorType::Unknown(4));
    for b in 0..=255u8 {
        assert_eq!(VolumeDescriptorType::from_u8(b).to_u8(), b);
        assert_eq!(PlatformId::from_u8(b).to_u8(), b);
        assert_eq!(MediaType::from_u8(b).to_u8(), b);
    }
}

#[test]
fn platforms_and_media() {
    assert_eq!(PlatformId::from_u8(0), PlatformId::X80X86);
    assert_eq!(PlatformId::from_u8(1), PlatformId::PowerPC);
    assert_eq!(PlatformId::from_u8(2), PlatformId::Macintosh);
    assert_eq!(PlatformId::from_u8(0xEF), PlatformId::UEFI);
    assert_eq!(PlatformId::from_u8(3), PlatformId::Unknown(3));
    assert_eq!(PlatformId::UEFI.to_u8(), 0xEF);
    assert_eq!(PlatformId::Unknown(0).to_u8(), 0);
    assert_eq!(MediaType::from_u8(0), MediaType::NoEmulation);
    assert_eq!(MediaType::from_u8(2), MediaType::Unknown(2));
    assert_eq!(MediaType::NoEmulation.to_u8(), 0);
    assert_eq!(MediaType::Unknown(4).to_u8(), 4);
}

#[test]
fn descriptor_headers() {
    let h = VolumeDescriptorHeader::new(VolumeDescriptorType::PrimaryVolumeDescriptor);
    let mut out = Vec::new();
    h.store(&mut out);
    assert_eq!(out, b"\x01CD001\x01");
    assert!(h.is_valid());
    let bad = VolumeDescriptorHeader::from_bytes(b"\x01CD002\x01");
    assert!(!bad.is_valid());
    assert_eq!(bad.descriptor_type, 1);
    assert_eq!(bad.version, 1);
    let at = VolumeDescriptorHeader::load(b"..\xFFCD001\x07", 2);
    assert!(at.is_valid());
    assert_eq!(at.descriptor_type, 0xFF);
    assert_eq!(at.version, 7);
}

#[test]
fn primary_descriptor() {
    let d = date();
    let pvd = PrimaryVolumeDescriptor::with_dates(1024, d, d, d, d);
    let mut bytes = Vec::new();
    pvd.store(&mut bytes);
    assert_eq!(bytes.len(), 2048);
    assert_eq!(&bytes[..7], b"\x01CD001\x01");
    assert_eq!(&bytes[80..88], &[0, 4, 0, 0, 0, 0, 4, 0]);
    assert_eq!(&bytes[120..124], &[1, 0, 0, 1]);
    assert_eq!(&bytes[124..128], &[1, 0, 0, 1]);
    assert_eq!(&bytes[128..132], &[0, 8, 8, 0]);
    assert!(bytes[132..190].iter().all(|&b| b == 0));
    assert!(bytes[190..574].iter().all(|&b| b == b' '));
    assert_eq!(&bytes[574..580], b"ISO-RS");
    assert_eq!(&bytes[813..830], b"1999123123595899\0");
    assert_eq!(bytes[881], 1);
    assert!(bytes[882..].iter().all(|&b| b == 0));
    assert!(pvd.is_consistent());
    let back = PrimaryVolumeDescriptor::load(&bytes, 0);
    let mut again = Vec::new();
    back.store(&mut again);
    assert_eq!(again, bytes);
    assert_eq!(back.volume_space_size.read(), 1024);
    assert_eq!(back.logical_block_size.read(), 2048);
    let clock = PrimaryVolumeDescriptor::new(77).unwrap();
    assert_eq!(clock.volume_space_size.read(), 77);
    assert_eq!(clock.file_structure_version, 1);
    let full = PrimaryVolumeDescriptor::describe(
        5,
        RootDirectoryEntry::new(DirectoryRef { offset: 18, size: 2048 }),
        10,
        19,
        20,
        d,
        d,
        d,
        d,
    );
    assert_eq!(full.type_l_path_table.get(), 19);
    assert_eq!(full.type_m_path_table.get(), 20);
    assert_eq!(full.path_table_size.read(), 10);
    assert_eq!(full.dir_record.header.extent.read(), 18);
    let mut bytes = Vec::new();
    full.store(&mut bytes);
    assert_eq!(&bytes[140..144], &[19, 0, 0, 0]);
    assert_eq!(&bytes[148..152], &[0, 0, 0, 20]);
    assert_eq!(bytes[156], 34);
    bytes[84] ^= 1;
    assert!(!PrimaryVolumeDescriptor::load(&bytes, 0).is_consistent());
}

#[test]
fn other_descriptors() {
    let br = BootRecordVolumeDescriptor::new(0x01020304);
    let mut bytes = Vec::new();
    br.store(&mut bytes);
    assert_eq!(bytes.len(), 2048);
    assert_eq!(&bytes[..7], b"\x00CD001\x01");
    assert_eq!(&bytes[7..30], b"EL TORITO SPECIFICATION");
    assert!(bytes[30..71].iter().all(|&b| b == 0));
    assert_eq!(&bytes[71..75], &[4, 3, 2, 1]);
    assert!(bytes[75..].iter().all(|&b| b == 0));
    assert_eq!(BootRecordVolumeDescriptor::load(&bytes, 0).catalog_ptr.get(), 0x01020304);
    let end = VolumeDescriptorSetTerminator::new();
    let t = end.to_bytes();
    assert_eq!(t.len(), 2048);
    assert_eq!(&t[..7], b"\xFFCD001\x01");
    assert!(t[7..].iter().all(|&b| b == 0));
    assert!(end.header().is_valid());
    let mut raw = vec![0x5Au8; 2048];
    raw[0] = 2;
    let unknown = UnknownVolumeDescriptor::load(&raw, 0);
    let mut out = Vec::new();
    unknown.store(&mut out);
    assert_eq!(out, raw);
    assert_eq!(unknown.header().descriptor_type, 2);
    assert!(matches!(VolumeDescriptor::new(&raw), VolumeDescriptor::Unknown(_)));
    assert!(matches!(VolumeDescriptor::new(&bytes), VolumeDescriptor::BootRecord(_)));
    assert!(matches!(VolumeDescriptor::new(&t), VolumeDescriptor::End(_)));
    let d = VolumeDescriptor::new(&bytes);
    assert_eq!(d.to_bytes(), bytes);
    assert_eq!(d.as_bytes(), bytes);
    assert_eq!(d.header().descriptor_type, 0);
}

#[test]
fn descriptor_lists() {
    let d = date();
    let mut list = VolumeDescriptorList::empty();
    assert_eq!(list.size_required(), 2048);
    assert!(list.find_primary().is_none());
    list.push(VolumeDescriptor::BootRecord(BootRecordVolumeDescriptor::new(30)));
    list.push(VolumeDescriptor::Primary(PrimaryVolumeDescriptor::with_dates(9, d, d, d, d)));
    assert_eq!(list.size_required(), 3 * 2048);
    assert_eq!(list.find_primary(), Some(1));
    assert_eq!(list.primary().volume_space_size.read(), 9);
    assert_eq!(list.boot_record().unwrap().catalog_ptr.get(), 30);
    list.primary_mut().type_l_path_table.set(44);
    assert_eq!(list.primary().type_l_path_table.get(), 44);
    let mut out = vec![0u8; 100];
    assert_eq!(list.write(&mut out), 3 * 2048);
    assert_eq!(out.len(), 100 + 3 * 2048);
    assert_eq!(out[100], 0);
    assert_eq!(out[100 + 2048], 1);
    assert_eq!(out[100 + 4096], 0xFF);
    let back = VolumeDescriptorList::parse(&out, 100).unwrap();
    assert_eq!(back.descriptors.len(), 2);
    assert_eq!(back.primary().type_l_path_table.get(), 44);
    assert!(matches!(back.descriptors[0], VolumeDescriptor::BootRecord(_)));
    // a set that is cut off
    assert_eq!(
        VolumeDescriptorList::parse(&out[..100 + 4096], 100).err(),
        Some(IsoError::IOFailed)
    );
    assert_eq!(VolumeDescriptorList::parse(&out, out.len() + 5).err(), Some(IsoError::IOFailed));
    // a descriptor without CD001
    out[100 + 2048 + 3] = b'X';
    assert_eq!(VolumeDescriptorList::parse(&out, 100).err(), Some(IsoError::CorruptImage));
    out[100 + 2048 + 3] = b'0';
    out[100 + 4096 + 1] = b' ';
    assert_eq!(VolumeDescriptorList::parse(&out, 100).err(), Some(IsoError::CorruptImage));
    // only the end of the set
    let t = VolumeDescriptorSetTerminator::new().to_bytes();
    let none = VolumeDescriptorList::parse(&t, 0).unwrap();
    assert_eq!(none.descriptors.len(), 0);
    assert!(none.boot_record().is_none());
}

#[test]
fn validation_entry() {
    let e = BootValidationEntry::new();
    let bytes = e.to_bytes();
    let mut expected = vec![0u8; 32];
    expected[0] = 1;
    expected[28] = 0xAA;
    expected[29] = 0x55;
    expected[30] = 0x55;
    expected[31] = 0xAA;
    assert_eq!(bytes, expected);
    assert!(e.is_valid());
    assert_eq!(e.calculate_checksum(), 0x55AA);
    assert_eq!(e.checksum.get(), 0x55AA);
    let mut sum: u16 = 0;
    for i in 0..16 {
        sum = sum.wrapping_add(u16::from_le_bytes([bytes[2 * i], bytes[2 * i + 1]]));
    }
    assert_eq!(sum, 0);
    let mut other = bytes.clone();
    other[1] = 0xEF;
    other[4] = b'X';
    let parsed = BootValidationEntry::parse(&other, 0).unwrap();
    assert!(!parsed.is_valid());
    let fixed = parsed.calculate_checksum();
    assert_eq!(fixed, 0x55AAu16.wrapping_sub(0xEF00).wrapping_sub(b'X' as u16));
    other[28] = (fixed & 0xFF) as u8;
    other[29] = (fixed >> 8) as u8;
    assert!(BootValidationEntry::parse(&other, 0).unwrap().is_valid());
    other[0] = 2;
    assert!(!BootValidationEntry::parse(&other, 0).unwrap().is_valid());
    assert_eq!(BootValidationEntry::parse(&other, 1).err(), Some(IsoError::IOFailed));
    // an entry of zero bytes: the checksum of nothing is nothing
    let zero = BootValidationEntry::parse(&[0u8; 32], 0).unwrap();
    assert_eq!(zero.calculate_checksum(), 0);
    assert!(!zero.is_valid());
}

#[test]
fn boot_entries() {
    let e = BootSectionEntry::new(MediaType::NoEmulation, 0x07C0, 4, 0x0A0B0C0D);
    let mut bytes = Vec::new();
    e.store(&mut bytes);
    let mut expected = vec![0u8; 32];
    expected[0] = 0x88;
    expected[2] = 0xC0;
    expected[3] = 0x07;
    expected[6] = 4;
    expected[8..12].copy_from_slice(&[0x0D, 0x0C, 0x0B, 0x0A]);
    assert_eq!(bytes, expected);
    assert!(e.is_valid());
    let mut off = bytes.clone();
    off[0] = 0;
    off[1] = 3;
    let parsed = BootSectionEntry::parse(&off, 0).unwrap();
    assert!(!parsed.is_valid());
    assert_eq!(parsed.boot_media_type, 3);
    assert_eq!(parsed.load_rba.get(), 0x0A0B0C0D);
    assert_eq!(BootSectionEntry::parse(&off, 1).err(), Some(IsoError::IOFailed));
    let entry = BootCatalogueEntry::SectionEntry(e);
    assert_eq!(entry.size(), 32);
    assert_eq!(entry.as_bytes(), bytes);
    assert_eq!(BootCatalogueEntry::Validation(BootValidationEntry::new()).as_bytes().len(), 32);
    let ext = BootSectionEntryExtension { extension_indicator: 0x44, flags: 0, vendor_unique: [7; 30] };
    let ext_bytes = BootCatalogueEntry::SectionEntryExtension(ext).as_bytes();
    assert_eq!(ext_bytes[0], 0x44);
    assert_eq!(&ext_bytes[2..], &[7u8; 30]);
}

#[test]
fn boot_catalogues() {
    let c = BootCatalogue::new(MediaType::NoEmulation, 0, 4, 19);
    let mut bytes = Vec::new();
    c.write(&mut bytes);
    assert_eq!(bytes.len(), 96);
    assert_eq!(bytes[0], 1);
    assert_eq!(bytes[32], 0x88);
    assert_eq!(bytes[38], 4);
    assert_eq!(bytes[40], 19);
    assert!(bytes[64..].iter().all(|&b| b == 0));
    let back = BootCatalogue::parse(&bytes, 0).unwrap();
    assert_eq!(back.sections().len(), 0);
    assert!(back.validation().is_valid());
    assert_eq!(back.default_entry().sector_count.get(), 4);
    // two sections: one with two entries, one with none
    let mut more = bytes[..64].to_vec();
    let mut header = vec![0u8; 32];
    header[0] = 0x90;
    header[1] = 0xEF;
    more.extend_from_slice(&header);
    let mut entry = vec![0u8; 32];
    entry[0] = 0x88;
    entry[8] = 42;
    more.extend_from_slice(&entry);
    // an entry of zero bytes inside a section that announced another one
    more.extend_from_slice(&[0u8; 32]);
    header[0] = 0x91;
    header[1] = 0;
    more.extend_from_slice(&header);
    more.extend_from_slice(&[0u8; 32]);
    let parsed = BootCatalogue::parse(&more, 0).unwrap();
    assert_eq!(parsed.sections().len(), 2);
    assert_eq!(parsed.sections()[0].0.header_type, 0x90);
    assert_eq!(parsed.sections()[0].0.platform_id, 0xEF);
    assert_eq!(parsed.sections()[0].1.len(), 2);
    assert_eq!(parsed.sections()[0].1[0].load_rba.get(), 42);
    assert_eq!(parsed.sections()[0].1[1].boot_indicator, 0);
    assert_eq!(parsed.sections()[1].0.header_type, 0x91);
    assert_eq!(parsed.sections()[1].1.len(), 0);
    let mut written = Vec::new();
    parsed.write(&mut written);
    assert_eq!(written, more);
    // cut off behind the last header
    assert_eq!(
        BootCatalogue::parse(&more[..more.len() - 32], 0).err(),
        Some(IsoError::IOFailed)
    );
    // an entry before any header
    let mut stray = bytes[..64].to_vec();
    stray.extend_from_slice(&entry);
    stray.extend_from_slice(&[0u8; 32]);
    assert_eq!(BootCatalogue::parse(&stray, 0).err(), Some(IsoError::CorruptImage));
    // a default entry that is not bootable
    let mut dead = bytes.clone();
    dead[32] = 0;
    assert_eq!(BootCatalogue::parse(&dead, 0).err(), Some(IsoError::CorruptImage));
    let mut broken = bytes.clone();
    broken[29] = 0;
    assert_eq!(BootCatalogue::parse(&broken, 0).err(), Some(IsoError::CorruptImage));
    assert_eq!(BootCatalogue::parse(&bytes[..40], 0).err(), Some(IsoError::IOFailed));
    assert_eq!(BootCatalogue::parse(&bytes, 90).err(), Some(IsoError::IOFailed));
}

#[test]
fn boot_image_checksums() {
    assert_eq!(checksum_of_boot_image(&[]), 0);
    assert_eq!(checksum_of_boot_image(&[0xFF; 64]), 0);
    let mut image = vec![0xFFu8; 64];
    image.extend_from_slice(&[1, 2, 3, 4]);
    assert_eq!(checksum_of_boot_image(&image), 0x04030201);
    image.extend_from_slice(&[0xFF, 0xFF, 0xFF, 0xFF]);
    assert_eq!(checksum_of_boot_image(&image), 0x04030200);
    // a last word that is cut short counts with zero bytes
    image.extend_from_slice(&[5, 6]);
    assert_eq!(checksum_of_boot_image(&image), 0x04030200 + 0x0605);
    image.push(7);
    assert_eq!(checksum_of_boot_image(&image), 0x04030200 + 0x070605);
    let table = BootInfoTable::new(19, 1024, 0xAABBCCDD);
    let mut out = Vec::new();
    table.store(&mut out);
    assert_eq!(out.len(), 56);
    assert_eq!(&out[..16], &[16, 0, 0, 0, 19, 0, 0, 0, 0, 4, 0, 0, 0xDD, 0xCC, 0xBB, 0xAA]);
    assert!(out[16..].iter().all(|&b| b == 0));
    let back = BootInfoTable::load(&out, 0);
    assert_eq!(back.iso_start.get(), 16);
    assert_eq!(back.boot_image_lba.get(), 19);
    assert_eq!(back.boot_file_size.get(), 1024);
    assert_eq!(back.checksum.get(), 0xAABBCCDD);
}

#[test]
fn flags() {
    assert_eq!(FileFlags::empty().bits(), 0);
    assert_eq!(FileFlags::hidden().bits(), 1);
    assert_eq!(FileFlags::directory().bits(), 2);
    assert_eq!(FileFlags::associated_file().bits(), 4);
    assert_eq!(FileFlags::extended_attributes().bits(), 8);
    assert_eq!(FileFlags::extended_permissions().bits(), 16);
    assert_eq!(FileFlags::not_final().bits(), 128);
    let f = FileFlags::from_bits_retain(0x83);
    assert_eq!(f.bits(), 0x83);
    assert!(f.contains(FileFlags::directory()));
    assert!(f.contains(FileFlags::hidden()));
    assert!(f.contains(FileFlags::not_final()));
    assert!(!f.contains(FileFlags::associated_file()));
    assert!(f.contains(FileFlags::empty()));
    assert!(!FileFlags::empty().contains(FileFlags::directory()));
}

#[test]
fn directory_records() {
    let place = DirectoryRef { offset: 0x12345678, size: 0x0A0B0C0D };
    let r = DirectoryRecord::new(b"A.TXT", place, FileFlags::empty());
    let mut out = Vec::new();
    assert_eq!(r.write(&mut out), 38);
    let mut expected = vec![0u8; 38];
    expected[0] = 38;
    expected[2..10].copy_from_slice(&[0x78, 0x56, 0x34, 0x12, 0x12, 0x34, 0x56, 0x78]);
    expected[10..18].copy_from_slice(&[0x0D, 0x0C, 0x0B, 0x0A, 0x0A, 0x0B, 0x0C, 0x0D]);
    expected[28..32].copy_from_slice(&[1, 0, 0, 1]);
    expected[32] = 5;
    expected[33..38].copy_from_slice(b"A.TXT");
    assert_eq!(out, expected);
    assert_eq!(r.to_bytes(), expected);
    assert_eq!(r.size(), 38);
    assert!(!r.header.is_directory());
    assert!(r.header.is_consistent());
    // an identifier of even length gets a zero byte behind it
    let even = DirectoryRecord::directory(b"AB", DirectoryRef { offset: 1, size: 2 });
    let mut out = vec![0xEEu8];
    assert_eq!(even.write(&mut out), 35);
    assert_eq!(out.len(), 1 + 36);
    assert_eq!(out[1], 36);
    assert_eq!(out[1 + 25], 2);
    assert_eq!(out[1 + 32], 2);
    assert_eq!(out[36], 0);
    assert_eq!(even.to_bytes().len(), 35);
    assert!(even.header.is_directory());
    let file = DirectoryRecord::file(&[1], DirectoryRef::default());
    assert_eq!(file.header.len, 34);
    assert_eq!(file.header.flags, 0);
    assert_eq!(file.name.bytes(), &[1]);
    // what is beyond 32 bits is cut off
    let big = DirectoryRecord::file(b"X", DirectoryRef { offset: 0x1_0000_0005, size: u64::MAX });
    assert_eq!(big.header.extent.read(), 5);
    assert_eq!(big.header.data_len.read(), u32::MAX);
    let back = DirectoryRecord::load(&out, 1);
    assert_eq!(back.name.bytes(), b"AB");
    assert_eq!(back.header.extent.read(), 1);
    assert_eq!(back.header.data_len.read(), 2);
    assert_eq!(back.clone().name.bytes(), b"AB");
    // the longest identifier whose record is told in one byte
    let long = DirectoryRecord::file(&[b'A'; 221], DirectoryRef::default());
    assert_eq!(long.header.len, 254);
    assert_eq!(long.header.file_identifier_len, 221);
    let mut out = Vec::new();
    long.write(&mut out);
    assert_eq!(out.len(), 254);
    let longer = DirectoryRecord::file(&[b'A'; 222], DirectoryRef::default());
    assert_eq!(longer.header.len, 0);
    assert_eq!(record_pad_of(221), 0);
    assert_eq!(record_pad_of(220), 1);
    assert_eq!(record_pad_of(0), 1);
    assert_eq!(record_pad_of(1), 0);
    assert_eq!(record_pad_of(222), 0);
    assert_eq!(record_pad_of(1000), 0);
}

#[test]
fn record_headers() {
    let h = DirectoryRecordHeader::default();
    assert_eq!(h.to_bytes(), vec![0u8; 33]);
    assert!(h.is_consistent());
    let mut raw: Vec<u8> = (0..33u8).collect();
    let parsed = DirectoryRecordHeader::from_bytes(&raw);
    assert_eq!(parsed.len, 0);
    assert_eq!(parsed.extended_attr_record, 1);
    assert_eq!(parsed.extent.read_lsb(), u32::from_le_bytes([2, 3, 4, 5]));
    assert_eq!(parsed.extent.read_msb(), u32::from_be_bytes([6, 7, 8, 9]));
    assert_eq!(parsed.data_len.read_lsb(), u32::from_le_bytes([10, 11, 12, 13]));
    assert_eq!(parsed.flags, 25);
    assert_eq!(parsed.file_unit_size, 26);
    assert_eq!(parsed.interleave_gap_size, 27);
    assert_eq!(parsed.volume_sequence_number.read_lsb(), u16::from_le_bytes([28, 29]));
    assert_eq!(parsed.file_identifier_len, 32);
    assert_eq!(parsed.to_bytes(), raw);
    assert!(!parsed.is_consistent());
    assert!(!parsed.is_directory());
    raw[25] = 0x02;
    assert!(DirectoryRecordHeader::from_bytes(&raw).is_directory());
    let mut out = Vec::new();
    DirDateTime::default().store(&mut out);
    assert_eq!(out, vec![0u8; 7]);
    let mut out = Vec::new();
    DirDateTime::load(&[9, 1, 2, 3, 4, 5, 6, 7], 1).store(&mut out);
    assert_eq!(out, vec![1, 2, 3, 4, 5, 6, 7]);
    let root = RootDirectoryEntry::new(DirectoryRef { offset: 18, size: 2048 });
    let mut out = Vec::new();
    root.store(&mut out);
    assert_eq!(out.len(), 34);
    assert_eq!(out[0], 34);
    assert_eq!(&out[2..6], &[18, 0, 0, 0]);
    assert_eq!(&out[10..14], &[0, 8, 0, 0]);
    assert_eq!(out[25], 2);
    assert_eq!(out[32], 1);
    assert_eq!(out[33], 0);
    assert_eq!(RootDirectoryEntry::load(&out, 0).header.data_len.read(), 2048);
    let mut out = Vec::new();
    RootDirectoryEntry::default().store(&mut out);
    assert_eq!(out, vec![0u8; 34]);
}

#[test]
fn path_table_entries() {
    let e = PathTableEntry {
        length: 3,
        extended_attr_record: 0,
        parent_lba: 0x01020304,
        parent_index: 0x0506,
        name: b"DIR".to_vec(),
    };
    assert_eq!(
        e.to_bytes(EndianType::LittleEndian),
        vec![3, 0, 4, 3, 2, 1, 6, 5, b'D', b'I', b'R', 0]
    );
    assert_eq!(
        e.to_bytes(EndianType::BigEndian),
        vec![3, 0, 1, 2, 3, 4, 5, 6, b'D', b'I', b'R', 0]
    );
    assert_eq!(e.size(), 12);
    let even = PathTableEntry { length: 2, name: b"AB".to_vec(), ..e.clone() };
    assert_eq!(even.to_bytes(EndianType::BigEndian).len(), 10);
    assert_eq!(even.size(), 10);
    let mut bytes = vec![0xEE];
    e.store(EndianType::BigEndian, &mut bytes);
    let back = PathTableEntry::parse(&bytes, 1, EndianType::BigEndian).unwrap();
    assert_eq!(back.length, 3);
    assert_eq!(back.parent_lba, 0x01020304);
    assert_eq!(back.parent_index, 0x0506);
    assert_eq!(back.name, b"DIR");
    let swapped = PathTableEntry::parse(&bytes, 1, EndianType::LittleEndian).unwrap();
    assert_eq!(swapped.parent_lba, 0x04030201);
    assert_eq!(swapped.parent_index, 0x0605);
    assert_eq!(
        PathTableEntry::parse(&bytes[..bytes.len() - 1], 1, EndianType::BigEndian).err(),
        Some(IsoError::IOFailed)
    );
    assert_eq!(
        PathTableEntry::parse(&bytes[..8], 1, EndianType::BigEndian).err(),
        Some(IsoError::IOFailed)
    );
    assert_eq!(
        PathTableEntry::parse(&bytes, 100, EndianType::BigEndian).err(),
        Some(IsoError::IOFailed)
    );
    let h = PathTableEntryHeader::from_bytes(&[3, 0, 1, 2, 3, 4, 5, 6]);
    assert_eq!(h.len, 3);
    assert_eq!(h.parent_lba, [1, 2, 3, 4]);
    assert_eq!(h.parent_directory_number, [5, 6]);
    let mut out = Vec::new();
    store_path_entry(&mut out, &[0], 18, 1, EndianType::LittleEndian);
    assert_eq!(out, vec![1, 0, 18, 0, 0, 0, 1, 0, 0, 0]);
}

#[test]
fn master_boot_record() {
    let mbr = ProtectiveMbr::new(0x01020304);
    let bytes = mbr.to_bytes();
    assert_eq!(bytes.len(), 512);
    assert!(bytes[..446].iter().all(|&b| b == 0));
    assert_eq!(
        &bytes[446..462],
        &[0, 0, 0, 0, 0x17, 0, 0, 0, 1, 0, 0, 0, 4, 3, 2, 1]
    );
    assert!(bytes[462..510].iter().all(|&b| b == 0));
    assert_eq!(&bytes[510..], &[0x55, 0xAA]);
    assert!(mbr.is_valid());
    let mut other = bytes.clone();
    other[511] = 0;
    assert!(!ProtectiveMbr::load(&other).is_valid());
    other[511] = 0xAA;
    other[450] = 0x83;
    assert!(!ProtectiveMbr::load(&other).is_valid());
    other[450] = 0x17;
    other[454] = 2;
    assert!(!ProtectiveMbr::load(&other).is_valid());
    let p = PartitionEntry::load(&bytes, 446);
    assert_eq!(p.sector_count.get(), 0x01020304);
    assert_eq!(p.start_lba.get(), 1);
    let mut out = Vec::new();
    PartitionEntry::protective(9).store(&mut out);
    assert_eq!(out, vec![0, 0, 0, 0, 0x17, 0, 0, 0, 1, 0, 0, 0, 9, 0, 0, 0]);
}

#[test]
fn flat_file_lists() {
    let mut input = FileInput::new();
    assert_eq!(input.len(), 1);
    assert!(input.contains(""));
    assert!(!input.contains("A"));
    assert!(input.get("").unwrap().is_directory());
    input.append(File { path: "A".to_string(), data: FileData::Data(vec![1, 2]) });
    input.append(File { path: "D".to_string(), data: FileData::Directory(vec![]) });
    input.append(File { path: "B".to_string(), data: FileData::Data(vec![3]) });
    assert_eq!(input.len(), 4);
    assert_eq!(input.get("").unwrap().get_children(), vec!["A", "D", "B"]);
    assert_eq!(input.get("A").unwrap().get_data(), vec![1, 2]);
    assert!(!input.get("A").unwrap().is_directory());
    assert_eq!(input.position("D"), Some(2));
    assert_eq!(input.position("X"), None);
    assert!(input.get("X").is_none());
    input.get_mut("D").unwrap().add_child("E".to_string());
    assert_eq!(input.get("D").unwrap().get_children(), vec!["E"]);
    assert!(input.get_mut("X").is_none());
    let copy = input.get("D").unwrap().clone();
    assert_eq!(copy.path, "D");
    let (dirs, files) = input.split();
    assert_eq!(dirs.iter().map(|f| f.path.as_str()).collect::<Vec<_>>(), vec!["", "D"]);
    assert_eq!(files.iter().map(|f| f.path.as_str()).collect::<Vec<_>>(), vec!["A", "B"]);
    let mut data = FileData::Directory(vec!["x".to_string()]);
    data.add_child("y".to_string());
    assert_eq!(data.get_children(), vec!["x", "y"]);
    assert_eq!(FileData::Data(vec![5]).get_data(), vec![5]);
    let again = FileInput::from_files(vec![
        File { path: "P".to_string(), data: FileData::Data(vec![]) },
        File { path: "P".to_string(), data: FileData::Data(vec![1]) },
    ]);
    assert_eq!(again.get("P").unwrap().get_data(), Vec::<u8>::new());
    assert!(same_text("abc", "abc"));
    assert!(!same_text("abc", "abd"));
    assert!(!same_text("abc", "ab"));
}

#[test]
fn tree_entries() {
    let mut f = IsoFile::File { name: "A".to_string(), data: vec![1] };
    assert_eq!(f.name(), "A");
    assert!(!f.is_directory());
    f.set_name("B".to_string());
    assert_eq!(f.name(), "B");
    assert!(matches!(&f, IsoFile::File { data, .. } if data == &vec![1]));
    let mut d = IsoFile::Directory { name: "D".to_string(), entries: vec![f] };
    assert!(d.is_directory());
    d.set_name("E".to_string());
    assert_eq!(d.name(), "E");
    assert!(matches!(&d, IsoFile::Directory { entries, .. } if entries.len() == 1));
}

#[test]
fn byte_helpers() {
    assert_eq!(low8_of(0x1234), 0x34);
    assert_eq!(low8_of(255), 255);
    assert_eq!(low32_of(0x1_2345_6789), 0x2345_6789);
    assert_eq!(low32_of(7), 7);
    let mut out = vec![1u8];
    push_zeros(&mut out, 3);
    assert_eq!(out, vec![1, 0, 0, 0]);
    push_sector_gap(&mut out, 4);
    assert_eq!(out.len(), 4 + 2044);
    let mut none = Vec::new();
    push_sector_gap(&mut none, 2048);
    assert!(none.is_empty());
    push_sector_gap(&mut none, 0);
    assert!(none.is_empty());
    push_sector_gap(&mut none, 2049);
    assert_eq!(none.len(), 2047);
    assert_eq!(load_array::<3>(&[1, 2, 3, 4, 5], 1), [2, 3, 4]);
    assert_eq!(copy_range(&[1, 2, 3, 4, 5], 1, 3), vec![2, 3]);
    assert_eq!(copy_range(&[1, 2, 3], 3, 3), Vec::<u8>::new());
    assert!(same_bytes(b"ab", b"ab"));
    assert!(!same_bytes(b"ab", b"ac"));
    assert!(!same_bytes(b"ab", b"abc"));
    assert!(same_bytes(b"", b""));
}

#[test]
fn extents_are_read() {
    let mut data = vec![0u8; 3 * 2048];
    data[2048] = 7;
    data[2049] = 8;
    assert_eq!(read_extent(&data, 1, 2).unwrap(), vec![7, 8]);
    assert_eq!(read_extent(&data, 3, 0).unwrap(), Vec::<u8>::new());
    assert_eq!(read_extent(&data, 2, 2048).unwrap().len(), 2048);
    assert_eq!(read_extent(&data, 2, 2049).err(), Some(IsoError::IOFailed));
    assert_eq!(read_extent(&data, 4, 0).err(), Some(IsoError::IOFailed));
    assert_eq!(read_extent(&data, u64::MAX, 1).err(), Some(IsoError::IOFailed));
    assert_eq!(read_extent(&data, 0, u64::MAX).err(), Some(IsoError::IOFailed));
}

#[test]
fn directories_are_parsed() {
    let mut extent = Vec::new();
    DirectoryRecord::directory(&[0], DirectoryRef { offset: 5, size: 2048 }).write(&mut extent);
    DirectoryRecord::directory(&[1], DirectoryRef { offset: 4, size: 2048 }).write(&mut extent);
    DirectoryRecord::file(b"AB", DirectoryRef { offset: 9, size: 3 }).write(&mut extent);
    let full = extent.clone();
    // the records end with the extent
    let records = IsoDirectory::parse_records(&full).unwrap();
    assert_eq!(records.len(), 3);
    assert_eq!(records.iter().map(|r| r.0).collect::<Vec<_>>(), vec![0, 34, 68]);
    assert_eq!(records[2].1.name.bytes(), b"AB");
    // or with a length byte of zero
    extent.extend_from_slice(&[0u8; 40]);
    assert_eq!(IsoDirectory::parse_records(&extent).unwrap().len(), 3);
    assert_eq!(IsoDirectory::parse_records(&[]).unwrap().len(), 0);
    assert_eq!(IsoDirectory::parse_records(&[0u8; 10]).unwrap().len(), 0);
    // a record that is cut off
    assert_eq!(
        IsoDirectory::parse_records(&full[..full.len() - 3]).err(),
        Some(IsoError::CorruptImage)
    );
    assert_eq!(IsoDirectory::parse_records(&full[..40]).err(), Some(IsoError::CorruptImage));
    // a record whose two copies of a number differ
    let mut odd = full.clone();
    odd[34 + 6] ^= 0x80;
    assert_eq!(IsoDirectory::parse_records(&odd).err(), Some(IsoError::CorruptImage));
    let mut odd = full.clone();
    odd[68 + 31] ^= 1;
    assert_eq!(IsoDirectory::parse_records(&odd).err(), Some(IsoError::CorruptImage));
    // a directory beyond the end of the image
    let lost = IsoDirectory { directory: DirectoryRef { offset: 1, size: 2048 } };
    assert_eq!(lost.entries(&full).err(), Some(IsoError::IOFailed));
    assert_eq!(lost.read_file(&full, "AB").err(), Some(IsoError::IOFailed));
    assert_eq!(lost.find_directory(&full, "AB").err(), Some(IsoError::IOFailed));
    // a file beyond the end of the image
    let here = IsoDirectory { directory: DirectoryRef { offset: 0, size: full.len() as u64 } };
    assert_eq!(here.read_file(&full, "AB").err(), Some(IsoError::IOFailed));
    assert_eq!(here.read_file(&full, "A").err(), Some(IsoError::NotFound));
}

#[test]
fn path_tables_are_parsed() {
    let mut image = vec![0u8; 2048];
    store_path_entry(&mut image, &[0], 18, 1, EndianType::BigEndian);
    store_path_entry(&mut image, b"ABC", 17, 1, EndianType::BigEndian);
    let size = (image.len() - 2048) as u64;
    image.resize(4096, 0);
    let table = IsoPathTable {
        path_table: PathTableRef { lpath_table_offset: 0, mpath_table_offset: 1, size },
    };
    let m = table.entries_of(&image, false).unwrap();
    assert_eq!(m.len(), 2);
    assert_eq!(m[1].name, b"ABC");
    assert_eq!(m[1].parent_lba, 17);
    // the table of zero bytes at the block zero ends at once
    assert_eq!(table.entries_of(&image, true).unwrap().len(), 0);
    // a table that is longer than what was written ends at the first name without bytes
    let longer = IsoPathTable {
        path_table: PathTableRef { lpath_table_offset: 0, mpath_table_offset: 1, size: 100 },
    };
    assert_eq!(longer.entries_of(&image, false).unwrap().len(), 2);
    // a table of no bytes
    let none = IsoPathTable {
        path_table: PathTableRef { lpath_table_offset: 9, mpath_table_offset: 9, size: 0 },
    };
    assert_eq!(none.entries_of(&image, true).unwrap().len(), 0);
    // a table beyond the end of the image
    let lost = IsoPathTable {
        path_table: PathTableRef { lpath_table_offset: 2, mpath_table_offset: 3, size: 10 },
    };
    assert_eq!(lost.entries_of(&image, true).err(), Some(IsoError::IOFailed));
    assert_eq!(lost.entries_of(&image, false).err(), Some(IsoError::IOFailed));
    assert_eq!(lost.entries(&image).err(), Some(IsoError::IOFailed));
    let cut = IsoPathTable {
        path_table: PathTableRef { lpath_table_offset: 0, mpath_table_offset: 1, size },
    };
    assert_eq!(cut.entries_of(&image[..2048 + 15], false).err(), Some(IsoError::IOFailed));
}

#[test]
fn errors_tell_what_went_wrong() {
    let all = [
        IsoError::IOFailed,
        IsoError::InvalidCharacter,
        IsoError::IdentifierTooLong,
        IsoError::BootImageNotFound,
        IsoError::SinkTooSmall,
        IsoError::CorruptImage,
        IsoError::NotFound,
    ];
    for (i, a) in all.iter().enumerate() {
        assert!(!a.message().is_empty());
        for b in all.iter().skip(i + 1) {
            assert_ne!(a.message(), b.message());
        }
    }
    assert_eq!(IsoError::NotFound.message(), "not found");
}

#[test]
fn test_pvd_new() {
    let pvd = PrimaryVolumeDescriptor::new(1024).unwrap();
    assert_eq!(pvd.volume_space_size.read(), 1024);
    assert_eq!(pvd.logical_block_size.read(), 2048);
    assert_eq!(pvd.volume_set_size.read(), 1);
    assert_eq!(pvd.volume_sequence_number.read(), 1);
    assert_eq!(pvd.file_structure_version, 1);
    assert!(pvd.is_consistent());
    let mut bytes = Vec::new();
    pvd.store(&mut bytes);
    assert_eq!(bytes.len(), 2048);
    assert_eq!(&bytes[..7], b"\x01CD001\x01");
    println!("{:?}", &bytes[..190]);
}
