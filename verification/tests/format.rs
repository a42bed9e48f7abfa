use iso9660_rs::directory::DirectoryRecord;
use iso9660_rs::image::{ElToritoOptions, FormatOptions, IsoImage, VolumeDates};
use iso9660_rs::tree::IsoFile;
use iso9660_rs::types::DecDateTime;
use iso9660_rs::IsoError;

fn dates() -> VolumeDates {
    let d = DecDateTime::from_parts(2024, 5, 17, 13, 4, 59, 7).unwrap();
    VolumeDates { created: d, modified: d, expires: d, effective: d }
}

fn file(name: &str, data: Vec<u8>) -> IsoFile {
    IsoFile::File { name: name.to_string(), data }
}

fn dir(name: &str, entries: Vec<IsoFile>) -> IsoFile {
    IsoFile::Directory { name: name.to_string(), entries }
}

fn plain(files: Vec<IsoFile>) -> FormatOptions {
    FormatOptions { files, protective_mbr: false, el_torito: None }
}

fn le32(b: &[u8], at: usize) -> u32 {
    u32::from_le_bytes([b[at], b[at + 1], b[at + 2], b[at + 3]])
}

fn be32(b: &[u8], at: usize) -> u32 {
    u32::from_be_bytes([b[at], b[at + 1], b[at + 2], b[at + 3]])
}

fn le16(b: &[u8], at: usize) -> u16 {
    u16::from_le_bytes([b[at], b[at + 1]])
}

fn be16(b: &[u8], at: usize) -> u16 {
    u16::from_be_bytes([b[at], b[at + 1]])
}

fn names(records: &[(u64, DirectoryRecord)]) -> Vec<Vec<u8>> {
    records.iter().map(|(_, r)| r.name.bytes().to_vec()).collect()
}

#[test]
fn empty_image_layout() {
    let mut sink = vec![0u8; 1024 * 1024];
    IsoImage::format_at(&mut sink, plain(vec![]), &dates()).unwrap();
    let pvd = 16 * 2048;
    assert_eq!(sink[pvd], 0x01);
    assert_eq!(&sink[pvd + 1..pvd + 6], b"CD001");
    assert_eq!(sink[pvd + 6], 1);
    let end = 17 * 2048;
    assert_eq!(sink[end], 0xFF);
    assert_eq!(&sink[end + 1..end + 6], b"CD001");
    // path table size, both byte orders
    assert_eq!(le32(&sink, pvd + 132), 10);
    assert_eq!(be32(&sink, pvd + 136), 10);
    assert_eq!(le32(&sink, pvd + 140), 19);
    assert_eq!(be32(&sink, pvd + 148), 20);
    // volume space size
    assert_eq!(le32(&sink, pvd + 80), 512);
    assert_eq!(be32(&sink, pvd + 84), 512);
    assert_eq!(le16(&sink, pvd + 128), 2048);
    assert_eq!(be16(&sink, pvd + 130), 2048);
    // root record inside the descriptor
    assert_eq!(sink[pvd + 156], 34);
    assert_eq!(le32(&sink, pvd + 158), 18);
    assert_eq!(le32(&sink, pvd + 166), 2048);
    // the root directory
    let root = 18 * 2048;
    assert_eq!(sink[root], 34);
    assert_eq!(le32(&sink, root + 2), 18);
    assert_eq!(be32(&sink, root + 6), 18);
    assert_eq!(le32(&sink, root + 10), 2048);
    assert_eq!(sink[root + 25], 0x02);
    assert_eq!(sink[root + 32], 1);
    assert_eq!(sink[root + 33], 0x00);
    assert_eq!(sink[root + 34], 34);
    assert_eq!(le32(&sink, root + 34 + 2), 18);
    assert_eq!(le32(&sink, root + 34 + 10), 2048);
    assert_eq!(sink[root + 34 + 33], 0x01);
    assert_eq!(sink[root + 68], 0);
    // little-endian table at 19, big-endian table at 20
    let l = 19 * 2048;
    assert_eq!(&sink[l..l + 10], &[1, 0, 18, 0, 0, 0, 1, 0, 0, 0]);
    let m = 20 * 2048;
    assert_eq!(&sink[m..m + 10], &[1, 0, 0, 0, 0, 18, 0, 1, 0, 0]);
}

#[test]
fn empty_image_reads_back() {
    let mut sink = vec![0u8; 1024 * 1024];
    IsoImage::format_at(&mut sink, plain(vec![]), &dates()).unwrap();
    let image = IsoImage::new(&sink).unwrap();
    let root = image.root_directory();
    assert_eq!(root.directory.offset, 18);
    assert_eq!(root.directory.size, 2048);
    let records = root.entries(&sink).unwrap();
    assert_eq!(names(&records), vec![vec![0u8], vec![1u8]]);
    assert_eq!(records[0].0, 0);
    assert_eq!(records[1].0, 34);
    let table = image.path_table().entries(&sink).unwrap();
    assert_eq!(table.len(), 1);
    assert_eq!(table[0].name, vec![0u8]);
    assert_eq!(table[0].parent_index, 1);
    assert_eq!(table[0].parent_lba, 18);
    assert_eq!(table[0].length, 1);
}

#[test]
fn both_tables_read_the_same() {
    let tree = vec![
        dir("A", vec![dir("B", vec![]), file("X", vec![1])]),
        dir("C", vec![dir("D", vec![dir("E", vec![])])]),
    ];
    let mut sink = vec![0xEEu8; 64 * 2048];
    IsoImage::format_at(&mut sink, plain(tree), &dates()).unwrap();
    let image = IsoImage::new(&sink).unwrap();
    let table = image.path_table();
    let l = table.entries_of(&sink, true).unwrap();
    let m = table.entries_of(&sink, false).unwrap();
    assert_eq!(l.len(), 6);
    assert_eq!(m.len(), 6);
    for (a, b) in l.iter().zip(m.iter()) {
        assert_eq!(a.name, b.name);
        assert_eq!(a.length, b.length);
        assert_eq!(a.parent_lba, b.parent_lba);
        assert_eq!(a.parent_index, b.parent_index);
    }
    let order: Vec<&[u8]> = l.iter().map(|e| e.name.as_slice()).collect();
    assert_eq!(order, vec![&[0u8][..], b"A", b"C", b"B", b"D", b"E"]);
    let parents: Vec<u16> = l.iter().map(|e| e.parent_index).collect();
    assert_eq!(parents, vec![1, 1, 1, 2, 3, 5]);
}

#[test]
fn single_file_round_trip() {
    let mut sink = vec![0u8; 2 * 1024 * 1024];
    let tree = vec![file("TEST.TXT", vec![b'H'; 1024 * 1024])];
    IsoImage::format_at(&mut sink, plain(tree), &dates()).unwrap();
    let image = IsoImage::new(&sink).unwrap();
    let root = image.root_directory();
    let records = root.entries(&sink).unwrap();
    assert_eq!(names(&records), vec![vec![0u8], vec![1u8], b"TEST.TXT".to_vec()]);
    assert_eq!(records[2].1.header.extent.read(), 18);
    assert_eq!(records[2].1.header.data_len.read(), 1024 * 1024);
    let bytes = root.read_file(&sink, "TEST.TXT").unwrap();
    assert_eq!(bytes.len(), 1024 * 1024);
    assert!(bytes.iter().all(|&b| b == b'H'));
}

#[test]
fn file_as_large_as_the_sink_does_not_fit() {
    let mut sink = vec![0u8; 1024 * 1024];
    let tree = vec![file("TEST.TXT", vec![b'H'; 1024 * 1024])];
    let before = sink.clone();
    let r = IsoImage::format_at(&mut sink, plain(tree), &dates());
    assert_eq!(r, Err(IsoError::SinkTooSmall));
    assert_eq!(sink, before);
}

#[test]
fn whole_sectors_get_no_padding() {
    let mut sink = vec![0x55u8; 64 * 2048];
    let tree = vec![file("A", vec![1u8; 2048]), file("B", vec![2u8; 4096])];
    IsoImage::format_at(&mut sink, plain(tree), &dates()).unwrap();
    let image = IsoImage::new(&sink).unwrap();
    let records = image.root_directory().entries(&sink).unwrap();
    // files are laid down from the last entry to the first
    assert_eq!(records[3].1.header.extent.read(), 18);
    assert_eq!(records[3].1.header.data_len.read(), 4096);
    assert_eq!(records[2].1.header.extent.read(), 20);
    assert_eq!(records[2].1.header.data_len.read(), 2048);
    assert_eq!(image.root_directory().directory.offset, 21);
    assert!(sink[18 * 2048..20 * 2048].iter().all(|&b| b == 2));
    assert!(sink[20 * 2048..21 * 2048].iter().all(|&b| b == 1));
}

#[test]
fn padding_is_zero_whatever_the_sink_held() {
    let mut sink = vec![0x55u8; 64 * 2048];
    let tree = vec![file("A", vec![1u8; 3])];
    IsoImage::format_at(&mut sink, plain(tree), &dates()).unwrap();
    assert_eq!(&sink[18 * 2048..18 * 2048 + 3], &[1, 1, 1]);
    assert!(sink[18 * 2048 + 3..19 * 2048].iter().all(|&b| b == 0));
    // system area and what lies behind the image stay as they were
    assert!(sink[..16 * 2048].iter().all(|&b| b == 0x55));
    assert!(sink[22 * 2048..].iter().all(|&b| b == 0x55));
}

#[test]
fn nested_directory() {
    let tree = vec![file("A.TXT", b"hi".to_vec()), dir("D", vec![file("B.TXT", b"bye".to_vec())])];
    let mut sink = vec![0u8; 1024 * 1024];
    IsoImage::format_at(&mut sink, plain(tree), &dates()).unwrap();
    let image = IsoImage::new(&sink).unwrap();
    let root = image.root_directory();
    let records = root.entries(&sink).unwrap();
    assert_eq!(
        names(&records),
        vec![vec![0u8], vec![1u8], b"A.TXT".to_vec(), b"D".to_vec()]
    );
    assert!(!records[2].1.header.is_directory());
    assert!(records[3].1.header.is_directory());
    let d = root.find_directory(&sink, "D").unwrap().unwrap();
    let inner = d.entries(&sink).unwrap();
    assert_eq!(names(&inner), vec![vec![0u8], vec![1u8], b"B.TXT".to_vec()]);
    assert_eq!(inner[0].1.header.extent.read() as u64, d.directory.offset);
    assert_eq!(inner[1].1.header.extent.read() as u64, root.directory.offset);
    assert_eq!(inner[1].1.header.data_len.read() as u64, root.directory.size);
    assert_eq!(records[1].1.header.extent.read() as u64, root.directory.offset);
    assert_eq!(d.read_file(&sink, "B.TXT").unwrap(), b"bye".to_vec());
    assert_eq!(root.read_file(&sink, "A.TXT").unwrap(), b"hi".to_vec());
    assert_eq!(root.read_file(&sink, "B.TXT"), Err(IsoError::NotFound));
    assert!(root.find_directory(&sink, "A.TXT").unwrap().is_none());
    assert!(root.find_directory(&sink, "NONE").unwrap().is_none());
    let table = image.path_table().entries(&sink).unwrap();
    assert_eq!(table.len(), 2);
    assert_eq!(table[0].name, vec![0u8]);
    assert_eq!(table[0].parent_index, 1);
    assert_eq!(table[1].name, b"D".to_vec());
    assert_eq!(table[1].parent_index, 1);
    assert_eq!(table[1].parent_lba as u64, d.directory.offset);
    // B.TXT at 18, A.TXT at 19, D at 20, the root at 21, the tables at 22 and 23
    assert_eq!(d.directory.offset, 20);
    assert_eq!(root.directory.offset, 21);
    assert_eq!(le32(&sink, 16 * 2048 + 140), 22);
    assert_eq!(be32(&sink, 16 * 2048 + 148), 23);
    assert_eq!(le32(&sink, 16 * 2048 + 132), 20);
}

#[test]
fn boot_image_without_info_table() {
    let tree = vec![file("CDBOOT.IMG", vec![0u8; 512 * 1024])];
    let ops = FormatOptions {
        files: tree,
        protective_mbr: false,
        el_torito: Some(ElToritoOptions {
            load_size: 4,
            boot_image_path: "CDBOOT.IMG".to_string(),
            boot_info_table: false,
        }),
    };
    let mut sink = vec![0u8; 1024 * 1024];
    IsoImage::format_at(&mut sink, ops, &dates()).unwrap();
    assert_eq!(sink[16 * 2048], 0x01);
    let br = 17 * 2048;
    assert_eq!(sink[br], 0x00);
    assert_eq!(&sink[br + 1..br + 6], b"CD001");
    assert_eq!(&sink[br + 7..br + 30], b"EL TORITO SPECIFICATION");
    assert!(sink[br + 30..br + 71].iter().all(|&b| b == 0));
    assert_eq!(sink[18 * 2048], 0xFF);
    let catalog = le32(&sink, br + 71) as usize * 2048;
    let entry = &sink[catalog..catalog + 32];
    assert_eq!(entry[0], 1);
    assert_eq!(&entry[30..32], &[0x55, 0xAA]);
    let mut sum: u16 = 0;
    for i in 0..16 {
        sum = sum.wrapping_add(le16(entry, 2 * i));
    }
    assert_eq!(sum, 0);
    let boot = &sink[catalog + 32..catalog + 64];
    assert_eq!(boot[0], 0x88);
    assert_eq!(boot[1], 0);
    assert_eq!(le16(boot, 6), 4);
    let image = IsoImage::new(&sink).unwrap();
    let records = image.root_directory().entries(&sink).unwrap();
    assert_eq!(le32(boot, 8), records[2].1.header.extent.read());
    assert_eq!(le32(boot, 8), 19);
    assert!(sink[catalog + 64..catalog + 96].iter().all(|&b| b == 0));
    // the boot image itself is untouched
    assert!(sink[19 * 2048..19 * 2048 + 512 * 1024].iter().all(|&b| b == 0));
}

#[test]
fn boot_info_table_patched() {
    let pattern: Vec<u8> = (0..1024u32).map(|i| (i & 0xFF) as u8).collect();
    let tree = vec![file("CDBOOT.IMG", pattern.clone())];
    let ops = FormatOptions {
        files: tree,
        protective_mbr: false,
        el_torito: Some(ElToritoOptions {
            load_size: 4,
            boot_image_path: "CDBOOT.IMG".to_string(),
            boot_info_table: true,
        }),
    };
    let mut sink = vec![0u8; 1024 * 1024];
    IsoImage::format_at(&mut sink, ops, &dates()).unwrap();
    let catalog = le32(&sink, 17 * 2048 + 71) as usize * 2048;
    let rba = le32(&sink, catalog + 32 + 8);
    let image_at = rba as usize * 2048;
    let table = &sink[image_at + 8..image_at + 64];
    assert_eq!(le32(table, 0), 16);
    assert_eq!(le32(table, 4), rba);
    assert_eq!(le32(table, 8), 1024);
    let mut sum: u32 = 0;
    for i in (64..1024).step_by(4) {
        sum = sum.wrapping_add(le32(&pattern, i));
    }
    assert_eq!(le32(table, 12), sum);
    assert!(table[16..].iter().all(|&b| b == 0));
    assert_eq!(&sink[image_at..image_at + 8], &pattern[..8]);
    assert_eq!(&sink[image_at + 64..image_at + 1024], &pattern[64..]);
    let image = IsoImage::new(&sink).unwrap();
    let read = image.root_directory().read_file(&sink, "CDBOOT.IMG").unwrap();
    assert_eq!(read.len(), 1024);
}

#[test]
fn boot_image_must_be_in_the_root() {
    let tree = vec![dir("BOOT", vec![file("CDBOOT.IMG", vec![0u8; 100])])];
    let ops = FormatOptions {
        files: tree,
        protective_mbr: false,
        el_torito: Some(ElToritoOptions {
            load_size: 4,
            boot_image_path: "CDBOOT.IMG".to_string(),
            boot_info_table: false,
        }),
    };
    let mut sink = vec![0u8; 1024 * 1024];
    assert_eq!(IsoImage::format_at(&mut sink, ops, &dates()), Err(IsoError::BootImageNotFound));
    assert!(sink.iter().all(|&b| b == 0));
}

#[test]
fn protective_mbr() {
    let mut sink = vec![0u8; 1024 * 1024];
    let ops = FormatOptions { files: vec![], protective_mbr: true, el_torito: None };
    IsoImage::format_at(&mut sink, ops, &dates()).unwrap();
    assert_eq!(sink[510], 0x55);
    assert_eq!(sink[511], 0xAA);
    assert_eq!(sink[446], 0x00);
    assert_eq!(sink[446 + 4], 0x17);
    assert_eq!(le32(&sink, 446 + 8), 1);
    assert_eq!(le32(&sink, 446 + 12), 512);
    assert!(sink[..446].iter().all(|&b| b == 0));
    let mbr = iso9660_rs::mbr::ProtectiveMbr::load(&sink);
    assert!(mbr.is_valid());
}

#[test]
fn no_mbr_unless_asked_for() {
    let mut sink = vec![0u8; 1024 * 1024];
    IsoImage::format_at(&mut sink, plain(vec![]), &dates()).unwrap();
    assert!(sink[..512].iter().all(|&b| b == 0));
    let mbr = iso9660_rs::mbr::ProtectiveMbr::load(&sink);
    assert!(!mbr.is_valid());
}

#[test]
fn directory_over_several_sectors() {
    let mut files = Vec::new();
    for i in 0..200 {
        files.push(file(&format!("FILE{:04}.DAT", i), vec![i as u8; 5]));
    }
    let mut sink = vec![0xABu8; 400 * 2048];
    IsoImage::format_at(&mut sink, plain(files), &dates()).unwrap();
    let image = IsoImage::new(&sink).unwrap();
    let root = image.root_directory();
    // 68 + 200 * 46 bytes of records
    assert_eq!(root.directory.size, 5 * 2048);
    let records = root.entries(&sink).unwrap();
    assert_eq!(records.len(), 202);
    for i in 0..200usize {
        let name = format!("FILE{:04}.DAT", i);
        assert_eq!(records[i + 2].1.name.bytes(), name.as_bytes());
        assert_eq!(root.read_file(&sink, &name).unwrap(), vec![i as u8; 5]);
        assert_eq!(records[i + 2].1.header.len % 2, 0);
        assert_eq!(records[i + 2].1.header.len, 46);
    }
}

#[test]
fn smallest_sink_that_fits() {
    let mut sink = vec![0u8; 21 * 2048];
    IsoImage::format_at(&mut sink, plain(vec![]), &dates()).unwrap();
    let image = IsoImage::new(&sink).unwrap();
    assert_eq!(image.root_directory().entries(&sink).unwrap().len(), 2);
    let mut small = vec![0u8; 21 * 2048 - 1];
    assert_eq!(
        IsoImage::format_at(&mut small, plain(vec![]), &dates()),
        Err(IsoError::SinkTooSmall)
    );
    let mut none: Vec<u8> = Vec::new();
    assert_eq!(
        IsoImage::format_at(&mut none, plain(vec![]), &dates()),
        Err(IsoError::SinkTooSmall)
    );
}

#[test]
fn names_are_checked() {
    let mut sink = vec![0u8; 64 * 2048];
    let bad = vec![file("A B", vec![])];
    assert_eq!(
        IsoImage::format_at(&mut sink, plain(bad), &dates()),
        Err(IsoError::InvalidCharacter)
    );
    let long = vec![file(&"A".repeat(256), vec![])];
    assert_eq!(
        IsoImage::format_at(&mut sink, plain(long), &dates()),
        Err(IsoError::IdentifierTooLong)
    );
    let nested = vec![dir("OK", vec![file("A*", vec![])])];
    assert_eq!(
        IsoImage::format_at(&mut sink, plain(nested), &dates()),
        Err(IsoError::InvalidCharacter)
    );
    let fine = vec![file(&"A".repeat(221), vec![]), file("lower_case.txt", vec![])];
    assert_eq!(IsoImage::format_at(&mut sink, plain(fine), &dates()), Ok(()));
    let image = IsoImage::new(&sink).unwrap();
    let records = image.root_directory().entries(&sink).unwrap();
    assert_eq!(records.len(), 4);
    assert_eq!(records[2].1.header.len, 254);
}

#[test]
fn format_new_uses_the_clock() {
    let mut sink = vec![0u8; 64 * 2048];
    IsoImage::format_new(&mut sink, plain(vec![file("A", vec![9])])).unwrap();
    let created = &sink[16 * 2048 + 813..16 * 2048 + 830];
    assert_eq!(created[0], b'2');
    assert!(created[..4].iter().all(|b| b.is_ascii_digit()));
    assert_eq!(created[16], 0);
    let image = IsoImage::new(&sink).unwrap();
    assert_eq!(image.root_directory().read_file(&sink, "A").unwrap(), vec![9]);
}

#[test]
fn dates_are_written_as_given() {
    let mut sink = vec![0u8; 64 * 2048];
    IsoImage::format_at(&mut sink, plain(vec![]), &dates()).unwrap();
    let created = &sink[16 * 2048 + 813..16 * 2048 + 830];
    assert_eq!(created, b"20245 17134 597 \0");
    let modified = &sink[16 * 2048 + 830..16 * 2048 + 847];
    assert_eq!(modified, created);
    assert_eq!(sink[16 * 2048 + 881], 1);
    assert_eq!(&sink[16 * 2048 + 40..16 * 2048 + 48], b"ISOIMAGE");
    assert_eq!(&sink[16 * 2048 + 574..16 * 2048 + 580], b"ISO-RS");
    assert!(sink[16 * 2048 + 8..16 * 2048 + 40].iter().all(|&b| b == b' '));
}

#[test]
fn opening_what_is_no_image_fails() {
    let zero = vec![0u8; 64 * 2048];
    assert!(matches!(IsoImage::new(&zero), Err(IsoError::CorruptImage)));
    let short = vec![0u8; 100];
    assert!(matches!(IsoImage::new(&short), Err(IsoError::IOFailed)));
    let mut sink = vec![0u8; 64 * 2048];
    IsoImage::format_at(&mut sink, plain(vec![]), &dates()).unwrap();
    // break the big-endian copy of the root extent
    sink[16 * 2048 + 162] ^= 1;
    assert!(matches!(IsoImage::new(&sink), Err(IsoError::CorruptImage)));
    sink[16 * 2048 + 162] ^= 1;
    assert!(IsoImage::new(&sink).is_ok());
    // a set without a primary descriptor
    sink[16 * 2048] = 0x02;
    assert!(matches!(IsoImage::new(&sink), Err(IsoError::CorruptImage)));
}

#[test]
fn broken_catalogue_is_reported() {
    let tree = vec![file("B", vec![0u8; 10])];
    let ops = FormatOptions {
        files: tree,
        protective_mbr: false,
        el_torito: Some(ElToritoOptions {
            load_size: 1,
            boot_image_path: "B".to_string(),
            boot_info_table: true,
        }),
    };
    let mut sink = vec![0u8; 64 * 2048];
    IsoImage::format_at(&mut sink, ops, &dates()).unwrap();
    assert!(IsoImage::new(&sink).is_ok());
    // a boot image of less than 64 bytes gets no table
    assert!(sink[19 * 2048..19 * 2048 + 64].iter().all(|&b| b == 0));
    let catalog = le32(&sink, 17 * 2048 + 71) as usize * 2048;
    sink[catalog + 28] ^= 0xFF;
    assert!(matches!(IsoImage::new(&sink), Err(IsoError::CorruptImage)));
    sink[catalog + 28] ^= 0xFF;
    sink[catalog + 32] = 0;
    assert!(matches!(IsoImage::new(&sink), Err(IsoError::CorruptImage)));
}

#[test]
fn numbers_agree_in_both_byte_orders() {
    let tree = vec![
        file("A.TXT", vec![1; 5000]),
        dir("D", vec![file("B.TXT", vec![2; 3]), dir("E", vec![file("C", vec![])])]),
    ];
    let mut sink = vec![0x77u8; 64 * 2048];
    IsoImage::format_at(&mut sink, plain(tree), &dates()).unwrap();
    let pvd = 16 * 2048;
    assert_eq!(le32(&sink, pvd + 80), be32(&sink, pvd + 84));
    assert_eq!(le16(&sink, pvd + 120), be16(&sink, pvd + 122));
    assert_eq!(le16(&sink, pvd + 124), be16(&sink, pvd + 126));
    assert_eq!(le16(&sink, pvd + 128), be16(&sink, pvd + 130));
    assert_eq!(le32(&sink, pvd + 132), be32(&sink, pvd + 136));
    assert_eq!(le32(&sink, pvd + 158), be32(&sink, pvd + 162));
    assert_eq!(le32(&sink, pvd + 166), be32(&sink, pvd + 170));
    assert_eq!(le16(&sink, pvd + 184), be16(&sink, pvd + 186));
    let image = IsoImage::new(&sink).unwrap();
    let mut dirs = vec![image.root_directory()];
    let mut seen = 0;
    while let Some(d) = dirs.pop() {
        for (at, record) in d.entries(&sink).unwrap() {
            seen += 1;
            assert!(record.header.is_consistent());
            assert_eq!(record.header.extent.read_lsb(), record.header.extent.read_msb());
            assert_eq!(record.header.data_len.read_lsb(), record.header.data_len.read_msb());
            assert_eq!(record.header.len % 2, 0);
            assert_eq!(
                record.header.len as usize,
                (33 + record.name.bytes().len() + 1) / 2 * 2
            );
            assert_eq!(record.header.file_identifier_len as usize, record.name.bytes().len());
            // every extent begins at a whole block inside the image
            assert!((record.header.extent.read() as usize) * 2048 < sink.len());
            if at >= 68 && record.header.is_directory() {
                dirs.push(
                    d.find_directory(&sink, &record.name.to_str()).unwrap().unwrap(),
                );
            }
        }
    }
    assert_eq!(seen, 3 * 2 + 5);
}

#[test]
fn copies_make_the_same_image() {
    let ops = FormatOptions {
        files: vec![dir("D", vec![file("B.TXT", vec![2; 3])]), file("BOOT", vec![9; 100])],
        protective_mbr: true,
        el_torito: Some(ElToritoOptions {
            load_size: 1,
            boot_image_path: "BOOT".to_string(),
            boot_info_table: true,
        }),
    };
    let mut a = vec![0u8; 64 * 2048];
    let mut b = vec![0u8; 64 * 2048];
    IsoImage::format_at(&mut a, ops.clone(), &dates()).unwrap();
    IsoImage::format_at(&mut b, ops, &dates()).unwrap();
    assert_eq!(a, b);
    let table = &a[19 * 2048 + 8..19 * 2048 + 64];
    assert_eq!(le32(table, 0), 16);
    assert_eq!(le32(table, 4), 19);
    assert_eq!(le32(table, 8), 100);
    assert_eq!(le32(table, 12), 9 * 0x09090909);
}

#[test]
fn the_first_of_two_names_is_read() {
    let tree = vec![file("SAME", vec![1]), file("SAME", vec![2, 2])];
    let mut sink = vec![0u8; 64 * 2048];
    IsoImage::format_at(&mut sink, plain(tree), &dates()).unwrap();
    let image = IsoImage::new(&sink).unwrap();
    let root = image.root_directory();
    assert_eq!(root.entries(&sink).unwrap().len(), 4);
    assert_eq!(root.read_file(&sink, "SAME").unwrap(), vec![1]);
}

#[test]
fn every_file_is_reached_from_the_root() {
    let tree = vec![
        dir(
            "A",
            vec![
                file("ONE.TXT", b"one".to_vec()),
                dir("B", vec![dir("C", vec![file("DEEP.BIN", vec![7u8; 5000])]), dir("E", vec![])]),
            ],
        ),
        file("TOP.TXT", b"top".to_vec()),
        dir("Z", vec![file("ONE.TXT", b"another".to_vec())]),
    ];
    let mut sink = vec![0u8; 1024 * 1024];
    IsoImage::format_at(&mut sink, plain(tree), &dates()).unwrap();
    let image = IsoImage::new(&sink).unwrap();
    let root = image.root_directory();
    let a = root.find_directory(&sink, "A").unwrap().unwrap();
    let b = a.find_directory(&sink, "B").unwrap().unwrap();
    let c = b.find_directory(&sink, "C").unwrap().unwrap();
    let e = b.find_directory(&sink, "E").unwrap().unwrap();
    let z = root.find_directory(&sink, "Z").unwrap().unwrap();
    assert_eq!(root.read_file(&sink, "TOP.TXT").unwrap(), b"top".to_vec());
    assert_eq!(a.read_file(&sink, "ONE.TXT").unwrap(), b"one".to_vec());
    assert_eq!(z.read_file(&sink, "ONE.TXT").unwrap(), b"another".to_vec());
    assert_eq!(c.read_file(&sink, "DEEP.BIN").unwrap(), vec![7u8; 5000]);
    assert_eq!(names(&e.entries(&sink).unwrap()), vec![vec![0u8], vec![1u8]]);
    assert_eq!(
        names(&b.entries(&sink).unwrap()),
        vec![vec![0u8], vec![1u8], b"C".to_vec(), b"E".to_vec()]
    );
    assert!(root.find_directory(&sink, "B").unwrap().is_none());
    assert_eq!(root.read_file(&sink, "DEEP.BIN"), Err(IsoError::NotFound));
    let table = image.path_table().entries(&sink).unwrap();
    let listed: Vec<Vec<u8>> = table.iter().map(|row| row.name.clone()).collect();
    assert_eq!(
        listed,
        vec![vec![0u8], b"A".to_vec(), b"Z".to_vec(), b"B".to_vec(), b"C".to_vec(), b"E".to_vec()]
    );
    let parents: Vec<u16> = table.iter().map(|row| row.parent_index).collect();
    assert_eq!(parents, vec![1, 1, 1, 2, 4, 4]);
}

#[test]
fn test_new_image() {
    let options = FormatOptions {
        el_torito: Some(ElToritoOptions {
            load_size: 4,
            boot_image_path: String::from("CDBOOT.IMG"),
            boot_info_table: false,
        }),
        protective_mbr: false,
        files: Vec::new(),
    };
    let mut data = vec![0u8; 1024 * 2048];
    let image = IsoImage::format_new(&mut data, options);
    // an image that is to boot needs its boot image among the files of the root
    assert_eq!(image, Err(IsoError::BootImageNotFound));
    assert!(data.iter().all(|&b| b == 0));
    let options = FormatOptions {
        el_torito: Some(ElToritoOptions {
            load_size: 4,
            boot_image_path: String::from("CDBOOT.IMG"),
            boot_info_table: false,
        }),
        protective_mbr: false,
        files: vec![file("CDBOOT.IMG", vec![0u8; 2048])],
    };
    assert_eq!(IsoImage::format_new(&mut data, options), Ok(()));
    assert_eq!(data.len(), 1024 * 2048);
    assert_eq!(&data[16 * 2048..16 * 2048 + 7], b"\x01CD001\x01");
    assert_eq!(&data[17 * 2048..17 * 2048 + 7], b"\x00CD001\x01");
    assert_eq!(&data[18 * 2048..18 * 2048 + 7], b"\xffCD001\x01");
    assert!(IsoImage::new(&data).is_ok());
}
