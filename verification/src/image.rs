use vstd::arithmetic::overflow::CheckedU64;
use vstd::prelude::*;
use vstd::string::StringSliceAdditionalSpecFns;
use crate::boot::{catalogue_scan, BootCatalogue, MediaType};
use crate::directory::{record_bytes, DirectoryRef, RootDirectoryEntry};
use crate::error::IsoError;
use crate::layout::{
    catalogue_lba, catalogue_sector, dir_blocks, dir_lba, extents_bytes, extents_bytes_len,
    file_lba, l_table_lba, m_table_lba, sectors_for, table_len,
};
use crate::mbr::{mbr_bytes, ProtectiveMbr};
use crate::raw::{low32, low32_of, push_sector_gap, same_bytes};
use crate::reader::PathTableRef;
use crate::tree::{tree_nodes, IsoFile, NodeView};
use crate::types::{
    all_allowed, be_u32, le_u32, Charset, CharsetFile, DecDateTime, Endian, EndianType,
};
use crate::volume::{
    boot_record_bytes, descriptor_scan, primary_bytes, terminator_bytes,
    BootRecordVolumeDescriptor, PrimaryVolumeDescriptor, VolumeDescriptor, VolumeDescriptorList,
};
use crate::writer::FileWriter;

verus! {

/// How an image is made bootable.
#[derive(Clone, Debug)]
pub struct ElToritoOptions {
    /// The number of sectors of the boot image that are loaded
    pub load_size: u16,
    /// The name of the boot image, a file of the root directory
    pub boot_image_path: String,
    /// Whether to write the boot information table into the boot image
    pub boot_info_table: bool,
}

/// What an image is made from.
#[derive(Clone, Debug)]
pub struct FormatOptions {
    /// What the root directory holds
    pub files: Vec<IsoFile>,
    /// Whether the first sector gets a protective master boot record
    pub protective_mbr: bool,
    pub el_torito: Option<ElToritoOptions>,
}

/// The four dates of a primary volume descriptor.
#[derive(Clone, Copy)]
pub struct VolumeDates {
    pub created: DecDateTime,
    pub modified: DecDateTime,
    pub expires: DecDateTime,
    pub effective: DecDateTime,
}

impl VolumeDates {
    /// Whether each of the four dates is one that a clock can show.
    pub open spec fn are_readings(&self) -> bool {
        &&& self.created.is_reading()
        &&& self.modified.is_reading()
        &&& self.expires.is_reading()
        &&& self.effective.is_reading()
    }

    /// Four times the date and time that the system clock shows. It fails where the
    /// clock's reading cannot be written down, as `DecDateTime::now` does.
    pub fn now() -> (r: Result<VolumeDates, IsoError>)
        ensures
            r matches Ok(dates) ==> dates.are_readings(),
            r matches Err(e) ==> e == IsoError::IdentifierTooLong || e
                == IsoError::InvalidCharacter,
    {
        let created = match DecDateTime::now() {
            Ok(date) => date,
            Err(e) => {
                return Err(e);
            },
        };
        let modified = match DecDateTime::now() {
            Ok(date) => date,
            Err(e) => {
                return Err(e);
            },
        };
        let expires = match DecDateTime::now() {
            Ok(date) => date,
            Err(e) => {
                return Err(e);
            },
        };
        let effective = match DecDateTime::now() {
            Ok(date) => date,
            Err(e) => {
                return Err(e);
            },
        };
        Ok(VolumeDates { created, modified, expires, effective })
    }
}

/// `base` with `bytes` written over it from `at` on.
pub open spec fn overlay(base: Seq<u8>, at: int, bytes: Seq<u8>) -> Seq<u8> {
    base.subrange(0, at) + bytes + base.subrange(at + bytes.len(), base.len() as int)
}

/// Writes `bytes` over `image` from `at` on.
pub fn write_at(image: &mut Vec<u8>, at: usize, bytes: &[u8])
    requires
        at + bytes@.len() <= old(image)@.len(),
    ensures
        final(image)@ == overlay(old(image)@, at as int, bytes@),
        final(image)@.len() == old(image)@.len(),
{
    let n = bytes.len();
    let total = image.len();
    let mut i: usize = 0;
    while i < n
        invariant
            i <= n,
            n == bytes@.len(),
            total == image@.len(),
            total == old(image)@.len(),
            at + n <= total,
            forall|j: int| 0 <= j < at ==> image@[j] == old(image)@[j],
            forall|j: int| at <= j < at + i ==> image@[j] == bytes@[j - at],
            forall|j: int| at + i <= j < total ==> image@[j] == old(image)@[j],
        decreases n - i,
    {
        image[at + i] = bytes[i];
        i += 1;
    }
    assert(image@ =~= overlay(old(image)@, at as int, bytes@));
}

/// The error of the name `name` of an entry, if it has one: `IdentifierTooLong`
/// where it has more than 255 bytes, and otherwise `InvalidCharacter` where a byte of
/// it is no file identifier character.
pub open spec fn entry_name_error(name: Seq<u8>) -> Option<IsoError> {
    if name.len() > 255 {
        Some(IsoError::IdentifierTooLong)
    } else if !all_allowed::<CharsetFile>(name) {
        Some(IsoError::InvalidCharacter)
    } else {
        None
    }
}

/// The error of the first of the first `upto` entries whose name has one.
pub open spec fn name_error(nodes: Seq<NodeView>, upto: int) -> Option<IsoError>
    decreases upto,
{
    if upto <= 0 {
        None
    } else {
        match name_error(nodes, upto - 1) {
            Some(e) => Some(e),
            None => entry_name_error(nodes[upto - 1].name),
        }
    }
}

/// The place of the first file named `path` among the first `upto` entries that the
/// root directory holds.
pub open spec fn boot_image_at(nodes: Seq<NodeView>, path: Seq<u8>, upto: int) -> Option<int>
    decreases upto,
{
    if upto <= 0 {
        None
    } else {
        match boot_image_at(nodes, path, upto - 1) {
            Some(i) => Some(i),
            None => {
                let c = nodes[0].children[upto - 1] as int;
                if !nodes[c].is_dir && nodes[c].name == path {
                    Some(c)
                } else {
                    None
                }
            },
        }
    }
}

impl FormatOptions {
    /// The entries of the tree in depth-first order, the root first.
    #[verifier::opaque]
    pub open spec fn nodes(&self) -> Seq<NodeView> {
        tree_nodes(self.files@)
    }

    /// The block at which the first extent begins: behind the system area of 16
    /// blocks, the primary volume descriptor, the boot record where the image is
    /// bootable, and the descriptor that ends the set.
    pub open spec fn first_lba(&self) -> int {
        if self.el_torito is Some {
            19
        } else {
            18
        }
    }

    /// The place of the boot image among the entries, where one is asked for and
    /// found.
    pub open spec fn boot_image(&self) -> Option<int> {
        match self.el_torito {
            Some(el) => boot_image_at(
                self.nodes(),
                vstd::utf8::encode_utf8(el.boot_image_path@),
                self.nodes()[0].children.len() as int,
            ),
            None => None,
        }
    }

    /// The place of the file that gets a boot information table, if one does.
    pub open spec fn patch(&self) -> Option<int> {
        match self.el_torito {
            Some(el) => if el.boot_info_table {
                self.boot_image()
            } else {
                None
            },
            None => None,
        }
    }

    /// The number of bytes of the image: up to the end of the path tables, and one
    /// sector more for the boot catalogue where the image is bootable.
    pub open spec fn required_len(&self) -> int {
        2048 * (catalogue_lba(self.nodes(), self.first_lba()) + (if self.el_torito is Some {
            1int
        } else {
            0int
        }))
    }

    /// The error with which making an image in a byte store of `sink_len` bytes fails,
    /// if it does: that of the first entry in depth-first order with a name too long or
    /// with a character that no file identifier may hold; else `BootImageNotFound`
    /// where a boot image is asked for that the root directory does not hold as a file;
    /// else `SinkTooSmall` where the image has more bytes than the store.
    pub open spec fn format_error(&self, sink_len: int) -> Option<IsoError> {
        if name_error(self.nodes(), self.nodes().len() as int) is Some {
            name_error(self.nodes(), self.nodes().len() as int)
        } else if self.el_torito is Some && self.boot_image() is None {
            Some(IsoError::BootImageNotFound)
        } else if self.required_len() > sink_len {
            Some(IsoError::SinkTooSmall)
        } else {
            None
        }
    }

    /// The volume descriptors of the image in a byte store of `sink_len` bytes: the
    /// primary one, the boot record where the image is bootable, and the one that ends
    /// the set.
    #[verifier::opaque]
    pub open spec fn descriptors(&self, sink_len: int, dates: VolumeDates) -> Seq<u8> {
        let nodes = self.nodes();
        let first = self.first_lba();
        primary_bytes(
            low32(sink_len / 2048),
            record_bytes(
                seq![0u8],
                0x02,
                low32(dir_lba(nodes, first, 0)),
                low32(2048 * dir_blocks(nodes, 0)),
            ),
            low32(table_len(nodes, first)),
            low32(l_table_lba(nodes, first)),
            low32(m_table_lba(nodes, first)),
            dates.created.encoding(),
            dates.modified.encoding(),
            dates.expires.encoding(),
            dates.effective.encoding(),
        ) + (if self.el_torito is Some {
            boot_record_bytes(low32(catalogue_lba(nodes, first)))
        } else {
            Seq::empty()
        }) + terminator_bytes()
    }

    /// The sector of the boot catalogue, where the image is bootable.
    #[verifier::opaque]
    pub open spec fn catalogue(&self) -> Seq<u8> {
        match self.el_torito {
            Some(el) => catalogue_sector(
                el.load_size,
                low32(file_lba(self.nodes(), self.first_lba(), self.boot_image().unwrap())),
            ),
            None => Seq::empty(),
        }
    }

    /// All that is written from the block 16 on: the volume descriptors, the files,
    /// the directories, the path tables and the boot catalogue.
    #[verifier::opaque]
    pub open spec fn body(&self, sink_len: int, dates: VolumeDates) -> Seq<u8> {
        self.descriptors(sink_len, dates) + extents_bytes(
            self.nodes(),
            self.first_lba(),
            self.patch(),
        ) + self.catalogue()
    }

    /// The image that is made in a byte store that holds `old`: the protective master
    /// boot record in the first 512 bytes where it is asked for, and the body from the
    /// block 16 on; all other bytes of the store stay as they are.
    #[verifier::opaque]
    pub open spec fn formatted(&self, old: Seq<u8>, dates: VolumeDates) -> Seq<u8> {
        let start = if self.protective_mbr {
            overlay(old, 0, mbr_bytes(low32(old.len() as int / 2048)))
        } else {
            old
        };
        overlay(start, 32768, self.body(old.len() as int, dates))
    }
}

/// Checks the names of the entries of `writer`.
fn check_names<'a>(writer: &FileWriter<'a>) -> (r: Result<(), IsoError>)
    ensures
        r is Ok <==> name_error(writer.nodes(), writer.nodes().len() as int) is None,
        r matches Err(e) ==> name_error(writer.nodes(), writer.nodes().len() as int) == Some(e),
        r is Ok ==> writer.names_fit(),
{
    let files = writer.entries();
    let ghost nodes = writer.nodes();
    let n = files.len();
    let mut i: usize = 0;
    while i < n
        invariant
            i <= n,
            n == files@.len(),
            nodes == writer.nodes(),
            nodes == crate::tree::views(files@),
            name_error(nodes, i as int) is None,
            forall|j: int| 0 <= j < i ==> (#[trigger] nodes[j]).name.len() <= 255,
        decreases n - i,
    {
        let name = files[i].name;
        assert(nodes[i as int] == files@[i as int]@);
        if name.len() > 255 {
            proof {
                name_error_found(nodes, i + 1, n as int);
            }
            return Err(IsoError::IdentifierTooLong);
        }
        if !CharsetFile::is_valid(name) {
            proof {
                name_error_found(nodes, i + 1, n as int);
            }
            return Err(IsoError::InvalidCharacter);
        }
        i += 1;
    }
    Ok(())
}

/// The error of a name among the first entries is the error among all of them.
proof fn name_error_found(nodes: Seq<NodeView>, upto: int, all: int)
    requires
        0 <= upto <= all,
        name_error(nodes, upto) is Some,
    ensures
        name_error(nodes, all) == name_error(nodes, upto),
    decreases all - upto,
{
    if upto < all {
        name_error_found(nodes, upto, all - 1);
    }
}

/// Looks for the first file named `path` among what the root directory holds.
fn find_boot_image<'a>(writer: &FileWriter<'a>, path: &[u8]) -> (found: Option<usize>)
    requires
        writer.wf(),
    ensures
        found is Some <==> boot_image_at(
            writer.nodes(),
            path@,
            writer.nodes()[0].children.len() as int,
        ) is Some,
        found matches Some(i) ==> {
            &&& boot_image_at(writer.nodes(), path@, writer.nodes()[0].children.len() as int)
                == Some(i as int)
            &&& i < writer.nodes().len()
            &&& !writer.nodes()[i as int].is_dir
        },
{
    let files = writer.entries();
    let ghost nodes = writer.nodes();
    assert(nodes[0] == files@[0]@);
    assert(crate::tree::entry_ok(nodes, 0));
    let root = &files[0];
    let mut k: usize = 0;
    while k < root.children.len()
        invariant
            k <= root.children@.len(),
            nodes == crate::tree::views(files@),
            nodes == writer.nodes(),
            root.children@ == nodes[0].children,
            files@.len() >= 1,
            *root == files@[0],
            crate::tree::entry_ok(nodes, 0),
            boot_image_at(nodes, path@, k as int) is None,
        decreases root.children@.len() - k,
    {
        let c = root.children[k];
        assert(nodes[0].children[k as int] == c);
        assert(nodes[c as int] == files@[c as int]@);
        if !files[c].is_dir && same_bytes(files[c].name, path) {
            assert(boot_image_at(nodes, path@, k + 1) == Some(c as int));
            proof {
                boot_image_found(nodes, path@, k + 1, root.children@.len() as int);
            }
            return Some(c);
        }
        k += 1;
    }
    None
}

/// A boot image that is found among the first entries of the root directory is the
/// one that is found among all of them.
proof fn boot_image_found(nodes: Seq<NodeView>, path: Seq<u8>, upto: int, all: int)
    requires
        0 <= upto <= all,
        boot_image_at(nodes, path, upto) is Some,
    ensures
        boot_image_at(nodes, path, all) == boot_image_at(nodes, path, upto),
    decreases all - upto,
{
    if upto < all {
        boot_image_found(nodes, path, upto, all - 1);
    }
}

/// Where the parts of an image lie that the volume descriptors point to.
pub struct Layout {
    /// The place of the root directory
    pub root: DirectoryRef,
    /// The block of the little-endian path table, and the bytes of one table
    pub tables: DirectoryRef,
    /// The block of the big-endian path table
    pub m_table: u64,
    /// The block behind the path tables
    pub catalogue: u64,
    /// The block of the boot image, or zero where there is none
    pub boot_lba: u64,
}

impl Layout {
    /// Whether `self` is where the parts of the image of `ops` lie.
    pub open spec fn of(&self, ops: &FormatOptions) -> bool {
        let nodes = ops.nodes();
        let first = ops.first_lba();
        &&& self.root.offset == dir_lba(nodes, first, 0)
        &&& self.root.size == 2048 * dir_blocks(nodes, 0)
        &&& self.tables.offset == l_table_lba(nodes, first)
        &&& self.tables.size == table_len(nodes, first)
        &&& self.m_table == m_table_lba(nodes, first)
        &&& self.catalogue == catalogue_lba(nodes, first)
        &&& ops.el_torito is Some ==> ops.boot_image() is Some && self.boot_lba == file_lba(
            nodes,
            first,
            ops.boot_image().unwrap(),
        )
    }
}

/// The number of sectors that `len` bytes take.
fn blocks_of(len: usize) -> (blocks: u64)
    ensures
        blocks == sectors_for(len as int),
{
    (len / 2048) as u64 + if len % 2048 == 0 {
        0u64
    } else {
        1u64
    }
}

/// The blocks that follow the little-endian path table at `tables_at`: that of the
/// big-endian table, that behind the tables, and the number of bytes of the image;
/// nothing where that number is beyond 64 bits.
fn measure(tables_at: u64, l_len: usize, m_len: usize, boot: bool) -> (r: Option<(u64, u64, u64)>)
    ensures
        r is Some <==> 2048 * (tables_at + sectors_for(l_len as int) + sectors_for(m_len as int)
            + (if boot {
            1int
        } else {
            0int
        })) <= u64::MAX,
        r matches Some(t) ==> {
            &&& t.0 == tables_at + sectors_for(l_len as int)
            &&& t.1 == tables_at + sectors_for(l_len as int) + sectors_for(m_len as int)
            &&& t.2 == 2048 * (t.1 + (if boot {
                1int
            } else {
                0int
            }))
        },
{
    let l_blocks = blocks_of(l_len);
    let m_blocks = blocks_of(m_len);
    let boot_blocks: u64 = if boot {
        1
    } else {
        0
    };
    let m_table = CheckedU64::new(tables_at).add_value(l_blocks);
    let catalogue = m_table.add_value(m_blocks);
    let end = catalogue.add_value(boot_blocks).mul_value(2048);
    if end.is_overflowed() {
        return None;
    }
    Some((m_table.unwrap(), catalogue.unwrap(), end.unwrap()))
}

/// Looks for the boot image of `ops` among the entries of `writer`.
fn locate_boot<'a>(ops: &'a FormatOptions, writer: &FileWriter<'a>) -> (r: Result<
    Option<usize>,
    IsoError,
>)
    requires
        writer.wf(),
        writer.nodes() == ops.nodes(),
    ensures
        r is Err <==> ops.el_torito is Some && ops.boot_image() is None,
        r matches Err(e) ==> e == IsoError::BootImageNotFound,
        r matches Ok(found) ==> (match found {
            Some(i) => ops.el_torito is Some && ops.boot_image() == Some(i as int) && i
                < writer.nodes().len() && !writer.nodes()[i as int].is_dir,
            None => ops.el_torito is None,
        }),
{
    match &ops.el_torito {
        Some(el) => {
            match find_boot_image(writer, el.boot_image_path.as_str().as_bytes()) {
                Some(i) => Ok(Some(i)),
                None => Err(IsoError::BootImageNotFound),
            }
        },
        None => Ok(None),
    }
}

/// Lays the tree of `ops` out for a byte store of `total` bytes: checks the names,
/// finds the boot image, and gives every entry its place.
pub fn plan<'a>(ops: &'a FormatOptions, total: usize) -> (r: Result<
    (FileWriter<'a>, Layout),
    IsoError,
>)
    ensures
        r is Ok <==> ops.format_error(total as int) is None,
        r matches Err(e) ==> ops.format_error(total as int) == Some(e),
        r matches Ok(planned) ==> {
            &&& planned.0.wf()
            &&& planned.0.placed()
            &&& planned.0.names_fit()
            &&& planned.0.nodes() == ops.nodes()
            &&& planned.0.first() == ops.first_lba()
            &&& planned.0.patch() == ops.patch()
            &&& planned.1.of(ops)
        },
{
    proof {
        reveal(FormatOptions::nodes);
    }
    let ghost nodes = ops.nodes();
    let ghost first_lba = ops.first_lba();
    let mut writer = FileWriter::new(&ops.files);
    match check_names(&writer) {
        Ok(()) => {},
        Err(e) => {
            return Err(e);
        },
    }
    let boot: Option<usize> = match locate_boot(ops, &writer) {
        Ok(found) => found,
        Err(e) => {
            return Err(e);
        },
    };
    let with_table = match &ops.el_torito {
        Some(el) => el.boot_info_table,
        None => false,
    };
    let patch: Option<usize> = if with_table {
        boot
    } else {
        None
    };
    let bootable = ops.el_torito.is_some();
    let first: u64 = if bootable {
        19
    } else {
        18
    };
    let tables_at = match writer.place(first, patch) {
        Some(lba) => lba,
        None => {
            return Err(IsoError::SinkTooSmall);
        },
    };
    assert(writer.patch() == ops.patch());
    let l_table = writer.path_table(EndianType::LittleEndian);
    let m_table = writer.path_table(EndianType::BigEndian);
    let (m_at, catalogue, end) = match measure(tables_at, l_table.len(), m_table.len(), bootable) {
        Some(t) => t,
        None => {
            return Err(IsoError::SinkTooSmall);
        },
    };
    if end > total as u64 {
        return Err(IsoError::SinkTooSmall);
    }
    let root = writer.place_of(0);
    let boot_lba: u64 = match boot {
        Some(i) => writer.place_of(i).offset,
        None => 0,
    };
    let layout = Layout {
        root,
        tables: DirectoryRef { offset: tables_at, size: l_table.len() as u64 },
        m_table: m_at,
        catalogue,
        boot_lba,
    };
    Ok((writer, layout))
}

/// The volume descriptors of the image of `ops` in a byte store of `total` bytes,
/// without the one that ends the set.
pub fn descriptor_set(ops: &FormatOptions, total: usize, layout: &Layout, dates: &VolumeDates) -> (list:
    VolumeDescriptorList)
    requires
        layout.of(ops),
    ensures
        list.encoding() == ops.descriptors(total as int, *dates),
        list.descriptors@.len() == ops.first_lba() - 17,
{
    let pvd = PrimaryVolumeDescriptor::describe(
        low32_of((total / 2048) as u64),
        RootDirectoryEntry::new(layout.root),
        low32_of(layout.tables.size),
        low32_of(layout.tables.offset),
        low32_of(layout.m_table),
        dates.created,
        dates.modified,
        dates.expires,
        dates.effective,
    );
    let mut list = VolumeDescriptorList::empty();
    list.push(VolumeDescriptor::Primary(pvd));
    if ops.el_torito.is_some() {
        list.push(
            VolumeDescriptor::BootRecord(
                BootRecordVolumeDescriptor::new(low32_of(layout.catalogue)),
            ),
        );
    }
    proof {
        reveal(FormatOptions::descriptors);
        reveal_with_fuel(crate::volume::descriptors_bytes, 3);
        assert(list.encoding() =~= ops.descriptors(total as int, *dates));
    }
    list
}

/// Appends the sector of the boot catalogue of `ops` to `body`, where the image is
/// bootable.
fn write_catalogue(ops: &FormatOptions, layout: &Layout, body: &mut Vec<u8>)
    requires
        layout.of(ops),
    ensures
        final(body)@ == old(body)@ + ops.catalogue(),
        ops.catalogue().len() == (if ops.el_torito is Some {
            2048int
        } else {
            0int
        }),
{
    proof {
        reveal(FormatOptions::catalogue);
    }
    match &ops.el_torito {
        Some(el) => {
            let catalogue = BootCatalogue::new(
                MediaType::NoEmulation,
                0x00,
                el.load_size,
                low32_of(layout.boot_lba),
            );
            catalogue.write(body);
            push_sector_gap(body, 96);
            proof {
                crate::types::u16_round_trip(0);
                crate::types::u16_round_trip(el.load_size);
                crate::types::u32_round_trip(low32(layout.boot_lba as int));
                let bytes = crate::boot::catalogue_bytes(
                    0,
                    0,
                    el.load_size,
                    low32(layout.boot_lba as int),
                );
                assert(bytes.len() == 96);
                crate::raw::sector_padded_len(bytes);
                assert(body@ =~= old(body)@ + ops.catalogue());
            }
        },
        None => {
            assert(body@ =~= old(body)@ + ops.catalogue());
        },
    }
}

/// Writes the protective master boot record of a volume that fills `data` over the
/// first 512 bytes of `data`.
fn write_mbr(data: &mut Vec<u8>)
    requires
        old(data)@.len() >= 512,
    ensures
        final(data)@ == overlay(old(data)@, 0, mbr_bytes(low32(old(data)@.len() as int / 2048))),
        final(data)@.len() == old(data)@.len(),
{
    let total = data.len();
    let mbr = ProtectiveMbr::new(low32_of((total / 2048) as u64));
    let bytes = mbr.to_bytes();
    proof {
        mbr.encoding_len();
    }
    write_at(data, 0, bytes.as_slice());
}

/// The place among the first `count` volume descriptors of `bytes`, from `from` on,
/// of the first whose kind byte is `kind`; or `count` where there is none.
pub open spec fn first_descriptor(bytes: Seq<u8>, kind: u8, count: int, from: int) -> int
    decreases count - from,
{
    if from < 0 || from >= count {
        count
    } else if bytes[32768 + 2048 * from] == kind {
        from
    } else {
        first_descriptor(bytes, kind, count, from + 1)
    }
}

/// The byte at which the first primary volume descriptor of `bytes` begins.
pub open spec fn primary_at(bytes: Seq<u8>) -> int {
    32768 + 2048 * first_descriptor(bytes, 1, descriptor_scan(bytes, 32768).unwrap() as int, 0)
}

/// The byte at which the first boot record of `bytes` begins.
pub open spec fn boot_record_at(bytes: Seq<u8>) -> int {
    32768 + 2048 * first_descriptor(bytes, 0, descriptor_scan(bytes, 32768).unwrap() as int, 0)
}

/// The error with which opening the image `bytes` fails, if it does: that of reading
/// the volume descriptors from the block 16 on; else `CorruptImage` where there is no
/// primary volume descriptor, or where a number of the first one differs between the
/// two byte orders; else, where there is a boot record, that of reading the boot
/// catalogue that the first one points to.
pub open spec fn open_error(bytes: Seq<u8>) -> Option<IsoError> {
    match descriptor_scan(bytes, 32768) {
        Err(e) => Some(e),
        Ok(n) => {
            if first_descriptor(bytes, 1, n as int, 0) >= n {
                Some(IsoError::CorruptImage)
            } else if !PrimaryVolumeDescriptor::consistent_at(bytes, primary_at(bytes)) {
                Some(IsoError::CorruptImage)
            } else if first_descriptor(bytes, 0, n as int, 0) < n {
                match catalogue_scan(
                    bytes,
                    2048 * le_u32(
                        bytes.subrange(boot_record_at(bytes) + 71, boot_record_at(bytes) + 75),
                    ),
                ) {
                    Err(e) => Some(e),
                    Ok(_) => None,
                }
            } else {
                None
            }
        },
    }
}

/// The first primary descriptor of a list that was read from `bytes` is the first
/// descriptor of `bytes` with the kind byte one, and likewise the first boot record.
proof fn first_kinds(set: Seq<VolumeDescriptor>, bytes: Seq<u8>, from: int)
    requires
        0 <= from <= set.len(),
        forall|i: int|
            0 <= i < set.len() ==> {
                &&& (#[trigger] set[i] is Primary) <==> bytes[32768 + 2048 * i] == 0x01
                &&& (set[i] is BootRecord) <==> bytes[32768 + 2048 * i] == 0x00
            },
    ensures
        VolumeDescriptorList::first_primary(set, from) == first_descriptor(
            bytes,
            1,
            set.len() as int,
            from,
        ),
        VolumeDescriptorList::first_boot_record(set, from) == first_descriptor(
            bytes,
            0,
            set.len() as int,
            from,
        ),
        from <= VolumeDescriptorList::first_primary(set, from) <= set.len(),
        from <= VolumeDescriptorList::first_boot_record(set, from) <= set.len(),
    decreases set.len() - from,
{
    if from < set.len() {
        first_kinds(set, bytes, from + 1);
        assert((set[from] is Primary) <==> bytes[32768 + 2048 * from] == 0x01);
    }
}

/// An image on a byte store, opened for reading.
pub struct IsoImage {
    size: u64,
    volume_descriptors: VolumeDescriptorList,
    root_directory: DirectoryRef,
    path_table: PathTableRef,
}

impl IsoImage {
    /// Makes the image of `ops` in the byte store `data`, with the dates `dates` in
    /// its primary volume descriptor. On failure the store stays as it is.
    pub fn format_at(data: &mut Vec<u8>, ops: FormatOptions, dates: &VolumeDates) -> (r: Result<
        (),
        IsoError,
    >)
        ensures
            r is Ok <==> ops.format_error(old(data)@.len() as int) is None,
            r is Ok ==> final(data)@ == ops.formatted(old(data)@, *dates),
            r matches Err(e) ==> ops.format_error(old(data)@.len() as int) == Some(e),
            r is Err ==> final(data)@ == old(data)@,
    {
        let total = data.len();
        let (writer, layout) = match plan(&ops, total) {
            Ok(planned) => planned,
            Err(e) => {
                return Err(e);
            },
        };
        let volume_descriptors = descriptor_set(&ops, total, &layout, dates);
        let mut body: Vec<u8> = Vec::new();
        proof {
            extents_bytes_len(ops.nodes(), ops.first_lba(), ops.patch());
        }
        volume_descriptors.write(&mut body);
        let ghost head = body@;
        writer.write(&mut body);
        let ghost middle = body@;
        write_catalogue(&ops, &layout, &mut body);
        proof {
            reveal(FormatOptions::body);
            reveal(FormatOptions::formatted);
            crate::volume::descriptors_bytes_len(
                volume_descriptors.descriptors@,
                volume_descriptors.descriptors@.len() as int,
            );
            assert(head == ops.descriptors(total as int, *dates));
            assert(middle == head + extents_bytes(ops.nodes(), ops.first_lba(), ops.patch()));
            assert(body@ == ops.body(total as int, *dates));
            assert(body@.len() == ops.required_len() - 32768);
        }
        if ops.protective_mbr {
            write_mbr(data);
        }
        write_at(data, 32768, body.as_slice());
        Ok(())
    }

    /// Makes the image of `ops` in the byte store `data`, dated by the system clock.
    /// It fails as `format_at` does, and besides where the clock's reading cannot be
    /// written down. On failure the store stays as it is.
    pub fn format_new(data: &mut Vec<u8>, ops: FormatOptions) -> (r: Result<(), IsoError>)
        ensures
            r is Ok ==> ops.format_error(old(data)@.len() as int) is None && exists|
                dates: VolumeDates,
            |
                dates.are_readings() && final(data)@ == #[trigger] ops.formatted(
                    old(data)@,
                    dates,
                ),
            r is Err ==> final(data)@ == old(data)@,
            r matches Err(e) ==> ops.format_error(old(data)@.len() as int) == Some(e) || e
                == IsoError::IdentifierTooLong || e == IsoError::InvalidCharacter,
    {
        let dates = match VolumeDates::now() {
            Ok(dates) => dates,
            Err(e) => {
                return Err(e);
            },
        };
        Self::format_at(data, ops, &dates)
    }
}

impl IsoImage {
    /// The place of the root directory.
    pub closed spec fn root(&self) -> DirectoryRef {
        self.root_directory
    }

    /// The places of the path tables.
    pub closed spec fn tables(&self) -> PathTableRef {
        self.path_table
    }

    /// The volume descriptors, without the one that ends the set.
    pub closed spec fn descriptors(&self) -> Seq<VolumeDescriptor> {
        self.volume_descriptors.descriptors@
    }

    /// The number of bytes of the byte store.
    pub closed spec fn spec_size(&self) -> int {
        self.size as int
    }

    /// Opens the image that `data` holds: reads the volume descriptors and, where
    /// there is a boot record, the boot catalogue.
    pub fn new(data: &[u8]) -> (r: Result<IsoImage, IsoError>)
        ensures
            r is Ok <==> open_error(data@) is None,
            r matches Err(e) ==> open_error(data@) == Some(e),
            r matches Ok(image) ==> {
                let at = primary_at(data@);
                &&& image.spec_size() == data@.len()
                &&& image.root().offset == le_u32(data@.subrange(at + 158, at + 162))
                &&& image.root().size == le_u32(data@.subrange(at + 166, at + 170))
                &&& image.tables().lpath_table_offset == le_u32(data@.subrange(at + 140, at + 144))
                &&& image.tables().mpath_table_offset == be_u32(data@.subrange(at + 148, at + 152))
                &&& image.tables().size == le_u32(data@.subrange(at + 132, at + 136))
                &&& image.descriptors().len() == descriptor_scan(data@, 32768).unwrap()
                &&& forall|i: int|
                    0 <= i < image.descriptors().len() ==> (#[trigger] image.descriptors()[i]).encoding()
                        == data@.subrange(32768 + 2048 * i, 32768 + 2048 * i + 2048)
            },
    {
        let total = data.len();
        let volume_descriptors = match VolumeDescriptorList::parse(data, 32768) {
            Ok(list) => list,
            Err(e) => {
                return Err(e);
            },
        };
        proof {
            first_kinds(volume_descriptors.descriptors@, data@, 0);
        }
        let at = match volume_descriptors.find_primary() {
            Some(i) => i,
            None => {
                return Err(IsoError::CorruptImage);
            },
        };
        let pvd = volume_descriptors.primary();
        proof {
            pvd.fields_at(data@, 32768 + 2048 * at);
        }
        if !pvd.is_consistent() {
            return Err(IsoError::CorruptImage);
        }
        let root_directory = DirectoryRef {
            offset: pvd.dir_record.header.extent.read_lsb() as u64,
            size: pvd.dir_record.header.data_len.read_lsb() as u64,
        };
        let path_table = PathTableRef {
            lpath_table_offset: pvd.type_l_path_table.get() as u64,
            mpath_table_offset: pvd.type_m_path_table.get() as u64,
            size: pvd.path_table_size.read_lsb() as u64,
        };
        match volume_descriptors.boot_record() {
            Some(boot) => {
                proof {
                    let b = VolumeDescriptorList::first_boot_record(
                        volume_descriptors.descriptors@,
                        0,
                    );
                    boot.encoding_len();
                    crate::raw::part_of_part(data@, 32768 + 2048 * b, 2048, 71, 75);
                }
                let block = boot.catalog_ptr.get() as u64;
                if block > (total / 2048) as u64 {
                    return Err(IsoError::IOFailed);
                }
                match BootCatalogue::parse(data, (block as usize) * 2048) {
                    Ok(_) => {},
                    Err(e) => {
                        return Err(e);
                    },
                }
            },
            None => {},
        }
        Ok(IsoImage { size: total as u64, volume_descriptors, root_directory, path_table })
    }

    /// The root directory.
    pub fn root_directory(&self) -> (dir: crate::reader::IsoDirectory)
        ensures
            dir.directory == self.root(),
    {
        crate::reader::IsoDirectory { directory: self.root_directory }
    }

    /// The path tables.
    pub fn path_table(&self) -> (table: crate::reader::IsoPathTable)
        ensures
            table.path_table == self.tables(),
    {
        crate::reader::IsoPathTable { path_table: self.path_table }
    }

    /// The volume descriptors, without the one that ends the set.
    pub fn volume_descriptors(&self) -> (list: &VolumeDescriptorList)
        ensures
            list.descriptors@ == self.descriptors(),
    {
        &self.volume_descriptors
    }

    /// The number of bytes of the byte store.
    pub fn size(&self) -> (size: u64)
        ensures
            size == self.spec_size(),
    {
        self.size
    }
}

} // verus!
