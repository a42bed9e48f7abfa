use vstd::prelude::*;
use crate::image::{overlay, FormatOptions, VolumeDates};
use crate::layout::{
    catalogue_lba, dir_blocks, dir_lba, dir_records, extents_bytes, file_blocks,
    file_content, file_lba, l_table_lba, m_table_lba, table_bytes, table_len,
};
use crate::mbr::mbr_bytes;
use crate::directory::{record_bytes, record_span, DirectoryRecordHeader};
use crate::error::IsoError;
use crate::raw::{low32, sector_padded};
use crate::reader::{
    extent_of, record_fits, record_lba, record_name, record_size, records_scan,
};
use crate::tree::NodeView;
use crate::types::{be_u32, le_u32, EndianType};

verus! {

/// The volume descriptors of an image take the blocks from 16 up to the first extent.
pub proof fn descriptors_len(ops: FormatOptions, sink_len: int, dates: VolumeDates)
    ensures
        ops.descriptors(sink_len, dates).len() == 2048 * (ops.first_lba() - 16),
{
    let nodes = ops.nodes();
    let first = ops.first_lba();
    dates.created.encoding_len();
    dates.modified.encoding_len();
    dates.expires.encoding_len();
    dates.effective.encoding_len();
    let root = crate::directory::record_bytes(
        seq![0u8],
        0x02,
        low32(dir_lba(nodes, first, 0)),
        low32(2048 * dir_blocks(nodes, 0)),
    );
    crate::directory::record_bytes_len(
        seq![0u8],
        0x02,
        low32(dir_lba(nodes, first, 0)),
        low32(2048 * dir_blocks(nodes, 0)),
    );
    crate::volume::primary_bytes_len(
        low32(sink_len / 2048),
        root,
        low32(table_len(nodes, first)),
        low32(l_table_lba(nodes, first)),
        low32(m_table_lba(nodes, first)),
        dates.created.encoding(),
        dates.modified.encoding(),
        dates.expires.encoding(),
        dates.effective.encoding(),
    );
    crate::volume::boot_record_bytes_len(low32(catalogue_lba(nodes, first)));
    crate::volume::terminator_bytes_len();
    reveal(FormatOptions::descriptors);
}

/// The boot catalogue of an image takes one sector where the image is bootable, and
/// none where it is not.
pub proof fn catalogue_len(ops: FormatOptions)
    ensures
        ops.catalogue().len() == (if ops.el_torito is Some {
            2048int
        } else {
            0int
        }),
{
    reveal(FormatOptions::catalogue);
    match ops.el_torito {
        Some(el) => {
            let rba = low32(file_lba(ops.nodes(), ops.first_lba(), ops.boot_image().unwrap()));
            crate::boot::catalogue_bytes_len(0, 0, el.load_size, rba);
            crate::raw::sector_padded_len(crate::boot::catalogue_bytes(0, 0, el.load_size, rba));
        },
        None => {},
    }
}

/// The body of an image ends where `required_len` says, and holds the volume
/// descriptors, the extents and the boot catalogue one behind the other.
#[verifier::spinoff_prover]
pub proof fn body_len(ops: FormatOptions, sink_len: int, dates: VolumeDates)
    ensures
        ({
            let body = ops.body(sink_len, dates);
            let head = 2048 * (ops.first_lba() - 16);
            let tail = 2048 * (catalogue_lba(ops.nodes(), ops.first_lba()) - 16);
            &&& body.len() == ops.required_len() - 32768
            &&& 2048 <= head <= tail <= body.len()
            &&& body.subrange(0, head) == ops.descriptors(sink_len, dates)
            &&& body.subrange(head, tail) == extents_bytes(
                ops.nodes(),
                ops.first_lba(),
                ops.patch(),
            )
            &&& body.subrange(tail, body.len() as int) == ops.catalogue()
        }),
{
    reveal(FormatOptions::body);
    descriptors_len(ops, sink_len, dates);
    catalogue_len(ops);
    crate::layout::extents_bytes_len(ops.nodes(), ops.first_lba(), ops.patch());
    let body = ops.body(sink_len, dates);
    let head = 2048 * (ops.first_lba() - 16);
    let tail = 2048 * (catalogue_lba(ops.nodes(), ops.first_lba()) - 16);
    assert(body.subrange(0, head) =~= ops.descriptors(sink_len, dates));
    assert(body.subrange(head, tail) =~= extents_bytes(
        ops.nodes(),
        ops.first_lba(),
        ops.patch(),
    ));
    assert(body.subrange(tail, body.len() as int) =~= ops.catalogue());
}

/// What an image is made of: the body stands from the block 16 on; before it the
/// store is as it was, but for the protective master boot record in the first 512
/// bytes where it is asked for; and behind it the store is as it was.
#[verifier::spinoff_prover]
pub proof fn formatted_parts(ops: FormatOptions, old: Seq<u8>, dates: VolumeDates)
    requires
        ops.format_error(old.len() as int) is None,
    ensures
        ({
            let image = ops.formatted(old, dates);
            let body = ops.body(old.len() as int, dates);
            let end = ops.required_len();
            &&& image.len() == old.len()
            &&& 34816 <= end <= old.len()
            &&& end == 32768 + body.len()
            &&& image.subrange(32768, end) == body
            &&& image.subrange(end, image.len() as int) == old.subrange(end, old.len() as int)
            &&& image.subrange(512, 32768) == old.subrange(512, 32768)
            &&& image.subrange(0, 512) == (if ops.protective_mbr {
                mbr_bytes(low32(old.len() as int / 2048))
            } else {
                old.subrange(0, 512)
            })
        }),
{
    let image = ops.formatted(old, dates);
    let body = ops.body(old.len() as int, dates);
    let end = ops.required_len();
    reveal(FormatOptions::formatted);
    body_len(ops, old.len() as int, dates);
    let mbr = mbr_bytes(low32(old.len() as int / 2048));
    crate::mbr::mbr_bytes_len(low32(old.len() as int / 2048));
    let start = if ops.protective_mbr {
        overlay(old, 0, mbr)
    } else {
        old
    };
    assert(start.len() == old.len());
    assert(image == overlay(start, 32768, body));
    assert(image.subrange(32768, end) =~= body);
    assert(image.subrange(end, image.len() as int) =~= old.subrange(end, old.len() as int));
    assert(image.subrange(512, 32768) =~= old.subrange(512, 32768));
    if ops.protective_mbr {
        assert(image.subrange(0, 512) =~= mbr);
    } else {
        assert(image.subrange(0, 512) =~= old.subrange(0, 512));
    }
}

/// A part of the extents of an image stands in the image behind the volume
/// descriptors: `a` bytes behind the first extent.
#[verifier::spinoff_prover]
pub proof fn extents_part(ops: FormatOptions, old: Seq<u8>, dates: VolumeDates, a: int, b: int)
    requires
        ops.format_error(old.len() as int) is None,
        0 <= a <= b <= extents_bytes(ops.nodes(), ops.first_lba(), ops.patch()).len(),
    ensures
        ops.formatted(old, dates).len() == old.len(),
        2048 * ops.first_lba() + b <= old.len(),
        ops.formatted(old, dates).subrange(
            2048 * ops.first_lba() + a,
            2048 * ops.first_lba() + b,
        ) == extents_bytes(ops.nodes(), ops.first_lba(), ops.patch()).subrange(a, b),
{
    formatted_parts(ops, old, dates);
    body_len(ops, old.len() as int, dates);
    let image = ops.formatted(old, dates);
    let body = ops.body(old.len() as int, dates);
    let head = 2048 * (ops.first_lba() - 16);
    let tail = 2048 * (catalogue_lba(ops.nodes(), ops.first_lba()) - 16);
    crate::raw::part_of_part(image, 32768, body.len() as int, head + a, head + b);
    crate::raw::part_of_part(body, head, tail - head, a, b);
}

/// The extent of the file at `i` among the extents: it begins behind the extents of
/// the files after it.
proof fn file_among_extents(nodes: Seq<NodeView>, first: int, patch: Option<int>, i: int)
    requires
        0 <= i < nodes.len(),
        !nodes[i].is_dir,
    ensures
        ({
            let at = 2048 * (file_lba(nodes, first, i) - first);
            let span = 2048 * file_blocks(nodes, i);
            let all = extents_bytes(nodes, first, patch);
            let content = file_content(nodes, first, patch, i);
            &&& 0 <= at
            &&& 0 <= content.len() <= span
            &&& content.len() == nodes[i].data.len()
            &&& at + span <= all.len()
            &&& all.subrange(at, at + span) == sector_padded(content)
            &&& all.subrange(at, at + content.len()) == content
        }),
{
    let at = 2048 * (file_lba(nodes, first, i) - first);
    let span = 2048 * file_blocks(nodes, i);
    let all = extents_bytes(nodes, first, patch);
    let content = file_content(nodes, first, patch, i);
    let dirs_at = 2048 * crate::layout::file_blocks_from(nodes, 0);
    crate::layout::extents_parts(nodes, first, patch);
    crate::layout::files_bytes_part(nodes, first, patch, 0, i);
    crate::layout::file_content_len(nodes, first, patch, i);
    crate::raw::sector_padded_len(content);
    crate::raw::part_of_part(all, 0, dirs_at, at, at + span);
    crate::raw::part_of_part(all, at, span, 0, content.len() as int);
    assert(sector_padded(content).subrange(0, content.len() as int) =~= content);
}

/// The extent of the directory at `d` among the extents: it begins behind the files
/// and the extents of the directories after it.
proof fn directory_among_extents(nodes: Seq<NodeView>, first: int, patch: Option<int>, d: int)
    requires
        0 <= d < nodes.len(),
        nodes[d].is_dir,
    ensures
        ({
            let at = 2048 * (dir_lba(nodes, first, d) - first);
            let span = 2048 * dir_blocks(nodes, d);
            let all = extents_bytes(nodes, first, patch);
            &&& 0 <= at
            &&& 0 <= span
            &&& at + span <= all.len()
            &&& all.subrange(at, at + span) == sector_padded(dir_records(nodes, first, d))
        }),
{
    let at = 2048 * (dir_lba(nodes, first, d) - first);
    let span = 2048 * dir_blocks(nodes, d);
    let all = extents_bytes(nodes, first, patch);
    let dirs_at = 2048 * crate::layout::file_blocks_from(nodes, 0);
    let l_at = 2048 * (l_table_lba(nodes, first) - first);
    let within = 2048 * crate::layout::dir_blocks_from(nodes, d + 1);
    crate::layout::extents_parts(nodes, first, patch);
    crate::layout::dirs_bytes_part(nodes, first, 0, d);
    crate::layout::dir_records_len(nodes, first, d);
    crate::raw::sector_padded_len(dir_records(nodes, first, d));
    assert(at == dirs_at + within);
    crate::raw::part_of_part(all, dirs_at, l_at - dirs_at, within, within + span);
}

/// The extent of every file begins at the block that its record names: the bytes of
/// the image from that block on are the content of the file, filled up with zero bytes
/// to whole sectors.
#[verifier::spinoff_prover]
pub proof fn file_stands_at_its_block(ops: FormatOptions, old: Seq<u8>, dates: VolumeDates, i: int)
    requires
        ops.format_error(old.len() as int) is None,
        0 <= i < ops.nodes().len(),
        !ops.nodes()[i].is_dir,
    ensures
        ({
            let nodes = ops.nodes();
            let first = ops.first_lba();
            let content = file_content(nodes, first, ops.patch(), i);
            &&& content.len() == nodes[i].data.len()
            &&& extent_of(
                ops.formatted(old, dates),
                file_lba(nodes, first, i),
                2048 * file_blocks(nodes, i),
            ) == Some(sector_padded(content))
            &&& extent_of(
                ops.formatted(old, dates),
                file_lba(nodes, first, i),
                nodes[i].data.len() as int,
            ) == Some(content)
        }),
{
    let nodes = ops.nodes();
    let first = ops.first_lba();
    let at = 2048 * (file_lba(nodes, first, i) - first);
    let span = 2048 * file_blocks(nodes, i);
    let content = file_content(nodes, first, ops.patch(), i);
    file_among_extents(nodes, first, ops.patch(), i);
    extents_part(ops, old, dates, at, at + span);
    extents_part(ops, old, dates, at, at + content.len());
}

/// The extent of every directory begins at the block that its record names: the bytes
/// of the image from that block on are the records of the directory, filled up with
/// zero bytes to whole sectors.
#[verifier::spinoff_prover]
pub proof fn directory_stands_at_its_block(
    ops: FormatOptions,
    old: Seq<u8>,
    dates: VolumeDates,
    d: int,
)
    requires
        ops.format_error(old.len() as int) is None,
        0 <= d < ops.nodes().len(),
        ops.nodes()[d].is_dir,
    ensures
        extent_of(
            ops.formatted(old, dates),
            dir_lba(ops.nodes(), ops.first_lba(), d),
            2048 * dir_blocks(ops.nodes(), d),
        ) == Some(sector_padded(dir_records(ops.nodes(), ops.first_lba(), d))),
{
    let nodes = ops.nodes();
    let first = ops.first_lba();
    let at = 2048 * (dir_lba(nodes, first, d) - first);
    let span = 2048 * dir_blocks(nodes, d);
    directory_among_extents(nodes, first, ops.patch(), d);
    extents_part(ops, old, dates, at, at + span);
}

/// Each path table begins at the block that the primary volume descriptor names for
/// it.
#[verifier::spinoff_prover]
pub proof fn tables_stand_at_their_blocks(ops: FormatOptions, old: Seq<u8>, dates: VolumeDates)
    requires
        ops.format_error(old.len() as int) is None,
    ensures
        ({
            let nodes = ops.nodes();
            let first = ops.first_lba();
            let image = ops.formatted(old, dates);
            let l = table_bytes(nodes, first, EndianType::LittleEndian);
            let m = table_bytes(nodes, first, EndianType::BigEndian);
            &&& extent_of(image, l_table_lba(nodes, first), l.len() as int) == Some(l)
            &&& extent_of(image, m_table_lba(nodes, first), m.len() as int) == Some(m)
        }),
{
    let nodes = ops.nodes();
    let first = ops.first_lba();
    let l = table_bytes(nodes, first, EndianType::LittleEndian);
    let m = table_bytes(nodes, first, EndianType::BigEndian);
    crate::layout::extents_parts(nodes, first, ops.patch());
    let l_at = 2048 * (l_table_lba(nodes, first) - first);
    let m_at = 2048 * (m_table_lba(nodes, first) - first);
    extents_part(ops, old, dates, l_at, l_at + l.len());
    extents_part(ops, old, dates, m_at, m_at + m.len());
}

/// The boot catalogue of a bootable image stands in the block behind the path
/// tables, which is the block that the boot record names.
#[verifier::spinoff_prover]
pub proof fn catalogue_stands_at_its_block(ops: FormatOptions, old: Seq<u8>, dates: VolumeDates)
    requires
        ops.format_error(old.len() as int) is None,
        ops.el_torito is Some,
    ensures
        extent_of(
            ops.formatted(old, dates),
            catalogue_lba(ops.nodes(), ops.first_lba()),
            2048,
        ) == Some(ops.catalogue()),
{
    let image = ops.formatted(old, dates);
    let body = ops.body(old.len() as int, dates);
    formatted_parts(ops, old, dates);
    body_len(ops, old.len() as int, dates);
    catalogue_len(ops);
    let tail = 2048 * (catalogue_lba(ops.nodes(), ops.first_lba()) - 16);
    crate::raw::part_of_part(image, 32768, body.len() as int, tail, tail + 2048);
}

/// What a directory record says: the identifier, the flags, and where the extent
/// lies.
pub struct RecordView {
    pub name: Seq<u8>,
    pub flags: u8,
    pub lba: u32,
    pub size: u32,
}

impl RecordView {
    /// The bytes of the record.
    pub open spec fn bytes(self) -> Seq<u8> {
        record_bytes(self.name, self.flags, self.lba, self.size)
    }

    /// The number of bytes of the record.
    pub open spec fn span(self) -> int {
        record_span(self.name.len() as int)
    }
}

/// The bytes of the first `upto` of `records`, one behind the other.
pub open spec fn records_bytes(records: Seq<RecordView>, upto: int) -> Seq<u8>
    decreases upto,
{
    if upto <= 0 {
        Seq::empty()
    } else {
        records_bytes(records, upto - 1) + records[upto - 1].bytes()
    }
}

/// The place of the record `k` of `records` in their bytes: the number of bytes of
/// the records before it.
pub open spec fn record_place(records: Seq<RecordView>, k: int) -> int {
    records_bytes(records, k).len() as int
}

/// The places of the records `from` to `upto` of `records`.
pub open spec fn record_places(records: Seq<RecordView>, from: int, upto: int) -> Seq<int>
    decreases upto - from,
{
    if from >= upto {
        Seq::empty()
    } else {
        seq![record_place(records, from)] + record_places(records, from + 1, upto)
    }
}

/// The bytes of the first records stand at the head of the bytes of more of them.
pub proof fn records_bytes_prefix(records: Seq<RecordView>, k: int, upto: int)
    requires
        0 <= k <= upto <= records.len(),
    ensures
        records_bytes(records, k).len() <= records_bytes(records, upto).len(),
        records_bytes(records, upto).subrange(0, records_bytes(records, k).len() as int)
            == records_bytes(records, k),
    decreases upto - k,
{
    if k < upto {
        records_bytes_prefix(records, k, upto - 1);
        let shorter = records_bytes(records, upto - 1);
        let longer = records_bytes(records, upto);
        assert(longer.subrange(0, records_bytes(records, k).len() as int) =~= shorter.subrange(
            0,
            records_bytes(records, k).len() as int,
        ));
    } else {
        assert(records_bytes(records, upto).subrange(0, records_bytes(records, k).len() as int)
            =~= records_bytes(records, k));
    }
}

/// The record `k` stands at its place in the bytes of the records.
pub proof fn record_stands_at_its_place(records: Seq<RecordView>, k: int, upto: int)
    requires
        0 <= k < upto <= records.len(),
    ensures
        record_place(records, k) + records[k].span() == record_place(records, k + 1),
        record_place(records, k + 1) <= records_bytes(records, upto).len(),
        records_bytes(records, upto).subrange(
            record_place(records, k),
            record_place(records, k + 1),
        ) == records[k].bytes(),
{
    records_bytes_prefix(records, k + 1, upto);
    crate::directory::record_bytes_len(
        records[k].name,
        records[k].flags,
        records[k].lba,
        records[k].size,
    );
    let all = records_bytes(records, upto);
    let head = records_bytes(records, k + 1);
    let at = record_place(records, k);
    crate::raw::part_of_part(all, 0, head.len() as int, at, head.len() as int);
    assert(head.subrange(at, head.len() as int) =~= records[k].bytes());
}

/// What stands in a directory where a record with an identifier of at most 221
/// bytes stands: its length byte is the number of its bytes and no zero, the record
/// fits, its numbers are the same in both byte orders, and identifier, flags, block
/// and size are read back as they were written.
pub proof fn record_reads_back(extent: Seq<u8>, at: int, record: RecordView)
    requires
        0 <= at,
        record.name.len() <= 221,
        at + record.span() <= extent.len(),
        extent.subrange(at, at + record.span()) == record.bytes(),
    ensures
        extent[at] == record.span(),
        34 <= record.span() <= 254,
        record_fits(extent, at),
        DirectoryRecordHeader::consistent_at(extent, at),
        record_name(extent, at) == record.name,
        record_lba(extent, at) == record.lba,
        record_size(extent, at) == record.size,
        extent[at + 25] == record.flags,
{
    let r = record.bytes();
    let n = record.name.len() as int;
    let span = record.span();
    let header = crate::directory::record_header_bytes(n, record.flags, record.lba, record.size);
    crate::directory::record_bytes_len(record.name, record.flags, record.lba, record.size);
    crate::directory::record_length_is_even(n);
    crate::directory::record_header_fields(n, record.flags, record.lba, record.size);
    crate::types::u32_round_trip(record.lba);
    crate::types::u32_round_trip(record.size);
    crate::types::u16_round_trip(1);
    let tail = record.name + crate::raw::zeros(crate::directory::record_pad(n) as nat);
    assert(r == header + record.name + crate::raw::zeros(crate::directory::record_pad(n) as nat));
    assert(r =~= header + tail);
    crate::raw::parts_of_sum(header, tail);
    crate::raw::parts_of_sum(record.name, crate::raw::zeros(crate::directory::record_pad(n) as nat));
    assert(r.subrange(0, 33) == header);
    assert(r.subrange(33, 33 + n) == record.name) by {
        crate::raw::part_of_part(r, 33, tail.len() as int, 0, n);
    }
    assert(extent[at] == r[0]);
    assert(extent[at + 25] == r[25]);
    assert(extent[at + 32] == r[32]);
    assert(r[0] == header[0] && r[25] == header[25] && r[32] == header[32]);
    crate::raw::part_of_part(extent, at, span, 0, 33);
    crate::raw::part_of_part(extent, at, span, 33, 33 + n);
    crate::raw::part_of_part(extent, at, 33, 2, 6);
    crate::raw::part_of_part(extent, at, 33, 6, 10);
    crate::raw::part_of_part(extent, at, 33, 10, 14);
    crate::raw::part_of_part(extent, at, 33, 14, 18);
    crate::raw::part_of_part(extent, at, 33, 28, 30);
    crate::raw::part_of_part(extent, at, 33, 30, 32);
}

/// Reading a directory that holds `records`, each with an identifier of at most 221
/// bytes, and behind them only zero bytes, finds the records from `k` on at their
/// places.
pub proof fn records_are_found(extent: Seq<u8>, records: Seq<RecordView>, k: int)
    requires
        0 <= k <= records.len(),
        forall|j: int| 0 <= j < records.len() ==> (#[trigger] records[j]).name.len() <= 221,
        records_bytes(records, records.len() as int).len() <= extent.len(),
        extent.subrange(0, records_bytes(records, records.len() as int).len() as int)
            == records_bytes(records, records.len() as int),
        forall|j: int|
            records_bytes(records, records.len() as int).len() <= j < extent.len()
                ==> extent[j] == 0,
    ensures
        records_scan(extent, record_place(records, k)) == Ok::<Seq<int>, IsoError>(
            record_places(records, k, records.len() as int),
        ),
    decreases records.len() - k,
{
    let m = records.len() as int;
    let all = records_bytes(records, m);
    let at = record_place(records, k);
    if k == m {
        assert(at == all.len());
        assert(record_places(records, k, m) =~= Seq::<int>::empty());
        if at < extent.len() {
            assert(extent[at] == 0);
        }
    } else {
        record_stands_at_its_place(records, k, m);
        crate::raw::part_of_part(extent, 0, all.len() as int, at, record_place(records, k + 1));
        record_reads_back(extent, at, records[k]);
        records_are_found(extent, records, k + 1);
        assert(at + extent[at] == record_place(records, k + 1));
    }
}

/// What the records of the directory at `d` say: itself under the name `00`, its
/// parent under the name `01`, and then what it holds.
pub open spec fn dir_entries(nodes: Seq<NodeView>, first: int, d: int) -> Seq<RecordView> {
    seq![
        node_entry(nodes, first, d, seq![0u8]),
        node_entry(nodes, first, nodes[d].parent as int, seq![1u8]),
    ] + Seq::new(
        nodes[d].children.len(),
        |k: int| node_entry(nodes, first, nodes[d].children[k] as int, nodes[nodes[d].children[k] as int].name),
    )
}

/// What the record of the entry at `i` under the name `name` says.
pub open spec fn node_entry(nodes: Seq<NodeView>, first: int, i: int, name: Seq<u8>) -> RecordView {
    RecordView {
        name,
        flags: crate::layout::record_flags(nodes[i]),
        lba: low32(crate::layout::extent_lba(nodes, first, i)),
        size: low32(crate::layout::extent_size(nodes, i)),
    }
}

/// The records of what a directory holds are the bytes of what they say.
proof fn child_records_are_entries(nodes: Seq<NodeView>, first: int, d: int, upto: int)
    requires
        0 <= upto <= nodes[d].children.len(),
    ensures
        records_bytes(dir_entries(nodes, first, d), 2 + upto) == node_entry(
            nodes,
            first,
            d,
            seq![0u8],
        ).bytes() + node_entry(nodes, first, nodes[d].parent as int, seq![1u8]).bytes()
            + crate::layout::child_records(nodes, first, nodes[d].children, upto),
    decreases upto,
{
    let entries = dir_entries(nodes, first, d);
    if upto == 0 {
        reveal_with_fuel(records_bytes, 3);
        assert(records_bytes(entries, 2) =~= entries[0].bytes() + entries[1].bytes());
        assert(crate::layout::child_records(nodes, first, nodes[d].children, 0) =~= Seq::<
            u8,
        >::empty());
        assert(entries[0].bytes() + entries[1].bytes() + Seq::<u8>::empty() =~= entries[0].bytes()
            + entries[1].bytes());
    } else {
        child_records_are_entries(nodes, first, d, upto - 1);
        let c = nodes[d].children[upto - 1] as int;
        assert(entries[2 + upto - 1] == node_entry(nodes, first, c, nodes[c].name));
        assert(records_bytes(entries, 2 + upto) =~= entries[0].bytes() + entries[1].bytes()
            + crate::layout::child_records(nodes, first, nodes[d].children, upto));
    }
}

/// The places of the records `from` to `upto` are as many as the records, and the
/// place of each record among them is its own.
pub proof fn places_facts(records: Seq<RecordView>, from: int, upto: int)
    requires
        0 <= from <= upto,
    ensures
        record_places(records, from, upto).len() == upto - from,
        forall|j: int|
            0 <= j < upto - from ==> #[trigger] record_places(records, from, upto)[j]
                == record_place(records, from + j),
    decreases upto - from,
{
    if from < upto {
        places_facts(records, from + 1, upto);
        let rest = record_places(records, from + 1, upto);
        let all = record_places(records, from, upto);
        assert(all =~= seq![record_place(records, from)] + rest);
        assert forall|j: int| 0 <= j < upto - from implies #[trigger] all[j] == record_place(
            records,
            from + j,
        ) by {
            if j > 0 {
                assert(all[j] == rest[j - 1]);
                assert(rest[j - 1] == record_place(records, from + 1 + (j - 1)));
            }
        }
    }
}

/// Whether the record at `at` of the directory `extent` says what `record` says.
pub open spec fn record_says(extent: Seq<u8>, at: int, record: RecordView) -> bool {
    &&& record_name(extent, at) == record.name
    &&& record_lba(extent, at) == record.lba
    &&& record_size(extent, at) == record.size
    &&& extent[at + 25] == record.flags
}

/// Reading a directory that holds `records`, each with an identifier of at most 221
/// bytes, and behind them only zero bytes, finds all the records in their order, and
/// each says what it was written to say.
pub proof fn records_read_back(extent: Seq<u8>, records: Seq<RecordView>)
    requires
        forall|j: int| 0 <= j < records.len() ==> (#[trigger] records[j]).name.len() <= 221,
        records_bytes(records, records.len() as int).len() <= extent.len(),
        extent.subrange(0, records_bytes(records, records.len() as int).len() as int)
            == records_bytes(records, records.len() as int),
        forall|j: int|
            records_bytes(records, records.len() as int).len() <= j < extent.len()
                ==> extent[j] == 0,
    ensures
        ({
            let places = record_places(records, 0, records.len() as int);
            &&& records_scan(extent, 0) == Ok::<Seq<int>, IsoError>(places)
            &&& places.len() == records.len()
            &&& forall|k: int|
                0 <= k < records.len() ==> record_says(extent, #[trigger] places[k], records[k])
        }),
{
    let m = records.len() as int;
    let all = records_bytes(records, m);
    records_are_found(extent, records, 0);
    assert(record_place(records, 0) == 0);
    let places = record_places(records, 0, m);
    places_facts(records, 0, m);
    assert forall|k: int| 0 <= k < records.len() implies record_says(
        extent,
        #[trigger] places[k],
        records[k],
    ) by {
        assert(places[k] == record_place(records, 0 + k));
        record_stands_at_its_place(records, k, m);
        crate::raw::part_of_part(
            extent,
            0,
            all.len() as int,
            record_place(records, k),
            record_place(records, k + 1),
        );
        record_reads_back(extent, record_place(records, k), records[k]);
    }
}

/// Reading back the directory at `d` of an image finds its records one behind the
/// other: first itself, then its parent, then what it holds in its order; each with
/// the name, the kind, the block and the size of the entry that it describes. This
/// holds where no name of what the directory holds has more than 221 bytes, which is
/// what the length byte of a record can tell.
#[verifier::spinoff_prover]
pub proof fn directory_reads_back(ops: FormatOptions, old: Seq<u8>, dates: VolumeDates, d: int)
    requires
        ops.format_error(old.len() as int) is None,
        0 <= d < ops.nodes().len(),
        ops.nodes()[d].is_dir,
        forall|k: int|
            0 <= k < ops.nodes()[d].children.len() ==> ops.nodes()[(
            #[trigger] ops.nodes()[d].children[k]) as int].name.len() <= 221,
    ensures
        ({
            let nodes = ops.nodes();
            let first = ops.first_lba();
            let entries = dir_entries(nodes, first, d);
            let places = record_places(entries, 0, entries.len() as int);
            let extent = sector_padded(dir_records(nodes, first, d));
            &&& extent_of(
                ops.formatted(old, dates),
                dir_lba(nodes, first, d),
                2048 * dir_blocks(nodes, d),
            ) == Some(extent)
            &&& records_scan(extent, 0) == Ok::<Seq<int>, IsoError>(places)
            &&& places.len() == entries.len()
            &&& forall|k: int|
                0 <= k < entries.len() ==> record_says(extent, #[trigger] places[k], entries[k])
        }),
{
    let nodes = ops.nodes();
    let first = ops.first_lba();
    let entries = dir_entries(nodes, first, d);
    let records = dir_records(nodes, first, d);
    let extent = sector_padded(records);
    directory_stands_at_its_block(ops, old, dates, d);
    dir_entries_bytes(nodes, first, d);
    crate::raw::sector_padded_len(records);
    assert(extent.subrange(0, records.len() as int) =~= records);
    assert forall|j: int| 0 <= j < entries.len() implies (#[trigger] entries[j]).name.len()
        <= 221 by {
        if j >= 2 {
            assert(nodes[nodes[d].children[j - 2] as int].name.len() <= 221);
        }
    }
    records_read_back(extent, entries);
}

/// The records of a directory are the bytes of what they say.
pub proof fn dir_entries_bytes(nodes: Seq<NodeView>, first: int, d: int)
    ensures
        records_bytes(dir_entries(nodes, first, d), dir_entries(nodes, first, d).len() as int)
            == dir_records(nodes, first, d),
        dir_entries(nodes, first, d).len() == 2 + nodes[d].children.len(),
{
    child_records_are_entries(nodes, first, d, nodes[d].children.len() as int);
}

/// What is read where a primary volume descriptor with the root record `root`
/// stands in `image` at `at`: the kind byte one and `CD001`, numbers that are the
/// same in both byte orders, and the numbers that were written.
pub proof fn primary_reads_back(
    image: Seq<u8>,
    at: int,
    sectors: u32,
    root: RecordView,
    table_size: u32,
    l_table: u32,
    m_table: u32,
    created: Seq<u8>,
    modified: Seq<u8>,
    expires: Seq<u8>,
    effective: Seq<u8>,
)
    requires
        0 <= at,
        at + 2048 <= image.len(),
        root.name == seq![0u8],
        created.len() == 17,
        modified.len() == 17,
        expires.len() == 17,
        effective.len() == 17,
        image.subrange(at, at + 2048) == crate::volume::primary_bytes(
            sectors,
            root.bytes(),
            table_size,
            l_table,
            m_table,
            created,
            modified,
            expires,
            effective,
        ),
    ensures
        image[at] == 1,
        image.subrange(at + 1, at + 6) == crate::volume::standard_identifier(),
        crate::volume::PrimaryVolumeDescriptor::consistent_at(image, at),
        le_u32(image.subrange(at + 80, at + 84)) == sectors,
        le_u32(image.subrange(at + 132, at + 136)) == table_size,
        le_u32(image.subrange(at + 140, at + 144)) == l_table,
        be_u32(image.subrange(at + 148, at + 152)) == m_table,
        le_u32(image.subrange(at + 158, at + 162)) == root.lba,
        le_u32(image.subrange(at + 166, at + 170)) == root.size,
{
    let p = image.subrange(at, at + 2048);
    crate::directory::record_bytes_len(root.name, root.flags, root.lba, root.size);
    crate::directory::record_length_is_even(1);
    crate::volume::primary_bytes_fields(
        sectors,
        root.bytes(),
        table_size,
        l_table,
        m_table,
        created,
        modified,
        expires,
        effective,
    );
    assert(image[at] == p[0]);
    crate::raw::part_of_part(image, at, 2048, 1, 6);
    crate::raw::part_of_part(image, at, 2048, 80, 84);
    crate::raw::part_of_part(image, at, 2048, 84, 88);
    crate::raw::part_of_part(image, at, 2048, 120, 122);
    crate::raw::part_of_part(image, at, 2048, 122, 124);
    crate::raw::part_of_part(image, at, 2048, 124, 126);
    crate::raw::part_of_part(image, at, 2048, 126, 128);
    crate::raw::part_of_part(image, at, 2048, 128, 130);
    crate::raw::part_of_part(image, at, 2048, 130, 132);
    crate::raw::part_of_part(image, at, 2048, 132, 136);
    crate::raw::part_of_part(image, at, 2048, 136, 140);
    crate::raw::part_of_part(image, at, 2048, 140, 144);
    crate::raw::part_of_part(image, at, 2048, 148, 152);
    crate::raw::part_of_part(image, at, 2048, 156, 190);
    record_reads_back(image, at + 156, root);
}

/// What the root record of the primary volume descriptor of an image says.
pub open spec fn root_entry(ops: FormatOptions) -> RecordView {
    RecordView {
        name: seq![0u8],
        flags: 0x02,
        lba: low32(dir_lba(ops.nodes(), ops.first_lba(), 0)),
        size: low32(2048 * dir_blocks(ops.nodes(), 0)),
    }
}

/// Where three parts stand that follow each other, the second of which may be
/// missing.
proof fn three_parts(p: Seq<u8>, b: Seq<u8>, t: Seq<u8>)
    requires
        p.len() == 2048,
        t.len() == 2048,
        b.len() == 0 || b.len() == 2048,
    ensures
        (p + b + t).len() == 4096 + b.len(),
        (p + b + t).subrange(0, 2048) == p,
        (p + b + t).subrange(b.len() as int + 2048, b.len() as int + 4096) == t,
        b.len() == 2048 ==> (p + b + t).subrange(2048, 4096) == b,
{
    let all = p + b + t;
    assert(all.subrange(0, 2048) =~= p);
    assert(all.subrange(b.len() as int + 2048, b.len() as int + 4096) =~= t);
    if b.len() == 2048 {
        assert(all.subrange(2048, 4096) =~= b);
    }
}

/// The volume descriptors of an image, one block each.
#[verifier::spinoff_prover]
pub proof fn descriptor_blocks(ops: FormatOptions, old: Seq<u8>, dates: VolumeDates)
    requires
        ops.format_error(old.len() as int) is None,
    ensures
        ({
            let image = ops.formatted(old, dates);
            let first = ops.first_lba();
            &&& 2048 * first <= image.len()
            &&& image.subrange(32768, 34816) == crate::volume::primary_bytes(
                low32(old.len() as int / 2048),
                root_entry(ops).bytes(),
                low32(table_len(ops.nodes(), first)),
                low32(l_table_lba(ops.nodes(), first)),
                low32(m_table_lba(ops.nodes(), first)),
                dates.created.encoding(),
                dates.modified.encoding(),
                dates.expires.encoding(),
                dates.effective.encoding(),
            )
            &&& image.subrange(2048 * (first - 1), 2048 * first) == crate::volume::terminator_bytes()
            &&& ops.el_torito is Some ==> image.subrange(34816, 36864)
                == crate::volume::boot_record_bytes(
                low32(catalogue_lba(ops.nodes(), first)),
            )
        }),
{
    let image = ops.formatted(old, dates);
    let first = ops.first_lba();
    let head = ops.descriptors(old.len() as int, dates);
    let root = root_entry(ops);
    let p = crate::volume::primary_bytes(
        low32(old.len() as int / 2048),
        root.bytes(),
        low32(table_len(ops.nodes(), first)),
        low32(l_table_lba(ops.nodes(), first)),
        low32(m_table_lba(ops.nodes(), first)),
        dates.created.encoding(),
        dates.modified.encoding(),
        dates.expires.encoding(),
        dates.effective.encoding(),
    );
    let b = if ops.el_torito is Some {
        crate::volume::boot_record_bytes(low32(catalogue_lba(ops.nodes(), first)))
    } else {
        Seq::<u8>::empty()
    };
    let t = crate::volume::terminator_bytes();
    assert(head == p + b + t) by {
        reveal(FormatOptions::descriptors);
    }
    assert(p.len() == 2048) by {
        dates.created.encoding_len();
        dates.modified.encoding_len();
        dates.expires.encoding_len();
        dates.effective.encoding_len();
        crate::directory::record_bytes_len(root.name, root.flags, root.lba, root.size);
        crate::volume::primary_bytes_len(
            low32(old.len() as int / 2048),
            root.bytes(),
            low32(table_len(ops.nodes(), first)),
            low32(l_table_lba(ops.nodes(), first)),
            low32(m_table_lba(ops.nodes(), first)),
            dates.created.encoding(),
            dates.modified.encoding(),
            dates.expires.encoding(),
            dates.effective.encoding(),
        );
    }
    crate::volume::terminator_bytes_len();
    crate::volume::boot_record_bytes_len(low32(catalogue_lba(ops.nodes(), first)));
    three_parts(p, b, t);
    formatted_parts(ops, old, dates);
    body_len(ops, old.len() as int, dates);
    let body = ops.body(old.len() as int, dates);
    crate::raw::part_of_part(image, 32768, body.len() as int, 0, head.len() as int);
    assert(image.subrange(32768, head.len() as int + 32768) == head);
    crate::raw::part_of_part(image, 32768, head.len() as int, 0, 2048);
    crate::raw::part_of_part(
        image,
        32768,
        head.len() as int,
        b.len() as int + 2048,
        b.len() as int + 4096,
    );
    if ops.el_torito is Some {
        crate::raw::part_of_part(image, 32768, head.len() as int, 2048, 4096);
    }
}

/// The primary volume descriptor stands in the block 16 of an image. It bears the
/// kind byte one and `CD001`; its numbers are the same in both byte orders; and it
/// names the root directory and the path tables.
#[verifier::spinoff_prover]
pub proof fn primary_stands_in_block_16(ops: FormatOptions, old: Seq<u8>, dates: VolumeDates)
    requires
        ops.format_error(old.len() as int) is None,
    ensures
        ({
            let image = ops.formatted(old, dates);
            let nodes = ops.nodes();
            let first = ops.first_lba();
            &&& image.len() >= 34816 + 2048
            &&& image[32768] == 1
            &&& image.subrange(32769, 32774) == crate::volume::standard_identifier()
            &&& crate::volume::PrimaryVolumeDescriptor::consistent_at(image, 32768)
            &&& le_u32(image.subrange(32848, 32852)) == low32(old.len() as int / 2048)
            &&& le_u32(image.subrange(32900, 32904)) == low32(table_len(nodes, first))
            &&& le_u32(image.subrange(32908, 32912)) == low32(l_table_lba(nodes, first))
            &&& be_u32(image.subrange(32916, 32920)) == low32(m_table_lba(nodes, first))
            &&& le_u32(image.subrange(32926, 32930)) == low32(dir_lba(nodes, first, 0))
            &&& le_u32(image.subrange(32934, 32938)) == low32(2048 * dir_blocks(nodes, 0))
        }),
{
    let image = ops.formatted(old, dates);
    descriptor_blocks(ops, old, dates);
    dates.created.encoding_len();
    dates.modified.encoding_len();
    dates.expires.encoding_len();
    dates.effective.encoding_len();
    primary_reads_back(
        image,
        32768,
        low32(old.len() as int / 2048),
        root_entry(ops),
        low32(table_len(ops.nodes(), ops.first_lba())),
        low32(l_table_lba(ops.nodes(), ops.first_lba())),
        low32(m_table_lba(ops.nodes(), ops.first_lba())),
        dates.created.encoding(),
        dates.modified.encoding(),
        dates.expires.encoding(),
        dates.effective.encoding(),
    );
}

/// Reading a descriptor set that holds a primary volume descriptor, then a boot
/// record where `count` is two, and then the descriptor that ends the set, finds
/// `count` descriptors, the primary one first and the boot record second.
pub proof fn set_is_scanned(image: Seq<u8>, count: int, catalog: u32)
    requires
        count == 1 || count == 2,
        32768 + 2048 * (count + 1) <= image.len(),
        image[32768] == 1,
        image.subrange(32769, 32774) == crate::volume::standard_identifier(),
        count == 2 ==> image.subrange(34816, 36864) == crate::volume::boot_record_bytes(catalog),
        image.subrange(32768 + 2048 * count, 32768 + 2048 * count + 2048)
            == crate::volume::terminator_bytes(),
    ensures
        crate::volume::descriptor_scan(image, 32768) == Ok::<nat, IsoError>(count as nat),
        crate::image::first_descriptor(image, 1, count, 0) == 0,
        crate::image::first_descriptor(image, 0, count, 0) == 1,
        count == 2 ==> le_u32(image.subrange(34887, 34891)) == catalog,
{
    crate::volume::terminator_bytes_len();
    let end = 32768 + 2048 * count;
    let t = crate::volume::terminator_bytes();
    assert(image[end] == image.subrange(end, end + 2048)[0]);
    crate::raw::part_of_part(image, end, 2048, 1, 6);
    assert(crate::volume::descriptor_scan(image, end) == Ok::<nat, IsoError>(0));
    if count == 2 {
        crate::volume::boot_record_bytes_len(catalog);
        assert(image[34816] == image.subrange(34816, 36864)[0]);
        crate::raw::part_of_part(image, 34816, 2048, 1, 6);
        crate::raw::part_of_part(image, 34816, 2048, 71, 75);
        assert(crate::volume::descriptor_scan(image, 34816) == Ok::<nat, IsoError>(1));
        assert(crate::volume::descriptor_scan(image, 32768) == Ok::<nat, IsoError>(2));
        assert(crate::image::first_descriptor(image, 0, 2, 2) == 2);
        assert(crate::image::first_descriptor(image, 0, 2, 1) == 1);
        assert(crate::image::first_descriptor(image, 0, 2, 0) == 1);
    } else {
        assert(crate::volume::descriptor_scan(image, 32768) == Ok::<nat, IsoError>(1));
        assert(crate::image::first_descriptor(image, 0, 1, 1) == 1);
        assert(crate::image::first_descriptor(image, 0, 1, 0) == 1);
    }
}

/// Reading the volume descriptors of an image finds the primary one first, then the
/// boot record where the image is bootable, and then the end of the set.
#[verifier::spinoff_prover]
pub proof fn descriptors_are_found(ops: FormatOptions, old: Seq<u8>, dates: VolumeDates)
    requires
        ops.format_error(old.len() as int) is None,
    ensures
        ({
            let image = ops.formatted(old, dates);
            let count = ops.first_lba() - 17;
            &&& crate::volume::descriptor_scan(image, 32768) == Ok::<nat, IsoError>(count as nat)
            &&& crate::image::first_descriptor(image, 1, count, 0) == 0
            &&& crate::image::first_descriptor(image, 0, count, 0) == 1
            &&& ops.el_torito is Some ==> le_u32(image.subrange(34887, 34891)) == low32(
                catalogue_lba(ops.nodes(), ops.first_lba()),
            )
        }),
{
    let image = ops.formatted(old, dates);
    primary_stands_in_block_16(ops, old, dates);
    descriptor_blocks(ops, old, dates);
    set_is_scanned(
        image,
        ops.first_lba() - 17,
        low32(catalogue_lba(ops.nodes(), ops.first_lba())),
    );
}

/// Reading the boot catalogue of a bootable image finds a validation entry that
/// holds, the entry of the boot image, and no sections.
#[verifier::spinoff_prover]
pub proof fn catalogue_is_found(ops: FormatOptions, old: Seq<u8>, dates: VolumeDates)
    requires
        ops.format_error(old.len() as int) is None,
        ops.el_torito is Some,
    ensures
        ({
            let image = ops.formatted(old, dates);
            let at = 2048 * catalogue_lba(ops.nodes(), ops.first_lba());
            let rba = low32(file_lba(ops.nodes(), ops.first_lba(), ops.boot_image().unwrap()));
            &&& at + 2048 <= image.len()
            &&& image.subrange(at, at + 32) == crate::boot::validation_entry_bytes()
            &&& crate::boot::word_sum(image.subrange(at, at + 32), 16) % 0x1_0000 == 0
            &&& image.subrange(at + 32, at + 64) == crate::boot::boot_entry_bytes(
                0,
                0,
                ops.el_torito.unwrap().load_size,
                rba,
            )
            &&& crate::boot::catalogue_scan(image, at) == Ok::<
                Seq<crate::boot::SectionBytes>,
                IsoError,
            >(Seq::empty())
        }),
{
    let image = ops.formatted(old, dates);
    let nodes = ops.nodes();
    let first = ops.first_lba();
    let at = 2048 * catalogue_lba(nodes, first);
    let el = ops.el_torito.unwrap();
    let rba = low32(file_lba(nodes, first, ops.boot_image().unwrap()));
    let c = crate::boot::catalogue_bytes(0, 0, el.load_size, rba);
    reveal(FormatOptions::catalogue);
    catalogue_stands_at_its_block(ops, old, dates);
    crate::layout::extents_bytes_len(nodes, first, ops.patch());
    crate::boot::catalogue_bytes_len(0, 0, el.load_size, rba);
    crate::boot::written_validation_entry_holds();
    crate::raw::sector_padded_len(c);
    let sector = sector_padded(c);
    assert(image.subrange(at, at + 2048) == sector);
    crate::raw::part_of_part(image, at, 2048, 0, 32);
    crate::raw::part_of_part(image, at, 2048, 32, 64);
    crate::raw::part_of_part(image, at, 2048, 64, 96);
    assert(sector.subrange(0, 32) =~= c.subrange(0, 32));
    assert(sector.subrange(32, 64) =~= c.subrange(32, 64));
    assert(sector.subrange(64, 96) =~= c.subrange(64, 96));
    let entry = crate::boot::boot_entry_bytes(0, 0, el.load_size, rba);
    assert(entry[0] == 0x88);
    assert(image[at + 32] == image.subrange(at + 32, at + 64)[0]);
    assert(image[at + 64] == image.subrange(at + 64, at + 96)[0]);
    assert(crate::boot::sections_closed(Seq::empty(), None) == Seq::<
        crate::boot::SectionBytes,
    >::empty());
}

/// An image opens without error where reading its volume descriptors finds the
/// primary one first, whose numbers are the same in both byte orders, and where the
/// boot catalogue that a boot record points to is read without error.
pub proof fn opens_without_error(image: Seq<u8>, count: int)
    requires
        count == 1 || count == 2,
        crate::volume::descriptor_scan(image, 32768) == Ok::<nat, IsoError>(count as nat),
        crate::image::first_descriptor(image, 1, count, 0) == 0,
        crate::image::first_descriptor(image, 0, count, 0) == 1,
        crate::volume::PrimaryVolumeDescriptor::consistent_at(image, 32768),
        count == 2 ==> crate::boot::catalogue_scan(
            image,
            2048 * le_u32(image.subrange(34887, 34891)),
        ) is Ok,
    ensures
        crate::image::open_error(image) is None,
        crate::image::primary_at(image) == 32768,
{
}

/// The blocks of an image in their order: the first extent, the root directory, the
/// path tables, and the block behind them.
pub proof fn blocks_in_order(ops: FormatOptions)
    ensures
        ({
            let nodes = ops.nodes();
            let first = ops.first_lba();
            &&& nodes.len() >= 1
            &&& nodes[0].is_dir
            &&& 18 <= first <= dir_lba(nodes, first, 0) < l_table_lba(nodes, first)
            &&& l_table_lba(nodes, first) <= m_table_lba(nodes, first) <= catalogue_lba(
                nodes,
                first,
            )
        }),
{
    let nodes = ops.nodes();
    let first = ops.first_lba();
    reveal(FormatOptions::nodes);
    crate::layout::extents_bytes_len(nodes, first, ops.patch());
    crate::layout::dirs_bytes_len(nodes, first, 1);
    crate::layout::files_bytes_len(nodes, first, ops.patch(), 0);
    crate::layout::dir_records_len(nodes, first, 0);
    assert(dir_blocks(nodes, 0) >= 1);
}

/// An image that was made opens again: reading its volume descriptors and its boot
/// catalogue meets no error, and the primary volume descriptor that is found names
/// the root directory and the path tables where they lie. This holds for images of
/// less than 2^32 blocks, which is what a 32-bit block number can tell.
#[verifier::spinoff_prover]
pub proof fn image_opens(ops: FormatOptions, old: Seq<u8>, dates: VolumeDates)
    requires
        ops.format_error(old.len() as int) is None,
        catalogue_lba(ops.nodes(), ops.first_lba()) < 0x1_0000_0000,
    ensures
        ({
            let image = ops.formatted(old, dates);
            let nodes = ops.nodes();
            let first = ops.first_lba();
            let at = crate::image::primary_at(image);
            &&& crate::image::open_error(image) is None
            &&& at == 32768
            &&& le_u32(image.subrange(at + 158, at + 162)) == dir_lba(nodes, first, 0)
            &&& le_u32(image.subrange(at + 166, at + 170)) == low32(2048 * dir_blocks(nodes, 0))
            &&& le_u32(image.subrange(at + 140, at + 144)) == l_table_lba(nodes, first)
            &&& be_u32(image.subrange(at + 148, at + 152)) == m_table_lba(nodes, first)
            &&& le_u32(image.subrange(at + 132, at + 136)) == low32(table_len(nodes, first))
        }),
{
    let nodes = ops.nodes();
    let first = ops.first_lba();
    let image = ops.formatted(old, dates);
    blocks_in_order(ops);
    crate::raw::low32_small(dir_lba(nodes, first, 0));
    crate::raw::low32_small(l_table_lba(nodes, first));
    crate::raw::low32_small(m_table_lba(nodes, first));
    crate::raw::low32_small(catalogue_lba(nodes, first));
    primary_stands_in_block_16(ops, old, dates);
    assert(crate::image::open_error(image) is None && crate::image::primary_at(image) == 32768)
        by {
        descriptors_are_found(ops, old, dates);
        if ops.el_torito is Some {
            catalogue_is_found(ops, old, dates);
        }
        opens_without_error(image, first - 17);
    }
}

/// Every number of a directory record that is written is the same in both byte
/// orders, whatever the record describes.
pub proof fn record_numbers_agree(record: RecordView)
    ensures
        DirectoryRecordHeader::consistent_at(record.bytes(), 0),
{
    let r = record.bytes();
    let n = record.name.len() as int;
    let header = crate::directory::record_header_bytes(n, record.flags, record.lba, record.size);
    crate::directory::record_bytes_len(record.name, record.flags, record.lba, record.size);
    crate::directory::record_header_fields(n, record.flags, record.lba, record.size);
    crate::types::u32_round_trip(record.lba);
    crate::types::u32_round_trip(record.size);
    crate::types::u16_round_trip(1);
    let tail = record.name + crate::raw::zeros(crate::directory::record_pad(n) as nat);
    assert(r =~= header + tail);
    crate::raw::parts_of_sum(header, tail);
    crate::raw::part_of_part(r, 0, 33, 2, 6);
    crate::raw::part_of_part(r, 0, 33, 6, 10);
    crate::raw::part_of_part(r, 0, 33, 10, 14);
    crate::raw::part_of_part(r, 0, 33, 14, 18);
    crate::raw::part_of_part(r, 0, 33, 28, 30);
    crate::raw::part_of_part(r, 0, 33, 30, 32);
}

/// A row of a path table: the name of a directory, the block of its extent, and the
/// number of its parent.
pub struct TableRow {
    pub name: Seq<u8>,
    pub lba: u32,
    pub parent: u16,
}

impl TableRow {
    /// The bytes of the row with its numbers in the byte order `endian`.
    pub open spec fn bytes(self, endian: EndianType) -> Seq<u8> {
        crate::path::path_entry_bytes(self.name, self.lba, self.parent, endian)
    }
}

/// The bytes of the first `upto` of `rows`, one behind the other.
pub open spec fn rows_bytes(rows: Seq<TableRow>, endian: EndianType, upto: int) -> Seq<u8>
    decreases upto,
{
    if upto <= 0 {
        Seq::empty()
    } else {
        rows_bytes(rows, endian, upto - 1) + rows[upto - 1].bytes(endian)
    }
}

/// The row of the directory at `i`.
pub open spec fn node_row(nodes: Seq<NodeView>, first: int, i: int) -> TableRow {
    TableRow {
        name: crate::layout::table_name(nodes, i),
        lba: low32(dir_lba(nodes, first, i)),
        parent: crate::raw::low16(crate::layout::dir_number(nodes, nodes[i].parent as int)),
    }
}

/// The rows of the directories among the first `upto` entries that are `depth`
/// directories deep.
pub open spec fn level_rows(nodes: Seq<NodeView>, first: int, depth: int, upto: int) -> Seq<
    TableRow,
>
    decreases upto,
{
    if upto <= 0 {
        Seq::empty()
    } else if nodes[upto - 1].is_dir && nodes[upto - 1].depth == depth {
        level_rows(nodes, first, depth, upto - 1).push(node_row(nodes, first, upto - 1))
    } else {
        level_rows(nodes, first, depth, upto - 1)
    }
}

/// The rows of the directories that are `depth` or more directories deep, depth by
/// depth, up to the first depth without a directory.
pub open spec fn levels_rows(nodes: Seq<NodeView>, first: int, depth: int) -> Seq<TableRow>
    decreases nodes.len() - depth,
{
    if depth < 0 || depth >= nodes.len() || crate::layout::level_count(
        nodes,
        depth,
        nodes.len() as int,
    ) == 0 {
        Seq::empty()
    } else {
        level_rows(nodes, first, depth, nodes.len() as int) + levels_rows(nodes, first, depth + 1)
    }
}

/// The rows of the path tables of a tree: one for each directory, ordered by depth
/// and at one depth by the order of the entries.
pub open spec fn table_rows(nodes: Seq<NodeView>, first: int) -> Seq<TableRow> {
    levels_rows(nodes, first, 0)
}

/// The bytes of rows do not depend on the rows behind them.
proof fn rows_bytes_of_prefix(a: Seq<TableRow>, b: Seq<TableRow>, endian: EndianType, upto: int)
    requires
        0 <= upto <= a.len(),
        a.len() <= b.len(),
        forall|i: int| 0 <= i < a.len() ==> a[i] == b[i],
    ensures
        rows_bytes(a, endian, upto) == rows_bytes(b, endian, upto),
    decreases upto,
{
    if upto > 0 {
        rows_bytes_of_prefix(a, b, endian, upto - 1);
    }
}

/// The bytes of rows that follow others follow the bytes of those.
proof fn rows_bytes_concat(a: Seq<TableRow>, b: Seq<TableRow>, endian: EndianType, upto: int)
    requires
        0 <= upto <= b.len(),
    ensures
        rows_bytes(a + b, endian, a.len() + upto) == rows_bytes(a, endian, a.len() as int)
            + rows_bytes(b, endian, upto),
    decreases upto,
{
    let all = a + b;
    if upto == 0 {
        rows_bytes_of_prefix(a, all, endian, a.len() as int);
        assert(rows_bytes(a, endian, a.len() as int) + Seq::<u8>::empty() =~= rows_bytes(
            a,
            endian,
            a.len() as int,
        ));
    } else {
        rows_bytes_concat(a, b, endian, upto - 1);
        assert(all[a.len() + upto - 1] == b[upto - 1]);
        assert(rows_bytes(all, endian, a.len() + upto) =~= rows_bytes(a, endian, a.len() as int)
            + rows_bytes(b, endian, upto));
    }
}

/// The path table entries of one depth are the bytes of its rows.
proof fn level_bytes_are_rows(
    nodes: Seq<NodeView>,
    first: int,
    depth: int,
    upto: int,
    endian: EndianType,
)
    requires
        0 <= upto <= nodes.len(),
    ensures
        crate::layout::level_bytes(nodes, first, depth, upto, endian) == rows_bytes(
            level_rows(nodes, first, depth, upto),
            endian,
            level_rows(nodes, first, depth, upto).len() as int,
        ),
    decreases upto,
{
    if upto > 0 {
        level_bytes_are_rows(nodes, first, depth, upto - 1, endian);
        if nodes[upto - 1].is_dir && nodes[upto - 1].depth == depth {
            let before = level_rows(nodes, first, depth, upto - 1);
            let rows = level_rows(nodes, first, depth, upto);
            rows_bytes_of_prefix(before, rows, endian, before.len() as int);
            assert(rows[rows.len() - 1] == node_row(nodes, first, upto - 1));
        }
    }
}

/// Both path tables are the bytes of the same rows in the same order: one with the
/// numbers of each row in little-endian order, one with them in big-endian order.
pub proof fn tables_hold_the_same_rows(
    nodes: Seq<NodeView>,
    first: int,
    depth: int,
    endian: EndianType,
)
    requires
        0 <= depth,
    ensures
        crate::layout::levels_bytes(nodes, first, depth, endian) == rows_bytes(
            levels_rows(nodes, first, depth),
            endian,
            levels_rows(nodes, first, depth).len() as int,
        ),
    decreases nodes.len() - depth,
{
    if depth < nodes.len() && crate::layout::level_count(nodes, depth, nodes.len() as int) != 0 {
        tables_hold_the_same_rows(nodes, first, depth + 1, endian);
        level_bytes_are_rows(nodes, first, depth, nodes.len() as int, endian);
        let a = level_rows(nodes, first, depth, nodes.len() as int);
        let b = levels_rows(nodes, first, depth + 1);
        rows_bytes_concat(a, b, endian, b.len() as int);
    }
}

/// Rows take as many bytes in one byte order as in the other.
pub proof fn rows_have_one_length(rows: Seq<TableRow>, upto: int)
    requires
        0 <= upto <= rows.len(),
    ensures
        rows_bytes(rows, EndianType::LittleEndian, upto).len() == rows_bytes(
            rows,
            EndianType::BigEndian,
            upto,
        ).len(),
    decreases upto,
{
    if upto > 0 {
        rows_have_one_length(rows, upto - 1);
        let r = rows[upto - 1];
        crate::path::path_entry_len(r.name, r.lba, r.parent, EndianType::LittleEndian);
        crate::path::path_entry_len(r.name, r.lba, r.parent, EndianType::BigEndian);
    }
}

/// The two path tables of a tree hold the same rows in the same order, and have the
/// same number of bytes; so the big-endian table begins as many sectors behind the
/// little-endian one as that one takes, and takes as many sectors itself.
pub proof fn path_tables_are_symmetric(nodes: Seq<NodeView>, first: int)
    ensures
        table_bytes(nodes, first, EndianType::LittleEndian) == rows_bytes(
            table_rows(nodes, first),
            EndianType::LittleEndian,
            table_rows(nodes, first).len() as int,
        ),
        table_bytes(nodes, first, EndianType::BigEndian) == rows_bytes(
            table_rows(nodes, first),
            EndianType::BigEndian,
            table_rows(nodes, first).len() as int,
        ),
        table_bytes(nodes, first, EndianType::LittleEndian).len() == table_bytes(
            nodes,
            first,
            EndianType::BigEndian,
        ).len(),
        catalogue_lba(nodes, first) - m_table_lba(nodes, first) == m_table_lba(nodes, first)
            - l_table_lba(nodes, first),
{
    tables_hold_the_same_rows(nodes, first, 0, EndianType::LittleEndian);
    tables_hold_the_same_rows(nodes, first, 0, EndianType::BigEndian);
    rows_have_one_length(table_rows(nodes, first), table_rows(nodes, first).len() as int);
}

/// A row is read back from its bytes as it was written, in either byte order, where
/// its name has at most 255 bytes.
pub proof fn row_reads_back(row: TableRow, endian: EndianType, before: Seq<u8>, after: Seq<u8>)
    requires
        row.name.len() <= 255,
    ensures
        ({
            let bytes = before + row.bytes(endian) + after;
            let at = before.len() as int;
            &&& crate::path::path_entry_fits(bytes, at)
            &&& bytes[at] == row.name.len()
            &&& endian.spec_read_u32(bytes.subrange(at + 2, at + 6)) == row.lba
            &&& endian.spec_read_u16(bytes.subrange(at + 6, at + 8)) == row.parent
            &&& bytes.subrange(at + 8, at + 8 + row.name.len()) == row.name
        }),
{
    let bytes = before + row.bytes(endian) + after;
    let at = before.len() as int;
    let e = row.bytes(endian);
    endian.round_trip(row.parent, row.lba, 0);
    crate::path::path_entry_len(row.name, row.lba, row.parent, endian);
    assert(bytes.subrange(at, at + e.len()) =~= e);
    assert(bytes[at] == e[0]);
    assert(bytes.subrange(at + 2, at + 6) =~= endian.spec_u32_bytes(row.lba));
    assert(bytes.subrange(at + 6, at + 8) =~= endian.spec_u16_bytes(row.parent));
    assert(bytes.subrange(at + 8, at + 8 + row.name.len()) =~= row.name);
}

/// Looking a name up among the records of a directory finds the first record that
/// bears it: the record `k`, where no record before it bears the same name and, for
/// a lookup of directories only, the record is one of a directory.
pub proof fn lookup_finds_the_record(
    extent: Seq<u8>,
    records: Seq<RecordView>,
    places: Seq<int>,
    k: int,
    dir_only: bool,
    upto: int,
)
    requires
        0 <= k < upto <= records.len(),
        places.len() == records.len(),
        forall|j: int| 0 <= j < records.len() ==> record_says(extent, #[trigger] places[j], records[j]),
        forall|j: int| 0 <= j < k ==> (#[trigger] records[j]).name != records[k].name,
        !dir_only || crate::directory::marks_directory(records[k].flags),
    ensures
        crate::reader::first_match(extent, places, records[k].name, dir_only, upto) == Some(
            places[k],
        ),
    decreases upto,
{
    let name = records[k].name;
    if upto - 1 > k {
        lookup_finds_the_record(extent, records, places, k, dir_only, upto - 1);
    } else {
        nothing_found_before(extent, records, places, name, dir_only, k);
        assert(record_says(extent, places[k], records[k]));
    }
}

/// Looking a name up among records none of which bears it finds nothing.
pub proof fn nothing_found_before(
    extent: Seq<u8>,
    records: Seq<RecordView>,
    places: Seq<int>,
    name: Seq<u8>,
    dir_only: bool,
    upto: int,
)
    requires
        0 <= upto <= records.len(),
        places.len() == records.len(),
        forall|j: int| 0 <= j < records.len() ==> record_says(extent, #[trigger] places[j], records[j]),
        forall|j: int| 0 <= j < upto ==> (#[trigger] records[j]).name != name,
    ensures
        crate::reader::first_match(extent, places, name, dir_only, upto) is None,
    decreases upto,
{
    if upto > 0 {
        nothing_found_before(extent, records, places, name, dir_only, upto - 1);
        assert(record_says(extent, places[upto - 1], records[upto - 1]));
        assert(records[upto - 1].name != name);
    }
}

/// Whether the entry `k` of what the directory at `d` holds can be looked up by its
/// name: the name has a byte, none of them is zero or one, and no entry before it in
/// the directory bears the same name.
pub open spec fn can_be_looked_up(nodes: Seq<NodeView>, d: int, k: int) -> bool {
    let name = nodes[nodes[d].children[k] as int].name;
    &&& 0 <= k < nodes[d].children.len()
    &&& name != seq![0u8]
    &&& name != seq![1u8]
    &&& forall|j: int| 0 <= j < k ==> nodes[(#[trigger] nodes[d].children[j]) as int].name != name
}

/// Whether reading the file named `name` from the directory of `size` bytes at the
/// block `lba` of `image` gives `data`: the records of the directory are read, the
/// lookup of the name finds one, and the extent that it names holds `data`.
pub open spec fn reads_file(image: Seq<u8>, lba: int, size: int, name: Seq<u8>, data: Seq<u8>) -> bool {
    extent_of(image, lba, size) matches Some(extent) && records_scan(extent, 0) matches Ok(places)
        && crate::reader::first_match(extent, places, name, false, places.len() as int)
        matches Some(at) && extent_of(
        image,
        record_lba(extent, at) as int,
        record_size(extent, at) as int,
    ) == Some(data)
}

/// Whether looking the directory named `name` up in the directory of `size` bytes at
/// the block `lba` of `image` finds the extent of `found_size` bytes at the block
/// `found_lba`.
pub open spec fn finds_directory(
    image: Seq<u8>,
    lba: int,
    size: int,
    name: Seq<u8>,
    found_lba: int,
    found_size: int,
) -> bool {
    extent_of(image, lba, size) matches Some(extent) && records_scan(extent, 0) matches Ok(places)
        && crate::reader::first_match(extent, places, name, true, places.len() as int)
        matches Some(at) && record_lba(extent, at) == found_lba && record_size(extent, at)
        == found_size
}

/// The record of the entry `k` of what the directory at `d` holds is the record
/// `k + 2` of the directory, behind those of the directory itself and of its parent;
/// and where the entry can be looked up by its name, no record before it bears that
/// name.
pub proof fn record_of_child(nodes: Seq<NodeView>, first: int, d: int, k: int)
    requires
        0 <= k < nodes[d].children.len(),
    ensures
        ({
            let entries = dir_entries(nodes, first, d);
            let c = nodes[d].children[k] as int;
            &&& entries.len() == 2 + nodes[d].children.len()
            &&& entries[k + 2] == node_entry(nodes, first, c, nodes[c].name)
            &&& can_be_looked_up(nodes, d, k) ==> forall|j: int|
                0 <= j < k + 2 ==> (#[trigger] entries[j]).name != entries[k + 2].name
        }),
{
    let entries = dir_entries(nodes, first, d);
    let c = nodes[d].children[k] as int;
    if can_be_looked_up(nodes, d, k) {
        assert forall|j: int| 0 <= j < k + 2 implies (#[trigger] entries[j]).name != entries[k
            + 2].name by {
            if j >= 2 {
                assert(nodes[nodes[d].children[j - 2] as int].name != nodes[c].name);
            }
        }
    }
}

/// What is found where the records of a directory were read back and the record `k`
/// is the first of its name: the lookup of the name finds the record, and the record
/// says what was written.
pub proof fn lookup_reads_back(
    extent: Seq<u8>,
    records: Seq<RecordView>,
    places: Seq<int>,
    k: int,
    dir_only: bool,
)
    requires
        0 <= k < records.len(),
        places.len() == records.len(),
        forall|j: int| 0 <= j < records.len() ==> record_says(extent, #[trigger] places[j], records[j]),
        forall|j: int| 0 <= j < k ==> (#[trigger] records[j]).name != records[k].name,
        !dir_only || crate::directory::marks_directory(records[k].flags),
    ensures
        crate::reader::first_match(extent, places, records[k].name, dir_only, places.len() as int)
            == Some(places[k]),
        record_lba(extent, places[k]) == records[k].lba,
        record_size(extent, places[k]) == records[k].size,
{
    lookup_finds_the_record(extent, records, places, k, dir_only, records.len() as int);
    assert(record_says(extent, places[k], records[k]));
}

/// A file of an image is read back as it was written: in the directory that holds
/// it, the lookup of its name finds a record whose extent holds the content of the
/// file. This is what `IsoDirectory::read_file` returns. It holds where no name in
/// the directory has more than 221 bytes, the file can be looked up by its name, the
/// image has less than 2^32 blocks and the file less than 2^32 bytes, and the file
/// does not get a boot information table.
#[verifier::spinoff_prover]
pub proof fn file_reads_back(ops: FormatOptions, old: Seq<u8>, dates: VolumeDates, d: int, k: int)
    requires
        ops.format_error(old.len() as int) is None,
        0 <= d < ops.nodes().len(),
        ops.nodes()[d].is_dir,
        forall|j: int|
            0 <= j < ops.nodes()[d].children.len() ==> ops.nodes()[(
            #[trigger] ops.nodes()[d].children[j]) as int].name.len() <= 221,
        can_be_looked_up(ops.nodes(), d, k),
        0 <= ops.nodes()[d].children[k] < ops.nodes().len(),
        !ops.nodes()[ops.nodes()[d].children[k] as int].is_dir,
        ops.patch() != Some(ops.nodes()[d].children[k] as int),
        catalogue_lba(ops.nodes(), ops.first_lba()) < 0x1_0000_0000,
        ops.nodes()[ops.nodes()[d].children[k] as int].data.len() < 0x1_0000_0000,
    ensures
        reads_file(
            ops.formatted(old, dates),
            dir_lba(ops.nodes(), ops.first_lba(), d),
            2048 * dir_blocks(ops.nodes(), d),
            ops.nodes()[ops.nodes()[d].children[k] as int].name,
            ops.nodes()[ops.nodes()[d].children[k] as int].data,
        ),
{
    let nodes = ops.nodes();
    let first = ops.first_lba();
    let image = ops.formatted(old, dates);
    let i = nodes[d].children[k] as int;
    let entries = dir_entries(nodes, first, d);
    let places = record_places(entries, 0, entries.len() as int);
    let extent = sector_padded(dir_records(nodes, first, d));
    let at = places[k + 2];
    assert(extent_of(image, dir_lba(nodes, first, d), 2048 * dir_blocks(nodes, d)) == Some(extent)
        && records_scan(extent, 0) == Ok::<Seq<int>, IsoError>(places)
        && crate::reader::first_match(extent, places, nodes[i].name, false, places.len() as int)
        == Some(at) && record_lba(extent, at) == low32(file_lba(nodes, first, i)) && record_size(
        extent,
        at,
    ) == low32(nodes[i].data.len() as int)) by {
        directory_reads_back(ops, old, dates, d);
        record_of_child(nodes, first, d, k);
        lookup_reads_back(extent, entries, places, k + 2, false);
    }
    assert(extent_of(image, file_lba(nodes, first, i), nodes[i].data.len() as int) == Some(
        nodes[i].data,
    )) by {
        file_stands_at_its_block(ops, old, dates, i);
    }
    assert(low32(file_lba(nodes, first, i)) == file_lba(nodes, first, i)) by {
        file_within_image(ops, i);
        crate::raw::low32_small(file_lba(nodes, first, i));
    }
    crate::raw::low32_small(nodes[i].data.len() as int);
}

/// A directory of an image is found again: in the directory that holds it, the
/// lookup of its name among the directories finds a record that names the extent of
/// the directory. This is what `IsoDirectory::find_directory` returns. It holds where
/// no name in the directory that holds it has more than 221 bytes, the directory can
/// be looked up by its name, and the image has less than 2^32 blocks and the
/// directory less than 2^32 bytes.
#[verifier::spinoff_prover]
pub proof fn directory_is_found(
    ops: FormatOptions,
    old: Seq<u8>,
    dates: VolumeDates,
    d: int,
    k: int,
)
    requires
        ops.format_error(old.len() as int) is None,
        0 <= d < ops.nodes().len(),
        ops.nodes()[d].is_dir,
        forall|j: int|
            0 <= j < ops.nodes()[d].children.len() ==> ops.nodes()[(
            #[trigger] ops.nodes()[d].children[j]) as int].name.len() <= 221,
        can_be_looked_up(ops.nodes(), d, k),
        0 <= ops.nodes()[d].children[k] < ops.nodes().len(),
        ops.nodes()[ops.nodes()[d].children[k] as int].is_dir,
        catalogue_lba(ops.nodes(), ops.first_lba()) < 0x1_0000_0000,
        2048 * dir_blocks(ops.nodes(), ops.nodes()[d].children[k] as int) < 0x1_0000_0000,
    ensures
        finds_directory(
            ops.formatted(old, dates),
            dir_lba(ops.nodes(), ops.first_lba(), d),
            2048 * dir_blocks(ops.nodes(), d),
            ops.nodes()[ops.nodes()[d].children[k] as int].name,
            dir_lba(ops.nodes(), ops.first_lba(), ops.nodes()[d].children[k] as int),
            2048 * dir_blocks(ops.nodes(), ops.nodes()[d].children[k] as int),
        ),
{
    let nodes = ops.nodes();
    let first = ops.first_lba();
    let image = ops.formatted(old, dates);
    let c = nodes[d].children[k] as int;
    let entries = dir_entries(nodes, first, d);
    let places = record_places(entries, 0, entries.len() as int);
    let extent = sector_padded(dir_records(nodes, first, d));
    let at = places[k + 2];
    assert(crate::directory::marks_directory(0x02u8)) by (bit_vector);
    assert(extent_of(image, dir_lba(nodes, first, d), 2048 * dir_blocks(nodes, d)) == Some(extent)
        && records_scan(extent, 0) == Ok::<Seq<int>, IsoError>(places)
        && crate::reader::first_match(extent, places, nodes[c].name, true, places.len() as int)
        == Some(at) && record_lba(extent, at) == low32(dir_lba(nodes, first, c)) && record_size(
        extent,
        at,
    ) == low32(2048 * dir_blocks(nodes, c))) by {
        directory_reads_back(ops, old, dates, d);
        record_of_child(nodes, first, d, k);
        lookup_reads_back(extent, entries, places, k + 2, true);
    }
    assert(low32(dir_lba(nodes, first, c)) == dir_lba(nodes, first, c)) by {
        directory_within_image(ops, c);
        crate::raw::low32_small(dir_lba(nodes, first, c));
    }
    assert(0 <= dir_blocks(nodes, c)) by {
        directory_among_extents(nodes, first, ops.patch(), c);
    }
    crate::raw::low32_small(2048 * dir_blocks(nodes, c));
}

/// The extent of a file begins at a block from the first extent on and before the
/// block behind the path tables.
pub proof fn file_within_image(ops: FormatOptions, i: int)
    requires
        0 <= i < ops.nodes().len(),
        !ops.nodes()[i].is_dir,
    ensures
        ops.first_lba() <= file_lba(ops.nodes(), ops.first_lba(), i) <= catalogue_lba(
            ops.nodes(),
            ops.first_lba(),
        ),
{
    let nodes = ops.nodes();
    let first = ops.first_lba();
    file_among_extents(nodes, first, ops.patch(), i);
    crate::layout::extents_parts(nodes, first, ops.patch());
}

/// The extent of a directory begins at a block from the first extent on and before
/// the block behind the path tables.
pub proof fn directory_within_image(ops: FormatOptions, d: int)
    requires
        0 <= d < ops.nodes().len(),
        ops.nodes()[d].is_dir,
    ensures
        ops.first_lba() <= dir_lba(ops.nodes(), ops.first_lba(), d) <= catalogue_lba(
            ops.nodes(),
            ops.first_lba(),
        ),
{
    let nodes = ops.nodes();
    let first = ops.first_lba();
    directory_among_extents(nodes, first, ops.patch(), d);
    crate::layout::extents_parts(nodes, first, ops.patch());
}

/// The entries of the tree of an image fit together: what a directory holds stands
/// behind it and names it as its parent; the first entry is the root, which is its
/// own parent and holds the trees that were given, in their order. This holds for
/// trees of less than `usize::MAX` entries.
pub proof fn entries_fit_together(ops: FormatOptions)
    requires
        ops.nodes().len() <= usize::MAX,
    ensures
        crate::tree::children_ok(ops.nodes(), 0),
        ops.nodes().len() >= 1,
        ops.nodes()[0].is_dir,
        ops.nodes()[0].parent == 0,
        ops.nodes()[0].children.len() == ops.files@.len(),
        forall|k: int|
            0 <= k < ops.files@.len() ==> {
                let c = (#[trigger] ops.nodes()[0].children[k]) as int;
                &&& 0 < c < ops.nodes().len()
                &&& ops.nodes()[c].name == ops.files@[k].spec_name()
                &&& ops.nodes()[c].is_dir == (ops.files@[k] is Directory)
            },
{
    reveal(FormatOptions::nodes);
    crate::tree::tree_children_ok(ops.files@);
}

/// Every directory of an image names itself and its parent: its first record, under
/// the name `00`, names its own extent, and its second record, under the name `01`,
/// names the extent of the directory that holds it; for the root directory that is
/// the root directory itself.
#[verifier::spinoff_prover]
pub proof fn directory_names_itself_and_its_parent(
    ops: FormatOptions,
    old: Seq<u8>,
    dates: VolumeDates,
    d: int,
)
    requires
        ops.format_error(old.len() as int) is None,
        0 <= d < ops.nodes().len(),
        ops.nodes()[d].is_dir,
        forall|k: int|
            0 <= k < ops.nodes()[d].children.len() ==> ops.nodes()[(
            #[trigger] ops.nodes()[d].children[k]) as int].name.len() <= 221,
    ensures
        ({
            let nodes = ops.nodes();
            let first = ops.first_lba();
            let extent = sector_padded(dir_records(nodes, first, d));
            let parent = nodes[d].parent as int;
            &&& extent_of(
                ops.formatted(old, dates),
                dir_lba(nodes, first, d),
                2048 * dir_blocks(nodes, d),
            ) == Some(extent)
            &&& record_says(extent, 0, node_entry(nodes, first, d, seq![0u8]))
            &&& record_says(extent, 34, node_entry(nodes, first, parent, seq![1u8]))
            &&& record_lba(extent, 0) == low32(dir_lba(nodes, first, d))
            &&& record_size(extent, 0) == low32(2048 * dir_blocks(nodes, d))
        }),
{
    let nodes = ops.nodes();
    let first = ops.first_lba();
    let entries = dir_entries(nodes, first, d);
    let places = record_places(entries, 0, entries.len() as int);
    directory_reads_back(ops, old, dates, d);
    places_facts(entries, 0, entries.len() as int);
    assert(places[0] == record_place(entries, 0int + 0int));
    assert(places[1] == record_place(entries, 0int + 1int));
    assert(record_place(entries, 0) == 0);
    assert(record_place(entries, 1) == 34) by {
        record_stands_at_its_place(entries, 0, entries.len() as int);
        crate::directory::record_length_is_even(1);
    }
    assert(entries[0] == node_entry(nodes, first, d, seq![0u8]));
    assert(entries[1] == node_entry(nodes, first, nodes[d].parent as int, seq![1u8]));
}

/// The place of the row `k` of `rows` in a table that begins at the byte `base`.
pub open spec fn row_place(rows: Seq<TableRow>, endian: EndianType, base: int, k: int) -> int {
    base + rows_bytes(rows, endian, k).len()
}

/// The places of the rows `from` to `upto` of `rows` in a table that begins at the
/// byte `base`.
pub open spec fn row_places(
    rows: Seq<TableRow>,
    endian: EndianType,
    base: int,
    from: int,
    upto: int,
) -> Seq<int>
    decreases upto - from,
{
    if from >= upto {
        Seq::empty()
    } else {
        seq![row_place(rows, endian, base, from)] + row_places(rows, endian, base, from + 1, upto)
    }
}

/// The bytes of the first rows stand at the head of the bytes of more of them, and
/// each row stands behind the rows before it.
pub proof fn row_stands_at_its_place(rows: Seq<TableRow>, endian: EndianType, k: int, upto: int)
    requires
        0 <= k < upto <= rows.len(),
    ensures
        rows_bytes(rows, endian, k + 1).len() <= rows_bytes(rows, endian, upto).len(),
        rows_bytes(rows, endian, k + 1).len() == rows_bytes(rows, endian, k).len() + rows[k].bytes(
            endian,
        ).len(),
        rows_bytes(rows, endian, upto).subrange(
            rows_bytes(rows, endian, k).len() as int,
            rows_bytes(rows, endian, k + 1).len() as int,
        ) == rows[k].bytes(endian),
    decreases upto - k,
{
    let all = rows_bytes(rows, endian, upto);
    let at = rows_bytes(rows, endian, k).len() as int;
    let next = rows_bytes(rows, endian, k + 1).len() as int;
    if upto == k + 1 {
        assert(all.subrange(at, next) =~= rows[k].bytes(endian));
    } else {
        row_stands_at_its_place(rows, endian, k, upto - 1);
        let shorter = rows_bytes(rows, endian, upto - 1);
        assert(all.subrange(at, next) =~= shorter.subrange(at, next));
    }
}

/// Whether the path table entry at `at` of `bytes` says what `row` says, read in the
/// byte order `endian`.
pub open spec fn row_says(bytes: Seq<u8>, at: int, row: TableRow, endian: EndianType) -> bool {
    &&& bytes[at] == row.name.len()
    &&& endian.spec_read_u32(bytes.subrange(at + 2, at + 6)) == row.lba
    &&& endian.spec_read_u16(bytes.subrange(at + 6, at + 8)) == row.parent
    &&& bytes.subrange(at + 8, at + 8 + row.name.len()) == row.name
}

/// What stands in `bytes` where a row with a name of 1 to 255 bytes stands: an
/// entry that fits, whose name is not without bytes, and that says what the row says.
pub proof fn row_is_read(bytes: Seq<u8>, at: int, row: TableRow, endian: EndianType)
    requires
        0 <= at,
        1 <= row.name.len() <= 255,
        at + row.bytes(endian).len() <= bytes.len(),
        bytes.subrange(at, at + row.bytes(endian).len()) == row.bytes(endian),
    ensures
        crate::path::path_entry_fits(bytes, at),
        bytes[at] != 0,
        row.bytes(endian).len() == crate::path::path_entry_span(bytes[at] as int),
        row_says(bytes, at, row, endian),
{
    let e = row.bytes(endian);
    let n = e.len() as int;
    endian.round_trip(row.parent, row.lba, 0);
    crate::path::path_entry_len(row.name, row.lba, row.parent, endian);
    assert(bytes[at] == bytes.subrange(at, at + n)[0]);
    assert(e[0] == row.name.len());
    crate::raw::part_of_part(bytes, at, n, 2, 6);
    crate::raw::part_of_part(bytes, at, n, 6, 8);
    crate::raw::part_of_part(bytes, at, n, 8, 8 + row.name.len() as int);
    assert(e.subrange(2, 6) =~= endian.spec_u32_bytes(row.lba));
    assert(e.subrange(6, 8) =~= endian.spec_u16_bytes(row.parent));
    assert(e.subrange(8, 8 + row.name.len() as int) =~= row.name);
}

/// Reading a path table that holds `rows`, each with a name of 1 to 255 bytes, finds
/// the rows from `k` on at their places.
pub proof fn rows_are_found(
    bytes: Seq<u8>,
    base: int,
    rows: Seq<TableRow>,
    endian: EndianType,
    k: int,
)
    requires
        0 <= base,
        0 <= k <= rows.len(),
        forall|j: int| 0 <= j < rows.len() ==> 1 <= (#[trigger] rows[j]).name.len() <= 255,
        base + rows_bytes(rows, endian, rows.len() as int).len() <= bytes.len(),
        bytes.subrange(base, base + rows_bytes(rows, endian, rows.len() as int).len())
            == rows_bytes(rows, endian, rows.len() as int),
    ensures
        crate::reader::table_scan(
            bytes,
            base,
            rows_bytes(rows, endian, rows.len() as int).len() as int,
            rows_bytes(rows, endian, k).len() as int,
        ) == Ok::<Seq<int>, IsoError>(row_places(rows, endian, base, k, rows.len() as int)),
    decreases rows.len() - k,
{
    let m = rows.len() as int;
    let all = rows_bytes(rows, endian, m);
    let idx = rows_bytes(rows, endian, k).len() as int;
    if k == m {
        assert(row_places(rows, endian, base, k, m) =~= Seq::<int>::empty());
    } else {
        row_stands_at_its_place(rows, endian, k, m);
        let next = rows_bytes(rows, endian, k + 1).len() as int;
        crate::raw::part_of_part(bytes, base, all.len() as int, idx, next);
        row_is_read(bytes, base + idx, rows[k], endian);
        rows_are_found(bytes, base, rows, endian, k + 1);
        assert(idx + crate::path::path_entry_span(bytes[base + idx] as int) == next);
    }
}

/// The byte at which the path table with the byte order `endian` begins.
pub open spec fn table_base(nodes: Seq<NodeView>, first: int, endian: EndianType) -> int {
    if endian == EndianType::LittleEndian {
        2048 * l_table_lba(nodes, first)
    } else {
        2048 * m_table_lba(nodes, first)
    }
}

/// Reading the path tables of an image back finds, in either table, the same rows in
/// the same order: one for each directory, ordered by depth, each with the name of
/// the directory, the block of its extent, and the number of its parent. This holds
/// where every directory but the root has a name of at least one byte.
#[verifier::spinoff_prover]
pub proof fn path_tables_read_back(
    ops: FormatOptions,
    old: Seq<u8>,
    dates: VolumeDates,
    endian: EndianType,
)
    requires
        ops.format_error(old.len() as int) is None,
        endian == EndianType::LittleEndian || endian == EndianType::BigEndian,
        forall|j: int|
            0 <= j < table_rows(ops.nodes(), ops.first_lba()).len() ==> 1 <= (
            #[trigger] table_rows(ops.nodes(), ops.first_lba())[j]).name.len() <= 255,
    ensures
        ({
            let nodes = ops.nodes();
            let first = ops.first_lba();
            let image = ops.formatted(old, dates);
            let rows = table_rows(nodes, first);
            let base = table_base(nodes, first, endian);
            let places = row_places(rows, endian, base, 0, rows.len() as int);
            &&& crate::reader::table_scan(image, base, table_len(nodes, first), 0) == Ok::<
                Seq<int>,
                IsoError,
            >(places)
            &&& places.len() == rows.len()
            &&& forall|k: int|
                0 <= k < rows.len() ==> row_says(image, #[trigger] places[k], rows[k], endian)
        }),
{
    let nodes = ops.nodes();
    let first = ops.first_lba();
    let image = ops.formatted(old, dates);
    let rows = table_rows(nodes, first);
    let m = rows.len() as int;
    let base = table_base(nodes, first, endian);
    let all = rows_bytes(rows, endian, m);
    let places = row_places(rows, endian, base, 0, m);
    path_tables_are_symmetric(nodes, first);
    tables_stand_at_their_blocks(ops, old, dates);
    blocks_in_order(ops);
    assert(all == table_bytes(nodes, first, endian));
    assert(all.len() == table_len(nodes, first));
    assert(image.subrange(base, base + all.len()) == all);
    rows_are_found(image, base, rows, endian, 0);
    row_places_facts(rows, endian, base, 0, m);
    assert forall|k: int| 0 <= k < rows.len() implies row_says(
        image,
        #[trigger] places[k],
        rows[k],
        endian,
    ) by {
        assert(places[k] == row_place(rows, endian, base, 0 + k));
        row_stands_at_its_place(rows, endian, k, m);
        let idx = rows_bytes(rows, endian, k).len() as int;
        let next = rows_bytes(rows, endian, k + 1).len() as int;
        crate::raw::part_of_part(image, base, all.len() as int, idx, next);
        row_is_read(image, base + idx, rows[k], endian);
    }
}

/// The places of the rows `from` to `upto` are as many as the rows, and the place of
/// each row among them is its own.
pub proof fn row_places_facts(
    rows: Seq<TableRow>,
    endian: EndianType,
    base: int,
    from: int,
    upto: int,
)
    requires
        0 <= from <= upto,
    ensures
        row_places(rows, endian, base, from, upto).len() == upto - from,
        forall|j: int|
            0 <= j < upto - from ==> #[trigger] row_places(rows, endian, base, from, upto)[j]
                == row_place(rows, endian, base, from + j),
    decreases upto - from,
{
    if from < upto {
        row_places_facts(rows, endian, base, from + 1, upto);
        let rest = row_places(rows, endian, base, from + 1, upto);
        let all = row_places(rows, endian, base, from, upto);
        assert(all =~= seq![row_place(rows, endian, base, from)] + rest);
        assert forall|j: int| 0 <= j < upto - from implies #[trigger] all[j] == row_place(
            rows,
            endian,
            base,
            from + j,
        ) by {
            if j > 0 {
                assert(all[j] == rest[j - 1]);
                assert(rest[j - 1] == row_place(rows, endian, base, from + 1 + (j - 1)));
            }
        }
    }
}

} // verus!
