use vstd::prelude::*;
use crate::boot::{boot_image_checksum, boot_info_bytes, catalogue_bytes};
use crate::directory::{record_bytes, record_span};
use crate::path::path_entry_bytes;
use crate::raw::{low16, low32, sector_padded};
use crate::tree::NodeView;
use crate::types::EndianType;

verus! {

/// Number of whole sectors needed to hold `size` bytes.
pub open spec fn sectors_for(size: int) -> int {
    (size + 2047) / 2048
}

/// The flag byte of the record of `node`: that of a directory, or none.
pub open spec fn record_flags(node: NodeView) -> u8 {
    if node.is_dir {
        0x02
    } else {
        0
    }
}

/// The number of bytes of the records of the first `upto` of `children`.
pub open spec fn children_span(nodes: Seq<NodeView>, children: Seq<usize>, upto: int) -> int
    decreases upto,
{
    if upto <= 0 {
        0
    } else {
        children_span(nodes, children, upto - 1) + record_span(
            nodes[children[upto - 1] as int].name.len() as int,
        )
    }
}

/// The number of bytes of the records of the directory at `d`: one for itself, one
/// for its parent, and one for each entry that it holds.
pub open spec fn dir_len(nodes: Seq<NodeView>, d: int) -> int {
    68 + children_span(nodes, nodes[d].children, nodes[d].children.len() as int)
}

/// The number of sectors of the extent of the entry at `i` where it is a file.
pub open spec fn file_blocks(nodes: Seq<NodeView>, i: int) -> int {
    if nodes[i].is_dir {
        0
    } else {
        sectors_for(nodes[i].data.len() as int)
    }
}

/// The number of sectors of the extent of the entry at `i` where it is a directory.
pub open spec fn dir_blocks(nodes: Seq<NodeView>, i: int) -> int {
    if nodes[i].is_dir {
        sectors_for(dir_len(nodes, i))
    } else {
        0
    }
}

/// The number of sectors of the file extents of the entries from `from` on.
pub open spec fn file_blocks_from(nodes: Seq<NodeView>, from: int) -> int
    decreases nodes.len() - from,
{
    if from < 0 || from >= nodes.len() {
        0
    } else {
        file_blocks_from(nodes, from + 1) + file_blocks(nodes, from)
    }
}

/// The number of sectors of the directory extents of the entries from `from` on.
pub open spec fn dir_blocks_from(nodes: Seq<NodeView>, from: int) -> int
    decreases nodes.len() - from,
{
    if from < 0 || from >= nodes.len() {
        0
    } else {
        dir_blocks_from(nodes, from + 1) + dir_blocks(nodes, from)
    }
}

/// The block at which the extent of the file at `i` begins, where the first extent
/// begins at the block `first`: files are laid down from the last entry to the first.
pub open spec fn file_lba(nodes: Seq<NodeView>, first: int, i: int) -> int {
    first + file_blocks_from(nodes, i + 1)
}

/// The block at which the extent of the directory at `i` begins: directories follow
/// the files, and are laid down from the last entry to the first, so that each stands
/// behind all that it holds and the root stands last.
pub open spec fn dir_lba(nodes: Seq<NodeView>, first: int, i: int) -> int {
    first + file_blocks_from(nodes, 0) + dir_blocks_from(nodes, i + 1)
}

/// The block at which the extent of the entry at `i` begins.
pub open spec fn extent_lba(nodes: Seq<NodeView>, first: int, i: int) -> int {
    if nodes[i].is_dir {
        dir_lba(nodes, first, i)
    } else {
        file_lba(nodes, first, i)
    }
}

/// The number of bytes that the record of the entry at `i` gives for its extent: the
/// length of a file, the whole sectors of a directory.
pub open spec fn extent_size(nodes: Seq<NodeView>, i: int) -> int {
    if nodes[i].is_dir {
        2048 * dir_blocks(nodes, i)
    } else {
        nodes[i].data.len() as int
    }
}

/// The boot image `data` with the boot information table in its bytes 8 to 63; an
/// image of less than 64 bytes, which has no room for the table, stays as it is.
pub open spec fn patched_boot_image(data: Seq<u8>, lba: u32) -> Seq<u8> {
    if data.len() >= 64 {
        data.subrange(0, 8) + boot_info_bytes(
            lba,
            low32(data.len() as int),
            boot_image_checksum(data),
        ) + data.subrange(64, data.len() as int)
    } else {
        data
    }
}

/// The content that is written for the file at `i`: its data, with the boot
/// information table in it where `patch` names it.
pub open spec fn file_content(nodes: Seq<NodeView>, first: int, patch: Option<int>, i: int) -> Seq<
    u8,
> {
    if patch == Some(i) {
        patched_boot_image(nodes[i].data, low32(file_lba(nodes, first, i)))
    } else {
        nodes[i].data
    }
}

/// The file extents of the entries from `from` on, in the order in which they are
/// laid down.
pub open spec fn files_bytes(nodes: Seq<NodeView>, first: int, patch: Option<int>, from: int) -> Seq<
    u8,
>
    decreases nodes.len() - from,
{
    if from < 0 || from >= nodes.len() {
        Seq::empty()
    } else if nodes[from].is_dir {
        files_bytes(nodes, first, patch, from + 1)
    } else {
        files_bytes(nodes, first, patch, from + 1) + sector_padded(
            file_content(nodes, first, patch, from),
        )
    }
}

/// The record of the entry at `i` under the name `name`.
pub open spec fn node_record(nodes: Seq<NodeView>, first: int, i: int, name: Seq<u8>) -> Seq<u8> {
    record_bytes(
        name,
        record_flags(nodes[i]),
        low32(extent_lba(nodes, first, i)),
        low32(extent_size(nodes, i)),
    )
}

/// The records of the first `upto` of `children`, each under its own name.
pub open spec fn child_records(
    nodes: Seq<NodeView>,
    first: int,
    children: Seq<usize>,
    upto: int,
) -> Seq<u8>
    decreases upto,
{
    if upto <= 0 {
        Seq::empty()
    } else {
        let c = children[upto - 1] as int;
        child_records(nodes, first, children, upto - 1) + node_record(
            nodes,
            first,
            c,
            nodes[c].name,
        )
    }
}

/// The records of the directory at `d`: itself under the name `00`, its parent under
/// the name `01`, and then what it holds.
pub open spec fn dir_records(nodes: Seq<NodeView>, first: int, d: int) -> Seq<u8> {
    node_record(nodes, first, d, seq![0u8]) + node_record(
        nodes,
        first,
        nodes[d].parent as int,
        seq![1u8],
    ) + child_records(nodes, first, nodes[d].children, nodes[d].children.len() as int)
}

/// The directory extents of the entries from `from` on, in the order in which they
/// are laid down.
pub open spec fn dirs_bytes(nodes: Seq<NodeView>, first: int, from: int) -> Seq<u8>
    decreases nodes.len() - from,
{
    if from < 0 || from >= nodes.len() {
        Seq::empty()
    } else if nodes[from].is_dir {
        dirs_bytes(nodes, first, from + 1) + sector_padded(dir_records(nodes, first, from))
    } else {
        dirs_bytes(nodes, first, from + 1)
    }
}

/// The number of directories among the first `upto` entries that are `depth`
/// directories deep.
pub open spec fn level_count(nodes: Seq<NodeView>, depth: int, upto: int) -> int
    decreases upto,
{
    if upto <= 0 {
        0
    } else if nodes[upto - 1].is_dir && nodes[upto - 1].depth == depth {
        level_count(nodes, depth, upto - 1) + 1
    } else {
        level_count(nodes, depth, upto - 1)
    }
}

/// The number of directories that are less than `depth` directories deep.
pub open spec fn dirs_above(nodes: Seq<NodeView>, depth: int) -> int
    decreases depth,
{
    if depth <= 0 {
        0
    } else {
        dirs_above(nodes, depth - 1) + level_count(nodes, depth - 1, nodes.len() as int)
    }
}

/// The number of the directory at `i` in the path tables: directories are numbered
/// from one, by their depth, and at one depth in the order of the entries.
pub open spec fn dir_number(nodes: Seq<NodeView>, i: int) -> int {
    1 + dirs_above(nodes, nodes[i].depth as int) + level_count(nodes, nodes[i].depth as int, i)
}

/// The name of the directory at `i` in the path tables: a zero byte for the root.
pub open spec fn table_name(nodes: Seq<NodeView>, i: int) -> Seq<u8> {
    if i == 0 {
        seq![0u8]
    } else {
        nodes[i].name
    }
}

/// The path table entry of the directory at `i`: its name, the block of its extent,
/// and the number of its parent.
pub open spec fn table_entry(nodes: Seq<NodeView>, first: int, i: int, endian: EndianType) -> Seq<
    u8,
> {
    path_entry_bytes(
        table_name(nodes, i),
        low32(dir_lba(nodes, first, i)),
        low16(dir_number(nodes, nodes[i].parent as int)),
        endian,
    )
}

/// The path table entries of the directories among the first `upto` entries that are
/// `depth` directories deep.
pub open spec fn level_bytes(
    nodes: Seq<NodeView>,
    first: int,
    depth: int,
    upto: int,
    endian: EndianType,
) -> Seq<u8>
    decreases upto,
{
    if upto <= 0 {
        Seq::empty()
    } else if nodes[upto - 1].is_dir && nodes[upto - 1].depth == depth {
        level_bytes(nodes, first, depth, upto - 1, endian) + table_entry(
            nodes,
            first,
            upto - 1,
            endian,
        )
    } else {
        level_bytes(nodes, first, depth, upto - 1, endian)
    }
}

/// The path table entries of the directories that are `depth` or more directories
/// deep, depth by depth, up to the first depth without a directory.
pub open spec fn levels_bytes(nodes: Seq<NodeView>, first: int, depth: int, endian: EndianType) -> Seq<
    u8,
>
    decreases nodes.len() - depth,
{
    if depth < 0 || depth >= nodes.len() || level_count(nodes, depth, nodes.len() as int) == 0 {
        Seq::empty()
    } else {
        level_bytes(nodes, first, depth, nodes.len() as int, endian) + levels_bytes(
            nodes,
            first,
            depth + 1,
            endian,
        )
    }
}

/// The bytes of a path table with its numbers in the byte order `endian`.
pub open spec fn table_bytes(nodes: Seq<NodeView>, first: int, endian: EndianType) -> Seq<u8> {
    levels_bytes(nodes, first, 0, endian)
}

/// The block at which the little-endian path table begins: behind the directories.
pub open spec fn l_table_lba(nodes: Seq<NodeView>, first: int) -> int {
    first + file_blocks_from(nodes, 0) + dir_blocks_from(nodes, 0)
}

/// The number of bytes of one path table.
pub open spec fn table_len(nodes: Seq<NodeView>, first: int) -> int {
    table_bytes(nodes, first, EndianType::LittleEndian).len() as int
}

/// The block at which the big-endian path table begins: behind the little-endian
/// one.
pub open spec fn m_table_lba(nodes: Seq<NodeView>, first: int) -> int {
    l_table_lba(nodes, first) + sectors_for(table_len(nodes, first))
}

/// The block behind the path tables, at which the boot catalogue begins where there
/// is one.
pub open spec fn catalogue_lba(nodes: Seq<NodeView>, first: int) -> int {
    m_table_lba(nodes, first) + sectors_for(
        table_bytes(nodes, first, EndianType::BigEndian).len() as int,
    )
}

/// All that is written behind the volume descriptors: the files, the directories
/// and the two path tables, each filled up to whole sectors.
#[verifier::opaque]
pub open spec fn extents_bytes(nodes: Seq<NodeView>, first: int, patch: Option<int>) -> Seq<u8> {
    files_bytes(nodes, first, patch, 0) + dirs_bytes(nodes, first, 0) + sector_padded(
        table_bytes(nodes, first, EndianType::LittleEndian),
    ) + sector_padded(table_bytes(nodes, first, EndianType::BigEndian))
}

/// The sector of the boot catalogue of an image whose boot image stands at the block
/// `rba` and of which `sectors` sectors are loaded.
pub open spec fn catalogue_sector(sectors: u16, rba: u32) -> Seq<u8> {
    sector_padded(catalogue_bytes(0, 0, sectors, rba))
}

/// The records of what a directory holds take as many bytes as their spans add up to.
pub proof fn child_records_len(nodes: Seq<NodeView>, first: int, children: Seq<usize>, upto: int)
    requires
        0 <= upto <= children.len(),
    ensures
        child_records(nodes, first, children, upto).len() == children_span(nodes, children, upto),
        children_span(nodes, children, upto) >= 0,
    decreases upto,
{
    if upto > 0 {
        child_records_len(nodes, first, children, upto - 1);
        let c = children[upto - 1] as int;
        crate::directory::record_bytes_len(
            nodes[c].name,
            record_flags(nodes[c]),
            low32(extent_lba(nodes, first, c)),
            low32(extent_size(nodes, c)),
        );
    }
}

/// The records of a directory take as many bytes as `dir_len` says.
pub proof fn dir_records_len(nodes: Seq<NodeView>, first: int, d: int)
    ensures
        dir_records(nodes, first, d).len() == dir_len(nodes, d),
        dir_len(nodes, d) >= 68,
{
    let p = nodes[d].parent as int;
    crate::directory::record_bytes_len(
        seq![0u8],
        record_flags(nodes[d]),
        low32(extent_lba(nodes, first, d)),
        low32(extent_size(nodes, d)),
    );
    crate::directory::record_bytes_len(
        seq![1u8],
        record_flags(nodes[p]),
        low32(extent_lba(nodes, first, p)),
        low32(extent_size(nodes, p)),
    );
    child_records_len(nodes, first, nodes[d].children, nodes[d].children.len() as int);
}

/// The content that is written for a file has as many bytes as the file.
pub proof fn file_content_len(nodes: Seq<NodeView>, first: int, patch: Option<int>, i: int)
    ensures
        file_content(nodes, first, patch, i).len() == nodes[i].data.len(),
{
    let data = nodes[i].data;
    if patch == Some(i) && data.len() >= 64 {
        let lba = low32(file_lba(nodes, first, i));
        crate::types::u32_round_trip(16);
        crate::types::u32_round_trip(lba);
        crate::types::u32_round_trip(low32(data.len() as int));
        crate::types::u32_round_trip(boot_image_checksum(data));
    }
}

/// The file extents from `from` on take the sectors that `file_blocks_from` counts,
/// and those from a later entry on stand at their head.
pub proof fn files_bytes_len(nodes: Seq<NodeView>, first: int, patch: Option<int>, from: int)
    requires
        0 <= from <= nodes.len(),
    ensures
        files_bytes(nodes, first, patch, from).len() == 2048 * file_blocks_from(nodes, from),
        file_blocks_from(nodes, from) >= 0,
    decreases nodes.len() - from,
{
    if from < nodes.len() {
        files_bytes_len(nodes, first, patch, from + 1);
        if !nodes[from].is_dir {
            file_content_len(nodes, first, patch, from);
            crate::raw::sector_padded_len(file_content(nodes, first, patch, from));
        }
    }
}

/// The directory extents from `from` on take the sectors that `dir_blocks_from`
/// counts.
pub proof fn dirs_bytes_len(nodes: Seq<NodeView>, first: int, from: int)
    requires
        0 <= from <= nodes.len(),
    ensures
        dirs_bytes(nodes, first, from).len() == 2048 * dir_blocks_from(nodes, from),
        dir_blocks_from(nodes, from) >= 0,
    decreases nodes.len() - from,
{
    if from < nodes.len() {
        dirs_bytes_len(nodes, first, from + 1);
        if nodes[from].is_dir {
            dir_records_len(nodes, first, from);
            crate::raw::sector_padded_len(dir_records(nodes, first, from));
        }
    }
}

/// Files, directories and path tables together end at the block at which a boot
/// catalogue begins.
pub proof fn extents_bytes_len(nodes: Seq<NodeView>, first: int, patch: Option<int>)
    ensures
        extents_bytes(nodes, first, patch).len() == 2048 * (catalogue_lba(nodes, first) - first),
        first <= l_table_lba(nodes, first) <= m_table_lba(nodes, first) <= catalogue_lba(
            nodes,
            first,
        ),
{
    reveal(extents_bytes);
    files_bytes_len(nodes, first, patch, 0);
    dirs_bytes_len(nodes, first, 0);
    crate::raw::sector_padded_len(table_bytes(nodes, first, EndianType::LittleEndian));
    crate::raw::sector_padded_len(table_bytes(nodes, first, EndianType::BigEndian));
}

/// Among the file extents from `from` on, that of the file at `i` begins behind
/// the extents of the files after it.
pub proof fn files_bytes_part(
    nodes: Seq<NodeView>,
    first: int,
    patch: Option<int>,
    from: int,
    i: int,
)
    requires
        0 <= from <= i < nodes.len(),
        !nodes[i].is_dir,
    ensures
        ({
            let all = files_bytes(nodes, first, patch, from);
            let at = 2048 * file_blocks_from(nodes, i + 1);
            &&& 0 <= at
            &&& at + 2048 * file_blocks(nodes, i) <= all.len()
            &&& all.subrange(at, at + 2048 * file_blocks(nodes, i)) == sector_padded(
                file_content(nodes, first, patch, i),
            )
        }),
    decreases i - from,
{
    let all = files_bytes(nodes, first, patch, from);
    let at = 2048 * file_blocks_from(nodes, i + 1);
    let part = sector_padded(file_content(nodes, first, patch, i));
    files_bytes_len(nodes, first, patch, i + 1);
    files_bytes_len(nodes, first, patch, i);
    file_content_len(nodes, first, patch, i);
    crate::raw::sector_padded_len(file_content(nodes, first, patch, i));
    if from == i {
        assert(all.subrange(at, at + 2048 * file_blocks(nodes, i)) =~= part);
    } else {
        files_bytes_part(nodes, first, patch, from + 1, i);
        files_bytes_len(nodes, first, patch, from + 1);
        let rest = files_bytes(nodes, first, patch, from + 1);
        assert(all.subrange(at, at + 2048 * file_blocks(nodes, i)) =~= rest.subrange(
            at,
            at + 2048 * file_blocks(nodes, i),
        ));
    }
}

/// Among the directory extents from `from` on, that of the directory at `i` begins
/// behind the extents of the directories after it.
pub proof fn dirs_bytes_part(nodes: Seq<NodeView>, first: int, from: int, i: int)
    requires
        0 <= from <= i < nodes.len(),
        nodes[i].is_dir,
    ensures
        ({
            let all = dirs_bytes(nodes, first, from);
            let at = 2048 * dir_blocks_from(nodes, i + 1);
            &&& 0 <= at
            &&& at + 2048 * dir_blocks(nodes, i) <= all.len()
            &&& all.subrange(at, at + 2048 * dir_blocks(nodes, i)) == sector_padded(
                dir_records(nodes, first, i),
            )
        }),
    decreases i - from,
{
    let all = dirs_bytes(nodes, first, from);
    let at = 2048 * dir_blocks_from(nodes, i + 1);
    let part = sector_padded(dir_records(nodes, first, i));
    dirs_bytes_len(nodes, first, i + 1);
    dirs_bytes_len(nodes, first, i);
    dir_records_len(nodes, first, i);
    crate::raw::sector_padded_len(dir_records(nodes, first, i));
    if from == i {
        assert(all.subrange(at, at + 2048 * dir_blocks(nodes, i)) =~= part);
    } else {
        dirs_bytes_part(nodes, first, from + 1, i);
        dirs_bytes_len(nodes, first, from + 1);
        let rest = dirs_bytes(nodes, first, from + 1);
        assert(all.subrange(at, at + 2048 * dir_blocks(nodes, i)) =~= rest.subrange(
            at,
            at + 2048 * dir_blocks(nodes, i),
        ));
    }
}

/// Where files, directories and path tables begin among the extents, counted in
/// bytes from the first extent.
pub proof fn extents_parts(nodes: Seq<NodeView>, first: int, patch: Option<int>)
    ensures
        ({
            let all = extents_bytes(nodes, first, patch);
            let files = files_bytes(nodes, first, patch, 0);
            let dirs = dirs_bytes(nodes, first, 0);
            let l = table_bytes(nodes, first, EndianType::LittleEndian);
            let m = table_bytes(nodes, first, EndianType::BigEndian);
            let dirs_at = 2048 * file_blocks_from(nodes, 0);
            let l_at = 2048 * (l_table_lba(nodes, first) - first);
            let m_at = 2048 * (m_table_lba(nodes, first) - first);
            &&& all.len() == 2048 * (catalogue_lba(nodes, first) - first)
            &&& 0 <= dirs_at <= l_at <= m_at
            &&& l_at + l.len() <= m_at
            &&& m_at + m.len() <= all.len()
            &&& files.len() == dirs_at
            &&& dirs.len() == l_at - dirs_at
            &&& all.subrange(0, dirs_at) == files
            &&& all.subrange(dirs_at, l_at) == dirs
            &&& all.subrange(l_at, l_at + l.len()) == l
            &&& all.subrange(m_at, m_at + m.len()) == m
        }),
{
    let all = extents_bytes(nodes, first, patch);
    let files = files_bytes(nodes, first, patch, 0);
    let dirs = dirs_bytes(nodes, first, 0);
    let l = table_bytes(nodes, first, EndianType::LittleEndian);
    let m = table_bytes(nodes, first, EndianType::BigEndian);
    reveal(extents_bytes);
    extents_bytes_len(nodes, first, patch);
    files_bytes_len(nodes, first, patch, 0);
    dirs_bytes_len(nodes, first, 0);
    crate::raw::sector_padded_len(l);
    crate::raw::sector_padded_len(m);
    let dirs_at = 2048 * file_blocks_from(nodes, 0);
    let l_at = 2048 * (l_table_lba(nodes, first) - first);
    let m_at = 2048 * (m_table_lba(nodes, first) - first);
    assert(all.subrange(0, dirs_at) =~= files);
    assert(all.subrange(dirs_at, l_at) =~= dirs);
    assert(all.subrange(l_at, l_at + l.len()) =~= l);
    assert(all.subrange(m_at, m_at + m.len()) =~= m);
}

} // verus!
