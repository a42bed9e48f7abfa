use vstd::arithmetic::overflow::CheckedU64;
use vstd::prelude::*;
use crate::boot::{checksum_of_boot_image, BootInfoTable};
use crate::directory::{record_pad_of, DirectoryRecord, DirectoryRef};
use crate::layout::{
    children_span, child_records, dir_blocks, dir_blocks_from, dir_lba, dir_len, dir_number,
    dir_records, dirs_above, dirs_bytes, extent_lba, extent_size, file_blocks, file_blocks_from,
    file_content, file_lba, files_bytes, l_table_lba, level_bytes, level_count, levels_bytes,
    node_record, sectors_for, table_bytes, table_entry,
};
use crate::raw::{low16, low32_of, push_sector_gap, sector_padded};
use crate::tree::{
    child_places, flat_list, no_bytes, tree_nodes, tree_ok, views, IsoFile, Node, NodeView,
};
use crate::types::EndianType;

verus! {

/// Lays a tree out flat, gives each of its entries a place on the volume, and writes
/// the extents of files and directories and the path tables.
pub struct FileWriter<'a> {
    /// The entries of the tree in depth-first order
    files: Vec<Node<'a>>,
    /// The place of each entry, once `place` has run
    written_files: Vec<DirectoryRef>,
    /// The block at which the first extent begins
    first: u64,
    /// The file that gets a boot information table
    patch: Option<usize>,
}

impl<'a> FileWriter<'a> {
    /// The entries of the tree in depth-first order.
    pub closed spec fn nodes(&self) -> Seq<NodeView> {
        views(self.files@)
    }

    /// The block at which the first extent begins.
    pub closed spec fn first(&self) -> int {
        self.first as int
    }

    /// The place of the file that gets a boot information table, if one does.
    pub closed spec fn patch(&self) -> Option<int> {
        match self.patch {
            Some(i) => Some(i as int),
            None => None,
        }
    }

    /// The places that the entries have got.
    pub closed spec fn places(&self) -> Seq<DirectoryRef> {
        self.written_files@
    }

    /// Whether the writer holds a tree: a root directory, and entries that fit
    /// together.
    pub open spec fn wf(&self) -> bool {
        &&& self.nodes().len() >= 1
        &&& self.nodes()[0].is_dir
        &&& self.nodes()[0].depth == 0
        &&& tree_ok(self.nodes())
    }

    /// Whether every entry has got its place: the block at which its extent begins,
    /// and the number of bytes that its record gives.
    pub open spec fn placed(&self) -> bool {
        &&& self.places().len() == self.nodes().len()
        &&& forall|i: int|
            0 <= i < self.nodes().len() ==> {
                &&& (#[trigger] self.places()[i]).offset == extent_lba(
                    self.nodes(),
                    self.first(),
                    i,
                )
                &&& self.places()[i].size == extent_size(self.nodes(), i)
            }
        &&& 2048 * l_table_lba(self.nodes(), self.first()) <= u64::MAX
        &&& self.patch() matches Some(i) ==> 0 <= i < self.nodes().len() && !self.nodes()[i].is_dir
    }

    /// The writer for the tree whose root directory holds `file_tree`.
    pub fn new(file_tree: &'a Vec<IsoFile>) -> (writer: Self)
        ensures
            writer.nodes() == tree_nodes(file_tree@),
            writer.wf(),
    {
        let mut files: Vec<Node<'a>> = Vec::new();
        files.push(
            Node {
                name: no_bytes(),
                data: no_bytes(),
                is_dir: true,
                parent: 0,
                depth: 0,
                children: Vec::new(),
            },
        );
        let ghost start = files@;
        let children = Self::flatten_entries(&mut files, file_tree, 0, 1);
        let ghost before = views(files@);
        let root = Node {
            name: no_bytes(),
            data: no_bytes(),
            is_dir: true,
            parent: 0,
            depth: 0,
            children,
        };
        let ghost head = root@;
        files[0] = root;
        proof {
            let tail = crate::tree::flat_list(file_tree@, file_tree@.len() as int, 0, 1, 1);
            assert(before == views(start) + tail);
            assert forall|i: int| 0 <= i < files@.len() implies views(files@)[i] == (seq![head]
                + tail)[i] by {
                if i > 0 {
                    assert(views(files@)[i] == before[i]);
                    assert(before[i] == tail[i - 1]);
                }
            }
            assert(views(files@) =~= seq![head] + tail);
            assert forall|i: int| 0 <= i < files@.len() implies crate::tree::entry_ok(
                views(files@),
                i,
            ) by {
                if i > 0 {
                    crate::tree::entry_ok_kept(before, views(files@), i);
                }
            }
        }
        FileWriter { files, written_files: Vec::new(), first: 0, patch: None }
    }

    /// The number of entries of the tree, the root included.
    pub fn len(&self) -> (n: usize)
        ensures
            n == self.nodes().len(),
    {
        self.files.len()
    }

    /// The entries of the tree in depth-first order.
    pub fn entries(&self) -> (files: &Vec<Node<'a>>)
        ensures
            views(files@) == self.nodes(),
    {
        &self.files
    }

    /// The place of the entry at `i`.
    pub fn place_of(&self, i: usize) -> (place: DirectoryRef)
        requires
            self.placed(),
            i < self.nodes().len(),
        ensures
            place.offset == extent_lba(self.nodes(), self.first(), i as int),
            place.size == extent_size(self.nodes(), i as int),
    {
        self.written_files[i]
    }

    /// The number of bytes of the records of the directory at `d`.
    fn directory_len(&self, d: usize) -> (len: CheckedU64)
        requires
            self.wf(),
            d < self.nodes().len(),
        ensures
            len@ == dir_len(self.nodes(), d as int),
    {
        let ghost nodes = self.nodes();
        let node = &self.files[d];
        assert(crate::tree::entry_ok(nodes, d as int));
        let mut len = CheckedU64::new(68);
        let mut k: usize = 0;
        while k < node.children.len()
            invariant
                k <= node.children@.len(),
                nodes == views(self.files@),
                d < self.files@.len(),
                *node == self.files@[d as int],
                crate::tree::entry_ok(nodes, d as int),
                len@ == 68 + children_span(nodes, node.children@, k as int),
            decreases node.children@.len() - k,
        {
            let c = node.children[k];
            assert(nodes[d as int].children[k as int] == c);
            let n = self.files[c].name.len();
            let pad = record_pad_of(n);
            len = len.add_value(n as u64).add_value(33 + pad as u64);
            k += 1;
        }
        len
    }

    /// Gives every entry its place, where the first extent begins at the block `first`
    /// and the file at `patch` gets a boot information table. Returns the block behind
    /// the last directory, or nothing where that block lies beyond what 64 bits can
    /// address in bytes.
    pub fn place(&mut self, first: u64, patch: Option<usize>) -> (end: Option<u64>)
        requires
            old(self).wf(),
            patch matches Some(i) ==> i < old(self).nodes().len() && !old(self).nodes()[i as int].is_dir,
        ensures
            final(self).nodes() == old(self).nodes(),
            final(self).wf(),
            final(self).first() == first,
            final(self).patch() == (match patch {
                Some(i) => Some(i as int),
                None => None,
            }),
            end is Some <==> 2048 * l_table_lba(old(self).nodes(), first as int) <= u64::MAX,
            end matches Some(lba) ==> final(self).placed() && lba == l_table_lba(
                old(self).nodes(),
                first as int,
            ),
    {
        let ghost nodes = self.nodes();
        let n = self.files.len();
        let mut places: Vec<DirectoryRef> = Vec::new();
        let mut j: usize = 0;
        while j < n
            invariant
                j <= n,
                places@.len() == j,
            decreases n - j,
        {
            places.push(DirectoryRef { offset: 0, size: 0 });
            j += 1;
        }
        let mut pos = CheckedU64::new(first).mul_value(2048);
        let mut i: usize = n;
        while i > 0
            invariant
                i <= n,
                n == self.files@.len(),
                nodes == views(self.files@),
                places@.len() == n,
                pos@ == 2048 * (first + file_blocks_from(nodes, i as int)),
                !pos.is_overflowed() ==> forall|j: int|
                    i <= j < n && !nodes[j].is_dir ==> (#[trigger] places@[j]).offset == file_lba(
                        nodes,
                        first as int,
                        j,
                    ) && places@[j].size == nodes[j].data.len(),
            decreases i,
        {
            i -= 1;
            let node = &self.files[i];
            assert(nodes[i as int] == node@);
            if !node.is_dir {
                let len = node.data.len();
                if !pos.is_overflowed() {
                    places[i] = DirectoryRef { offset: pos.unwrap() / 2048, size: len as u64 };
                }
                let blocks: u64 = (len / 2048) as u64 + if len % 2048 == 0 {
                    0u64
                } else {
                    1u64
                };
                assert(blocks == file_blocks(nodes, i as int));
                pos = pos.add_checked(&CheckedU64::new(blocks).mul_value(2048));
            }
        }
        let ghost files_end = pos@;
        let mut i: usize = n;
        while i > 0
            invariant
                i <= n,
                n == self.files@.len(),
                nodes == views(self.files@),
                self.wf(),
                places@.len() == n,
                pos@ == 2048 * (first + file_blocks_from(nodes, 0) + dir_blocks_from(
                    nodes,
                    i as int,
                )),
                !pos.is_overflowed() ==> forall|j: int|
                    0 <= j < n && !nodes[j].is_dir ==> (#[trigger] places@[j]).offset == file_lba(
                        nodes,
                        first as int,
                        j,
                    ) && places@[j].size == nodes[j].data.len(),
                !pos.is_overflowed() ==> forall|j: int|
                    i <= j < n && nodes[j].is_dir ==> (#[trigger] places@[j]).offset == dir_lba(
                        nodes,
                        first as int,
                        j,
                    ) && places@[j].size == 2048 * dir_blocks(nodes, j),
            decreases i,
        {
            i -= 1;
            let is_dir = self.files[i].is_dir;
            assert(nodes[i as int] == self.files@[i as int]@);
            if is_dir {
                let len = self.directory_len(i);
                let bytes = if len.is_overflowed() {
                    CheckedU64::new_overflowed(Ghost(2048 * sectors_for(len@ as int)))
                } else {
                    let l = len.unwrap();
                    let blocks: u64 = l / 2048 + if l % 2048 == 0 {
                        0u64
                    } else {
                        1u64
                    };
                    CheckedU64::new(blocks).mul_value(2048)
                };
                assert(bytes@ == 2048 * dir_blocks(nodes, i as int));
                let next = pos.add_checked(&bytes);
                if !next.is_overflowed() {
                    places[i] = DirectoryRef { offset: pos.unwrap() / 2048, size: bytes.unwrap() };
                }
                pos = next;
            }
        }
        self.first = first;
        self.patch = patch;
        if pos.is_overflowed() {
            return None;
        }
        self.written_files = places;
        Some(pos.unwrap() / 2048)
    }
}

impl<'a> FileWriter<'a> {
    /// Whether no name has more than 255 bytes.
    pub open spec fn names_fit(&self) -> bool {
        forall|i: int| 0 <= i < self.nodes().len() ==> (#[trigger] self.nodes()[i]).name.len() <= 255
    }

    /// Appends the content of the file at `i` to `out`: its data, with the boot
    /// information table in it where the file is the one to be patched.
    fn write_content(&self, out: &mut Vec<u8>, i: usize)
        requires
            self.placed(),
            i < self.nodes().len(),
            !self.nodes()[i as int].is_dir,
        ensures
            final(out)@ == old(out)@ + file_content(
                self.nodes(),
                self.first(),
                self.patch(),
                i as int,
            ),
            file_content(self.nodes(), self.first(), self.patch(), i as int).len()
                == self.nodes()[i as int].data.len(),
    {
        let ghost nodes = self.nodes();
        let node = &self.files[i];
        assert(nodes[i as int] == node@);
        let len = node.data.len();
        let patched = match self.patch {
            Some(p) => p == i && len >= 64,
            None => false,
        };
        if patched {
            let place = self.written_files[i];
            assert(place.offset == file_lba(nodes, self.first(), i as int));
            let table = BootInfoTable::new(
                low32_of(place.offset),
                low32_of(len as u64),
                checksum_of_boot_image(node.data),
            );
            proof {
                table.encoding_len();
            }
            out.extend_from_slice(vstd::slice::slice_subrange(node.data, 0, 8));
            table.store(out);
            out.extend_from_slice(vstd::slice::slice_subrange(node.data, 64, len));
            assert(out@ =~= old(out)@ + file_content(nodes, self.first(), self.patch(), i as int));
        } else {
            out.extend_from_slice(node.data);
        }
    }

    /// Appends the extents of the files to `out`, from the last entry to the first,
    /// each filled up with zero bytes to whole sectors.
    pub fn write_file_data(&self, out: &mut Vec<u8>)
        requires
            self.wf(),
            self.placed(),
        ensures
            final(out)@ == old(out)@ + files_bytes(self.nodes(), self.first(), self.patch(), 0),
    {
        let ghost nodes = self.nodes();
        let n = self.files.len();
        let mut i: usize = n;
        while i > 0
            invariant
                i <= n,
                n == self.files@.len(),
                nodes == self.nodes(),
                self.placed(),
                out@ == old(out)@ + files_bytes(nodes, self.first(), self.patch(), i as int),
            decreases i,
        {
            i -= 1;
            let is_dir = self.files[i].is_dir;
            assert(nodes[i as int] == self.files@[i as int]@);
            if !is_dir {
                let len = self.files[i].data.len();
                self.write_content(out, i);
                push_sector_gap(out, len);
                assert(out@ =~= old(out)@ + files_bytes(
                    nodes,
                    self.first(),
                    self.patch(),
                    i as int,
                ));
            }
        }
    }

    /// Appends the record of the entry at `i` under the name `name` to `out`.
    fn write_record(&self, out: &mut Vec<u8>, i: usize, name: &[u8])
        requires
            self.placed(),
            i < self.nodes().len(),
            name@.len() <= 255,
        ensures
            final(out)@ == old(out)@ + node_record(self.nodes(), self.first(), i as int, name@),
    {
        let ghost nodes = self.nodes();
        assert(nodes[i as int] == self.files@[i as int]@);
        let place = self.written_files[i];
        let record = if self.files[i].is_dir {
            DirectoryRecord::directory(name, place)
        } else {
            DirectoryRecord::file(name, place)
        };
        record.write(out);
    }

    /// The records of the directory at `d`: itself, its parent, and what it holds.
    fn directory_records(&self, d: usize) -> (records: Vec<u8>)
        requires
            self.wf(),
            self.placed(),
            self.names_fit(),
            d < self.nodes().len(),
        ensures
            records@ == dir_records(self.nodes(), self.first(), d as int),
    {
        let ghost nodes = self.nodes();
        let node = &self.files[d];
        assert(nodes[d as int] == node@);
        assert(crate::tree::entry_ok(nodes, d as int));
        let mut records: Vec<u8> = Vec::new();
        let dot: [u8; 1] = [0];
        let dotdot: [u8; 1] = [1];
        assert(dot@ =~= seq![0u8]);
        assert(dotdot@ =~= seq![1u8]);
        self.write_record(&mut records, d, dot.as_slice());
        self.write_record(&mut records, node.parent, dotdot.as_slice());
        let ghost head = records@;
        let mut k: usize = 0;
        while k < node.children.len()
            invariant
                k <= node.children@.len(),
                nodes == self.nodes(),
                self.placed(),
                self.names_fit(),
                d < self.files@.len(),
                *node == self.files@[d as int],
                crate::tree::entry_ok(nodes, d as int),
                records@ == head + child_records(nodes, self.first(), node.children@, k as int),
            decreases node.children@.len() - k,
        {
            let c = node.children[k];
            assert(nodes[d as int].children[k as int] == c);
            assert(nodes[c as int] == self.files@[c as int]@);
            self.write_record(&mut records, c, self.files[c].name);
            k += 1;
            assert(records@ =~= head + child_records(
                nodes,
                self.first(),
                node.children@,
                k as int,
            ));
        }
        assert(records@ =~= dir_records(nodes, self.first(), d as int));
        records
    }

    /// Appends the extents of the directories to `out`, from the last entry to the
    /// first, each filled up with zero bytes to whole sectors. Returns the place of the
    /// root directory.
    pub fn write_directory_data(&self, out: &mut Vec<u8>) -> (root: DirectoryRef)
        requires
            self.wf(),
            self.placed(),
            self.names_fit(),
        ensures
            final(out)@ == old(out)@ + dirs_bytes(self.nodes(), self.first(), 0),
            root.offset == dir_lba(self.nodes(), self.first(), 0),
            root.size == 2048 * dir_blocks(self.nodes(), 0),
    {
        let ghost nodes = self.nodes();
        let n = self.files.len();
        let mut i: usize = n;
        while i > 0
            invariant
                i <= n,
                n == self.files@.len(),
                nodes == self.nodes(),
                self.wf(),
                self.placed(),
                self.names_fit(),
                out@ == old(out)@ + dirs_bytes(nodes, self.first(), i as int),
            decreases i,
        {
            i -= 1;
            let is_dir = self.files[i].is_dir;
            assert(nodes[i as int] == self.files@[i as int]@);
            if is_dir {
                let records = self.directory_records(i);
                out.extend_from_slice(records.as_slice());
                push_sector_gap(out, records.len());
                assert(out@ =~= old(out)@ + dirs_bytes(nodes, self.first(), i as int));
            }
        }
        assert(nodes[0] == self.files@[0]@);
        self.written_files[0]
    }

    /// Appends to `table` the path table entry of the directory at `j`, whose parent
    /// has the number `parent`.
    fn table_entry_into(&self, table: &mut Vec<u8>, j: usize, parent: u16, endian: EndianType)
        requires
            self.placed(),
            j < self.nodes().len(),
            self.nodes()[j as int].is_dir,
            parent == low16(dir_number(self.nodes(), self.nodes()[j as int].parent as int)),
        ensures
            final(table)@ == old(table)@ + table_entry(
                self.nodes(),
                self.first(),
                j as int,
                endian,
            ),
    {
        let ghost nodes = self.nodes();
        assert(nodes[j as int] == self.files@[j as int]@);
        let place = self.written_files[j];
        assert(place.offset == dir_lba(nodes, self.first(), j as int));
        if j == 0 {
            let root: [u8; 1] = [0];
            assert(root@ =~= seq![0u8]);
            crate::path::store_path_entry(
                table,
                root.as_slice(),
                low32_of(place.offset),
                parent,
                endian,
            );
        } else {
            crate::path::store_path_entry(
                table,
                self.files[j].name,
                low32_of(place.offset),
                parent,
                endian,
            );
        }
    }

    /// The bytes of a path table with its numbers in the byte order `endian`.
    #[verifier::rlimit(60)]
    pub fn path_table(&self, endian: EndianType) -> (table: Vec<u8>)
        requires
            self.wf(),
            self.placed(),
        ensures
            table@ == table_bytes(self.nodes(), self.first(), endian),
    {
        let ghost nodes = self.nodes();
        let ghost first = self.first();
        let n = self.files.len();
        let mut numbers: Vec<u16> = Vec::new();
        let mut j: usize = 0;
        while j < n
            invariant
                j <= n,
                numbers@.len() == j,
            decreases n - j,
        {
            numbers.push(0);
            j += 1;
        }
        let mut table: Vec<u8> = Vec::new();
        let mut next: u16 = 1;
        let mut d: usize = 0;
        let mut done = false;
        while d < n && !done
            invariant
                d <= n,
                n == self.files@.len(),
                nodes == self.nodes(),
                first == self.first(),
                self.wf(),
                self.placed(),
                numbers@.len() == n,
                next == low16(1 + dirs_above(nodes, d as int)),
                forall|k: int|
                    0 <= k < n && nodes[k].is_dir && nodes[k].depth < d ==> #[trigger] numbers@[k]
                        == low16(dir_number(nodes, k)),
                !done ==> table_bytes(nodes, first, endian) == table@ + levels_bytes(
                    nodes,
                    first,
                    d as int,
                    endian,
                ),
                done ==> table_bytes(nodes, first, endian) == table@,
            decreases n - d, (if done { 0int } else { 1int }),
        {
            let ghost before = table@;
            let mut count: usize = 0;
            let mut j: usize = 0;
            while j < n
                invariant
                    j <= n,
                    d < n,
                    n == self.files@.len(),
                    nodes == self.nodes(),
                    first == self.first(),
                    self.wf(),
                    self.placed(),
                    numbers@.len() == n,
                    count == level_count(nodes, d as int, j as int),
                    count <= j,
                    next == low16(1 + dirs_above(nodes, d as int) + count),
                    table@ == before + level_bytes(nodes, first, d as int, j as int, endian),
                    count == 0 ==> table@ == before,
                    forall|k: int|
                        0 <= k < n && nodes[k].is_dir && nodes[k].depth < d
                            ==> #[trigger] numbers@[k] == low16(dir_number(nodes, k)),
                    forall|k: int|
                        0 <= k < j && nodes[k].is_dir && nodes[k].depth == d
                            ==> #[trigger] numbers@[k] == low16(dir_number(nodes, k)),
                decreases n - j,
            {
                let is_dir = self.files[j].is_dir;
                let depth = self.files[j].depth;
                assert(nodes[j as int] == self.files@[j as int]@);
                if is_dir && depth == d {
                    let ghost old_numbers = numbers@;
                    numbers[j] = next;
                    assert(numbers@[j as int] == low16(dir_number(nodes, j as int)));
                    let parent_at = self.files[j].parent;
                    proof {
                        assert(crate::tree::entry_ok(nodes, j as int));
                        if parent_at < j {
                            assert(numbers@[parent_at as int] == old_numbers[parent_at as int]);
                            assert(nodes[parent_at as int].is_dir);
                            assert(nodes[parent_at as int].depth < d);
                        }
                    }
                    let parent = numbers[parent_at];
                    self.table_entry_into(&mut table, j, parent, endian);
                    proof {
                        crate::raw::low16_next(1 + dirs_above(nodes, d as int) + count);
                    }
                    next = if next == 0xFFFF {
                        0
                    } else {
                        next + 1
                    };
                    count += 1;
                }
                j += 1;
            }
            if count == 0 {
                done = true;
            } else {
                d += 1;
                assert(table@ =~= before + level_bytes(nodes, first, d - 1, n as int, endian));
            }
        }
        table
    }

    /// Appends the two path tables to `out`, the little-endian one first, each filled
    /// up with zero bytes to whole sectors. Returns the block at which the first one
    /// begins, and the number of bytes of one table before it is filled up.
    pub fn write_path_table(&self, out: &mut Vec<u8>, root_dir: &DirectoryRef) -> (tables:
        DirectoryRef)
        requires
            self.wf(),
            self.placed(),
        ensures
            final(out)@ == old(out)@ + sector_padded(
                table_bytes(self.nodes(), self.first(), EndianType::LittleEndian),
            ) + sector_padded(table_bytes(self.nodes(), self.first(), EndianType::BigEndian)),
            tables.offset == l_table_lba(self.nodes(), self.first()),
            tables.size == table_bytes(self.nodes(), self.first(), EndianType::LittleEndian).len(),
    {
        let l_table = self.path_table(EndianType::LittleEndian);
        let m_table = self.path_table(EndianType::BigEndian);
        out.extend_from_slice(l_table.as_slice());
        push_sector_gap(out, l_table.len());
        out.extend_from_slice(m_table.as_slice());
        push_sector_gap(out, m_table.len());
        let lba = self.tables_lba();
        DirectoryRef { offset: lba, size: l_table.len() as u64 }
    }

    /// The block at which the little-endian path table begins.
    pub fn tables_lba(&self) -> (lba: u64)
        requires
            self.wf(),
            self.placed(),
        ensures
            lba == l_table_lba(self.nodes(), self.first()),
    {
        let ghost nodes = self.nodes();
        assert(nodes[0] == self.files@[0]@);
        let root = self.written_files[0];
        assert(dir_blocks_from(nodes, 0) == dir_blocks_from(nodes, 1) + dir_blocks(nodes, 0));
        root.offset + root.size / 2048
    }

    /// Appends the extents of the files and of the directories and the two path
    /// tables to `out`. Returns the place of the root directory, and the place of the
    /// little-endian path table with the number of bytes of one table.
    pub fn write(&self, out: &mut Vec<u8>) -> (placed: (DirectoryRef, DirectoryRef))
        requires
            self.wf(),
            self.placed(),
            self.names_fit(),
        ensures
            final(out)@ == old(out)@ + crate::layout::extents_bytes(
                self.nodes(),
                self.first(),
                self.patch(),
            ),
            placed.0.offset == dir_lba(self.nodes(), self.first(), 0),
            placed.0.size == 2048 * dir_blocks(self.nodes(), 0),
            placed.1.offset == l_table_lba(self.nodes(), self.first()),
            placed.1.size == table_bytes(
                self.nodes(),
                self.first(),
                EndianType::LittleEndian,
            ).len(),
    {
        self.write_file_data(out);
        let root_dir = self.write_directory_data(out);
        let path_table = self.write_path_table(out, &root_dir);
        reveal(crate::layout::extents_bytes);
        assert(out@ =~= old(out)@ + crate::layout::extents_bytes(
            self.nodes(),
            self.first(),
            self.patch(),
        ));
        (root_dir, path_table)
    }
}

impl<'a> FileWriter<'a> {
    /// Lays the tree under `file` out flat behind `nodes`.
    pub fn flatmap_recursive(
        nodes: &mut Vec<Node<'a>>,
        file: &'a IsoFile,
        parent: usize,
        depth: usize,
    )
        requires
            depth <= old(nodes)@.len(),
            parent < old(nodes)@.len(),
            old(nodes)@[parent as int].is_dir,
            old(nodes)@[parent as int].depth + 1 == depth,
        ensures
            views(final(nodes)@) == views(old(nodes)@) + file.flat(
                parent,
                depth,
                old(nodes)@.len() as usize,
            ),
            forall|i: int|
                old(nodes)@.len() <= i < final(nodes)@.len() ==> crate::tree::entry_ok(views(final(nodes)@), i),
            final(nodes)@.len() == old(nodes)@.len() + file.flat(
                parent,
                depth,
                old(nodes)@.len() as usize,
            ).len(),
            final(nodes)@.len() > old(nodes)@.len(),
            forall|i: int| 0 <= i < old(nodes)@.len() ==> final(nodes)@[i] == old(nodes)@[i],
        decreases file,
    {
        let base = nodes.len();
        match file {
            IsoFile::File { name, data } => {
                nodes.push(
                    Node {
                        name: name.as_str().as_bytes(),
                        data: data.as_slice(),
                        is_dir: false,
                        parent,
                        depth,
                        children: Vec::new(),
                    },
                );
                assert(views(nodes@) =~= views(old(nodes)@) + file.flat(parent, depth, base));
                assert(nodes@[parent as int] == old(nodes)@[parent as int]);
                assert(crate::tree::entry_ok(views(nodes@), base as int));
            },
            IsoFile::Directory { name, entries } => {
                let empty = no_bytes();
                nodes.push(
                    Node {
                        name: name.as_str().as_bytes(),
                        data: empty,
                        is_dir: true,
                        parent,
                        depth,
                        children: Vec::new(),
                    },
                );
                let pushed = nodes.len();
                let ghost first = nodes@;
                let children = Self::flatten_entries(nodes, entries, base, depth + 1);
                let ghost before = views(nodes@);
                assert(nodes@.len() >= first.len());
                let node = Node {
                    name: name.as_str().as_bytes(),
                    data: empty,
                    is_dir: true,
                    parent,
                    depth,
                    children,
                };
                let ghost head = node@;
                nodes[base] = node;
                proof {
                    let tail = flat_list(
                        entries@,
                        entries@.len() as int,
                        base,
                        (depth + 1) as usize,
                        (base + 1) as usize,
                    );
                    let whole = views(old(nodes)@) + (seq![head] + tail);
                    assert(before == views(first) + tail);
                    assert(file.flat(parent, depth, base) == seq![head] + tail);
                    assert forall|i: int| 0 <= i < nodes@.len() implies views(nodes@)[i]
                        == whole[i] by {
                        if i < base {
                            assert(nodes@[i] == old(nodes)@[i]);
                        } else if i == base {
                        } else {
                            assert(views(nodes@)[i] == before[i]);
                            assert(before[i] == tail[i - base - 1]);
                        }
                    }
                    assert(views(nodes@) =~= whole);
                    assert forall|i: int| base <= i < nodes@.len() implies crate::tree::entry_ok(
                        views(nodes@),
                        i,
                    ) by {
                        if i > base {
                            crate::tree::entry_ok_kept(before, views(nodes@), i);
                        } else {
                            assert(nodes@[parent as int] == old(nodes)@[parent as int]);
                        }
                    }
                }
            },
        }
    }

    /// Lays the trees under `entries` out flat behind `nodes`, one after the other, and
    /// returns the places of their roots.
    pub fn flatten_entries(
        nodes: &mut Vec<Node<'a>>,
        entries: &'a Vec<IsoFile>,
        parent: usize,
        depth: usize,
    ) -> (children: Vec<usize>)
        requires
            depth <= old(nodes)@.len(),
            parent < old(nodes)@.len(),
            old(nodes)@[parent as int].is_dir,
            old(nodes)@[parent as int].depth + 1 == depth,
        ensures
            forall|i: int|
                old(nodes)@.len() <= i < final(nodes)@.len() ==> crate::tree::entry_ok(views(final(nodes)@), i),
            forall|k: int|
                0 <= k < children@.len() ==> old(nodes)@.len() <= #[trigger] children@[k]
                    < final(nodes)@.len(),
            views(final(nodes)@) == views(old(nodes)@) + flat_list(
                entries@,
                entries@.len() as int,
                parent,
                depth,
                old(nodes)@.len() as usize,
            ),
            forall|i: int| 0 <= i < old(nodes)@.len() ==> final(nodes)@[i] == old(nodes)@[i],
            final(nodes)@.len() == old(nodes)@.len() + flat_list(
                entries@,
                entries@.len() as int,
                parent,
                depth,
                old(nodes)@.len() as usize,
            ).len(),
            children@ == child_places(
                entries@,
                entries@.len() as int,
                parent,
                depth,
                old(nodes)@.len() as usize,
            ),
        decreases entries, 0nat,
    {
        let base = nodes.len();
        let mut children: Vec<usize> = Vec::new();
        let mut k: usize = 0;
        while k < entries.len()
            invariant
                k <= entries@.len(),
                base == old(nodes)@.len(),
                depth <= nodes@.len(),
                nodes@.len() == base + flat_list(entries@, k as int, parent, depth, base).len(),
                views(nodes@) == views(old(nodes)@) + flat_list(entries@, k as int, parent, depth, base),
                forall|i: int| 0 <= i < old(nodes)@.len() ==> nodes@[i] == old(nodes)@[i],
                children@ == child_places(entries@, k as int, parent, depth, base),
                parent < base,
                old(nodes)@[parent as int].is_dir,
                old(nodes)@[parent as int].depth + 1 == depth,
                forall|i: int| base <= i < nodes@.len() ==> crate::tree::entry_ok(views(nodes@), i),
                forall|j: int| 0 <= j < children@.len() ==> base <= #[trigger] children@[j] < nodes@.len(),
            decreases entries@.len() - k,
        {
            children.push(nodes.len());
            let ghost before = nodes@;
            Self::flatmap_recursive(nodes, &entries[k], parent, depth);
            k += 1;
            proof {
                assert forall|i: int| base <= i < nodes@.len() implies crate::tree::entry_ok(views(nodes@), i) by {
                    if i < before.len() {
                        crate::tree::entry_ok_kept(views(before), views(nodes@), i);
                    }
                }
                assert(views(nodes@) =~= views(old(nodes)@) + flat_list(
                    entries@,
                    k as int,
                    parent,
                    depth,
                    base,
                ));
            }
        }
        children
    }
}

} // verus!
