use vstd::prelude::*;
use crate::image::{FormatOptions, VolumeDates};
use crate::laws::{
    can_be_looked_up, directory_is_found, entries_fit_together, file_reads_back, finds_directory,
    reads_file,
};
use crate::layout::{catalogue_lba, dir_blocks, dir_lba};
use crate::reader::{extent_of, first_match, record_lba, record_size, records_scan};
use crate::tree::{children_ok, children_ordered, held_within, parents_ok, NodeView};

verus! {

/// Where the directory named `name` lies that is looked up in the directory of
/// `at.1` bytes at the block `at.0` of `image`, if the lookup finds one: what
/// `IsoDirectory::find_directory` gives.
pub open spec fn step(image: Seq<u8>, at: (int, int), name: Seq<u8>) -> Option<(int, int)> {
    match extent_of(image, at.0, at.1) {
        Some(extent) => match records_scan(extent, 0) {
            Ok(places) => match first_match(extent, places, name, true, places.len() as int) {
                Some(record) => Some(
                    (record_lba(extent, record) as int, record_size(extent, record) as int),
                ),
                None => None,
            },
            Err(_) => None,
        },
        None => None,
    }
}

/// Where the directory lies that is reached from the directory at `from` by looking
/// up `names` one after the other, if every lookup finds a directory.
pub open spec fn walk(image: Seq<u8>, from: (int, int), names: Seq<Seq<u8>>) -> Option<(int, int)>
    decreases names.len(),
{
    if names.len() == 0 {
        Some(from)
    } else {
        match walk(image, from, names.drop_last()) {
            Some(at) => step(image, at, names.last()),
            None => None,
        }
    }
}

/// The names on the way from the root to the entry at `i`: those of the directories
/// above it, from the root down, and its own.
pub open spec fn path(nodes: Seq<NodeView>, i: int) -> Seq<Seq<u8>>
    decreases i,
{
    if i <= 0 || nodes[i].parent >= i {
        Seq::empty()
    } else {
        path(nodes, nodes[i].parent as int).push(nodes[i].name)
    }
}

/// Whether the entry at `i` can be told from what stands beside it in its directory:
/// its name is neither the byte zero nor the byte one, no entry before it in the
/// directory bears its name, no name in the directory has more than 221 bytes, and
/// where the entry is a directory, it has less than 2^32 bytes.
pub open spec fn told_apart(nodes: Seq<NodeView>, i: int) -> bool {
    &&& nodes[i].name != seq![0u8]
    &&& nodes[i].name != seq![1u8]
    &&& forall|j: int|
        1 <= j < i && (#[trigger] nodes[j]).parent == nodes[i].parent ==> nodes[j].name
            != nodes[i].name
    &&& forall|j: int|
        1 <= j < nodes.len() && (#[trigger] nodes[j]).parent == nodes[i].parent
            ==> nodes[j].name.len() <= 221
    &&& nodes[i].is_dir ==> 2048 * dir_blocks(nodes, i) < 0x1_0000_0000
}

/// Whether the entry at `i` and every directory above it, but the root, can be told
/// from what stands beside it.
pub open spec fn way_is_clear(nodes: Seq<NodeView>, i: int) -> bool
    decreases i,
{
    i <= 0 || (nodes[i].parent < i && told_apart(nodes, i) && way_is_clear(
        nodes,
        nodes[i].parent as int,
    ))
}

/// How many bytes the name of the entry at `i` has.
pub open spec fn name_len(nodes: Seq<NodeView>, i: int) -> nat {
    nodes[i].name.len()
}

/// A walk that goes on by one name goes on from where it was by one lookup.
pub proof fn walk_goes_on(image: Seq<u8>, from: (int, int), names: Seq<Seq<u8>>, name: Seq<u8>)
    ensures
        walk(image, from, names.push(name)) == (match walk(image, from, names) {
            Some(at) => step(image, at, name),
            None => None,
        }),
{
    let longer = names.push(name);
    assert(longer.drop_last() =~= names);
    assert(longer.last() == name);
}

/// What makes a lookup find a directory makes a step of a walk.
pub proof fn found_is_a_step(
    image: Seq<u8>,
    at: (int, int),
    name: Seq<u8>,
    found: (int, int),
)
    requires
        finds_directory(image, at.0, at.1, name, found.0, found.1),
    ensures
        step(image, at, name) == Some(found),
{
}

/// The place of the entry at `i` among what its parent holds, and what follows for
/// the lookup of the entry in its parent.
pub proof fn held_entry(ops: FormatOptions, i: int) -> (k: int)
    requires
        ops.nodes().len() < usize::MAX,
        1 <= i < ops.nodes().len(),
        ops.nodes()[i].parent < i,
        told_apart(ops.nodes(), i),
    ensures
        ({
            let nodes = ops.nodes();
            let p = nodes[i].parent as int;
            &&& 0 <= p < i
            &&& nodes[p].is_dir
            &&& 0 <= k < nodes[p].children.len()
            &&& nodes[p].children[k] == i
            &&& can_be_looked_up(nodes, p, k)
            &&& forall|j: int|
                0 <= j < nodes[p].children.len() ==> name_len(
                    nodes,
                    #[trigger] nodes[p].children[j] as int,
                ) <= 221
        }),
{
    let nodes = ops.nodes();
    let p = nodes[i].parent as int;
    entries_fit_together(ops);
    structure_of(ops);
    assert(held_within(nodes, 0, i));
    let k = choose|k: int| 0 <= k < nodes[p].children.len() && #[trigger] nodes[p].children[k] == i;
    assert forall|j: int| 0 <= j < nodes[p].children.len() implies name_len(
        nodes,
        #[trigger] nodes[p].children[j] as int,
    ) <= 221 by {
        let c = nodes[p].children[j] as int;
        assert(p < c < nodes.len() && nodes[c].parent == p);
        assert(nodes[c].parent == nodes[i].parent);
    }
    assert forall|j: int| 0 <= j < k implies nodes[(#[trigger] nodes[p].children[j]) as int].name
        != nodes[i].name by {
        let c = nodes[p].children[j] as int;
        assert(p < c < nodes.len() && nodes[c].parent == p);
        assert(nodes[p].children[j] < nodes[p].children[k]);
        assert(nodes[c].parent == nodes[i].parent);
    }
    k
}

/// The entries of the tree of an image fit together in both directions: what a
/// directory holds names it as its parent, in rising order, and every entry but the
/// root is held by its parent, which stands before it.
pub proof fn structure_of(ops: FormatOptions)
    requires
        ops.nodes().len() < usize::MAX,
    ensures
        children_ok(ops.nodes(), 0),
        children_ordered(ops.nodes()),
        parents_ok(ops.nodes(), 0),
{
    reveal(FormatOptions::nodes);
    crate::tree::tree_children_ok(ops.files@);
    crate::tree::tree_parents_ok(ops.files@);
}

/// Every directory of an image is reached from its root directory: the walk along
/// the names on the way to it, one lookup for each name, ends at its extent. This
/// holds where the directory and every directory above it can be told from what
/// stands beside it, and the image has less than 2^32 blocks.
pub proof fn directory_is_reached(ops: FormatOptions, old: Seq<u8>, dates: VolumeDates, i: int)
    requires
        ops.format_error(old.len() as int) is None,
        ops.nodes().len() < usize::MAX,
        catalogue_lba(ops.nodes(), ops.first_lba()) < 0x1_0000_0000,
        0 <= i < ops.nodes().len(),
        ops.nodes()[i].is_dir,
        way_is_clear(ops.nodes(), i),
    ensures
        walk(
            ops.formatted(old, dates),
            (dir_lba(ops.nodes(), ops.first_lba(), 0), 2048 * dir_blocks(ops.nodes(), 0)),
            path(ops.nodes(), i),
        ) == Some(
            (dir_lba(ops.nodes(), ops.first_lba(), i), 2048 * dir_blocks(ops.nodes(), i)),
        ),
    decreases i,
{
    let nodes = ops.nodes();
    let first = ops.first_lba();
    let image = ops.formatted(old, dates);
    let root = (dir_lba(nodes, first, 0), 2048 * dir_blocks(nodes, 0));
    if i > 0 {
        let p = nodes[i].parent as int;
        let k = held_entry(ops, i);
        directory_is_reached(ops, old, dates, p);
        directory_is_found(ops, old, dates, p, k);
        found_is_a_step(
            image,
            (dir_lba(nodes, first, p), 2048 * dir_blocks(nodes, p)),
            nodes[i].name,
            (dir_lba(nodes, first, i), 2048 * dir_blocks(nodes, i)),
        );
        walk_goes_on(image, root, path(nodes, p), nodes[i].name);
    }
}

/// Every file of an image is read back: the walk along the names on the way to the
/// directory that holds it ends at that directory, and reading the file there by its
/// name gives its content. This holds where the file and every directory above it
/// can be told from what stands beside it, the image has less than 2^32 blocks and
/// the file less than 2^32 bytes, and the file does not get a boot information
/// table.
pub proof fn file_is_reached(ops: FormatOptions, old: Seq<u8>, dates: VolumeDates, i: int)
    requires
        ops.format_error(old.len() as int) is None,
        ops.nodes().len() < usize::MAX,
        catalogue_lba(ops.nodes(), ops.first_lba()) < 0x1_0000_0000,
        1 <= i < ops.nodes().len(),
        !ops.nodes()[i].is_dir,
        way_is_clear(ops.nodes(), i),
        ops.patch() != Some(i),
        ops.nodes()[i].data.len() < 0x1_0000_0000,
    ensures
        ({
            let nodes = ops.nodes();
            let first = ops.first_lba();
            let image = ops.formatted(old, dates);
            let p = nodes[i].parent as int;
            &&& walk(
                image,
                (dir_lba(nodes, first, 0), 2048 * dir_blocks(nodes, 0)),
                path(nodes, p),
            ) == Some((dir_lba(nodes, first, p), 2048 * dir_blocks(nodes, p)))
            &&& reads_file(
                image,
                dir_lba(nodes, first, p),
                2048 * dir_blocks(nodes, p),
                nodes[i].name,
                nodes[i].data,
            )
        }),
{
    let nodes = ops.nodes();
    let p = nodes[i].parent as int;
    let k = held_entry(ops, i);
    directory_is_reached(ops, old, dates, p);
    file_reads_back(ops, old, dates, p, k);
}

} // verus!
