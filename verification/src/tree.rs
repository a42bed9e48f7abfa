use vstd::prelude::*;
use vstd::string::StringSliceAdditionalSpecFns;

verus! {

/// A file or a directory of the tree that an image is made from.
#[derive(Debug)]
pub enum IsoFile {
    Directory { name: String, entries: Vec<IsoFile> },
    File { name: String, data: Vec<u8> },
}

/// One entry of a tree laid out flat. The entries of a tree stand in depth-first
/// order, each directory before what it holds, and name their parent and children
/// by their place in that order.
pub struct NodeView {
    /// The bytes of the name.
    pub name: Seq<u8>,
    /// The content of a file; empty for a directory.
    pub data: Seq<u8>,
    pub is_dir: bool,
    /// The place of the directory that holds the entry; that of the root is its own.
    pub parent: usize,
    /// The number of directories above the entry.
    pub depth: usize,
    /// The places of the entries that a directory holds, in their order.
    pub children: Seq<usize>,
}

impl IsoFile {
    /// The bytes of the name.
    pub open spec fn spec_name(&self) -> Seq<u8> {
        match self {
            IsoFile::Directory { name, .. } => vstd::utf8::encode_utf8(name@),
            IsoFile::File { name, .. } => vstd::utf8::encode_utf8(name@),
        }
    }

    /// The entries of the tree under `self` in depth-first order, where `self` stands
    /// at the place `base`, `depth` directories deep, in the directory at `parent`.
    pub open spec fn flat(&self, parent: usize, depth: usize, base: usize) -> Seq<NodeView>
        decreases self,
    {
        match self {
            IsoFile::File { name, data } => seq![
                NodeView {
                    name: self.spec_name(),
                    data: data@,
                    is_dir: false,
                    parent,
                    depth,
                    children: Seq::empty(),
                },
            ],
            IsoFile::Directory { name, entries } => seq![
                NodeView {
                    name: self.spec_name(),
                    data: Seq::empty(),
                    is_dir: true,
                    parent,
                    depth,
                    children: child_places(
                        entries@,
                        entries@.len() as int,
                        base,
                        (depth + 1) as usize,
                        (base + 1) as usize,
                    ),
                },
            ] + flat_list(
                entries@,
                entries@.len() as int,
                base,
                (depth + 1) as usize,
                (base + 1) as usize,
            ),
        }
    }

    /// The name as text.
    pub open spec fn spec_text(&self) -> Seq<char> {
        match self {
            IsoFile::Directory { name, .. } => name@,
            IsoFile::File { name, .. } => name@,
        }
    }

    /// The name.
    pub fn name(&self) -> (name: &str)
        ensures
            name@ == self.spec_text(),
            name.spec_bytes() == self.spec_name(),
    {
        match self {
            Self::Directory { name, .. } => name.as_str(),
            Self::File { name, .. } => name.as_str(),
        }
    }

    /// Gives the entry the name `new_name`, and leaves the rest as it is.
    pub fn set_name(&mut self, new_name: String)
        ensures
            final(self).spec_text() == new_name@,
            final(self).spec_name() == vstd::utf8::encode_utf8(new_name@),
            (*old(self) is Directory) == (*final(self) is Directory),
            *old(self) matches IsoFile::Directory { entries, .. } ==> *final(self)
                matches IsoFile::Directory { entries: kept, .. } && kept == entries,
            *old(self) matches IsoFile::File { data, .. } ==> *final(self) matches IsoFile::File {
                data: kept,
                ..
            } && kept == data,
    {
        match self {
            Self::Directory { name, .. } => *name = new_name,
            Self::File { name, .. } => *name = new_name,
        }
    }

    /// Whether this is a directory.
    pub fn is_directory(&self) -> (dir: bool)
        ensures
            dir == (self is Directory),
    {
        match self {
            Self::Directory { .. } => true,
            Self::File { .. } => false,
        }
    }
}

/// The entries of the trees under the first `upto` of `entries` in depth-first order,
/// one tree after the other, where the first of them stands at the place `base`.
pub open spec fn flat_list(
    entries: Seq<IsoFile>,
    upto: int,
    parent: usize,
    depth: usize,
    base: usize,
) -> Seq<NodeView>
    decreases entries, upto,
{
    if upto <= 0 || upto > entries.len() {
        Seq::empty()
    } else {
        let before = flat_list(entries, upto - 1, parent, depth, base);
        before + entries[upto - 1].flat(parent, depth, (base + before.len()) as usize)
    }
}

/// The places at which the first `upto` of `entries` stand, where the first of them
/// stands at the place `base`.
pub open spec fn child_places(
    entries: Seq<IsoFile>,
    upto: int,
    parent: usize,
    depth: usize,
    base: usize,
) -> Seq<usize>
    decreases entries, upto,
{
    if upto <= 0 || upto > entries.len() {
        Seq::empty()
    } else {
        child_places(entries, upto - 1, parent, depth, base).push(
            (base + flat_list(entries, upto - 1, parent, depth, base).len()) as usize,
        )
    }
}

/// The entries of the tree whose root directory holds `files`: the root, without a
/// name, at the place zero, and after it all that it holds.
pub open spec fn tree_nodes(files: Seq<IsoFile>) -> Seq<NodeView> {
    seq![
        NodeView {
            name: Seq::empty(),
            data: Seq::empty(),
            is_dir: true,
            parent: 0,
            depth: 0,
            children: child_places(files, files.len() as int, 0, 1, 1),
        },
    ] + flat_list(files, files.len() as int, 0, 1, 1)
}

/// Whether the entry at `i` fits into the flat tree `nodes`: it stands behind its
/// parent, which is a directory one level above it, unless it is the root; and what
/// it holds stands behind it.
pub open spec fn entry_ok(nodes: Seq<NodeView>, i: int) -> bool {
    &&& nodes[i].parent <= i
    &&& nodes[i].depth <= i
    &&& (i > 0 ==> nodes[i].parent < i)
    &&& (nodes[i].parent < i ==> nodes[nodes[i].parent as int].is_dir && nodes[i].depth
        == nodes[nodes[i].parent as int].depth + 1)
    &&& forall|k: int|
        0 <= k < nodes[i].children.len() ==> i < #[trigger] nodes[i].children[k] < nodes.len()
}

/// An entry that fits into a flat tree fits into every longer one that has the same
/// entry at its place and the same kinds and depths before it.
pub proof fn entry_ok_kept(a: Seq<NodeView>, b: Seq<NodeView>, i: int)
    requires
        0 <= i < a.len() <= b.len(),
        entry_ok(a, i),
        b[i] == a[i],
        forall|j: int| 0 <= j <= i ==> b[j].is_dir == a[j].is_dir && b[j].depth == a[j].depth,
    ensures
        entry_ok(b, i),
{
    assert forall|k: int| 0 <= k < b[i].children.len() implies i < #[trigger] b[i].children[k]
        < b.len() by {
        assert(i < a[i].children[k] < a.len());
    }
}

/// Whether every entry of the flat tree `nodes` fits into it.
pub open spec fn tree_ok(nodes: Seq<NodeView>) -> bool {
    forall|i: int| 0 <= i < nodes.len() ==> entry_ok(nodes, i)
}

/// One entry of a tree laid out flat, with its name and content borrowed from the
/// tree.
pub struct Node<'a> {
    pub name: &'a [u8],
    pub data: &'a [u8],
    pub is_dir: bool,
    pub parent: usize,
    pub depth: usize,
    pub children: Vec<usize>,
}

impl<'a> View for Node<'a> {
    type V = NodeView;

    open spec fn view(&self) -> NodeView {
        NodeView {
            name: self.name@,
            data: self.data@,
            is_dir: self.is_dir,
            parent: self.parent,
            depth: self.depth,
            children: self.children@,
        }
    }
}

/// What each of `nodes` stands for.
pub open spec fn views(nodes: Seq<Node>) -> Seq<NodeView> {
    Seq::new(nodes.len(), |i: int| nodes[i]@)
}

/// The empty byte string.
pub fn no_bytes() -> (empty: &'static [u8])
    ensures
        empty@ == Seq::<u8>::empty(),
{
    let text = "";
    proof {
        reveal_strlit("");
        assert(text@ =~= Seq::<char>::empty());
        assert(vstd::utf8::encode_utf8(text@) =~= Seq::<u8>::empty());
    }
    text.as_bytes()
}

/// Whether the entries `s`, which stand at the places from `base` on, name what they
/// hold rightly: what an entry holds stands behind it among `s`, and names the entry
/// as its parent.
pub open spec fn children_ok(s: Seq<NodeView>, base: int) -> bool {
    forall|i: int, k: int|
        0 <= i < s.len() && 0 <= k < s[i].children.len() ==> {
            let c = (#[trigger] s[i].children[k]) as int;
            &&& base + i < c < base + s.len()
            &&& s[c - base].parent == base + i
        }
}

/// The entries of a tree begin with its root.
pub proof fn flat_head(file: IsoFile, parent: usize, depth: usize, base: usize)
    ensures
        file.flat(parent, depth, base).len() >= 1,
        file.flat(parent, depth, base)[0].parent == parent,
        file.flat(parent, depth, base)[0].depth == depth,
        file.flat(parent, depth, base)[0].name == file.spec_name(),
        file.flat(parent, depth, base)[0].is_dir == (file is Directory),
        file matches IsoFile::File { data, .. } ==> file.flat(parent, depth, base)[0].data == data@,
{
}

/// The entries of the first trees of a list stand at the head of the entries of more
/// of them.
pub proof fn flat_list_prefix(
    entries: Seq<IsoFile>,
    a: int,
    b: int,
    parent: usize,
    depth: usize,
    base: usize,
)
    requires
        0 <= a <= b <= entries.len(),
    ensures
        flat_list(entries, a, parent, depth, base).len() <= flat_list(
            entries,
            b,
            parent,
            depth,
            base,
        ).len(),
        flat_list(entries, b, parent, depth, base).subrange(
            0,
            flat_list(entries, a, parent, depth, base).len() as int,
        ) == flat_list(entries, a, parent, depth, base),
    decreases b - a,
{
    let short = flat_list(entries, a, parent, depth, base);
    let long = flat_list(entries, b, parent, depth, base);
    if a < b {
        flat_list_prefix(entries, a, b - 1, parent, depth, base);
        let mid = flat_list(entries, b - 1, parent, depth, base);
        assert(long.subrange(0, short.len() as int) =~= mid.subrange(0, short.len() as int));
    } else {
        assert(long.subrange(0, short.len() as int) =~= short);
    }
}

/// The roots of the trees of a list stand at the places that `child_places` gives,
/// and name `parent` as their parent.
pub proof fn list_roots(entries: Seq<IsoFile>, upto: int, parent: usize, depth: usize, base: usize)
    requires
        0 <= upto <= entries.len(),
        base + flat_list(entries, upto, parent, depth, base).len() <= usize::MAX,
    ensures
        ({
            let s = flat_list(entries, upto, parent, depth, base);
            let places = child_places(entries, upto, parent, depth, base);
            &&& places.len() == upto
            &&& forall|k: int|
                0 <= k < upto ==> {
                    let c = (#[trigger] places[k]) as int;
                    &&& c == base + flat_list(entries, k, parent, depth, base).len()
                    &&& base <= c < base + s.len()
                    &&& s[c - base].parent == parent
                    &&& s[c - base].depth == depth
                    &&& s[c - base].name == entries[k].spec_name()
                    &&& s[c - base].is_dir == (entries[k] is Directory)
                }
        }),
    decreases upto,
{
    let s = flat_list(entries, upto, parent, depth, base);
    let places = child_places(entries, upto, parent, depth, base);
    if upto > 0 {
        flat_list_prefix(entries, upto - 1, upto, parent, depth, base);
        list_roots(entries, upto - 1, parent, depth, base);
        let before = flat_list(entries, upto - 1, parent, depth, base);
        let earlier = child_places(entries, upto - 1, parent, depth, base);
        let last = entries[upto - 1].flat(parent, depth, (base + before.len()) as usize);
        flat_head(entries[upto - 1], parent, depth, (base + before.len()) as usize);
        assert(s == before + last);
        assert forall|k: int| 0 <= k < upto implies {
            let c = (#[trigger] places[k]) as int;
            &&& c == base + flat_list(entries, k, parent, depth, base).len()
            &&& base <= c < base + s.len()
            &&& s[c - base].parent == parent
            &&& s[c - base].depth == depth
            &&& s[c - base].name == entries[k].spec_name()
            &&& s[c - base].is_dir == (entries[k] is Directory)
        } by {
            if k < upto - 1 {
                assert(places[k] == earlier[k]);
                let c = earlier[k] as int;
                assert(s[c - base] == before[c - base]);
            } else {
                let c = places[k] as int;
                assert(c == base + before.len());
                assert(s[c - base] == last[0]);
            }
        }
    }
}

/// Whether every entry of `s` names what it holds in rising order of their places.
pub open spec fn children_ordered(s: Seq<NodeView>) -> bool {
    forall|i: int, a: int, b: int|
        0 <= i < s.len() && 0 <= a < b < s[i].children.len() ==> (#[trigger] s[i].children[a]) < (
        #[trigger] s[i].children[b])
}

/// More trees of a list have more entries.
pub proof fn flat_list_grows(
    entries: Seq<IsoFile>,
    a: int,
    b: int,
    parent: usize,
    depth: usize,
    base: usize,
)
    requires
        0 <= a < b <= entries.len(),
    ensures
        flat_list(entries, a, parent, depth, base).len() < flat_list(
            entries,
            b,
            parent,
            depth,
            base,
        ).len(),
{
    flat_list_prefix(entries, a + 1, b, parent, depth, base);
    let before = flat_list(entries, a, parent, depth, base);
    flat_head(entries[a], parent, depth, (base + before.len()) as usize);
}

/// The places of the roots of the trees of a list rise.
pub proof fn list_roots_rise(
    entries: Seq<IsoFile>,
    upto: int,
    parent: usize,
    depth: usize,
    base: usize,
)
    requires
        0 <= upto <= entries.len(),
        base + flat_list(entries, upto, parent, depth, base).len() <= usize::MAX,
    ensures
        forall|a: int, b: int|
            0 <= a < b < upto ==> (#[trigger] child_places(
                entries,
                upto,
                parent,
                depth,
                base,
            )[a]) < (#[trigger] child_places(entries, upto, parent, depth, base)[b]),
{
    let places = child_places(entries, upto, parent, depth, base);
    list_roots(entries, upto, parent, depth, base);
    assert forall|a: int, b: int| 0 <= a < b < upto implies (#[trigger] places[a]) < (
    #[trigger] places[b]) by {
        flat_list_grows(entries, a, b, parent, depth, base);
    }
}

/// The entries of a tree name what they hold rightly.
pub proof fn flat_children_ok(file: IsoFile, parent: usize, depth: usize, base: usize)
    requires
        base + file.flat(parent, depth, base).len() <= usize::MAX,
    ensures
        children_ok(file.flat(parent, depth, base), base as int),
        children_ordered(file.flat(parent, depth, base)),
    decreases file, 0nat,
{
    let s = file.flat(parent, depth, base);
    match file {
        IsoFile::File { name, data } => {},
        IsoFile::Directory { name, entries } => {
            let below = (depth + 1) as usize;
            let next = (base + 1) as usize;
            let tail = flat_list(entries@, entries@.len() as int, base, below, next);
            assert(s.len() == 1 + tail.len());
            list_roots(entries@, entries@.len() as int, base, below, next);
            list_roots_rise(entries@, entries@.len() as int, base, below, next);
            flat_list_children_ok(entries@, entries@.len() as int, base, below, next);
            assert forall|i: int, a: int, b: int|
                0 <= i < s.len() && 0 <= a < b < s[i].children.len() implies (
            #[trigger] s[i].children[a]) < (#[trigger] s[i].children[b]) by {
                if i > 0 {
                    assert(s[i] == tail[i - 1]);
                    assert(tail[i - 1].children[a] < tail[i - 1].children[b]);
                }
            }
            assert forall|i: int, k: int|
                0 <= i < s.len() && 0 <= k < s[i].children.len() implies {
                let c = (#[trigger] s[i].children[k]) as int;
                &&& base + i < c < base + s.len()
                &&& s[c - base].parent == base + i
            } by {
                if i == 0 {
                    let c = s[0].children[k] as int;
                    assert(s[c - base] == tail[c - next]);
                } else {
                    assert(s[i] == tail[i - 1]);
                    let c = tail[i - 1].children[k] as int;
                    assert(next + (i - 1) < c < next + tail.len());
                    assert(s[c - base] == tail[c - next]);
                }
            }
        },
    }
}

/// The entries of the trees of a list name what they hold rightly.
pub proof fn flat_list_children_ok(
    entries: Seq<IsoFile>,
    upto: int,
    parent: usize,
    depth: usize,
    base: usize,
)
    requires
        0 <= upto <= entries.len(),
        base + flat_list(entries, upto, parent, depth, base).len() <= usize::MAX,
    ensures
        children_ok(flat_list(entries, upto, parent, depth, base), base as int),
        children_ordered(flat_list(entries, upto, parent, depth, base)),
    decreases entries, upto,
{
    let s = flat_list(entries, upto, parent, depth, base);
    if upto > 0 {
        let before = flat_list(entries, upto - 1, parent, depth, base);
        let at = (base + before.len()) as usize;
        let last = entries[upto - 1].flat(parent, depth, at);
        assert(s == before + last);
        flat_list_children_ok(entries, upto - 1, parent, depth, base);
        flat_children_ok(entries[upto - 1], parent, depth, at);
        assert forall|i: int, a: int, b: int|
            0 <= i < s.len() && 0 <= a < b < s[i].children.len() implies (
        #[trigger] s[i].children[a]) < (#[trigger] s[i].children[b]) by {
            if i < before.len() {
                assert(s[i] == before[i]);
                assert(before[i].children[a] < before[i].children[b]);
            } else {
                assert(s[i] == last[i - before.len()]);
                assert(last[i - before.len()].children[a] < last[i - before.len()].children[b]);
            }
        }
        assert forall|i: int, k: int| 0 <= i < s.len() && 0 <= k < s[i].children.len() implies {
            let c = (#[trigger] s[i].children[k]) as int;
            &&& base + i < c < base + s.len()
            &&& s[c - base].parent == base + i
        } by {
            if i < before.len() {
                assert(s[i] == before[i]);
                let c = before[i].children[k] as int;
                assert(base + i < c < base + before.len());
                assert(s[c - base] == before[c - base]);
            } else {
                let j = i - before.len();
                assert(s[i] == last[j]);
                let c = last[j].children[k] as int;
                assert(at + j < c < at + last.len());
                assert(s[c - base] == last[c - at]);
            }
        }
    }
}

/// In the entries of a tree, what a directory holds stands behind the directory and
/// names it as its parent; and the first entry is the root, which holds the trees that
/// were given, in their order. This holds for trees of less than `usize::MAX`
/// entries.
pub proof fn tree_children_ok(files: Seq<IsoFile>)
    requires
        tree_nodes(files).len() <= usize::MAX,
    ensures
        children_ok(tree_nodes(files), 0),
        children_ordered(tree_nodes(files)),
        tree_nodes(files).len() >= 1,
        tree_nodes(files)[0].is_dir,
        tree_nodes(files)[0].parent == 0,
        tree_nodes(files)[0].children.len() == files.len(),
        forall|k: int|
            0 <= k < files.len() ==> {
                let c = (#[trigger] tree_nodes(files)[0].children[k]) as int;
                &&& 0 < c < tree_nodes(files).len()
                &&& tree_nodes(files)[c].name == files[k].spec_name()
                &&& tree_nodes(files)[c].is_dir == (files[k] is Directory)
            },
{
    let s = tree_nodes(files);
    let tail = flat_list(files, files.len() as int, 0, 1, 1);
    assert(s.len() == 1 + tail.len());
    list_roots(files, files.len() as int, 0, 1, 1);
    list_roots_rise(files, files.len() as int, 0, 1, 1);
    flat_list_children_ok(files, files.len() as int, 0, 1, 1);
    assert forall|i: int, a: int, b: int|
        0 <= i < s.len() && 0 <= a < b < s[i].children.len() implies (#[trigger] s[i].children[a])
        < (#[trigger] s[i].children[b]) by {
        if i > 0 {
            assert(s[i] == tail[i - 1]);
            assert(tail[i - 1].children[a] < tail[i - 1].children[b]);
        }
    }
    assert forall|i: int, k: int| 0 <= i < s.len() && 0 <= k < s[i].children.len() implies {
        let c = (#[trigger] s[i].children[k]) as int;
        &&& i < c < s.len()
        &&& s[c].parent == i
    } by {
        if i == 0 {
            let c = s[0].children[k] as int;
            assert(s[c] == tail[c - 1]);
        } else {
            assert(s[i] == tail[i - 1]);
            let c = tail[i - 1].children[k] as int;
            assert(1 + (i - 1) < c < 1 + tail.len());
            assert(s[c] == tail[c - 1]);
        }
    }
    assert forall|k: int| 0 <= k < files.len() implies {
        let c = (#[trigger] tree_nodes(files)[0].children[k]) as int;
        &&& 0 < c < tree_nodes(files).len()
        &&& tree_nodes(files)[c].name == files[k].spec_name()
        &&& tree_nodes(files)[c].is_dir == (files[k] is Directory)
    } by {
        let c = s[0].children[k] as int;
        assert(s[c] == tail[c - 1]);
    }
}

/// Whether two trees are alike: both files with one name and one content, or both
/// directories with one name that hold trees that are alike, one by one.
pub open spec fn alike(a: IsoFile, b: IsoFile) -> bool
    decreases a,
{
    match a {
        IsoFile::File { name, data } => b matches IsoFile::File { name: other, data: bytes }
            && name@ == other@ && data@ == bytes@,
        IsoFile::Directory { name, entries } => b matches IsoFile::Directory {
            name: other,
            entries: held,
        } && name@ == other@ && all_alike(entries@, held@, entries@.len() as int),
    }
}

/// Whether `a` and `b` hold as many trees, of which the first `upto` are alike one by
/// one.
pub open spec fn all_alike(a: Seq<IsoFile>, b: Seq<IsoFile>, upto: int) -> bool
    decreases a, upto,
{
    &&& a.len() == b.len()
    &&& (upto <= 0 || upto > a.len() || (all_alike(a, b, upto - 1) && alike(a[upto - 1], b[upto - 1])))
}

/// Trees that are alike have the same entries.
pub proof fn alike_trees_are_flat_alike(
    a: IsoFile,
    b: IsoFile,
    parent: usize,
    depth: usize,
    base: usize,
)
    requires
        alike(a, b),
    ensures
        a.flat(parent, depth, base) == b.flat(parent, depth, base),
    decreases a, 0nat,
{
    match a {
        IsoFile::File { name, data } => {},
        IsoFile::Directory { name, entries } => {
            let held = b->Directory_entries;
            let below = (depth + 1) as usize;
            let next = (base + 1) as usize;
            alike_lists_are_flat_alike(
                entries@,
                held@,
                entries@.len() as int,
                base,
                below,
                next,
            );
        },
    }
}

/// Lists of trees that are alike have the same entries, and their trees stand at
/// the same places.
pub proof fn alike_lists_are_flat_alike(
    a: Seq<IsoFile>,
    b: Seq<IsoFile>,
    upto: int,
    parent: usize,
    depth: usize,
    base: usize,
)
    requires
        0 <= upto <= a.len(),
        all_alike(a, b, upto),
    ensures
        flat_list(a, upto, parent, depth, base) == flat_list(b, upto, parent, depth, base),
        child_places(a, upto, parent, depth, base) == child_places(b, upto, parent, depth, base),
    decreases a, upto,
{
    if upto > 0 {
        alike_lists_are_flat_alike(a, b, upto - 1, parent, depth, base);
        let before = flat_list(a, upto - 1, parent, depth, base);
        alike_trees_are_flat_alike(
            a[upto - 1],
            b[upto - 1],
            parent,
            depth,
            (base + before.len()) as usize,
        );
    }
}

/// Lists of trees that are alike make trees with the same entries.
pub proof fn alike_lists_make_one_tree(a: Seq<IsoFile>, b: Seq<IsoFile>)
    requires
        all_alike(a, b, a.len() as int),
    ensures
        tree_nodes(a) == tree_nodes(b),
{
    alike_lists_are_flat_alike(a, b, a.len() as int, 0, 1, 1);
}

impl Clone for IsoFile {
    fn clone(&self) -> (copy: Self)
        ensures
            alike(*self, copy),
        decreases self,
    {
        match self {
            IsoFile::File { name, data } => {
                let mut bytes: Vec<u8> = Vec::new();
                bytes.extend_from_slice(data.as_slice());
                let copy = IsoFile::File { name: name.clone(), data: bytes };
                assert(*self == (IsoFile::File { name: *name, data: *data }));
                assert(copy->File_name@ == name@);
                assert(copy->File_data@ == data@);
                copy
            },
            IsoFile::Directory { name, entries } => {
                let held = Self::clone_all(entries);
                let copy = IsoFile::Directory { name: name.clone(), entries: held };
                assert(*self == (IsoFile::Directory { name: *name, entries: *entries }));
                assert(copy->Directory_name@ == name@);
                assert(copy->Directory_entries@ == held@);
                copy
            },
        }
    }
}

impl IsoFile {
    /// Copies of the trees of `entries`, in their order.
    pub fn clone_all(entries: &Vec<IsoFile>) -> (held: Vec<IsoFile>)
        ensures
            all_alike(entries@, held@, entries@.len() as int),
        decreases entries, 0nat,
    {
        let mut held: Vec<IsoFile> = Vec::new();
        let mut k: usize = 0;
        while k < entries.len()
            invariant
                k <= entries@.len(),
                held@.len() == k,
                forall|j: int| 0 <= j < k ==> alike(entries@[j], #[trigger] held@[j]),
            decreases entries@.len() - k,
        {
            let entry = entries[k].clone();
            held.push(entry);
            k += 1;
        }
        proof {
            all_alike_of_each(entries@, held@, entries@.len() as int);
        }
        held
    }
}

/// Lists of as many trees that are alike one by one are alike.
pub proof fn all_alike_of_each(a: Seq<IsoFile>, b: Seq<IsoFile>, upto: int)
    requires
        a.len() == b.len(),
        0 <= upto <= a.len(),
        forall|j: int| 0 <= j < upto ==> alike(a[j], #[trigger] b[j]),
    ensures
        all_alike(a, b, upto),
    decreases upto,
{
    if upto > 0 {
        all_alike_of_each(a, b, upto - 1);
    }
}

/// Whether the entry at `j` of `s`, which stand at the places from `base` on, is held
/// by a directory among `s`: its parent stands before it, is a directory, and holds
/// it.
pub open spec fn held_within(s: Seq<NodeView>, base: int, j: int) -> bool {
    let p = s[j].parent as int - base;
    &&& 0 <= p < j
    &&& s[p].is_dir
    &&& s[j].depth == s[p].depth + 1
    &&& exists|k: int| 0 <= k < s[p].children.len() && #[trigger] s[p].children[k] == base + j
}

/// Whether every entry of `s` but the first is held by a directory among `s`.
pub open spec fn parents_ok(s: Seq<NodeView>, base: int) -> bool {
    forall|j: int| 1 <= j < s.len() ==> #[trigger] held_within(s, base, j)
}

/// Whether every entry of the list `s` is a root of the list, held by `parent` at
/// one of `places`, or is held by a directory among `s`.
pub open spec fn list_parents_ok(
    s: Seq<NodeView>,
    base: int,
    parent: usize,
    depth: usize,
    places: Seq<usize>,
) -> bool {
    forall|j: int|
        0 <= j < s.len() ==> (#[trigger] held_within(s, base, j)) || (s[j].parent == parent
            && s[j].depth == depth && exists|k: int|
            0 <= k < places.len() && #[trigger] places[k] == base + j)
}

/// An entry that is held within entries is held within them when more entries stand
/// before or behind them.
proof fn held_within_more(
    before: Seq<NodeView>,
    s: Seq<NodeView>,
    after: Seq<NodeView>,
    base: int,
    j: int,
)
    requires
        0 <= j < s.len(),
        held_within(s, base, j),
    ensures
        held_within(before + s + after, base - before.len(), before.len() + j),
{
    let all = before + s + after;
    let shift = before.len() as int;
    let p = s[j].parent as int - base;
    let k = choose|k: int| 0 <= k < s[p].children.len() && #[trigger] s[p].children[k] == base + j;
    assert(all[shift + j] == s[j]);
    assert(all[shift + p] == s[p]);
    assert(all[shift + p].children[k] == (base - shift) + (shift + j));
}

/// In the entries of a tree, every entry but the root of the tree is held by a
/// directory of the tree.
pub proof fn flat_parents_ok(file: IsoFile, parent: usize, depth: usize, base: usize)
    requires
        base + file.flat(parent, depth, base).len() <= usize::MAX,
        depth + file.flat(parent, depth, base).len() <= usize::MAX,
    ensures
        parents_ok(file.flat(parent, depth, base), base as int),
    decreases file, 0nat,
{
    let s = file.flat(parent, depth, base);
    match file {
        IsoFile::File { name, data } => {},
        IsoFile::Directory { name, entries } => {
            let below = (depth + 1) as usize;
            let next = (base + 1) as usize;
            let tail = flat_list(entries@, entries@.len() as int, base, below, next);
            let places = child_places(entries@, entries@.len() as int, base, below, next);
            assert(s.len() == 1 + tail.len());
            flat_list_parents_ok(entries@, entries@.len() as int, base, below, next);
            assert forall|j: int| 1 <= j < s.len() implies #[trigger] held_within(
                s,
                base as int,
                j,
            ) by {
                assert(s[j] == tail[j - 1]);
                if held_within(tail, next as int, j - 1) {
                    held_within_more(seq![s[0]], tail, Seq::empty(), next as int, j - 1);
                    assert(seq![s[0]] + tail + Seq::<NodeView>::empty() =~= s);
                } else {
                    let k = choose|k: int|
                        0 <= k < places.len() && #[trigger] places[k] == next + (j - 1);
                    assert(s[0].children[k] == base + j);
                }
            }
        },
    }
}

/// In the entries of the trees of a list, every entry is the root of one of the
/// trees, at the place that `child_places` gives for it, or is held by a directory
/// among the entries.
pub proof fn flat_list_parents_ok(
    entries: Seq<IsoFile>,
    upto: int,
    parent: usize,
    depth: usize,
    base: usize,
)
    requires
        0 <= upto <= entries.len(),
        base + flat_list(entries, upto, parent, depth, base).len() <= usize::MAX,
        depth + flat_list(entries, upto, parent, depth, base).len() <= usize::MAX,
    ensures
        list_parents_ok(
            flat_list(entries, upto, parent, depth, base),
            base as int,
            parent,
            depth,
            child_places(entries, upto, parent, depth, base),
        ),
    decreases entries, upto,
{
    let s = flat_list(entries, upto, parent, depth, base);
    let places = child_places(entries, upto, parent, depth, base);
    if upto > 0 {
        let before = flat_list(entries, upto - 1, parent, depth, base);
        let earlier = child_places(entries, upto - 1, parent, depth, base);
        let at = (base + before.len()) as usize;
        let last = entries[upto - 1].flat(parent, depth, at);
        assert(s == before + last);
        flat_head(entries[upto - 1], parent, depth, at);
        flat_list_prefix(entries, upto - 1, upto, parent, depth, base);
        list_roots(entries, upto - 1, parent, depth, base);
        list_roots(entries, upto, parent, depth, base);
        flat_list_parents_ok(entries, upto - 1, parent, depth, base);
        flat_parents_ok(entries[upto - 1], parent, depth, at);
        assert forall|j: int| 0 <= j < s.len() implies (#[trigger] held_within(s, base as int, j))
            || (s[j].parent == parent && s[j].depth == depth && exists|k: int|
            0 <= k < places.len() && #[trigger] places[k] == base + j) by {
            if j < before.len() {
                assert(s[j] == before[j]);
                if held_within(before, base as int, j) {
                    held_within_more(Seq::empty(), before, last, base as int, j);
                    assert(Seq::<NodeView>::empty() + before + last =~= s);
                } else {
                    let k = choose|k: int|
                        0 <= k < earlier.len() && #[trigger] earlier[k] == base + j;
                    assert(places[k] == earlier[k]);
                }
            } else if j == before.len() {
                assert(s[j] == last[0]);
                assert(places[upto - 1] == base + j);
            } else {
                let jj = j - before.len();
                assert(s[j] == last[jj]);
                assert(held_within(last, at as int, jj));
                held_within_more(before, last, Seq::empty(), at as int, jj);
                assert(before + last + Seq::<NodeView>::empty() =~= s);
            }
        }
    }
}

/// In the entries of a tree, every entry but the root is held by a directory that
/// stands before it and is one level above it. This holds for trees of less than
/// `usize::MAX` entries.
pub proof fn tree_parents_ok(files: Seq<IsoFile>)
    requires
        tree_nodes(files).len() < usize::MAX,
    ensures
        parents_ok(tree_nodes(files), 0),
{
    let s = tree_nodes(files);
    let tail = flat_list(files, files.len() as int, 0, 1, 1);
    let places = child_places(files, files.len() as int, 0, 1, 1);
    assert(s.len() == 1 + tail.len());
    flat_list_parents_ok(files, files.len() as int, 0, 1, 1);
    assert forall|j: int| 1 <= j < s.len() implies #[trigger] held_within(s, 0, j) by {
        assert(s[j] == tail[j - 1]);
        if held_within(tail, 1, j - 1) {
            held_within_more(seq![s[0]], tail, Seq::empty(), 1, j - 1);
            assert(seq![s[0]] + tail + Seq::<NodeView>::empty() =~= s);
        } else {
            let k = choose|k: int| 0 <= k < places.len() && #[trigger] places[k] == 1 + (j - 1);
            assert(s[0].children[k] == j);
        }
    }
}

} // verus!
