use vstd::prelude::*;
use vstd::string::StringSliceAdditionalSpecFns;

verus! {

/// What a file of a flat file list is: content, or the names of what a directory
/// holds.
pub enum FileData {
    Data(Vec<u8>),
    /// A list of files in the directory, relative to the directory
    Directory(Vec<String>),
}

/// What a `FileData` stands for.
pub enum FileDataView {
    Data(Seq<u8>),
    Directory(Seq<Seq<char>>),
}

/// The text of each of `names`.
pub open spec fn names_view(names: Seq<String>) -> Seq<Seq<char>> {
    Seq::new(names.len(), |i: int| names[i]@)
}

/// A copy of `names`.
pub fn clone_names(names: &Vec<String>) -> (copy: Vec<String>)
    ensures
        names_view(copy@) == names_view(names@),
{
    let mut copy: Vec<String> = Vec::new();
    let mut i: usize = 0;
    while i < names.len()
        invariant
            i <= names@.len(),
            copy@.len() == i,
            forall|j: int| 0 <= j < i ==> copy@[j]@ == names@[j]@,
        decreases names@.len() - i,
    {
        copy.push(names[i].clone());
        i += 1;
    }
    assert(names_view(copy@) =~= names_view(names@));
    copy
}

/// Whether two strings hold the same text.
pub fn same_text(a: &str, b: &str) -> (same: bool)
    ensures
        same == (a@ == b@),
{
    proof {
        vstd::utf8::encode_utf8_decode_utf8(a@);
        vstd::utf8::encode_utf8_decode_utf8(b@);
    }
    crate::raw::same_bytes(a.as_bytes(), b.as_bytes())
}

/// A copy of `bytes`.
pub fn clone_bytes(bytes: &Vec<u8>) -> (copy: Vec<u8>)
    ensures
        copy@ == bytes@,
{
    let mut copy: Vec<u8> = Vec::new();
    copy.extend_from_slice(bytes.as_slice());
    copy
}

impl View for FileData {
    type V = FileDataView;

    open spec fn view(&self) -> FileDataView {
        match self {
            FileData::Data(data) => FileDataView::Data(data@),
            FileData::Directory(children) => FileDataView::Directory(names_view(children@)),
        }
    }
}

impl Clone for FileData {
    fn clone(&self) -> (copy: Self)
        ensures
            copy@ == self@,
    {
        match self {
            FileData::Data(data) => FileData::Data(clone_bytes(data)),
            FileData::Directory(children) => FileData::Directory(clone_names(children)),
        }
    }
}

impl FileData {
    /// The content of a file.
    pub fn get_data(&self) -> (data: Vec<u8>)
        requires
            self is Data,
        ensures
            self@ == FileDataView::Data(data@),
    {
        match self {
            Self::Data(data) => clone_bytes(data),
            Self::Directory(_) => Vec::new(),
        }
    }

    /// The names of what a directory holds.
    pub fn get_children(&self) -> (children: Vec<String>)
        requires
            self is Directory,
        ensures
            self@ == FileDataView::Directory(names_view(children@)),
    {
        match self {
            Self::Directory(children) => clone_names(children),
            Self::Data(_) => Vec::new(),
        }
    }

    /// Adds `child` to the names of what a directory holds.
    pub fn add_child(&mut self, child: String)
        requires
            *old(self) is Directory,
        ensures
            final(self)@ == FileDataView::Directory(old(self)@->Directory_0.push(child@)),
    {
        let mut children = self.get_children();
        let ghost before = names_view(children@);
        children.push(child);
        assert(names_view(children@) =~= before.push(child@));
        *self = FileData::Directory(children);
    }
}

/// A file or a directory of a flat file list, with its path from the root.
pub struct File {
    pub path: String,
    pub data: FileData,
}

/// What a `File` stands for.
pub struct FileView {
    pub path: Seq<char>,
    pub data: FileDataView,
}

impl View for File {
    type V = FileView;

    open spec fn view(&self) -> FileView {
        FileView { path: self.path@, data: self.data@ }
    }
}

impl Clone for File {
    fn clone(&self) -> (copy: Self)
        ensures
            copy@ == self@,
    {
        File { path: self.path.clone(), data: self.data.clone() }
    }
}

impl File {
    /// Whether this is a directory.
    pub fn is_directory(&self) -> (dir: bool)
        ensures
            dir == (self.data is Directory),
    {
        match self.data {
            FileData::Directory(_) => true,
            FileData::Data(_) => false,
        }
    }

    /// The content of a file.
    pub fn get_data(&self) -> (data: Vec<u8>)
        requires
            self.data is Data,
        ensures
            self.data@ == FileDataView::Data(data@),
    {
        self.data.get_data()
    }

    /// The names of what a directory holds.
    pub fn get_children(&self) -> (children: Vec<String>)
        requires
            self.data is Directory,
        ensures
            self.data@ == FileDataView::Directory(names_view(children@)),
    {
        self.data.get_children()
    }

    /// Adds `child` to the names of what a directory holds.
    pub fn add_child(&mut self, child: String)
        requires
            old(self).data is Directory,
        ensures
            final(self).path == old(self).path,
            final(self).data@ == FileDataView::Directory(
                old(self).data@->Directory_0.push(child@),
            ),
    {
        self.data.add_child(child);
    }
}

/// What each of `files` stands for.
pub open spec fn files_view(files: Seq<File>) -> Seq<FileView> {
    Seq::new(files.len(), |i: int| files[i]@)
}

/// The place of the first of `files` at or after `from` whose path is `name`, or
/// the number of files where there is none.
pub open spec fn first_named(files: Seq<FileView>, name: Seq<char>, from: int) -> int
    decreases files.len() - from,
{
    if from < 0 || from >= files.len() {
        files.len() as int
    } else if files[from].path == name {
        from
    } else {
        first_named(files, name, from + 1)
    }
}

/// The first `upto` of `files` that are directories where `dirs` is set, and those
/// that are not where it is not, in their order.
pub open spec fn files_of_kind(files: Seq<FileView>, dirs: bool, upto: int) -> Seq<FileView>
    decreases upto,
{
    if upto <= 0 {
        Seq::empty()
    } else if (files[upto - 1].data is Directory) == dirs {
        files_of_kind(files, dirs, upto - 1).push(files[upto - 1])
    } else {
        files_of_kind(files, dirs, upto - 1)
    }
}

/// A tree of files as a flat list, in which every entry bears its path from the root
/// and the root directory bears the empty path.
pub struct FileInput {
    /// A flat list of files; nested files are written with the path of their parent
    /// directory before their name.
    files: Vec<File>,
}

impl View for FileInput {
    type V = Seq<FileView>;

    closed spec fn view(&self) -> Seq<FileView> {
        files_view(self.files@)
    }
}

impl FileInput {
    /// The list that holds only the root directory, which holds nothing.
    pub fn new() -> (input: Self)
        ensures
            input@ == seq![
                FileView { path: Seq::empty(), data: FileDataView::Directory(Seq::empty()) },
            ],
    {
        let mut files: Vec<File> = Vec::new();
        let root = File { path: String::new(), data: FileData::Directory(Vec::new()) };
        assert(names_view(Seq::<String>::empty()) =~= Seq::<Seq<char>>::empty());
        files.push(root);
        let input = FileInput { files };
        assert(input@ =~= seq![
            FileView { path: Seq::empty(), data: FileDataView::Directory(Seq::empty()) },
        ]);
        input
    }

    /// The list that holds `files`.
    pub fn from_files(files: Vec<File>) -> (input: Self)
        ensures
            input@ == files_view(files@),
    {
        FileInput { files }
    }

    /// Splits the list in two: the directories, and the other files, each in their
    /// order.
    pub fn split(self) -> (parts: (Vec<File>, Vec<File>))
        ensures
            files_view(parts.0@) == files_of_kind(self@, true, self@.len() as int),
            files_view(parts.1@) == files_of_kind(self@, false, self@.len() as int),
    {
        let ghost all = self@;
        let mut dirs: Vec<File> = Vec::new();
        let mut rest: Vec<File> = Vec::new();
        let mut i: usize = 0;
        assert(files_view(dirs@) =~= files_of_kind(all, true, 0));
        assert(files_view(rest@) =~= files_of_kind(all, false, 0));
        while i < self.files.len()
            invariant
                i <= self.files@.len(),
                all == files_view(self.files@),
                files_view(dirs@) == files_of_kind(all, true, i as int),
                files_view(rest@) == files_of_kind(all, false, i as int),
            decreases self.files@.len() - i,
        {
            let file = self.files[i].clone();
            assert(all[i as int] == self.files@[i as int]@);
            let ghost dirs_before = files_view(dirs@);
            let ghost rest_before = files_view(rest@);
            if file.is_directory() {
                dirs.push(file);
                assert(files_view(dirs@) =~= dirs_before.push(all[i as int]));
            } else {
                rest.push(file);
                assert(files_view(rest@) =~= rest_before.push(all[i as int]));
            }
            i += 1;
        }
        (dirs, rest)
    }

    /// Adds `file` to the list, and its path to what the root directory holds.
    pub fn append(&mut self, file: File)
        requires
            first_named(old(self)@, Seq::empty(), 0) < old(self)@.len(),
            old(self)@[first_named(old(self)@, Seq::empty(), 0)].data is Directory,
        ensures
            final(self)@.len() == old(self)@.len() + 1,
            final(self)@.last() == file@,
            forall|i: int|
                0 <= i < old(self)@.len() && i != first_named(old(self)@, Seq::empty(), 0)
                    ==> final(self)@[i] == old(self)@[i],
            ({
                let root = first_named(old(self)@, Seq::empty(), 0);
                &&& final(self)@[root].path == old(self)@[root].path
                &&& final(self)@[root].data == FileDataView::Directory(
                    old(self)@[root].data->Directory_0.push(file.path@),
                )
            }),
    {
        let ghost before = self@;
        let empty = "";
        proof {
            reveal_strlit("");
            assert(empty@ =~= Seq::<char>::empty());
        }
        let root = self.position(empty).unwrap();
        assert(before[root as int] == self.files@[root as int]@);
        let mut parent = self.files[root].clone();
        parent.add_child(file.path.clone());
        self.files[root] = parent;
        self.files.push(file);
        proof {
            assert forall|i: int| 0 <= i < before.len() && i != root implies self@[i]
                == before[i] by {
                assert(self@[i] == self.files@[i]@);
            }
            assert(self@[root as int] == self.files@[root as int]@);
        }
    }

    /// The place of the first file whose path is `name`.
    pub fn position(&self, name: &str) -> (at: Option<usize>)
        ensures
            at is Some <==> first_named(self@, name@, 0) < self@.len(),
            at matches Some(i) ==> i == first_named(self@, name@, 0),
    {
        let ghost all = self@;
        let mut i: usize = 0;
        while i < self.files.len()
            invariant
                i <= self.files@.len(),
                all == files_view(self.files@),
                first_named(all, name@, 0) == first_named(all, name@, i as int),
            decreases self.files@.len() - i,
        {
            assert(all[i as int] == self.files@[i as int]@);
            if same_text(self.files[i].path.as_str(), name) {
                return Some(i);
            }
            i += 1;
        }
        None
    }

    /// The first file whose path is `name`.
    pub fn get(&self, name: &str) -> (file: Option<&File>)
        ensures
            file is Some <==> first_named(self@, name@, 0) < self@.len(),
            file matches Some(f) ==> f@ == self@[first_named(self@, name@, 0)],
    {
        match self.position(name) {
            Some(i) => {
                assert(self@[i as int] == self.files@[i as int]@);
                Some(&self.files[i])
            },
            None => None,
        }
    }

    /// The first file whose path is `name`, to be changed in place.
    pub fn get_mut(&mut self, name: &str) -> (file: Option<&mut File>)
        ensures
            file is Some <==> first_named(old(self)@, name@, 0) < old(self)@.len(),
            file matches Some(f) ==> {
                let at = first_named(old(self)@, name@, 0);
                &&& f@ == old(self)@[at]
                &&& final(self)@ == old(self)@.update(at, final(f)@)
            },
            file is None ==> final(self)@ == old(self)@,
    {
        match self.position(name) {
            Some(i) => {
                assert(self@[i as int] == self.files@[i as int]@);
                let ghost before = self.files@;
                let file = &mut self.files[i];
                proof {
                    assert(files_view(before.update(i as int, *final(file))) =~= files_view(
                        before,
                    ).update(i as int, final(file)@));
                }
                Some(file)
            },
            None => None,
        }
    }

    /// Whether a file has the path `name`.
    pub fn contains(&self, name: &str) -> (found: bool)
        ensures
            found == (first_named(self@, name@, 0) < self@.len()),
    {
        self.get(name).is_some()
    }

    /// The number of files of the list.
    pub fn len(&self) -> (n: usize)
        ensures
            n == self@.len(),
    {
        self.files.len()
    }
}

} // verus!
