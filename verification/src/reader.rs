use vstd::prelude::*;
use vstd::string::StringSliceAdditionalSpecFns;
use crate::directory::{marks_directory, DirectoryRecord, DirectoryRecordHeader, DirectoryRef};
use crate::error::IsoError;
use crate::path::{path_entry_fits, path_entry_span, PathTableEntry};
use crate::raw::{copy_range, same_bytes};
use crate::types::{host_is_little_endian, le_u32, native_is_little, EndianType};

verus! {

/// Where the two path tables lie, and the number of bytes of one of them.
#[derive(Debug, Clone, Copy)]
pub struct PathTableRef {
    pub lpath_table_offset: u64,
    pub mpath_table_offset: u64,
    pub size: u64,
}

/// The bytes of the extent of `size` bytes at the block `lba` of `data`, where
/// `data` holds all of them.
pub open spec fn extent_of(data: Seq<u8>, lba: int, size: int) -> Option<Seq<u8>> {
    if 0 <= lba && 0 <= size && 2048 * lba + size <= data.len() {
        Some(data.subrange(2048 * lba, 2048 * lba + size))
    } else {
        None
    }
}

/// The bytes of the extent of `size` bytes at the block `lba` of `data`. It fails
/// with `IOFailed` where `data` ends before the extent does.
pub fn read_extent(data: &[u8], lba: u64, size: u64) -> (r: Result<Vec<u8>, IsoError>)
    ensures
        r is Ok <==> extent_of(data@, lba as int, size as int) is Some,
        r matches Ok(bytes) ==> Some(bytes@) == extent_of(data@, lba as int, size as int),
        r matches Err(e) ==> e == IsoError::IOFailed,
{
    let total = data.len();
    if lba > (total / 2048) as u64 {
        return Err(IsoError::IOFailed);
    }
    let start: usize = (lba as usize) * 2048;
    if size > (total - start) as u64 {
        return Err(IsoError::IOFailed);
    }
    Ok(copy_range(data, start, start + size as usize))
}

/// Whether a whole directory record stands in `extent` at `at`.
pub open spec fn record_fits(extent: Seq<u8>, at: int) -> bool {
    &&& at + 33 <= extent.len()
    &&& at + 33 + extent[at + 32] <= extent.len()
}

/// The identifier of the record that stands in `extent` at `at`.
pub open spec fn record_name(extent: Seq<u8>, at: int) -> Seq<u8> {
    extent.subrange(at + 33, at + 33 + extent[at + 32])
}

/// The block at which the extent of the record in `extent` at `at` begins.
pub open spec fn record_lba(extent: Seq<u8>, at: int) -> u32 {
    le_u32(extent.subrange(at + 2, at + 6))
}

/// The number of bytes that the record in `extent` at `at` gives for its extent.
pub open spec fn record_size(extent: Seq<u8>, at: int) -> u32 {
    le_u32(extent.subrange(at + 10, at + 14))
}

/// How reading the records of the directory `extent` from `at` on ends: with the
/// places of the records up to the first length byte of zero or the end of `extent`;
/// or with `CorruptImage` at a record that does not fit into `extent`, or whose numbers
/// differ between the two byte orders.
pub open spec fn records_scan(extent: Seq<u8>, at: int) -> Result<Seq<int>, IsoError>
    decreases extent.len() + 256 - at,
{
    if at < 0 || at >= extent.len() || extent[at] == 0 {
        Ok(Seq::empty())
    } else if !record_fits(extent, at) || !DirectoryRecordHeader::consistent_at(extent, at) {
        Err(IsoError::CorruptImage)
    } else {
        match records_scan(extent, at + extent[at]) {
            Ok(rest) => Ok(seq![at] + rest),
            Err(e) => Err(e),
        }
    }
}

/// What `records_scan` gives where it has found the records at `found` and goes on
/// as `rest`.
pub open spec fn scan_join(found: Seq<int>, rest: Result<Seq<int>, IsoError>) -> Result<
    Seq<int>,
    IsoError,
> {
    match rest {
        Ok(more) => Ok(found + more),
        Err(e) => Err(e),
    }
}

/// The place of each of `entries` in its directory.
pub open spec fn offsets_of(entries: Seq<(u64, DirectoryRecord)>) -> Seq<int> {
    Seq::new(entries.len(), |i: int| entries[i].0 as int)
}

/// Whether each of `entries` is the record that stands in `extent` at its place.
pub open spec fn records_match(extent: Seq<u8>, entries: Seq<(u64, DirectoryRecord)>) -> bool {
    forall|i: int|
        0 <= i < entries.len() ==> {
            let at = (#[trigger] entries[i]).0 as int;
            &&& 0 <= at
            &&& record_fits(extent, at)
            &&& entries[i].1.header.encoding() == extent.subrange(at, at + 33)
            &&& entries[i].1.name@ == record_name(extent, at)
        }
}

/// The place of the first of the records at `places` in `extent` that bears the
/// identifier `name` and, where `dir_only` is set, describes a directory; among the
/// first `upto` of them.
pub open spec fn first_match(
    extent: Seq<u8>,
    places: Seq<int>,
    name: Seq<u8>,
    dir_only: bool,
    upto: int,
) -> Option<int>
    decreases upto,
{
    if upto <= 0 {
        None
    } else {
        match first_match(extent, places, name, dir_only, upto - 1) {
            Some(at) => Some(at),
            None => {
                let at = places[upto - 1];
                if record_name(extent, at) == name && (!dir_only || marks_directory(
                    extent[at + 25],
                )) {
                    Some(at)
                } else {
                    None
                }
            },
        }
    }
}

/// A match among the first records is the match among all of them.
pub proof fn first_match_found(
    extent: Seq<u8>,
    places: Seq<int>,
    name: Seq<u8>,
    dir_only: bool,
    upto: int,
    all: int,
)
    requires
        0 <= upto <= all,
        first_match(extent, places, name, dir_only, upto) is Some,
    ensures
        first_match(extent, places, name, dir_only, all) == first_match(
            extent,
            places,
            name,
            dir_only,
            upto,
        ),
    decreases all - upto,
{
    if upto < all {
        first_match_found(extent, places, name, dir_only, upto, all - 1);
    }
}

/// A directory of an image.
#[derive(Debug, Clone, Copy)]
pub struct IsoDirectory {
    pub directory: DirectoryRef,
}

impl IsoDirectory {
    /// The bytes of the directory in `data`, where `data` holds all of them.
    pub open spec fn extent(&self, data: Seq<u8>) -> Option<Seq<u8>> {
        extent_of(data, self.directory.offset as int, self.directory.size as int)
    }

    /// Reads the records of the parsed directory `extent`.
    pub fn parse_records(extent: &[u8]) -> (r: Result<Vec<(u64, DirectoryRecord)>, IsoError>)
        ensures
            r matches Ok(entries) ==> records_scan(extent@, 0) == Ok::<Seq<int>, IsoError>(
                offsets_of(entries@),
            ) && records_match(extent@, entries@),
            r matches Err(e) ==> records_scan(extent@, 0) == Err::<Seq<int>, IsoError>(e),
    {
        let total = extent.len();
        let mut entries: Vec<(u64, DirectoryRecord)> = Vec::new();
        let mut idx: usize = 0;
        assert(offsets_of(entries@) =~= Seq::<int>::empty());
        assert(Seq::<int>::empty() + Seq::<int>::empty() =~= Seq::<int>::empty());
        while idx < total
            invariant
                total == extent@.len(),
                records_scan(extent@, 0) == scan_join(
                    offsets_of(entries@),
                    records_scan(extent@, idx as int),
                ),
                records_match(extent@, entries@),
            decreases total - idx,
        {
            let len = extent[idx];
            if len == 0 {
                assert(offsets_of(entries@) + Seq::<int>::empty() =~= offsets_of(entries@));
                return Ok(entries);
            }
            if total - idx < 33 {
                return Err(IsoError::CorruptImage);
            }
            let id_len = extent[idx + 32] as usize;
            if total - idx - 33 < id_len {
                return Err(IsoError::CorruptImage);
            }
            let record = DirectoryRecord::load(extent, idx);
            proof {
                record.header.fields_at(extent@, idx as int);
            }
            if !record.header.is_consistent() {
                return Err(IsoError::CorruptImage);
            }
            let ghost before = offsets_of(entries@);
            let ghost old_entries = entries@;
            entries.push((idx as u64, record));
            proof {
                assert(offsets_of(entries@) =~= before.push(idx as int));
                let rest = records_scan(extent@, idx + len);
                match rest {
                    Ok(more) => {
                        assert(before + (seq![idx as int] + more) =~= before.push(idx as int)
                            + more);
                    },
                    Err(_) => {},
                }
                assert forall|i: int| 0 <= i < entries@.len() implies {
                    let at = (#[trigger] entries@[i]).0 as int;
                    &&& 0 <= at
                    &&& record_fits(extent@, at)
                    &&& entries@[i].1.header.encoding() == extent@.subrange(at, at + 33)
                    &&& entries@[i].1.name@ == record_name(extent@, at)
                } by {
                    if i < old_entries.len() {
                        assert(entries@[i] == old_entries[i]);
                    }
                }
            }
            let ghost next = idx + len;
            if total - idx <= len as usize {
                idx = total;
                assert(records_scan(extent@, next) == Ok::<Seq<int>, IsoError>(Seq::empty()));
                assert(records_scan(extent@, idx as int) == Ok::<Seq<int>, IsoError>(
                    Seq::empty(),
                ));
            } else {
                idx = idx + len as usize;
            }
        }
        assert(offsets_of(entries@) + Seq::<int>::empty() =~= offsets_of(entries@));
        Ok(entries)
    }
}

impl IsoDirectory {
    /// Reads the records of the directory from `data`, each with its place in the
    /// directory. It fails with `IOFailed` where `data` ends before the directory
    /// does, and else as `records_scan` says.
    pub fn entries(&self, data: &[u8]) -> (r: Result<Vec<(u64, DirectoryRecord)>, IsoError>)
        ensures
            r matches Ok(entries) ==> self.extent(data@) matches Some(extent) && records_scan(
                extent,
                0,
            ) == Ok::<Seq<int>, IsoError>(offsets_of(entries@)) && records_match(extent, entries@),
            r matches Err(e) ==> match self.extent(data@) {
                Some(extent) => records_scan(extent, 0) == Err::<Seq<int>, IsoError>(e),
                None => e == IsoError::IOFailed,
            },
    {
        let extent = match read_extent(data, self.directory.offset, self.directory.size) {
            Ok(bytes) => bytes,
            Err(e) => {
                return Err(e);
            },
        };
        Self::parse_records(extent.as_slice())
    }

    /// Looks among `entries`, the records of `extent`, for the first that bears the
    /// identifier `name` and, where `dir_only` is set, describes a directory.
    fn lookup(
        extent: Ghost<Seq<u8>>,
        entries: &Vec<(u64, DirectoryRecord)>,
        name: &[u8],
        dir_only: bool,
    ) -> (found: Option<usize>)
        requires
            records_match(extent@, entries@),
        ensures
            found is Some <==> first_match(
                extent@,
                offsets_of(entries@),
                name@,
                dir_only,
                entries@.len() as int,
            ) is Some,
            found matches Some(i) ==> i < entries@.len() && first_match(
                extent@,
                offsets_of(entries@),
                name@,
                dir_only,
                entries@.len() as int,
            ) == Some(entries@[i as int].0 as int),
    {
        let ghost places = offsets_of(entries@);
        let mut i: usize = 0;
        while i < entries.len()
            invariant
                i <= entries@.len(),
                places == offsets_of(entries@),
                records_match(extent@, entries@),
                first_match(extent@, places, name@, dir_only, i as int) is None,
            decreases entries@.len() - i,
        {
            let record = &entries[i].1;
            proof {
                let at = entries@[i as int].0 as int;
                assert(places[i as int] == at);
                record.header.fields_at(extent@, at);
            }
            if same_bytes(record.name.bytes(), name) && (!dir_only || record.header.is_directory()) {
                proof {
                    first_match_found(
                        extent@,
                        places,
                        name@,
                        dir_only,
                        i + 1,
                        entries@.len() as int,
                    );
                }
                return Some(i);
            }
            i += 1;
        }
        None
    }

    /// The directory that the first record of this directory with the identifier
    /// `name` and the directory flag describes, if there is one. It fails as `entries`
    /// does.
    pub fn find_directory(&self, data: &[u8], name: &str) -> (r: Result<
        Option<IsoDirectory>,
        IsoError,
    >)
        ensures
            r matches Ok(found) ==> self.extent(data@) matches Some(extent) && records_scan(
                extent,
                0,
            ) matches Ok(places) && (match first_match(
                extent,
                places,
                name.spec_bytes(),
                true,
                places.len() as int,
            ) {
                Some(at) => found matches Some(dir) && dir.directory.offset == record_lba(
                    extent,
                    at,
                ) && dir.directory.size == record_size(extent, at),
                None => found is None,
            }),
            r matches Err(e) ==> match self.extent(data@) {
                Some(extent) => records_scan(extent, 0) == Err::<Seq<int>, IsoError>(e),
                None => e == IsoError::IOFailed,
            },
    {
        let entries = match self.entries(data) {
            Ok(entries) => entries,
            Err(e) => {
                return Err(e);
            },
        };
        let ghost extent = self.extent(data@).unwrap();
        match Self::lookup(Ghost(extent), &entries, name.as_bytes(), true) {
            Some(i) => {
                let header = &entries[i].1.header;
                proof {
                    header.fields_at(extent, entries@[i as int].0 as int);
                }
                Ok(
                    Some(
                        IsoDirectory {
                            directory: DirectoryRef {
                                offset: header.extent.read_lsb() as u64,
                                size: header.data_len.read_lsb() as u64,
                            },
                        },
                    ),
                )
            },
            None => Ok(None),
        }
    }

    /// The bytes of the file that the first record of this directory with the
    /// identifier `name` describes. It fails as `entries` does; with `NotFound` where
    /// no record bears the name; and with `IOFailed` where `data` ends before the file
    /// does.
    pub fn read_file(&self, data: &[u8], name: &str) -> (r: Result<Vec<u8>, IsoError>)
        ensures
            r matches Ok(bytes) ==> self.extent(data@) matches Some(extent) && records_scan(
                extent,
                0,
            ) matches Ok(places) && first_match(
                extent,
                places,
                name.spec_bytes(),
                false,
                places.len() as int,
            ) matches Some(at) && Some(bytes@) == extent_of(
                data@,
                record_lba(extent, at) as int,
                record_size(extent, at) as int,
            ),
            r matches Err(e) ==> match self.extent(data@) {
                None => e == IsoError::IOFailed,
                Some(extent) => match records_scan(extent, 0) {
                    Err(scan) => e == scan,
                    Ok(places) => match first_match(
                        extent,
                        places,
                        name.spec_bytes(),
                        false,
                        places.len() as int,
                    ) {
                        None => e == IsoError::NotFound,
                        Some(at) => e == IsoError::IOFailed && extent_of(
                            data@,
                            record_lba(extent, at) as int,
                            record_size(extent, at) as int,
                        ) is None,
                    },
                },
            },
    {
        let entries = match self.entries(data) {
            Ok(entries) => entries,
            Err(e) => {
                return Err(e);
            },
        };
        let ghost extent = self.extent(data@).unwrap();
        match Self::lookup(Ghost(extent), &entries, name.as_bytes(), false) {
            Some(i) => {
                let header = &entries[i].1.header;
                proof {
                    header.fields_at(extent, entries@[i as int].0 as int);
                }
                read_extent(data, header.extent.read_lsb() as u64, header.data_len.read_lsb() as u64)
            },
            None => Err(IsoError::NotFound),
        }
    }
}

/// How reading a path table of `size` bytes that begins in `bytes` at `base` goes
/// on at its byte `idx`: with the places of the entries up to the first name length
/// of zero or the end of the table; or with `IOFailed` where `bytes` end before an
/// entry does.
pub open spec fn table_scan(bytes: Seq<u8>, base: int, size: int, idx: int) -> Result<
    Seq<int>,
    IsoError,
>
    decreases size + 264 - idx,
{
    if idx < 0 || idx >= size {
        Ok(Seq::empty())
    } else if !path_entry_fits(bytes, base + idx) {
        Err(IsoError::IOFailed)
    } else if bytes[base + idx] == 0 {
        Ok(Seq::empty())
    } else {
        match table_scan(bytes, base, size, idx + path_entry_span(bytes[base + idx] as int)) {
            Ok(rest) => Ok(seq![base + idx] + rest),
            Err(e) => Err(e),
        }
    }
}

/// Whether each of `entries` is the entry that stands in `bytes` at the place that
/// `places` gives for it, read in the byte order `endian`.
pub open spec fn entries_stand(
    bytes: Seq<u8>,
    places: Seq<int>,
    entries: Seq<PathTableEntry>,
    endian: EndianType,
) -> bool {
    &&& places.len() == entries.len()
    &&& forall|i: int|
        0 <= i < entries.len() ==> (#[trigger] entries[i]).stands_at(bytes, places[i], endian)
}

/// The path tables of an image.
#[derive(Debug, Clone, Copy)]
pub struct IsoPathTable {
    pub path_table: PathTableRef,
}

impl IsoPathTable {
    /// The block at which the table with the byte order `little` begins.
    pub open spec fn table_lba(&self, little: bool) -> int {
        if little {
            self.path_table.lpath_table_offset as int
        } else {
            self.path_table.mpath_table_offset as int
        }
    }

    /// Reads the entries of the little-endian table where `little` is set, and those of
    /// the big-endian table where it is not.
    pub fn entries_of(&self, data: &[u8], little: bool) -> (r: Result<Vec<PathTableEntry>, IsoError>)
        ensures
            r matches Ok(entries) ==> table_scan(
                data@,
                2048 * self.table_lba(little),
                self.path_table.size as int,
                0,
            ) matches Ok(places) && entries_stand(
                data@,
                places,
                entries@,
                if little {
                    EndianType::LittleEndian
                } else {
                    EndianType::BigEndian
                },
            ),
            r matches Err(e) ==> e == IsoError::IOFailed && (table_scan(
                data@,
                2048 * self.table_lba(little),
                self.path_table.size as int,
                0,
            ) is Err),
            r is Ok <==> table_scan(
                data@,
                2048 * self.table_lba(little),
                self.path_table.size as int,
                0,
            ) is Ok,
    {
        let total = data.len();
        let lba = if little {
            self.path_table.lpath_table_offset
        } else {
            self.path_table.mpath_table_offset
        };
        let endian = if little {
            EndianType::LittleEndian
        } else {
            EndianType::BigEndian
        };
        let size = self.path_table.size;
        let mut entries: Vec<PathTableEntry> = Vec::new();
        if size == 0 {
            return Ok(entries);
        }
        if lba > (total / 2048) as u64 {
            return Err(IsoError::IOFailed);
        }
        let base: usize = (lba as usize) * 2048;
        let ghost mut places: Seq<int> = Seq::empty();
        let mut idx: u64 = 0;
        assert(places + Seq::<int>::empty() =~= places);
        while idx < size
            invariant
                total == data@.len(),
                base == 2048 * self.table_lba(little),
                base <= total,
                size == self.path_table.size,
                endian == (if little {
                    EndianType::LittleEndian
                } else {
                    EndianType::BigEndian
                }),
                entries_stand(data@, places, entries@, endian),
                table_scan(data@, base as int, size as int, 0) == scan_join(
                    places,
                    table_scan(data@, base as int, size as int, idx as int),
                ),
            decreases size - idx,
        {
            if idx > (total - base) as u64 {
                return Err(IsoError::IOFailed);
            }
            let at: usize = base + idx as usize;
            let entry = match PathTableEntry::parse(data, at, endian) {
                Ok(entry) => entry,
                Err(e) => {
                    return Err(e);
                },
            };
            if entry.length == 0 {
                proof {
                    assert(entry.stands_at(data@, at as int, endian));
                    assert(data@[base + idx] == 0);
                    assert(path_entry_fits(data@, base + idx));
                    assert(table_scan(data@, base as int, size as int, idx as int) == Ok::<
                        Seq<int>,
                        IsoError,
                    >(Seq::empty()));
                    assert(places + Seq::<int>::empty() =~= places);
                }
                return Ok(entries);
            }
            let n = entry.length as u64;
            let span: u64 = 8 + n + n % 2;
            proof {
                let rest = table_scan(data@, base as int, size as int, idx + span);
                match rest {
                    Ok(more) => {
                        assert(places + (seq![at as int] + more) =~= places.push(at as int) + more);
                    },
                    Err(_) => {},
                }
            }
            let ghost old_entries = entries@;
            let ghost old_places = places;
            entries.push(entry);
            proof {
                places = places.push(at as int);
                assert forall|i: int| 0 <= i < entries@.len() implies (#[trigger] entries@[i]).stands_at(
                    data@,
                    places[i],
                    endian,
                ) by {
                    if i < old_entries.len() {
                        assert(entries@[i] == old_entries[i]);
                        assert(places[i] == old_places[i]);
                    }
                }
            }
            if size - idx <= span {
                let ghost next = idx + span;
                idx = size;
                assert(table_scan(data@, base as int, size as int, next) == Ok::<
                    Seq<int>,
                    IsoError,
                >(Seq::empty()));
            } else {
                idx = idx + span;
            }
        }
        assert(places + Seq::<int>::empty() =~= places);
        Ok(entries)
    }

    /// Reads the entries of the path table in the byte order of the machine: the
    /// little-endian table on a little-endian machine, the big-endian table on others.
    pub fn entries(&self, data: &[u8]) -> (r: Result<Vec<PathTableEntry>, IsoError>)
        ensures
            r matches Ok(entries) ==> table_scan(
                data@,
                2048 * self.table_lba(native_is_little()),
                self.path_table.size as int,
                0,
            ) matches Ok(places) && entries_stand(
                data@,
                places,
                entries@,
                if native_is_little() {
                    EndianType::LittleEndian
                } else {
                    EndianType::BigEndian
                },
            ),
            r matches Err(e) ==> e == IsoError::IOFailed,
            r is Ok <==> table_scan(
                data@,
                2048 * self.table_lba(native_is_little()),
                self.path_table.size as int,
                0,
            ) is Ok,
    {
        self.entries_of(data, host_is_little_endian())
    }
}

} // verus!
