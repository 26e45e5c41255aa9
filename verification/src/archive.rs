//! A WAD archive held in memory: its lump directory, its levels, and reading lumps.
use vstd::prelude::*;
use indexmap::IndexMap;
use crate::image::{le_u32, read_u32_le};
use crate::index_map::{index_map_contents, index_map_get, index_map_insert, index_map_new};
use crate::meta::WadMetadata;
use crate::name::{
    lemma_name_key_injective, lemma_name_len, name_key, name_result_view, spec_name_from_bytes,
    IntoWadName, NameError, WadName,
};

verus! {

/// The identifier an IWAD file starts with.
pub const IWAD_HEADER: [u8; 4] = [73u8, 87u8, 65u8, 68u8];

/// The name of the lump that follows each level's marker lump.
pub const THINGS_LUMP_NAME: [u8; 8] = [84u8, 72u8, 73u8, 78u8, 71u8, 83u8, 0u8, 0u8];

/// Why an archive could not be opened or a lump not read.
#[derive(Clone, Copy, Debug)]
pub enum ArchiveError {
    /// The file is shorter than the 12-byte header.
    MissingHeader,
    /// The file does not start with `IWAD`; these are its first four bytes.
    InvalidIdentifier(u8, u8, u8, u8),
    /// The directory offset is negative.
    DirectorySeekFailed,
    /// The directory entry of this lump is cut off or holds an invalid name.
    InvalidLumpInfo(usize),
    /// No lump has this index.
    LumpOutOfBounds(usize),
    /// A required lump is missing.
    MissingLump(WadName),
    /// A lump was asked for by something that is not a valid name.
    InvalidName(NameError),
    /// The lump's offset is negative.
    LumpSeekFailed(usize),
    /// The lump's size is zero or not a multiple of the element size.
    BadLumpSize { lump: usize, size: usize, element: usize },
    /// The file ends inside the lump.
    ReadFailed(usize),
    /// The file ends inside this element of the lump.
    BadElement { lump: usize, element: usize },
}

/// A directory entry: the lump's name, and its offset and size in bytes.
pub struct LumpEntry {
    pub name: Seq<u8>,
    pub file_pos: int,
    pub size: int,
}

/// What an archive is: the file's bytes, the lump directory, and for each level the index
/// of its marker lump.
pub struct ArchiveView {
    pub data: Seq<u8>,
    pub lumps: Seq<LumpEntry>,
    pub levels: Seq<usize>,
}

/// The signed 32-bit little-endian number at `b[i..i + 4]`.
pub open spec fn le_i32(b: Seq<u8>, i: int) -> int {
    if le_u32(b, i) >= 0x8000_0000 {
        le_u32(b, i) - 0x1_0000_0000
    } else {
        le_u32(b, i)
    }
}

/// The number of lumps the header announces.
pub open spec fn header_num_lumps(b: Seq<u8>) -> int {
    le_i32(b, 4)
}

/// Where the header says the directory starts.
pub open spec fn header_table(b: Seq<u8>) -> int {
    le_i32(b, 8)
}

/// The file has a header that starts with `IWAD`.
pub open spec fn header_ok(b: Seq<u8>) -> bool {
    &&& b.len() >= 12
    &&& b.subrange(0, 4) == IWAD_HEADER@
}

/// Where the directory entry of lump `i` starts.
pub open spec fn entry_pos(b: Seq<u8>, i: int) -> int {
    header_table(b) + 16 * i
}

/// The name that directory entry `i` holds, read as a name.
pub open spec fn entry_name(b: Seq<u8>, i: int) -> Result<Seq<u8>, NameError> {
    spec_name_from_bytes(b.subrange(entry_pos(b, i) + 8, entry_pos(b, i) + 16))
}

/// Directory entry `i` is in the file and holds a valid name.
pub open spec fn entry_ok(b: Seq<u8>, i: int) -> bool {
    &&& entry_pos(b, i) + 16 <= b.len()
    &&& entry_name(b, i) is Ok
}

/// Directory entry `i`: offset, size and name.
pub open spec fn entry_at(b: Seq<u8>, i: int) -> LumpEntry {
    LumpEntry {
        name: entry_name(b, i)->Ok_0,
        file_pos: le_i32(b, entry_pos(b, i)),
        size: le_i32(b, entry_pos(b, i) + 4),
    }
}

/// `i` is the first directory entry that is cut off or holds an invalid name.
pub open spec fn first_bad_entry(b: Seq<u8>, i: int) -> bool {
    &&& 0 <= i < header_num_lumps(b)
    &&& !entry_ok(b, i)
    &&& forall|j: int| 0 <= j < i ==> entry_ok(b, j)
}

/// All directory entries are in the file and hold valid names.
pub open spec fn all_entries_ok(b: Seq<u8>) -> bool {
    forall|j: int| 0 <= j < header_num_lumps(b) ==> entry_ok(b, j)
}

/// The directory of a file whose entries are all valid.
pub open spec fn spec_directory(b: Seq<u8>) -> Seq<LumpEntry> {
    Seq::new(header_num_lumps(b) as nat, |i: int| entry_at(b, i))
}

/// Whether a name is the `THINGS` lump name.
pub open spec fn is_things(name: Seq<u8>) -> bool {
    name == THINGS_LUMP_NAME@
}

/// The level markers among the first `n` lumps: each lump before a `THINGS` lump.
pub open spec fn levels_upto(lumps: Seq<LumpEntry>, n: int) -> Seq<usize>
    decreases n,
{
    if n <= 0 {
        Seq::empty()
    } else if is_things(lumps[n - 1].name) {
        levels_upto(lumps, n - 1).push((n - 2) as usize)
    } else {
        levels_upto(lumps, n - 1)
    }
}

/// For each name among the first `n` lumps, the index of its last lump.
pub open spec fn lump_index_upto(lumps: Seq<LumpEntry>, n: int) -> Map<u64, usize>
    decreases n,
{
    if n <= 0 {
        Map::empty()
    } else {
        lump_index_upto(lumps, n - 1).insert(name_key(lumps[n - 1].name), (n - 1) as usize)
    }
}

/// The inputs on which opening a file does not complete: the header announces a
/// negative number of lumps, or the first lump is a `THINGS` lump, which has no level
/// marker before it.
pub open spec fn open_wad_panics(b: Seq<u8>) -> bool {
    &&& header_ok(b)
    &&& {
        ||| header_num_lumps(b) < 0
        ||| {
            &&& header_table(b) >= 0
            &&& header_num_lumps(b) >= 1
            &&& entry_ok(b, 0)
            &&& is_things(entry_at(b, 0).name)
        }
    }
}

/// `k` is the last lump named `name`.
pub open spec fn last_named(lumps: Seq<LumpEntry>, name: Seq<u8>, k: int) -> bool {
    &&& 0 <= k < lumps.len()
    &&& lumps[k].name == name
    &&& forall|j: int| k < j < lumps.len() ==> lumps[j].name != name
}

/// A lump's directory data.
#[derive(Clone, Copy)]
struct LumpInfo {
    name: WadName,
    file_pos: i32,
    size: i32,
}

impl LumpInfo {
    spec fn entry(self) -> LumpEntry {
        LumpEntry { name: self.name@, file_pos: self.file_pos as int, size: self.size as int }
    }
}

/// A WAD file held in memory, with its lump directory, its levels and its metadata.
pub struct Archive {
    data: Vec<u8>,
    index_map: IndexMap<u64, usize>,
    lumps: Vec<LumpInfo>,
    levels: Vec<usize>,
    meta: WadMetadata,
}

spec fn entries(lumps: Seq<LumpInfo>) -> Seq<LumpEntry> {
    lumps.map_values(|l: LumpInfo| l.entry())
}

impl View for Archive {
    type V = ArchiveView;

    closed spec fn view(&self) -> ArchiveView {
        ArchiveView { data: self.data@, lumps: entries(self.lumps@), levels: self.levels@ }
    }
}

proof fn lemma_lump_index_upto(lumps: Seq<LumpEntry>, n: int)
    requires
        0 <= n <= lumps.len(),
        lumps.len() <= usize::MAX,
        forall|j: int| 0 <= j < lumps.len() ==> (#[trigger] lumps[j]).name.len() == 8,
    ensures
        forall|name: Seq<u8>|
            name.len() == 8 ==> (#[trigger] lump_index_upto(lumps, n).contains_key(name_key(name))
                <==> exists|j: int| 0 <= j < n && lumps[j].name == name),
        forall|name: Seq<u8>|
            name.len() == 8 && #[trigger] lump_index_upto(lumps, n).contains_key(name_key(name)) ==> {
                let k = lump_index_upto(lumps, n)[name_key(name)] as int;
                &&& 0 <= k < n
                &&& lumps[k].name == name
                &&& forall|j: int| k < j < n ==> lumps[j].name != name
            },
    decreases n,
{
    if n > 0 {
        lemma_lump_index_upto(lumps, n - 1);
        let m = lump_index_upto(lumps, n);
        let p = lump_index_upto(lumps, n - 1);
        let last = lumps[n - 1].name;
        assert(last.len() == 8);
        assert forall|name: Seq<u8>| name.len() == 8 implies (#[trigger] m.contains_key(name_key(name))
            <==> exists|j: int| 0 <= j < n && lumps[j].name == name) && (m.contains_key(name_key(name)) ==> {
                let k = m[name_key(name)] as int;
                &&& 0 <= k < n
                &&& lumps[k].name == name
                &&& forall|j: int| k < j < n ==> lumps[j].name != name
            }) by {
            lemma_name_key_injective(name, last);
            if name == last {
                assert(m.contains_key(name_key(name)));
                assert(m[name_key(name)] == (n - 1) as usize);
                assert(lumps[n - 1].name == name);
            } else {
                assert(name_key(name) != name_key(last));
                assert(m.contains_key(name_key(name)) == p.contains_key(name_key(name)));
                if exists|j: int| 0 <= j < n && lumps[j].name == name {
                    let j = choose|j: int| 0 <= j < n && lumps[j].name == name;
                    assert(j < n - 1);
                    assert(p.contains_key(name_key(name)));
                }
                if p.contains_key(name_key(name)) {
                    assert(m[name_key(name)] == p[name_key(name)]);
                    let k = p[name_key(name)] as int;
                    assert forall|j: int| k < j < n implies lumps[j].name != name by {
                        if j == n - 1 {
                            assert(lumps[j].name == last);
                        }
                    }
                }
            }
        }
    }
}

proof fn lemma_levels_upto_bound(lumps: Seq<LumpEntry>, n: int)
    requires
        0 <= n <= lumps.len(),
        lumps.len() <= usize::MAX,
        n >= 1 ==> !is_things(lumps[0].name),
    ensures
        forall|i: int| 0 <= i < levels_upto(lumps, n).len() ==> #[trigger] levels_upto(lumps, n)[i] < n,
    decreases n,
{
    if n > 0 {
        lemma_levels_upto_bound(lumps, n - 1);
        let prev = levels_upto(lumps, n - 1);
        let cur = levels_upto(lumps, n);
        if is_things(lumps[n - 1].name) {
            assert(n >= 2);
            assert forall|i: int| 0 <= i < cur.len() implies #[trigger] cur[i] < n by {
                if i < prev.len() {
                    assert(cur[i] == prev[i]);
                }
            }
        }
    }
}

/// Every level's marker lump is directly followed by a `THINGS` lump.
pub proof fn law_level_markers_precede_things(lumps: Seq<LumpEntry>, n: int)
    requires
        0 <= n <= lumps.len(),
        lumps.len() <= usize::MAX,
        n >= 1 ==> !is_things(lumps[0].name),
    ensures
        forall|k: int|
            0 <= k < levels_upto(lumps, n).len() ==> {
                let m = #[trigger] levels_upto(lumps, n)[k] as int;
                &&& m + 1 < n
                &&& is_things(lumps[m + 1].name)
            },
    decreases n,
{
    if n > 0 {
        law_level_markers_precede_things(lumps, n - 1);
        let prev = levels_upto(lumps, n - 1);
        let cur = levels_upto(lumps, n);
        if is_things(lumps[n - 1].name) {
            assert(n >= 2);
            assert forall|k: int| 0 <= k < cur.len() implies {
                let m = #[trigger] cur[k] as int;
                &&& m + 1 < n
                &&& is_things(lumps[m + 1].name)
            } by {
                if k < prev.len() {
                    assert(cur[k] == prev[k]);
                } else {
                    assert(cur[k] == (n - 2) as usize);
                }
            }
        }
    }
}

impl Archive {
    #[verifier::type_invariant]
    closed spec fn inv(&self) -> bool {
        &&& index_map_contents(self.index_map) == lump_index_upto(entries(self.lumps@), self.lumps@.len() as int)
        &&& self.levels@ == levels_upto(entries(self.lumps@), self.lumps@.len() as int)
        &&& forall|i: int| 0 <= i < self.levels@.len() ==> #[trigger] self.levels@[i] < self.lumps@.len()
        &&& self.meta.wf()
    }

    /// The metadata the archive was opened with.
    pub closed spec fn meta(&self) -> WadMetadata {
        self.meta
    }

    /// The archive's metadata.
    pub fn metadata(&self) -> (r: &WadMetadata)
        ensures
            *r == self.meta(),
            r.wf(),
    {
        proof {
            use_type_invariant(self);
        }
        &self.meta
    }

    /// The number of levels.
    pub fn num_levels(&self) -> (r: usize)
        ensures
            r == self@.levels.len(),
    {
        self.levels.len()
    }

    /// The reader of the lump at `index`; fails when there is no such lump.
    pub fn lump_by_index(&self, index: usize) -> (r: Result<LumpReader<'_>, ArchiveError>)
        ensures
            index >= self@.lumps.len() ==> (r matches Err(ArchiveError::LumpOutOfBounds(i)) && i == index),
            index < self@.lumps.len() ==> (r matches Ok(lr) && lr@ == reader_of(self@, index as int)),
    {
        if index >= self.lumps.len() {
            return Err(ArchiveError::LumpOutOfBounds(index));
        }
        Ok(LumpReader { archive: self, info: self.lumps[index], index })
    }

    /// The reader of level `level_index`'s marker lump.
    pub fn level_lump(&self, level_index: usize) -> (r: Result<LumpReader<'_>, ArchiveError>)
        requires
            level_index < self@.levels.len(),
        ensures
            r matches Ok(lr) && lr@ == reader_of(self@, self@.levels[level_index as int] as int),
    {
        proof {
            use_type_invariant(self);
        }
        self.lump_by_index(self.levels[level_index])
    }

    /// The reader of the last lump named `name`, if any.
    pub fn named_lump(&self, name: &WadName) -> (r: Result<Option<LumpReader<'_>>, ArchiveError>)
        ensures
            r is Ok,
            r matches Ok(None) ==> forall|j: int| 0 <= j < self@.lumps.len() ==> self@.lumps[j].name != name@,
            r matches Ok(Some(lr)) ==> last_named(self@.lumps, name@, lr@.index) && lr@ == reader_of(self@, lr@.index),
    {
        let _n = self.lumps.len();
        proof {
            use_type_invariant(self);
            lemma_name_len(*name);
            assert forall|j: int| 0 <= j < entries(self.lumps@).len() implies (#[trigger] entries(self.lumps@)[j]).name.len() == 8 by {
                lemma_name_len(self.lumps@[j].name);
            }
            lemma_lump_index_upto(entries(self.lumps@), self.lumps@.len() as int);
        }
        match index_map_get(&self.index_map, name.key()) {
            Some(index) => {
                let lr = LumpReader { archive: self, info: self.lumps[index], index };
                Ok(Some(lr))
            },
            None => Ok(None),
        }
    }

    /// The reader of the last lump of the given name; fails when the name is not a valid
    /// name or no lump has it.
    pub fn required_named_lump<N: IntoWadName>(&self, name: N) -> (r: Result<LumpReader<'_>, ArchiveError>)
        ensures
            name.spec_into_wad_name() matches Err(e) ==> (r matches Err(ArchiveError::InvalidName(e2)) && e2 == e),
            name.spec_into_wad_name() matches Ok(n) ==> {
                &&& (forall|j: int| 0 <= j < self@.lumps.len() ==> self@.lumps[j].name != n) ==> (r matches Err(ArchiveError::MissingLump(m)) && m@ == n)
                &&& (exists|j: int| 0 <= j < self@.lumps.len() && self@.lumps[j].name == n) ==> (r matches Ok(lr)
                    && last_named(self@.lumps, n, lr@.index) && lr@ == reader_of(self@, lr@.index))
            },
    {
        let name = match name.into_wad_name() {
            Ok(n) => n,
            Err(e) => {
                return Err(ArchiveError::InvalidName(e));
            },
        };
        match self.named_lump(&name) {
            Ok(Some(lr)) => Ok(lr),
            Ok(None) => Err(ArchiveError::MissingLump(name)),
            Err(e) => Err(e),
        }
    }

    /// Whether `open` can be called on these bytes, that is, whether they are not among
    /// the inputs on which opening does not complete.
    pub fn can_open(data: &[u8]) -> (r: bool)
        ensures
            r == !open_wad_panics(data@),
    {
        let len = data.len();
        if len < 12 || data[0] != 73 || data[1] != 87 || data[2] != 65 || data[3] != 68 {
            proof {
                if len >= 12 {
                    assert(data@.subrange(0, 4)[0] == data@[0]);
                    assert(data@.subrange(0, 4)[1] == data@[1]);
                    assert(data@.subrange(0, 4)[2] == data@[2]);
                    assert(data@.subrange(0, 4)[3] == data@[3]);
                }
            }
            return true;
        }
        assert(data@.subrange(0, 4) =~= IWAD_HEADER@);
        let num_lumps = read_i32_le(data, 4);
        if num_lumps < 0 {
            return false;
        }
        let table = read_i32_le(data, 8);
        if table < 0 || num_lumps == 0 {
            return true;
        }
        let t = table as usize;
        if len < 16 || t > len - 16 {
            return true;
        }
        match WadName::from_bytes(slice_range(data, t + 8, t + 16)) {
            Ok(name) => !name.eq_bytes(&THINGS_LUMP_NAME),
            Err(_) => true,
        }
    }

    /// Opens a WAD held in memory: reads the header and the lump directory, indexes the
    /// lumps by name (the last lump of a name wins) and finds the levels, one before each
    /// `THINGS` lump.
    pub fn open(data: Vec<u8>, meta: WadMetadata) -> (r: Result<Archive, ArchiveError>)
        requires
            !open_wad_panics(data@),
            meta.wf(),
        ensures
            data@.len() < 12 ==> r matches Err(ArchiveError::MissingHeader),
            data@.len() >= 12 && !header_ok(data@) ==> (r matches Err(ArchiveError::InvalidIdentifier(a, b, c, d))
                && a == data@[0] && b == data@[1] && c == data@[2] && d == data@[3]),
            header_ok(data@) && header_table(data@) < 0 ==> r matches Err(ArchiveError::DirectorySeekFailed),
            header_ok(data@) && header_table(data@) >= 0 && !all_entries_ok(data@) ==> (r matches Err(ArchiveError::InvalidLumpInfo(i)) && first_bad_entry(data@, i as int)),
            header_ok(data@) && header_table(data@) >= 0 && all_entries_ok(data@) ==> (r matches Ok(a) && a@ == (ArchiveView {
                data: data@,
                lumps: spec_directory(data@),
                levels: levels_upto(spec_directory(data@), header_num_lumps(data@)),
            }) && a.meta() == meta),
    {
        let len = data.len();
        if len < 12 {
            return Err(ArchiveError::MissingHeader);
        }
        if data[0] != 73 || data[1] != 87 || data[2] != 65 || data[3] != 68 {
            proof {
                assert(data@.subrange(0, 4)[0] == data@[0]);
                assert(data@.subrange(0, 4)[1] == data@[1]);
                assert(data@.subrange(0, 4)[2] == data@[2]);
                assert(data@.subrange(0, 4)[3] == data@[3]);
            }
            return Err(ArchiveError::InvalidIdentifier(data[0], data[1], data[2], data[3]));
        }
        assert(data@.subrange(0, 4) =~= IWAD_HEADER@);
        let num_lumps = read_i32_le(data.as_slice(), 4);
        let table = read_i32_le(data.as_slice(), 8);
        if table < 0 {
            return Err(ArchiveError::DirectorySeekFailed);
        }
        let n = num_lumps as usize;
        let t = table as usize;
        let mut index_map = index_map_new();
        let mut lumps: Vec<LumpInfo> = Vec::new();
        let mut levels: Vec<usize> = Vec::new();
        let mut i: usize = 0;
        proof {
            assert(index_map_contents(index_map) =~= lump_index_upto(entries(lumps@), 0));
            assert(entries(lumps@) =~= spec_directory(data@).take(0));
        }
        while i < n
            invariant
                len == data@.len(),
                header_ok(data@),
                !open_wad_panics(data@),
                n == header_num_lumps(data@),
                t == header_table(data@),
                0 <= i <= n,
                lumps@.len() == i,
                forall|j: int| 0 <= j < i ==> entry_ok(data@, j),
                entries(lumps@) == spec_directory(data@).take(i as int),
                index_map_contents(index_map) == lump_index_upto(entries(lumps@), i as int),
                levels@ == levels_upto(entries(lumps@), i as int),
            decreases n - i,
        {
            if t > len || (len - t) / 16 <= i {
                assert(!entry_ok(data@, i as int));
                return Err(ArchiveError::InvalidLumpInfo(i));
            }
            let pos = t + 16 * i;
            let file_pos = read_i32_le(data.as_slice(), pos);
            let size = read_i32_le(data.as_slice(), pos + 4);
            let name = match WadName::from_bytes(slice_range(data.as_slice(), pos + 8, pos + 16)) {
                Ok(name) => name,
                Err(_) => {
                    assert(!entry_ok(data@, i as int));
                    return Err(ArchiveError::InvalidLumpInfo(i));
                },
            };
            let key = name.key();
            index_map_insert(&mut index_map, key, lumps.len());
            let info = LumpInfo { name, file_pos, size };
            let ghost old_entries = entries(lumps@);
            lumps.push(info);
            proof {
                lemma_name_len(name);
                assert(entry_ok(data@, i as int));
                assert(info.entry() =~= entry_at(data@, i as int));
                assert(entries(lumps@) =~= old_entries.push(info.entry()));
                assert(entries(lumps@) =~= spec_directory(data@).take(i + 1));
                assert(entries(lumps@).take(i as int) =~= old_entries);
                assert(lump_index_upto(entries(lumps@), i as int) == lump_index_upto(old_entries, i as int)) by {
                    lemma_lump_index_prefix(entries(lumps@), old_entries, i as int);
                }
                assert(levels_upto(entries(lumps@), i as int) == levels_upto(old_entries, i as int)) by {
                    lemma_levels_prefix(entries(lumps@), old_entries, i as int);
                }
            }
            if name.eq_bytes(&THINGS_LUMP_NAME) {
                proof {
                    if i == 0 {
                        assert(is_things(entry_at(data@, 0).name));
                    }
                }
                levels.push(i - 1);
            }
            i = i + 1;
        }
        let ghost dir = spec_directory(data@);
        proof {
            assert(entries(lumps@) =~= dir);
            lemma_levels_upto_bound(dir, n as int);
        }
        let a = Archive { data, index_map, lumps, levels, meta };
        Ok(a)
    }
}

/// What a lump reader is: the lump's index and directory entry, and the file's bytes.
pub struct LumpReaderView {
    pub index: int,
    pub entry: LumpEntry,
    pub data: Seq<u8>,
}

/// Reads one lump of an archive.
#[derive(Clone, Copy)]
pub struct LumpReader<'a> {
    archive: &'a Archive,
    info: LumpInfo,
    index: usize,
}

impl<'a> View for LumpReader<'a> {
    type V = LumpReaderView;

    closed spec fn view(&self) -> LumpReaderView {
        LumpReaderView { index: self.index as int, entry: self.info.entry(), data: self.archive.data@ }
    }
}

/// How many of the `want` bytes from `file_pos` on the file holds.
pub open spec fn available(data: Seq<u8>, file_pos: int, want: int) -> int {
    if file_pos >= data.len() {
        0
    } else if data.len() - file_pos < want {
        data.len() - file_pos
    } else {
        want
    }
}

/// The reader of lump `index` of an archive.
pub open spec fn reader_of(a: ArchiveView, index: int) -> LumpReaderView {
    LumpReaderView { index, entry: a.lumps[index], data: a.data }
}

/// Reading the lump's bytes completes: its offset is negative (reading stops there) or
/// its size is not.
pub open spec fn read_completes(v: LumpReaderView) -> bool {
    v.entry.file_pos < 0 || v.entry.size >= 0
}

/// The size, as the unsigned machine word it is taken as when framing elements.
pub open spec fn size_word(v: LumpReaderView) -> int {
    (v.entry.size as usize) as int
}

/// Splitting the lump into `element`-byte pieces completes: the offset is negative, or the
/// size is not, or the size is not a whole number of pieces.
pub open spec fn blobs_complete(v: LumpReaderView, element: int) -> bool {
    v.entry.file_pos < 0 || v.entry.size >= 0 || size_word(v) % element != 0
}

/// The `n` bytes of `data` from `start` on.
pub open spec fn bytes_from(data: Seq<u8>, start: int, n: int) -> Seq<u8> {
    Seq::new(n as nat, |k: int| data[start + k])
}

/// The contents of each vector of bytes.
pub open spec fn views(v: Seq<Vec<u8>>) -> Seq<Seq<u8>> {
    v.map_values(|b: Vec<u8>| b@)
}

/// The `n` pieces of `element` bytes each that follow `start` in `data`.
pub open spec fn pieces(data: Seq<u8>, start: int, element: int, n: int) -> Seq<Seq<u8>> {
    Seq::new(n as nat, |j: int| data.subrange(start + j * element, start + j * element + element))
}

impl<'a> LumpReader<'a> {
    /// The lump's index in the directory.
    pub fn index(&self) -> (r: usize)
        ensures
            r == self@.index,
    {
        self.index
    }

    /// The lump's name.
    pub fn name(&self) -> (r: WadName)
        ensures
            r@ == self@.entry.name,
    {
        self.info.name
    }

    /// Whether the lump is empty, as level marker lumps are.
    pub fn is_virtual(&self) -> (r: bool)
        ensures
            r == (self@.entry.size == 0),
    {
        self.info.size == 0
    }

    /// Whether reading the lump's bytes completes (see `read_completes`).
    pub fn can_read(&self) -> (r: bool)
        ensures
            r == read_completes(self@),
    {
        self.info.file_pos < 0 || self.info.size >= 0
    }

    /// Appends the lump's bytes to `bytes`. When the file ends inside the lump, the bytes
    /// it holds are appended, then zeros up to the lump's size, and the read fails.
    pub fn read_bytes_into(&self, bytes: &mut Vec<u8>) -> (r: Result<(), ArchiveError>)
        requires
            read_completes(self@),
            self@.entry.file_pos >= 0 ==> old(bytes)@.len() + self@.entry.size <= usize::MAX,
        ensures
            self@.entry.file_pos < 0 ==> (r matches Err(ArchiveError::LumpSeekFailed(i)) && i == self@.index && final(bytes)@ == old(bytes)@),
            self@.entry.file_pos >= 0 ==> {
                let av = available(self@.data, self@.entry.file_pos, self@.entry.size);
                &&& final(bytes)@ == old(bytes)@ + bytes_from(self@.data, self@.entry.file_pos, av)
                    + Seq::new((self@.entry.size - av) as nat, |k: int| 0u8)
                &&& (r is Ok <==> av == self@.entry.size)
                &&& (r is Err ==> (r matches Err(ArchiveError::ReadFailed(i)) && i == self@.index))
            },
    {
        if self.info.file_pos < 0 {
            return Err(ArchiveError::LumpSeekFailed(self.index));
        }
        let data = self.archive.data.as_slice();
        let len = data.len();
        let fp = self.info.file_pos as usize;
        let size = self.info.size as usize;
        let av: usize = if fp >= len {
            0
        } else if len - fp < size {
            len - fp
        } else {
            size
        };
        let ghost start = bytes@;
        let mut k: usize = 0;
        assert(bytes@ =~= start + bytes_from(data@, fp as int, k as int));
        while k < av
            invariant
                0 <= k <= av <= size,
                av == 0 || fp + av <= len,
                len == data@.len(),
                bytes@ == start + bytes_from(data@, fp as int, k as int),
                start.len() + size <= usize::MAX,
            decreases av - k,
        {
            bytes.push(data[fp + k]);
            k = k + 1;
            assert(bytes@ =~= start + bytes_from(data@, fp as int, k as int));
        }
        let ghost mid = bytes@;
        while k < size
            invariant
                av <= k <= size,
                mid.len() == start.len() + av,
                bytes@ == mid + Seq::new((k - av) as nat, |j: int| 0u8),
                start.len() + size <= usize::MAX,
            decreases size - k,
        {
            bytes.push(0u8);
            k = k + 1;
            assert(bytes@ =~= mid + Seq::new((k - av) as nat, |j: int| 0u8));
        }
        if av == size {
            Ok(())
        } else {
            Err(ArchiveError::ReadFailed(self.index))
        }
    }

    /// The lump's bytes; fails when the file ends inside the lump.
    pub fn read_bytes(&self) -> (r: Result<Vec<u8>, ArchiveError>)
        requires
            read_completes(self@),
        ensures
            self@.entry.file_pos < 0 ==> (r matches Err(ArchiveError::LumpSeekFailed(i)) && i == self@.index),
            self@.entry.file_pos >= 0 && available(self@.data, self@.entry.file_pos, self@.entry.size) == self@.entry.size
                ==> (r matches Ok(v) && v@ == bytes_from(self@.data, self@.entry.file_pos, self@.entry.size)),
            self@.entry.file_pos >= 0 && available(self@.data, self@.entry.file_pos, self@.entry.size) != self@.entry.size
                ==> (r matches Err(ArchiveError::ReadFailed(i)) && i == self@.index),
    {
        let mut bytes: Vec<u8> = Vec::new();
        match self.read_bytes_into(&mut bytes) {
            Ok(()) => {
                proof {
                    assert(bytes@ =~= bytes_from(self@.data, self@.entry.file_pos, self@.entry.size));
                }
                Ok(bytes)
            },
            Err(e) => Err(e),
        }
    }

    /// The lump cut into pieces of `blob_size` bytes. Fails when the size is zero or not a
    /// whole number of pieces, or when the file ends inside the lump.
    pub fn read_blobs(&self, blob_size: usize) -> (r: Result<Vec<Vec<u8>>, ArchiveError>)
        requires
            blob_size > 0,
            blobs_complete(self@, blob_size as int),
        ensures
            self@.entry.file_pos < 0 ==> (r matches Err(ArchiveError::LumpSeekFailed(i)) && i == self@.index),
            self@.entry.file_pos >= 0 && !(self@.entry.size > 0 && self@.entry.size % (blob_size as int) == 0)
                ==> (r matches Err(ArchiveError::BadLumpSize { lump, size, element }) && lump == self@.index
                    && size == size_word(self@) && element == blob_size),
            self@.entry.file_pos >= 0 && self@.entry.size > 0 && self@.entry.size % (blob_size as int) == 0 ==> {
                let av = available(self@.data, self@.entry.file_pos, self@.entry.size);
                &&& av < self@.entry.size ==> (r matches Err(ArchiveError::ReadFailed(i)) && i == self@.index)
                &&& av == self@.entry.size ==> (r matches Ok(v) && views(v@) == pieces(
                    self@.data,
                    self@.entry.file_pos,
                    blob_size as int,
                    self@.entry.size / (blob_size as int),
                ))
            },
    {
        if self.info.file_pos < 0 {
            return Err(ArchiveError::LumpSeekFailed(self.index));
        }
        let size_word = self.info.size as usize;
        if self.info.size <= 0 || size_word % blob_size != 0 {
            return Err(ArchiveError::BadLumpSize { lump: self.index, size: size_word, element: blob_size });
        }
        match self.split(blob_size) {
            Some(v) => Ok(v),
            None => Err(ArchiveError::ReadFailed(self.index)),
        }
    }

    /// The lump framed into elements of `element_size` bytes, to be decoded one by one.
    /// Fails when the size (taken as a machine word) is zero or not a whole number of
    /// elements, or, naming the first element it holds only in part, when the file ends
    /// inside the lump.
    pub fn decode_vec(&self, element_size: usize) -> (r: Result<Vec<Vec<u8>>, ArchiveError>)
        requires
            element_size > 0,
        ensures
            self@.entry.file_pos < 0 ==> (r matches Err(ArchiveError::LumpSeekFailed(i)) && i == self@.index),
            self@.entry.file_pos >= 0 && !(size_word(self@) > 0 && size_word(self@) % (element_size as int) == 0)
                ==> (r matches Err(ArchiveError::BadLumpSize { lump, size, element }) && lump == self@.index
                    && size == size_word(self@) && element == element_size),
            self@.entry.file_pos >= 0 && size_word(self@) > 0 && size_word(self@) % (element_size as int) == 0 ==> {
                let av = available(self@.data, self@.entry.file_pos, size_word(self@));
                &&& av < size_word(self@) ==> (r matches Err(ArchiveError::BadElement { lump, element }) && lump == self@.index
                    && element == av / (element_size as int))
                &&& av == size_word(self@) ==> (r matches Ok(v) && views(v@) == pieces(
                    self@.data,
                    self@.entry.file_pos,
                    element_size as int,
                    size_word(self@) / (element_size as int),
                ))
            },
    {
        if self.info.file_pos < 0 {
            return Err(ArchiveError::LumpSeekFailed(self.index));
        }
        let size_word = self.info.size as usize;
        if size_word == 0 || size_word % element_size != 0 {
            return Err(ArchiveError::BadLumpSize { lump: self.index, size: size_word, element: element_size });
        }
        let data = self.archive.data.as_slice();
        let len = data.len();
        let fp = self.info.file_pos as usize;
        if fp >= len || len - fp < size_word {
            let av: usize = if fp >= len {
                0
            } else {
                len - fp
            };
            return Err(ArchiveError::BadElement { lump: self.index, element: av / element_size });
        }
        match self.split(element_size) {
            Some(v) => Ok(v),
            None => Err(ArchiveError::ReadFailed(self.index)),
        }
    }

    /// The lump cut into pieces of `piece` bytes, when the file holds all of it.
    fn split(&self, piece: usize) -> (r: Option<Vec<Vec<u8>>>)
        requires
            piece > 0,
            self@.entry.file_pos >= 0,
            size_word(self@) > 0,
            size_word(self@) % (piece as int) == 0,
        ensures
            available(self@.data, self@.entry.file_pos, size_word(self@)) < size_word(self@) ==> r is None,
            available(self@.data, self@.entry.file_pos, size_word(self@)) == size_word(self@) ==> (r matches Some(v)
                && views(v@) == pieces(
                    self@.data,
                    self@.entry.file_pos,
                    piece as int,
                    size_word(self@) / (piece as int),
                )),
    {
        let data = self.archive.data.as_slice();
        let len = data.len();
        let fp = self.info.file_pos as usize;
        let size = self.info.size as usize;
        if fp >= len || len - fp < size {
            return None;
        }
        let n = size / piece;
        proof {
            vstd::arithmetic::div_mod::lemma_fundamental_div_mod(size as int, piece as int);
            assert(n * piece == size) by (nonlinear_arith)
                requires
                    size == piece * (size / piece) + size % piece,
                    size % piece == 0,
                    n == size / piece,
            ;
        }
        let mut out: Vec<Vec<u8>> = Vec::new();
        let mut j: usize = 0;
        let mut off: usize = fp;
        while j < n
            invariant
                len == data@.len(),
                fp + size <= len,
                n * piece == size,
                piece > 0,
                0 <= j <= n,
                out@.len() == j,
                off == fp + j * piece,
                views(out@) == pieces(data@, fp as int, piece as int, j as int),
            decreases n - j,
        {
            proof {
                assert(j * piece + piece <= n * piece) by (nonlinear_arith)
                    requires
                        j < n,
                        piece > 0,
                ;
            }
            let chunk = copy_range(data, off, piece);
            let ghost prev = out@;
            out.push(chunk);
            proof {
                assert((j + 1) * piece == j * piece + piece) by (nonlinear_arith);
            }
            j = j + 1;
            off = off + piece;
            assert(views(out@) =~= pieces(data@, fp as int, piece as int, j as int)) by {
                assert(out@ == prev.push(chunk));
                assert forall|i: int| 0 <= i < j implies #[trigger] views(out@)[i]
                    == pieces(data@, fp as int, piece as int, j as int)[i] by {
                    if i < j - 1 {
                        assert(out@[i] == prev[i]);
                        assert(views(prev)[i] == pieces(data@, fp as int, piece as int, (j - 1) as int)[i]);
                    }
                }
            }
        }
        Some(out)
    }
}

/// A copy of the `n` bytes at `data[start..]`.
fn copy_range(data: &[u8], start: usize, n: usize) -> (r: Vec<u8>)
    requires
        start + n <= data@.len(),
    ensures
        r@ == data@.subrange(start as int, start + n),
{
    let _len = data.len();
    let mut v: Vec<u8> = Vec::new();
    let mut k: usize = 0;
    assert(v@ =~= data@.subrange(start as int, start + k));
    while k < n
        invariant
            start + n <= data@.len(),
            _len == data@.len(),
            0 <= k <= n,
            v@ == data@.subrange(start as int, start + k),
        decreases n - k,
    {
        v.push(data[start + k]);
        k = k + 1;
        assert(v@ =~= data@.subrange(start as int, start + k));
    }
    v
}

/// Reads the signed 32-bit little-endian number at `buf[pos..pos + 4]`.
fn read_i32_le(buf: &[u8], pos: usize) -> (r: i32)
    requires
        pos + 4 <= buf@.len(),
    ensures
        r == le_i32(buf@, pos as int),
{
    let u = read_u32_le(buf, pos);
    if u >= 0x8000_0000 {
        (u as i64 - 0x1_0000_0000) as i32
    } else {
        u as i32
    }
}

/// The bytes `buf[start..end]`.
fn slice_range(buf: &[u8], start: usize, end: usize) -> (r: &[u8])
    requires
        start <= end <= buf@.len(),
    ensures
        r@ == buf@.subrange(start as int, end as int),
{
    &buf[start..end]
}

proof fn lemma_lump_index_prefix(a: Seq<LumpEntry>, b: Seq<LumpEntry>, n: int)
    requires
        0 <= n <= a.len(),
        0 <= n <= b.len(),
        forall|j: int| 0 <= j < n ==> a[j] == b[j],
    ensures
        lump_index_upto(a, n) == lump_index_upto(b, n),
    decreases n,
{
    if n > 0 {
        lemma_lump_index_prefix(a, b, n - 1);
    }
}

proof fn lemma_levels_prefix(a: Seq<LumpEntry>, b: Seq<LumpEntry>, n: int)
    requires
        0 <= n <= a.len(),
        0 <= n <= b.len(),
        forall|j: int| 0 <= j < n ==> a[j] == b[j],
    ensures
        levels_upto(a, n) == levels_upto(b, n),
    decreases n,
{
    if n > 0 {
        lemma_levels_prefix(a, b, n - 1);
    }
}

} // verus!
