//! Archives and their indices: loading the indices, finding a key in them, and
//! the requests that fetch a file.

use vstd::prelude::*;
use vstd::slice::*;
use vstd::string::*;
use vstd::utf8::*;

use crate::cdn::{data_url, has_shards, CdnSession};
use crate::error::Error;
use crate::hexcode;
use crate::paths::join;
use crate::text::{decimal_text, text_from_utf8};

verus! {

/// What is read of a parsed archive index.
#[derive(Debug)]
pub struct ArchiveEntry {
    /// The hash that names the archive.
    pub hash: String,
    /// How many bytes of a key the index stores.
    pub ekey_length: u8,
}

/// The mathematical content of an [`ArchiveEntry`].
pub struct EntryView {
    pub hash: Seq<char>,
    pub ekey_length: nat,
}

impl View for ArchiveEntry {
    type V = EntryView;

    open spec fn view(&self) -> EntryView {
        EntryView { hash: self.hash@, ekey_length: self.ekey_length as nat }
    }
}

/// The views of a list of entries.
pub open spec fn entry_views(entries: Seq<ArchiveEntry>) -> Seq<EntryView> {
    entries.map_values(|e: ArchiveEntry| e@)
}

/// Where in its archive an index places a key.
#[derive(Debug, Clone, Copy)]
pub struct IndexHit {
    pub offset: u64,
    pub size: u32,
}

/// Where a file is stored.
#[derive(Debug)]
pub struct ArchiveLocation {
    /// The hash that names the archive.
    pub archive_hash: String,
    /// The first byte of the file in the archive.
    pub offset: u64,
    /// The number of bytes.
    pub size: u32,
}

/// The mathematical content of an [`ArchiveLocation`].
pub struct LocationView {
    pub archive_hash: Seq<char>,
    pub offset: u64,
    pub size: u32,
}

impl View for ArchiveLocation {
    type V = LocationView;

    open spec fn view(&self) -> LocationView {
        LocationView { archive_hash: self.archive_hash@, offset: self.offset, size: self.size }
    }
}

/// The archives of a build, in the order in which they are searched.
#[derive(Debug)]
pub struct ArchiveManager {
    entries: Vec<ArchiveEntry>,
}

impl View for ArchiveManager {
    type V = Seq<EntryView>;

    closed spec fn view(&self) -> Seq<EntryView> {
        entry_views(self.entries@)
    }
}

/// The part of a key that an index of keys of `n` bytes stores.
pub open spec fn truncated(key: Seq<u8>, n: nat) -> Seq<u8> {
    if n < key.len() {
        key.take(n as int)
    } else {
        key
    }
}

/// What a search over the archives wants next, or what it has found.
#[derive(Debug)]
pub enum FindStep {
    /// Look up `key` in the index of the archive at `position`.
    Probe { position: usize, key: Vec<u8> },
    /// The file is stored here.
    Found(ArchiveLocation),
    /// No archive stores the file.
    NotFound,
}

/// The mathematical content of a [`FindStep`].
pub enum FindView {
    Probe { position: int, key: Seq<u8> },
    Found(LocationView),
    NotFound,
}

impl View for FindStep {
    type V = FindView;

    open spec fn view(&self) -> FindView {
        match *self {
            FindStep::Probe { position, key } => FindView::Probe {
                position: position as int,
                key: key@,
            },
            FindStep::Found(location) => FindView::Found(location@),
            FindStep::NotFound => FindView::NotFound,
        }
    }
}

/// The search goes on at the archive at `position`, if there is one.
pub open spec fn find_from(archives: Seq<EntryView>, key: Seq<u8>, position: int) -> FindView {
    if position < archives.len() {
        FindView::Probe { position, key: truncated(key, archives[position].ekey_length) }
    } else {
        FindView::NotFound
    }
}

/// What follows the reply of the index at `position`: a hit ends the search,
/// anything else takes it to the next archive.
pub open spec fn find_after(
    archives: Seq<EntryView>,
    key: Seq<u8>,
    position: int,
    reply: Option<IndexHit>,
) -> FindView {
    match reply {
        Some(hit) => FindView::Found(hit_location(archives[position], hit)),
        None => find_from(archives, key, position + 1),
    }
}

/// The location that a hit in an archive's index stands for.
pub open spec fn hit_location(archive: EntryView, hit: IndexHit) -> LocationView {
    LocationView { archive_hash: archive.hash, offset: hit.offset, size: hit.size }
}

/// Whether an HTTP status tells of success.
pub open spec fn is_success(status: u16) -> bool {
    200 <= status <= 299
}

/// The last byte of a location, counted from the start of its archive.
pub open spec fn last_byte(location: LocationView) -> int {
    location.offset + location.size - 1
}

/// Whether the ends of a location's byte range are 64-bit numbers.
pub open spec fn has_range(location: LocationView) -> bool {
    0 <= last_byte(location) && location.offset + location.size <= u64::MAX
}

/// The byte range of a location, as a request header gives it.
pub open spec fn range_text(location: LocationView) -> Seq<char> {
    "bytes="@ + crate::text::decimal(location.offset as nat) + "-"@ + crate::text::decimal(
        last_byte(location) as nat,
    )
}

/// A request for the data of a file.
#[derive(Debug)]
pub enum DataRequest {
    /// A part of an archive.
    Range { url: String, range: String },
    /// A file of its own, for a key that no archive stores.
    Loose { url: String, key_hex: String },
}

/// The mathematical content of a [`DataRequest`].
pub enum RequestView {
    Range { url: Seq<char>, range: Seq<char> },
    Loose { url: Seq<char>, key_hex: Seq<char> },
}

impl View for DataRequest {
    type V = RequestView;

    open spec fn view(&self) -> RequestView {
        match *self {
            DataRequest::Range { url, range } => RequestView::Range { url: url@, range: range@ },
            DataRequest::Loose { url, key_hex } => RequestView::Loose {
                url: url@,
                key_hex: key_hex@,
            },
        }
    }
}

/// The request for the file with the key `key`, once the archives have been
/// searched for it.
pub open spec fn data_request(
    endpoint: crate::cdn::EndpointView,
    key: Seq<u8>,
    location: Option<LocationView>,
) -> RequestView {
    match location {
        Some(found) => RequestView::Range {
            url: data_url(endpoint, found.archive_hash),
            range: range_text(found),
        },
        None => RequestView::Loose {
            url: data_url(endpoint, hexcode::hex_text(key)),
            key_hex: hexcode::hex_text(key),
        },
    }
}

impl DataRequest {
    /// Accepts the status of a reply, or refuses it.
    pub fn check_status(&self, status: u16, status_text: &str) -> (res: Result<(), Error>)
        ensures
            match res {
                Ok(_) => is_success(status),
                Err(Error::ArchiveStatus { status: text, url }) => !is_success(status) && text@
                    == status_text@ && (self@ matches RequestView::Range { url: asked, range: _ }
                    && url@ == asked),
                Err(Error::LooseFileStatus { status: text, key_hex }) => !is_success(status)
                    && text@ == status_text@ && (self@ matches RequestView::Loose {
                    url: _,
                    key_hex: asked,
                } && key_hex@ == asked),
                Err(_) => false,
            },
    {
        if 200 <= status && status <= 299 {
            return Ok(());
        }
        match self {
            DataRequest::Range { url, range: _ } => Err(
                Error::ArchiveStatus { status: status_text.to_string(), url: url.clone() },
            ),
            DataRequest::Loose { url: _, key_hex } => Err(
                Error::LooseFileStatus {
                    status: status_text.to_string(),
                    key_hex: key_hex.clone(),
                },
            ),
        }
    }
}

impl ArchiveManager {
    /// Starts a search for a key over the archives.
    pub fn find(&self, encoding_key: &[u8]) -> (step: FindStep)
        ensures
            step@ == find_from(self@, encoding_key@, 0),
    {
        self.find_at(encoding_key, 0)
    }

    /// Goes on with a search for a key, given the reply of the index at `position`.
    pub fn find_next(&self, encoding_key: &[u8], position: usize, reply: Option<IndexHit>) -> (step:
        FindStep)
        requires
            position < self@.len(),
        ensures
            step@ == find_after(self@, encoding_key@, position as int, reply),
    {
        let count: usize = self.entries.len();
        assert(position < count);
        match reply {
            Some(hit) => FindStep::Found(
                ArchiveLocation {
                    archive_hash: self.entries[position].hash.clone(),
                    offset: hit.offset,
                    size: hit.size,
                },
            ),
            None => self.find_at(encoding_key, position + 1),
        }
    }

    fn find_at(&self, encoding_key: &[u8], position: usize) -> (step: FindStep)
        ensures
            step@ == find_from(self@, encoding_key@, position as int),
    {
        if position < self.entries.len() {
            let stored: usize = self.entries[position].ekey_length as usize;
            let key = if stored < encoding_key.len() {
                slice_to_vec(slice_subrange(encoding_key, 0, stored))
            } else {
                slice_to_vec(encoding_key)
            };
            FindStep::Probe { position, key }
        } else {
            FindStep::NotFound
        }
    }

    /// The request for the file with the key `encoding_key`, given where the
    /// archives store it.
    pub fn download(
        session: &CdnSession,
        encoding_key: &[u8],
        location: Option<ArchiveLocation>,
    ) -> (request: DataRequest)
        requires
            match location {
                Some(found) => has_shards(found.archive_hash@) && has_range(found@),
                None => 2 <= encoding_key@.len() && 2 * encoding_key@.len() <= isize::MAX,
            },
        ensures
            request@ == data_request(
                session@.endpoint,
                encoding_key@,
                match location {
                    Some(found) => Some(found@),
                    None => None,
                },
            ),
    {
        match location {
            Some(found) => ArchiveManager::range_download(session, &found),
            None => {
                let key_hex = hexcode::encode(encoding_key);
                proof {
                    crate::cdn::key_text_has_shards(encoding_key@);
                }
                let url = session.build_data_url(key_hex.as_str());
                DataRequest::Loose { url, key_hex }
            },
        }
    }

    /// The request for a part of an archive.
    pub fn range_download(session: &CdnSession, location: &ArchiveLocation) -> (request:
        DataRequest)
        requires
            has_shards(location.archive_hash@),
            has_range(location@),
        ensures
            request@ == (RequestView::Range {
                url: data_url(session@.endpoint, location.archive_hash@),
                range: range_text(location@),
            }),
    {
        let url = session.build_data_url(location.archive_hash.as_str());
        let end: u64 = location.offset + location.size as u64 - 1;
        let range = "bytes=".to_string().concat(decimal_text(location.offset).as_str()).concat(
            "-",
        ).concat(decimal_text(end).as_str());
        DataRequest::Range { url, range }
    }
}

/// The directory that caches the indices of a build, inside that of the build.
pub open spec fn indices_dir(cache_dir: Seq<char>) -> Seq<char> {
    crate::paths::joined(cache_dir, "indices"@)
}

/// The directory that caches the indices of the session's build.
pub fn indices_cache_dir(session: &CdnSession, home: Option<&str>) -> (dir: String)
    ensures
        dir@ == indices_dir(
            crate::cdn::build_dir(
                crate::cdn::cache_root(crate::cdn::text_of(home)),
                session@.product,
                session@.build_id,
            ),
        ),
{
    cached_indices_dir(session.cache_dir(home).as_str())
}

/// The directory that caches the indices of the build cached in `cache_dir`.
pub fn cached_indices_dir(cache_dir: &str) -> (dir: String)
    ensures
        dir@ == indices_dir(cache_dir@),
{
    join(cache_dir, "indices")
}

/// The name of the file that caches the index of the archive `hash`.
pub open spec fn index_name(hash: Seq<char>) -> Seq<char> {
    hash + ".index"@
}

/// The path of the file that caches the index of the archive `hash`.
pub open spec fn index_path(dir: Seq<char>, hash: Seq<char>) -> Seq<char> {
    crate::paths::joined(dir, index_name(hash))
}

/// The path of the file that caches the index of the archive `hash`.
pub fn cached_index_path(dir: &str, hash: &str) -> (path: String)
    ensures
        path@ == index_path(dir@, hash@),
{
    join(dir, hash.to_string().concat(".index").as_str())
}

/// The bytes of `.index`.
pub open spec fn index_suffix() -> Seq<u8> {
    seq![0x2eu8, 0x69u8, 0x6eu8, 0x64u8, 0x65u8, 0x78u8]
}

/// Whether a file name, given by its bytes, is that of a cached index:
/// something, then `.index`.
pub open spec fn is_index_name(name: Seq<u8>) -> bool {
    &&& name.len() > 6
    &&& name.skip(name.len() - 6) == index_suffix()
}

/// A file name without `.index`.
pub open spec fn index_stem(name: Seq<u8>) -> Seq<u8> {
    name.take(name.len() - 6)
}

/// The hash of the archive whose index a file caches, judged by the bytes of
/// the file's name; nothing for a file that caches no index.
pub fn cached_index_hash(name: &[u8]) -> (res: Result<Option<String>, Error>)
    ensures
        match res {
            Ok(None) => !is_index_name(name@),
            Ok(Some(hash)) => is_index_name(name@) && valid_utf8(index_stem(name@)) && hash@
                == decode_utf8(index_stem(name@)),
            Err(Error::InvalidIndexFilename) => is_index_name(name@) && !valid_utf8(
                index_stem(name@),
            ),
            Err(_) => false,
        },
{
    let len: usize = name.len();
    if len <= 6 {
        return Ok(None);
    }
    let cut: usize = len - 6;
    let ghost tail = name@.skip(cut as int);
    if name[cut] == 0x2e && name[cut + 1] == 0x69 && name[cut + 2] == 0x6e && name[cut + 3] == 0x64
        && name[cut + 4] == 0x65 && name[cut + 5] == 0x78 {
        assert(tail =~= index_suffix());
        let stem = slice_to_vec(slice_subrange(name, 0, cut));
        assert(stem@ == index_stem(name@));
        match text_from_utf8(stem) {
            Some(hash) => Ok(Some(hash)),
            None => Err(Error::InvalidIndexFilename),
        }
    } else {
        assert(is_index_name(name@) ==> tail == index_suffix());
        assert(tail[0] == name@[cut as int] && tail[1] == name@[cut + 1] && tail[2] == name@[cut
            + 2] && tail[3] == name@[cut + 3] && tail[4] == name@[cut + 4] && tail[5] == name@[cut
            + 5]);
        Ok(None)
    }
}

/// The archives whose indices the files `names` cache, in the order of the names.
pub open spec fn index_stems(names: Seq<Seq<u8>>) -> Seq<Seq<char>>
    decreases names.len(),
{
    if names.len() == 0 {
        Seq::empty()
    } else if is_index_name(names.last()) {
        index_stems(names.drop_last()).push(decode_utf8(index_stem(names.last())))
    } else {
        index_stems(names.drop_last())
    }
}

/// The hashes of archives, in order.
pub open spec fn hashes_of(entries: Seq<EntryView>) -> Seq<Seq<char>> {
    entries.map_values(|e: EntryView| e.hash)
}

/// The archives of a build whose cached indices are being loaded, one file of
/// the cache after the other.
pub struct CachedLoad {
    dir: String,
    entries: Vec<ArchiveEntry>,
    names: Ghost<Seq<Seq<u8>>>,
}

/// The mathematical content of a [`CachedLoad`]: the directory of the indices,
/// the names of the files that have been dealt with, and the archives whose
/// indices have been loaded.
pub struct CachedLoadView {
    pub dir: Seq<char>,
    pub names: Seq<Seq<u8>>,
    pub loaded: Seq<EntryView>,
}

impl View for CachedLoad {
    type V = CachedLoadView;

    closed spec fn view(&self) -> CachedLoadView {
        CachedLoadView {
            dir: self.dir@,
            names: self.names@,
            loaded: entry_views(self.entries@),
        }
    }
}

/// The load of cached indices that stopped to have one index read.
pub struct CachedRead {
    load: CachedLoad,
    hash: String,
    name: Ghost<Seq<u8>>,
}

/// The mathematical content of a [`CachedRead`]: the load before the file
/// `name`, which caches the index of the archive `hash`.
pub struct CachedReadView {
    pub load: CachedLoadView,
    pub name: Seq<u8>,
    pub hash: Seq<char>,
}

impl View for CachedRead {
    type V = CachedReadView;

    closed spec fn view(&self) -> CachedReadView {
        CachedReadView { load: self.load@, name: self.name@, hash: self.hash@ }
    }
}

/// What to do with a file of the cache.
pub enum CachedStep {
    /// Nothing: the file caches no index.
    Skip { load: CachedLoad },
    /// Read and parse it.
    Read { path: String, reading: CachedRead },
}

/// What to do with a file of the cache, judged by the bytes of its name.
pub enum CachedStepView {
    Skip,
    Read { path: Seq<char>, hash: Seq<char> },
}

/// What to do with the file `name` in the directory `dir`; nothing can be done
/// with an index whose name is no text.
pub open spec fn cached_step(dir: Seq<char>, name: Seq<u8>) -> Option<CachedStepView> {
    if !is_index_name(name) {
        Some(CachedStepView::Skip)
    } else if valid_utf8(index_stem(name)) {
        let hash = decode_utf8(index_stem(name));
        Some(CachedStepView::Read { path: index_path(dir, hash), hash })
    } else {
        None
    }
}

/// Why a cached index is of no use.
#[derive(Debug)]
pub enum IndexFailure {
    /// The file could not be read.
    Unreadable { cause: String },
    /// The bytes of the file are those of no index.
    Unparsable { cause: String },
}

impl ArchiveManager {
    /// Starts to load the indices that the directory `cache_dir` of a build caches.
    pub fn load_cached(cache_dir: &str) -> (load: CachedLoad)
        ensures
            load@ == (CachedLoadView {
                dir: indices_dir(cache_dir@),
                names: Seq::empty(),
                loaded: Seq::empty(),
            }),
    {
        let load = CachedLoad {
            dir: cached_indices_dir(cache_dir),
            entries: Vec::new(),
            names: Ghost(Seq::empty()),
        };
        assert(load@.loaded =~= Seq::<EntryView>::empty());
        load
    }
}

impl CachedLoad {
    /// The loaded archives are those whose indices the files dealt with cache,
    /// in their order.
    #[verifier::type_invariant]
    spec fn in_order(self) -> bool {
        hashes_of(entry_views(self.entries@)) =~= index_stems(self.names@)
    }

    /// The directory whose files are to be dealt with.
    pub fn dir(&self) -> (dir: &str)
        ensures
            dir@ == self@.dir,
    {
        self.dir.as_str()
    }

    /// What to do with the next file of the directory, given the bytes of its name.
    pub fn next_file(self, name: &[u8]) -> (res: Result<CachedStep, Error>)
        ensures
            match (cached_step(self@.dir, name@), res) {
                (Some(CachedStepView::Skip), Ok(CachedStep::Skip { load })) => load@ == (
                CachedLoadView { names: self@.names.push(name@), ..self@ }),
                (
                    Some(CachedStepView::Read { path: expected, hash }),
                    Ok(CachedStep::Read { path, reading }),
                ) => path@ == expected && reading@ == (CachedReadView {
                    load: self@,
                    name: name@,
                    hash,
                }),
                (None, Err(Error::InvalidIndexFilename)) => true,
                _ => false,
            },
    {
        proof {
            use_type_invariant(&self);
        }
        match cached_index_hash(name) {
            Ok(None) => {
                let ghost names = self.names@.push(name@);
                assert(names.drop_last() =~= self.names@);
                let load = CachedLoad {
                    dir: self.dir,
                    entries: self.entries,
                    names: Ghost(names),
                };
                Ok(CachedStep::Skip { load })
            },
            Ok(Some(hash)) => {
                let path = cached_index_path(self.dir.as_str(), hash.as_str());
                let reading = CachedRead { load: self, hash, name: Ghost(name@) };
                Ok(CachedStep::Read { path, reading })
            },
            Err(e) => Err(e),
        }
    }

    /// The manager of the archives, once all files have been dealt with.
    pub fn finish(self) -> (res: Result<ArchiveManager, Error>)
        ensures
            match res {
                Ok(manager) => index_stems(self@.names).len() > 0 && manager@ == self@.loaded
                    && hashes_of(manager@) == index_stems(self@.names),
                Err(Error::NoCachedIndices { dir }) => index_stems(self@.names).len() == 0 && dir@
                    == self@.dir,
                Err(_) => false,
            },
    {
        proof {
            use_type_invariant(&self);
        }
        assert(hashes_of(entry_views(self.entries@)).len() == self.entries@.len());
        if self.entries.len() == 0 {
            Err(Error::NoCachedIndices { dir: self.dir })
        } else {
            Ok(ArchiveManager { entries: self.entries })
        }
    }
}

impl CachedRead {
    /// The file caches the index of the archive.
    #[verifier::type_invariant]
    spec fn names_archive(self) -> bool {
        is_index_name(self.name@) && self.hash@ == decode_utf8(index_stem(self.name@))
    }

    /// Goes on with the load once the file has been read and parsed, given how
    /// many bytes of a key its index stores. A file that is of no use ends it.
    pub fn loaded(self, outcome: Result<u8, IndexFailure>) -> (res: Result<CachedLoad, Error>)
        ensures
            match (outcome, res) {
                (Ok(ekey_length), Ok(load)) => load@ == (CachedLoadView {
                    names: self@.load.names.push(self@.name),
                    loaded: self@.load.loaded.push(
                        EntryView { hash: self@.hash, ekey_length: ekey_length as nat },
                    ),
                    ..self@.load
                }),
                (
                    Err(IndexFailure::Unreadable { cause: given }),
                    Err(Error::CachedIndexNotRead { path, cause }),
                ) => path@ == index_path(self@.load.dir, self@.hash) && cause@ == given@,
                (
                    Err(IndexFailure::Unparsable { cause: given }),
                    Err(Error::IndexNotParsed { hash, cause }),
                ) => hash@ == self@.hash && cause@ == given@,
                _ => false,
            },
    {
        proof {
            use_type_invariant(&self);
            use_type_invariant(&self.load);
        }
        match outcome {
            Ok(ekey_length) => {
                let ghost names = self.load.names@.push(self.name@);
                let ghost before = entry_views(self.load.entries@);
                let ghost entry = EntryView { hash: self.hash@, ekey_length: ekey_length as nat };
                let mut entries = self.load.entries;
                entries.push(ArchiveEntry { hash: self.hash, ekey_length });
                proof {
                    assert(names.drop_last() =~= self.load.names@);
                    assert(entry_views(entries@) =~= before.push(entry));
                    assert(hashes_of(before.push(entry)) =~= hashes_of(before).push(entry.hash));
                }
                Ok(CachedLoad { dir: self.load.dir, entries, names: Ghost(names) })
            },
            Err(IndexFailure::Unreadable { cause }) => Err(
                Error::CachedIndexNotRead {
                    path: cached_index_path(self.load.dir.as_str(), self.hash.as_str()),
                    cause,
                },
            ),
            Err(IndexFailure::Unparsable { cause }) => Err(
                Error::IndexNotParsed { hash: self.hash, cause },
            ),
        }
    }
}

/// What has just been done to get the index of an archive.
pub enum IndexEvent {
    /// Nothing yet.
    Start,
    /// The cache holds the index.
    Cached(Vec<u8>),
    /// The index could not be read from the cache.
    NotCached,
    /// The index has been fetched.
    Fetched(Vec<u8>),
    /// The index has been fetched and written to the cache.
    Stored(Vec<u8>),
}

/// What is to be done next to get the index of an archive.
#[derive(Debug)]
pub enum IndexStep {
    /// Read the index from the cache.
    Read { path: String },
    /// Fetch the index.
    Fetch { url: String },
    /// Write the index to the cache.
    Store { path: String, data: Vec<u8> },
    /// This is the index.
    Ready { data: Vec<u8> },
}

/// The mathematical content of an [`IndexEvent`].
pub enum IndexEventView {
    Start,
    Cached(Seq<u8>),
    NotCached,
    Fetched(Seq<u8>),
    Stored(Seq<u8>),
}

/// The mathematical content of an [`IndexStep`].
pub enum IndexStepView {
    Read { path: Seq<char> },
    Fetch { url: Seq<char> },
    Store { path: Seq<char>, data: Seq<u8> },
    Ready { data: Seq<u8> },
}

impl View for IndexEvent {
    type V = IndexEventView;

    open spec fn view(&self) -> IndexEventView {
        match *self {
            IndexEvent::Start => IndexEventView::Start,
            IndexEvent::Cached(data) => IndexEventView::Cached(data@),
            IndexEvent::NotCached => IndexEventView::NotCached,
            IndexEvent::Fetched(data) => IndexEventView::Fetched(data@),
            IndexEvent::Stored(data) => IndexEventView::Stored(data@),
        }
    }
}

impl View for IndexStep {
    type V = IndexStepView;

    open spec fn view(&self) -> IndexStepView {
        match *self {
            IndexStep::Read { path } => IndexStepView::Read { path: path@ },
            IndexStep::Fetch { url } => IndexStepView::Fetch { url: url@ },
            IndexStep::Store { path, data } => IndexStepView::Store { path: path@, data: data@ },
            IndexStep::Ready { data } => IndexStepView::Ready { data: data@ },
        }
    }
}

/// The URL of the index of the archive `hash`.
pub open spec fn index_url(endpoint: crate::cdn::EndpointView, hash: Seq<char>) -> Seq<char> {
    data_url(endpoint, hash) + ".index"@
}

/// The step that follows an event: the cache is asked first, and only where it
/// fails is the index fetched, and then written to the cache before it is used.
pub open spec fn index_next(
    endpoint: crate::cdn::EndpointView,
    dir: Seq<char>,
    hash: Seq<char>,
    event: IndexEventView,
) -> IndexStepView {
    match event {
        IndexEventView::Start => IndexStepView::Read { path: index_path(dir, hash) },
        IndexEventView::Cached(data) => IndexStepView::Ready { data },
        IndexEventView::NotCached => IndexStepView::Fetch { url: index_url(endpoint, hash) },
        IndexEventView::Fetched(data) => IndexStepView::Store { path: index_path(dir, hash), data },
        IndexEventView::Stored(data) => IndexStepView::Ready { data },
    }
}

/// What follows `event` on the way to the index of the archive `hash`, which
/// is cached in the directory `dir`.
pub fn load_or_download_index_file(
    session: &CdnSession,
    dir: &str,
    hash: &str,
    event: IndexEvent,
) -> (step: IndexStep)
    requires
        event@ is NotCached ==> has_shards(hash@),
    ensures
        step@ == index_next(session@.endpoint, dir@, hash@, event@),
{
    match event {
        IndexEvent::Start => IndexStep::Read { path: cached_index_path(dir, hash) },
        IndexEvent::Cached(data) => IndexStep::Ready { data },
        IndexEvent::NotCached => IndexStep::Fetch {
            url: session.build_data_url(hash).concat(".index"),
        },
        IndexEvent::Fetched(data) => IndexStep::Store { path: cached_index_path(dir, hash), data },
        IndexEvent::Stored(data) => IndexStep::Ready { data },
    }
}

/// Accepts the status of the reply to a request for an index, or refuses it.
pub fn check_index_status(status: u16, status_text: &str, url: &str) -> (res: Result<(), Error>)
    ensures
        match res {
            Ok(_) => is_success(status),
            Err(Error::IndexStatus { status: text, url: asked }) => !is_success(status) && text@
                == status_text@ && asked@ == url@,
            Err(_) => false,
        },
{
    if 200 <= status && status <= 299 {
        Ok(())
    } else {
        Err(Error::IndexStatus { status: status_text.to_string(), url: url.to_string() })
    }
}

/// The archives of a build whose indices are being loaded one after the other.
#[derive(Debug)]
pub struct ArchiveInit {
    hashes: Vec<String>,
    entries: Vec<ArchiveEntry>,
}

/// The mathematical content of an [`ArchiveInit`]: all archives, and those
/// whose indices have been loaded.
pub struct ArchiveInitView {
    pub hashes: Seq<Seq<char>>,
    pub loaded: Seq<EntryView>,
}

impl View for ArchiveInit {
    type V = ArchiveInitView;

    closed spec fn view(&self) -> ArchiveInitView {
        ArchiveInitView {
            hashes: self.hashes@.map_values(|h: String| h@),
            loaded: entry_views(self.entries@),
        }
    }
}

impl ArchiveInitView {
    /// The loaded archives are the first ones, in order.
    pub open spec fn in_order(self) -> bool {
        &&& self.loaded.len() <= self.hashes.len()
        &&& forall|i: int| 0 <= i < self.loaded.len() ==> (#[trigger] self.loaded[i]).hash
            == self.hashes[i]
    }

    /// Whether all archives are loaded.
    pub open spec fn complete(self) -> bool {
        self.loaded.len() == self.hashes.len()
    }
}

/// What is printed before the index at `position` of `total` is loaded.
pub open spec fn index_notice(position: nat, total: nat, hash: Seq<char>) -> Seq<char> {
    "  ["@ + crate::text::decimal(position + 1) + "/"@ + crate::text::decimal(total)
        + "] Downloading index "@ + hash
}

impl ArchiveManager {
    /// Starts to load the indices of the archives `hashes`.
    pub fn init(hashes: Vec<String>) -> (init: ArchiveInit)
        ensures
            init@.hashes == hashes@.map_values(|h: String| h@),
            init@.loaded == Seq::<EntryView>::empty(),
    {
        let init = ArchiveInit { hashes, entries: Vec::new() };
        assert(init@.loaded =~= Seq::<EntryView>::empty());
        init
    }
}

impl ArchiveInit {
    /// The loaded archives are the first ones, in order.
    #[verifier::type_invariant]
    spec fn loads_in_order(self) -> bool {
        self@.in_order()
    }

    /// The archive whose index is to be loaded next.
    pub fn next(&self) -> (hash: Option<&str>)
        ensures
            match hash {
                Some(hash) => !self@.complete() && hash@ == self@.hashes[self@.loaded.len() as int],
                None => self@.complete(),
            },
    {
        proof {
            use_type_invariant(self);
        }
        let position: usize = self.entries.len();
        if position < self.hashes.len() {
            Some(self.hashes[position].as_str())
        } else {
            None
        }
    }

    /// What to print before the next index is loaded.
    pub fn notice(&self) -> (text: String)
        requires
            !self@.complete(),
        ensures
            text@ == index_notice(
                self@.loaded.len(),
                self@.hashes.len(),
                self@.hashes[self@.loaded.len() as int],
            ),
    {
        proof {
            use_type_invariant(self);
        }
        let position: usize = self.entries.len();
        let total: usize = self.hashes.len();
        "  [".to_string().concat(decimal_text((position + 1) as u64).as_str()).concat("/").concat(
            decimal_text(total as u64).as_str(),
        ).concat("] Downloading index ").concat(self.hashes[position].as_str())
    }

    /// Goes on once the next index has been got and parsed, given how many bytes
    /// of a key it stores. An index that cannot be parsed ends it.
    pub fn loaded(self, parsed: Result<u8, String>) -> (res: Result<ArchiveInit, Error>)
        requires
            !self@.complete(),
        ensures
            match (parsed, res) {
                (Ok(ekey_length), Ok(init)) => init@ == (ArchiveInitView {
                    hashes: self@.hashes,
                    loaded: self@.loaded.push(
                        EntryView {
                            hash: self@.hashes[self@.loaded.len() as int],
                            ekey_length: ekey_length as nat,
                        },
                    ),
                }),
                (Err(given), Err(Error::IndexNotParsed { hash, cause })) => hash@
                    == self@.hashes[self@.loaded.len() as int] && cause@ == given@,
                _ => false,
            },
    {
        proof {
            use_type_invariant(&self);
        }
        let ghost before = self@;
        let position: usize = self.entries.len();
        let hash = self.hashes[position].clone();
        match parsed {
            Ok(ekey_length) => {
                let hashes = self.hashes;
                let mut entries = self.entries;
                entries.push(ArchiveEntry { hash, ekey_length });
                assert(entry_views(entries@) =~= before.loaded.push(
                    EntryView {
                        hash: before.hashes[before.loaded.len() as int],
                        ekey_length: ekey_length as nat,
                    },
                ));
                Ok(ArchiveInit { hashes, entries })
            },
            Err(cause) => Err(Error::IndexNotParsed { hash, cause }),
        }
    }

    /// The manager of the archives, once all their indices are loaded.
    pub fn finish(self) -> (manager: ArchiveManager)
        requires
            self@.complete(),
        ensures
            manager@ == self@.loaded,
            manager@.map_values(|e: EntryView| e.hash) == self@.hashes,
    {
        proof {
            use_type_invariant(&self);
        }
        let ghost view = self@;
        let manager = ArchiveManager { entries: self.entries };
        assert(manager@.map_values(|e: EntryView| e.hash) =~= view.hashes);
        manager
    }
}

/// Where the archives of a build come from.
#[derive(Debug)]
pub enum ManagerStep {
    /// The cached indices that have been loaded are used.
    UseCached,
    /// The indices are fetched afresh; if that fails too, `failure` tells of both.
    Init { failure: String },
}

/// What to do once the cached indices have been loaded, or have failed to load
/// with the error `load_error`.
pub fn load_or_init_archive_manager(load_error: Option<&str>) -> (step: ManagerStep)
    ensures
        match (load_error, step) {
            (None, ManagerStep::UseCached) => true,
            (Some(text), ManagerStep::Init { failure }) => failure@
                == "failed to load cached archive indices ("@ + text@
                + ") or download fresh indices"@,
            _ => false,
        },
{
    match load_error {
        None => ManagerStep::UseCached,
        Some(text) => ManagerStep::Init {
            failure: "failed to load cached archive indices (".to_string().concat(text).concat(
                ") or download fresh indices",
            ),
        },
    }
}

/// What a search finds that starts with `step`, when the index at each position
/// replies to each key as `replies` says.
pub open spec fn find_run(
    archives: Seq<EntryView>,
    key: Seq<u8>,
    replies: spec_fn(int, Seq<u8>) -> Option<IndexHit>,
    step: FindView,
) -> Option<LocationView>
    decreases
            (match step {
                FindView::Probe { position, key: _ } => archives.len() - position + 1,
                _ => 0int,
            }),
    when step is Probe ==> step->position < archives.len()
{
    match step {
        FindView::Found(location) => Some(location),
        FindView::NotFound => None,
        FindView::Probe { position, key: stored } => find_run(
            archives,
            key,
            replies,
            find_after(archives, key, position, replies(position, stored)),
        ),
    }
}

/// What the index at `position` replies to the part of `key` that it stores.
pub open spec fn reply_at(
    archives: Seq<EntryView>,
    key: Seq<u8>,
    replies: spec_fn(int, Seq<u8>) -> Option<IndexHit>,
    position: int,
) -> Option<IndexHit> {
    replies(position, truncated(key, archives[position].ekey_length))
}

/// A search finds a key where the first index places it that knows it.
pub proof fn find_gives_first_hit(
    archives: Seq<EntryView>,
    key: Seq<u8>,
    replies: spec_fn(int, Seq<u8>) -> Option<IndexHit>,
    first: int,
)
    requires
        0 <= first < archives.len(),
        reply_at(archives, key, replies, first) is Some,
        forall|i: int| 0 <= i < first ==> #[trigger] reply_at(archives, key, replies, i) is None,
    ensures
        find_run(archives, key, replies, find_from(archives, key, 0)) == Some(
            hit_location(archives[first], reply_at(archives, key, replies, first)->0),
        ),
{
    lemma_find_skips(archives, key, replies, 0, first);
    reveal_with_fuel(find_run, 2);
}

/// A search that finds nothing has asked every index, and none knows the key.
pub proof fn find_fails_only_without_hit(
    archives: Seq<EntryView>,
    key: Seq<u8>,
    replies: spec_fn(int, Seq<u8>) -> Option<IndexHit>,
)
    ensures
        find_run(archives, key, replies, find_from(archives, key, 0)) is None <==> forall|i: int|
            0 <= i < archives.len() ==> #[trigger] reply_at(archives, key, replies, i) is None,
{
    if forall|i: int|
        0 <= i < archives.len() ==> #[trigger] reply_at(archives, key, replies, i) is None {
        lemma_find_skips(archives, key, replies, 0, archives.len() as int);
    } else {
        let hit = choose|i: int|
            0 <= i < archives.len() && #[trigger] reply_at(archives, key, replies, i) is Some;
        let first = lemma_least_hit(archives, key, replies, hit);
        find_gives_first_hit(archives, key, replies, first);
    }
}

/// Indices that do not know the key are passed over.
proof fn lemma_find_skips(
    archives: Seq<EntryView>,
    key: Seq<u8>,
    replies: spec_fn(int, Seq<u8>) -> Option<IndexHit>,
    from: int,
    to: int,
)
    requires
        0 <= from <= to <= archives.len(),
        forall|i: int| from <= i < to ==> #[trigger] reply_at(archives, key, replies, i) is None,
    ensures
        find_run(archives, key, replies, find_from(archives, key, from)) == find_run(
            archives,
            key,
            replies,
            find_from(archives, key, to),
        ),
    decreases to - from,
{
    if from < to {
        assert(reply_at(archives, key, replies, from) is None);
        lemma_find_skips(archives, key, replies, from + 1, to);
    }
}

/// The least position at or before `hit` whose index knows the key.
proof fn lemma_least_hit(
    archives: Seq<EntryView>,
    key: Seq<u8>,
    replies: spec_fn(int, Seq<u8>) -> Option<IndexHit>,
    hit: int,
) -> (first: int)
    requires
        0 <= hit < archives.len(),
        reply_at(archives, key, replies, hit) is Some,
    ensures
        0 <= first <= hit,
        reply_at(archives, key, replies, first) is Some,
        forall|i: int| 0 <= i < first ==> #[trigger] reply_at(archives, key, replies, i) is None,
    decreases hit,
{
    if exists|i: int| 0 <= i < hit && #[trigger] reply_at(archives, key, replies, i) is Some {
        let earlier = choose|i: int|
            0 <= i < hit && #[trigger] reply_at(archives, key, replies, i) is Some;
        lemma_least_hit(archives, key, replies, earlier)
    } else {
        hit
    }
}

/// How far an index is from being ready after an event.
pub open spec fn steps_left(event: IndexEventView) -> nat {
    match event {
        IndexEventView::Start => 4,
        IndexEventView::NotCached => 3,
        IndexEventView::Fetched(_) => 2,
        IndexEventView::Stored(_) => 1,
        IndexEventView::Cached(_) => 1,
    }
}

/// What comes of getting an index: its bytes, the cache afterwards, and whether
/// the index was fetched.
pub struct IndexRun {
    pub data: Seq<u8>,
    pub cache: Map<Seq<char>, Seq<u8>>,
    pub fetched: bool,
}

/// Gets the index of the archive `hash` from the event on, with the files
/// `cache` and with what `remote` gives for a URL.
pub open spec fn index_run(
    endpoint: crate::cdn::EndpointView,
    dir: Seq<char>,
    hash: Seq<char>,
    remote: spec_fn(Seq<char>) -> Seq<u8>,
    cache: Map<Seq<char>, Seq<u8>>,
    event: IndexEventView,
) -> IndexRun
    decreases steps_left(event),
{
    match index_next(endpoint, dir, hash, event) {
        IndexStepView::Read { path } => index_run(
            endpoint,
            dir,
            hash,
            remote,
            cache,
            if cache.contains_key(path) {
                IndexEventView::Cached(cache[path])
            } else {
                IndexEventView::NotCached
            },
        ),
        IndexStepView::Fetch { url } => {
            let rest = index_run(
                endpoint,
                dir,
                hash,
                remote,
                cache,
                IndexEventView::Fetched(remote(url)),
            );
            IndexRun { fetched: true, ..rest }
        },
        IndexStepView::Store { path, data } => index_run(
            endpoint,
            dir,
            hash,
            remote,
            cache.insert(path, data),
            IndexEventView::Stored(data),
        ),
        IndexStepView::Ready { data } => IndexRun { data, cache, fetched: false },
    }
}

/// An index is taken from the cache where the cache holds it; otherwise it is
/// fetched, and the cache holds it afterwards, next to what it held before.
pub proof fn index_comes_from_cache_or_remote(
    endpoint: crate::cdn::EndpointView,
    dir: Seq<char>,
    hash: Seq<char>,
    remote: spec_fn(Seq<char>) -> Seq<u8>,
    cache: Map<Seq<char>, Seq<u8>>,
)
    ensures
        ({
            let path = index_path(dir, hash);
            let run = index_run(endpoint, dir, hash, remote, cache, IndexEventView::Start);
            if cache.contains_key(path) {
                &&& run.data == cache[path]
                &&& run.cache == cache
                &&& !run.fetched
            } else {
                &&& run.data == remote(index_url(endpoint, hash))
                &&& run.cache == cache.insert(path, run.data)
                &&& run.fetched
            }
        }),
{
    reveal_with_fuel(index_run, 5);
}

/// An index that has been got once is got again without being fetched, and is
/// the same.
pub proof fn index_is_fetched_at_most_once(
    endpoint: crate::cdn::EndpointView,
    dir: Seq<char>,
    hash: Seq<char>,
    remote: spec_fn(Seq<char>) -> Seq<u8>,
    later: spec_fn(Seq<char>) -> Seq<u8>,
    cache: Map<Seq<char>, Seq<u8>>,
)
    ensures
        ({
            let once = index_run(endpoint, dir, hash, remote, cache, IndexEventView::Start);
            let again = index_run(endpoint, dir, hash, later, once.cache, IndexEventView::Start);
            &&& !again.fetched
            &&& again.data == once.data
            &&& again.cache == once.cache
        }),
{
    let once = index_run(endpoint, dir, hash, remote, cache, IndexEventView::Start);
    index_comes_from_cache_or_remote(endpoint, dir, hash, remote, cache);
    index_comes_from_cache_or_remote(endpoint, dir, hash, later, once.cache);
}

/// The bytes of two texts, one after the other.
proof fn lemma_encode_concat(a: Seq<char>, b: Seq<char>)
    ensures
        encode_utf8(a + b) == encode_utf8(a) + encode_utf8(b),
    decreases a.len(),
{
    if a.len() == 0 {
        assert(a + b =~= b);
        assert(encode_utf8(a) =~= Seq::<u8>::empty());
    } else {
        assert((a + b).drop_first() =~= a.drop_first() + b);
        lemma_encode_concat(a.drop_first(), b);
        assert(encode_utf8(a + b) =~= encode_utf8(a) + encode_utf8(b));
    }
}

/// The file in which the index of an archive is cached is recognised by its
/// name as the index of that archive.
pub proof fn cached_index_is_recognised(hash: Seq<char>)
    requires
        hash.len() > 0,
    ensures
        ({
            let name = encode_utf8(index_name(hash));
            &&& is_index_name(name)
            &&& valid_utf8(index_stem(name))
            &&& decode_utf8(index_stem(name)) == hash
        }),
{
    let name = encode_utf8(index_name(hash));
    reveal_strlit(".index");
    lemma_encode_concat(hash, ".index"@);
    is_ascii_chars_encode_utf8(".index"@);
    assert(encode_utf8(".index"@) =~= index_suffix());
    encode_utf8_valid_utf8(hash);
    encode_utf8_decode_utf8(hash);
    encode_utf8_first_scalar(hash);
    assert(name.skip(name.len() - 6) =~= index_suffix());
    assert(index_stem(name) =~= encode_utf8(hash));
}

/// Archives, with the bytes of their indices.
pub struct LoadedView {
    pub entries: Seq<EntryView>,
    pub indices: Seq<Seq<u8>>,
}

impl LoadedView {
    /// One archive more.
    pub open spec fn with(self, entry: EntryView, index: Seq<u8>) -> LoadedView {
        LoadedView { entries: self.entries.push(entry), indices: self.indices.push(index) }
    }

    /// Where a search for `key` finds it, when `lookup` tells what an index with
    /// given bytes replies to a key.
    pub open spec fn finds(
        self,
        lookup: spec_fn(Seq<u8>, Seq<u8>) -> Option<IndexHit>,
        key: Seq<u8>,
    ) -> Option<LocationView> {
        find_run(
            self.entries,
            key,
            |position: int, stored: Seq<u8>| lookup(self.indices[position], stored),
            find_from(self.entries, key, 0),
        )
    }
}

/// Loads the indices that the files `names` in the directory `dir` cache, when
/// the disk holds `files` and `parse` tells how many bytes of a key the index with
/// given bytes stores, if the bytes are those of an index.
pub open spec fn cached_run(
    dir: Seq<char>,
    names: Seq<Seq<u8>>,
    files: Map<Seq<char>, Seq<u8>>,
    parse: spec_fn(Seq<u8>) -> Option<nat>,
) -> Option<LoadedView>
    decreases names.len(),
{
    if names.len() == 0 {
        Some(LoadedView { entries: Seq::empty(), indices: Seq::empty() })
    } else {
        match (cached_run(dir, names.drop_last(), files, parse), cached_step(dir, names.last())) {
            (Some(before), Some(CachedStepView::Skip)) => Some(before),
            (Some(before), Some(CachedStepView::Read { path, hash })) => if files.contains_key(
                path,
            ) {
                match parse(files[path]) {
                    Some(ekey_length) => Some(
                        before.with(EntryView { hash, ekey_length }, files[path]),
                    ),
                    None => None,
                }
            } else {
                None
            },
            _ => None,
        }
    }
}

/// Whether the file `name` in the directory `dir` caches an index that is of use.
pub open spec fn good_index(
    dir: Seq<char>,
    name: Seq<u8>,
    files: Map<Seq<char>, Seq<u8>>,
    parse: spec_fn(Seq<u8>) -> Option<nat>,
) -> bool {
    let path = index_path(dir, decode_utf8(index_stem(name)));
    valid_utf8(index_stem(name)) && files.contains_key(path) && parse(files[path]) is Some
}

/// A load of cached indices fails on one index that is of no use, and only then;
/// otherwise it gives one archive for each index, in the order of the files, and
/// passes over all other files.
pub proof fn cached_load_gives_each_index(
    dir: Seq<char>,
    names: Seq<Seq<u8>>,
    files: Map<Seq<char>, Seq<u8>>,
    parse: spec_fn(Seq<u8>) -> Option<nat>,
)
    ensures
        cached_run(dir, names, files, parse) is Some <==> forall|i: int|
            0 <= i < names.len() && is_index_name(#[trigger] names[i]) ==> good_index(
                dir,
                names[i],
                files,
                parse,
            ),
        cached_run(dir, names, files, parse) matches Some(run) ==> hashes_of(run.entries)
            == index_stems(names) && run.entries.len() == run.indices.len(),
    decreases names.len(),
{
    if names.len() > 0 {
        let shorter = names.drop_last();
        cached_load_gives_each_index(dir, shorter, files, parse);
        assert forall|i: int|
            0 <= i < shorter.len() && is_index_name(#[trigger] shorter[i]) && (forall|k: int|
                0 <= k < names.len() && is_index_name(#[trigger] names[k]) ==> good_index(
                    dir,
                    names[k],
                    files,
                    parse,
                )) implies good_index(dir, shorter[i], files, parse) by {
            assert(shorter[i] == names[i]);
        }
        assert forall|i: int|
            0 <= i < names.len() && is_index_name(#[trigger] names[i]) && cached_run(
                dir,
                names,
                files,
                parse,
            ) is Some implies good_index(dir, names[i], files, parse) by {
            if i < shorter.len() {
                assert(names[i] == shorter[i]);
            }
        }
        if let (Some(before), Some(run)) = (
            cached_run(dir, shorter, files, parse),
            cached_run(dir, names, files, parse),
        ) {
            if is_index_name(names.last()) {
                assert(hashes_of(run.entries) =~= hashes_of(before.entries).push(
                    run.entries.last().hash,
                ));
            }
        }
    } else {
        assert(hashes_of(Seq::<EntryView>::empty()) =~= Seq::<Seq<char>>::empty());
    }
}

/// Loads the indices of the archives `hashes`, each from the cache or from
/// `remote`, as [`index_run`] does; `parse` tells how many bytes of a key an index
/// stores. Gives the archives and the cache afterwards.
pub open spec fn archive_run(
    endpoint: crate::cdn::EndpointView,
    dir: Seq<char>,
    hashes: Seq<Seq<char>>,
    remote: spec_fn(Seq<char>) -> Seq<u8>,
    parse: spec_fn(Seq<u8>) -> Option<nat>,
    cache: Map<Seq<char>, Seq<u8>>,
) -> Option<(LoadedView, Map<Seq<char>, Seq<u8>>)>
    decreases hashes.len(),
{
    if hashes.len() == 0 {
        Some((LoadedView { entries: Seq::empty(), indices: Seq::empty() }, cache))
    } else {
        match archive_run(endpoint, dir, hashes.drop_last(), remote, parse, cache) {
            Some((before, held)) => {
                let hash = hashes.last();
                let run = index_run(endpoint, dir, hash, remote, held, IndexEventView::Start);
                match parse(run.data) {
                    Some(ekey_length) => Some(
                        (before.with(EntryView { hash, ekey_length }, run.data), run.cache),
                    ),
                    None => None,
                }
            },
            None => None,
        }
    }
}

/// The archives that have been loaded are those that were asked for, and the
/// cache holds the index of each.
proof fn lemma_archive_run(
    endpoint: crate::cdn::EndpointView,
    dir: Seq<char>,
    hashes: Seq<Seq<char>>,
    remote: spec_fn(Seq<char>) -> Seq<u8>,
    parse: spec_fn(Seq<u8>) -> Option<nat>,
    cache: Map<Seq<char>, Seq<u8>>,
)
    ensures
        archive_run(endpoint, dir, hashes, remote, parse, cache) matches Some((loaded, held)) ==> {
            &&& loaded.entries.len() == hashes.len()
            &&& loaded.indices.len() == hashes.len()
            &&& forall|i: int| #![trigger loaded.entries[i]] #![trigger hashes[i]]
                0 <= i < hashes.len() ==> {
                    &&& loaded.entries[i].hash == hashes[i]
                    &&& held.contains_key(index_path(dir, hashes[i]))
                    &&& held[index_path(dir, hashes[i])] == loaded.indices[i]
                    &&& parse(loaded.indices[i]) == Some(loaded.entries[i].ekey_length)
                }
        },
    decreases hashes.len(),
{
    if hashes.len() > 0 {
        let shorter = hashes.drop_last();
        lemma_archive_run(endpoint, dir, shorter, remote, parse, cache);
        if let (Some((before, held0)), Some((loaded, held))) = (
            archive_run(endpoint, dir, shorter, remote, parse, cache),
            archive_run(endpoint, dir, hashes, remote, parse, cache),
        ) {
            index_comes_from_cache_or_remote(endpoint, dir, hashes.last(), remote, held0);
            assert forall|i: int| #![trigger loaded.entries[i]] #![trigger hashes[i]]
                0 <= i < hashes.len() implies {
                &&& loaded.entries[i].hash == hashes[i]
                &&& held.contains_key(index_path(dir, hashes[i]))
                &&& held[index_path(dir, hashes[i])] == loaded.indices[i]
                &&& parse(loaded.indices[i]) == Some(loaded.entries[i].ekey_length)
            } by {
                if i < shorter.len() {
                    assert(shorter[i] == hashes[i]);
                    assert(before.entries[i] == loaded.entries[i]);
                    assert(before.indices[i] == loaded.indices[i]);
                }
            }
        }
    }
}

/// The archive at a position of a load stands for a file of the cache, and each
/// file that caches an index has an archive.
proof fn lemma_cached_run(
    dir: Seq<char>,
    names: Seq<Seq<u8>>,
    files: Map<Seq<char>, Seq<u8>>,
    parse: spec_fn(Seq<u8>) -> Option<nat>,
)
    ensures
        cached_run(dir, names, files, parse) matches Some(run) ==> {
            &&& run.entries.len() == run.indices.len()
            &&& forall|p: int|
                0 <= p < run.entries.len() ==> #[trigger] has_file(
                    dir,
                    names,
                    files,
                    parse,
                    run,
                    p,
                )
            &&& forall|i: int|
                0 <= i < names.len() && is_index_name(#[trigger] names[i]) ==> exists|p: int|
                    #[trigger] stands_for(dir, names, files, parse, run, p, i)
        },
    decreases names.len(),
{
    if names.len() > 0 {
        let shorter = names.drop_last();
        let last = names.len() - 1;
        lemma_cached_run(dir, shorter, files, parse);
        if let (Some(before), Some(run)) = (
            cached_run(dir, shorter, files, parse),
            cached_run(dir, names, files, parse),
        ) {
            assert forall|p: int, i: int|
                #[trigger] stands_for(dir, shorter, files, parse, before, p, i) implies stands_for(
                dir,
                names,
                files,
                parse,
                run,
                p,
                i,
            ) by {
                assert(shorter[i] == names[i]);
                assert(before.entries[p] == run.entries[p]);
                assert(before.indices[p] == run.indices[p]);
            }
            if is_index_name(names.last()) {
                assert(stands_for(
                    dir,
                    names,
                    files,
                    parse,
                    run,
                    before.entries.len() as int,
                    last,
                ));
            }
            assert forall|p: int| 0 <= p < run.entries.len() implies #[trigger] has_file(
                dir,
                names,
                files,
                parse,
                run,
                p,
            ) by {
                if p < before.entries.len() {
                    assert(has_file(dir, shorter, files, parse, before, p));
                    let i = choose|i: int|
                        #[trigger] stands_for(dir, shorter, files, parse, before, p, i);
                    assert(stands_for(dir, names, files, parse, run, p, i));
                }
            }
            assert forall|i: int|
                0 <= i < names.len() && is_index_name(#[trigger] names[i]) implies exists|p: int|
                #[trigger] stands_for(dir, names, files, parse, run, p, i) by {
                if i < shorter.len() {
                    assert(shorter[i] == names[i]);
                    let p = choose|p: int|
                        #[trigger] stands_for(dir, shorter, files, parse, before, p, i);
                    assert(stands_for(dir, names, files, parse, run, p, i));
                }
            }
        }
    }
}

/// Whether the archive at position `p` of a load is that of the file at position
/// `i` of the directory.
spec fn stands_for(
    dir: Seq<char>,
    names: Seq<Seq<u8>>,
    files: Map<Seq<char>, Seq<u8>>,
    parse: spec_fn(Seq<u8>) -> Option<nat>,
    run: LoadedView,
    p: int,
    i: int,
) -> bool {
    &&& 0 <= p < run.entries.len()
    &&& 0 <= i < names.len()
    &&& is_index_name(names[i])
    &&& run.entries[p].hash == decode_utf8(index_stem(names[i]))
    &&& run.indices[p] == files[index_path(dir, run.entries[p].hash)]
    &&& parse(run.indices[p]) == Some(run.entries[p].ekey_length)
}

/// Whether the archive at position `p` of a load is that of a file of the directory.
spec fn has_file(
    dir: Seq<char>,
    names: Seq<Seq<u8>>,
    files: Map<Seq<char>, Seq<u8>>,
    parse: spec_fn(Seq<u8>) -> Option<nat>,
    run: LoadedView,
    p: int,
) -> bool {
    exists|i: int| #[trigger] stands_for(dir, names, files, parse, run, p, i)
}

/// An archive that has been loaded is among those whose cached indices have been
/// loaded again.
proof fn lemma_reloaded(
    dir: Seq<char>,
    names: Seq<Seq<u8>>,
    files: Map<Seq<char>, Seq<u8>>,
    parse: spec_fn(Seq<u8>) -> Option<nat>,
    entry: EntryView,
    again: LoadedView,
) -> (p: int)
    requires
        cached_run(dir, names, files, parse) == Some(again),
        entry.hash.len() > 0,
        names.contains(encode_utf8(index_name(entry.hash))),
        parse(files[index_path(dir, entry.hash)]) == Some(entry.ekey_length),
    ensures
        0 <= p < again.entries.len(),
        again.entries[p] == entry,
        again.indices[p] == files[index_path(dir, entry.hash)],
{
    lemma_cached_run(dir, names, files, parse);
    cached_index_is_recognised(entry.hash);
    let k = choose|k: int| 0 <= k < names.len() && names[k] == encode_utf8(index_name(entry.hash));
    assert(is_index_name(names[k]));
    choose|p: int| #[trigger] stands_for(dir, names, files, parse, again, p, k)
}

/// The archive `p` of those whose cached indices have been loaded again is among
/// the archives `hashes`.
proof fn lemma_reloaded_from(
    dir: Seq<char>,
    hashes: Seq<Seq<char>>,
    names: Seq<Seq<u8>>,
    files: Map<Seq<char>, Seq<u8>>,
    parse: spec_fn(Seq<u8>) -> Option<nat>,
    again: LoadedView,
    p: int,
) -> (i: int)
    requires
        cached_run(dir, names, files, parse) == Some(again),
        forall|i: int| 0 <= i < hashes.len() ==> (#[trigger] hashes[i]).len() > 0,
        forall|k: int|
            0 <= k < names.len() && is_index_name(#[trigger] names[k]) ==> exists|i: int|
                0 <= i < hashes.len() && names[k] == encode_utf8(index_name(#[trigger] hashes[i])),
        0 <= p < again.entries.len(),
    ensures
        0 <= i < hashes.len(),
        again.entries[p].hash == hashes[i],
        again.indices[p] == files[index_path(dir, hashes[i])],
        parse(again.indices[p]) == Some(again.entries[p].ekey_length),
{
    lemma_cached_run(dir, names, files, parse);
    assert(has_file(dir, names, files, parse, again, p));
    let k = choose|k: int| #[trigger] stands_for(dir, names, files, parse, again, p, k);
    assert(is_index_name(names[k]));
    let i = choose|i: int|
        0 <= i < hashes.len() && names[k] == encode_utf8(index_name(#[trigger] hashes[i]));
    cached_index_is_recognised(hashes[i]);
    i
}

/// What the archives of a build store is found again in their cached indices:
/// where the indices of the archives `hashes` have been loaded, and the directory
/// of the indices lists their files `names` in some order, and no other index, the
/// cached indices can be loaded, and a key is found in them exactly if it was
/// found before.
#[verifier::spinoff_prover]
#[verifier::rlimit(60)]
pub proof fn archives_are_found_again(
    endpoint: crate::cdn::EndpointView,
    dir: Seq<char>,
    hashes: Seq<Seq<char>>,
    remote: spec_fn(Seq<char>) -> Seq<u8>,
    parse: spec_fn(Seq<u8>) -> Option<nat>,
    cache: Map<Seq<char>, Seq<u8>>,
    names: Seq<Seq<u8>>,
    lookup: spec_fn(Seq<u8>, Seq<u8>) -> Option<IndexHit>,
    key: Seq<u8>,
)
    requires
        archive_run(endpoint, dir, hashes, remote, parse, cache) is Some,
        hashes.len() > 0,
        forall|i: int| 0 <= i < hashes.len() ==> (#[trigger] hashes[i]).len() > 0,
        forall|i: int|
            0 <= i < hashes.len() ==> names.contains(encode_utf8(index_name(#[trigger] hashes[i]))),
        forall|k: int|
            0 <= k < names.len() && is_index_name(#[trigger] names[k]) ==> exists|i: int|
                0 <= i < hashes.len() && names[k] == encode_utf8(index_name(#[trigger] hashes[i])),
    ensures
        ({
            let (first, files) = archive_run(endpoint, dir, hashes, remote, parse, cache)->0;
            &&& cached_run(dir, names, files, parse) matches Some(again)
            &&& again.entries.len() > 0
            &&& again.finds(lookup, key) is Some <==> first.finds(lookup, key) is Some
        }),
{
    let (first, files) = archive_run(endpoint, dir, hashes, remote, parse, cache)->0;
    lemma_archive_run(endpoint, dir, hashes, remote, parse, cache);
    assert forall|k: int| 0 <= k < names.len() && is_index_name(#[trigger] names[k]) implies good_index(
        dir,
        names[k],
        files,
        parse,
    ) by {
        let i = choose|i: int|
            0 <= i < hashes.len() && names[k] == encode_utf8(index_name(#[trigger] hashes[i]));
        cached_index_is_recognised(hashes[i]);
    }
    cached_load_gives_each_index(dir, names, files, parse);
    let again = cached_run(dir, names, files, parse)->0;
    let p = lemma_reloaded(dir, names, files, parse, first.entries[0], again);
    let replies1 = |position: int, stored: Seq<u8>| lookup(first.indices[position], stored);
    let replies2 = |position: int, stored: Seq<u8>| lookup(again.indices[position], stored);
    find_fails_only_without_hit(first.entries, key, replies1);
    find_fails_only_without_hit(again.entries, key, replies2);
    if first.finds(lookup, key) is Some {
        let i = choose|i: int|
            0 <= i < first.entries.len() && #[trigger] reply_at(first.entries, key, replies1, i)
                is Some;
        let p = lemma_reloaded(dir, names, files, parse, first.entries[i], again);
        assert(reply_at(again.entries, key, replies2, p) is Some);
    }
    if again.finds(lookup, key) is Some {
        let p = choose|p: int|
            0 <= p < again.entries.len() && #[trigger] reply_at(again.entries, key, replies2, p)
                is Some;
        let i = lemma_reloaded_from(dir, hashes, names, files, parse, again, p);
        assert(again.entries[p] == first.entries[i]);
        assert(reply_at(first.entries, key, replies1, i) is Some);
    }
}

/// The indices of a build are cached in
/// `<home>/.cache/casc-extract/<product>-<build>/indices`.
#[verifier::spinoff_prover]
#[verifier::rlimit(60)]
pub proof fn indices_are_cached_under_home(
    home: Seq<char>,
    product: Seq<char>,
    build_id: Seq<char>,
)
    requires
        crate::cdn::valid_name(product),
        home.len() > 0,
        home.last() != '/',
        build_id.len() > 0 ==> build_id.last() != '/',
    ensures
        indices_dir(
            crate::cdn::build_dir(crate::cdn::cache_root(Some(home)), product, build_id),
        ) == home + "/.cache/casc-extract/"@ + product + "-"@ + build_id + "/indices"@,
{
    reveal_strlit(".cache");
    reveal_strlit("casc-extract");
    reveal_strlit("/.cache/casc-extract/");
    reveal_strlit("-");
    reveal_strlit("indices");
    reveal_strlit("/indices");
    let dot_cache = crate::paths::joined(home, ".cache"@);
    let root = crate::cdn::cache_root(Some(home));
    assert(dot_cache == home.push('/') + ".cache"@);
    assert(root == dot_cache.push('/') + "casc-extract"@);
    assert(root.push('/') =~= home + "/.cache/casc-extract/"@);
    crate::cdn::build_dir_is_in_cache(root, product, build_id);
    let dir = crate::cdn::build_dir(root, product, build_id);
    assert(dir == home + "/.cache/casc-extract/"@ + product + "-"@ + build_id);
    assert(dir.last() != '/');
    assert(dir.push('/') + "indices"@ =~= dir + "/indices"@);
}

/// A file is requested from the first archive whose index knows its key, and as
/// a file of its own only if no index knows it.
pub proof fn download_prefers_archives(
    endpoint: crate::cdn::EndpointView,
    archives: Seq<EntryView>,
    key: Seq<u8>,
    replies: spec_fn(int, Seq<u8>) -> Option<IndexHit>,
)
    ensures
        ({
            let found = find_run(archives, key, replies, find_from(archives, key, 0));
            let request = data_request(endpoint, key, found);
            &&& request is Loose <==> forall|i: int|
                0 <= i < archives.len() ==> #[trigger] reply_at(archives, key, replies, i) is None
            &&& forall|first: int|
                0 <= first < archives.len() && (#[trigger] reply_at(archives, key, replies, first))
                    is Some && (forall|i: int|
                    0 <= i < first ==> #[trigger] reply_at(archives, key, replies, i) is None)
                    ==> request == (RequestView::Range {
                    url: data_url(endpoint, archives[first].hash),
                    range: range_text(
                        hit_location(archives[first], reply_at(archives, key, replies, first)->0),
                    ),
                })
        }),
{
    find_fails_only_without_hit(archives, key, replies);
    assert forall|first: int|
        0 <= first < archives.len() && (#[trigger] reply_at(archives, key, replies, first)) is Some
            && (forall|i: int|
            0 <= i < first ==> #[trigger] reply_at(archives, key, replies, i) is None) implies {
        let found = find_run(archives, key, replies, find_from(archives, key, 0));
        data_request(endpoint, key, found) == (RequestView::Range {
            url: data_url(endpoint, archives[first].hash),
            range: range_text(
                hit_location(archives[first], reply_at(archives, key, replies, first)->0),
            ),
        })
    } by {
        find_gives_first_hit(archives, key, replies, first);
    }
}

/// The byte range that is asked for covers the bytes of the file, no fewer and
/// no more.
pub proof fn range_covers_file(location: LocationView)
    requires
        location.size > 0,
        location.offset + location.size <= u64::MAX,
    ensures
        has_range(location),
        location.offset <= last_byte(location),
        last_byte(location) - location.offset + 1 == location.size,
{
}

/// Entries, hits, locations and steps of a search show their fields.
pub proof fn search_shows_its_fields(
    entry: ArchiveEntry,
    location: ArchiveLocation,
    step: FindStep,
)
    ensures
        entry@.hash == entry.hash@,
        entry@.ekey_length == entry.ekey_length,
        location@.archive_hash == location.archive_hash@,
        location@.offset == location.offset,
        location@.size == location.size,
        match step {
            FindStep::Probe { position, key } => step@ == (FindView::Probe {
                position: position as int,
                key: key@,
            }),
            FindStep::Found(found) => step@ == FindView::Found(found@),
            FindStep::NotFound => step@ == FindView::NotFound,
        },
{
}

/// A list of entries shows each of them, in order, and a list of hashes the hash of
/// each.
pub proof fn entries_show_each(entries: Seq<ArchiveEntry>, views: Seq<EntryView>)
    ensures
        entry_views(entries).len() == entries.len(),
        forall|i: int|
            0 <= i < entries.len() ==> (#[trigger] entry_views(entries)[i]).hash == entries[i].hash@
                && entry_views(entries)[i].ekey_length == entries[i].ekey_length,
        hashes_of(views).len() == views.len(),
        forall|i: int| 0 <= i < views.len() ==> #[trigger] hashes_of(views)[i] == views[i].hash,
{
}

/// Requests, events and steps for indices show the texts and bytes that they carry.
pub proof fn requests_show_their_content(
    request: DataRequest,
    event: IndexEvent,
    step: IndexStep,
)
    ensures
        match request {
            DataRequest::Range { url, range } => request@ == (RequestView::Range {
                url: url@,
                range: range@,
            }),
            DataRequest::Loose { url, key_hex } => request@ == (RequestView::Loose {
                url: url@,
                key_hex: key_hex@,
            }),
        },
        match event {
            IndexEvent::Start => event@ == IndexEventView::Start,
            IndexEvent::Cached(data) => event@ == IndexEventView::Cached(data@),
            IndexEvent::NotCached => event@ == IndexEventView::NotCached,
            IndexEvent::Fetched(data) => event@ == IndexEventView::Fetched(data@),
            IndexEvent::Stored(data) => event@ == IndexEventView::Stored(data@),
        },
        match step {
            IndexStep::Read { path } => step@ == (IndexStepView::Read { path: path@ }),
            IndexStep::Fetch { url } => step@ == (IndexStepView::Fetch { url: url@ }),
            IndexStep::Store { path, data } => step@ == (IndexStepView::Store {
                path: path@,
                data: data@,
            }),
            IndexStep::Ready { data } => step@ == (IndexStepView::Ready { data: data@ }),
        },
{
}

/// An index is asked for as many bytes of a key as it stores, from the first on, and
/// for the whole key where it stores no fewer.
pub proof fn index_is_asked_for_the_start_of_a_key(start: Seq<u8>, rest: Seq<u8>, more: nat)
    ensures
        truncated(start + rest, start.len()) == start,
        truncated(start, start.len() + more) == start,
{
    assert((start + rest).take(start.len() as int) =~= start);
    if rest.len() == 0 {
        assert(start + rest =~= start);
    }
}

/// A search asks the index at each position in turn for the bytes of the key that it
/// stores. A hit ends it: the location has exactly the offset and the size of the
/// hit, and the hash of the archive whose index it came from. Without one the search
/// goes on with the next index, and ends behind the last.
pub proof fn search_goes_from_index_to_index(
    archives: Seq<EntryView>,
    key: Seq<u8>,
    position: int,
    hit: IndexHit,
)
    requires
        0 <= position < archives.len(),
    ensures
        find_from(archives, key, position) matches FindView::Probe { position: asked, key: part }
            && asked == position && part == (if archives[position].ekey_length < key.len() {
            key.subrange(0, archives[position].ekey_length as int)
        } else {
            key
        }),
        find_after(archives, key, position, Some(hit)) matches FindView::Found(location)
            && location.archive_hash == archives[position].hash && location.offset == hit.offset
            && location.size == hit.size,
        find_after(archives, key, position, None) == find_from(archives, key, position + 1),
        find_from(archives, key, archives.len() as int) == FindView::NotFound,
{
    assert(archives[position].ekey_length < key.len() ==> key.take(
        archives[position].ekey_length as int,
    ) =~= key.subrange(0, archives[position].ekey_length as int));
}

/// A key is found where the first index that knows it places it: the location has
/// exactly that hit's offset and size, for every offset of 64 bits, and the hash of
/// that archive.
pub proof fn search_finds_what_the_index_says(
    archives: Seq<EntryView>,
    key: Seq<u8>,
    replies: spec_fn(int, Seq<u8>) -> Option<IndexHit>,
    first: int,
    hit: IndexHit,
)
    requires
        0 <= first < archives.len(),
        replies(
            first,
            if archives[first].ekey_length < key.len() {
                key.subrange(0, archives[first].ekey_length as int)
            } else {
                key
            },
        ) == Some(hit),
        forall|i: int|
            0 <= i < first ==> replies(
                i,
                if (#[trigger] archives[i]).ekey_length < key.len() {
                    key.subrange(0, archives[i].ekey_length as int)
                } else {
                    key
                },
            ) is None,
    ensures
        find_run(archives, key, replies, find_from(archives, key, 0)) matches Some(location)
            && location.archive_hash == archives[first].hash && location.offset == hit.offset
            && location.size == hit.size,
{
    assert forall|i: int| 0 <= i < archives.len() implies #[trigger] reply_at(
        archives,
        key,
        replies,
        i,
    ) == replies(
        i,
        if archives[i].ekey_length < key.len() {
            key.subrange(0, archives[i].ekey_length as int)
        } else {
            key
        },
    ) by {
        assert(archives[i].ekey_length < key.len() ==> key.take(archives[i].ekey_length as int)
            =~= key.subrange(0, archives[i].ekey_length as int));
    }
    assert forall|i: int| 0 <= i < first implies #[trigger] reply_at(archives, key, replies, i)
        is None by {
        assert(archives[i] == archives[i]);
    }
    find_gives_first_hit(archives, key, replies, first);
}

/// The header of a request for a part of an archive reads `bytes=`, a number, `-`
/// and a number; these are the first and the last byte of the file, so that exactly
/// as many bytes are asked for as the file has, whatever its size.
pub proof fn range_text_reads_back(location: LocationView)
    requires
        location.offset + location.size >= 1,
    ensures
        exists|first: Seq<char>, last: Seq<char>|
            {
                &&& #[trigger] crate::text::all_digits(first)
                &&& #[trigger] crate::text::all_digits(last)
                &&& first.len() > 0 && last.len() > 0
                &&& range_text(location) == "bytes="@ + first + "-"@ + last
                &&& crate::text::digits_value(first) == location.offset
                &&& crate::text::digits_value(last) == location.offset + location.size - 1
                &&& crate::text::digits_value(last) - crate::text::digits_value(first) + 1
                    == location.size
            },
        range_text(location) == "bytes="@ + crate::text::decimal(location.offset as nat) + "-"@
            + crate::text::decimal((location.offset + location.size - 1) as nat),
{
    let first = crate::text::decimal(location.offset as nat);
    let last = crate::text::decimal((location.offset + location.size - 1) as nat);
    crate::text::decimal_denotes(location.offset as nat);
    crate::text::decimal_denotes((location.offset + location.size - 1) as nat);
    assert(crate::text::all_digits(first) && crate::text::all_digits(last));
    assert(range_text(location) == "bytes="@ + first + "-"@ + last);
}

/// Two files of which the same bytes are asked for lie at the same place.
pub proof fn ranges_tell_files_apart(a: LocationView, b: LocationView)
    requires
        a.size > 0,
        b.size > 0,
        range_text(a) == range_text(b),
    ensures
        a.offset == b.offset,
        a.size == b.size,
{
    let a_first = crate::text::decimal(a.offset as nat);
    let a_last = crate::text::decimal((a.offset + a.size - 1) as nat);
    let b_first = crate::text::decimal(b.offset as nat);
    let b_last = crate::text::decimal((b.offset + b.size - 1) as nat);
    crate::text::decimal_denotes(a.offset as nat);
    crate::text::decimal_denotes((a.offset + a.size - 1) as nat);
    crate::text::decimal_denotes(b.offset as nat);
    crate::text::decimal_denotes((b.offset + b.size - 1) as nat);
    range_text_reads_back(a);
    range_text_reads_back(b);
    reveal_strlit("bytes=");
    reveal_strlit("-");
    let text1 = "bytes="@ + a_first + "-"@ + a_last;
    let text2 = "bytes="@ + b_first + "-"@ + b_last;
    assert(text1 == text2);
    let cut1 = (6 + a_first.len()) as int;
    let cut2 = (6 + b_first.len()) as int;
    assert(text1[cut1] == '-');
    assert(text2[cut2] == '-');
    if cut1 < cut2 {
        assert(text2[cut1] == b_first[cut1 - 6]);
        assert(crate::text::is_digit(b_first[cut1 - 6]));
    }
    if cut2 < cut1 {
        assert(text1[cut2] == a_first[cut2 - 6]);
        assert(crate::text::is_digit(a_first[cut2 - 6]));
    }
    assert(a_first =~= text1.subrange(6, cut1));
    assert(b_first =~= text2.subrange(6, cut2));
    assert(a_last =~= text1.skip(cut1 + 1));
    assert(b_last =~= text2.skip(cut2 + 1));
}

/// The byte range of a file has ends of 64 bits exactly where the file has a byte or
/// does not start with its archive, and its end is no farther than 64 bits reach.
pub proof fn range_needs_64_bits(location: LocationView)
    ensures
        last_byte(location) == location.offset + location.size - 1,
        has_range(location) <==> 1 <= location.offset + location.size <= 0xffff_ffff_ffff_ffff,
{
}

/// A status tells of success exactly if its hundreds are two.
pub proof fn success_is_two_hundred(status: u16)
    ensures
        is_success(status) <==> status / 100 == 2,
{
}

/// A file that is stored in an archive is asked for by the URL of the archive and the
/// range of its bytes; one that is not is asked for by the URL of its key.
pub proof fn data_is_asked_for_where_it_is(
    endpoint: crate::cdn::EndpointView,
    key: Seq<u8>,
    location: LocationView,
)
    requires
        location.offset + location.size >= 1,
    ensures
        data_request(endpoint, key, Some(location)) == (RequestView::Range {
            url: data_url(endpoint, location.archive_hash),
            range: "bytes="@ + crate::text::decimal(location.offset as nat) + "-"@
                + crate::text::decimal((location.offset + location.size - 1) as nat),
        }),
        data_request(endpoint, key, None) == (RequestView::Loose {
            url: data_url(endpoint, hexcode::hex_text(key)),
            key_hex: hexcode::hex_text(key),
        }),
{
}

/// The indices of a build are cached in `indices` in its directory, each in a file
/// named by the hash of its archive and `.index`, and are fetched from the URL of the
/// archive with `.index` behind it.
#[verifier::spinoff_prover]
#[verifier::rlimit(60)]
pub proof fn index_files_are_named(
    endpoint: crate::cdn::EndpointView,
    dir: Seq<char>,
    hash: Seq<char>,
)
    requires
        dir.len() > 0,
        dir[dir.len() - 1] != '/',
        hash.len() > 0 ==> hash[0] != '/',
    ensures
        indices_dir(dir) == dir + "/indices"@,
        index_name(hash) == hash + ".index"@,
        index_path(dir, hash) == dir + "/"@ + hash + ".index"@,
        index_url(endpoint, hash) == data_url(endpoint, hash) + ".index"@,
{
    reveal_strlit("indices");
    reveal_strlit("/indices");
    reveal_strlit(".index");
    reveal_strlit("/");
    assert(indices_dir(dir) =~= dir + "/indices"@);
    assert(index_name(hash)[0] != '/');
    assert(index_path(dir, hash) =~= dir + "/"@ + hash + ".index"@);
}

/// A file caches an index exactly if its name is something and `.index`; what stands
/// before names the archive.
pub proof fn index_names_end_in_index(stem: Seq<u8>, name: Seq<u8>)
    ensures
        stem.len() > 0 ==> is_index_name(stem + encode_utf8(".index"@)) && index_stem(
            stem + encode_utf8(".index"@),
        ) == stem,
        is_index_name(name) ==> index_stem(name).len() > 0 && name == index_stem(name)
            + encode_utf8(".index"@),
{
    reveal_strlit(".index");
    is_ascii_chars_encode_utf8(".index"@);
    let suffix = encode_utf8(".index"@);
    assert(suffix =~= index_suffix());
    let whole = stem + suffix;
    assert(whole.skip(whole.len() - 6) =~= suffix);
    assert(whole.take(whole.len() - 6) =~= stem);
    if is_index_name(name) {
        assert(name =~= name.take(name.len() - 6) + name.skip(name.len() - 6));
    }
}

/// What is done with a file of the cache is told by its name alone: one that is
/// something and `.index` is read, as the index of the archive that it names if that
/// is text; any other is passed over.
#[verifier::spinoff_prover]
#[verifier::rlimit(60)]
pub proof fn cached_files_are_told_by_name(dir: Seq<char>, hash: Seq<char>, name: Seq<u8>)
    requires
        dir.len() > 0,
        dir[dir.len() - 1] != '/',
        hash.len() > 0,
        hash[0] != '/',
    ensures
        cached_step(dir, encode_utf8(hash + ".index"@)) == Some(
            CachedStepView::Read { path: dir + "/"@ + hash + ".index"@, hash },
        ),
        (forall|stem: Seq<u8>| stem.len() > 0 ==> name != #[trigger] (stem + encode_utf8(".index"@)))
            ==> cached_step(dir, name) == Some(CachedStepView::Skip),
        !valid_utf8(name) && name.len() > 0 ==> cached_step(
            dir,
            name + encode_utf8(".index"@),
        ) is None,
{
    let endpoint = crate::cdn::EndpointView {
        scheme: None,
        host: Seq::empty(),
        path: Seq::empty(),
    };
    index_files_are_named(endpoint, dir, hash);
    cached_index_is_recognised(hash);
    index_names_end_in_index(name, name);
    if is_index_name(name) {
        assert(name == index_stem(name) + encode_utf8(".index"@));
    }
}

/// Each cached index adds one archive to those that are loaded, behind the others,
/// with the hash in its name, the length of the keys that it stores, and its bytes.
#[verifier::spinoff_prover]
#[verifier::rlimit(60)]
pub proof fn cached_index_adds_an_archive(
    dir: Seq<char>,
    names: Seq<Seq<u8>>,
    hash: Seq<char>,
    files: Map<Seq<char>, Seq<u8>>,
    parse: spec_fn(Seq<u8>) -> Option<nat>,
    before: LoadedView,
    ekey_length: nat,
)
    requires
        dir.len() > 0,
        dir[dir.len() - 1] != '/',
        hash.len() > 0,
        hash[0] != '/',
        cached_run(dir, names, files, parse) == Some(before),
        files.contains_key(dir + "/"@ + hash + ".index"@),
        parse(files[dir + "/"@ + hash + ".index"@]) == Some(ekey_length),
    ensures
        cached_run(dir, names.push(encode_utf8(hash + ".index"@)), files, parse) matches Some(after)
            && after.entries == before.entries.push(EntryView { hash, ekey_length })
            && after.indices == before.indices.push(files[dir + "/"@ + hash + ".index"@]),
        cached_run(dir, Seq::empty(), files, parse) matches Some(none) && none.entries.len() == 0,
        index_stems(names.push(encode_utf8(hash + ".index"@))) == index_stems(names).push(hash),
        index_stems(Seq::empty()).len() == 0,
        forall|other: Seq<u8>|
            !is_index_name(other) ==> #[trigger] index_stems(names.push(other)) == index_stems(
                names,
            ) && cached_run(dir, names.push(other), files, parse) == Some(before),
{
    assert forall|other: Seq<u8>| !is_index_name(other) implies #[trigger] index_stems(
        names.push(other),
    ) == index_stems(names) && cached_run(dir, names.push(other), files, parse) == Some(before) by {
        assert(names.push(other).drop_last() =~= names);
    }
    let name = encode_utf8(hash + ".index"@);
    cached_files_are_told_by_name(dir, hash, name);
    cached_index_is_recognised(hash);
    assert(names.push(name).drop_last() =~= names);
}

/// What is printed before an index is loaded tells its place, counted from one, the
/// number of indices, and the archive.
pub proof fn index_notice_tells_the_place(position: nat, total: nat, hash: Seq<char>)
    ensures
        index_notice(position, total, hash) == "  ["@ + crate::text::decimal(position + 1) + "/"@
            + crate::text::decimal(total) + "] Downloading index "@ + hash,
{
}

/// Each step to an index follows from the one before: the cache is asked at the path
/// of the index, its bytes are used as they are, and bytes that were fetched from the
/// URL of the index are stored at that path as they came, and then used.
pub proof fn index_steps_hand_on_the_bytes(
    endpoint: crate::cdn::EndpointView,
    dir: Seq<char>,
    hash: Seq<char>,
    data: Seq<u8>,
)
    requires
        dir.len() > 0,
        dir[dir.len() - 1] != '/',
        hash.len() > 0 ==> hash[0] != '/',
    ensures
        index_next(endpoint, dir, hash, IndexEventView::Start) == (IndexStepView::Read {
            path: dir + "/"@ + hash + ".index"@,
        }),
        index_next(endpoint, dir, hash, IndexEventView::Cached(data)) == (IndexStepView::Ready {
            data,
        }),
        index_next(endpoint, dir, hash, IndexEventView::NotCached) == (IndexStepView::Fetch {
            url: data_url(endpoint, hash) + ".index"@,
        }),
        index_next(endpoint, dir, hash, IndexEventView::Fetched(data)) == (IndexStepView::Store {
            path: dir + "/"@ + hash + ".index"@,
            data,
        }),
        index_next(endpoint, dir, hash, IndexEventView::Stored(data)) == (IndexStepView::Ready {
            data,
        }),
{
    index_files_are_named(endpoint, dir, hash);
}

} // verus!
