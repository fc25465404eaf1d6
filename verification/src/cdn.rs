//! Products, the session with a delivery network, and the files of a build.

use vstd::prelude::*;
use vstd::string::*;
use vstd::utf8::*;

use crate::error::Error;
use crate::hexcode;
use crate::paths::join;
use crate::text::chars_of;

verus! {

/// The fields of a version that are read.
#[derive(Debug, Clone, Copy, PartialEq, Eq, Structural)]
pub enum VersionField {
    /// The key of the build configuration.
    BuildConfig,
    /// The key of the configuration of the delivery network.
    CdnConfig,
    /// The number of the build.
    BuildId,
}

impl VersionField {
    /// The name of the field's column.
    pub open spec fn column(self) -> Seq<char> {
        match self {
            VersionField::BuildConfig => "BuildConfig"@,
            VersionField::CdnConfig => "CDNConfig"@,
            VersionField::BuildId => "BuildId"@,
        }
    }

    /// The name of the field's column.
    pub fn name(&self) -> (res: &'static str)
        ensures
            res@ == self.column(),
    {
        match self {
            VersionField::BuildConfig => "BuildConfig",
            VersionField::CdnConfig => "CDNConfig",
            VersionField::BuildId => "BuildId",
        }
    }
}

/// The characters that a product code may hold: ASCII letters and digits, `_` and `-`.
pub open spec fn is_name_char(c: char) -> bool {
    ||| 'a' <= c <= 'z'
    ||| 'A' <= c <= 'Z'
    ||| '0' <= c <= '9'
    ||| c == '_'
    ||| c == '-'
}

/// A product code: at least one character, and only those that it may hold.
pub open spec fn valid_name(name: Seq<char>) -> bool {
    &&& name.len() > 0
    &&& forall|i: int| 0 <= i < name.len() ==> is_name_char(#[trigger] name[i])
}

/// Accepts a product code, or refuses it with its text.
pub fn validate_product_name(name: &str) -> (res: Result<(), Error>)
    ensures
        match res {
            Ok(_) => valid_name(name@),
            Err(Error::InvalidProductName { name: refused }) => !valid_name(name@) && refused@
                == name@,
            Err(_) => false,
        },
{
    let chars = chars_of(name);
    let mut valid: bool = chars.len() > 0;
    let mut i: usize = 0;
    while i < chars.len()
        invariant
            i <= chars@.len(),
            chars@ == name@,
            valid <==> (name@.len() > 0 && forall|k: int|
                0 <= k < i ==> is_name_char(#[trigger] name@[k])),
        decreases chars@.len() - i,
    {
        let c: char = chars[i];
        if !(('a' <= c && c <= 'z') || ('A' <= c && c <= 'Z') || ('0' <= c && c <= '9') || c == '_'
            || c == '-') {
            valid = false;
        }
        i = i + 1;
    }
    if valid {
        Ok(())
    } else {
        Err(Error::InvalidProductName { name: name.to_string() })
    }
}

/// A product, known by its code, such as `wow` or `wowt`.
#[derive(Debug, PartialEq, Eq)]
pub struct Product {
    name: String,
}

impl View for Product {
    type V = Seq<char>;

    closed spec fn view(&self) -> Seq<char> {
        self.name@
    }
}

impl Product {
    #[verifier::type_invariant]
    spec fn has_valid_name(self) -> bool {
        valid_name(self.name@)
    }

    /// The product with the code `name`.
    pub fn new(name: &str) -> (res: Result<Product, Error>)
        ensures
            match res {
                Ok(product) => valid_name(name@) && product@ == name@,
                Err(Error::InvalidProductName { name: refused }) => !valid_name(name@) && refused@
                    == name@,
                Err(_) => false,
            },
    {
        match validate_product_name(name) {
            Ok(_) => Ok(Product { name: name.to_string() }),
            Err(e) => Err(e),
        }
    }

    /// The product `wow`.
    pub fn wow() -> (product: Product)
        ensures
            product@ == "wow"@,
    {
        proof {
            reveal_strlit("wow");
        }
        Product { name: "wow".to_string() }
    }

    /// The product's code.
    pub fn name(&self) -> (name: &str)
        ensures
            name@ == self@,
            valid_name(self@),
    {
        proof {
            use_type_invariant(self);
        }
        self.name.as_str()
    }

    /// The query for the product's delivery networks.
    pub fn cdns_query_path(&self) -> (path: String)
        ensures
            path@ == "v1/products/"@ + self@ + "/cdns"@,
    {
        "v1/products/".to_string().concat(self.name()).concat("/cdns")
    }

    /// The query for the product's versions.
    pub fn versions_query_path(&self) -> (path: String)
        ensures
            path@ == "v1/products/"@ + self@ + "/versions"@,
    {
        "v1/products/".to_string().concat(self.name()).concat("/versions")
    }

    /// The directory under `cache_root` that holds the files of one build.
    pub fn build_cache_dir(&self, cache_root: &str, build_id: &str) -> (dir: String)
        ensures
            dir@ == build_dir(cache_root@, self@, build_id@),
    {
        let leaf = self.name().to_string().concat("-").concat(build_id);
        join(cache_root, leaf.as_str())
    }
}

/// The directory under `cache_root` that holds the files of the build
/// `build_id` of the product `name`.
pub open spec fn build_dir(cache_root: Seq<char>, name: Seq<char>, build_id: Seq<char>) -> Seq<
    char,
> {
    crate::paths::joined(cache_root, name + "-"@ + build_id)
}

impl Clone for Product {
    fn clone(&self) -> (res: Product)
        ensures
            res@ == self@,
    {
        proof {
            use_type_invariant(self);
        }
        Product { name: self.name.clone() }
    }
}

impl Default for Product {
    fn default() -> (res: Product)
        ensures
            res@ == "wow"@,
    {
        Product::wow()
    }
}

/// Where the files of a delivery network are found.
#[derive(Debug)]
pub struct CdnEndpoint {
    /// The URL scheme, `https` unless it is given.
    pub scheme: Option<String>,
    /// The host name.
    pub host: String,
    /// The path under which the host keeps the product's files.
    pub path: String,
}

/// The mathematical content of a [`CdnEndpoint`].
pub struct EndpointView {
    pub scheme: Option<Seq<char>>,
    pub host: Seq<char>,
    pub path: Seq<char>,
}

impl View for CdnEndpoint {
    type V = EndpointView;

    open spec fn view(&self) -> EndpointView {
        EndpointView {
            scheme: match self.scheme {
                Some(scheme) => Some(scheme@),
                None => None,
            },
            host: self.host@,
            path: self.path@,
        }
    }
}

/// The fields of the newest version, as far as its row has them.
#[derive(Debug)]
pub struct VersionsRow {
    pub build_config: Option<String>,
    pub cdn_config: Option<String>,
    pub build_id: Option<String>,
}

/// What a build configuration says of the files that are fetched first.
#[derive(Debug)]
pub struct BuildConfig {
    /// The key, in hexadecimal, by which the encoding file is fetched.
    pub encoding_key: Option<String>,
    /// The content key, in hexadecimal, of the root file.
    pub root: Option<String>,
}

/// The endpoint that the first row of the list of delivery networks gives, if
/// the list has a row.
pub fn extract_endpoint(first_row: Option<CdnEndpoint>) -> (res: Result<CdnEndpoint, Error>)
    ensures
        match (first_row, res) {
            (Some(endpoint), Ok(found)) => found == endpoint,
            (None, Err(Error::NoCdnRows)) => true,
            _ => false,
        },
{
    match first_row {
        Some(endpoint) => Ok(endpoint),
        None => Err(Error::NoCdnRows),
    }
}

/// What the first row of the list of versions gives: the two keys and the
/// number of the build. A missing row is reported first, then the first missing
/// field, then the first key that is not hexadecimal.
pub open spec fn version_fields(first_row: Option<VersionsRow>) -> Result<
    (Seq<u8>, Seq<u8>, Seq<char>),
    Error,
> {
    match first_row {
        None => Err(Error::NoVersionRows),
        Some(row) => match (row.build_config, row.cdn_config, row.build_id) {
            (None, _, _) => Err(Error::MissingVersionField { field: VersionField::BuildConfig }),
            (Some(_), None, _) => Err(
                Error::MissingVersionField { field: VersionField::CdnConfig },
            ),
            (Some(_), Some(_), None) => Err(
                Error::MissingVersionField { field: VersionField::BuildId },
            ),
            (Some(build_config), Some(cdn_config), Some(build_id)) => match (
                hexcode::hex_decoded(encode_utf8(build_config@)),
                hexcode::hex_decoded(encode_utf8(cdn_config@)),
            ) {
                (Err(cause), _) => Err(
                    Error::InvalidVersionHex { field: VersionField::BuildConfig, cause },
                ),
                (Ok(_), Err(cause)) => Err(
                    Error::InvalidVersionHex { field: VersionField::CdnConfig, cause },
                ),
                (Ok(build_key), Ok(cdn_key)) => Ok((build_key, cdn_key, build_id@)),
            },
        },
    }
}

/// The keys of the build and network configurations and the number of the
/// build, from the first row of the list of versions.
pub fn extract_version_fields(first_row: Option<VersionsRow>) -> (res: Result<
    (Vec<u8>, Vec<u8>, String),
    Error,
>)
    ensures
        match res {
            Ok((build_key, cdn_key, build_id)) => version_fields(first_row) == Ok::<_, Error>(
                (build_key@, cdn_key@, build_id@),
            ),
            Err(e) => version_fields(first_row) == Err::<(Seq<u8>, Seq<u8>, Seq<char>), Error>(e),
        },
{
    let row = match first_row {
        Some(row) => row,
        None => return Err(Error::NoVersionRows),
    };
    let build_config_hex = match row.build_config {
        Some(text) => text,
        None => return Err(Error::MissingVersionField { field: VersionField::BuildConfig }),
    };
    let cdn_config_hex = match row.cdn_config {
        Some(text) => text,
        None => return Err(Error::MissingVersionField { field: VersionField::CdnConfig }),
    };
    let build_id = match row.build_id {
        Some(text) => text,
        None => return Err(Error::MissingVersionField { field: VersionField::BuildId }),
    };
    let build_config_key = match hexcode::decode(build_config_hex.as_str()) {
        Ok(key) => key,
        Err(cause) => {
            return Err(Error::InvalidVersionHex { field: VersionField::BuildConfig, cause });
        },
    };
    let cdn_config_key = match hexcode::decode(cdn_config_hex.as_str()) {
        Ok(key) => key,
        Err(cause) => {
            return Err(Error::InvalidVersionHex { field: VersionField::CdnConfig, cause });
        },
    };
    Ok((build_config_key, cdn_config_key, build_id))
}

/// The key by which the encoding file is fetched.
pub open spec fn encoding_key_of(config: BuildConfig) -> Result<Seq<u8>, Error> {
    match config.encoding_key {
        None => Err(Error::MissingEncodingKey),
        Some(text) => match hexcode::hex_decoded(encode_utf8(text@)) {
            Ok(key) => Ok(key),
            Err(cause) => Err(Error::InvalidEncodingKeyHex { cause }),
        },
    }
}

/// The key by which the encoding file is fetched.
pub fn encoding_cdn_key(config: &BuildConfig) -> (res: Result<Vec<u8>, Error>)
    ensures
        match res {
            Ok(key) => encoding_key_of(*config) == Ok::<_, Error>(key@),
            Err(e) => encoding_key_of(*config) == Err::<Seq<u8>, Error>(e),
        },
{
    match &config.encoding_key {
        None => Err(Error::MissingEncodingKey),
        Some(text) => match hexcode::decode(text.as_str()) {
            Ok(key) => Ok(key),
            Err(cause) => Err(Error::InvalidEncodingKeyHex { cause }),
        },
    }
}

/// The content key, in hexadecimal, of the root file.
pub fn root_content_key(config: &BuildConfig) -> (res: Result<&str, Error>)
    ensures
        match config.root {
            None => res matches Err(Error::MissingRoot),
            Some(text) => res matches Ok(root) && root@ == text@,
        },
{
    match &config.root {
        None => Err(Error::MissingRoot),
        Some(text) => Ok(text.as_str()),
    }
}

/// The key by which the root file is fetched, where `listed` is what the
/// encoding file lists for the root file's content key.
pub fn root_cdn_key(config: &BuildConfig, listed: Option<Vec<u8>>) -> (res: Result<Vec<u8>, Error>)
    ensures
        match (config.root, listed) {
            (None, _) => res matches Err(Error::MissingRoot),
            (Some(_), None) => res matches Err(Error::RootNotFound),
            (Some(_), Some(found)) => res matches Ok(key) && key@ == found@,
        },
{
    match root_content_key(config) {
        Err(e) => Err(e),
        Ok(_) => match listed {
            None => Err(Error::RootNotFound),
            Some(key) => Ok(key),
        },
    }
}

/// The directory of all caches, under the home directory or, where that is
/// unknown, under `/tmp`.
pub open spec fn cache_root(home: Option<Seq<char>>) -> Seq<char> {
    let base = match home {
        Some(dir) => dir,
        None => "/tmp"@,
    };
    crate::paths::joined(crate::paths::joined(base, ".cache"@), "casc-extract"@)
}

/// The text behind an optional reference.
pub open spec fn text_of(text: Option<&str>) -> Option<Seq<char>> {
    match text {
        Some(t) => Some(t@),
        None => None,
    }
}

/// The directory of all caches.
pub fn default_cache_root(home: Option<&str>) -> (root: String)
    ensures
        root@ == cache_root(text_of(home)),
{
    let base = match home {
        Some(dir) => dir,
        None => "/tmp",
    };
    join(join(base, ".cache").as_str(), "casc-extract")
}

/// The cached files of one build.
#[derive(Debug)]
pub struct CachedFiles {
    /// The path of the root file.
    pub root: String,
    /// The path of the encoding file.
    pub encoding: String,
}

/// The path of the root file in the directory of a build.
pub open spec fn root_file(dir: Seq<char>) -> Seq<char> {
    crate::paths::joined(dir, "root.bin"@)
}

/// The path of the encoding file in the directory of a build.
pub open spec fn encoding_file(dir: Seq<char>) -> Seq<char> {
    crate::paths::joined(dir, "encoding.bin"@)
}

/// The files to read for a build of the product `wow`.
pub fn load_cached(home: Option<&str>, build_id: &str) -> (files: CachedFiles)
    ensures
        files.root@ == root_file(build_dir(cache_root(text_of(home)), "wow"@, build_id@)),
        files.encoding@ == encoding_file(build_dir(cache_root(text_of(home)), "wow"@, build_id@)),
{
    load_cached_product(&Product::wow(), home, build_id)
}

/// The files to read for a build of a product.
pub fn load_cached_product(product: &Product, home: Option<&str>, build_id: &str) -> (files:
    CachedFiles)
    ensures
        files.root@ == root_file(build_dir(cache_root(text_of(home)), product@, build_id@)),
        files.encoding@ == encoding_file(
            build_dir(cache_root(text_of(home)), product@, build_id@),
        ),
{
    let root = default_cache_root(home);
    let dir = product.build_cache_dir(root.as_str(), build_id);
    CachedFiles {
        root: join(dir.as_str(), "root.bin"),
        encoding: join(dir.as_str(), "encoding.bin"),
    }
}

/// The characters whose UTF-8 bytes stand at `from` to `to` in that of `s`.
pub open spec fn byte_range(s: Seq<char>, from: int, to: int) -> Seq<char> {
    decode_utf8(encode_utf8(s).subrange(from, to))
}

/// Whether the first four bytes of `hash` can be cut into two pairs: there are
/// four, and no character crosses the end of a pair.
pub open spec fn has_shards(hash: Seq<char>) -> bool {
    &&& is_char_boundary(encode_utf8(hash), 2)
    &&& is_char_boundary(encode_utf8(hash), 4)
}

/// The URL of the data file `hash`: two levels of directories carry its first
/// and second pair of bytes.
pub open spec fn data_url(endpoint: EndpointView, hash: Seq<char>) -> Seq<char> {
    let scheme = match endpoint.scheme {
        Some(given) => given,
        None => "https"@,
    };
    scheme + "://"@ + endpoint.host + "/"@ + endpoint.path + "/data/"@ + byte_range(hash, 0, 2)
        + "/"@ + byte_range(hash, 2, 4) + "/"@ + hash
}

/// A session with a delivery network, for one build of a product.
#[derive(Debug)]
pub struct CdnSession {
    product: Product,
    endpoint: CdnEndpoint,
    build_config_key: Vec<u8>,
    cdn_config_key: Vec<u8>,
    build_id: String,
}

/// The mathematical content of a [`CdnSession`].
pub struct SessionView {
    pub product: Seq<char>,
    pub endpoint: EndpointView,
    pub build_config_key: Seq<u8>,
    pub cdn_config_key: Seq<u8>,
    pub build_id: Seq<char>,
}

impl View for CdnSession {
    type V = SessionView;

    closed spec fn view(&self) -> SessionView {
        SessionView {
            product: self.product@,
            endpoint: self.endpoint@,
            build_config_key: self.build_config_key@,
            cdn_config_key: self.cdn_config_key@,
            build_id: self.build_id@,
        }
    }
}

/// What comes of connecting for `product`, given the first rows of the lists of
/// delivery networks and of versions. The networks are looked at first.
pub open spec fn connected(
    product: Seq<char>,
    cdns: Option<CdnEndpoint>,
    versions: Option<VersionsRow>,
) -> Result<SessionView, Error> {
    match (cdns, version_fields(versions)) {
        (None, _) => Err(Error::NoCdnRows),
        (Some(_), Err(e)) => Err(e),
        (Some(endpoint), Ok((build_config_key, cdn_config_key, build_id))) => Ok(
            SessionView {
                product,
                endpoint: endpoint@,
                build_config_key,
                cdn_config_key,
                build_id,
            },
        ),
    }
}

impl CdnSession {
    /// The session for the newest build of the product `wow`.
    pub fn connect(cdns: Option<CdnEndpoint>, versions: Option<VersionsRow>) -> (res: Result<
        CdnSession,
        Error,
    >)
        ensures
            match res {
                Ok(session) => connected("wow"@, cdns, versions) == Ok::<_, Error>(session@),
                Err(e) => connected("wow"@, cdns, versions) == Err::<SessionView, Error>(e),
            },
    {
        CdnSession::connect_product(Product::wow(), cdns, versions)
    }

    /// The session for the newest build of a product, given the first rows of
    /// its lists of delivery networks and of versions.
    pub fn connect_product(
        product: Product,
        cdns: Option<CdnEndpoint>,
        versions: Option<VersionsRow>,
    ) -> (res: Result<CdnSession, Error>)
        ensures
            match res {
                Ok(session) => connected(product@, cdns, versions) == Ok::<_, Error>(session@),
                Err(e) => connected(product@, cdns, versions) == Err::<SessionView, Error>(e),
            },
    {
        let endpoint = match extract_endpoint(cdns) {
            Ok(endpoint) => endpoint,
            Err(e) => return Err(e),
        };
        match extract_version_fields(versions) {
            Ok((build_config_key, cdn_config_key, build_id)) => Ok(
                CdnSession { product, endpoint, build_config_key, cdn_config_key, build_id },
            ),
            Err(e) => Err(e),
        }
    }

    /// The directory that caches the files of the session's build.
    pub fn cache_dir(&self, home: Option<&str>) -> (dir: String)
        ensures
            dir@ == build_dir(cache_root(text_of(home)), self@.product, self@.build_id),
    {
        let root = default_cache_root(home);
        self.product.build_cache_dir(root.as_str(), self.build_id.as_str())
    }

    /// The number of the session's build.
    pub fn build_id(&self) -> (id: &str)
        ensures
            id@ == self@.build_id,
    {
        self.build_id.as_str()
    }

    /// The session's product.
    pub fn product(&self) -> (product: &Product)
        ensures
            product@ == self@.product,
    {
        &self.product
    }

    /// Where the session's files are found.
    pub fn endpoint(&self) -> (endpoint: &CdnEndpoint)
        ensures
            endpoint@ == self@.endpoint,
    {
        &self.endpoint
    }

    /// The key of the configuration of the delivery network.
    pub fn cdn_config_key(&self) -> (key: &Vec<u8>)
        ensures
            key@ == self@.cdn_config_key,
    {
        &self.cdn_config_key
    }

    /// The URL of the data file `hash`.
    pub fn build_data_url(&self, hash: &str) -> (url: String)
        requires
            has_shards(hash@),
        ensures
            url@ == data_url(self@.endpoint, hash@),
    {
        let scheme = match &self.endpoint.scheme {
            Some(scheme) => scheme.as_str(),
            None => "https",
        };
        let (head, _) = hash.split_at(4);
        proof {
            lemma_shards(hash@);
            encode_utf8_decode_utf8(head@);
        }
        let (first, second) = head.split_at(2);
        proof {
            encode_utf8_decode_utf8(first@);
            encode_utf8_decode_utf8(second@);
            let bytes = encode_utf8(hash@);
            assert(bytes.subrange(0, 4).subrange(0, 2) == bytes.subrange(0, 2));
            assert(bytes.subrange(0, 4).subrange(2, 4) == bytes.subrange(2, 4));
        }
        scheme.to_string().concat("://").concat(self.endpoint.host.as_str()).concat("/").concat(
            self.endpoint.path.as_str(),
        ).concat("/data/").concat(first).concat("/").concat(second).concat("/").concat(hash)
    }
}

/// The first four bytes of a hash that can be cut in pairs are valid UTF-8, and
/// a character starts at the second pair.
proof fn lemma_shards(hash: Seq<char>)
    requires
        has_shards(hash),
    ensures
        encode_utf8(hash).len() >= 4,
        valid_utf8(encode_utf8(hash).subrange(0, 4)),
        is_char_boundary(encode_utf8(hash).subrange(0, 4), 2),
{
    let bytes = encode_utf8(hash);
    encode_utf8_valid_utf8(hash);
    assert(4 <= bytes.len());
    valid_utf8_split(bytes, 4);
    is_char_boundary_iff_not_is_continuation_byte(bytes, 2);
    is_char_boundary_iff_not_is_continuation_byte(bytes.subrange(0, 4), 2);
}

/// What has just been done on the way to a cached build, with what has been
/// fetched so far and is still needed.
#[derive(Debug)]
pub enum InitEvent {
    /// Nothing yet.
    Start,
    /// The directory of the build exists.
    DirCreated,
    /// The build configuration has been fetched.
    BuildConfigFetched { config: BuildConfig },
    /// The encoding file has been fetched.
    EncodingFetched { config: BuildConfig, encoding: Vec<u8> },
    /// The encoding file has been asked for the root file.
    RootListed { config: BuildConfig, encoding: Vec<u8>, listed: Option<Vec<u8>> },
    /// The root file has been fetched.
    RootFetched { encoding: Vec<u8>, root: Vec<u8> },
    /// The root file has been written.
    RootWritten { encoding: Vec<u8> },
    /// The encoding file has been written.
    EncodingWritten,
}

/// The mathematical content of an [`InitEvent`].
pub enum InitEventView {
    Start,
    DirCreated,
    BuildConfigFetched { config: BuildConfig },
    EncodingFetched { config: BuildConfig, encoding: Seq<u8> },
    RootListed { config: BuildConfig, encoding: Seq<u8>, listed: Option<Seq<u8>> },
    RootFetched { encoding: Seq<u8>, root: Seq<u8> },
    RootWritten { encoding: Seq<u8> },
    EncodingWritten,
}

/// The bytes behind an optional vector.
pub open spec fn bytes_of(bytes: Option<Vec<u8>>) -> Option<Seq<u8>> {
    match bytes {
        Some(b) => Some(b@),
        None => None,
    }
}

impl View for InitEvent {
    type V = InitEventView;

    open spec fn view(&self) -> InitEventView {
        match *self {
            InitEvent::Start => InitEventView::Start,
            InitEvent::DirCreated => InitEventView::DirCreated,
            InitEvent::BuildConfigFetched { config } => InitEventView::BuildConfigFetched {
                config,
            },
            InitEvent::EncodingFetched { config, encoding } => InitEventView::EncodingFetched {
                config,
                encoding: encoding@,
            },
            InitEvent::RootListed { config, encoding, listed } => InitEventView::RootListed {
                config,
                encoding: encoding@,
                listed: bytes_of(listed),
            },
            InitEvent::RootFetched { encoding, root } => InitEventView::RootFetched {
                encoding: encoding@,
                root: root@,
            },
            InitEvent::RootWritten { encoding } => InitEventView::RootWritten {
                encoding: encoding@,
            },
            InitEvent::EncodingWritten => InitEventView::EncodingWritten,
        }
    }
}

/// What is to be done next on the way to a cached build, with what the event that
/// follows is to hand on.
#[derive(Debug)]
pub enum InitStep {
    /// Create a directory.
    CreateDir { dir: String },
    /// Fetch the build configuration.
    FetchBuildConfig { key: Vec<u8> },
    /// Fetch the encoding file.
    FetchEncoding { key: Vec<u8>, config: BuildConfig },
    /// Ask the encoding file for a content key, given in hexadecimal.
    ListRoot { content_key: String, config: BuildConfig, encoding: Vec<u8> },
    /// Fetch the root file.
    FetchRoot { key: Vec<u8>, encoding: Vec<u8> },
    /// Write `root` to `path`.
    WriteRoot { path: String, root: Vec<u8>, encoding: Vec<u8> },
    /// Write `encoding` to `path`.
    WriteEncoding { path: String, encoding: Vec<u8> },
    /// The build is cached.
    Done { dir: String },
}

/// The mathematical content of an [`InitStep`].
pub enum InitStepView {
    CreateDir { dir: Seq<char> },
    FetchBuildConfig { key: Seq<u8> },
    FetchEncoding { key: Seq<u8>, config: BuildConfig },
    ListRoot { content_key: Seq<char>, config: BuildConfig, encoding: Seq<u8> },
    FetchRoot { key: Seq<u8>, encoding: Seq<u8> },
    WriteRoot { path: Seq<char>, root: Seq<u8>, encoding: Seq<u8> },
    WriteEncoding { path: Seq<char>, encoding: Seq<u8> },
    Done { dir: Seq<char> },
}

impl View for InitStep {
    type V = InitStepView;

    open spec fn view(&self) -> InitStepView {
        match *self {
            InitStep::CreateDir { dir } => InitStepView::CreateDir { dir: dir@ },
            InitStep::FetchBuildConfig { key } => InitStepView::FetchBuildConfig { key: key@ },
            InitStep::FetchEncoding { key, config } => InitStepView::FetchEncoding {
                key: key@,
                config,
            },
            InitStep::ListRoot { content_key, config, encoding } => InitStepView::ListRoot {
                content_key: content_key@,
                config,
                encoding: encoding@,
            },
            InitStep::FetchRoot { key, encoding } => InitStepView::FetchRoot {
                key: key@,
                encoding: encoding@,
            },
            InitStep::WriteRoot { path, root, encoding } => InitStepView::WriteRoot {
                path: path@,
                root: root@,
                encoding: encoding@,
            },
            InitStep::WriteEncoding { path, encoding } => InitStepView::WriteEncoding {
                path: path@,
                encoding: encoding@,
            },
            InitStep::Done { dir } => InitStepView::Done { dir: dir@ },
        }
    }
}

/// The step that follows an event, when the build is cached in `dir`. The
/// encoding file is fetched before the root file, since it alone tells the key
/// of the root file; both are written, as they were fetched, only when both have
/// been fetched.
pub open spec fn init_next(session: SessionView, dir: Seq<char>, event: InitEventView) -> Result<
    InitStepView,
    Error,
> {
    match event {
        InitEventView::Start => Ok(InitStepView::CreateDir { dir }),
        InitEventView::DirCreated => Ok(
            InitStepView::FetchBuildConfig { key: session.build_config_key },
        ),
        InitEventView::BuildConfigFetched { config } => match encoding_key_of(config) {
            Ok(key) => Ok(InitStepView::FetchEncoding { key, config }),
            Err(e) => Err(e),
        },
        InitEventView::EncodingFetched { config, encoding } => match config.root {
            Some(text) => Ok(InitStepView::ListRoot { content_key: text@, config, encoding }),
            None => Err(Error::MissingRoot),
        },
        InitEventView::RootListed { config, encoding, listed } => match (config.root, listed) {
            (None, _) => Err(Error::MissingRoot),
            (Some(_), None) => Err(Error::RootNotFound),
            (Some(_), Some(key)) => Ok(InitStepView::FetchRoot { key, encoding }),
        },
        InitEventView::RootFetched { encoding, root } => Ok(
            InitStepView::WriteRoot { path: root_file(dir), root, encoding },
        ),
        InitEventView::RootWritten { encoding } => Ok(
            InitStepView::WriteEncoding { path: encoding_file(dir), encoding },
        ),
        InitEventView::EncodingWritten => Ok(InitStepView::Done { dir }),
    }
}

impl CdnSession {
    /// What follows `event` on the way to a cached build.
    pub fn init(&self, home: Option<&str>, event: InitEvent) -> (res: Result<InitStep, Error>)
        ensures
            ({
                let dir = build_dir(cache_root(text_of(home)), self@.product, self@.build_id);
                match res {
                    Ok(step) => init_next(self@, dir, event@) == Ok::<_, Error>(step@),
                    Err(e) => init_next(self@, dir, event@) == Err::<InitStepView, Error>(e),
                }
            }),
    {
        let dir = self.cache_dir(home);
        match event {
            InitEvent::Start => Ok(InitStep::CreateDir { dir }),
            InitEvent::DirCreated => Ok(
                InitStep::FetchBuildConfig { key: self.build_config_key.clone() },
            ),
            InitEvent::BuildConfigFetched { config } => match encoding_cdn_key(&config) {
                Ok(key) => Ok(InitStep::FetchEncoding { key, config }),
                Err(e) => Err(e),
            },
            InitEvent::EncodingFetched { config, encoding } => {
                let content_key = match root_content_key(&config) {
                    Ok(text) => text.to_string(),
                    Err(e) => return Err(e),
                };
                Ok(InitStep::ListRoot { content_key, config, encoding })
            },
            InitEvent::RootListed { config, encoding, listed } => match root_cdn_key(
                &config,
                listed,
            ) {
                Ok(key) => Ok(InitStep::FetchRoot { key, encoding }),
                Err(e) => Err(e),
            },
            InitEvent::RootFetched { encoding, root } => Ok(
                InitStep::WriteRoot { path: join(dir.as_str(), "root.bin"), root, encoding },
            ),
            InitEvent::RootWritten { encoding } => Ok(
                InitStep::WriteEncoding { path: join(dir.as_str(), "encoding.bin"), encoding },
            ),
            InitEvent::EncodingWritten => Ok(InitStep::Done { dir }),
        }
    }
}

/// No product code holds a path separator or a dot, so none can name another
/// directory than one of its own.
pub proof fn product_name_is_no_path(name: Seq<char>)
    requires
        valid_name(name),
    ensures
        !name.contains('/'),
        !name.contains('\\'),
        !name.contains('.'),
{
    if name.contains('/') || name.contains('\\') || name.contains('.') {
        let i = choose|i: int|
            0 <= i < name.len() && (name[i] == '/' || name[i] == '\\' || name[i] == '.');
        assert(is_name_char(name[i]));
    }
}

/// The directory of a build lies in the cache: its path is that of the cache,
/// one separator, and a part that starts with the product code.
pub proof fn build_dir_is_in_cache(cache_root: Seq<char>, name: Seq<char>, build_id: Seq<char>)
    requires
        valid_name(name),
    ensures
        build_dir(cache_root, name, build_id) == (if cache_root.len() == 0 || cache_root.last()
            == '/' {
            cache_root
        } else {
            cache_root.push('/')
        }) + name + "-"@ + build_id,
{
    let leaf = name + "-"@ + build_id;
    assert(leaf[0] == name[0]);
    assert(is_name_char(name[0]));
    assert(build_dir(cache_root, name, build_id) =~= (if cache_root.len() == 0 || cache_root.last()
        == '/' {
        cache_root
    } else {
        cache_root.push('/')
    }) + name + "-"@ + build_id);
}

/// Two products never share the directory of one build number.
pub proof fn products_have_their_own_dirs(
    cache_root: Seq<char>,
    name1: Seq<char>,
    name2: Seq<char>,
    build_id: Seq<char>,
)
    requires
        valid_name(name1),
        valid_name(name2),
        build_dir(cache_root, name1, build_id) == build_dir(cache_root, name2, build_id),
    ensures
        name1 == name2,
{
    build_dir_is_in_cache(cache_root, name1, build_id);
    build_dir_is_in_cache(cache_root, name2, build_id);
    let base = if cache_root.len() == 0 || cache_root.last() == '/' {
        cache_root
    } else {
        cache_root.push('/')
    };
    let path1 = base + name1 + "-"@ + build_id;
    let path2 = base + name2 + "-"@ + build_id;
    assert(path1.len() == base.len() + name1.len() + "-"@.len() + build_id.len());
    assert(path2.len() == base.len() + name2.len() + "-"@.len() + build_id.len());
    assert forall|i: int| 0 <= i < name1.len() implies name1[i] == name2[i] by {
        assert(path1[base.len() + i] == name1[i]);
        assert(path2[base.len() + i] == name2[i]);
    }
    assert(name1 =~= name2);
}

/// No two builds share a directory, be they of one product or of two, as long as
/// the numbers of the builds hold no hyphen.
pub proof fn builds_have_their_own_dirs(
    cache_root: Seq<char>,
    name1: Seq<char>,
    build1: Seq<char>,
    name2: Seq<char>,
    build2: Seq<char>,
)
    requires
        valid_name(name1),
        valid_name(name2),
        !build1.contains('-'),
        !build2.contains('-'),
        build_dir(cache_root, name1, build1) == build_dir(cache_root, name2, build2),
    ensures
        name1 == name2,
        build1 == build2,
{
    reveal_strlit("-");
    build_dir_is_in_cache(cache_root, name1, build1);
    build_dir_is_in_cache(cache_root, name2, build2);
    let base = if cache_root.len() == 0 || cache_root.last() == '/' {
        cache_root
    } else {
        cache_root.push('/')
    };
    let path1 = base + name1 + "-"@ + build1;
    let path2 = base + name2 + "-"@ + build2;
    let cut1 = (base.len() + name1.len()) as int;
    let cut2 = (base.len() + name2.len()) as int;
    assert(path1.len() == cut1 + 1 + build1.len());
    assert(path2.len() == cut2 + 1 + build2.len());
    assert(path1[cut1] == '-');
    assert(path2[cut2] == '-');
    if cut1 < cut2 {
        assert(build1[cut2 - cut1 - 1] == path1[cut2]);
    }
    if cut2 < cut1 {
        assert(build2[cut1 - cut2 - 1] == path2[cut1]);
    }
    assert(name1 =~= path1.subrange(base.len() as int, cut1));
    assert(name2 =~= path2.subrange(base.len() as int, cut2));
    assert(build1 =~= path1.skip(cut1 + 1));
    assert(build2 =~= path2.skip(cut2 + 1));
}

/// The data URL of an ASCII hash carries its first four characters in pairs.
pub proof fn ascii_hash_has_shards(hash: Seq<char>)
    requires
        is_ascii_chars(hash),
        hash.len() >= 4,
    ensures
        has_shards(hash),
        byte_range(hash, 0, 2) == hash.subrange(0, 2),
        byte_range(hash, 2, 4) == hash.subrange(2, 4),
{
    let bytes = encode_utf8(hash);
    encode_utf8_valid_utf8(hash);
    is_ascii_chars_encode_utf8(hash);
    lemma_ascii_boundary(hash, 2);
    lemma_ascii_boundary(hash, 4);
    lemma_ascii_byte_range(hash, 0, 2);
    lemma_ascii_byte_range(hash, 2, 4);
}

proof fn lemma_ascii_boundary(s: Seq<char>, index: int)
    requires
        is_ascii_chars(s),
        0 <= index <= s.len(),
    ensures
        is_char_boundary(encode_utf8(s), index),
{
    let bytes = encode_utf8(s);
    encode_utf8_valid_utf8(s);
    is_ascii_chars_encode_utf8(s);
    if index == s.len() {
        is_char_boundary_start_end_of_seq(bytes);
    } else {
        assert(bytes[index] == s[index] as u8);
        is_char_boundary_iff_not_is_continuation_byte(bytes, index);
    }
}

proof fn lemma_ascii_byte_range(s: Seq<char>, from: int, to: int)
    requires
        is_ascii_chars(s),
        0 <= from <= to <= s.len(),
    ensures
        byte_range(s, from, to) == s.subrange(from, to),
{
    let part = s.subrange(from, to);
    is_ascii_chars_encode_utf8(s);
    assert(is_ascii_chars(part));
    is_ascii_chars_encode_utf8(part);
    assert(encode_utf8(part) =~= encode_utf8(s).subrange(from, to)) by {
        assert forall|i: int| 0 <= i < part.len() implies encode_utf8(part)[i] == encode_utf8(
            s,
        ).subrange(from, to)[i] by {
            assert(part[i] == s[from + i]);
        }
    }
    encode_utf8_decode_utf8(part);
}

/// The hexadecimal text of a key of two bytes or more can be turned into a data URL.
pub proof fn key_text_has_shards(key: Seq<u8>)
    requires
        key.len() >= 2,
    ensures
        has_shards(hexcode::hex_text(key)),
{
    hexcode::hex_text_is_ascii(key);
    ascii_hash_has_shards(hexcode::hex_text(key));
}

/// No two ASCII hashes have the same data URL.
pub proof fn hashes_have_their_own_urls(
    endpoint: EndpointView,
    hash1: Seq<char>,
    hash2: Seq<char>,
)
    requires
        is_ascii_chars(hash1),
        is_ascii_chars(hash2),
        hash1.len() >= 4,
        hash2.len() >= 4,
        data_url(endpoint, hash1) == data_url(endpoint, hash2),
    ensures
        hash1 == hash2,
{
    ascii_hash_has_shards(hash1);
    ascii_hash_has_shards(hash2);
    let url1 = data_url(endpoint, hash1);
    let url2 = data_url(endpoint, hash2);
    assert(url1.len() - hash1.len() == url2.len() - hash2.len());
    let start = url1.len() - hash1.len();
    assert(hash1 =~= url1.skip(start));
    assert(hash2 =~= url2.skip(start));
}

/// No two keys of two bytes or more have the same data URL.
pub proof fn keys_have_their_own_urls(endpoint: EndpointView, key1: Seq<u8>, key2: Seq<u8>)
    requires
        key1.len() >= 2,
        key2.len() >= 2,
        data_url(endpoint, hexcode::hex_text(key1)) == data_url(endpoint, hexcode::hex_text(key2)),
    ensures
        key1 == key2,
{
    hexcode::hex_text_is_ascii(key1);
    hexcode::hex_text_is_ascii(key2);
    hashes_have_their_own_urls(endpoint, hexcode::hex_text(key1), hexcode::hex_text(key2));
    hexcode::decode_of_encode(key1);
    hexcode::decode_of_encode(key2);
}

/// How far a build is from being cached after an event.
pub open spec fn init_steps_left(event: InitEventView) -> nat {
    match event {
        InitEventView::Start => 8,
        InitEventView::DirCreated => 7,
        InitEventView::BuildConfigFetched { .. } => 6,
        InitEventView::EncodingFetched { .. } => 5,
        InitEventView::RootListed { .. } => 4,
        InitEventView::RootFetched { .. } => 3,
        InitEventView::RootWritten { .. } => 2,
        InitEventView::EncodingWritten => 1,
    }
}

/// What the delivery network holds for a build.
pub struct Network {
    /// The build configuration.
    pub config: BuildConfig,
    /// The content for each key.
    pub content: spec_fn(Seq<u8>) -> Seq<u8>,
    /// What an encoding file with given bytes lists for a content key.
    pub listing: spec_fn(Seq<u8>, Seq<char>) -> Option<Seq<u8>>,
}

impl Network {
    /// The encoding file of the build, if its key is known.
    pub open spec fn encoding(self) -> Result<Seq<u8>, Error> {
        match encoding_key_of(self.config) {
            Ok(key) => Ok((self.content)(key)),
            Err(e) => Err(e),
        }
    }

    /// The root file of the build, if its key is known.
    pub open spec fn root(self) -> Result<Seq<u8>, Error> {
        match (self.encoding(), self.config.root) {
            (Err(e), _) => Err(e),
            (Ok(_), None) => Err(Error::MissingRoot),
            (Ok(encoding), Some(text)) => match (self.listing)(encoding, text@) {
                None => Err(Error::RootNotFound),
                Some(key) => Ok((self.content)(key)),
            },
        }
    }
}

/// What comes of caching a build: the steps that are taken, the files on disk
/// afterwards, and the error that ended it, if one did.
pub struct InitRun {
    pub steps: Seq<InitStepView>,
    pub files: Map<Seq<char>, Seq<u8>>,
    pub error: Option<Error>,
}

/// Caches a build from an event on, when the disk holds `files`.
pub open spec fn init_run(
    session: SessionView,
    dir: Seq<char>,
    network: Network,
    files: Map<Seq<char>, Seq<u8>>,
    event: InitEventView,
) -> InitRun
    decreases init_steps_left(event),
{
    match init_next(session, dir, event) {
        Err(e) => InitRun { steps: Seq::empty(), files, error: Some(e) },
        Ok(step) => {
            let rest = match step {
                InitStepView::CreateDir { dir: _ } => init_run(
                    session,
                    dir,
                    network,
                    files,
                    InitEventView::DirCreated,
                ),
                InitStepView::FetchBuildConfig { key: _ } => init_run(
                    session,
                    dir,
                    network,
                    files,
                    InitEventView::BuildConfigFetched { config: network.config },
                ),
                InitStepView::FetchEncoding { key, config } => init_run(
                    session,
                    dir,
                    network,
                    files,
                    InitEventView::EncodingFetched { config, encoding: (network.content)(key) },
                ),
                InitStepView::ListRoot { content_key, config, encoding } => init_run(
                    session,
                    dir,
                    network,
                    files,
                    InitEventView::RootListed {
                        config,
                        encoding,
                        listed: (network.listing)(encoding, content_key),
                    },
                ),
                InitStepView::FetchRoot { key, encoding } => init_run(
                    session,
                    dir,
                    network,
                    files,
                    InitEventView::RootFetched { encoding, root: (network.content)(key) },
                ),
                InitStepView::WriteRoot { path, root, encoding } => init_run(
                    session,
                    dir,
                    network,
                    files.insert(path, root),
                    InitEventView::RootWritten { encoding },
                ),
                InitStepView::WriteEncoding { path, encoding } => init_run(
                    session,
                    dir,
                    network,
                    files.insert(path, encoding),
                    InitEventView::EncodingWritten,
                ),
                InitStepView::Done { dir: _ } => InitRun {
                    steps: Seq::empty(),
                    files,
                    error: None,
                },
            };
            InitRun { steps: seq![step] + rest.steps, ..rest }
        },
    }
}

/// The steps that cache a build with these files, when nothing fails.
pub open spec fn init_steps(
    session: SessionView,
    dir: Seq<char>,
    network: Network,
    root: Seq<u8>,
    encoding: Seq<u8>,
) -> Seq<InitStepView> {
    let config = network.config;
    let content_key = config.root->0@;
    seq![
        InitStepView::CreateDir { dir },
        InitStepView::FetchBuildConfig { key: session.build_config_key },
        InitStepView::FetchEncoding { key: encoding_key_of(config)->Ok_0, config },
        InitStepView::ListRoot { content_key, config, encoding },
        InitStepView::FetchRoot { key: (network.listing)(encoding, content_key)->0, encoding },
        InitStepView::WriteRoot { path: root_file(dir), root, encoding },
        InitStepView::WriteEncoding { path: encoding_file(dir), encoding },
        InitStepView::Done { dir },
    ]
}

/// The root and the encoding file that are read, in this order, from the paths
/// that [`load_cached_product`] gives, when the disk holds `files`.
pub open spec fn cached_content(
    files: Map<Seq<char>, Seq<u8>>,
    home: Option<Seq<char>>,
    product: Seq<char>,
    build_id: Seq<char>,
) -> Option<(Seq<u8>, Seq<u8>)> {
    let dir = build_dir(cache_root(home), product, build_id);
    if files.contains_key(root_file(dir)) && files.contains_key(encoding_file(dir)) {
        Some((files[root_file(dir)], files[encoding_file(dir)]))
    } else {
        None
    }
}

/// A build whose files can be fetched is cached: both files are fetched, then both
/// are written, and nothing else is; what is read for the build afterwards is the
/// root file and the encoding file that were fetched.
#[verifier::spinoff_prover]
#[verifier::rlimit(60)]
pub proof fn init_caches_what_is_loaded(
    session: SessionView,
    home: Option<Seq<char>>,
    network: Network,
    files: Map<Seq<char>, Seq<u8>>,
)
    requires
        network.root() is Ok,
    ensures
        ({
            let dir = build_dir(cache_root(home), session.product, session.build_id);
            let run = init_run(session, dir, network, files, InitEventView::Start);
            let root = network.root()->Ok_0;
            let encoding = network.encoding()->Ok_0;
            &&& run.error is None
            &&& run.steps == init_steps(session, dir, network, root, encoding)
            &&& run.files == files.insert(root_file(dir), root).insert(encoding_file(dir), encoding)
            &&& cached_content(run.files, home, session.product, session.build_id) == Some(
                (root, encoding),
            )
        }),
{
    let dir = build_dir(cache_root(home), session.product, session.build_id);
    reveal_strlit("root.bin");
    reveal_strlit("encoding.bin");
    assert(root_file(dir).len() != encoding_file(dir).len());
    reveal_with_fuel(init_run, 9);
    let run = init_run(session, dir, network, files, InitEventView::Start);
    assert(run.steps =~= init_steps(
        session,
        dir,
        network,
        network.root()->Ok_0,
        network.encoding()->Ok_0,
    ));
}

/// A build whose files cannot all be fetched is not cached: the disk stays as it
/// was, and the error tells why.
#[verifier::spinoff_prover]
#[verifier::rlimit(60)]
pub proof fn failed_init_writes_nothing(
    session: SessionView,
    dir: Seq<char>,
    network: Network,
    files: Map<Seq<char>, Seq<u8>>,
)
    requires
        network.root() is Err,
    ensures
        ({
            let run = init_run(session, dir, network, files, InitEventView::Start);
            &&& run.error == Some(network.root()->Err_0)
            &&& run.files == files
        }),
{
    reveal_with_fuel(init_run, 9);
}

/// The fields of a version stand in the columns of these names.
pub proof fn version_columns()
    ensures
        VersionField::BuildConfig.column() == "BuildConfig"@,
        VersionField::CdnConfig.column() == "CDNConfig"@,
        VersionField::BuildId.column() == "BuildId"@,
{
}

/// A product code is one character or more, each an ASCII letter or digit, `_` or
/// `-`: what is put together from codes is a code, and from nothing else.
pub proof fn product_codes_are_put_together(a: Seq<char>, b: Seq<char>, c: char)
    ensures
        !valid_name(Seq::empty()),
        valid_name(seq![c]) <==> (48 <= c as u32 <= 57 || 65 <= c as u32 <= 90 || 97 <= c as u32
            <= 122 || c as u32 == 95 || c as u32 == 45),
        a.len() > 0 && b.len() > 0 ==> (valid_name(a + b) <==> valid_name(a) && valid_name(b)),
{
    assert(seq![c][0] == c);
    let both = a + b;
    if a.len() > 0 && b.len() > 0 && valid_name(both) {
        assert forall|i: int| 0 <= i < a.len() implies is_name_char(#[trigger] a[i]) by {
            assert(is_name_char(both[i]));
        }
        assert forall|i: int| 0 <= i < b.len() implies is_name_char(#[trigger] b[i]) by {
            assert(is_name_char(both[a.len() + i]));
        }
    }
}

/// An endpoint shows its fields.
pub proof fn endpoint_shows_its_fields(endpoint: CdnEndpoint)
    ensures
        endpoint@.host == endpoint.host@,
        endpoint@.path == endpoint.path@,
        endpoint.scheme is None <==> endpoint@.scheme is None,
        endpoint.scheme is Some ==> endpoint@.scheme->0 == endpoint.scheme->0@,
{
}

/// Optional texts and bytes show what is in them.
pub proof fn options_show_their_content(text: &str, bytes: Vec<u8>)
    ensures
        text_of(Some(text)) == Some(text@),
        text_of(None) is None,
        bytes_of(Some(bytes)) == Some(bytes@),
        bytes_of(None) is None,
{
}

/// The keys in a version are read whole, byte for byte, from their hexadecimal
/// texts, and the number of the build is taken as it is.
pub proof fn version_keys_are_read_whole(row: VersionsRow, build_key: Seq<u8>, cdn_key: Seq<u8>)
    requires
        row.build_config is Some,
        row.cdn_config is Some,
        row.build_id is Some,
        row.build_config->0@ == hexcode::hex_text(build_key),
        row.cdn_config->0@ == hexcode::hex_text(cdn_key),
    ensures
        version_fields(Some(row)) == Ok::<_, Error>((build_key, cdn_key, row.build_id->0@)),
{
    hexcode::decode_of_encode(build_key);
    hexcode::decode_of_encode(cdn_key);
}

/// The keys in a version may be written in either case.
pub proof fn version_keys_have_either_case(
    row: VersionsRow,
    build_key: Seq<u8>,
    cdn_key: Seq<u8>,
)
    requires
        row.build_config is Some,
        row.cdn_config is Some,
        row.build_id is Some,
        spells_key(row.build_config->0@, build_key),
        spells_key(row.cdn_config->0@, cdn_key),
    ensures
        version_fields(Some(row)) == Ok::<_, Error>((build_key, cdn_key, row.build_id->0@)),
{
    hexcode::hex_is_read_in_either_case(row.build_config->0@, build_key);
    hexcode::hex_is_read_in_either_case(row.cdn_config->0@, cdn_key);
}

/// Whether a text is the hexadecimal text of a key, each digit in either case.
pub open spec fn spells_key(text: Seq<char>, key: Seq<u8>) -> bool {
    &&& text.len() == 2 * key.len()
    &&& forall|i: int|
        0 <= i < text.len() ==> #[trigger] text[i] == hexcode::hex_text(key)[i] || ('A' <= text[i]
            <= 'F' && text[i] as u32 + 32 == hexcode::hex_text(key)[i] as u32)
}

/// A version is refused for its first field that is missing, and only then for its
/// first key that is no hexadecimal text.
pub proof fn version_faults_come_in_order(row: VersionsRow)
    ensures
        version_fields(None) == Err::<(Seq<u8>, Seq<u8>, Seq<char>), Error>(Error::NoVersionRows),
        row.build_config is None ==> version_fields(Some(row)) == Err::<
            (Seq<u8>, Seq<u8>, Seq<char>),
            Error,
        >(Error::MissingVersionField { field: VersionField::BuildConfig }),
        row.build_config is Some && row.cdn_config is None ==> version_fields(Some(row)) == Err::<
            (Seq<u8>, Seq<u8>, Seq<char>),
            Error,
        >(Error::MissingVersionField { field: VersionField::CdnConfig }),
        row.build_config is Some && row.cdn_config is Some && row.build_id is None
            ==> version_fields(Some(row)) == Err::<(Seq<u8>, Seq<u8>, Seq<char>), Error>(
            Error::MissingVersionField { field: VersionField::BuildId },
        ),
        row.build_config is Some && row.cdn_config is Some && row.build_id is Some ==> {
            let build = hexcode::hex_decoded(encode_utf8(row.build_config->0@));
            let cdn = hexcode::hex_decoded(encode_utf8(row.cdn_config->0@));
            &&& build is Err ==> version_fields(Some(row)) == Err::<
                (Seq<u8>, Seq<u8>, Seq<char>),
                Error,
            >(
                Error::InvalidVersionHex {
                    field: VersionField::BuildConfig,
                    cause: build->Err_0,
                },
            )
            &&& build is Ok && cdn is Err ==> version_fields(Some(row)) == Err::<
                (Seq<u8>, Seq<u8>, Seq<char>),
                Error,
            >(Error::InvalidVersionHex { field: VersionField::CdnConfig, cause: cdn->Err_0 })
        },
{
}

/// The key by which the encoding file is fetched has the very bytes, all of them,
/// whose hexadecimal text the configuration holds, in either case.
pub proof fn encoding_key_is_read_whole(config: BuildConfig, key: Seq<u8>)
    requires
        config.encoding_key is Some,
    ensures
        config.encoding_key->0@ == hexcode::hex_text(key) ==> encoding_key_of(config) == Ok::<
            _,
            Error,
        >(key),
        spells_key(config.encoding_key->0@, key) ==> encoding_key_of(config) == Ok::<_, Error>(key),
{
    hexcode::decode_of_encode(key);
    if spells_key(config.encoding_key->0@, key) {
        hexcode::hex_is_read_in_either_case(config.encoding_key->0@, key);
    }
}

/// A configuration without a key of the encoding file is refused, and so is one
/// whose key is no hexadecimal text, with what is wrong with it.
pub proof fn faulty_encoding_key_is_refused(config: BuildConfig)
    ensures
        config.encoding_key is None ==> encoding_key_of(config) == Err::<Seq<u8>, Error>(
            Error::MissingEncodingKey,
        ),
        config.encoding_key is Some ==> {
            let read = hexcode::hex_decoded(encode_utf8(config.encoding_key->0@));
            read is Err ==> encoding_key_of(config) == Err::<Seq<u8>, Error>(
                Error::InvalidEncodingKeyHex { cause: read->Err_0 },
            )
        },
{
}

/// All caches are in `.cache/casc-extract` under the home directory, or under
/// `/tmp` where that is unknown.
#[verifier::spinoff_prover]
#[verifier::rlimit(60)]
pub proof fn caches_are_under_home(home: Seq<char>)
    ensures
        cache_root(None) == "/tmp/.cache/casc-extract"@,
        cache_root(Some(Seq::empty())) == ".cache/casc-extract"@,
        cache_root(Some(home + "/"@)) == home + "/.cache/casc-extract"@,
        home.len() > 0 && home[home.len() - 1] != '/' ==> cache_root(Some(home)) == home
            + "/.cache/casc-extract"@,
{
    reveal_strlit("/tmp");
    reveal_strlit("/");
    reveal_strlit(".cache");
    reveal_strlit("casc-extract");
    reveal_strlit(".cache/casc-extract");
    reveal_strlit("/.cache/casc-extract");
    reveal_strlit("/tmp/.cache/casc-extract");
    assert(cache_root(None) =~= "/tmp/.cache/casc-extract"@);
    assert(cache_root(Some(Seq::empty())) =~= ".cache/casc-extract"@);
    assert(cache_root(Some(home + "/"@)) =~= home + "/.cache/casc-extract"@);
    if home.len() > 0 && home[home.len() - 1] != '/' {
        assert(cache_root(Some(home)) =~= home + "/.cache/casc-extract"@);
    }
}

/// The files of a build are `root.bin` and `encoding.bin` in the directory of the
/// build, which is named by the product and the build.
#[verifier::spinoff_prover]
#[verifier::rlimit(60)]
pub proof fn build_files_are_named(home: Seq<char>, product: Seq<char>, build_id: Seq<char>)
    requires
        valid_name(product),
        home.len() > 0,
        home[home.len() - 1] != '/',
        build_id.len() > 0 ==> build_id[build_id.len() - 1] != '/',
    ensures
        ({
            let dir = build_dir(cache_root(Some(home)), product, build_id);
            let named = home + "/.cache/casc-extract/"@ + product + "-"@ + build_id;
            &&& dir == named
            &&& root_file(dir) == named + "/root.bin"@
            &&& encoding_file(dir) == named + "/encoding.bin"@
        }),
{
    reveal_strlit(".cache");
    reveal_strlit("casc-extract");
    reveal_strlit("/.cache/casc-extract/");
    reveal_strlit("-");
    reveal_strlit("root.bin");
    reveal_strlit("/root.bin");
    reveal_strlit("encoding.bin");
    reveal_strlit("/encoding.bin");
    let root = cache_root(Some(home));
    let dot_cache = crate::paths::joined(home, ".cache"@);
    assert(dot_cache == home.push('/') + ".cache"@);
    assert(root == dot_cache.push('/') + "casc-extract"@);
    assert(root.push('/') =~= home + "/.cache/casc-extract/"@);
    build_dir_is_in_cache(root, product, build_id);
    let dir = build_dir(root, product, build_id);
    assert(dir.len() > 0 && dir.last() != '/');
    assert(dir.push('/') + "root.bin"@ =~= dir + "/root.bin"@);
    assert(dir.push('/') + "encoding.bin"@ =~= dir + "/encoding.bin"@);
}

/// The bytes of two texts, one after the other.
proof fn lemma_encode_parts(a: Seq<char>, b: Seq<char>)
    ensures
        encode_utf8(a + b) == encode_utf8(a) + encode_utf8(b),
    decreases a.len(),
{
    if a.len() == 0 {
        assert(a + b =~= b);
        assert(encode_utf8(a) =~= Seq::<u8>::empty());
    } else {
        assert((a + b).drop_first() =~= a.drop_first() + b);
        lemma_encode_parts(a.drop_first(), b);
        assert(encode_utf8(a + b) =~= encode_utf8(a) + encode_utf8(b));
    }
}

/// What stands before a character ends at a boundary.
proof fn lemma_boundary_between(a: Seq<char>, b: Seq<char>)
    ensures
        is_char_boundary(encode_utf8(a + b), encode_utf8(a).len() as int),
{
    lemma_encode_parts(a, b);
    let bytes = encode_utf8(a + b);
    let at = encode_utf8(a).len() as int;
    encode_utf8_valid_utf8(a);
    encode_utf8_valid_utf8(b);
    encode_utf8_valid_utf8(a + b);
    if b.len() == 0 {
        assert(encode_utf8(b) =~= Seq::<u8>::empty());
        is_char_boundary_start_end_of_seq(bytes);
    } else {
        encode_utf8_first_scalar(b);
        let first = encode_utf8(b)[0];
        assert(bytes[at] == first);
        is_char_boundary_start_end_of_seq(encode_utf8(b));
        is_char_boundary_iff_not_is_continuation_byte(encode_utf8(b), 0);
        is_char_boundary_iff_not_is_continuation_byte(bytes, at);
    }
}

/// The URL of a data file is the scheme, which is `https` unless another is given,
/// the host, the path, and, below `data`, the first and the second pair of bytes of
/// the hash and the hash itself.
pub proof fn data_url_is_put_together(
    endpoint: EndpointView,
    first: Seq<char>,
    second: Seq<char>,
    rest: Seq<char>,
)
    requires
        encode_utf8(first).len() == 2,
        encode_utf8(second).len() == 2,
    ensures
        has_shards(first + second + rest),
        data_url(endpoint, first + second + rest) == (match endpoint.scheme {
            Some(scheme) => scheme,
            None => "https"@,
        }) + "://"@ + endpoint.host + "/"@ + endpoint.path + "/data/"@ + first + "/"@ + second
            + "/"@ + (first + second + rest),
{
    let hash = first + second + rest;
    assert(hash =~= first + (second + rest));
    lemma_encode_parts(first, second);
    lemma_encode_parts(first + second, rest);
    lemma_boundary_between(first, second + rest);
    lemma_boundary_between(first + second, rest);
    let bytes = encode_utf8(hash);
    assert(bytes.subrange(0, 2) =~= encode_utf8(first));
    assert(bytes.subrange(2, 4) =~= encode_utf8(second));
    encode_utf8_decode_utf8(first);
    encode_utf8_decode_utf8(second);
}

/// The URL of an ASCII hash has its first four characters in two directories; a
/// shorter one has no URL.
pub proof fn ascii_data_url_is_put_together(endpoint: EndpointView, hash: Seq<char>)
    requires
        is_ascii_chars(hash),
    ensures
        has_shards(hash) <==> hash.len() >= 4,
        hash.len() >= 4 ==> data_url(endpoint, hash) == (match endpoint.scheme {
            Some(scheme) => scheme,
            None => "https"@,
        }) + "://"@ + endpoint.host + "/"@ + endpoint.path + "/data/"@ + hash.subrange(0, 2)
            + "/"@ + hash.subrange(2, 4) + "/"@ + hash,
{
    is_ascii_chars_encode_utf8(hash);
    if hash.len() >= 4 {
        ascii_hash_has_shards(hash);
    } else {
        encode_utf8_valid_utf8(hash);
        assert(encode_utf8(hash).len() < 4);
        reveal_with_fuel(is_char_boundary, 5);
    }
}

/// A session has the product that it is made for, the endpoint of the first network
/// as it is, and the keys and the number of the first version.
pub proof fn session_has_what_was_found(
    product: Seq<char>,
    endpoint: CdnEndpoint,
    row: VersionsRow,
    build_key: Seq<u8>,
    cdn_key: Seq<u8>,
)
    requires
        row.build_config is Some,
        row.cdn_config is Some,
        row.build_id is Some,
        spells_key(row.build_config->0@, build_key),
        spells_key(row.cdn_config->0@, cdn_key),
    ensures
        connected(product, Some(endpoint), Some(row)) matches Ok(session) && {
            &&& session.product == product
            &&& session.endpoint.host == endpoint.host@
            &&& session.endpoint.path == endpoint.path@
            &&& session.endpoint.scheme is None <==> endpoint.scheme is None
            &&& endpoint.scheme matches Some(scheme) ==> session.endpoint.scheme == Some(scheme@)
            &&& session.build_config_key == build_key
            &&& session.cdn_config_key == cdn_key
            &&& session.build_id == row.build_id->0@
        },
{
    version_keys_have_either_case(row, build_key, cdn_key);
}

/// Without a network there is no session, whatever the versions say; without a
/// version that can be used there is none either, for the fault of the version.
pub proof fn session_needs_network_and_version(
    product: Seq<char>,
    endpoint: CdnEndpoint,
    versions: Option<VersionsRow>,
)
    ensures
        connected(product, None, versions) == Err::<SessionView, Error>(Error::NoCdnRows),
        version_fields(versions) matches Err(e) ==> connected(product, Some(endpoint), versions)
            == Err::<SessionView, Error>(e),
{
}

/// Events and steps of an init show the bytes that they carry.
pub proof fn init_shows_its_bytes(event: InitEvent, step: InitStep)
    ensures
        match event {
            InitEvent::Start => event@ is Start,
            InitEvent::DirCreated => event@ is DirCreated,
            InitEvent::BuildConfigFetched { config } => event@ == (
            InitEventView::BuildConfigFetched { config }),
            InitEvent::EncodingFetched { config, encoding } => event@ == (
            InitEventView::EncodingFetched { config, encoding: encoding@ }),
            InitEvent::RootListed { config, encoding, listed: Some(key) } => event@ == (
            InitEventView::RootListed { config, encoding: encoding@, listed: Some(key@) }),
            InitEvent::RootListed { config, encoding, listed: None } => event@ == (
            InitEventView::RootListed { config, encoding: encoding@, listed: None }),
            InitEvent::RootFetched { encoding, root } => event@ == (InitEventView::RootFetched {
                encoding: encoding@,
                root: root@,
            }),
            InitEvent::RootWritten { encoding } => event@ == (InitEventView::RootWritten {
                encoding: encoding@,
            }),
            InitEvent::EncodingWritten => event@ is EncodingWritten,
        },
        match step {
            InitStep::CreateDir { dir } => step@ == (InitStepView::CreateDir { dir: dir@ }),
            InitStep::FetchBuildConfig { key } => step@ == (InitStepView::FetchBuildConfig {
                key: key@,
            }),
            InitStep::FetchEncoding { key, config } => step@ == (InitStepView::FetchEncoding {
                key: key@,
                config,
            }),
            InitStep::ListRoot { content_key, config, encoding } => step@ == (
            InitStepView::ListRoot { content_key: content_key@, config, encoding: encoding@ }),
            InitStep::FetchRoot { key, encoding } => step@ == (InitStepView::FetchRoot {
                key: key@,
                encoding: encoding@,
            }),
            InitStep::WriteRoot { path, root, encoding } => step@ == (InitStepView::WriteRoot {
                path: path@,
                root: root@,
                encoding: encoding@,
            }),
            InitStep::WriteEncoding { path, encoding } => step@ == (
            InitStepView::WriteEncoding { path: path@, encoding: encoding@ }),
            InitStep::Done { dir } => step@ == (InitStepView::Done { dir: dir@ }),
        },
{
}

/// Each step of an init follows from what was done before it: the key that is asked
/// for is the one that was told, and what is written is what was fetched.
#[verifier::spinoff_prover]
#[verifier::rlimit(60)]
pub proof fn init_hands_on_what_it_got(
    session: SessionView,
    dir: Seq<char>,
    config: BuildConfig,
    key: Seq<u8>,
    root: Seq<u8>,
    encoding: Seq<u8>,
)
    requires
        dir.len() > 0,
        dir[dir.len() - 1] != '/',
    ensures
        init_next(session, dir, InitEventView::Start) == Ok::<_, Error>(
            InitStepView::CreateDir { dir },
        ),
        init_next(session, dir, InitEventView::DirCreated) == Ok::<_, Error>(
            InitStepView::FetchBuildConfig { key: session.build_config_key },
        ),
        config.encoding_key is Some && spells_key(config.encoding_key->0@, key) ==> init_next(
            session,
            dir,
            InitEventView::BuildConfigFetched { config },
        ) == Ok::<_, Error>(InitStepView::FetchEncoding { key, config }),
        encoding_key_of(config) is Err ==> init_next(
            session,
            dir,
            InitEventView::BuildConfigFetched { config },
        ) == Err::<InitStepView, Error>(encoding_key_of(config)->Err_0),
        config.root is Some ==> {
            &&& init_next(session, dir, InitEventView::EncodingFetched { config, encoding })
                == Ok::<_, Error>(
                InitStepView::ListRoot { content_key: config.root->0@, config, encoding },
            )
            &&& init_next(
                session,
                dir,
                InitEventView::RootListed { config, encoding, listed: Some(key) },
            ) == Ok::<_, Error>(InitStepView::FetchRoot { key, encoding })
            &&& init_next(
                session,
                dir,
                InitEventView::RootListed { config, encoding, listed: None },
            ) == Err::<InitStepView, Error>(Error::RootNotFound)
        },
        config.root is None ==> init_next(
            session,
            dir,
            InitEventView::EncodingFetched { config, encoding },
        ) == Err::<InitStepView, Error>(Error::MissingRoot),
        init_next(session, dir, InitEventView::RootFetched { encoding, root }) == Ok::<_, Error>(
            InitStepView::WriteRoot { path: dir + "/root.bin"@, root, encoding },
        ),
        init_next(session, dir, InitEventView::RootWritten { encoding }) == Ok::<_, Error>(
            InitStepView::WriteEncoding { path: dir + "/encoding.bin"@, encoding },
        ),
        init_next(session, dir, InitEventView::EncodingWritten) == Ok::<_, Error>(
            InitStepView::Done { dir },
        ),
{
    reveal_strlit("root.bin");
    reveal_strlit("/root.bin");
    reveal_strlit("encoding.bin");
    reveal_strlit("/encoding.bin");
    assert(root_file(dir) =~= dir + "/root.bin"@);
    assert(encoding_file(dir) =~= dir + "/encoding.bin"@);
    if config.encoding_key is Some {
        encoding_key_is_read_whole(config, key);
    }
}

/// A build is cached whole: where the configuration holds the hexadecimal text of the
/// key of the encoding file, and the encoding file lists a key for the root file, the
/// files at `root.bin` and `encoding.bin` in the directory of the build are afterwards
/// what the network has for these two keys, byte for byte, and all other files are as
/// they were.
#[verifier::spinoff_prover]
#[verifier::rlimit(60)]
pub proof fn init_caches_both_files_whole(
    session: SessionView,
    dir: Seq<char>,
    network: Network,
    files: Map<Seq<char>, Seq<u8>>,
    encoding_key: Seq<u8>,
    root_key: Seq<u8>,
)
    requires
        dir.len() > 0,
        dir[dir.len() - 1] != '/',
        network.config.encoding_key is Some,
        network.config.root is Some,
        spells_key(network.config.encoding_key->0@, encoding_key),
        (network.listing)((network.content)(encoding_key), network.config.root->0@) == Some(
            root_key,
        ),
    ensures
        ({
            let run = init_run(session, dir, network, files, InitEventView::Start);
            &&& run.error is None
            &&& run.files == files.insert(dir + "/root.bin"@, (network.content)(root_key)).insert(
                dir + "/encoding.bin"@,
                (network.content)(encoding_key),
            )
        }),
{
    let encoding = (network.content)(encoding_key);
    init_hands_on_what_it_got(
        session,
        dir,
        network.config,
        encoding_key,
        (network.content)(root_key),
        encoding,
    );
    init_hands_on_what_it_got(
        session,
        dir,
        network.config,
        root_key,
        (network.content)(root_key),
        encoding,
    );
    reveal_with_fuel(init_run, 9);
}

} // verus!
