//! The commands: what a download is to fetch, the order of the steps that set a
//! product up, and the reports of searches and diagnoses.

use vstd::prelude::*;
use vstd::string::*;

use crate::cdn::{cache_root, default_cache_root, text_of, Product};
use crate::download::{
    download_single, download_with_deps, file_requests, main_request, request_views, FileRequest,
    SavePlace, Target, TargetView,
};
use crate::error::Error;
use crate::paths::{join, joined};
use crate::resolve::Resolver;
use crate::text::{decimal, decimal_text, parse_u32, parsed_u32};

verus! {

/// What stands before a file id that takes the place of a path.
pub const FDID_PREFIX: &'static str = "__fdid:";

/// What a download is to fetch: a path as it is given, or a file id behind its prefix.
pub open spec fn target_text(path: Option<Seq<char>>, fdid: Option<u32>) -> Result<
    Seq<char>,
    Error,
> {
    match (path, fdid) {
        (Some(_), Some(_)) => Err(Error::TargetConflict),
        (None, None) => Err(Error::TargetMissing),
        (Some(p), None) => Ok(p),
        (None, Some(id)) => Ok(FDID_PREFIX@ + decimal(id as nat)),
    }
}

/// The text of an optional string.
pub open spec fn string_of(text: Option<String>) -> Option<Seq<char>> {
    match text {
        Some(t) => Some(t@),
        None => None,
    }
}

/// What a download is to fetch, given a path or a file id.
pub fn resolve_download_target(path: Option<String>, fdid: Option<u32>) -> (res: Result<
    String,
    Error,
>)
    ensures
        match res {
            Ok(target) => target_text(string_of(path), fdid) == Ok::<_, Error>(target@),
            Err(e) => target_text(string_of(path), fdid) == Err::<Seq<char>, Error>(e),
        },
{
    match (path, fdid) {
        (Some(_), Some(_)) => Err(Error::TargetConflict),
        (None, None) => Err(Error::TargetMissing),
        (Some(p), None) => Ok(p),
        (None, Some(id)) => Ok(FDID_PREFIX.to_string().concat(decimal_text(id as u64).as_str())),
    }
}

/// A download that was asked for.
#[derive(Debug)]
pub struct DownloadPlan {
    /// The text of what to fetch.
    pub target: String,
    /// Whether a file id was given, and not a path.
    pub by_id: bool,
    /// Whether what belongs to the file is wanted too.
    pub with_deps: bool,
}

/// The download that a path or a file id asks for.
pub fn cmd_download(path: Option<String>, fdid: Option<u32>, with_deps: bool) -> (res: Result<
    DownloadPlan,
    Error,
>)
    ensures
        match res {
            Ok(plan) => target_text(string_of(path), fdid) == Ok::<_, Error>(plan.target@)
                && plan.by_id == (fdid is Some) && plan.with_deps == with_deps,
            Err(e) => target_text(string_of(path), fdid) == Err::<Seq<char>, Error>(e),
        },
{
    match resolve_download_target(path, fdid) {
        Ok(target) => Ok(DownloadPlan { target, by_id: fdid.is_some(), with_deps }),
        Err(e) => Err(e),
    }
}

impl DownloadPlan {
    /// What to print before the download.
    pub fn notice(&self) -> (text: Option<String>)
        ensures
            match text {
                Some(text) => self.with_deps && text@ == "Downloading "@ + self.target@
                    + " with dependencies..."@,
                None => !self.with_deps,
            },
    {
        if self.with_deps {
            Some(
                "Downloading ".to_string().concat(self.target.as_str()).concat(
                    " with dependencies...",
                ),
            )
        } else {
            None
        }
    }

    /// The files to download, in order.
    pub fn files(&self, resolver: &Resolver) -> (res: Result<Vec<FileRequest>, Error>)
        ensures
            match (planned_target(self.target@, self.by_id, self.with_deps), res) {
                (Ok(target), Ok(requests)) => request_views(requests@) == file_requests(
                    target,
                    resolver@,
                    self.with_deps,
                ),
                (Err(expected), Err(e)) => e == expected,
                _ => false,
            },
    {
        if self.with_deps && !self.by_id {
            let target = Target::Path { path: self.target.clone() };
            return Ok(download_with_deps(target, resolver));
        }
        match download_by_path(self.target.as_str()) {
            Ok(target) => if self.with_deps {
                Ok(download_with_deps(target, resolver))
            } else {
                let mut requests: Vec<FileRequest> = Vec::new();
                requests.push(download_single(target, resolver));
                assert(request_views(requests@) =~= file_requests(target@, resolver@, false));
                Ok(requests)
            },
            Err(e) => Err(e),
        }
    }

    /// How the places of the files are found: a path that is downloaded with what
    /// belongs to it is saved in the output directory as it is named.
    pub fn place(&self) -> (place: SavePlace)
        ensures
            place == if self.with_deps && !self.by_id {
                SavePlace::InDir
            } else {
                SavePlace::AtPath
            },
    {
        if self.with_deps && !self.by_id {
            SavePlace::InDir
        } else {
            SavePlace::AtPath
        }
    }
}

/// What a download fetches first. A path that is downloaded with what belongs to it
/// is a path whatever it reads; without, one that reads like a file id stands for
/// that id.
pub open spec fn planned_target(target: Seq<char>, by_id: bool, with_deps: bool) -> Result<
    TargetView,
    Error,
> {
    if with_deps && !by_id {
        Ok(TargetView::Path { path: target })
    } else {
        target_of(target)
    }
}

/// What a target stands for: behind the prefix, a file id; otherwise a path.
pub open spec fn target_of(target: Seq<char>) -> Result<TargetView, Error> {
    if FDID_PREFIX@.is_prefix_of(target) {
        let text = target.skip(FDID_PREFIX@.len() as int);
        match parsed_u32(text) {
            Ok(fdid) => Ok(TargetView::Fdid { fdid, text }),
            Err(cause) => Err(Error::InvalidFdid { cause }),
        }
    } else {
        Ok(TargetView::Path { path: target })
    }
}

/// What a target stands for.
pub fn download_by_path(target: &str) -> (res: Result<Target, Error>)
    ensures
        match res {
            Ok(found) => target_of(target@) == Ok::<_, Error>(found@),
            Err(e) => target_of(target@) == Err::<TargetView, Error>(e),
        },
{
    let cut: usize = FDID_PREFIX.unicode_len();
    let len: usize = target.unicode_len();
    if len >= cut && same_text(target.substring_char(0, cut), FDID_PREFIX) {
        let text = target.substring_char(cut, len);
        assert(text@ == target@.skip(cut as int));
        match parse_u32(text) {
            Ok(fdid) => Ok(Target::Fdid { fdid, text: text.to_string() }),
            Err(cause) => Err(Error::InvalidFdid { cause }),
        }
    } else {
        Ok(Target::Path { path: target.to_string() })
    }
}

/// Whether two texts are the same.
fn same_text(a: &str, b: &str) -> (yes: bool)
    ensures
        yes == (a@ == b@),
{
    a.to_string() == b.to_string()
}

/// The name of the file that keeps the number of a product's build.
pub open spec fn build_id_name(product: Seq<char>) -> Seq<char> {
    if product == "wow"@ {
        "build-id.txt"@
    } else {
        "build-id-"@ + product + ".txt"@
    }
}

/// The path of the file that keeps the number of a product's build.
pub fn build_id_file(product: &Product, home: Option<&str>) -> (path: String)
    ensures
        path@ == joined(cache_root(text_of(home)), build_id_name(product@)),
{
    let name = if same_text(product.name(), "wow") {
        "build-id.txt".to_string()
    } else {
        "build-id-".to_string().concat(product.name()).concat(".txt")
    };
    join(default_cache_root(home).as_str(), name.as_str())
}

/// The steps that set a product up.
#[derive(Debug, Clone, Copy, PartialEq, Eq, Structural)]
pub enum SetupStep {
    /// Connect to the delivery network.
    Connect,
    /// Cache the root and encoding files.
    CacheBuild,
    /// Fetch the list of file names.
    FetchListfile,
    /// Load and cache the archive indices.
    LoadIndices,
    /// Keep the number of the build.
    SaveBuildId,
    /// All is set up.
    Done,
}

/// The steps in their order.
pub open spec fn setup_order() -> Seq<SetupStep> {
    seq![
        SetupStep::Connect,
        SetupStep::CacheBuild,
        SetupStep::FetchListfile,
        SetupStep::LoadIndices,
        SetupStep::SaveBuildId,
        SetupStep::Done,
    ]
}

impl SetupStep {
    /// The place of a step in the order.
    pub open spec fn place(self) -> int {
        match self {
            SetupStep::Connect => 0,
            SetupStep::CacheBuild => 1,
            SetupStep::FetchListfile => 2,
            SetupStep::LoadIndices => 3,
            SetupStep::SaveBuildId => 4,
            SetupStep::Done => 5,
        }
    }

    /// The step that follows when this one has succeeded.
    pub fn next(self) -> (step: SetupStep)
        ensures
            self is Done ==> step is Done,
            self !is Done ==> step == setup_order()[self.place() + 1],
    {
        match self {
            SetupStep::Connect => SetupStep::CacheBuild,
            SetupStep::CacheBuild => SetupStep::FetchListfile,
            SetupStep::FetchListfile => SetupStep::LoadIndices,
            SetupStep::LoadIndices => SetupStep::SaveBuildId,
            SetupStep::SaveBuildId => SetupStep::Done,
            SetupStep::Done => SetupStep::Done,
        }
    }

    /// What to print before the step.
    pub open spec fn notice_text(self, product: Seq<char>) -> Option<Seq<char>> {
        match self {
            SetupStep::Connect => Some(
                "Connecting to Blizzard CDN for product "@ + product + "..."@,
            ),
            SetupStep::CacheBuild => Some("Downloading root + encoding..."@),
            SetupStep::FetchListfile => Some("Downloading listfile..."@),
            SetupStep::LoadIndices => Some("Downloading archive indices..."@),
            SetupStep::SaveBuildId => None,
            SetupStep::Done => Some("Init complete."@),
        }
    }

    /// What to print before the step.
    pub fn notice(self, product: &Product) -> (text: Option<String>)
        ensures
            string_of(text) == self.notice_text(product@),
    {
        match self {
            SetupStep::Connect => Some(
                "Connecting to Blizzard CDN for product ".to_string().concat(product.name()).concat(
                    "...",
                ),
            ),
            SetupStep::CacheBuild => Some("Downloading root + encoding...".to_string()),
            SetupStep::FetchListfile => Some("Downloading listfile...".to_string()),
            SetupStep::LoadIndices => Some("Downloading archive indices...".to_string()),
            SetupStep::SaveBuildId => None,
            SetupStep::Done => Some("Init complete.".to_string()),
        }
    }
}

/// The report of a search.
#[derive(Debug)]
pub struct SearchReport {
    /// What to print where nothing was found.
    pub notice: Option<String>,
    /// One line for each result.
    pub lines: Vec<String>,
}

/// The line for a result of a search.
pub open spec fn result_line(fdid: u32, path: Seq<char>) -> Seq<char> {
    decimal(fdid as nat) + "\t"@ + path
}

/// The report of a search for `pattern` that gave `results`.
pub fn cmd_search(pattern: &str, results: &Vec<(u32, &str)>) -> (report: SearchReport)
    ensures
        string_of(report.notice) == (if results@.len() == 0 {
            Some("No results for pattern: "@ + pattern@)
        } else {
            None
        }),
        report.lines@.map_values(|l: String| l@) == results@.map_values(
            |r: (u32, &str)| result_line(r.0, r.1@),
        ),
{
    let notice = if results.len() == 0 {
        Some("No results for pattern: ".to_string().concat(pattern))
    } else {
        None
    };
    let mut lines: Vec<String> = Vec::new();
    let mut i: usize = 0;
    while i < results.len()
        invariant
            i == lines@.len(),
            i <= results@.len(),
            forall|k: int|
                0 <= k < i ==> (#[trigger] lines@[k])@ == result_line(results@[k].0, results@[k].1@),
        decreases results@.len() - i,
    {
        lines.push(
            decimal_text(results[i].0 as u64).concat("\t").concat(results[i].1),
        );
        i = i + 1;
    }
    assert(lines@.map_values(|l: String| l@) =~= results@.map_values(
        |r: (u32, &str)| result_line(r.0, r.1@),
    ));
    SearchReport { notice, lines }
}

/// The file ids that a diagnosis looks up.
pub open spec fn probed_fdids() -> Seq<u32> {
    seq![125024u32, 1011653, 1, 100, 1000, 10000, 100000, 500000]
}

/// How a diagnosis tells whether something was found.
pub open spec fn verdict(found: bool) -> Seq<char> {
    if found {
        "FOUND"@
    } else {
        "not found"@
    }
}

/// How a diagnosis tells whether something was found.
pub fn verdict_text(found: bool) -> (text: &'static str)
    ensures
        text@ == verdict(found),
{
    if found {
        "FOUND"
    } else {
        "not found"
    }
}

/// The file ids that a diagnosis looks up.
pub fn diag_probe_fdids() -> (fdids: Vec<u32>)
    ensures
        fdids@ == probed_fdids(),
{
    let mut fdids: Vec<u32> = Vec::new();
    fdids.push(125024);
    fdids.push(1011653);
    fdids.push(1);
    fdids.push(100);
    fdids.push(1000);
    fdids.push(10000);
    fdids.push(100000);
    fdids.push(500000);
    assert(fdids@ =~= probed_fdids());
    fdids
}

/// The line on a file id that a diagnosis has looked up.
pub fn diag_probe_line(fdid: u32, found: bool) -> (line: String)
    ensures
        line@ == "FDID "@ + decimal(fdid as nat) + ": "@ + verdict(found),
{
    "FDID ".to_string().concat(decimal_text(fdid as u64).as_str()).concat(": ").concat(
        verdict_text(found),
    )
}

/// A direct look-up in the root file.
#[derive(Debug, Clone, Copy)]
pub struct RootProbe {
    pub fdid: u32,
    /// Whether files of all locales count, or only those of the default one.
    pub all_locales: bool,
}

/// The direct look-ups that a diagnosis makes in the root file.
pub open spec fn root_probes() -> Seq<RootProbe> {
    seq![
        RootProbe { fdid: 125024, all_locales: false },
        RootProbe { fdid: 1011653, all_locales: false },
        RootProbe { fdid: 125024, all_locales: true },
        RootProbe { fdid: 1011653, all_locales: true },
    ]
}

/// The direct look-ups that a diagnosis makes in the root file.
pub fn diag_probe_root_resolve() -> (probes: Vec<RootProbe>)
    ensures
        probes@ == root_probes(),
{
    let mut probes: Vec<RootProbe> = Vec::new();
    probes.push(RootProbe { fdid: 125024, all_locales: false });
    probes.push(RootProbe { fdid: 1011653, all_locales: false });
    probes.push(RootProbe { fdid: 125024, all_locales: true });
    probes.push(RootProbe { fdid: 1011653, all_locales: true });
    assert(probes@ =~= root_probes());
    probes
}

impl RootProbe {
    /// The line on a direct look-up.
    pub fn line(&self, found: bool) -> (line: String)
        ensures
            line@ == (if self.all_locales {
                "Direct resolve (ALL locale) FDID "@
            } else {
                "Direct resolve FDID "@
            }) + decimal(self.fdid as nat) + ": "@ + verdict(found),
    {
        let start = if self.all_locales {
            "Direct resolve (ALL locale) FDID "
        } else {
            "Direct resolve FDID "
        };
        start.to_string().concat(decimal_text(self.fdid as u64).as_str()).concat(": ").concat(
            verdict_text(found),
        )
    }
}

/// The most file ids that a diagnosis samples.
pub const SAMPLE_SIZE: usize = 10;

/// The file ids in all blocks of a root file, in order.
pub open spec fn all_fdids(blocks: Seq<Seq<u32>>) -> Seq<u32>
    decreases blocks.len(),
{
    if blocks.len() == 0 {
        Seq::empty()
    } else {
        all_fdids(blocks.drop_last()) + blocks.last()
    }
}

/// The first file ids of a sequence, as many as a diagnosis samples.
pub open spec fn sample_of(fdids: Seq<u32>) -> Seq<u32> {
    if fdids.len() <= SAMPLE_SIZE {
        fdids
    } else {
        fdids.take(SAMPLE_SIZE as int)
    }
}

/// The file ids of each block.
pub open spec fn block_views(blocks: Seq<Vec<u32>>) -> Seq<Seq<u32>> {
    blocks.map_values(|b: Vec<u32>| b@)
}

/// The first file ids in the blocks of a root file.
pub fn diag_sample_fdids(blocks: &Vec<Vec<u32>>) -> (sample: Vec<u32>)
    ensures
        sample@ == sample_of(all_fdids(block_views(blocks@))),
{
    let ghost views = block_views(blocks@);
    let mut sample: Vec<u32> = Vec::new();
    let mut i: usize = 0;
    assert(views.take(0) =~= Seq::<Seq<u32>>::empty());
    while i < blocks.len()
        invariant
            i <= blocks@.len(),
            views == block_views(blocks@),
            sample@ == sample_of(all_fdids(views.take(i as int))),
        decreases blocks@.len() - i,
    {
        let block = &blocks[i];
        let ghost before = all_fdids(views.take(i as int));
        let mut j: usize = 0;
        assert(before + block@.take(0) =~= before);
        while j < block.len() && sample.len() < SAMPLE_SIZE
            invariant
                j <= block@.len(),
                sample@.len() <= SAMPLE_SIZE,
                sample@ == sample_of(before + block@.take(j as int)),
            decreases block@.len() - j,
        {
            let ghost shown = before + block@.take(j as int);
            assert(shown.push(block@[j as int]) =~= before + block@.take(j + 1));
            sample.push(block[j]);
            assert(sample@ =~= sample_of(before + block@.take(j + 1)));
            j = j + 1;
        }
        proof {
            assert(views.take(i + 1).drop_last() =~= views.take(i as int));
            assert(views.take(i + 1).last() == block@);
            let shown = before + block@.take(j as int);
            let whole = before + block@;
            if j == block@.len() {
                assert(block@.take(j as int) =~= block@);
            } else {
                assert(whole.take(SAMPLE_SIZE as int) =~= shown.take(SAMPLE_SIZE as int));
                assert(shown.len() == SAMPLE_SIZE ==> shown.take(SAMPLE_SIZE as int) =~= shown);
            }
        }
        i = i + 1;
    }
    assert(views.take(blocks@.len() as int) =~= views);
    sample
}

/// The line on a sampled file id.
pub fn diag_sample_line(fdid: u32) -> (line: String)
    ensures
        line@ == "  Block FDID: "@ + decimal(fdid as nat),
{
    "  Block FDID: ".to_string().concat(decimal_text(fdid as u64).as_str())
}

/// The first file id of the first block of a root file, which a diagnosis
/// looks up last.
pub fn diag_resolve_first_fdid(blocks: &Vec<Vec<u32>>) -> (fdid: Option<u32>)
    ensures
        fdid == (if blocks@.len() > 0 && blocks@[0]@.len() > 0 {
            Some(blocks@[0]@[0])
        } else {
            None
        }),
{
    if blocks.len() > 0 && blocks[0].len() > 0 {
        Some(blocks[0][0])
    } else {
        None
    }
}

/// What a diagnosis tells of a root file.
#[derive(Debug)]
pub struct RootStats {
    /// The text of the file's version.
    pub version: String,
    pub total_files: u64,
    pub named_files: u64,
    pub blocks: u64,
    /// The number of file ids that can be looked up.
    pub fdid_lookups: u64,
    /// The number of names that can be looked up.
    pub name_lookups: u64,
}

/// The lines on the size of a root file.
pub fn diag_print_root_stats(stats: &RootStats) -> (lines: Vec<String>)
    ensures
        lines@.map_values(|l: String| l@) == seq![
            "Root version: "@ + stats.version@,
            "Root total_files: "@ + decimal(stats.total_files as nat),
            "Root named_files: "@ + decimal(stats.named_files as nat),
            "Root blocks: "@ + decimal(stats.blocks as nat),
            "Root lookup stats: fdid="@ + decimal(stats.fdid_lookups as nat) + ", name="@ + decimal(
                stats.name_lookups as nat,
            ),
        ],
{
    let mut lines: Vec<String> = Vec::new();
    lines.push("Root version: ".to_string().concat(stats.version.as_str()));
    lines.push("Root total_files: ".to_string().concat(decimal_text(stats.total_files).as_str()));
    lines.push("Root named_files: ".to_string().concat(decimal_text(stats.named_files).as_str()));
    lines.push("Root blocks: ".to_string().concat(decimal_text(stats.blocks).as_str()));
    lines.push(
        "Root lookup stats: fdid=".to_string().concat(
            decimal_text(stats.fdid_lookups).as_str(),
        ).concat(", name=").concat(decimal_text(stats.name_lookups).as_str()),
    );
    assert(lines@.map_values(|l: String| l@) =~= seq![
        "Root version: "@ + stats.version@,
        "Root total_files: "@ + decimal(stats.total_files as nat),
        "Root named_files: "@ + decimal(stats.named_files as nat),
        "Root blocks: "@ + decimal(stats.blocks as nat),
        "Root lookup stats: fdid="@ + decimal(stats.fdid_lookups as nat) + ", name="@ + decimal(
            stats.name_lookups as nat,
        ),
    ]);
    lines
}

/// The number of the build is kept last, when every other step has succeeded.
pub proof fn build_id_is_saved_last(step: SetupStep)
    requires
        step !is Done,
    ensures
        setup_order()[step.place()] == step,
        step.place() <= SetupStep::SaveBuildId.place(),
        setup_order()[SetupStep::SaveBuildId.place() + 1] is Done,
{
}

/// A file id that a download is to fetch is the file id that is fetched.
pub proof fn fdid_target_is_read_back(fdid: u32)
    ensures
        target_text(None, Some(fdid)) matches Ok(target) && target_of(target) == Ok::<_, Error>(
            TargetView::Fdid { fdid, text: decimal(fdid as nat) },
        ),
{
    let target = FDID_PREFIX@ + decimal(fdid as nat);
    crate::text::parse_of_decimal(fdid);
    assert(target.skip(FDID_PREFIX@.len() as int) =~= decimal(fdid as nat));
    assert(FDID_PREFIX@ =~= target.subrange(0, FDID_PREFIX@.len() as int));
}

/// A path that does not start like a file id is fetched as it is.
pub proof fn path_target_is_read_back(path: Seq<char>)
    requires
        !FDID_PREFIX@.is_prefix_of(path),
    ensures
        target_text(Some(path), None) matches Ok(target) && target_of(target) == Ok::<_, Error>(
            TargetView::Path { path },
        ),
{
}

/// A file id is downloaded as that file, saved under its listed name, with and
/// without companions: what is fetched first does not depend on them.
pub proof fn fdid_is_downloaded_first(
    fdid: u32,
    listfile: Seq<(u32, Seq<char>)>,
    with_deps: bool,
)
    ensures
        target_text(None, Some(fdid)) matches Ok(text) && planned_target(text, true, with_deps)
            matches Ok(target) && file_requests(target, listfile, with_deps)[0] == main_request(
            TargetView::Fdid { fdid, text: decimal(fdid as nat) },
            listfile,
        ),
{
    fdid_target_is_read_back(fdid);
}

/// A path is downloaded as that path, with and without companions, unless it reads
/// like a file id.
pub proof fn path_is_downloaded_first(
    path: Seq<char>,
    listfile: Seq<(u32, Seq<char>)>,
    with_deps: bool,
)
    requires
        !FDID_PREFIX@.is_prefix_of(path),
    ensures
        target_text(Some(path), None) matches Ok(text) && planned_target(text, false, with_deps)
            matches Ok(target) && file_requests(target, listfile, with_deps)[0] == main_request(
            TargetView::Path { path },
            listfile,
        ),
{
}

/// Two products never share the file that keeps the number of their build.
pub proof fn products_have_their_own_build_ids(product1: Seq<char>, product2: Seq<char>)
    requires
        build_id_name(product1) == build_id_name(product2),
    ensures
        product1 == product2,
{
    reveal_strlit("build-id.txt");
    reveal_strlit("build-id-");
    reveal_strlit(".txt");
    let long1 = "build-id-"@ + product1 + ".txt"@;
    let long2 = "build-id-"@ + product2 + ".txt"@;
    assert(long1[8] == '-');
    assert(long2[8] == '-');
    assert("build-id.txt"@[8] == '.');
    if product1 != "wow"@ && product2 != "wow"@ {
        assert(long1.len() == 9 + product1.len() + 4);
        assert(long2.len() == 9 + product2.len() + 4);
        assert forall|i: int| 0 <= i < product1.len() implies product1[i] == product2[i] by {
            assert(long1[9 + i] == product1[i]);
            assert(long2[9 + i] == product2[i]);
        }
        assert(product1 =~= product2);
    }
}

/// Optional strings and blocks of file ids show what is in them.
pub proof fn values_show_their_content(text: String, blocks: Seq<Vec<u32>>)
    ensures
        string_of(Some(text)) == Some(text@),
        string_of(None) is None,
        block_views(blocks).len() == blocks.len(),
        forall|i: int| 0 <= i < blocks.len() ==> #[trigger] block_views(blocks)[i] == blocks[i]@,
{
}

/// A download has either a path, which is taken as it is, or a file id, which is
/// written in decimal behind `__fdid:`; with both or neither it is refused.
pub proof fn target_is_path_or_id(path: Seq<char>, fdid: u32)
    ensures
        target_text(Some(path), None) == Ok::<_, Error>(path),
        target_text(None, Some(fdid)) == Ok::<_, Error>("__fdid:"@ + decimal(fdid as nat)),
        target_text(Some(path), Some(fdid)) == Err::<Seq<char>, Error>(Error::TargetConflict),
        target_text(None, None) == Err::<Seq<char>, Error>(Error::TargetMissing),
{
}

/// A text that starts with `__fdid:` stands for the file id behind that, or is refused
/// for what is wrong with the number; any other stands for itself as a path.
pub proof fn text_stands_for_id_or_path(tail: Seq<char>, path: Seq<char>)
    ensures
        crate::text::all_digits(tail) && tail.len() > 0 && crate::text::digits_value(tail)
            <= 0xffff_ffff ==> target_of("__fdid:"@ + tail) == Ok::<_, Error>(
            TargetView::Fdid { fdid: crate::text::digits_value(tail) as u32, text: tail },
        ),
        parsed_u32(tail) is Ok ==> target_of("__fdid:"@ + tail) == Ok::<_, Error>(
            TargetView::Fdid { fdid: parsed_u32(tail)->Ok_0, text: tail },
        ),
        parsed_u32(tail) is Err ==> target_of("__fdid:"@ + tail) == Err::<TargetView, Error>(
            Error::InvalidFdid { cause: parsed_u32(tail)->Err_0 },
        ),
        !"__fdid:"@.is_prefix_of(path) ==> target_of(path) == Ok::<_, Error>(
            TargetView::Path { path },
        ),
{
    let prefix = "__fdid:"@;
    let whole = prefix + tail;
    assert(whole.subrange(0, prefix.len() as int) =~= prefix);
    assert(whole.skip(prefix.len() as int) =~= tail);
    if crate::text::all_digits(tail) && tail.len() > 0 {
        crate::text::digits_are_read(tail);
    }
}

/// A path that is downloaded with companions is that path, whatever it reads; in all
/// other cases the text of what to fetch decides.
pub proof fn path_with_companions_is_a_path(text: Seq<char>, by_id: bool)
    ensures
        planned_target(text, false, true) == Ok::<_, Error>(TargetView::Path { path: text }),
        planned_target(text, by_id, false) == target_of(text),
        planned_target(text, true, true) == target_of(text),
{
}

/// The number of the build of `wow` is kept in `build-id.txt`, and that of any other
/// product in a file that has the code of the product in its name.
pub proof fn build_id_files_are_named(product: Seq<char>)
    ensures
        build_id_name("wow"@) == "build-id.txt"@,
        product != "wow"@ ==> build_id_name(product) == "build-id-"@ + product + ".txt"@,
{
}

/// The line of a result is the decimal file id, a tab, and the path as it is listed.
pub proof fn result_line_reads_back(fdid: u32, path: Seq<char>)
    ensures
        exists|digits: Seq<char>|
            #[trigger] crate::text::all_digits(digits) && digits.len() > 0
                && crate::text::digits_value(digits) == fdid && result_line(fdid, path) == digits
                + "\t"@ + path,
{
    crate::text::decimal_denotes(fdid as nat);
    assert(crate::text::all_digits(decimal(fdid as nat)));
}

/// A diagnosis samples the first ten file ids over all blocks, in their order, or all
/// of them where there are fewer.
pub proof fn sample_is_the_first_ten(first: Seq<Seq<u32>>, second: Seq<Seq<u32>>, fdids: Seq<u32>)
    ensures
        all_fdids(first + second) == all_fdids(first) + all_fdids(second),
        all_fdids(seq![fdids]) == fdids,
        all_fdids(Seq::empty()) == Seq::<u32>::empty(),
        sample_of(fdids).is_prefix_of(fdids),
        fdids.len() <= 10 ==> sample_of(fdids) == fdids,
        fdids.len() > 10 ==> sample_of(fdids).len() == 10,
    decreases second.len(),
{
    let none = Seq::<Seq<u32>>::empty();
    reveal_with_fuel(all_fdids, 2);
    assert(seq![fdids].drop_last() =~= none);
    assert(all_fdids(seq![fdids]) =~= fdids);
    assert(sample_of(fdids) =~= fdids.subrange(0, sample_of(fdids).len() as int));
    if second.len() == 0 {
        assert(first + second =~= first);
        assert(all_fdids(first) + all_fdids(second) =~= all_fdids(first));
    } else {
        assert((first + second).drop_last() =~= first + second.drop_last());
        sample_is_the_first_ten(first, second.drop_last(), fdids);
        assert(all_fdids(first + second) =~= all_fdids(first) + all_fdids(second));
    }
}

/// The steps that set a product up come in this order, and the first of them names the
/// product.
pub proof fn setup_steps_in_order(product: Seq<char>)
    ensures
        setup_order() == seq![
            SetupStep::Connect,
            SetupStep::CacheBuild,
            SetupStep::FetchListfile,
            SetupStep::LoadIndices,
            SetupStep::SaveBuildId,
            SetupStep::Done,
        ],
        SetupStep::Connect.notice_text(product) == Some(
            "Connecting to Blizzard CDN for product "@ + product + "..."@,
        ),
{
}

} // verus!
