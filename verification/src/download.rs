//! What to save when a file is downloaded, and under which name.

use vstd::prelude::*;
use vstd::string::*;
use vstd::utf8::*;

use crate::error::Error;
use crate::paths::{
    file_in_dir_keeps_name, file_name, file_name_of, has_parent, has_parent_dir, DOT, SEPARATOR,
};
use crate::resolve::{path_of, Resolver};
use crate::text::{chars_of, decimal, decimal_text, text_from_utf8};

verus! {

/// Whether a character separates the parts of an asset path.
pub open spec fn is_separator(c: char) -> bool {
    c == '/' || c == '\\'
}

/// The last part of an asset path: all that follows its last separator.
pub open spec fn basename_of(path: Seq<char>) -> Seq<char>
    decreases path.len(),
{
    if path.len() == 0 || is_separator(path.last()) {
        Seq::empty()
    } else {
        basename_of(path.drop_last()).push(path.last())
    }
}

/// The last part of an asset path.
pub fn basename(path: &str) -> (name: &str)
    ensures
        name@ == basename_of(path@),
{
    let chars = chars_of(path);
    let len: usize = chars.len();
    let mut start: usize = len;
    assert(path@.take(len as int) =~= path@);
    while start > 0 && chars[start - 1] != '/' && chars[start - 1] != '\\'
        invariant
            start <= len,
            len == chars@.len(),
            chars@ == path@,
            basename_of(path@) == basename_of(path@.take(start as int)) + path@.skip(start as int),
        decreases start,
    {
        let ghost head = path@.take(start as int);
        assert(head.drop_last() =~= path@.take(start - 1));
        assert(basename_of(head) + path@.skip(start as int) =~= basename_of(head.drop_last())
            + path@.skip(start - 1));
        start = start - 1;
    }
    assert(basename_of(path@.take(start as int)) =~= Seq::<char>::empty());
    assert(basename_of(path@) =~= path@.skip(start as int));
    path.substring_char(start, len)
}

/// Whether an asset path is that of a model: it ends in `.m2`, in either case.
pub open spec fn is_model(path: Seq<char>) -> bool {
    &&& path.len() >= 3
    &&& path[path.len() - 3] == '.'
    &&& path[path.len() - 2] == 'm' || path[path.len() - 2] == 'M'
    &&& path[path.len() - 1] == '2'
}

/// The path of the skin that belongs to a model.
pub open spec fn skin_of(path: Seq<char>) -> Seq<char> {
    path.take(path.len() - 3) + "00.skin"@
}

/// The path of the skin that belongs to a model, if `path` is that of a model.
pub fn m2_skin_path(path: &str) -> (skin: Option<String>)
    ensures
        match skin {
            Some(skin) => is_model(path@) && skin@ == skin_of(path@),
            None => !is_model(path@),
        },
{
    let len: usize = path.unicode_len();
    if len < 3 {
        return None;
    }
    let middle: char = path.get_char(len - 2);
    if path.get_char(len - 3) != '.' || (middle != 'm' && middle != 'M') || path.get_char(len - 1)
        != '2' {
        return None;
    }
    let stem = path.substring_char(0, len - 3);
    assert(stem@ == path@.take(path@.len() - 3));
    Some(stem.to_string().concat("00.skin"))
}

/// What a download stands for.
#[derive(Debug)]
pub enum Target {
    /// A file id, with its text.
    Fdid { fdid: u32, text: String },
    /// An asset path.
    Path { path: String },
}

/// The mathematical content of a [`Target`].
pub enum TargetView {
    Fdid { fdid: u32, text: Seq<char> },
    Path { path: Seq<char> },
}

impl View for Target {
    type V = TargetView;

    open spec fn view(&self) -> TargetView {
        match *self {
            Target::Fdid { fdid, text } => TargetView::Fdid { fdid, text: text@ },
            Target::Path { path } => TargetView::Path { path: path@ },
        }
    }
}

impl TargetView {
    /// The text by which a target is known: that of its file id, or its path.
    pub open spec fn text(self) -> Seq<char> {
        match self {
            TargetView::Fdid { fdid: _, text } => text,
            TargetView::Path { path } => path,
        }
    }
}

/// The asset path of what a target stands for, as far as it is known: a path is
/// its own, and that of a file id is the one under which it is listed.
pub open spec fn target_path(target: TargetView, listfile: Seq<(u32, Seq<char>)>) -> Option<
    Seq<char>,
> {
    match target {
        TargetView::Path { path } => Some(path),
        TargetView::Fdid { fdid, text: _ } => path_of(listfile, fdid),
    }
}

/// The name under which a target is saved: the last part of its path, or the
/// text of a file id whose path is unknown.
pub open spec fn saved_as(target: TargetView, listfile: Seq<(u32, Seq<char>)>) -> Seq<char> {
    match target_path(target, listfile) {
        Some(path) => basename_of(path),
        None => target.text(),
    }
}

impl Target {
    /// The text by which the target is known.
    pub fn text(&self) -> (text: &str)
        ensures
            text@ == self@.text(),
    {
        match self {
            Target::Fdid { fdid: _, text } => text.as_str(),
            Target::Path { path } => path.as_str(),
        }
    }

    /// The asset path of what the target stands for, as far as it is known.
    pub fn path<'a>(&'a self, resolver: &'a Resolver) -> (path: Option<&'a str>)
        ensures
            match (target_path(self@, resolver@), path) {
                (Some(known), Some(path)) => path@ == known,
                (None, None) => true,
                _ => false,
            },
    {
        match self {
            Target::Fdid { fdid, text: _ } => resolver.path_for_fdid(*fdid),
            Target::Path { path } => Some(path.as_str()),
        }
    }

    /// The name under which the target is saved.
    pub fn filename(&self, resolver: &Resolver) -> (name: String)
        ensures
            name@ == saved_as(self@, resolver@),
    {
        match self.path(resolver) {
            Some(path) => basename(path).to_string(),
            None => self.text().to_string(),
        }
    }

    /// What to print before the target is saved as `filename`.
    pub fn notice(&self, filename: &str) -> (text: String)
        ensures
            text@ == match self@ {
                TargetView::Fdid { fdid, text: _ } => "Downloading fdid="@ + decimal(fdid as nat)
                    + " as "@ + filename@ + "..."@,
                TargetView::Path { path } => "Downloading "@ + path + "..."@,
            },
    {
        match self {
            Target::Fdid { fdid, text: _ } => "Downloading fdid=".to_string().concat(
                decimal_text(*fdid as u64).as_str(),
            ).concat(" as ").concat(filename).concat("..."),
            Target::Path { path } => "Downloading ".to_string().concat(path.as_str()).concat("..."),
        }
    }
}

/// A file to download.
#[derive(Debug)]
pub struct FileRequest {
    /// What to download: a file id is looked up as such, a path by its name.
    pub target: Target,
    /// The name under which the file is saved.
    pub filename: String,
    /// Whether the whole download fails when this file cannot be had.
    pub required: bool,
}

/// The mathematical content of a [`FileRequest`].
pub struct FileRequestView {
    pub target: TargetView,
    pub filename: Seq<char>,
    pub required: bool,
}

impl View for FileRequest {
    type V = FileRequestView;

    open spec fn view(&self) -> FileRequestView {
        FileRequestView {
            target: self.target@,
            filename: self.filename@,
            required: self.required,
        }
    }
}

/// The request for the file at `path`.
pub open spec fn file_request(path: Seq<char>, required: bool) -> FileRequestView {
    FileRequestView { target: TargetView::Path { path }, filename: basename_of(path), required }
}

/// The request for what a target stands for.
pub open spec fn main_request(
    target: TargetView,
    listfile: Seq<(u32, Seq<char>)>,
) -> FileRequestView {
    FileRequestView { target, filename: saved_as(target, listfile), required: true }
}

/// The files to download for a target, in order: what it stands for, and, where
/// companions are wanted and it is known to be a model, the model's skin, without
/// which the download still succeeds.
pub open spec fn file_requests(
    target: TargetView,
    listfile: Seq<(u32, Seq<char>)>,
    with_deps: bool,
) -> Seq<FileRequestView> {
    let main = main_request(target, listfile);
    match target_path(target, listfile) {
        Some(path) if with_deps && is_model(path) => seq![
            main,
            file_request(skin_of(path), false),
        ],
        _ => seq![main],
    }
}

/// The content of each request.
pub open spec fn request_views(requests: Seq<FileRequest>) -> Seq<FileRequestView> {
    requests.map_values(|r: FileRequest| r@)
}

impl FileRequest {
    /// What to print before the file is downloaded.
    pub fn notice(&self) -> (text: Option<String>)
        ensures
            match text {
                Some(text) => !self.required && text@ == "Downloading companion skin: "@
                    + self.target@.text(),
                None => self.required,
            },
    {
        if self.required {
            None
        } else {
            Some("Downloading companion skin: ".to_string().concat(self.target.text()))
        }
    }

    /// The warning to print when the file cannot be had because of `error`, if
    /// the download goes on without it.
    pub fn warning(&self, error: &str) -> (text: Option<String>)
        ensures
            match text {
                Some(text) => !self.required && text@ == "Warning: could not download skin "@
                    + self.target@.text() + ": "@ + error@,
                None => self.required,
            },
    {
        if self.required {
            None
        } else {
            Some(
                "Warning: could not download skin ".to_string().concat(self.target.text()).concat(
                    ": ",
                ).concat(error),
            )
        }
    }
}

/// The request for what a target stands for.
pub fn download_single(target: Target, resolver: &Resolver) -> (request: FileRequest)
    ensures
        request@ == main_request(target@, resolver@),
{
    let filename = target.filename(resolver);
    FileRequest { target, filename, required: true }
}

/// The request for the skin that belongs to a target, if it is known to be a model.
pub fn companion(target: &Target, resolver: &Resolver) -> (skin: Option<FileRequest>)
    ensures
        match (target_path(target@, resolver@), skin) {
            (Some(path), Some(skin)) => is_model(path) && skin@ == file_request(
                skin_of(path),
                false,
            ),
            (Some(path), None) => !is_model(path),
            (None, skin) => skin is None,
        },
{
    match target.path(resolver) {
        Some(path) => match m2_skin_path(path) {
            Some(skin) => {
                let filename = basename(skin.as_str()).to_string();
                Some(FileRequest { target: Target::Path { path: skin }, filename, required: false })
            },
            None => None,
        },
        None => None,
    }
}

/// The files to download for a target together with what belongs to it.
pub fn download_with_deps(target: Target, resolver: &Resolver) -> (requests: Vec<FileRequest>)
    ensures
        request_views(requests@) == file_requests(target@, resolver@, true),
{
    let skin = companion(&target, resolver);
    let mut requests: Vec<FileRequest> = Vec::new();
    requests.push(download_single(target, resolver));
    if let Some(skin) = skin {
        requests.push(skin);
    }
    assert(request_views(requests@) =~= file_requests(target@, resolver@, true));
    requests
}

/// The directory in which a file is saved.
#[derive(Debug, Clone, Copy, PartialEq, Eq, Structural)]
pub enum SaveDir {
    /// The directory that the output path names.
    Parent,
    /// The current directory.
    Current,
}

/// Where a file is saved.
#[derive(Debug)]
pub struct SaveTarget {
    pub dir: SaveDir,
    pub filename: String,
}

/// The name under which a file is saved at an output path, given by its bytes:
/// the name of the file at that path, if it is text.
pub open spec fn output_name(path: Seq<u8>) -> Option<Seq<char>> {
    match file_name_of(path) {
        Some(name) if valid_utf8(name) => Some(decode_utf8(name)),
        _ => None,
    }
}

/// Where a file is saved that is to be saved at an output path, given by its bytes.
pub fn download_and_save(output_path: &[u8]) -> (res: Result<SaveTarget, Error>)
    ensures
        match (output_name(output_path@), res) {
            (Some(name), Ok(target)) => target.filename@ == name && target.dir
                == if has_parent_dir(output_path@) {
                SaveDir::Parent
            } else {
                SaveDir::Current
            },
            (None, Err(Error::NoFileName)) => true,
            _ => false,
        },
{
    let dir = if has_parent(output_path) {
        SaveDir::Parent
    } else {
        SaveDir::Current
    };
    match file_name(output_path) {
        Some(name) => match text_from_utf8(name) {
            Some(filename) => Ok(SaveTarget { dir, filename }),
            None => Err(Error::NoFileName),
        },
        None => Err(Error::NoFileName),
    }
}

/// How the place of a file is found from the output directory and its name.
#[derive(Debug, Clone, Copy, PartialEq, Eq, Structural)]
pub enum SavePlace {
    /// In the output directory, under the name as it is.
    InDir,
    /// At the path that the name has there, as [`download_and_save`] reads it.
    AtPath,
}

/// The name under which a file is saved holds no separator, and the asset path
/// ends in it.
pub proof fn basename_is_one_part(path: Seq<char>)
    ensures
        forall|i: int|
            0 <= i < basename_of(path).len() ==> !is_separator(#[trigger] basename_of(path)[i]),
        basename_of(path).is_suffix_of(path),
    decreases path.len(),
{
    if path.len() > 0 && !is_separator(path.last()) {
        let before = path.drop_last();
        basename_is_one_part(before);
        let name = basename_of(path);
        assert forall|i: int| 0 <= i < name.len() implies !is_separator(#[trigger] name[i]) by {
            if i < basename_of(before).len() {
                assert(name[i] == basename_of(before)[i]);
            }
        }
        assert(path.subrange(path.len() - name.len(), path.len() as int) =~= name) by {
            let inner = basename_of(before);
            assert(before.subrange(before.len() - inner.len(), before.len() as int) == inner);
            assert forall|i: int| 0 <= i < name.len() implies path.subrange(
                path.len() - name.len(),
                path.len() as int,
            )[i] == name[i] by {
                if i < inner.len() {
                    assert(inner[i] == before.subrange(
                        before.len() - inner.len(),
                        before.len() as int,
                    )[i]);
                }
            }
        }
    } else {
        assert(path.subrange(path.len() as int, path.len() as int) =~= Seq::<char>::empty());
    }
}

/// What stands behind a separator in an asset path is its last part, if it
/// holds no separator itself.
pub proof fn basename_follows_separator(dir: Seq<char>, separator: char, name: Seq<char>)
    requires
        is_separator(separator),
        forall|i: int| 0 <= i < name.len() ==> !is_separator(#[trigger] name[i]),
    ensures
        basename_of(dir.push(separator) + name) == name,
{
    lemma_basename_of_tail(dir.push(separator), name);
    assert(basename_of(dir.push(separator)) + name =~= name);
}

/// Text without a separator that is put behind a path is put behind its last part.
proof fn lemma_basename_of_tail(path: Seq<char>, tail: Seq<char>)
    requires
        forall|i: int| 0 <= i < tail.len() ==> !is_separator(#[trigger] tail[i]),
    ensures
        basename_of(path + tail) == basename_of(path) + tail,
    decreases tail.len(),
{
    if tail.len() == 0 {
        assert(path + tail =~= path);
        assert(basename_of(path) + tail =~= basename_of(path));
    } else {
        let shorter = tail.drop_last();
        assert forall|i: int| 0 <= i < shorter.len() implies !is_separator(
            #[trigger] shorter[i],
        ) by {
            assert(shorter[i] == tail[i]);
        }
        lemma_basename_of_tail(path, shorter);
        assert((path + tail).drop_last() =~= path + shorter);
        assert(!is_separator(tail[tail.len() - 1]));
        assert(basename_of(path + tail) =~= basename_of(path) + tail);
    }
}

/// The skin of a model is no model, so it brings no further file; it is saved
/// under the model's name with `00.skin` in place of `.m2`.
pub proof fn skin_belongs_to_model(path: Seq<char>, listfile: Seq<(u32, Seq<char>)>)
    requires
        is_model(path),
    ensures
        !is_model(skin_of(path)),
        file_requests(TargetView::Path { path: skin_of(path) }, listfile, true).len() == 1,
        basename_of(skin_of(path)) == basename_of(path).take(basename_of(path).len() - 3)
            + "00.skin"@,
{
    reveal_strlit("00.skin");
    let stem = path.take(path.len() - 3);
    let ext = path.skip(path.len() - 3);
    assert(path =~= stem + ext);
    assert(skin_of(path).last() == 'n');
    lemma_basename_of_tail(stem, ext);
    lemma_basename_of_tail(stem, "00.skin"@);
    assert((basename_of(stem) + ext).take(basename_of(path).len() - 3) =~= basename_of(stem));
}

/// To ask for companions only adds a file: the first file is the same with and
/// without them, and it alone decides whether the download succeeds.
pub proof fn companions_only_add(target: TargetView, listfile: Seq<(u32, Seq<char>)>)
    ensures
        file_requests(target, listfile, false) == seq![main_request(target, listfile)],
        file_requests(target, listfile, true)[0] == file_requests(target, listfile, false)[0],
        1 <= file_requests(target, listfile, true).len() <= 2,
        file_requests(target, listfile, true)[0].required,
        forall|i: int|
            1 <= i < file_requests(target, listfile, true).len() ==> !(#[trigger] file_requests(
                target,
                listfile,
                true,
            )[i]).required,
{
}

/// A file id is saved under the same name as the path under which it is listed,
/// and has the same companion; only the file itself is looked up by its id.
pub proof fn listed_id_downloads_as_its_path(
    fdid: u32,
    text: Seq<char>,
    path: Seq<char>,
    listfile: Seq<(u32, Seq<char>)>,
    with_deps: bool,
)
    requires
        path_of(listfile, fdid) == Some(path),
    ensures
        ({
            let by_id = file_requests(TargetView::Fdid { fdid, text }, listfile, with_deps);
            let by_path = file_requests(TargetView::Path { path }, listfile, with_deps);
            &&& by_id.len() == by_path.len()
            &&& by_id[0].target == TargetView::Fdid { fdid, text }
            &&& by_id[0].filename == by_path[0].filename
            &&& by_id.skip(1) == by_path.skip(1)
        }),
{
    let by_id = file_requests(TargetView::Fdid { fdid, text }, listfile, with_deps);
    let by_path = file_requests(TargetView::Path { path }, listfile, with_deps);
    assert(by_id.skip(1) =~= by_path.skip(1));
}

/// A byte of `/` stands in the bytes of a text only for a `/` in the text.
proof fn lemma_no_separator(text: Seq<char>)
    requires
        !text.contains('/'),
    ensures
        !encode_utf8(text).contains(SEPARATOR),
    decreases text.len(),
{
    if text.len() > 0 {
        let c = text[0] as u32;
        let rest = text.drop_first();
        assert(text.contains(text[0]));
        assert(!rest.contains('/')) by {
            if rest.contains('/') {
                let i = choose|i: int| 0 <= i < rest.len() && rest[i] == '/';
                assert(text[i + 1] == '/');
            }
        }
        lemma_no_separator(rest);
        char_is_scalar(text[0]);
        char_u32_cast(text[0], c);
        assert(c != 0x2f);
        assert(c <= 0x7f && c != 0x2f ==> leading_byte_width_1(c) != 0x2f) by (bit_vector);
        assert(leading_byte_width_2(c) >= 0x80) by (bit_vector);
        assert(leading_byte_width_3(c) >= 0x80) by (bit_vector);
        assert(leading_byte_width_4(c) >= 0x80) by (bit_vector);
        assert(last_continuation_byte(c) >= 0x80) by (bit_vector);
        assert(second_last_continuation_byte(c) >= 0x80) by (bit_vector);
        assert(third_last_continuation_byte(c) >= 0x80) by (bit_vector);
        let first = encode_scalar(c);
        let bytes = encode_utf8(text);
        if bytes.contains(SEPARATOR) {
            let i = choose|i: int| 0 <= i < bytes.len() && bytes[i] == SEPARATOR;
            if i < first.len() {
                assert(first[i] == SEPARATOR);
            } else {
                assert(encode_utf8(rest)[i - first.len()] == SEPARATOR);
            }
        }
    }
}

/// A file that is to be saved at the path that its name has in a directory is saved
/// in a directory under that name, unless the name is empty, `.` or `..`.
pub proof fn file_is_saved_under_its_name(dir: Seq<u8>, name: Seq<char>)
    requires
        dir.len() == 0 || dir.last() == SEPARATOR,
        !name.contains('/'),
        name.len() > 0,
        name != "."@,
        name != ".."@,
    ensures
        output_name(dir + encode_utf8(name)) == Some(name),
        has_parent_dir(dir + encode_utf8(name)),
{
    let bytes = encode_utf8(name);
    lemma_no_separator(name);
    encode_utf8_valid_utf8(name);
    encode_utf8_decode_utf8(name);
    encode_utf8_first_scalar(name);
    reveal_strlit(".");
    reveal_strlit("..");
    is_ascii_chars_encode_utf8("."@);
    is_ascii_chars_encode_utf8(".."@);
    encode_utf8_decode_utf8("."@);
    encode_utf8_decode_utf8(".."@);
    assert(encode_utf8("."@) =~= seq![DOT]);
    assert(encode_utf8(".."@) =~= seq![DOT, DOT]);
    file_in_dir_keeps_name(dir, bytes);
}

/// Targets and requests show their fields.
pub proof fn requests_show_their_fields(target: Target, request: FileRequest)
    ensures
        match target {
            Target::Fdid { fdid, text } => target@ == (TargetView::Fdid { fdid, text: text@ })
                && target@.text() == text@,
            Target::Path { path } => target@ == (TargetView::Path { path: path@ })
                && target@.text() == path@,
        },
        request@.target == request.target@,
        request@.filename == request.filename@,
        request@.required == request.required,
{
}

/// A list of requests shows each of them, in order.
pub proof fn request_lists_show_each(requests: Seq<FileRequest>)
    ensures
        request_views(requests).len() == requests.len(),
        forall|i: int|
            0 <= i < requests.len() ==> #[trigger] request_views(requests)[i] == requests[i]@,
{
}

/// The last part of an asset path is what follows its last `/` or `\\`, and the whole
/// path where it has neither.
pub proof fn basename_follows_slash_or_backslash(dir: Seq<char>, name: Seq<char>)
    requires
        !name.contains('/'),
        !name.contains('\\'),
    ensures
        basename_of(name) == name,
        basename_of(dir + "/"@ + name) == name,
        basename_of(dir + "\\"@ + name) == name,
{
    reveal_strlit("/");
    reveal_strlit("\\");
    assert forall|i: int| 0 <= i < name.len() implies !is_separator(#[trigger] name[i]) by {
        assert(name.contains(name[i]));
    }
    assert(dir + "/"@ =~= dir.push('/'));
    assert(dir + "\\"@ =~= dir.push('\\'));
    basename_follows_separator(dir, '/', name);
    basename_follows_separator(dir, '\\', name);
    lemma_basename_of_tail(Seq::empty(), name);
    assert(Seq::<char>::empty() + name =~= name);
    assert(basename_of(Seq::<char>::empty()) + name =~= name);
}

/// Every path that ends in `.m2` or `.M2` is that of a model, whatever stands before,
/// and its skin has `00.skin` in place of that ending.
pub proof fn every_m2_has_a_skin(s: Seq<char>)
    ensures
        is_model(s + ".m2"@),
        is_model(s + ".M2"@),
        skin_of(s + ".m2"@) == s + "00.skin"@,
        skin_of(s + ".M2"@) == s + "00.skin"@,
{
    reveal_strlit(".m2");
    reveal_strlit(".M2");
    assert((s + ".m2"@).take(s.len() as int) =~= s);
    assert((s + ".M2"@).take(s.len() as int) =~= s);
}

/// No other path is that of a model.
pub proof fn only_m2_is_a_model(path: Seq<char>)
    requires
        is_model(path),
    ensures
        path.len() >= 3,
        path == path.take(path.len() - 3) + ".m2"@ || path == path.take(path.len() - 3) + ".M2"@,
{
    reveal_strlit(".m2");
    reveal_strlit(".M2");
    assert(path =~= path.take(path.len() - 3) + ".m2"@ || path =~= path.take(path.len() - 3)
        + ".M2"@);
}

/// A file is saved under the last part of its path; one that is asked for by its id
/// under that of its listed path, or under the text of the id where it is not listed.
pub proof fn files_are_named_by_their_paths(
    dir: Seq<char>,
    name: Seq<char>,
    fdid: u32,
    text: Seq<char>,
    listfile: Seq<(u32, Seq<char>)>,
)
    requires
        !name.contains('/'),
        !name.contains('\\'),
    ensures
        saved_as(TargetView::Path { path: name }, listfile) == name,
        saved_as(TargetView::Path { path: dir + "/"@ + name }, listfile) == name,
        saved_as(TargetView::Path { path: dir + "\\"@ + name }, listfile) == name,
        path_of(listfile, fdid) == Some(dir + "/"@ + name) ==> saved_as(
            TargetView::Fdid { fdid, text },
            listfile,
        ) == name,
        path_of(listfile, fdid) == Some(dir + "\\"@ + name) ==> saved_as(
            TargetView::Fdid { fdid, text },
            listfile,
        ) == name,
        path_of(listfile, fdid) is None ==> saved_as(TargetView::Fdid { fdid, text }, listfile)
            == text,
{
    basename_follows_slash_or_backslash(dir, name);
}

/// What is asked for is downloaded first and must be had. With companions, a path that
/// ends in `.m2` or `.M2` brings a second file, which may be missing: the path with
/// `00.skin` in place of that ending. It does so for the path that is listed for an id
/// too.
pub proof fn model_brings_its_skin(
    s: Seq<char>,
    fdid: u32,
    text: Seq<char>,
    listfile: Seq<(u32, Seq<char>)>,
)
    ensures
        ({
            let skin = FileRequestView {
                target: TargetView::Path { path: s + "00.skin"@ },
                filename: basename_of(s + "00.skin"@),
                required: false,
            };
            let lower = TargetView::Path { path: s + ".m2"@ };
            let upper = TargetView::Path { path: s + ".M2"@ };
            let by_id = TargetView::Fdid { fdid, text };
            &&& file_requests(lower, listfile, true) == seq![
                FileRequestView {
                    target: lower,
                    filename: basename_of(s + ".m2"@),
                    required: true,
                },
                skin,
            ]
            &&& file_requests(upper, listfile, true) == seq![
                FileRequestView {
                    target: upper,
                    filename: basename_of(s + ".M2"@),
                    required: true,
                },
                skin,
            ]
            &&& path_of(listfile, fdid) == Some(s + ".m2"@) ==> file_requests(
                by_id,
                listfile,
                true,
            ) == seq![
                FileRequestView {
                    target: by_id,
                    filename: basename_of(s + ".m2"@),
                    required: true,
                },
                skin,
            ]
            &&& path_of(listfile, fdid) == Some(s + ".M2"@) ==> file_requests(
                by_id,
                listfile,
                true,
            ) == seq![
                FileRequestView {
                    target: by_id,
                    filename: basename_of(s + ".M2"@),
                    required: true,
                },
                skin,
            ]
        }),
{
    every_m2_has_a_skin(s);
}

/// What is no model, or is asked for without companions, is downloaded alone, as it
/// was asked for.
pub proof fn other_files_are_downloaded_alone(
    target: TargetView,
    path: Seq<char>,
    listfile: Seq<(u32, Seq<char>)>,
)
    ensures
        file_requests(target, listfile, false) == seq![
            FileRequestView { target, filename: saved_as(target, listfile), required: true },
        ],
        (forall|s: Seq<char>| #![trigger s + ".m2"@] path != s + ".m2"@ && path != s + ".M2"@)
            ==> file_requests(TargetView::Path { path }, listfile, true) == seq![
            FileRequestView {
                target: TargetView::Path { path },
                filename: basename_of(path),
                required: true,
            },
        ],
        target_path(target, listfile) is None ==> file_requests(target, listfile, true) == seq![
            FileRequestView { target, filename: target.text(), required: true },
        ],
{
    if is_model(path) {
        only_m2_is_a_model(path);
        let s = path.take(path.len() - 3);
        assert(path == s + ".m2"@ || path == s + ".M2"@);
    }
}

/// An output path whose file name is no text names no file to save to.
pub proof fn output_name_is_text(path: Seq<u8>)
    ensures
        file_name_of(path) is None ==> output_name(path) is None,
        file_name_of(path) is Some && !valid_utf8(file_name_of(path)->0) ==> output_name(path)
            is None,
        file_name_of(path) is Some && valid_utf8(file_name_of(path)->0) ==> output_name(path)
            == Some(decode_utf8(file_name_of(path)->0)),
{
}

} // verus!
