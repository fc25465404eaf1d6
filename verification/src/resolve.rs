//! Paths, file ids and keys: the list of file names, searches in it, and the
//! way from a path or a file id to the key by which a file is fetched.

use vstd::prelude::*;
use vstd::string::*;
use vstd::utf8::*;

use crate::cdn::{bytes_of, cache_root, default_cache_root, text_of};
use crate::error::Error;
use crate::paths::{join, joined};
use crate::text::{
    all_digits, contains, contains_text, digits_value, first_position, is_digit, is_white_space,
    occurs_at, parse_u32, parsed_u32, position, trim, trimmed,
};

verus! {

/// The most results that a search gives.
pub const MAX_RESULTS: usize = 100;

/// The lower-case form that the rules of Unicode give a text.
pub uninterp spec fn unicode_lower(s: Seq<char>) -> Seq<char>;

/// The lower-case form of an ASCII character.
pub open spec fn ascii_lower(c: char) -> char {
    if 'A' <= c <= 'Z' {
        (c as u32 + 32) as char
    } else {
        c
    }
}

/// The lower-case form of a text. In an ASCII text the letters `A` to `Z` are
/// replaced by `a` to `z`; any other text goes by the rules of Unicode.
pub open spec fn lowercased(s: Seq<char>) -> Seq<char> {
    if is_ascii_chars(s) {
        s.map_values(|c: char| ascii_lower(c))
    } else {
        unicode_lower(s)
    }
}

/// `str::to_lowercase`: gives the lower-case form of a text, which is a
/// function of the text alone. Of an ASCII text it is the text with `A` to `Z`
/// replaced by `a` to `z`; what Unicode says of other texts has only a name here.
#[verifier::external_body]
fn lowercase(s: &str) -> (res: String)
    ensures
        res@ == (if is_ascii_chars(s@) {
            s@.map_values(|c: char| ascii_lower(c))
        } else {
            unicode_lower(s@)
        }),
{
    s.to_lowercase()
}

/// What a line of the list of file names says: a file id, `;`, and a path. A
/// line that does not say both is passed over.
pub open spec fn listed(line: Seq<char>) -> Option<(u32, Seq<char>)> {
    match first_position(line, ';') {
        None => None,
        Some(at) => match parsed_u32(trimmed(line.take(at))) {
            Err(_) => None,
            Ok(id) => {
                let path = trimmed(line.skip(at + 1));
                if path.len() == 0 {
                    None
                } else {
                    Some((id, path))
                }
            },
        },
    }
}

/// The file ids and paths in a list of lines, in order. A line that could not
/// be read is passed over.
pub open spec fn listed_all(lines: Seq<Option<Seq<char>>>) -> Seq<(u32, Seq<char>)>
    decreases lines.len(),
{
    if lines.len() == 0 {
        Seq::empty()
    } else {
        let before = listed_all(lines.drop_last());
        match lines.last() {
            None => before,
            Some(line) => match listed(line) {
                None => before,
                Some(entry) => before.push(entry),
            },
        }
    }
}

/// The text of each line that could be read.
pub open spec fn line_texts(lines: Seq<Option<String>>) -> Seq<Option<Seq<char>>> {
    lines.map_values(
        |line: Option<String>|
            match line {
                Some(text) => Some(text@),
                None => None,
            },
    )
}

/// The file ids and paths of a list.
pub open spec fn entry_texts(entries: Seq<(u32, String)>) -> Seq<(u32, Seq<char>)> {
    entries.map_values(|e: (u32, String)| (e.0, e.1@))
}

/// Reads a line of the list of file names.
pub fn parse_listfile_line(line: String) -> (res: Option<(u32, String)>)
    ensures
        match res {
            Some((id, path)) => listed(line@) == Some((id, path@)),
            None => listed(line@) is None,
        },
{
    let text = line.as_str();
    let at: usize = match position(text, ';') {
        Some(at) => at,
        None => return None,
    };
    let len: usize = text.unicode_len();
    let head = text.substring_char(0, at);
    let tail = text.substring_char(at + 1, len);
    proof {
        assert(head@ == line@.take(at as int));
        assert(tail@ == line@.skip(at + 1));
    }
    let id: u32 = match parse_u32(trim(head)) {
        Ok(id) => id,
        Err(_) => return None,
    };
    let path = trim(tail);
    if path.is_empty() {
        return None;
    }
    Some((id, path.to_string()))
}

/// Reads the lines of the list of file names.
pub fn parse_listfile_lines(lines: Vec<Option<String>>) -> (entries: Vec<(u32, String)>)
    ensures
        entry_texts(entries@) == listed_all(line_texts(lines@)),
{
    let ghost texts = line_texts(lines@);
    let mut entries: Vec<(u32, String)> = Vec::new();
    let mut i: usize = 0;
    assert(entry_texts(entries@) =~= Seq::<(u32, Seq<char>)>::empty());
    assert(texts.take(0) =~= Seq::<Option<Seq<char>>>::empty());
    while i < lines.len()
        invariant
            i <= lines@.len(),
            texts == line_texts(lines@),
            entry_texts(entries@) == listed_all(texts.take(i as int)),
        decreases lines@.len() - i,
    {
        assert(texts.take(i + 1).drop_last() =~= texts.take(i as int));
        assert(texts.take(i + 1).last() == texts[i as int]);
        let ghost before = entries@;
        if let Some(line) = &lines[i] {
            if let Some(entry) = parse_listfile_line(line.clone()) {
                entries.push(entry);
                assert(entry_texts(entries@) =~= entry_texts(before).push((entry.0, entry.1@)));
            }
        }
        i = i + 1;
    }
    assert(texts.take(lines@.len() as int) =~= texts);
    entries
}

/// Whether a path matches a search, in whatever case either is written.
pub open spec fn path_matches(path: Seq<char>, pattern: Seq<char>) -> bool {
    contains_text(lowercased(path), lowercased(pattern))
}

/// All entries of a list whose paths match a search, in order.
pub open spec fn matching(entries: Seq<(u32, Seq<char>)>, pattern: Seq<char>) -> Seq<
    (u32, Seq<char>),
> {
    entries.filter(|e: (u32, Seq<char>)| path_matches(e.1, pattern))
}

/// What a search gives: the first matches, up to a limit.
pub open spec fn search_result(entries: Seq<(u32, Seq<char>)>, pattern: Seq<char>) -> Seq<
    (u32, Seq<char>),
> {
    let all = matching(entries, pattern);
    if all.len() <= MAX_RESULTS {
        all
    } else {
        all.take(MAX_RESULTS as int)
    }
}

/// The path that a list gives a file id: that of its first entry for the id.
pub open spec fn path_of(entries: Seq<(u32, Seq<char>)>, fdid: u32) -> Option<Seq<char>>
    decreases entries.len(),
{
    if entries.len() == 0 {
        None
    } else if entries[0].0 == fdid {
        Some(entries[0].1)
    } else {
        path_of(entries.drop_first(), fdid)
    }
}

/// The texts of the results of a search.
pub open spec fn result_texts(results: Seq<(u32, &str)>) -> Seq<(u32, Seq<char>)> {
    results.map_values(|r: (u32, &str)| (r.0, r.1@))
}

/// Adds the entry of a list to the results of a search, if there is room for it
/// and its path matches: `lower_path` and `lower_pattern` are the lower-case
/// forms of the path and of the pattern.
pub fn keep_match<'a>(
    results: &mut Vec<(u32, &'a str)>,
    fdid: u32,
    path: &'a str,
    lower_path: &str,
    lower_pattern: &str,
)
    ensures
        result_texts(final(results)@) == (if old(results)@.len() < MAX_RESULTS && contains_text(
            lower_path@,
            lower_pattern@,
        ) {
            result_texts(old(results)@).push((fdid, path@))
        } else {
            result_texts(old(results)@)
        }),
{
    if results.len() < MAX_RESULTS && contains(lower_path, lower_pattern) {
        results.push((fdid, path));
        assert(result_texts(results@) =~= result_texts(old(results)@).push((fdid, path@)));
    }
}

/// Finds files by path and by id.
#[derive(Debug)]
pub struct Resolver {
    listfile: Vec<(u32, String)>,
}

impl View for Resolver {
    type V = Seq<(u32, Seq<char>)>;

    closed spec fn view(&self) -> Seq<(u32, Seq<char>)> {
        entry_texts(self.listfile@)
    }
}

/// The key of a file: what the encoding file lists for its content, if the root file
/// lists the file.
pub open spec fn resolved_key(in_root: bool, listed: Option<Seq<u8>>) -> Option<Seq<u8>> {
    if in_root {
        listed
    } else {
        None
    }
}

impl Resolver {
    /// A resolver without a list of file names, given what came of loading the
    /// cached root file and then the cached encoding file. What came of the
    /// encoding file counts only where the root file was loaded.
    pub fn from_cached(root: Result<(), String>, encoding: Result<(), String>) -> (res: Result<
        Resolver,
        Error,
    >)
        ensures
            match res {
                Ok(resolver) => root is Ok && encoding is Ok && resolver@ == Seq::<
                    (u32, Seq<char>),
                >::empty(),
                Err(Error::RootFileNotLoaded { cause }) => root matches Err(reason) && cause@
                    == reason@,
                Err(Error::EncodingFileNotLoaded { cause }) => root is Ok && (encoding matches Err(
                    reason,
                ) && cause@ == reason@),
                Err(_) => false,
            },
    {
        if let Err(cause) = root {
            return Err(Error::RootFileNotLoaded { cause });
        }
        if let Err(cause) = encoding {
            return Err(Error::EncodingFileNotLoaded { cause });
        }
        let resolver = Resolver { listfile: Vec::new() };
        assert(resolver@ =~= Seq::<(u32, Seq<char>)>::empty());
        Ok(resolver)
    }

    /// Takes the list of file names from its lines, in place of any earlier list.
    pub fn load_listfile(&mut self, lines: Vec<Option<String>>)
        ensures
            final(self)@ == listed_all(line_texts(lines@)),
    {
        self.listfile = parse_listfile_lines(lines);
    }

    /// The first entries whose paths hold `pattern`, in whatever case.
    pub fn search(&self, pattern: &str) -> (results: Vec<(u32, &str)>)
        ensures
            result_texts(results@) == search_result(self@, pattern@),
    {
        let lower = lowercase(pattern);
        let ghost entries = self@;
        let ghost keep = |e: (u32, Seq<char>)| path_matches(e.1, pattern@);
        let mut results: Vec<(u32, &str)> = Vec::new();
        let mut i: usize = 0;
        proof {
            assert(entries.take(0) =~= Seq::empty());
            reveal(Seq::filter);
            assert(result_texts(results@) =~= Seq::empty());
        }
        while i < self.listfile.len() && results.len() < MAX_RESULTS
            invariant
                i <= self.listfile@.len(),
                entries == self@,
                entries == entry_texts(self.listfile@),
                keep == (|e: (u32, Seq<char>)| path_matches(e.1, pattern@)),
                lower@ == lowercased(pattern@),
                results@.len() <= MAX_RESULTS,
                result_texts(results@) == entries.take(i as int).filter(keep),
            decreases self.listfile@.len() - i,
        {
            let path = self.listfile[i].1.as_str();
            let ghost before = result_texts(results@);
            let ghost shown = entries.take(i + 1);
            proof {
                reveal(Seq::filter);
                assert(shown.drop_last() =~= entries.take(i as int));
                assert(shown.last() == entries[i as int]);
            }
            keep_match(
                &mut results,
                self.listfile[i].0,
                path,
                lowercase(path).as_str(),
                lower.as_str(),
            );
            assert(result_texts(results@).len() == results@.len());
            assert(before.push((self.listfile@[i as int].0, path@)) == before.push(
                entries[i as int],
            ));
            i = i + 1;
        }
        proof {
            let rest = entries.skip(i as int);
            assert(entries =~= entries.take(i as int) + rest);
            Seq::filter_distributes_over_add(entries.take(i as int), rest, keep);
            if i == self.listfile@.len() {
                assert(entries.take(i as int) =~= entries);
            } else {
                let all = matching(entries, pattern@);
                assert(result_texts(results@).len() == results@.len());
                assert(all.take(MAX_RESULTS as int) =~= result_texts(results@));
                if all.len() <= MAX_RESULTS {
                    assert(all =~= result_texts(results@));
                }
            }
        }
        results
    }

    /// The key of the file at `path`: `in_root` tells whether the root file
    /// lists the path, `encoding_key` is what the encoding file lists for its
    /// content.
    pub fn resolve_path(&self, path: &str, in_root: bool, encoding_key: Option<Vec<u8>>) -> (res:
        Result<Vec<u8>, Error>)
        ensures
            match res {
                Ok(key) => in_root && encoding_key == Some(key),
                Err(Error::PathNotFound { path: missing }) => !in_root && missing@ == path@,
                Err(Error::PathContentKeyNotFound { path: missing }) => in_root && encoding_key
                    is None && missing@ == path@,
                Err(_) => false,
            },
            resolved_key(in_root, bytes_of(encoding_key)) == (match res {
                Ok(key) => Some(key@),
                Err(_) => None,
            }),
    {
        if !in_root {
            return Err(Error::PathNotFound { path: path.to_string() });
        }
        match encoding_key {
            Some(key) => Ok(key),
            None => Err(Error::PathContentKeyNotFound { path: path.to_string() }),
        }
    }

    /// The key of the file with the id `fdid`: `in_root` tells whether the root
    /// file lists the id, `encoding_key` is what the encoding file lists for
    /// its content.
    pub fn resolve_fdid(&self, fdid: u32, in_root: bool, encoding_key: Option<Vec<u8>>) -> (res:
        Result<Vec<u8>, Error>)
        ensures
            match res {
                Ok(key) => in_root && encoding_key == Some(key),
                Err(Error::FileDataIdNotFound { fdid: missing }) => !in_root && missing == fdid,
                Err(Error::FdidContentKeyNotFound { fdid: missing }) => in_root && encoding_key
                    is None && missing == fdid,
                Err(_) => false,
            },
            resolved_key(in_root, bytes_of(encoding_key)) == (match res {
                Ok(key) => Some(key@),
                Err(_) => None,
            }),
    {
        if !in_root {
            return Err(Error::FileDataIdNotFound { fdid });
        }
        match encoding_key {
            Some(key) => Ok(key),
            None => Err(Error::FdidContentKeyNotFound { fdid }),
        }
    }

    /// The path that the list of file names gives a file id.
    pub fn path_for_fdid(&self, fdid: u32) -> (path: Option<&str>)
        ensures
            text_of(path) == path_of(self@, fdid),
    {
        let ghost entries = self@;
        let mut i: usize = 0;
        assert(entries.skip(0) =~= entries);
        while i < self.listfile.len()
            invariant
                i <= self.listfile@.len(),
                entries == self@,
                entries == entry_texts(self.listfile@),
                path_of(entries, fdid) == path_of(entries.skip(i as int), fdid),
            decreases self.listfile@.len() - i,
        {
            if self.listfile[i].0 == fdid {
                return Some(self.listfile[i].1.as_str());
            }
            assert(entries.skip(i as int).drop_first() =~= entries.skip(i + 1));
            i = i + 1;
        }
        None
    }
}

/// The path of the list of file names, in the directory of all caches.
pub open spec fn listfile_path(home: Option<Seq<char>>) -> Seq<char> {
    joined(cache_root(home), "listfile.csv"@)
}

/// The path of the list of file names.
pub fn listfile_cache_path(home: Option<&str>) -> (path: String)
    ensures
        path@ == listfile_path(text_of(home)),
{
    join(default_cache_root(home).as_str(), "listfile.csv")
}

/// Where the list of file names is published.
pub const LISTFILE_URL: &'static str =
    "https://github.com/wowdev/wow-listfile/releases/latest/download/community-listfile.csv";

/// The arguments with which `curl` fetches the list of file names to `dest`.
pub fn curl_arguments(dest: &str) -> (args: Vec<String>)
    ensures
        args@.map_values(|a: String| a@) == seq!["-fsSL"@, "-o"@, dest@, LISTFILE_URL@],
{
    let mut args: Vec<String> = Vec::new();
    args.push("-fsSL".to_string());
    args.push("-o".to_string());
    args.push(dest.to_string());
    args.push(LISTFILE_URL.to_string());
    assert(args@.map_values(|a: String| a@) =~= seq!["-fsSL"@, "-o"@, dest@, LISTFILE_URL@]);
    args
}

/// Accepts the exit status of `curl`, or refuses it with its exit code, which
/// is -1 where it has none.
pub fn check_curl_exit(success: bool, code: Option<i32>) -> (res: Result<(), Error>)
    ensures
        match res {
            Ok(_) => success,
            Err(Error::CurlFailed { code: reported }) => !success && reported == match code {
                Some(c) => c,
                None => -1i32,
            },
            Err(_) => false,
        },
{
    if success {
        return Ok(());
    }
    let reported: i32 = match code {
        Some(c) => c,
        None => -1,
    };
    Err(Error::CurlFailed { code: reported })
}

/// What one more entry changes in the paths that a list gives.
proof fn lemma_path_of_push(entries: Seq<(u32, Seq<char>)>, entry: (u32, Seq<char>), fdid: u32)
    ensures
        path_of(entries.push(entry), fdid) == match path_of(entries, fdid) {
            Some(path) => Some(path),
            None => if entry.0 == fdid {
                Some(entry.1)
            } else {
                None
            },
        },
    decreases entries.len(),
{
    if entries.len() == 0 {
        reveal_with_fuel(path_of, 2);
        assert(entries.push(entry).drop_first() =~= Seq::<(u32, Seq<char>)>::empty());
    } else {
        assert(entries.push(entry).drop_first() =~= entries.drop_first().push(entry));
        lemma_path_of_push(entries.drop_first(), entry, fdid);
    }
}

/// A file id has the path that the first line gives it that lists it.
pub proof fn first_listing_gives_path(
    lines: Seq<Option<Seq<char>>>,
    first: int,
    fdid: u32,
    path: Seq<char>,
)
    requires
        0 <= first < lines.len(),
        lines[first] is Some,
        listed(lines[first]->0) == Some((fdid, path)),
        forall|i: int|
            0 <= i < first ==> !lists_id(#[trigger] lines[i], fdid),
    ensures
        path_of(listed_all(lines), fdid) == Some(path),
    decreases lines.len(),
{
    let before = lines.drop_last();
    if first == lines.len() - 1 {
        unlisted_id_has_no_path(before, fdid);
        lemma_path_of_push(listed_all(before), (fdid, path), fdid);
    } else {
        first_listing_gives_path(before, first, fdid, path);
        if let Some(line) = lines.last() {
            if let Some(entry) = listed(line) {
                lemma_path_of_push(listed_all(before), entry, fdid);
            }
        }
    }
}

/// Whether a line lists a file id.
pub open spec fn lists_id(line: Option<Seq<char>>, fdid: u32) -> bool {
    match line {
        Some(text) => match listed(text) {
            Some((id, _)) => id == fdid,
            None => false,
        },
        None => false,
    }
}

/// A file id that no line lists has no path.
pub proof fn unlisted_id_has_no_path(lines: Seq<Option<Seq<char>>>, fdid: u32)
    requires
        forall|i: int| 0 <= i < lines.len() ==> !lists_id(#[trigger] lines[i], fdid),
    ensures
        path_of(listed_all(lines), fdid) is None,
    decreases lines.len(),
{
    if lines.len() > 0 {
        let before = lines.drop_last();
        assert forall|i: int| 0 <= i < before.len() implies !lists_id(
            #[trigger] before[i],
            fdid,
        ) by {
            assert(before[i] == lines[i]);
        }
        unlisted_id_has_no_path(before, fdid);
        assert(!lists_id(lines[lines.len() - 1], fdid));
        if let Some(line) = lines.last() {
            if let Some(entry) = listed(line) {
                lemma_path_of_push(listed_all(before), entry, fdid);
            }
        }
    }
}

/// A search does not depend on the case in which the pattern is written.
pub proof fn search_ignores_case(
    entries: Seq<(u32, Seq<char>)>,
    pattern1: Seq<char>,
    pattern2: Seq<char>,
)
    requires
        lowercased(pattern1) == lowercased(pattern2),
    ensures
        search_result(entries, pattern1) == search_result(entries, pattern2),
{
    assert((|e: (u32, Seq<char>)| path_matches(e.1, pattern1)) =~= (|e: (u32, Seq<char>)|
        path_matches(e.1, pattern2)));
}

/// A search gives at most a hundred entries; each is one of the list and matches.
pub proof fn search_gives_matches(entries: Seq<(u32, Seq<char>)>, pattern: Seq<char>)
    ensures
        search_result(entries, pattern).len() <= MAX_RESULTS,
        forall|i: int|
            0 <= i < search_result(entries, pattern).len() ==> entries.contains(
                #[trigger] search_result(entries, pattern)[i],
            ) && path_matches(search_result(entries, pattern)[i].1, pattern),
{
    let keep = |e: (u32, Seq<char>)| path_matches(e.1, pattern);
    let all = matching(entries, pattern);
    broadcast use vstd::seq_lib::group_seq_properties;
    assert forall|i: int| 0 <= i < search_result(entries, pattern).len() implies entries.contains(
        #[trigger] search_result(entries, pattern)[i],
    ) && path_matches(search_result(entries, pattern)[i].1, pattern) by {
        assert(all[i] == search_result(entries, pattern)[i]);
        entries.lemma_filter_pred(keep, i);
        entries.lemma_filter_contains_rev(keep, all[i]);
    }
}

/// Lists of lines, of entries and of results show each of their items, in order.
pub proof fn lists_show_each(
    lines: Seq<Option<String>>,
    entries: Seq<(u32, String)>,
    results: Seq<(u32, &str)>,
)
    ensures
        line_texts(lines).len() == lines.len(),
        forall|i: int|
            0 <= i < lines.len() ==> (match lines[i] {
                Some(text) => #[trigger] line_texts(lines)[i] == Some(text@),
                None => line_texts(lines)[i] is None,
            }),
        entry_texts(entries).len() == entries.len(),
        forall|i: int|
            0 <= i < entries.len() ==> #[trigger] entry_texts(entries)[i] == (
                entries[i].0,
                entries[i].1@,
            ),
        result_texts(results).len() == results.len(),
        forall|i: int|
            0 <= i < results.len() ==> #[trigger] result_texts(results)[i] == (
                results[i].0,
                results[i].1@,
            ),
{
}

/// A text in lower case has `a` to `z` in place of `A` to `Z`, and is as it was
/// otherwise, where it is ASCII; other texts go by the rules of Unicode.
pub proof fn lower_case_changes_capitals_only(s: Seq<char>)
    ensures
        is_ascii_chars(s) ==> lowercased(s).len() == s.len() && forall|i: int|
            0 <= i < s.len() ==> (if 65 <= s[i] as u32 <= 90 {
                #[trigger] lowercased(s)[i] as u32 == s[i] as u32 + 32
            } else {
                lowercased(s)[i] == s[i]
            }),
        !is_ascii_chars(s) ==> lowercased(s) == unicode_lower(s),
{
}

/// Whether two ASCII characters are the same up to case.
pub open spec fn same_letter(x: char, y: char) -> bool {
    ||| x == y
    ||| 'A' <= x <= 'Z' && x as u32 + 32 == y as u32
    ||| 'A' <= y <= 'Z' && y as u32 + 32 == x as u32
}

proof fn lemma_same_letter(x: char, y: char)
    requires
        '\0' <= x <= '\u{7f}',
        '\0' <= y <= '\u{7f}',
    ensures
        same_letter(x, y) <==> ascii_lower(x) == ascii_lower(y),
{
}

/// A path matches a search wherever in it the pattern stands, at its start, at its
/// end or inside a name, each letter in whatever case.
pub proof fn pattern_is_found_anywhere(
    a: Seq<char>,
    m: Seq<char>,
    b: Seq<char>,
    pattern: Seq<char>,
)
    requires
        is_ascii_chars(a + m + b),
        is_ascii_chars(pattern),
        m.len() == pattern.len(),
        forall|i: int| 0 <= i < m.len() ==> same_letter(#[trigger] m[i], pattern[i]),
    ensures
        path_matches(a + m + b, pattern),
{
    let path = a + m + b;
    let low = lowercased(path);
    let low_pattern = lowercased(pattern);
    let at = a.len() as int;
    assert(low.subrange(at, at + low_pattern.len()) =~= low_pattern) by {
        assert forall|i: int| 0 <= i < pattern.len() implies low[at + i] == low_pattern[i] by {
            assert(path[at + i] == m[i]);
            assert('\0' <= path[at + i] <= '\u{7f}');
            assert('\0' <= pattern[i] <= '\u{7f}');
            lemma_same_letter(m[i], pattern[i]);
        }
    }
    assert(occurs_at(low, low_pattern, at));
}

/// A path that matches a search holds the pattern somewhere, up to case.
pub proof fn match_holds_the_pattern(path: Seq<char>, pattern: Seq<char>) -> (at: int)
    requires
        is_ascii_chars(path),
        is_ascii_chars(pattern),
        path_matches(path, pattern),
    ensures
        0 <= at <= path.len() - pattern.len(),
        forall|i: int| 0 <= i < pattern.len() ==> same_letter(path[at + i], #[trigger] pattern[i]),
{
    let low = lowercased(path);
    let low_pattern = lowercased(pattern);
    let at = choose|at: int| occurs_at(low, low_pattern, at);
    assert forall|i: int| 0 <= i < pattern.len() implies same_letter(
        path[at + i],
        #[trigger] pattern[i],
    ) by {
        assert(low.subrange(at, at + low_pattern.len())[i] == low_pattern[i]);
        assert('\0' <= path[at + i] <= '\u{7f}');
        assert('\0' <= pattern[i] <= '\u{7f}');
        lemma_same_letter(path[at + i], pattern[i]);
    }
    at
}

/// Beyond ASCII too, a path matches exactly if its lower-case form holds that of the
/// pattern somewhere.
pub proof fn match_goes_by_lower_case(
    path: Seq<char>,
    pattern: Seq<char>,
    a: Seq<char>,
    b: Seq<char>,
)
    ensures
        lowercased(path) == a + lowercased(pattern) + b ==> path_matches(path, pattern),
        path_matches(path, pattern) ==> exists|at: int|
            0 <= at <= lowercased(path).len() - lowercased(pattern).len() && lowercased(path)
                == #[trigger] lowercased(path).take(at) + lowercased(pattern) + lowercased(
                path,
            ).skip(at + lowercased(pattern).len()),
{
    crate::text::text_is_contained_anywhere(a, lowercased(pattern), b);
    if path_matches(path, pattern) {
        crate::text::contained_text_splits(lowercased(path), lowercased(pattern));
    }
}

/// A search in two lists, one behind the other, gives what the search in the first
/// gives and then what the search in the second gives, up to a hundred results. In
/// an empty list it gives nothing, and in a list of one entry that entry or nothing,
/// as its path matches.
#[verifier::spinoff_prover]
#[verifier::rlimit(60)]
pub proof fn search_goes_from_list_to_list(
    first: Seq<(u32, Seq<char>)>,
    second: Seq<(u32, Seq<char>)>,
    entry: (u32, Seq<char>),
    pattern: Seq<char>,
)
    ensures
        search_result(Seq::empty(), pattern) == Seq::<(u32, Seq<char>)>::empty(),
        search_result(seq![entry], pattern) == (if path_matches(entry.1, pattern) {
            seq![entry]
        } else {
            Seq::empty()
        }),
        ({
            let both = search_result(first, pattern) + search_result(second, pattern);
            search_result(first + second, pattern) == (if both.len() <= 100 {
                both
            } else {
                both.take(100)
            })
        }),
{
    let keep = |e: (u32, Seq<char>)| path_matches(e.1, pattern);
    reveal(Seq::filter);
    let none = Seq::<(u32, Seq<char>)>::empty();
    assert(none.filter(keep) =~= none);
    assert(seq![entry].drop_last() =~= none);
    assert(seq![entry].filter(keep) =~= if path_matches(entry.1, pattern) {
        seq![entry]
    } else {
        none
    });
    Seq::filter_distributes_over_add(first, second, keep);
    let all1 = matching(first, pattern);
    let all2 = matching(second, pattern);
    let all = matching(first + second, pattern);
    assert(all =~= all1 + all2);
    let both = search_result(first, pattern) + search_result(second, pattern);
    if both.len() <= 100 {
        assert(search_result(first + second, pattern) =~= both);
    } else {
        assert(search_result(first + second, pattern) =~= both.take(100));
    }
}

/// A search gives a hundred results at most.
pub proof fn search_stops_at_a_hundred(entries: Seq<(u32, Seq<char>)>, pattern: Seq<char>)
    ensures
        search_result(entries, pattern).len() <= 100,
        MAX_RESULTS == 100,
{
}

/// A search is complete: an entry in whose path the pattern stands anywhere, up to
/// case, is among the results, unless the entries before it give a hundred already.
#[verifier::spinoff_prover]
#[verifier::rlimit(60)]
pub proof fn search_finds_every_entry(
    before: Seq<(u32, Seq<char>)>,
    after: Seq<(u32, Seq<char>)>,
    fdid: u32,
    a: Seq<char>,
    m: Seq<char>,
    b: Seq<char>,
    pattern: Seq<char>,
)
    requires
        is_ascii_chars(a + m + b),
        is_ascii_chars(pattern),
        m.len() == pattern.len(),
        forall|i: int| 0 <= i < m.len() ==> same_letter(#[trigger] m[i], pattern[i]),
    ensures
        ({
            let found = search_result(before, pattern);
            let all = search_result(before.push((fdid, a + m + b)) + after, pattern);
            if found.len() < 100 {
                &&& all.len() > found.len()
                &&& all[found.len() as int] == (fdid, a + m + b)
                &&& all.take(found.len() as int) == found
            } else {
                all == found
            }
        }),
{
    let entry = (fdid, a + m + b);
    let found = search_result(before, pattern);
    pattern_is_found_anywhere(a, m, b, pattern);
    search_goes_from_list_to_list(before, seq![entry], entry, pattern);
    assert(before.push(entry) =~= before + seq![entry]);
    search_goes_from_list_to_list(before.push(entry), after, entry, pattern);
    let mid = search_result(before.push(entry), pattern);
    let all = search_result(before.push(entry) + after, pattern);
    if found.len() < 100 {
        assert(mid =~= found.push(entry));
        assert(all[found.len() as int] == mid[found.len() as int]);
        assert(all.take(found.len() as int) =~= found);
    } else {
        assert(mid =~= found);
        assert(all =~= found);
    }
}

/// An entry in whose path the pattern stands nowhere is not among the results.
pub proof fn search_passes_over_other_entries(
    before: Seq<(u32, Seq<char>)>,
    after: Seq<(u32, Seq<char>)>,
    entry: (u32, Seq<char>),
    pattern: Seq<char>,
)
    requires
        is_ascii_chars(entry.1),
        is_ascii_chars(pattern),
        forall|at: int|
            #![trigger entry.1.skip(at)]
            0 <= at <= entry.1.len() - pattern.len() ==> exists|i: int|
                0 <= i < pattern.len() && !same_letter(entry.1.skip(at)[i], #[trigger] pattern[i]),
    ensures
        search_result(before.push(entry) + after, pattern) == search_result(
            before + after,
            pattern,
        ),
{
    if path_matches(entry.1, pattern) {
        let at = match_holds_the_pattern(entry.1, pattern);
        let tail = entry.1.skip(at);
        let i = choose|i: int|
            0 <= i < pattern.len() && !same_letter(entry.1.skip(at)[i], #[trigger] pattern[i]);
        assert(tail[i] == entry.1[at + i]);
    }
    search_goes_from_list_to_list(before, seq![entry], entry, pattern);
    assert(before.push(entry) =~= before + seq![entry]);
    let found = search_result(before, pattern);
    assert(found + Seq::<(u32, Seq<char>)>::empty() =~= found);
    search_goes_from_list_to_list(before.push(entry), after, entry, pattern);
    search_goes_from_list_to_list(before, after, entry, pattern);
}

/// A line of the list of file names is cut at its first `;`: a file id stands before
/// it and a path behind it, each without the white space around it. A line without a
/// `;`, with no number before it or nothing behind it, lists nothing.
pub proof fn line_is_cut_at_first_semicolon(a: Seq<char>, b: Seq<char>)
    requires
        !a.contains(';'),
    ensures
        listed(a) is None,
        parsed_u32(trimmed(a)) is Err ==> listed(a + seq![';'] + b) is None,
        trimmed(b).len() == 0 ==> listed(a + seq![';'] + b) is None,
        parsed_u32(trimmed(a)) is Ok && trimmed(b).len() > 0 ==> listed(a + seq![';'] + b)
            == Some((parsed_u32(trimmed(a))->Ok_0, trimmed(b))),
{
    let line = a + seq![';'] + b;
    crate::text::first_position_is_the_first(a, ';');
    crate::text::first_position_is_the_first(line, ';');
    if let Some(at) = first_position(a, ';') {
        assert(a.contains(a[at]));
    }
    let at = a.len() as int;
    assert(line[at] == ';');
    match first_position(line, ';') {
        Some(found) => {
            if found < at {
                assert(line[found] == a[found]);
                assert(a.contains(a[found]));
            }
            assert(found == at);
            assert(line.take(at) =~= a);
            assert(line.skip(at + 1) =~= b);
        },
        None => {
            assert(line.contains(line[at]));
        },
    }
}

/// A line with the digits of a file id, a `;` and a path lists the path for the id,
/// whatever white space stands around either, and whatever the path holds inside.
#[verifier::spinoff_prover]
#[verifier::rlimit(60)]
pub proof fn id_and_path_are_listed(
    w1: Seq<char>,
    digits: Seq<char>,
    w2: Seq<char>,
    w3: Seq<char>,
    path: Seq<char>,
    w4: Seq<char>,
)
    requires
        forall|i: int| 0 <= i < w1.len() ==> is_white_space(#[trigger] w1[i]),
        forall|i: int| 0 <= i < w2.len() ==> is_white_space(#[trigger] w2[i]),
        forall|i: int| 0 <= i < w3.len() ==> is_white_space(#[trigger] w3[i]),
        forall|i: int| 0 <= i < w4.len() ==> is_white_space(#[trigger] w4[i]),
        digits.len() > 0,
        all_digits(digits),
        digits_value(digits) <= 0xffff_ffff,
        path.len() > 0,
        !is_white_space(path[0]),
        !is_white_space(path[path.len() - 1]),
    ensures
        listed(w1 + digits + w2 + seq![';'] + (w3 + path + w4)) == Some(
            (digits_value(digits) as u32, path),
        ),
{
    let a = w1 + digits + w2;
    let b = w3 + path + w4;
    assert(is_digit(digits[0]));
    assert(is_digit(digits[digits.len() - 1]));
    assert(!a.contains(';')) by {
        if a.contains(';') {
            let i = choose|i: int| 0 <= i < a.len() && a[i] == ';';
            if i < w1.len() {
                assert(is_white_space(w1[i]));
            } else if i < w1.len() + digits.len() {
                assert(is_digit(digits[i - w1.len()]));
            } else {
                assert(is_white_space(w2[i - w1.len() - digits.len()]));
            }
        }
    }
    crate::text::trim_takes_off_white_space(w1, digits, w2);
    crate::text::trim_takes_off_white_space(w3, path, w4);
    crate::text::digits_are_read(digits);
    line_is_cut_at_first_semicolon(a, b);
}

/// The lines of two lists, one behind the other, list what those of the first list
/// and then what those of the second do; a line that cannot be read lists nothing.
pub proof fn lines_are_listed_in_order(
    first: Seq<Option<Seq<char>>>,
    second: Seq<Option<Seq<char>>>,
    line: Seq<char>,
)
    ensures
        listed_all(first + second) == listed_all(first) + listed_all(second),
        listed_all(Seq::empty()) == Seq::<(u32, Seq<char>)>::empty(),
        listed_all(seq![None]) == Seq::<(u32, Seq<char>)>::empty(),
        listed_all(seq![Some(line)]) == (match listed(line) {
            Some(entry) => seq![entry],
            None => Seq::empty(),
        }),
    decreases second.len(),
{
    let none = Seq::<Option<Seq<char>>>::empty();
    reveal_with_fuel(listed_all, 2);
    assert(seq![None::<Seq<char>>].drop_last() =~= none);
    assert(seq![Some(line)].drop_last() =~= none);
    assert(listed_all(none) =~= Seq::<(u32, Seq<char>)>::empty());
    if let Some(entry) = listed(line) {
        assert(listed_all(seq![Some(line)]) =~= seq![entry]);
    }
    if second.len() == 0 {
        assert(first + second =~= first);
        assert(listed_all(first) + listed_all(second) =~= listed_all(first));
    } else {
        assert((first + second).drop_last() =~= first + second.drop_last());
        lines_are_listed_in_order(first, second.drop_last(), line);
        assert(listed_all(first + second) =~= listed_all(first) + listed_all(second));
    }
}

/// A file id has the path of the first entry for it, whatever follows; one without
/// an entry has none.
pub proof fn first_entry_gives_path(
    before: Seq<(u32, Seq<char>)>,
    fdid: u32,
    path: Seq<char>,
    after: Seq<(u32, Seq<char>)>,
)
    requires
        forall|i: int| 0 <= i < before.len() ==> (#[trigger] before[i]).0 != fdid,
    ensures
        path_of(before.push((fdid, path)) + after, fdid) == Some(path),
        path_of(before, fdid) is None,
    decreases before.len(),
{
    let whole = before.push((fdid, path)) + after;
    if before.len() > 0 {
        let rest = before.drop_first();
        assert forall|i: int| 0 <= i < rest.len() implies (#[trigger] rest[i]).0 != fdid by {
            assert(rest[i] == before[i + 1]);
        }
        assert(before[0].0 != fdid);
        assert(whole[0] == before[0]);
        assert(whole.drop_first() =~= rest.push((fdid, path)) + after);
        first_entry_gives_path(rest, fdid, path, after);
    } else {
        assert(whole[0] == (fdid, path));
    }
}

/// The list of file names is `listfile.csv` in the directory of all caches.
pub proof fn listfile_is_under_home(home: Seq<char>)
    ensures
        listfile_path(None) == "/tmp/.cache/casc-extract"@ + "/listfile.csv"@,
        home.len() > 0 && home[home.len() - 1] != '/' ==> listfile_path(Some(home)) == home
            + "/.cache/casc-extract"@ + "/listfile.csv"@,
{
    crate::cdn::caches_are_under_home(home);
    lemma_listfile_in("/tmp/.cache/casc-extract"@);
    lemma_listfile_in(home + "/.cache/casc-extract"@);
    assert("/tmp/.cache/casc-extract"@.len() > 0 && "/tmp/.cache/casc-extract"@.last() == 't') by {
        reveal_strlit("/tmp/.cache/casc-extract");
    }
    assert("/.cache/casc-extract"@.len() > 0 && (home + "/.cache/casc-extract"@).last()
        == 't') by {
        reveal_strlit("/.cache/casc-extract");
    }
}

proof fn lemma_listfile_in(dir: Seq<char>)
    ensures
        dir.len() > 0 && dir.last() != '/' ==> joined(dir, "listfile.csv"@) == dir
            + "/listfile.csv"@,
{
    reveal_strlit("listfile.csv");
    reveal_strlit("/listfile.csv");
    assert(dir.push('/') + "listfile.csv"@ =~= dir + "/listfile.csv"@);
}

/// A file has a key exactly if the root file lists it and the encoding file lists its
/// content; it is the whole key that the encoding file lists.
pub proof fn key_is_the_listed_one(key: Seq<u8>, listed: Option<Seq<u8>>)
    ensures
        resolved_key(true, Some(key)) == Some(key),
        resolved_key(true, None) is None,
        resolved_key(false, listed) is None,
{
}

} // verus!
