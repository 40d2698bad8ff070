//! Deciding how to share what is on the clipboard.
//!
//! A file-manager copy lands in the clipboard's text as `file://` URIs (KDE,
//! GNOME) or bare absolute paths; only when every line looks like one is the
//! clipboard treated as files, so a log excerpt containing one real path is
//! still shared as text. The reading of the clipboard, the checks against
//! the file system and the writing of the text file stay with the caller.

use vstd::prelude::*;
use crate::wire::append_bytes;
use crate::text::{
    chars_of, is_blank, is_white_space, is_white_space_char,
    lemma_split_on_step, literal, split_on, starts_with, string_from_chars, trim, trim_bounds,
};

verus! {

/// The most clipboard text, in UTF-8 bytes, that is shared.
pub const MAX_TEXT_BYTES: usize = 10 * 1024 * 1024;

/// What a paste resolved to: the file paths that were on the clipboard, or a
/// single generated .txt holding the clipboard text.
#[derive(Debug, Clone)]
pub struct ResolvedPaste {
    pub paths: Vec<String>,
    pub is_text: bool,
}

/// Why a paste cannot be shared.
#[derive(Debug, Clone, Copy, PartialEq, Eq, Structural)]
pub enum PasteError {
    /// The clipboard could not be read as text.
    NoText,
    /// The clipboard text is only white space.
    Empty,
    /// The clipboard text is over 10 MiB.
    TooLarge,
    /// The copied paths include a folder.
    Folders,
    /// The copied `file://` URIs name files that no longer exist.
    Stale,
}

impl PasteError {
    pub open spec fn spec_message(self) -> Seq<char> {
        match self {
            PasteError::NoText => "Clipboard is empty or has no text"@,
            PasteError::Empty => "Clipboard is empty"@,
            PasteError::TooLarge => "Clipboard text is too large to share"@,
            PasteError::Folders => "Folders can't be shared — copy files instead"@,
            PasteError::Stale => "Copied file(s) no longer exist"@,
        }
    }

    /// The message shown to the user.
    pub fn message(&self) -> (m: String)
        ensures
            m@ == self.spec_message(),
    {
        match self {
            PasteError::NoText => literal("Clipboard is empty or has no text"),
            PasteError::Empty => literal("Clipboard is empty"),
            PasteError::TooLarge => literal("Clipboard text is too large to share"),
            PasteError::Folders => literal("Folders can't be shared — copy files instead"),
            PasteError::Stale => literal("Copied file(s) no longer exist"),
        }
    }
}

/// The trimmed, non-empty pieces among `pieces`, in order.
pub open spec fn clean_lines(pieces: Seq<Seq<char>>) -> Seq<Seq<char>>
    decreases pieces.len(),
{
    if pieces.len() == 0 {
        Seq::empty()
    } else {
        let r = clean_lines(pieces.drop_last());
        let t = trim(pieces.last());
        if t.len() > 0 {
            r.push(t)
        } else {
            r
        }
    }
}

/// The length of a text in UTF-8 bytes, as `str::len` reports it.
pub open spec fn utf8_len(s: Seq<char>) -> usize {
    vstd::utf8::encode_utf8(s).len() as usize
}

/// The lines of a paste: each line of the text, trimmed, empty ones dropped.
pub open spec fn spec_paste_lines(text: Seq<char>) -> Seq<Seq<char>> {
    clean_lines(split_on(text, '\n'))
}

/// The text of each string.
pub open spec fn string_views(v: Seq<String>) -> Seq<Seq<char>> {
    v.map_values(|s: String| s@)
}

/// The lines of the clipboard text, or why it cannot be shared: a blank
/// text is `Empty`, a text of more than 10 MiB in UTF-8 is `TooLarge`.
pub fn paste_lines(text: &str) -> (r: Result<Vec<String>, PasteError>)
    ensures
        is_blank(text@) ==> r == Err::<Vec<String>, PasteError>(PasteError::Empty),
        !is_blank(text@) && utf8_len(text@) > MAX_TEXT_BYTES ==> r == Err::<
            Vec<String>,
            PasteError,
        >(PasteError::TooLarge),
        !is_blank(text@) && utf8_len(text@) <= MAX_TEXT_BYTES ==> (r matches Ok(
            lines,
        ) && string_views(lines@) == spec_paste_lines(text@)),
{
    let cs = chars_of(text);
    let mut k: usize = 0;
    while k < cs.len() && is_white_space_char(cs[k])
        invariant
            k <= cs@.len(),
            cs@ == text@,
            forall|i: int| 0 <= i < k ==> is_white_space(#[trigger] cs@[i]),
        decreases cs@.len() - k,
    {
        k = k + 1;
    }
    if k == cs.len() {
        return Err(PasteError::Empty);
    }
    assert(!is_white_space(text@[k as int]));
    if text.len() > MAX_TEXT_BYTES {
        return Err(PasteError::TooLarge);
    }
    Ok(split_clean_lines(&cs))
}

/// The trimmed, non-empty lines of `cs`.
fn split_clean_lines(cs: &Vec<char>) -> (lines: Vec<String>)
    ensures
        string_views(lines@) == clean_lines(split_on(cs@, '\n')),
{
    let ghost s = cs@;
    let mut lines: Vec<String> = Vec::new();
    let mut start: usize = 0;
    let mut i: usize = 0;
    assert(s.take(0) =~= Seq::<char>::empty());
    assert(split_on(s.take(0), '\n') == seq![Seq::<char>::empty()]);
    assert(seq![Seq::<char>::empty()].drop_last() =~= Seq::<Seq<char>>::empty());
    while i < cs.len()
        invariant
            start <= i <= s.len(),
            cs@ == s,
            split_on(s.take(i as int), '\n').len() >= 1,
            split_on(s.take(i as int), '\n').last() == s.subrange(start as int, i as int),
            string_views(lines@) == clean_lines(split_on(s.take(i as int), '\n').drop_last()),
        decreases s.len() - i,
    {
        proof {
            lemma_split_on_step(s, i as int, start as int, '\n');
        }
        if cs[i] == '\n' {
            let ghost p = split_on(s.take(i as int), '\n');
            let (a, b) = trim_bounds(cs, start, i);
            if a < b {
                lines.push(chars_between(cs, a, b));
            }
            proof {
                let q = p.push(Seq::<char>::empty());
                assert(q.drop_last() =~= p);
                assert(p =~= p.drop_last().push(p.last()));
                assert(string_views(lines@) =~= clean_lines(p));
            }
            start = i + 1;
        }
        i = i + 1;
        proof {
            if start == i {
                assert(s.subrange(start as int, i as int) =~= Seq::<char>::empty());
            }
        }
    }
    assert(s.take(s.len() as int) =~= s);
    let ghost p = split_on(s, '\n');
    let (a, b) = trim_bounds(cs, start, cs.len());
    if a < b {
        lines.push(chars_between(cs, a, b));
    }
    proof {
        assert(p =~= p.drop_last().push(p.last()));
        assert(string_views(lines@) =~= clean_lines(p));
    }
    lines
}

/// The string of `cs[a..b]`.
fn chars_between(cs: &Vec<char>, a: usize, b: usize) -> (s: String)
    requires
        a <= b <= cs@.len(),
    ensures
        s@ == cs@.subrange(a as int, b as int),
{
    let mut v: Vec<char> = Vec::new();
    let mut k: usize = a;
    while k < b
        invariant
            a <= k <= b <= cs@.len(),
            v@ == cs@.subrange(a as int, k as int),
        decreases b - k,
    {
        v.push(cs[k]);
        k = k + 1;
        assert(cs@.subrange(a as int, k as int) =~= cs@.subrange(a as int, k - 1).push(cs@[k - 1]));
    }
    string_from_chars(v)
}

/// The local path that a `file:` URI names, as the bytes of the path
/// (`url::Url::parse` followed by `url::Url::to_file_path`), or `None` when
/// the text is no URL or the URL has no local path.
pub uninterp spec fn file_uri_path(uri: Seq<char>) -> Option<Seq<u8>>;

/// Converts a URI to the local path it names with `url::Url::parse` and
/// `url::Url::to_file_path` (the intermediate URL is opaque, so both calls
/// stand here together); the path is handed back as its bytes
/// (`OsString::into_encoded_bytes`, the raw bytes on Unix). The contract
/// only names the result: it is a function of the text alone (for the
/// platform the library is built for), and how URLs are parsed and
/// percent-decoded is not restated here.
#[verifier::external_body]
fn file_uri_to_path(uri: &str) -> (r: Option<Vec<u8>>)
    ensures
        (match r {
            Some(b) => Some(b@),
            None => None,
        }) == file_uri_path(uri@),
{
    url::Url::parse(uri)
        .ok()
        .and_then(|u| u.to_file_path().ok())
        .map(|p| p.into_os_string().into_encoded_bytes())
}

/// The prefix of a file-manager URI.
pub open spec fn file_uri_prefix() -> Seq<char> {
    seq!['f', 'i', 'l', 'e', ':', '/', '/']
}

/// An absolute path: one that begins at the root `/`.
pub open spec fn is_absolute_path(s: Seq<char>) -> bool {
    s.len() > 0 && s[0] == '/'
}

/// Every line is a `file://` URI.
pub open spec fn all_file_uris(lines: Seq<Seq<char>>) -> bool {
    forall|i: int| 0 <= i < lines.len() ==> starts_with(#[trigger] lines[i], file_uri_prefix())
}

/// Every line is an absolute path.
pub open spec fn all_absolute(lines: Seq<Seq<char>>) -> bool {
    forall|i: int| 0 <= i < lines.len() ==> is_absolute_path(#[trigger] lines[i])
}

/// How the lines of a paste may name files; a path is given by its bytes.
#[derive(Debug)]
pub enum PasteCandidates {
    /// Every line is a `file://` URI; the local paths when every URI has one.
    Uris(Option<Vec<Vec<u8>>>),
    /// Every line is an absolute path (and not every line a URI).
    Paths(Vec<Vec<u8>>),
    /// The lines are text.
    Text,
}

fn begins_with_file_uri(line: &String) -> (b: bool)
    ensures
        b == starts_with(line@, file_uri_prefix()),
{
    let cs = chars_of(line.as_str());
    if cs.len() < 7 {
        return false;
    }
    let r = cs[0] == 'f' && cs[1] == 'i' && cs[2] == 'l' && cs[3] == 'e' && cs[4] == ':' && cs[5]
        == '/' && cs[6] == '/';
    assert(r == (cs@.take(7) =~= file_uri_prefix()));
    r
}

fn begins_at_root(line: &String) -> (b: bool)
    ensures
        b == is_absolute_path(line@),
{
    let cs = chars_of(line.as_str());
    cs.len() > 0 && cs[0] == '/'
}

/// The bytes of each path.
pub open spec fn path_bytes(v: Seq<Vec<u8>>) -> Seq<Seq<u8>> {
    v.map_values(|p: Vec<u8>| p@)
}

/// Some line names no local path.
pub open spec fn some_uri_without_path(lines: Seq<Seq<char>>) -> bool {
    exists|i: int| 0 <= i < lines.len() && (#[trigger] file_uri_path(lines[i])) is None
}

/// How the lines of a paste name files: all `file://` URIs (each converted
/// to the local path it names; `None` when one names none), all absolute
/// paths (their UTF-8 bytes), or text.
pub fn paste_candidates(lines: &Vec<String>) -> (c: PasteCandidates)
    ensures
        (c is Uris) == all_file_uris(string_views(lines@)),
        (c matches PasteCandidates::Uris(None)) == (all_file_uris(string_views(lines@))
            && some_uri_without_path(string_views(lines@))),
        c matches PasteCandidates::Uris(Some(p)) ==> p@.len() == lines@.len() && forall|i: int|
            0 <= i < p@.len() ==> Some(#[trigger] p@[i]@) == file_uri_path(lines@[i]@),
        (c is Paths) == (!all_file_uris(string_views(lines@)) && all_absolute(string_views(lines@))),
        c matches PasteCandidates::Paths(p) ==> p@.len() == lines@.len() && forall|i: int|
            0 <= i < p@.len() ==> #[trigger] p@[i]@ == vstd::utf8::encode_utf8(lines@[i]@),
{
    let ghost ls = string_views(lines@);
    let mut i: usize = 0;
    while i < lines.len() && begins_with_file_uri(&lines[i])
        invariant
            i <= lines@.len(),
            ls == string_views(lines@),
            forall|k: int| 0 <= k < i ==> starts_with(#[trigger] ls[k], file_uri_prefix()),
        decreases lines@.len() - i,
    {
        i = i + 1;
    }
    if i == lines.len() {
        assert(all_file_uris(ls));
        let mut paths: Vec<Vec<u8>> = Vec::new();
        let mut j: usize = 0;
        while j < lines.len()
            invariant
                j <= lines@.len(),
                paths@.len() == j,
                ls == string_views(lines@),
                all_file_uris(ls),
                forall|k: int| 0 <= k < j ==> Some(#[trigger] paths@[k]@) == file_uri_path(ls[k]),
            decreases lines@.len() - j,
        {
            assert(ls[j as int] == lines@[j as int]@);
            match file_uri_to_path(lines[j].as_str()) {
                Some(p) => paths.push(p),
                None => {
                    assert(file_uri_path(ls[j as int]) is None);
                    return PasteCandidates::Uris(None);
                },
            }
            j = j + 1;
        }
        assert(!some_uri_without_path(ls)) by {
            assert forall|k: int| 0 <= k < ls.len() implies !(#[trigger] file_uri_path(ls[k]) is None) by {
                assert(Some(paths@[k]@) == file_uri_path(ls[k]));
            }
        }
        assert forall|k: int| 0 <= k < paths@.len() implies Some(#[trigger] paths@[k]@) == file_uri_path(lines@[k]@) by {
            assert(ls[k] == lines@[k]@);
        }
        return PasteCandidates::Uris(Some(paths));
    }
    assert(!starts_with(ls[i as int], file_uri_prefix()));
    let mut k: usize = 0;
    while k < lines.len() && begins_at_root(&lines[k])
        invariant
            k <= lines@.len(),
            ls == string_views(lines@),
            forall|m: int| 0 <= m < k ==> is_absolute_path(#[trigger] ls[m]),
        decreases lines@.len() - k,
    {
        k = k + 1;
    }
    if k < lines.len() {
        assert(!is_absolute_path(ls[k as int]));
        return PasteCandidates::Text;
    }
    let mut paths: Vec<Vec<u8>> = Vec::new();
    let mut j: usize = 0;
    while j < lines.len()
        invariant
            j <= lines@.len(),
            paths@.len() == j,
            forall|m: int|
                0 <= m < j ==> #[trigger] paths@[m]@ == vstd::utf8::encode_utf8(lines@[m]@),
        decreases lines@.len() - j,
    {
        let mut b: Vec<u8> = Vec::new();
        append_bytes(&mut b, lines[j].as_str().as_bytes());
        paths.push(b);
        j = j + 1;
    }
    PasteCandidates::Paths(paths)
}

/// What to do with a paste once the file system has been asked about the
/// candidate paths.
#[derive(Debug)]
pub enum PasteDecision {
    /// Share these files (by the bytes of their paths).
    Files(Vec<Vec<u8>>),
    /// Share the clipboard text as a generated .txt file.
    Text,
    /// Refuse the paste.
    Fail(PasteError),
}

/// Every flag holds.
pub open spec fn all_true(v: Seq<bool>) -> bool {
    forall|i: int| 0 <= i < v.len() ==> #[trigger] v[i]
}

/// Some flag holds.
pub open spec fn any_true(v: Seq<bool>) -> bool {
    exists|i: int| 0 <= i < v.len() && #[trigger] v[i]
}

/// The candidate paths, if the lines name any.
pub open spec fn candidate_paths(c: PasteCandidates) -> Option<Vec<Vec<u8>>> {
    match c {
        PasteCandidates::Uris(p) => p,
        PasteCandidates::Paths(p) => Some(p),
        PasteCandidates::Text => None,
    }
}

/// The decision for candidates `c` and what the file system says of them.
pub open spec fn spec_decide_paste(c: PasteCandidates, exists: Seq<bool>, is_dir: Seq<bool>) -> PasteDecision {
    match candidate_paths(c) {
        Some(p) => if all_true(exists) {
            if any_true(is_dir) {
                PasteDecision::Fail(PasteError::Folders)
            } else {
                PasteDecision::Files(p)
            }
        } else if c is Uris {
            PasteDecision::Fail(PasteError::Stale)
        } else {
            PasteDecision::Text
        },
        None => PasteDecision::Text,
    }
}

fn all_set(v: &Vec<bool>) -> (b: bool)
    ensures
        b == all_true(v@),
{
    let mut i: usize = 0;
    while i < v.len()
        invariant
            i <= v@.len(),
            forall|k: int| 0 <= k < i ==> #[trigger] v@[k],
        decreases v@.len() - i,
    {
        if !v[i] {
            return false;
        }
        i = i + 1;
    }
    true
}

fn any_set(v: &Vec<bool>) -> (b: bool)
    ensures
        b == any_true(v@),
{
    let mut i: usize = 0;
    while i < v.len()
        invariant
            i <= v@.len(),
            forall|k: int| 0 <= k < i ==> !#[trigger] v@[k],
        decreases v@.len() - i,
    {
        if v[i] {
            return true;
        }
        i = i + 1;
    }
    false
}

/// Decides a paste: candidate paths that all exist are shared as files,
/// unless one is a folder; `file://` URIs that do not all exist are a stale
/// copy; anything else is shared as text. `exists[i]` and `is_dir[i]` are
/// what the file system says of the i-th candidate path.
pub fn decide_paste(c: PasteCandidates, exists: &Vec<bool>, is_dir: &Vec<bool>) -> (d: PasteDecision)
    requires
        candidate_paths(c) matches Some(p) ==> exists@.len() == p@.len() && is_dir@.len()
            == p@.len(),
    ensures
        d == spec_decide_paste(c, exists@, is_dir@),
{
    let all_uris = match &c {
        PasteCandidates::Uris(_) => true,
        _ => false,
    };
    let paths = match c {
        PasteCandidates::Uris(Some(p)) => p,
        PasteCandidates::Paths(p) => p,
        _ => return PasteDecision::Text,
    };
    if all_set(exists) {
        if any_set(is_dir) {
            return PasteDecision::Fail(PasteError::Folders);
        }
        return PasteDecision::Files(paths);
    }
    if all_uris {
        return PasteDecision::Fail(PasteError::Stale);
    }
    PasteDecision::Text
}

/// Only when every line is a `file://` URI, or every line an absolute
/// path, can a paste be shared as files: lines of which one is neither (a
/// log excerpt that mentions one real path, say) are shared as text, whatever
/// the file system says.
pub proof fn lemma_mixed_lines_are_text(
    lines: Seq<Seq<char>>,
    c: PasteCandidates,
    exists: Seq<bool>,
    is_dir: Seq<bool>,
)
    requires
        (c is Uris) == all_file_uris(lines),
        (c is Paths) == (!all_file_uris(lines) && all_absolute(lines)),
        exists|i: int, j: int|
            0 <= i < lines.len() && 0 <= j < lines.len() && !starts_with(
                #[trigger] lines[i],
                file_uri_prefix(),
            ) && !is_absolute_path(#[trigger] lines[j]),
    ensures
        spec_decide_paste(c, exists, is_dir) == PasteDecision::Text,
{
}

/// Bare absolute paths that do not all exist are probably prose: they are
/// shared as text, never refused. A paste is refused as stale only when
/// every line is a `file://` URI; files are shared only when every candidate
/// exists and none is a folder, and then exactly the candidates.
pub proof fn lemma_paste_outcomes(c: PasteCandidates, exists: Seq<bool>, is_dir: Seq<bool>)
    ensures
        (c is Paths && !all_true(exists)) ==> spec_decide_paste(c, exists, is_dir)
            == PasteDecision::Text,
        spec_decide_paste(c, exists, is_dir) == PasteDecision::Fail(PasteError::Stale) ==> (c
            is Uris && !all_true(exists)),
        spec_decide_paste(c, exists, is_dir) == PasteDecision::Fail(PasteError::Folders) ==> (
        all_true(exists) && any_true(is_dir)),
        spec_decide_paste(c, exists, is_dir) matches PasteDecision::Files(p) ==> (candidate_paths(c)
            == Some(p) && all_true(exists) && !any_true(is_dir)),
        (c matches PasteCandidates::Uris(Some(_)) && !all_true(exists)) ==> spec_decide_paste(
            c,
            exists,
            is_dir,
        ) == PasteDecision::Fail(PasteError::Stale),
{
}

} // verus!
