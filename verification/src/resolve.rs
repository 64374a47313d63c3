//! Path sanitization: from a request target to a file inside the document root.
use crate::paths;
use crate::percent;
use crate::status::StatusCode;
use crate::text;
use vstd::prelude::*;
use vstd::string::*;
use vstd::utf8::*;

verus! {

/// What is known of something that was asked of the file system.
pub enum Answer<T> {
    /// It was not asked yet.
    Unasked,
    /// It was asked, and the file system reported an error.
    Failed,
    /// It was asked, and this came back.
    Got(T),
}

impl<T: View> View for Answer<T> {
    type V = Answer<T::V>;

    open spec fn view(&self) -> Answer<T::V> {
        match *self {
            Answer::Unasked => Answer::Unasked,
            Answer::Failed => Answer::Failed,
            Answer::Got(t) => Answer::Got(t@),
        }
    }
}

/// Result of a successful, jailing path resolution.
pub struct SafePath {
    /// Absolute, canonical path that is guaranteed to be under the root.
    pub absolute: Vec<u8>,
    /// Relative path (for logging only).
    pub relative: String,
}

/// What to do next to resolve a request target.
pub enum ResolveStep {
    /// Find the canonical form of this path.
    Canonicalize(Vec<u8>),
    /// Find out whether this path is a regular file.
    Inspect(Vec<u8>),
    /// The target is this file.
    Found(SafePath),
    /// The target is answered with this error.
    Refused(StatusCode),
}

/// What a `ResolveStep` stands for.
pub enum Resolving {
    Canonicalize(Seq<u8>),
    Inspect(Seq<u8>),
    Found { absolute: Seq<u8>, relative: Seq<char> },
    Refused(StatusCode),
}

impl View for ResolveStep {
    type V = Resolving;

    open spec fn view(&self) -> Resolving {
        match *self {
            ResolveStep::Canonicalize(path) => Resolving::Canonicalize(path@),
            ResolveStep::Inspect(path) => Resolving::Inspect(path@),
            ResolveStep::Found(safe) => Resolving::Found {
                absolute: safe.absolute@,
                relative: safe.relative@,
            },
            ResolveStep::Refused(status) => Resolving::Refused(status),
        }
    }
}

/// The text before the first `?` or `#`.
pub open spec fn before_query(s: Seq<char>) -> Seq<char>
    decreases s.len(),
{
    if s.len() == 0 || s[0] == '?' || s[0] == '#' {
        Seq::empty()
    } else {
        seq![s[0]] + before_query(s.skip(1))
    }
}

/// A text without the slashes at its start.
pub open spec fn without_leading_slashes(s: Seq<char>) -> Seq<char>
    decreases s.len(),
{
    if s.len() > 0 && s[0] == '/' {
        without_leading_slashes(s.skip(1))
    } else {
        s
    }
}

/// The path under the document root that a decoded target names.
pub open spec fn target_path(decoded: Seq<char>) -> Seq<char> {
    let path = before_query(decoded);
    if path.len() == 0 || path == "/"@ {
        "index.html"@
    } else {
        without_leading_slashes(path)
    }
}

/// Whether a path is made of ordinary names alone: no `..`, no leading `.`, no leading `/`.
pub open spec fn names_only(path: Seq<u8>) -> bool {
    forall|i: int|
        0 <= i < paths::path_parts(path).len() ==> (#[trigger] paths::path_parts(path)[i])
            is Normal
}

/// The relative path that a request target names, or the error that answers it.
pub open spec fn relative_path(raw: Seq<char>) -> Result<Seq<char>, StatusCode> {
    if raw.contains('\0') {
        Err(StatusCode::BadRequest)
    } else {
        match percent::percent_decoded(raw) {
            None => Err(StatusCode::BadRequest),
            Some(decoded) => if decoded.contains('\0') {
                Err(StatusCode::BadRequest)
            } else if !names_only(encode_utf8(target_path(decoded))) {
                Err(StatusCode::Forbidden)
            } else {
                Ok(target_path(decoded))
            },
        }
    }
}

/// The next step of resolving a target against a root, given what the file system has said of
/// the canonical path and of whether that is a regular file.
pub open spec fn resolving(
    root: Seq<u8>,
    raw: Seq<char>,
    canonical: Answer<Seq<u8>>,
    regular: Answer<bool>,
) -> Resolving {
    match relative_path(raw) {
        Err(status) => Resolving::Refused(status),
        Ok(relative) => match canonical {
            Answer::Unasked => Resolving::Canonicalize(
                paths::joined(root, encode_utf8(relative)),
            ),
            // It does not exist, or may not be looked at.
            Answer::Failed => Resolving::Refused(StatusCode::NotFound),
            Answer::Got(absolute) => if !paths::is_under(absolute, root) {
                Resolving::Refused(StatusCode::Forbidden)
            } else {
                match regular {
                    Answer::Unasked => Resolving::Inspect(absolute),
                    Answer::Got(true) => if paths::kind_of(absolute) is Some {
                        Resolving::Found { absolute, relative }
                    } else {
                        Resolving::Refused(StatusCode::NotFound)
                    },
                    _ => Resolving::Refused(StatusCode::NotFound),
                }
            },
        },
    }
}

proof fn lemma_before_query(s: Seq<char>, n: int)
    requires
        0 <= n <= s.len(),
        forall|i: int| 0 <= i < n ==> s[i] != '?' && s[i] != '#',
        n < s.len() ==> s[n] == '?' || s[n] == '#',
    ensures
        before_query(s) == s.take(n),
    decreases s.len(),
{
    if n > 0 {
        lemma_before_query(s.skip(1), n - 1);
        assert(seq![s[0]] + s.skip(1).take(n - 1) =~= s.take(n));
    } else {
        assert(s.take(0) =~= Seq::<char>::empty());
    }
}

proof fn lemma_without_leading_slashes(s: Seq<char>, n: int)
    requires
        0 <= n <= s.len(),
        forall|i: int| 0 <= i < n ==> s[i] == '/',
        n < s.len() ==> s[n] != '/',
    ensures
        without_leading_slashes(s) == s.skip(n),
    decreases s.len(),
{
    if n > 0 {
        lemma_without_leading_slashes(s.skip(1), n - 1);
        assert(s.skip(1).skip(n - 1) =~= s.skip(n));
    } else {
        assert(s.skip(0) =~= s);
    }
}

/// The path under the document root that a decoded target names.
fn target(decoded: &str) -> (r: String)
    ensures
        r@ == target_path(decoded@),
{
    let chars = text::chars_of(decoded);
    // The query string and the fragment play no part in static serving.
    let mut end: usize = 0;
    while end < chars.len() && chars[end] != '?' && chars[end] != '#'
        invariant
            end <= chars@.len(),
            chars@ == decoded@,
            forall|i: int| 0 <= i < end ==> decoded@[i] != '?' && decoded@[i] != '#',
        ensures
            end <= chars@.len(),
            forall|i: int| 0 <= i < end ==> decoded@[i] != '?' && decoded@[i] != '#',
            end < chars@.len() ==> decoded@[end as int] == '?' || decoded@[end as int] == '#',
        decreases chars@.len() - end,
    {
        end += 1;
    }
    let ghost path = decoded@.take(end as int);
    proof {
        lemma_before_query(decoded@, end as int);
        reveal_strlit("/");
    }
    if end == 0 || (end == 1 && chars[0] == '/') {
        assert(end == 1 ==> path =~= "/"@);
        return text::copy_text("index.html");
    }
    assert(path != "/"@) by {
        if path == "/"@ {
            assert(path.len() == 1 && path[0] == '/');
            assert(decoded@[0] == path[0]);
        }
    }
    let mut start: usize = 0;
    while start < end && chars[start] == '/'
        invariant
            start <= end <= chars@.len(),
            chars@ == decoded@,
            forall|i: int| 0 <= i < start ==> decoded@[i] == '/',
        ensures
            start <= end,
            forall|i: int| 0 <= i < start ==> decoded@[i] == '/',
            start < end ==> decoded@[start as int] != '/',
        decreases end - start,
    {
        start += 1;
    }
    proof {
        lemma_without_leading_slashes(path, start as int);
        assert(path.skip(start as int) =~= decoded@.subrange(start as int, end as int));
    }
    text::copy_text(decoded.substring_char(start, end))
}

/// Whether a path is made of ordinary names alone.
fn has_names_only(path: &[u8]) -> (r: bool)
    ensures
        r == names_only(path@),
{
    let all = paths::components(path);
    let ghost expected = paths::path_parts(path@);
    assert(expected.len() == all@.len());
    let mut i: usize = 0;
    while i < all.len()
        invariant
            i <= all@.len(),
            paths::parts(all@) == expected,
            expected == paths::path_parts(path@),
            forall|j: int| 0 <= j < i ==> (#[trigger] expected[j]) is Normal,
        decreases all@.len() - i,
    {
        assert(expected[i as int] == all@[i as int]@);
        match &all[i] {
            paths::Component::Normal(_) => {},
            _ => {
                assert(!(paths::path_parts(path@)[i as int] is Normal));
                return false;
            },
        }
        i += 1;
    }
    true
}

/// The relative path that a request target names, or the error that answers it.
pub fn sanitize(raw: &str) -> (r: Result<String, StatusCode>)
    ensures
        r is Ok <==> relative_path(raw@) is Ok,
        r is Ok ==> r->Ok_0@ == relative_path(raw@)->Ok_0,
        r is Err ==> r->Err_0 == relative_path(raw@)->Err_0,
{
    if text::has_nul(raw) {
        return Err(StatusCode::BadRequest);
    }
    let decoded = match percent::percent_decode(raw) {
        Ok(s) => s,
        Err(_) => return Err(StatusCode::BadRequest),
    };
    // A NUL may have hidden behind `%00`.
    if text::has_nul(decoded.as_str()) {
        return Err(StatusCode::BadRequest);
    }
    let relative = target(decoded.as_str());
    if !has_names_only(relative.as_str().as_bytes()) {
        return Err(StatusCode::Forbidden);
    }
    Ok(relative)
}

/// Resolves a request target against the document root with full canonicalization and jail
/// enforcement, one question to the file system at a time.
///
/// 1. NUL characters are rejected, encoded or raw.
/// 2. Malformed escapes, and escapes that do not decode to UTF-8, are rejected.
/// 3. Every component must be an ordinary name; the candidate under `root` is canonicalized.
/// 4. The canonical path must still lead through `root`.
/// 5. Anything but a regular file is not found: there are no directory listings.
/// 6. Only the extensions `.html` and `.css` are allowed, in either case.
pub fn resolve_safe_path(
    root: &[u8],
    raw: &str,
    canonical: &Answer<Vec<u8>>,
    regular: &Answer<bool>,
) -> (r: ResolveStep)
    ensures
        r@ == resolving(root@, raw@, canonical@, regular@),
        match r {
            ResolveStep::Canonicalize(path) => r@ == Resolving::Canonicalize(path@),
            ResolveStep::Inspect(path) => r@ == Resolving::Inspect(path@),
            ResolveStep::Found(safe) => r@ == (Resolving::Found {
                absolute: safe.absolute@,
                relative: safe.relative@,
            }),
            ResolveStep::Refused(status) => r@ == Resolving::Refused(status),
        },
{
    let relative = match sanitize(raw) {
        Ok(relative) => relative,
        Err(status) => return ResolveStep::Refused(status),
    };
    let absolute = match canonical {
        Answer::Unasked => {
            return ResolveStep::Canonicalize(paths::join(root, relative.as_str().as_bytes()));
        },
        Answer::Failed => return ResolveStep::Refused(StatusCode::NotFound),
        Answer::Got(absolute) => absolute,
    };
    if !paths::starts_with(absolute, root) {
        return ResolveStep::Refused(StatusCode::Forbidden);
    }
    match regular {
        Answer::Unasked => ResolveStep::Inspect(text::copy_bytes(absolute)),
        Answer::Failed => ResolveStep::Refused(StatusCode::NotFound),
        Answer::Got(is_file) => {
            if !*is_file || paths::file_kind(absolute).is_none() {
                return ResolveStep::Refused(StatusCode::NotFound);
            }
            ResolveStep::Found(SafePath { absolute: text::copy_bytes(absolute), relative })
        },
    }
}

/// Whatever the file system answers, a file that is found lies under the root, is a regular
/// file, and has one of the two extensions that are served.
pub proof fn found_files_are_jailed(
    root: Seq<u8>,
    raw: Seq<char>,
    canonical: Answer<Seq<u8>>,
    regular: Answer<bool>,
)
    ensures
        resolving(root, raw, canonical, regular) is Found ==> {
            let absolute = resolving(root, raw, canonical, regular)->absolute;
            &&& canonical == Answer::Got(absolute)
            &&& regular == Answer::Got(true)
            &&& paths::is_under(absolute, root)
            &&& paths::kind_of(absolute) is Some
            &&& paths::mime_of(absolute) == "text/html; charset=utf-8"@ || paths::mime_of(absolute)
                == "text/css; charset=utf-8"@
        },
{
}

/// A path that the file system is asked to canonicalize leads through the root before any
/// symbolic link is followed, and no `..` follows.
pub proof fn candidates_stay_under_the_root(
    root: Seq<u8>,
    raw: Seq<char>,
    canonical: Answer<Seq<u8>>,
    regular: Answer<bool>,
)
    requires
        root.len() > 0,
        root[0] == 0x2f,
    ensures
        resolving(root, raw, canonical, regular) is Canonicalize ==> {
            let candidate = resolving(root, raw, canonical, regular)->Canonicalize_0;
            let base = paths::path_parts(root).len() as int;
            &&& paths::is_under(candidate, root)
            &&& forall|i: int|
                base <= i < paths::path_parts(candidate).len() ==> (
                #[trigger] paths::path_parts(candidate)[i]) is Normal
        },
{
    if resolving(root, raw, canonical, regular) is Canonicalize {
        let relative = encode_utf8(relative_path(raw)->Ok_0);
        let candidate = paths::joined(root, relative);
        paths::joined_parts(root, relative);
        let all = paths::path_parts(candidate);
        let base = paths::path_parts(root);
        assert(all.subrange(0, base.len() as int) =~= base);
        assert(paths::leading_part(relative).len() == 0) by {
            if paths::leading_part(relative).len() > 0 {
                assert(paths::path_parts(relative)[0] == paths::leading_part(relative)[0]);
            }
        }
        assert(paths::path_parts(relative) =~= paths::named_parts(relative));
        assert forall|i: int| base.len() <= i < all.len() implies (#[trigger] all[i])
            is Normal by {
            assert(all[i] == paths::path_parts(relative)[i - base.len()]);
        }
    }
}

/// A target that names a `..`, or starts with a `.` that stands alone, is never looked up: it is
/// forbidden, unless a NUL makes it malformed.
pub proof fn climbing_is_refused(raw: Seq<char>, decoded: Seq<char>, i: int)
    requires
        percent::percent_decoded(raw) == Some(decoded),
        0 <= i < paths::path_parts(encode_utf8(target_path(decoded))).len(),
        !(paths::path_parts(encode_utf8(target_path(decoded)))[i] is Normal),
    ensures
        relative_path(raw) == Err::<Seq<char>, StatusCode>(
            if raw.contains('\0') || decoded.contains('\0') {
                StatusCode::BadRequest
            } else {
                StatusCode::Forbidden
            },
        ),
{
}

/// Directories are never listed: what is not a regular file is not found.
pub proof fn directories_are_not_found(root: Seq<u8>, raw: Seq<char>, absolute: Seq<u8>)
    requires
        relative_path(raw) is Ok,
        paths::is_under(absolute, root),
    ensures
        resolving(root, raw, Answer::Got(absolute), Answer::Got(false)) == Resolving::Refused(
            StatusCode::NotFound,
        ),
{
}

/// A file with an extension other than the two that are served is not found.
pub proof fn other_extensions_are_not_found(
    root: Seq<u8>,
    raw: Seq<char>,
    absolute: Seq<u8>,
    is_file: bool,
)
    requires
        relative_path(raw) is Ok,
        paths::is_under(absolute, root),
        paths::kind_of(absolute) is None,
    ensures
        resolving(root, raw, Answer::Got(absolute), Answer::Got(is_file)) == Resolving::Refused(
            StatusCode::NotFound,
        ),
{
}

/// A target whose canonical path does not lead through the root, as when a symbolic link leads
/// out of it, is forbidden, whatever else it is.
pub proof fn escapes_are_forbidden(
    root: Seq<u8>,
    raw: Seq<char>,
    absolute: Seq<u8>,
    regular: Answer<bool>,
)
    requires
        relative_path(raw) is Ok,
        !paths::is_under(absolute, root),
    ensures
        resolving(root, raw, Answer::Got(absolute), regular) == Resolving::Refused(
            StatusCode::Forbidden,
        ),
{
}

/// A target that cannot be decoded is a bad request, and the file system is never asked.
pub proof fn malformed_targets_are_bad_requests(
    root: Seq<u8>,
    raw: Seq<char>,
    canonical: Answer<Seq<u8>>,
    regular: Answer<bool>,
)
    requires
        percent::percent_decoded(raw) is None,
    ensures
        resolving(root, raw, canonical, regular) == Resolving::Refused(StatusCode::BadRequest),
{
}

/// What follows a `?` or a `#` plays no part in which file is meant.
pub proof fn queries_are_ignored(path: Seq<char>, mark: char, query: Seq<char>)
    requires
        mark == '?' || mark == '#',
    ensures
        target_path(path + seq![mark] + query) == target_path(path),
{
    lemma_query(path, mark, query);
}

proof fn lemma_query(path: Seq<char>, mark: char, query: Seq<char>)
    requires
        mark == '?' || mark == '#',
    ensures
        before_query(path + seq![mark] + query) == before_query(path),
    decreases path.len(),
{
    let whole = path + seq![mark] + query;
    if path.len() > 0 {
        assert(whole[0] == path[0]);
        assert(whole.skip(1) =~= path.skip(1) + seq![mark] + query);
        lemma_query(path.skip(1), mark, query);
    } else {
        assert(whole[0] == mark);
    }
}

/// A NUL, raw or escaped, is a bad request, whatever else the target holds.
pub proof fn nul_is_refused(
    root: Seq<u8>,
    raw: Seq<char>,
    canonical: Answer<Seq<u8>>,
    regular: Answer<bool>,
)
    requires
        raw.contains('\0') || (percent::percent_decoded(raw) is Some
            && percent::percent_decoded(raw)->Some_0.contains('\0')),
    ensures
        resolving(root, raw, canonical, regular) == Resolving::Refused(StatusCode::BadRequest),
{
}

/// Pieces of text with a slash between each two of them.
pub open spec fn with_slashes(pieces: Seq<Seq<char>>) -> Seq<char>
    decreases pieces.len(),
{
    if pieces.len() == 0 {
        Seq::empty()
    } else if pieces.len() == 1 {
        pieces[0]
    } else {
        pieces[0] + seq!['/'] + with_slashes(pieces.skip(1))
    }
}

/// So many slashes.
pub open spec fn slashes(count: nat) -> Seq<char> {
    Seq::new(count, |i: int| '/')
}

/// Whether a text can stand between two slashes of a path.
pub open spec fn is_piece(piece: Seq<char>) -> bool {
    !piece.contains('/') && !piece.contains('?') && !piece.contains('#') && !piece.contains('\0')
}

/// Whether a piece is anything but `..`.
pub open spec fn is_plain(piece: Seq<char>) -> bool {
    is_piece(piece) && piece != seq!['.', '.']
}

/// Whether a text is empty or starts with a mark that ends the path of a target.
pub open spec fn ends_path(tail: Seq<char>) -> bool {
    tail.len() == 0 || tail[0] == '?' || tail[0] == '#'
}

proof fn lemma_slash_bytes(a: Seq<char>, b: Seq<char>)
    ensures
        encode_utf8(a + seq!['/'] + b) == encode_utf8(a) + seq![0x2fu8] + encode_utf8(b),
        encode_utf8(seq!['.']) == seq![0x2eu8],
        encode_utf8(seq!['.', '.']) == seq![0x2eu8, 0x2eu8],
{
    text::encoding_of_a_concatenation(a + seq!['/'], b);
    text::encoding_of_a_concatenation(a, seq!['/']);
    assert(is_ascii_chars(seq!['/']));
    assert(is_ascii_chars(seq!['.']));
    assert(is_ascii_chars(seq!['.', '.']));
    is_ascii_chars_encode_utf8(seq!['/']);
    is_ascii_chars_encode_utf8(seq!['.']);
    is_ascii_chars_encode_utf8(seq!['.', '.']);
    assert(encode_utf8(seq!['/']) =~= seq![0x2fu8]);
    assert(encode_utf8(seq!['.']) =~= seq![0x2eu8]);
    assert(encode_utf8(seq!['.', '.']) =~= seq![0x2eu8, 0x2eu8]);
}

/// The one component of a piece, if it has one.
proof fn lemma_piece(piece: Seq<char>)
    requires
        is_piece(piece),
    ensures
        !encode_utf8(piece).contains(0x2f),
        paths::named_parts(encode_utf8(piece)) == (if piece.len() == 0 || piece == seq!['.'] {
            Seq::<paths::Part>::empty()
        } else if piece == seq!['.', '.'] {
            seq![paths::Part::ParentDir]
        } else {
            seq![paths::Part::Normal(encode_utf8(piece))]
        }),
        piece.len() == 0 <==> encode_utf8(piece).len() == 0,
        piece == seq!['.'] <==> encode_utf8(piece) == seq![0x2eu8],
{
    let none = Seq::<char>::empty();
    assert(0x2fu8 as char == '/');
    text::absent_ascii_stays_absent(piece, 0x2f);
    lemma_slash_bytes(none, none);
    text::bytes_tell_texts_apart(piece, seq!['.']);
    text::bytes_tell_texts_apart(piece, seq!['.', '.']);
    text::bytes_tell_texts_apart(piece, none);
    assert(encode_utf8(none) =~= Seq::<u8>::empty());
    if piece.len() == 0 {
        assert(piece =~= none);
    }
    if encode_utf8(piece).len() == 0 {
        assert(encode_utf8(piece) =~= encode_utf8(none));
    }
    paths::a_name_is_one_component(encode_utf8(piece));
}

proof fn lemma_pieces(pieces: Seq<Seq<char>>)
    requires
        forall|i: int| 0 <= i < pieces.len() ==> is_plain(#[trigger] pieces[i]),
    ensures
        forall|i: int|
            0 <= i < paths::named_parts(encode_utf8(with_slashes(pieces))).len() ==> (
            #[trigger] paths::named_parts(encode_utf8(with_slashes(pieces)))[i]) is Normal,
    decreases pieces.len(),
{
    if pieces.len() == 0 {
        assert(encode_utf8(with_slashes(pieces)) =~= Seq::<u8>::empty());
    } else {
        assert(is_plain(pieces[0]));
        lemma_piece(pieces[0]);
        if pieces.len() > 1 {
            let others = pieces.skip(1);
            assert forall|i: int| 0 <= i < others.len() implies is_plain(#[trigger] others[i]) by {
                assert(others[i] == pieces[i + 1]);
            }
            lemma_pieces(others);
            lemma_slash_bytes(pieces[0], with_slashes(others));
            let a = encode_utf8(pieces[0]);
            let b = encode_utf8(with_slashes(others));
            paths::named_parts_across_a_slash(a, b);
            let all = paths::named_parts(encode_utf8(with_slashes(pieces)));
            assert forall|i: int| 0 <= i < all.len() implies (#[trigger] all[i]) is Normal by {
                let n = paths::named_parts(a).len();
                if i < n {
                    assert(all[i] == paths::named_parts(a)[i]);
                } else {
                    assert(all[i] == paths::named_parts(b)[i - n]);
                }
            }
        }
    }
}

proof fn lemma_climbing_piece(pieces: Seq<Seq<char>>, k: int)
    requires
        0 <= k < pieces.len(),
        forall|i: int| 0 <= i < pieces.len() ==> is_piece(#[trigger] pieces[i]),
        pieces[k] == seq!['.', '.'],
    ensures
        exists|i: int|
            0 <= i < paths::named_parts(encode_utf8(with_slashes(pieces))).len() && (
            #[trigger] paths::named_parts(encode_utf8(with_slashes(pieces)))[i]) is ParentDir,
    decreases pieces.len(),
{
    let all = paths::named_parts(encode_utf8(with_slashes(pieces)));
    assert(is_piece(pieces[0]));
    lemma_piece(pieces[0]);
    let none = Seq::<char>::empty();
    if pieces.len() == 1 {
        assert(all[0] is ParentDir);
    } else {
        let others = pieces.skip(1);
        assert forall|i: int| 0 <= i < others.len() implies is_piece(#[trigger] others[i]) by {
            assert(others[i] == pieces[i + 1]);
        }
        lemma_slash_bytes(pieces[0], with_slashes(others));
        let a = encode_utf8(pieces[0]);
        let b = encode_utf8(with_slashes(others));
        paths::named_parts_across_a_slash(a, b);
        let n = paths::named_parts(a).len();
        if k == 0 {
            assert(all[0] == paths::named_parts(a)[0]);
        } else {
            assert(others[k - 1] == pieces[k]);
            lemma_climbing_piece(others, k - 1);
            let i = choose|i: int|
                0 <= i < paths::named_parts(b).len() && (#[trigger] paths::named_parts(b)[i])
                    is ParentDir;
            assert(all[n + i] == paths::named_parts(b)[i]);
        }
    }
}

proof fn lemma_text_of_pieces(pieces: Seq<Seq<char>>)
    requires
        forall|i: int| 0 <= i < pieces.len() ==> is_piece(#[trigger] pieces[i]),
    ensures
        !with_slashes(pieces).contains('?'),
        !with_slashes(pieces).contains('#'),
        !with_slashes(pieces).contains('\0'),
    decreases pieces.len(),
{
    if pieces.len() > 0 {
        assert(is_piece(pieces[0]));
    }
    if pieces.len() > 1 {
        let others = pieces.skip(1);
        assert forall|i: int| 0 <= i < others.len() implies is_piece(#[trigger] others[i]) by {
            assert(others[i] == pieces[i + 1]);
        }
        lemma_text_of_pieces(others);
        let rest = with_slashes(others);
        let whole = with_slashes(pieces);
        assert forall|i: int| 0 <= i < whole.len() implies whole[i] != '?' && whole[i] != '#'
            && whole[i] != '\0' by {
            let n = pieces[0].len() as int;
            if i < n {
                assert(whole[i] == pieces[0][i]);
                assert(pieces[0].contains(pieces[0][i]));
            } else if i == n {
                assert(whole[i] == '/');
            } else {
                assert(whole[i] == rest[i - n - 1]);
                assert(rest.contains(rest[i - n - 1]));
            }
        }
    }
}

/// What the decoded text of a target names, where it is made of slashes, a text without query
/// marks that does not start with a slash, and a tail that does.
proof fn lemma_target(count: nat, path: Seq<char>, tail: Seq<char>)
    requires
        ends_path(tail),
        !path.contains('?'),
        !path.contains('#'),
        path.len() == 0 || path[0] != '/',
    ensures
        target_path(slashes(count) + path + tail) == (if path.len() == 0 && count <= 1 {
            "index.html"@
        } else {
            path
        }),
{
    let decoded = slashes(count) + path + tail;
    let front = slashes(count) + path;
    let n = front.len() as int;
    assert forall|i: int| 0 <= i < n implies decoded[i] != '?' && decoded[i] != '#' by {
        if i < count {
            assert(decoded[i] == '/');
        } else {
            assert(decoded[i] == path[i - count]);
            assert(path.contains(path[i - count]));
        }
    }
    assert(n < decoded.len() ==> decoded[n] == tail[0]);
    lemma_before_query(decoded, n);
    assert(decoded.take(n) =~= front);
    reveal_strlit("/");
    if path.len() == 0 && count <= 1 {
        assert(count == 1 ==> front =~= "/"@);
    } else {
        assert(front != "/"@) by {
            if front == "/"@ {
                assert(front.len() == 1 && front[0] == '/');
                if count == 0 {
                    assert(front[0] == path[0]);
                }
            }
        }
        assert(n > 0);
        assert forall|i: int| 0 <= i < count implies front[i] == '/' by {}
        assert(count < n ==> front[count as int] == path[0]);
        lemma_without_leading_slashes(front, count as int);
        assert(front.skip(count as int) =~= path);
    }
}

proof fn lemma_no_nul(count: nat, path: Seq<char>, tail: Seq<char>)
    requires
        !path.contains('\0'),
        !tail.contains('\0'),
    ensures
        !(slashes(count) + path + tail).contains('\0'),
{
    let all = slashes(count) + path + tail;
    if all.contains('\0') {
        let i = choose|i: int| 0 <= i < all.len() && all[i] == '\0';
        if i < count {
            assert(all[i] == '/');
        } else if i < count + path.len() {
            assert(all[i] == path[i - count]);
        } else {
            assert(all[i] == tail[i - count - path.len()]);
        }
    }
}

/// A target is looked up under the root as it stands: its path without its leading slashes, with
/// nothing dropped and nothing changed, however long it is. `pieces` are what stands between the
/// slashes of that path, and `tail` is the query or the fragment, if there is one.
pub proof fn a_target_is_looked_up_as_it_stands(
    root: Seq<u8>,
    raw: Seq<char>,
    count: nat,
    pieces: Seq<Seq<char>>,
    tail: Seq<char>,
    regular: Answer<bool>,
)
    requires
        !raw.contains('\0'),
        percent::percent_decoded(raw) == Some(slashes(count) + with_slashes(pieces) + tail),
        pieces.len() > 0,
        pieces[0].len() > 0,
        pieces[0] != seq!['.'],
        forall|i: int| 0 <= i < pieces.len() ==> is_plain(#[trigger] pieces[i]),
        ends_path(tail),
        !tail.contains('\0'),
    ensures
        relative_path(raw) == Ok::<Seq<char>, StatusCode>(with_slashes(pieces)),
        root.len() > 0 && root.last() != 0x2f ==> resolving(root, raw, Answer::Unasked, regular)
            == Resolving::Canonicalize(
            root + seq![0x2fu8] + encode_utf8(with_slashes(pieces)),
        ),
        root == seq![0x2fu8] ==> resolving(root, raw, Answer::Unasked, regular)
            == Resolving::Canonicalize(root + encode_utf8(with_slashes(pieces))),
{
    let path = with_slashes(pieces);
    assert forall|i: int| 0 <= i < pieces.len() implies is_piece(#[trigger] pieces[i]) by {
        assert(is_plain(pieces[i]));
    }
    lemma_text_of_pieces(pieces);
    assert(is_plain(pieces[0]));
    assert(path.len() > 0 && path[0] == pieces[0][0]);
    assert(pieces[0].contains(pieces[0][0]));
    lemma_target(count, path, tail);
    lemma_no_nul(count, path, tail);
    lemma_pieces(pieces);
    lemma_piece(pieces[0]);
    let bytes = encode_utf8(path);
    let first = encode_utf8(pieces[0]);
    if pieces.len() == 1 {
        paths::a_relative_path_is_its_names(first, Seq::empty());
    } else {
        lemma_slash_bytes(pieces[0], with_slashes(pieces.skip(1)));
        let rest = encode_utf8(with_slashes(pieces.skip(1)));
        paths::a_relative_path_is_its_names(first, rest);
        paths::named_parts_across_a_slash(first, rest);
    }
    assert(paths::path_parts(bytes) == paths::named_parts(bytes));
    assert(names_only(bytes));
}

/// A target without a path, or with a lone slash for one, means `index.html`; more slashes and
/// nothing else mean the root itself.
pub proof fn an_empty_target_means_the_index(
    root: Seq<u8>,
    raw: Seq<char>,
    count: nat,
    tail: Seq<char>,
    regular: Answer<bool>,
)
    requires
        !raw.contains('\0'),
        percent::percent_decoded(raw) == Some(slashes(count) + tail),
        ends_path(tail),
        !tail.contains('\0'),
        root.len() > 0,
        root.last() != 0x2f,
    ensures
        resolving(root, raw, Answer::Unasked, regular) == Resolving::Canonicalize(
            root + seq![0x2fu8] + encode_utf8(
                if count <= 1 {
                    "index.html"@
                } else {
                    ""@
                },
            ),
        ),
{
    let none = Seq::<char>::empty();
    assert(slashes(count) + none + tail =~= slashes(count) + tail);
    lemma_target(count, none, tail);
    lemma_no_nul(count, none, tail);
    reveal_strlit("");
    assert(""@ =~= none);
    if count <= 1 {
        reveal_strlit("index.html");
        let index = "index.html"@;
        assert(is_plain(index));
        assert(index != seq!['.']) by {
            assert(index.len() == 10);
        }
        let pieces = seq![index];
        assert(with_slashes(pieces) == index);
        lemma_pieces(pieces);
        lemma_piece(index);
        paths::a_relative_path_is_its_names(encode_utf8(index), Seq::empty());
        assert(names_only(encode_utf8(index)));
    } else {
        assert(encode_utf8(none) =~= Seq::<u8>::empty());
        let p = Seq::<u8>::empty();
        assert(paths::path_parts(p) =~= Seq::<paths::Part>::empty()) by {
            assert(p.take(0) != seq![0x2eu8]) by {
                assert(p.take(0).len() == 0);
            }
        }
        assert(names_only(encode_utf8(none)));
    }
}

/// A target one of whose pieces is `..`, or whose first piece is `.`, is forbidden, wherever it
/// would lead.
pub proof fn a_climbing_target_is_forbidden(
    root: Seq<u8>,
    raw: Seq<char>,
    count: nat,
    pieces: Seq<Seq<char>>,
    k: int,
    tail: Seq<char>,
    canonical: Answer<Seq<u8>>,
    regular: Answer<bool>,
)
    requires
        !raw.contains('\0'),
        percent::percent_decoded(raw) == Some(slashes(count) + with_slashes(pieces) + tail),
        0 <= k < pieces.len(),
        pieces[0].len() > 0,
        forall|i: int| 0 <= i < pieces.len() ==> is_piece(#[trigger] pieces[i]),
        pieces[k] == seq!['.', '.'] || (k == 0 && pieces[0] == seq!['.']),
        ends_path(tail),
        !tail.contains('\0'),
    ensures
        resolving(root, raw, canonical, regular) == Resolving::Refused(StatusCode::Forbidden),
{
    let path = with_slashes(pieces);
    lemma_text_of_pieces(pieces);
    assert(is_piece(pieces[0]));
    assert(path.len() > 0 && path[0] == pieces[0][0]);
    assert(pieces[0].contains(pieces[0][0]));
    lemma_target(count, path, tail);
    lemma_no_nul(count, path, tail);
    lemma_piece(pieces[0]);
    let bytes = encode_utf8(path);
    let all = paths::path_parts(bytes);
    if pieces[k] == seq!['.', '.'] {
        lemma_climbing_piece(pieces, k);
        let named = paths::named_parts(bytes);
        let i = choose|i: int| 0 <= i < named.len() && (#[trigger] named[i]) is ParentDir;
        let n = paths::leading_part(bytes).len();
        assert(all[n + i] == named[i]);
    } else {
        let dot = seq![0x2eu8];
        if pieces.len() == 1 {
            paths::a_path_starts_where_it_says(Seq::empty());
            assert(bytes == dot);
        } else {
            lemma_slash_bytes(pieces[0], with_slashes(pieces.skip(1)));
            let rest = encode_utf8(with_slashes(pieces.skip(1)));
            paths::a_path_starts_where_it_says(rest);
            assert(bytes =~= seq![0x2eu8, 0x2fu8] + rest);
        }
        assert(all[0] is CurDir);
    }
    assert(!names_only(bytes));
}

/// What becomes of a target whose canonical path leads through these names, under a root that leads
/// through those: outside the root it is forbidden; inside, it is the file if it is a regular one
/// whose name ends in one of the two extensions, and otherwise it is not found.
pub proof fn a_canonical_path_decides(
    root: Seq<Seq<u8>>,
    raw: Seq<char>,
    path: Seq<Seq<u8>>,
    stem: Seq<u8>,
    ext: Seq<u8>,
    regular: Answer<bool>,
)
    requires
        relative_path(raw) is Ok,
        paths::all_ordinary(root),
        paths::all_ordinary(path),
        path.len() > 0,
        stem.len() > 0,
        !ext.contains(0x2e),
        path.last() == stem + seq![0x2eu8] + ext,
    ensures
        ({
            let absolute = paths::canonical_path(path);
            let served = paths::spells(ext, "html"@, "HTML"@) || paths::spells(
                ext,
                "css"@,
                "CSS"@,
            );
            resolving(paths::canonical_path(root), raw, Answer::Got(absolute), regular) == (
            if !root.is_prefix_of(path) {
                Resolving::Refused(StatusCode::Forbidden)
            } else if regular == Answer::<bool>::Unasked {
                Resolving::Inspect(absolute)
            } else if regular == Answer::Got(true) && served {
                Resolving::Found { absolute, relative: relative_path(raw)->Ok_0 }
            } else {
                Resolving::Refused(StatusCode::NotFound)
            })
        }),
{
    paths::paths_are_compared_name_by_name(path, root);
    lemma_last_name(path, stem, ext);
}

proof fn lemma_last_name(path: Seq<Seq<u8>>, stem: Seq<u8>, ext: Seq<u8>)
    requires
        paths::all_ordinary(path),
        path.len() > 0,
        stem.len() > 0,
        !ext.contains(0x2e),
        path.last() == stem + seq![0x2eu8] + ext,
    ensures
        paths::kind_of(paths::canonical_path(path)) is Some <==> paths::spells(
            ext,
            "html"@,
            "HTML"@,
        ) || paths::spells(ext, "css"@, "CSS"@),
        paths::spells(ext, "html"@, "HTML"@) ==> paths::mime_of(paths::canonical_path(path))
            == "text/html; charset=utf-8"@,
        paths::spells(ext, "css"@, "CSS"@) ==> paths::mime_of(paths::canonical_path(path))
            == "text/css; charset=utf-8"@,
{
    let name = path.last();
    assert(paths::is_ordinary(path[path.len() - 1]));
    assert(!stem.contains(0x2f)) by {
        if stem.contains(0x2f) {
            let i = choose|i: int| 0 <= i < stem.len() && stem[i] == 0x2f;
            assert(name[i] == 0x2f);
        }
    }
    assert(!ext.contains(0x2f)) by {
        if ext.contains(0x2f) {
            let i = choose|i: int| 0 <= i < ext.len() && ext[i] == 0x2f;
            assert(name[stem.len() + 1 + i] == 0x2f);
        }
    }
    paths::a_file_is_what_its_extension_says(paths::slashed(path.drop_last()), stem, ext);
}

/// A canonical path whose last name has no extension is never found.
pub proof fn a_name_without_an_extension_is_not_found(
    root: Seq<Seq<u8>>,
    raw: Seq<char>,
    path: Seq<Seq<u8>>,
    is_file: bool,
)
    requires
        relative_path(raw) is Ok,
        paths::all_ordinary(root),
        paths::all_ordinary(path),
        path.len() > 0,
        root.is_prefix_of(path),
        forall|i: int| 1 <= i < path.last().len() ==> path.last()[i] != 0x2e,
    ensures
        resolving(
            paths::canonical_path(root),
            raw,
            Answer::Got(paths::canonical_path(path)),
            Answer::Got(is_file),
        ) == Resolving::Refused(StatusCode::NotFound),
{
    paths::paths_are_compared_name_by_name(path, root);
    assert(paths::is_ordinary(path[path.len() - 1]));
    paths::a_file_without_an_extension_is_of_no_kind(
        paths::slashed(path.drop_last()),
        path.last(),
    );
}

/// What does not exist, or may not be looked at, is not found.
pub proof fn a_missing_file_is_not_found(root: Seq<u8>, raw: Seq<char>, regular: Answer<bool>)
    requires
        relative_path(raw) is Ok,
    ensures
        resolving(root, raw, Answer::Failed, regular) == Resolving::Refused(StatusCode::NotFound),
{
}

/// A file that a canonical path leads to is sent with the media type of its extension.
pub proof fn a_canonical_path_has_the_type_of_its_extension(
    path: Seq<Seq<u8>>,
    stem: Seq<u8>,
    ext: Seq<u8>,
)
    requires
        paths::all_ordinary(path),
        path.len() > 0,
        stem.len() > 0,
        !ext.contains(0x2e),
        path.last() == stem + seq![0x2eu8] + ext,
    ensures
        paths::spells(ext, "html"@, "HTML"@) ==> paths::mime_of(paths::canonical_path(path))
            == "text/html; charset=utf-8"@,
        paths::spells(ext, "css"@, "CSS"@) ==> paths::mime_of(paths::canonical_path(path))
            == "text/css; charset=utf-8"@,
{
    lemma_last_name(path, stem, ext);
}

/// A canonical path is of a kind that is served exactly where its extension spells one of the two.
pub proof fn the_kind_of_a_canonical_path(path: Seq<Seq<u8>>, stem: Seq<u8>, ext: Seq<u8>)
    requires
        paths::all_ordinary(path),
        path.len() > 0,
        stem.len() > 0,
        !ext.contains(0x2e),
        path.last() == stem + seq![0x2eu8] + ext,
    ensures
        paths::kind_of(paths::canonical_path(path)) is Some <==> paths::spells(
            ext,
            "html"@,
            "HTML"@,
        ) || paths::spells(ext, "css"@, "CSS"@),
{
    lemma_last_name(path, stem, ext);
}

/// An answer of the file system stands for what came back.
pub proof fn an_answer_is_what_came_back(path: Answer<Vec<u8>>, yes: Answer<bool>)
    ensures
        path is Unasked <==> path@ is Unasked,
        path is Failed <==> path@ is Failed,
        path matches Answer::Got(bytes) ==> path@ == Answer::Got(bytes@),
        yes == yes@,
{
}

/// A path of plain pieces holds no NUL, and neither does it with a slash before it.
pub proof fn lemma_plain_pieces_hold_no_nul(pieces: Seq<Seq<char>>)
    requires
        forall|i: int| 0 <= i < pieces.len() ==> is_plain(#[trigger] pieces[i]),
    ensures
        !with_slashes(pieces).contains('\0'),
        !(seq!['/'] + with_slashes(pieces)).contains('\0'),
{
    assert forall|i: int| 0 <= i < pieces.len() implies is_piece(#[trigger] pieces[i]) by {
        assert(is_plain(pieces[i]));
    }
    lemma_text_of_pieces(pieces);
    let none = Seq::<char>::empty();
    lemma_no_nul(1, with_slashes(pieces), none);
    assert(slashes(1) + with_slashes(pieces) + none =~= seq!['/'] + with_slashes(pieces));
}

} // verus!
