//! Unix paths as byte strings: components, joining, containment and extensions.
use crate::text;
use vstd::prelude::*;
use vstd::utf8::*;

verus! {

/// One component of a path.
pub enum Component {
    /// The leading `/` of an absolute path.
    RootDir,
    /// A leading `.` of a relative path.
    CurDir,
    /// A `..`, wherever it stands.
    ParentDir,
    /// Any other name.
    Normal(Vec<u8>),
}

/// What a component stands for.
pub enum Part {
    RootDir,
    CurDir,
    ParentDir,
    Normal(Seq<u8>),
}

impl View for Component {
    type V = Part;

    open spec fn view(&self) -> Part {
        match *self {
            Component::RootDir => Part::RootDir,
            Component::CurDir => Part::CurDir,
            Component::ParentDir => Part::ParentDir,
            Component::Normal(name) => Part::Normal(name@),
        }
    }
}

/// The parts that a list of components stands for.
pub open spec fn parts(v: Seq<Component>) -> Seq<Part> {
    v.map_values(|c: Component| c@)
}

/// The length of the text before the first `/`.
pub open spec fn segment_len(p: Seq<u8>) -> nat
    decreases p.len(),
{
    if p.len() == 0 || p[0] == 0x2f {
        0
    } else {
        1 + segment_len(p.skip(1))
    }
}

/// What follows the first `/`.
pub open spec fn after_segment(p: Seq<u8>) -> Seq<u8> {
    if segment_len(p) < p.len() {
        p.skip(segment_len(p) as int + 1)
    } else {
        Seq::empty()
    }
}

/// The part that one segment between slashes stands for: none for an empty segment and for `.`.
pub open spec fn segment_part(segment: Seq<u8>) -> Seq<Part> {
    if segment.len() == 0 || segment == seq![0x2eu8] {
        Seq::empty()
    } else if segment == seq![0x2eu8, 0x2eu8] {
        seq![Part::ParentDir]
    } else {
        seq![Part::Normal(segment)]
    }
}

/// The parts that the segments of a path stand for, in order.
pub open spec fn named_parts(p: Seq<u8>) -> Seq<Part>
    decreases p.len(),
{
    if p.len() == 0 {
        Seq::empty()
    } else {
        segment_part(p.take(segment_len(p) as int)) + named_parts(after_segment(p))
    }
}

/// The part that the start of a path adds to its segments.
pub open spec fn leading_part(p: Seq<u8>) -> Seq<Part> {
    if p.len() > 0 && p[0] == 0x2f {
        seq![Part::RootDir]
    } else if p.take(segment_len(p) as int) == seq![0x2eu8] {
        seq![Part::CurDir]
    } else {
        Seq::empty()
    }
}

/// The components of a path.
pub open spec fn path_parts(p: Seq<u8>) -> Seq<Part> {
    leading_part(p) + named_parts(p)
}

/// Whether a path leads, component by component, through another.
pub open spec fn is_under(path: Seq<u8>, root: Seq<u8>) -> bool {
    path_parts(root).is_prefix_of(path_parts(path))
}

/// A path with a relative path appended to it.
pub open spec fn joined(root: Seq<u8>, rel: Seq<u8>) -> Seq<u8> {
    if root.len() > 0 && root.last() != 0x2f {
        root + seq![0x2fu8] + rel
    } else {
        root + rel
    }
}

/// The position of the last `.`; `-1` where there is none.
pub open spec fn last_dot(name: Seq<u8>) -> int
    decreases name.len(),
{
    if name.len() == 0 {
        -1
    } else if name.last() == 0x2e {
        name.len() - 1
    } else {
        last_dot(name.drop_last())
    }
}

/// The last component of a path, where that is a name.
pub open spec fn file_name_of(p: Seq<u8>) -> Option<Seq<u8>> {
    let all = path_parts(p);
    if all.len() == 0 {
        None
    } else {
        match all.last() {
            Part::Normal(name) => Some(name),
            _ => None,
        }
    }
}

/// What follows the last `.` of the file name, unless that `.` starts the name.
pub open spec fn extension_of(p: Seq<u8>) -> Option<Seq<u8>> {
    match file_name_of(p) {
        Some(name) => if last_dot(name) > 0 {
            Some(name.skip(last_dot(name) + 1))
        } else {
            None
        },
        None => None,
    }
}

/// The two kinds of file that are served.
#[derive(Clone, Copy, Debug, PartialEq, Eq, Structural)]
pub enum FileKind {
    Html,
    Css,
}

/// The kind that a path's extension names, in either case of its letters.
pub open spec fn kind_of(p: Seq<u8>) -> Option<FileKind> {
    match extension_of(p) {
        Some(ext) => {
            let name = text::lowered(ext);
            if name == encode_utf8("html"@) {
                Some(FileKind::Html)
            } else if name == encode_utf8("css"@) {
                Some(FileKind::Css)
            } else {
                None
            }
        },
        None => None,
    }
}

/// The media type that a path is served with.
pub open spec fn mime_of(p: Seq<u8>) -> Seq<char> {
    match kind_of(p) {
        Some(FileKind::Html) => "text/html; charset=utf-8"@,
        Some(FileKind::Css) => "text/css; charset=utf-8"@,
        None => "application/octet-stream"@,
    }
}

/// A segment is no longer than the path it stands in.
pub proof fn segment_fits_its_path(p: Seq<u8>)
    ensures
        segment_len(p) <= p.len(),
        segment_len(p) < p.len() ==> p[segment_len(p) as int] == 0x2f,
        forall|i: int| 0 <= i < segment_len(p) ==> p[i] != 0x2f,
    decreases p.len(),
{
    if p.len() > 0 && p[0] != 0x2f {
        segment_fits_its_path(p.skip(1));
        assert forall|i: int| 0 <= i < segment_len(p) implies p[i] != 0x2f by {
            if i > 0 {
                assert(p[i] == p.skip(1)[i - 1]);
            }
        }
    }
}

proof fn lemma_segment_len(p: Seq<u8>, n: int)
    requires
        0 <= n <= p.len(),
        forall|i: int| 0 <= i < n ==> p[i] != 0x2f,
        n < p.len() ==> p[n] == 0x2f,
    ensures
        segment_len(p) == n,
    decreases p.len(),
{
    if n > 0 {
        lemma_segment_len(p.skip(1), n - 1);
    }
}

/// The parts of two paths with a `/` between them are the parts of the one and then of the other.
pub proof fn named_parts_across_a_slash(a: Seq<u8>, b: Seq<u8>)
    ensures
        named_parts(a + seq![0x2fu8] + b) == named_parts(a) + named_parts(b),
    decreases a.len(),
{
    let whole = a + seq![0x2fu8] + b;
    let n = segment_len(a) as int;
    segment_fits_its_path(a);
    assert forall|i: int| 0 <= i < n implies whole[i] != 0x2f by {
        assert(whole[i] == a[i]);
    }
    assert(n < a.len() ==> whole[n] == a[n]);
    lemma_segment_len(whole, n);
    assert(whole.take(n) =~= a.take(n));
    if n < a.len() {
        let rest = a.skip(n + 1);
        assert(after_segment(whole) =~= rest + seq![0x2fu8] + b);
        named_parts_across_a_slash(rest, b);
        assert(named_parts(a) == segment_part(a.take(n)) + named_parts(rest));
        assert(segment_part(a.take(n)) + (named_parts(rest) + named_parts(b)) =~= named_parts(a)
            + named_parts(b));
    } else {
        assert(after_segment(whole) =~= b);
        assert(a.take(n) =~= a);
        assert(after_segment(a) =~= Seq::<u8>::empty());
        assert(named_parts(Seq::<u8>::empty()) =~= Seq::<Part>::empty());
        assert(named_parts(a) =~= segment_part(a));
    }
}

/// A path joined to an absolute one has the components of that one, then its own names.
pub proof fn joined_parts(root: Seq<u8>, rel: Seq<u8>)
    requires
        root.len() > 0,
        root[0] == 0x2f,
    ensures
        path_parts(joined(root, rel)) == path_parts(root) + named_parts(rel),
{
    let whole = joined(root, rel);
    assert(whole[0] == root[0]);
    if root.last() != 0x2f {
        named_parts_across_a_slash(root, rel);
    } else {
        let base = root.drop_last();
        assert(root =~= base + seq![0x2fu8] + Seq::<u8>::empty());
        assert(whole =~= base + seq![0x2fu8] + rel);
        named_parts_across_a_slash(base, rel);
        named_parts_across_a_slash(base, Seq::empty());
        assert(named_parts(root) =~= named_parts(base));
    }
    assert(path_parts(whole) =~= path_parts(root) + named_parts(rel));
}

/// The components of a path.
pub fn components(path: &[u8]) -> (r: Vec<Component>)
    ensures
        parts(r@) == path_parts(path@),
{
    let mut out: Vec<Component> = Vec::new();
    let mut start: usize = 0;
    if path.len() > 0 && path[0] == 0x2f {
        out.push(Component::RootDir);
        assert(parts(out@) =~= leading_part(path@));
    } else if path.len() > 0 && path[0] == 0x2e && (path.len() == 1 || path[1] == 0x2f) {
        proof {
            lemma_segment_len(path@, 1);
            assert(path@.take(1) =~= seq![0x2eu8]);
        }
        out.push(Component::CurDir);
        assert(parts(out@) =~= leading_part(path@));
    } else {
        proof {
            segment_fits_its_path(path@);
            let n = segment_len(path@) as int;
            if path@.take(n) == seq![0x2eu8] {
                assert(path@.take(n).len() == 1);
                assert(path@[0] == path@.take(n)[0]);
                assert(false);
            }
        }
        assert(parts(out@) =~= leading_part(path@));
    }
    assert(path@.skip(0) =~= path@);
    while start < path.len()
        invariant
            start <= path@.len(),
            path_parts(path@) == parts(out@) + named_parts(path@.skip(start as int)),
        decreases path@.len() - start,
    {
        let ghost rest = path@.skip(start as int);
        let mut end: usize = start;
        while end < path.len() && path[end] != 0x2f
            invariant
                start <= end <= path@.len(),
                forall|j: int| start <= j < end ==> path@[j] != 0x2f,
            ensures
                start <= end <= path@.len(),
                forall|j: int| start <= j < end ==> path@[j] != 0x2f,
                end < path@.len() ==> path@[end as int] == 0x2f,
            decreases path@.len() - end,
        {
            end += 1;
        }
        let ghost segment = path@.subrange(start as int, end as int);
        let ghost before = out@;
        proof {
            lemma_segment_len(rest, end - start);
            assert(rest.take(end - start) =~= segment);
            if end < path@.len() {
                assert(after_segment(rest) =~= path@.skip(end + 1));
            } else {
                assert(after_segment(rest) =~= path@.skip(end as int));
            }
        }
        let name = text::copy_bytes(vstd::slice::slice_subrange(path, start, end));
        if name.len() == 0 || (name.len() == 1 && name[0] == 0x2e) {
            assert(name.len() == 1 ==> segment =~= seq![0x2eu8]);
            assert(segment_part(segment) =~= Seq::<Part>::empty());
            assert(parts(out@) =~= parts(before) + segment_part(segment));
        } else if name.len() == 2 && name[0] == 0x2e && name[1] == 0x2e {
            assert(segment =~= seq![0x2eu8, 0x2eu8]);
            out.push(Component::ParentDir);
            assert(parts(out@) =~= parts(before) + segment_part(segment));
        } else {
            proof {
                if segment == seq![0x2eu8] || segment == seq![0x2eu8, 0x2eu8] {
                    assert(name@[0] == segment[0]);
                    assert(name@.len() == 2 ==> name@[1] == segment[1]);
                    assert(false);
                }
            }
            out.push(Component::Normal(name));
            assert(parts(out@) =~= parts(before) + segment_part(segment));
        }
        let ghost following = named_parts(after_segment(rest));
        assert(parts(before) + (segment_part(segment) + following) =~= parts(out@) + following);
        if end < path.len() {
            start = end + 1;
        } else {
            start = end;
        }
    }
    assert(path@.skip(start as int).len() == 0);
    assert(parts(out@) + Seq::<Part>::empty() =~= parts(out@));
    out
}

/// Whether two components are the same.
fn same_component(a: &Component, b: &Component) -> (r: bool)
    ensures
        r == (a@ == b@),
{
    match (a, b) {
        (Component::RootDir, Component::RootDir) => true,
        (Component::CurDir, Component::CurDir) => true,
        (Component::ParentDir, Component::ParentDir) => true,
        (Component::Normal(x), Component::Normal(y)) => text::same_bytes(x, y),
        _ => false,
    }
}

/// Whether `path` leads through `root`, compared component by component.
pub fn starts_with(path: &[u8], root: &[u8]) -> (r: bool)
    ensures
        r == is_under(path@, root@),
        r == path_parts(root@).is_prefix_of(path_parts(path@)),
{
    let all = components(path);
    let base = components(root);
    let ghost a = path_parts(path@);
    let ghost b = path_parts(root@);
    assert(a.len() == all@.len() && b.len() == base@.len());
    if base.len() > all.len() {
        return false;
    }
    let mut i: usize = 0;
    while i < base.len()
        invariant
            i <= base@.len() <= all@.len(),
            parts(all@) == a,
            parts(base@) == b,
            a == path_parts(path@),
            b == path_parts(root@),
            forall|j: int| 0 <= j < i ==> a[j] == b[j],
        decreases base@.len() - i,
    {
        assert(parts(all@)[i as int] == all@[i as int]@);
        assert(parts(base@)[i as int] == base@[i as int]@);
        if !same_component(&all[i], &base[i]) {
            proof {
                if b.is_prefix_of(a) {
                    assert(a.subrange(0, b.len() as int)[i as int] == a[i as int]);
                }
            }
            return false;
        }
        i += 1;
    }
    assert(a.subrange(0, b.len() as int) =~= b);
    true
}

/// Joins a relative path to a root.
pub fn join(root: &[u8], rel: &[u8]) -> (r: Vec<u8>)
    ensures
        r@ == joined(root@, rel@),
        root@.len() > 0 && root@.last() != 0x2f ==> r@ == root@ + seq![0x2fu8] + rel@,
        root@.len() == 0 || root@.last() == 0x2f ==> r@ == root@ + rel@,
{
    let mut out = text::copy_bytes(root);
    if out.len() > 0 && out[out.len() - 1] != 0x2f {
        out.push(0x2f);
        assert(out@ =~= root@ + seq![0x2fu8]);
    }
    text::push_bytes(&mut out, rel);
    out
}

/// The extension of a path's file name.
pub fn extension(path: &[u8]) -> (r: Option<Vec<u8>>)
    ensures
        r is Some <==> extension_of(path@) is Some,
        r is Some ==> r->Some_0@ == extension_of(path@)->Some_0,
{
    let all = components(path);
    assert(path_parts(path@).len() == all@.len());
    if all.len() == 0 {
        return None;
    }
    assert(path_parts(path@).last() == all@.last()@);
    match &all[all.len() - 1] {
        Component::Normal(name) => {
            let mut i: usize = name.len();
            assert(name@.take(i as int) =~= name@);
            while i > 0
                invariant
                    i <= name@.len(),
                    last_dot(name@) == last_dot(name@.take(i as int)),
                    file_name_of(path@) == Some(name@),
                decreases i,
            {
                assert(name@.take(i as int).drop_last() =~= name@.take(i - 1));
                assert(name@.take(i as int).last() == name@[i - 1]);
                if name[i - 1] == 0x2e {
                    if i == 1 {
                        return None;
                    }
                    assert(last_dot(name@) == i - 1);
                    let ext = text::copy_bytes(
                        vstd::slice::slice_subrange(name.as_slice(), i, name.len()),
                    );
                    assert(ext@ =~= name@.skip(i as int));
                    return Some(ext);
                }
                i -= 1;
            }
            None
        },
        _ => None,
    }
}

/// The kind of file that a path names, if it is one that is served.
pub fn file_kind(path: &[u8]) -> (r: Option<FileKind>)
    ensures
        r == kind_of(path@),
{
    match extension(path) {
        Some(ext) => {
            if text::same_ignoring_case(&ext, "html") {
                Some(FileKind::Html)
            } else if text::same_ignoring_case(&ext, "css") {
                Some(FileKind::Css)
            } else {
                None
            }
        },
        None => None,
    }
}

/// The media type of a path.
pub fn mime_for_path(path: &[u8]) -> (r: &'static str)
    ensures
        r@ == mime_of(path@),
{
    match file_kind(path) {
        Some(FileKind::Html) => "text/html; charset=utf-8",
        Some(FileKind::Css) => "text/css; charset=utf-8",
        // Nothing else passes the allow-list.
        None => "application/octet-stream",
    }
}

/// The case of an extension's letters does not matter.
pub proof fn extension_case_is_ignored(a: Seq<u8>, b: Seq<u8>)
    requires
        extension_of(a) is Some,
        extension_of(b) is Some,
        text::lowered(extension_of(a)->Some_0) == text::lowered(extension_of(b)->Some_0),
    ensures
        kind_of(a) == kind_of(b),
        mime_of(a) == mime_of(b),
{
}

/// A name between slashes is one component; an empty one and `.` are none.
pub proof fn a_name_is_one_component(name: Seq<u8>)
    requires
        !name.contains(0x2f),
    ensures
        named_parts(name) == (if name.len() == 0 || name == seq![0x2eu8] {
            Seq::<Part>::empty()
        } else if name == seq![0x2eu8, 0x2eu8] {
            seq![Part::ParentDir]
        } else {
            seq![Part::Normal(name)]
        }),
{
    let n = name.len() as int;
    assert forall|i: int| 0 <= i < n implies name[i] != 0x2f by {
        assert(name.contains(name[i]));
    }
    lemma_segment_len(name, n);
    assert(name.take(n) =~= name);
    assert(after_segment(name) =~= Seq::<u8>::empty());
    assert(named_parts(Seq::<u8>::empty()) =~= Seq::<Part>::empty());
    assert(named_parts(name) =~= segment_part(name) || n == 0);
}

/// A path that starts with a slash starts at the root, and one that starts with a `.` of its own at
/// the current directory; in either case its names follow.
pub proof fn a_path_starts_where_it_says(rest: Seq<u8>)
    ensures
        path_parts(seq![0x2fu8] + rest) == seq![Part::RootDir] + named_parts(rest),
        path_parts(seq![0x2eu8, 0x2fu8] + rest) == seq![Part::CurDir] + named_parts(rest),
        path_parts(seq![0x2eu8]) == seq![Part::CurDir],
{
    let none = Seq::<u8>::empty();
    assert(named_parts(none) =~= Seq::<Part>::empty());
    let absolute = seq![0x2fu8] + rest;
    assert(absolute =~= none + seq![0x2fu8] + rest);
    named_parts_across_a_slash(none, rest);
    assert(named_parts(absolute) =~= named_parts(rest));
    assert(path_parts(absolute) =~= seq![Part::RootDir] + named_parts(rest));
    let dot = seq![0x2eu8];
    let relative = seq![0x2eu8, 0x2fu8] + rest;
    assert(relative =~= dot + seq![0x2fu8] + rest);
    named_parts_across_a_slash(dot, rest);
    assert(!dot.contains(0x2f));
    a_name_is_one_component(dot);
    assert(named_parts(relative) =~= named_parts(rest));
    lemma_segment_len(relative, 1);
    assert(relative.take(1) =~= dot);
    assert(path_parts(relative) =~= seq![Part::CurDir] + named_parts(rest));
    lemma_segment_len(dot, 1);
    assert(dot.take(1) =~= dot);
    assert(path_parts(dot) =~= seq![Part::CurDir]);
}

/// A path that starts with a name has no components but its names.
pub proof fn a_relative_path_is_its_names(name: Seq<u8>, rest: Seq<u8>)
    requires
        name.len() > 0,
        !name.contains(0x2f),
        name != seq![0x2eu8],
    ensures
        path_parts(name) == named_parts(name),
        path_parts(name + seq![0x2fu8] + rest) == named_parts(name) + named_parts(rest),
{
    assert forall|i: int| 0 <= i < name.len() implies name[i] != 0x2f by {
        assert(name.contains(name[i]));
    }
    let n = name.len() as int;
    lemma_segment_len(name, n);
    assert(name.take(n) =~= name);
    assert(path_parts(name) =~= named_parts(name));
    let whole = name + seq![0x2fu8] + rest;
    assert forall|i: int| 0 <= i < n implies whole[i] != 0x2f by {
        assert(whole[i] == name[i]);
    }
    lemma_segment_len(whole, n);
    assert(whole.take(n) =~= name);
    assert(whole[0] == name[0]);
    named_parts_across_a_slash(name, rest);
    assert(path_parts(whole) =~= named_parts(whole));
}

/// A name that a directory can hold: not empty, without a slash, and neither `.` nor `..`.
pub open spec fn is_ordinary(name: Seq<u8>) -> bool {
    &&& name.len() > 0
    &&& !name.contains(0x2f)
    &&& name != seq![0x2eu8]
    &&& name != seq![0x2eu8, 0x2eu8]
}

/// Whether all of these names are ordinary.
pub open spec fn all_ordinary(names: Seq<Seq<u8>>) -> bool {
    forall|i: int| 0 <= i < names.len() ==> is_ordinary(#[trigger] names[i])
}

/// The names of a path, each with a slash before it.
pub open spec fn slashed(names: Seq<Seq<u8>>) -> Seq<u8>
    decreases names.len(),
{
    if names.len() == 0 {
        Seq::empty()
    } else {
        slashed(names.drop_last()) + seq![0x2fu8] + names.last()
    }
}

/// The canonical path that leads from the root through these names.
pub open spec fn canonical_path(names: Seq<Seq<u8>>) -> Seq<u8> {
    if names.len() == 0 {
        seq![0x2fu8]
    } else {
        slashed(names)
    }
}

proof fn lemma_slashed(names: Seq<Seq<u8>>)
    requires
        all_ordinary(names),
    ensures
        named_parts(slashed(names)) == names.map_values(|n: Seq<u8>| Part::Normal(n)),
        names.len() > 0 ==> slashed(names).len() > 0 && slashed(names)[0] == 0x2f,
    decreases names.len(),
{
    let parts = names.map_values(|n: Seq<u8>| Part::Normal(n));
    if names.len() == 0 {
        assert(named_parts(slashed(names)) =~= parts);
    } else {
        let before = names.drop_last();
        assert forall|i: int| 0 <= i < before.len() implies is_ordinary(#[trigger] before[i]) by {
            assert(before[i] == names[i]);
        }
        lemma_slashed(before);
        assert(is_ordinary(names.last()));
        named_parts_across_a_slash(slashed(before), names.last());
        a_name_is_one_component(names.last());
        assert(named_parts(slashed(names)) =~= parts);
        if before.len() > 0 {
            assert(slashed(names)[0] == slashed(before)[0]);
        } else {
            assert(slashed(names)[0] == 0x2f);
        }
    }
}

/// The components of a canonical path are the root and then its names, each whole and unchanged.
pub proof fn a_canonical_path_is_its_names(names: Seq<Seq<u8>>)
    requires
        all_ordinary(names),
    ensures
        path_parts(canonical_path(names)) == seq![Part::RootDir] + names.map_values(
            |n: Seq<u8>| Part::Normal(n),
        ),
{
    let parts = names.map_values(|n: Seq<u8>| Part::Normal(n));
    lemma_slashed(names);
    if names.len() == 0 {
        let none = Seq::<u8>::empty();
        a_path_starts_where_it_says(none);
        assert(seq![0x2fu8] + none =~= canonical_path(names));
        assert(named_parts(none) =~= parts);
    } else {
        assert(path_parts(slashed(names)) =~= seq![Part::RootDir] + parts);
    }
}

/// The jail: a canonical path leads through another exactly where the names of the other are its
/// first names.
pub proof fn paths_are_compared_name_by_name(path: Seq<Seq<u8>>, root: Seq<Seq<u8>>)
    requires
        all_ordinary(path),
        all_ordinary(root),
    ensures
        is_under(canonical_path(path), canonical_path(root)) <==> root.is_prefix_of(path),
{
    a_canonical_path_is_its_names(path);
    a_canonical_path_is_its_names(root);
    let p = path_parts(canonical_path(path));
    let r = path_parts(canonical_path(root));
    assert forall|i: int| 0 <= i < path.len() implies p[i + 1] == Part::Normal(
        #[trigger] path[i],
    ) by {}
    assert forall|i: int| 0 <= i < root.len() implies r[i + 1] == Part::Normal(
        #[trigger] root[i],
    ) by {}
    if root.is_prefix_of(path) {
        assert forall|i: int| 0 <= i < r.len() implies p[i] == r[i] by {
            if i > 0 {
                assert(root[i - 1] == path.subrange(0, root.len() as int)[i - 1]);
                assert(r[i] == Part::Normal(root[i - 1]));
                assert(p[i] == Part::Normal(path[i - 1]));
            }
        }
        assert(p.subrange(0, r.len() as int) =~= r);
    }
    if r.is_prefix_of(p) {
        assert forall|i: int| 0 <= i < root.len() implies path[i] == root[i] by {
            assert(r[i + 1] == p.subrange(0, r.len() as int)[i + 1]);
            assert(r[i + 1] == Part::Normal(root[i]));
            assert(p[i + 1] == Part::Normal(path[i]));
        }
        assert(path.subrange(0, root.len() as int) =~= root);
    }
}

/// Whether a byte string spells a word, given in lower and in upper case, in any mixture of the two.
pub open spec fn spells(s: Seq<u8>, low: Seq<char>, high: Seq<char>) -> bool {
    &&& s.len() == low.len()
    &&& forall|i: int|
        0 <= i < s.len() ==> (#[trigger] s[i]) as u32 == low[i] as u32 || s[i] as u32
            == high[i] as u32
}

proof fn lemma_last_dot(name: Seq<u8>, k: int)
    requires
        -1 <= k < name.len(),
        k >= 0 ==> name[k] == 0x2e,
        forall|i: int| k < i < name.len() ==> name[i] != 0x2e,
    ensures
        last_dot(name) == k,
    decreases name.len(),
{
    if name.len() > 0 && k < name.len() - 1 {
        lemma_last_dot(name.drop_last(), k);
    }
}

proof fn lemma_file_name(dir: Seq<u8>, name: Seq<u8>)
    requires
        !name.contains(0x2f),
        name.len() > 0,
        name != seq![0x2eu8],
    ensures
        file_name_of(dir + seq![0x2fu8] + name) == (if name == seq![0x2eu8, 0x2eu8] {
            None::<Seq<u8>>
        } else {
            Some(name)
        }),
{
    let p = dir + seq![0x2fu8] + name;
    named_parts_across_a_slash(dir, name);
    a_name_is_one_component(name);
    assert(path_parts(p).last() == named_parts(name)[0]);
}

proof fn lemma_spelled(ext: Seq<u8>)
    ensures
        text::lowered(ext) == encode_utf8("html"@) <==> spells(ext, "html"@, "HTML"@),
        text::lowered(ext) == encode_utf8("css"@) <==> spells(ext, "css"@, "CSS"@),
{
    reveal_strlit("html");
    reveal_strlit("HTML");
    reveal_strlit("css");
    reveal_strlit("CSS");
    assert(is_ascii_chars("html"@));
    assert(is_ascii_chars("css"@));
    is_ascii_chars_encode_utf8("html"@);
    is_ascii_chars_encode_utf8("css"@);
    let html = encode_utf8("html"@);
    let css = encode_utf8("css"@);
    assert(html =~= seq![0x68u8, 0x74, 0x6d, 0x6c]);
    assert(css =~= seq![0x63u8, 0x73, 0x73]);
    let low = text::lowered(ext);
    if low == html {
        assert(ext.len() == 4);
        assert(low[0] == 0x68 && low[1] == 0x74 && low[2] == 0x6d && low[3] == 0x6c);
        assert forall|i: int| 0 <= i < ext.len() implies (#[trigger] ext[i]) as u32
            == "html"@[i] as u32 || ext[i] as u32 == "HTML"@[i] as u32 by {
            assert(i == 0 || i == 1 || i == 2 || i == 3);
        }
    }
    if spells(ext, "html"@, "HTML"@) {
        assert(ext[0] == 0x68 || ext[0] == 0x48);
        assert(ext[1] == 0x74 || ext[1] == 0x54);
        assert(ext[2] == 0x6d || ext[2] == 0x4d);
        assert(ext[3] == 0x6c || ext[3] == 0x4c);
        assert(low =~= html);
    }
    if low == css {
        assert(ext.len() == 3);
        assert(low[0] == 0x63 && low[1] == 0x73 && low[2] == 0x73);
        assert forall|i: int| 0 <= i < ext.len() implies (#[trigger] ext[i]) as u32
            == "css"@[i] as u32 || ext[i] as u32 == "CSS"@[i] as u32 by {
            assert(i == 0 || i == 1 || i == 2);
        }
    }
    if spells(ext, "css"@, "CSS"@) {
        assert(ext[0] == 0x63 || ext[0] == 0x43);
        assert(ext[1] == 0x73 || ext[1] == 0x53);
        assert(ext[2] == 0x73 || ext[2] == 0x53);
        assert(low =~= css);
    }
}

/// A file is of the kind, and has the media type, that the letters after the last `.` of its name
/// spell, in either case. `stem` is what stands before that `.`: not nothing.
pub proof fn a_file_is_what_its_extension_says(dir: Seq<u8>, stem: Seq<u8>, ext: Seq<u8>)
    requires
        stem.len() > 0,
        !stem.contains(0x2f),
        !ext.contains(0x2f),
        !ext.contains(0x2e),
    ensures
        ({
            let path = dir + seq![0x2fu8] + (stem + seq![0x2eu8] + ext);
            &&& kind_of(path) == Some(FileKind::Html) <==> spells(ext, "html"@, "HTML"@)
            &&& kind_of(path) == Some(FileKind::Css) <==> spells(ext, "css"@, "CSS"@)
            &&& spells(ext, "html"@, "HTML"@) ==> mime_of(path) == "text/html; charset=utf-8"@
            &&& spells(ext, "css"@, "CSS"@) ==> mime_of(path) == "text/css; charset=utf-8"@
        }),
{
    let name = stem + seq![0x2eu8] + ext;
    let path = dir + seq![0x2fu8] + name;
    assert(!name.contains(0x2f)) by {
        if name.contains(0x2f) {
            let i = choose|i: int| 0 <= i < name.len() && name[i] == 0x2f;
            if i < stem.len() {
                assert(stem[i] == 0x2f);
            } else {
                assert(ext[i - stem.len() - 1] == 0x2f);
            }
        }
    }
    assert(name.len() >= 2);
    lemma_file_name(dir, name);
    assert forall|i: int| stem.len() < i < name.len() implies name[i] != 0x2e by {
        assert(name[i] == ext[i - stem.len() - 1]);
        assert(ext.contains(ext[i - stem.len() - 1]));
    }
    lemma_last_dot(name, stem.len() as int);
    assert(name.skip(stem.len() as int + 1) =~= ext);
    lemma_spelled(ext);
    reveal_strlit("html");
    reveal_strlit("css");
    if name == seq![0x2eu8, 0x2eu8] {
        assert(ext.len() == 0);
    } else {
        assert(extension_of(path) == Some(ext));
    }
    if spells(ext, "css"@, "CSS"@) {
        assert(!spells(ext, "html"@, "HTML"@));
    }
}

/// A file whose name holds no `.`, or none but at its start, is of no kind that is served.
pub proof fn a_file_without_an_extension_is_of_no_kind(dir: Seq<u8>, name: Seq<u8>)
    requires
        is_ordinary(name),
        forall|i: int| 1 <= i < name.len() ==> name[i] != 0x2e,
    ensures
        kind_of(dir + seq![0x2fu8] + name) is None,
{
    lemma_file_name(dir, name);
    if name[0] == 0x2e {
        lemma_last_dot(name, 0);
    } else {
        lemma_last_dot(name, -1);
    }
}

/// What follows the last `.` of a file's name is its extension, whole and unchanged, unless nothing
/// stands before that `.`.
pub proof fn the_extension_follows_the_last_dot(dir: Seq<u8>, stem: Seq<u8>, ext: Seq<u8>)
    requires
        stem.len() > 0,
        !stem.contains(0x2f),
        !ext.contains(0x2f),
        !ext.contains(0x2e),
        stem + seq![0x2eu8] + ext != seq![0x2eu8, 0x2eu8],
    ensures
        extension_of(dir + seq![0x2fu8] + (stem + seq![0x2eu8] + ext)) == Some(ext),
{
    let name = stem + seq![0x2eu8] + ext;
    assert(!name.contains(0x2f)) by {
        if name.contains(0x2f) {
            let i = choose|i: int| 0 <= i < name.len() && name[i] == 0x2f;
            if i < stem.len() {
                assert(stem[i] == 0x2f);
            } else {
                assert(ext[i - stem.len() - 1] == 0x2f);
            }
        }
    }
    assert(name.len() >= 2);
    lemma_file_name(dir, name);
    assert forall|i: int| stem.len() < i < name.len() implies name[i] != 0x2e by {
        assert(name[i] == ext[i - stem.len() - 1]);
        assert(ext.contains(ext[i - stem.len() - 1]));
    }
    lemma_last_dot(name, stem.len() as int);
    assert(name.skip(stem.len() as int + 1) =~= ext);
}

/// What is of no kind that is served has the media type of mere bytes.
pub proof fn other_files_are_mere_bytes(path: Seq<u8>)
    requires
        kind_of(path) is None,
    ensures
        mime_of(path) == "application/octet-stream"@,
{
}

/// A list of components stands for each of them, in order, and a name for its bytes.
pub proof fn every_component_is_there(v: Seq<Component>, i: int)
    requires
        0 <= i < v.len(),
    ensures
        parts(v).len() == v.len(),
        match v[i] {
            Component::RootDir => parts(v)[i] is RootDir,
            Component::CurDir => parts(v)[i] is CurDir,
            Component::ParentDir => parts(v)[i] is ParentDir,
            Component::Normal(name) => parts(v)[i] == Part::Normal(name@),
        },
{
}

} // verus!
