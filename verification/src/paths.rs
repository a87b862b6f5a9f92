//! Paths as text.
//!
//! A path is a string whose segments are separated by `/`. A path that
//! begins with `/` is absolute, and the root is its first component. Empty
//! segments carry no meaning, and neither does the segment `.`, unless it
//! begins a relative path: `a//b/./c/` and `a/b/c` name the same place,
//! `./a` and `a` do not. Two paths are only ever compared component by
//! component: `/a/bc` is not inside `/a/b`. This is how `std::path` reads
//! paths on Unix.
//!
//! Where two paths are asked to lead to the same place, they are compared
//! in their normal form, in which every `.` and `..` is resolved: `/a/b/../c`
//! and `/a/c` lead to one place. Nothing is looked up on disk for that.

use vstd::prelude::*;
use vstd::string::*;
use crate::text::chars_of;

verus! {

/// The character that separates the segments of a path.
pub open spec fn separator() -> char {
    '/'
}

/// A path is absolute when it begins with the separator.
pub open spec fn is_absolute_spec(path: Seq<char>) -> bool {
    path.len() > 0 && path[0] == separator()
}

/// The segment `.`, which stands for the directory itself.
pub open spec fn is_dot(segment: Seq<char>) -> bool {
    segment.len() == 1 && segment[0] == '.'
}

/// The component that stands for the root of an absolute path.
pub open spec fn root() -> Seq<char> {
    seq![separator()]
}

/// Whether a component is the root.
pub open spec fn is_root(segment: Seq<char>) -> bool {
    segment.len() == 1 && segment[0] == separator()
}

/// Whether a segment counts as a component, given the components before it.
/// An empty segment never counts. The segment `.` counts only where nothing
/// comes before it, that is, where it begins a relative path.
pub open spec fn counts(before: Seq<Seq<char>>, segment: Seq<char>) -> bool {
    segment.len() > 0 && (!is_dot(segment) || before.len() == 0)
}

/// Reads `path` from the left: the components that a separator has closed so
/// far, and the segment that is still open at the end.
pub open spec fn scan(path: Seq<char>) -> (Seq<Seq<char>>, Seq<char>)
    decreases path.len(),
{
    if path.len() == 0 {
        (Seq::empty(), Seq::empty())
    } else {
        let (closed, open) = scan(path.drop_last());
        if path.last() == separator() {
            if path.len() == 1 {
                (seq![root()], Seq::empty())
            } else if counts(closed, open) {
                (closed.push(open), Seq::empty())
            } else {
                (closed, Seq::empty())
            }
        } else {
            (closed, open.push(path.last()))
        }
    }
}

/// The components of a path, in order, the root first where the path is
/// absolute.
pub open spec fn components(path: Seq<char>) -> Seq<Seq<char>> {
    let (closed, open) = scan(path);
    if counts(closed, open) {
        closed.push(open)
    } else {
        closed
    }
}

/// `path` lies at or below `base`: the components of `base` begin those of
/// `path`.
pub open spec fn within(path: Seq<char>, base: Seq<char>) -> bool {
    components(base).is_prefix_of(components(path))
}

/// Two paths name the same place: they have the same components.
pub open spec fn same_path_spec(a: Seq<char>, b: Seq<char>) -> bool {
    components(a) == components(b)
}

/// `name` appended to `base`. An absolute `name` replaces `base`; otherwise a
/// separator is put between the two unless `base` is empty or ends with one.
pub open spec fn join_spec(base: Seq<char>, name: Seq<char>) -> Seq<char> {
    if is_absolute_spec(name) {
        name
    } else if base.len() == 0 || base.last() == separator() {
        base + name
    } else {
        base + seq![separator()] + name
    }
}

/// A path made absolute: itself if it already is, else taken below `cwd`.
pub open spec fn absolute_spec(path: Seq<char>, cwd: Seq<char>) -> Seq<char> {
    if is_absolute_spec(path) {
        path
    } else {
        join_spec(cwd, path)
    }
}

/// The segment `..`, which stands for the directory above.
pub open spec fn is_parent_mark(segment: Seq<char>) -> bool {
    segment.len() == 2 && segment[0] == '.' && segment[1] == '.'
}

/// The components of a path once every `.` and `..` among them is resolved.
/// A `.` is left out. A `..` goes together with the component before it;
/// at the root it stays put; where nothing comes before it, or only other
/// `..`, it is kept, since a relative path may climb above where it starts.
pub open spec fn resolved(parts: Seq<Seq<char>>) -> Seq<Seq<char>>
    decreases parts.len(),
{
    if parts.len() == 0 {
        parts
    } else {
        let before = resolved(parts.drop_last());
        let part = parts.last();
        if is_dot(part) {
            before
        } else if is_parent_mark(part) {
            if before.len() == 0 || is_parent_mark(before.last()) {
                before.push(part)
            } else if is_root(before.last()) {
                before
            } else {
                before.drop_last()
            }
        } else {
            before.push(part)
        }
    }
}

/// A path in its normal form: its components with every `.` and `..`
/// resolved.
pub open spec fn normalized(path: Seq<char>) -> Seq<Seq<char>> {
    resolved(components(path))
}

/// Two paths lead to the same place: they have the same normal form.
pub open spec fn same_place_spec(a: Seq<char>, b: Seq<char>) -> bool {
    normalized(a) == normalized(b)
}

/// The final component of a path, unless there is none or it is the root,
/// `.` or `..`.
pub open spec fn file_name_spec(path: Seq<char>) -> Option<Seq<char>> {
    let parts = components(path);
    if parts.len() > 0 && !is_root(parts.last()) && !is_parent_mark(parts.last()) && !is_dot(
        parts.last(),
    ) {
        Some(parts.last())
    } else {
        None
    }
}

/// The position of the last dot in `name`, or -1 where it holds none.
pub open spec fn last_dot(name: Seq<char>) -> int
    decreases name.len(),
{
    if name.len() == 0 {
        -1
    } else if name.last() == '.' {
        name.len() - 1
    } else {
        last_dot(name.drop_last())
    }
}

/// The extension of a path: what follows the last dot of its file name. There
/// is none where the path has no file name, the name holds no dot, or its only
/// dot is its first character.
pub open spec fn extension_spec(path: Seq<char>) -> Option<Seq<char>> {
    match file_name_spec(path) {
        None => None,
        Some(name) => {
            let dot = last_dot(name);
            if dot <= 0 {
                None
            } else {
                Some(name.subrange(dot + 1, name.len() as int))
            }
        },
    }
}

/// A name that can stand for an entry of a directory: not empty, not the
/// single dot, and free of separators.
pub open spec fn is_plain_name(name: Seq<char>) -> bool {
    &&& name.len() > 0
    &&& !is_dot(name)
    &&& forall|i: int| 0 <= i < name.len() ==> name[i] != separator()
}

/// The pieces of `text` that the index pairs in `ranges` cut out.
pub open spec fn cut(text: Seq<char>, ranges: Seq<(usize, usize)>) -> Seq<Seq<char>> {
    Seq::new(ranges.len(), |i: int| text.subrange(ranges[i].0 as int, ranges[i].1 as int))
}

/// Every pair in `ranges` is a range inside a text of length `len`.
pub open spec fn ranges_fit(ranges: Seq<(usize, usize)>, len: nat) -> bool {
    forall|i: int| 0 <= i < ranges.len() ==> (#[trigger] ranges[i]).0 <= ranges[i].1 <= len
}

/// Whether `path` is absolute.
pub fn is_absolute(path: &str) -> (absolute: bool)
    ensures
        absolute == is_absolute_spec(path@),
{
    let chars = chars_of(path);
    chars.len() > 0 && chars[0] == '/'
}

/// Whether the characters `text[from..to]` count as a component, given
/// whether any component came before.
fn range_counts(text: &Vec<char>, from: usize, to: usize, first: bool) -> (yes: bool)
    requires
        from <= to <= text.len(),
    ensures
        forall|before: Seq<Seq<char>>|
            first == (before.len() == 0) ==> yes == counts(
                before,
                text@.subrange(from as int, to as int),
            ),
{
    if to == from {
        false
    } else if to - from == 1 && text[from] == '.' {
        first
    } else {
        true
    }
}

/// Where the components of `text` begin and end.
pub fn component_ranges(text: &Vec<char>) -> (ranges: Vec<(usize, usize)>)
    ensures
        ranges_fit(ranges@, text@.len()),
        cut(text@, ranges@) == components(text@),
{
    let mut ranges: Vec<(usize, usize)> = Vec::new();
    let mut start: usize = 0;
    let mut i: usize = 0;
    while i < text.len()
        invariant
            start <= i <= text.len(),
            ranges_fit(ranges@, text@.len()),
            scan(text@.take(i as int)) == (
                cut(text@, ranges@),
                text@.subrange(start as int, i as int),
            ),
        decreases text.len() - i,
    {
        let ghost closed = cut(text@, ranges@);
        assert(text@.take(i + 1).drop_last() =~= text@.take(i as int));
        if text[i] == '/' {
            if i == 0 {
                ranges.push((0, 1));
                assert(cut(text@, ranges@) =~= seq![root()]) by {
                    assert(text@.subrange(0, 1) =~= root());
                }
            } else if range_counts(text, start, i, ranges.len() == 0) {
                ranges.push((start, i));
                assert(cut(text@, ranges@) =~= closed.push(text@.subrange(start as int, i as int)));
            }
            start = i + 1;
            assert(text@.subrange(start as int, i + 1) =~= Seq::<char>::empty());
        } else {
            assert(text@.subrange(start as int, i + 1) =~= text@.subrange(
                start as int,
                i as int,
            ).push(text@[i as int]));
        }
        i += 1;
    }
    let ghost closed = cut(text@, ranges@);
    assert(text@.take(text@.len() as int) =~= text@);
    if range_counts(text, start, i, ranges.len() == 0) {
        ranges.push((start, i));
        assert(cut(text@, ranges@) =~= closed.push(text@.subrange(start as int, i as int)));
    }
    ranges
}

/// Whether two pieces of text, each given by a range, are equal.
fn same_piece(a: &Vec<char>, ra: (usize, usize), b: &Vec<char>, rb: (usize, usize)) -> (same: bool)
    requires
        ra.0 <= ra.1 <= a.len(),
        rb.0 <= rb.1 <= b.len(),
    ensures
        same == (a@.subrange(ra.0 as int, ra.1 as int) == b@.subrange(rb.0 as int, rb.1 as int)),
{
    let ghost left = a@.subrange(ra.0 as int, ra.1 as int);
    let ghost right = b@.subrange(rb.0 as int, rb.1 as int);
    let len: usize = ra.1 - ra.0;
    if rb.1 - rb.0 != len {
        assert(left.len() != right.len());
        return false;
    }
    let mut k: usize = 0;
    while k < len
        invariant
            ra.0 <= ra.1 <= a.len(),
            rb.0 <= rb.1 <= b.len(),
            len == ra.1 - ra.0,
            len == rb.1 - rb.0,
            k <= len,
            left == a@.subrange(ra.0 as int, ra.1 as int),
            right == b@.subrange(rb.0 as int, rb.1 as int),
            forall|j: int| 0 <= j < k ==> left[j] == right[j],
        decreases len - k,
    {
        if a[ra.0 + k] != b[rb.0 + k] {
            assert(left[k as int] != right[k as int]);
            return false;
        }
        k += 1;
    }
    assert(left =~= right);
    true
}

/// Whether the first `count` components of two texts agree.
fn same_leading(
    a: &Vec<char>,
    ra: &Vec<(usize, usize)>,
    b: &Vec<char>,
    rb: &Vec<(usize, usize)>,
    count: usize,
) -> (same: bool)
    requires
        ranges_fit(ra@, a@.len()),
        ranges_fit(rb@, b@.len()),
        count <= ra.len(),
        count <= rb.len(),
    ensures
        same == (cut(a@, ra@).subrange(0, count as int) == cut(b@, rb@).subrange(
            0,
            count as int,
        )),
{
    let ghost left = cut(a@, ra@).subrange(0, count as int);
    let ghost right = cut(b@, rb@).subrange(0, count as int);
    let mut k: usize = 0;
    while k < count
        invariant
            ranges_fit(ra@, a@.len()),
            ranges_fit(rb@, b@.len()),
            count <= ra.len(),
            count <= rb.len(),
            k <= count,
            left == cut(a@, ra@).subrange(0, count as int),
            right == cut(b@, rb@).subrange(0, count as int),
            forall|j: int| 0 <= j < k ==> left[j] == right[j],
        decreases count - k,
    {
        if !same_piece(a, ra[k], b, rb[k]) {
            assert(left[k as int] != right[k as int]);
            return false;
        }
        k += 1;
    }
    assert(left =~= right);
    true
}

/// Whether `path` lies at or below `base`, compared component by component.
pub fn starts_with(path: &str, base: &str) -> (inside: bool)
    ensures
        inside == within(path@, base@),
{
    let path_text = chars_of(path);
    let base_text = chars_of(base);
    let path_ranges = component_ranges(&path_text);
    let base_ranges = component_ranges(&base_text);
    if base_ranges.len() > path_ranges.len() {
        return false;
    }
    let same = same_leading(&base_text, &base_ranges, &path_text, &path_ranges, base_ranges.len());
    assert(components(base@).subrange(0, base_ranges.len() as int) =~= components(base@));
    same
}

/// Whether two paths name the same place.
pub fn same_path(a: &str, b: &str) -> (same: bool)
    ensures
        same == same_path_spec(a@, b@),
{
    let a_text = chars_of(a);
    let b_text = chars_of(b);
    let a_ranges = component_ranges(&a_text);
    let b_ranges = component_ranges(&b_text);
    if a_ranges.len() != b_ranges.len() {
        assert(cut(a_text@, a_ranges@).len() != cut(b_text@, b_ranges@).len());
        return false;
    }
    let same = same_leading(&a_text, &a_ranges, &b_text, &b_ranges, a_ranges.len());
    assert(components(a@).subrange(0, a_ranges.len() as int) =~= components(a@));
    assert(components(b@).subrange(0, b_ranges.len() as int) =~= components(b@));
    same
}

/// What kind of component the characters `text[from..to]` are.
fn range_is_dot(text: &Vec<char>, range: (usize, usize)) -> (yes: bool)
    requires
        range.0 <= range.1 <= text.len(),
    ensures
        yes == is_dot(text@.subrange(range.0 as int, range.1 as int)),
{
    range.1 - range.0 == 1 && text[range.0] == '.'
}

/// Whether the characters `text[from..to]` are the segment `..`.
fn range_is_parent_mark(text: &Vec<char>, range: (usize, usize)) -> (yes: bool)
    requires
        range.0 <= range.1 <= text.len(),
    ensures
        yes == is_parent_mark(text@.subrange(range.0 as int, range.1 as int)),
{
    range.1 - range.0 == 2 && text[range.0] == '.' && text[range.0 + 1] == '.'
}

/// Whether the characters `text[from..to]` are the root.
fn range_is_root(text: &Vec<char>, range: (usize, usize)) -> (yes: bool)
    requires
        range.0 <= range.1 <= text.len(),
    ensures
        yes == is_root(text@.subrange(range.0 as int, range.1 as int)),
{
    range.1 - range.0 == 1 && text[range.0] == '/'
}

/// Where the components of `text` begin and end once every `.` and `..`
/// among them is resolved.
pub fn normalized_ranges(text: &Vec<char>) -> (ranges: Vec<(usize, usize)>)
    ensures
        ranges_fit(ranges@, text@.len()),
        cut(text@, ranges@) == normalized(text@),
{
    let parts = component_ranges(text);
    let ghost all = cut(text@, parts@);
    let mut ranges: Vec<(usize, usize)> = Vec::new();
    let mut i: usize = 0;
    assert(cut(text@, ranges@) =~= resolved(all.take(0)));
    while i < parts.len()
        invariant
            i <= parts.len(),
            all == cut(text@, parts@),
            ranges_fit(parts@, text@.len()),
            ranges_fit(ranges@, text@.len()),
            cut(text@, ranges@) == resolved(all.take(i as int)),
        decreases parts.len() - i,
    {
        let part = parts[i];
        let ghost before = cut(text@, ranges@);
        assert(all.take(i + 1).drop_last() =~= all.take(i as int));
        assert(all.take(i + 1).last() == text@.subrange(part.0 as int, part.1 as int));
        if range_is_dot(text, part) {
        } else if range_is_parent_mark(text, part) {
            if ranges.len() == 0 || range_is_parent_mark(text, ranges[ranges.len() - 1]) {
                ranges.push(part);
                assert(cut(text@, ranges@) =~= before.push(all[i as int]));
            } else if range_is_root(text, ranges[ranges.len() - 1]) {
            } else {
                ranges.pop();
                assert(cut(text@, ranges@) =~= before.drop_last());
            }
        } else {
            ranges.push(part);
            assert(cut(text@, ranges@) =~= before.push(all[i as int]));
        }
        i += 1;
    }
    assert(all.take(i as int) =~= all);
    ranges
}

/// Whether two paths lead to the same place, every `.` and `..` resolved.
pub fn same_place(a: &str, b: &str) -> (same: bool)
    ensures
        same == same_place_spec(a@, b@),
{
    let a_text = chars_of(a);
    let b_text = chars_of(b);
    let a_ranges = normalized_ranges(&a_text);
    let b_ranges = normalized_ranges(&b_text);
    if a_ranges.len() != b_ranges.len() {
        assert(cut(a_text@, a_ranges@).len() != cut(b_text@, b_ranges@).len());
        return false;
    }
    let same = same_leading(&a_text, &a_ranges, &b_text, &b_ranges, a_ranges.len());
    assert(normalized(a@).subrange(0, a_ranges.len() as int) =~= normalized(a@));
    assert(normalized(b@).subrange(0, b_ranges.len() as int) =~= normalized(b@));
    same
}

/// `name` appended to `base`.
pub fn join(base: &str, name: &str) -> (joined: String)
    ensures
        joined@ == join_spec(base@, name@),
{
    let base_text = chars_of(base);
    let name_text = chars_of(name);
    if name_text.len() > 0 && name_text[0] == '/' {
        return String::from_str(name);
    }
    let mut joined = String::from_str(base);
    if base_text.len() > 0 && base_text[base_text.len() - 1] != '/' {
        proof {
            reveal_strlit("/");
        }
        joined.append("/");
    }
    joined.append(name);
    joined
}

/// `path` made absolute below `cwd`.
pub fn absolute(path: &str, cwd: &str) -> (out: String)
    ensures
        out@ == absolute_spec(path@, cwd@),
{
    if is_absolute(path) {
        String::from_str(path)
    } else {
        join(cwd, path)
    }
}

/// The final component of `path`, unless there is none or it is `..`.
pub fn file_name(path: &str) -> (name: Option<String>)
    ensures
        name is Some == file_name_spec(path@) is Some,
        name matches Some(n) ==> file_name_spec(path@) == Some(n@),
{
    let text = chars_of(path);
    let ranges = component_ranges(&text);
    if ranges.len() == 0 {
        return None;
    }
    let (from, to) = ranges[ranges.len() - 1];
    assert(components(path@).last() == text@.subrange(from as int, to as int));
    if to - from == 2 && text[from] == '.' && text[from + 1] == '.' {
        return None;
    }
    if to - from == 1 && (text[from] == '.' || text[from] == '/') {
        return None;
    }
    Some(String::from_str(path.substring_char(from, to)))
}

/// The extension of `path`: what follows the last dot of its file name.
pub fn extension(path: &str) -> (ext: Option<String>)
    ensures
        ext is Some == extension_spec(path@) is Some,
        ext matches Some(e) ==> extension_spec(path@) == Some(e@),
{
    let name = match file_name(path) {
        None => {
            return None;
        },
        Some(name) => name,
    };
    let text = chars_of(name.as_str());
    let mut at: usize = text.len();
    while at > 0 && text[at - 1] != '.'
        invariant
            at <= text.len(),
            forall|j: int| at <= j < text.len() ==> text@[j] != '.',
        decreases at,
    {
        at -= 1;
    }
    if at == 0 {
        proof {
            lemma_last_dot_none(text@);
        }
        return None;
    }
    proof {
        lemma_last_dot_is(text@, at - 1);
    }
    if at == 1 {
        return None;
    }
    Some(String::from_str(name.as_str().substring_char(at, text.len())))
}

/// Reading on after a point where no segment is open: a tail without
/// separators becomes the open segment, and nothing else changes.
proof fn lemma_scan_tail(prefix: Seq<char>, tail: Seq<char>)
    requires
        scan(prefix).1.len() == 0,
        forall|i: int| 0 <= i < tail.len() ==> tail[i] != separator(),
    ensures
        scan(prefix + tail) == (scan(prefix).0, tail),
    decreases tail.len(),
{
    if tail.len() > 0 {
        assert((prefix + tail).drop_last() =~= prefix + tail.drop_last());
        lemma_scan_tail(prefix, tail.drop_last());
        assert(tail.drop_last().push(tail.last()) =~= tail);
    } else {
        assert(prefix + tail =~= prefix);
        assert(scan(prefix).1 =~= tail);
    }
}

/// A path that is empty or ends with a separator has no open segment.
proof fn lemma_scan_closed(path: Seq<char>)
    requires
        path.len() == 0 || path.last() == separator(),
    ensures
        scan(path).1.len() == 0,
        scan(path).0 == components(path),
{
}

/// Reading on never takes back a component: the components that were closed
/// when `path` had been read still begin those that are closed when more has
/// been read.
proof fn lemma_scan_grows(path: Seq<char>, more: Seq<char>)
    ensures
        scan(path).0.is_prefix_of(scan(path + more).0),
    decreases more.len(),
{
    let start = scan(path).0;
    if more.len() == 0 {
        assert(path + more =~= path);
        assert(start.subrange(0, start.len() as int) =~= start);
    } else {
        let whole = path + more;
        assert(whole.drop_last() =~= path + more.drop_last());
        lemma_scan_grows(path, more.drop_last());
        let shorter = scan(whole.drop_last()).0;
        let longer = scan(whole).0;
        assert(shorter.is_prefix_of(longer)) by {
            assert(longer.subrange(0, shorter.len() as int) =~= shorter);
        }
        assert(longer.subrange(0, start.len() as int) =~= start);
    }
}

/// Joining a relative path to a path leaves the components of the path in
/// front: the joined path lies at or below the path it was joined to, and
/// is absolute exactly if that path is.
pub proof fn lemma_join_relative(base: Seq<char>, name: Seq<char>)
    requires
        !is_absolute_spec(name),
    ensures
        is_absolute_spec(join_spec(base, name)) == is_absolute_spec(base),
        within(join_spec(base, name), base),
{
    let joined = join_spec(base, name);
    let stem = if base.len() == 0 || base.last() == separator() {
        base
    } else {
        base + seq![separator()]
    };
    assert(joined =~= stem + name);
    assert(components(stem) == components(base) && scan(stem).1.len() == 0) by {
        if stem != base {
            assert(stem.drop_last() =~= base);
        }
    }
    lemma_scan_closed(stem);
    lemma_scan_grows(stem, name);
    let front = components(base);
    let reached = scan(joined).0;
    let all = components(joined);
    assert(front.is_prefix_of(all)) by {
        assert(all.subrange(0, reached.len() as int) =~= reached);
        assert(all.subrange(0, front.len() as int) =~= front);
    }
    if base.len() > 0 {
        assert(joined[0] == base[0]);
    }
}

/// A path is absolute exactly if the root is its first component, and the
/// root is no other component of any path.
pub proof fn lemma_absolute_has_root(path: Seq<char>)
    ensures
        is_absolute_spec(path) <==> components(path).len() > 0 && is_root(components(path)[0]),
        forall|i: int| 0 < i < components(path).len() ==> !is_root(components(path)[i]),
{
    lemma_root_only_in_front(path);
}

/// The root is the first of the closed components of an absolute path and
/// of no other path, it is closed nowhere else, and the open segment holds
/// no separator.
proof fn lemma_root_only_in_front(path: Seq<char>)
    ensures
        is_absolute_spec(path) <==> scan(path).0.len() > 0 && is_root(scan(path).0[0]),
        is_absolute_spec(path) ==> scan(path).0.len() > 0,
        forall|i: int| 0 < i < scan(path).0.len() ==> !is_root(scan(path).0[i]),
        forall|k: int| 0 <= k < scan(path).1.len() ==> scan(path).1[k] != separator(),
    decreases path.len(),
{
    if path.len() > 0 {
        let shorter = path.drop_last();
        lemma_root_only_in_front(shorter);
        if shorter.len() > 0 {
            assert(shorter[0] == path[0]);
        }
    }
}

/// A plain name is its own and only component.
pub proof fn lemma_plain_name_components(name: Seq<char>)
    requires
        is_plain_name(name),
    ensures
        components(name) == seq![name],
        !is_absolute_spec(name),
{
    lemma_scan_tail(Seq::empty(), name);
    assert(Seq::<char>::empty() + name =~= name);
    assert(Seq::<Seq<char>>::empty().push(name) =~= seq![name]);
}

/// Joining a plain name to a path adds the name as the last component and
/// leaves the others as they are. The joined path lies below the path that
/// the name was joined to, and the name is its file name, unless the name
/// is `..`.
pub proof fn lemma_join_plain_name(base: Seq<char>, name: Seq<char>)
    requires
        is_plain_name(name),
    ensures
        components(join_spec(base, name)) == components(base).push(name),
        within(join_spec(base, name), base),
        !is_parent_mark(name) ==> file_name_spec(join_spec(base, name)) == Some(name),
{
    let joined = join_spec(base, name);
    let stem = if base.len() == 0 || base.last() == separator() {
        base
    } else {
        base + seq![separator()]
    };
    assert(joined =~= stem + name);
    assert(components(stem) == components(base) && scan(stem).1.len() == 0) by {
        if stem != base {
            assert(stem.drop_last() =~= base);
        }
    }
    lemma_scan_closed(stem);
    lemma_scan_tail(stem, name);
    lemma_join_relative(base, name);
}

/// Every path lies at or below itself.
pub proof fn lemma_within_itself(path: Seq<char>)
    ensures
        within(path, path),
{
}

/// What lies below a path lies below everything that the path lies below.
pub proof fn lemma_within_chain(path: Seq<char>, middle: Seq<char>, root: Seq<char>)
    requires
        within(path, middle),
        within(middle, root),
    ensures
        within(path, root),
{
    let whole = components(path);
    let start = components(root);
    assert forall|i: int| 0 <= i < start.len() implies start[i] == whole[i] by {
        assert(start[i] == components(middle)[i]);
    }
    assert(start =~= whole.subrange(0, start.len() as int));
}

/// A dot with no dot after it is the last dot.
proof fn lemma_last_dot_is(name: Seq<char>, dot: int)
    requires
        0 <= dot < name.len(),
        name[dot] == '.',
        forall|j: int| dot < j < name.len() ==> name[j] != '.',
    ensures
        last_dot(name) == dot,
    decreases name.len(),
{
    if name.last() != '.' {
        lemma_last_dot_is(name.drop_last(), dot);
    }
}

/// A name without any dot has no last dot.
proof fn lemma_last_dot_none(name: Seq<char>)
    requires
        forall|j: int| 0 <= j < name.len() ==> name[j] != '.',
    ensures
        last_dot(name) == -1,
    decreases name.len(),
{
    if name.len() > 0 {
        lemma_last_dot_none(name.drop_last());
    }
}

/// Paths with the same components lead to the same place.
pub proof fn lemma_same_path_same_place(a: Seq<char>, b: Seq<char>)
    requires
        same_path_spec(a, b),
    ensures
        same_place_spec(a, b),
{
}

/// Going down into an entry and up again leads back: a path joined with a
/// plain name other than `..`, and then with `..`, leads to the place of
/// the path itself.
pub proof fn lemma_down_and_up(base: Seq<char>, name: Seq<char>)
    requires
        is_plain_name(name),
        !is_parent_mark(name),
    ensures
        same_place_spec(join_spec(join_spec(base, name), seq!['.', '.']), base),
{
    let up = seq!['.', '.'];
    let down = join_spec(base, name);
    assert(is_plain_name(up) && is_parent_mark(up));
    lemma_join_plain_name(base, name);
    lemma_join_plain_name(down, up);
    let parts = components(base);
    assert(parts.push(name).push(up).drop_last() =~= parts.push(name));
    assert(parts.push(name).drop_last() =~= parts);
    assert(!is_root(name));
    let there = resolved(parts.push(name));
    assert(there == resolved(parts).push(name));
    assert(there.drop_last() =~= resolved(parts));
}

/// The normal form holds no `.`, and a `..` only in front of a relative
/// path: after the root or after any other component there is none.
pub proof fn lemma_resolved_is_normal(parts: Seq<Seq<char>>)
    ensures
        forall|i: int|
            0 <= i < resolved(parts).len() ==> !is_dot(#[trigger] resolved(parts)[i]),
        forall|i: int|
            0 < i < resolved(parts).len() && is_parent_mark(#[trigger] resolved(parts)[i])
                ==> is_parent_mark(resolved(parts)[i - 1]),
    decreases parts.len(),
{
    if parts.len() > 0 {
        lemma_resolved_is_normal(parts.drop_last());
        let before = resolved(parts.drop_last());
        let after = resolved(parts);
        assert forall|i: int| 0 <= i < after.len() implies !is_dot(#[trigger] after[i]) by {
            if i < before.len() {
                assert(after[i] == before[i]);
            }
        }
        assert forall|i: int| 0 < i < after.len() && is_parent_mark(
            #[trigger] after[i],
        ) implies is_parent_mark(after[i - 1]) by {
            assert(after[i - 1] == before[i - 1]);
            if i < before.len() {
                assert(after[i] == before[i]);
            }
        }
    }
}

/// Resolving what is resolved changes nothing.
pub proof fn lemma_resolved_twice(parts: Seq<Seq<char>>)
    ensures
        resolved(resolved(parts)) == resolved(parts),
{
    lemma_resolved_is_normal(parts);
    lemma_normal_stays(resolved(parts));
}

/// A list of components that holds no `.`, and a `..` only after another
/// `..` or in front, is its own normal form.
proof fn lemma_normal_stays(parts: Seq<Seq<char>>)
    requires
        forall|i: int| 0 <= i < parts.len() ==> !is_dot(#[trigger] parts[i]),
        forall|i: int|
            0 < i < parts.len() && is_parent_mark(#[trigger] parts[i]) ==> is_parent_mark(
                parts[i - 1],
            ),
    ensures
        resolved(parts) == parts,
    decreases parts.len(),
{
    if parts.len() > 0 {
        let front = parts.drop_last();
        assert forall|i: int| 0 < i < front.len() && is_parent_mark(
            #[trigger] front[i],
        ) implies is_parent_mark(front[i - 1]) by {
            assert(front[i] == parts[i] && front[i - 1] == parts[i - 1]);
        }
        lemma_normal_stays(front);
        assert(front.push(parts.last()) =~= parts);
    }
}

} // verus!
