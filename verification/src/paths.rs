//! Paths as text, read as on Unix: components between `/` separators.

use vstd::prelude::*;
use crate::text::{from_chars, to_chars};

verus! {

/// The length of what stands before the components of `path`: the root
/// `/` of an absolute path, or the `.` with which a relative path begins.
pub open spec fn body_start(path: Seq<char>) -> int {
    if path.len() > 0 && path[0] == '/' {
        1
    } else if path.len() > 0 && path[0] == '.' && (path.len() == 1 || path[1] == '/') {
        1
    } else {
        0
    }
}

/// Where the last component of the first `end` characters of `path`
/// starts: behind the last `/` at or after `floor`, or at `floor`.
pub open spec fn component_start(path: Seq<char>, floor: int, end: int) -> int
    decreases end - floor,
{
    if end <= floor || end > path.len() {
        floor
    } else if path[end - 1] == '/' {
        end
    } else {
        component_start(path, floor, end - 1)
    }
}

/// The length of the first `end` characters of `path` without the
/// separators and `.` components at their end; what stands before `floor`
/// is kept.
pub open spec fn trimmed_end(path: Seq<char>, floor: int, end: int) -> int
    decreases end - floor,
{
    if end <= floor || end > path.len() {
        end
    } else {
        let start = component_start(path, floor, end);
        if start == end {
            trimmed_end(path, floor, end - 1)
        } else if end - start == 1 && path[start] == '.' {
            trimmed_end(path, floor, without_separator(floor, start))
        } else {
            end
        }
    }
}

/// The end of what precedes a component that starts at `start`: the
/// separator before the component is left out, unless it is the root.
pub open spec fn without_separator(floor: int, start: int) -> int {
    if start > floor {
        start - 1
    } else {
        start
    }
}

/// Where the name of the entry that `path` leads to stands in `path`: its
/// last component that is not `.`; there is none for a path that consists
/// of the root or of `.` components only, or whose last such component is
/// `..`.
pub open spec fn file_name_range(path: Seq<char>) -> Option<(int, int)> {
    let floor = body_start(path);
    let end = trimmed_end(path, floor, path.len() as int);
    let start = component_start(path, floor, end);
    if end <= floor || path.subrange(start, end) == seq!['.', '.'] {
        None
    } else {
        Some((start, end))
    }
}

/// The name of the entry that `path` leads to, if it names one.
pub open spec fn file_name(path: Seq<char>) -> Option<Seq<char>> {
    match file_name_range(path) {
        Some((start, end)) => Some(path.subrange(start, end)),
        None => None,
    }
}

/// The path of the directory that holds the entry that `path` leads to:
/// what precedes the name, without the separators and `.` components at
/// its end. It is empty for a name without directory.
pub open spec fn parent(path: Seq<char>) -> Seq<char> {
    match file_name_range(path) {
        Some((start, end)) => {
            let floor = body_start(path);
            path.take(trimmed_end(path, floor, without_separator(floor, start)))
        },
        None => Seq::empty(),
    }
}

/// The path of the entry `name` in the directory `directory`.
pub open spec fn joined(directory: Seq<char>, name: Seq<char>) -> Seq<char> {
    if directory.len() == 0 || directory.last() == '/' {
        directory + name
    } else {
        directory + seq!['/'] + name
    }
}

/// The name under which the entry that `path` leads to is shown: its file
/// name, and the whole path where it has none.
pub open spec fn base_name(path: Seq<char>) -> Seq<char> {
    match file_name(path) {
        Some(name) => name,
        None => path,
    }
}

/// The bounds of the last component and of the trimmed path.
pub proof fn lemma_component_bounds(path: Seq<char>, floor: int, end: int)
    requires
        0 <= floor,
        end <= path.len(),
    ensures
        floor <= component_start(path, floor, end),
        end >= floor ==> component_start(path, floor, end) <= end,
        trimmed_end(path, floor, end) <= end,
        end >= floor ==> trimmed_end(path, floor, end) >= floor,
        forall|i: int|
            component_start(path, floor, end) <= i < end ==> #[trigger] path[i] != '/',
    decreases end,
{
    if end > floor {
        lemma_component_bounds(path, floor, end - 1);
        let start = component_start(path, floor, end);
        if start == end {
        } else if end - start == 1 && path[start] == '.' {
            lemma_component_bounds(path, floor, without_separator(floor, start));
        }
    }
}

/// The length of what stands before the components of `path`.
fn body_floor(path: &Vec<char>) -> (floor: usize)
    ensures
        floor == body_start(path@),
        floor <= path.len(),
{
    if path.len() > 0 && path[0] == '/' {
        1
    } else if path.len() > 0 && path[0] == '.' && (path.len() == 1 || path[1] == '/') {
        1
    } else {
        0
    }
}

/// Where the last component of the first `end` characters starts.
fn last_component_start(path: &Vec<char>, floor: usize, end: usize) -> (start: usize)
    requires
        floor <= end <= path.len(),
    ensures
        start == component_start(path@, floor as int, end as int),
        floor <= start <= end,
{
    let mut i: usize = end;
    while i > floor && path[i - 1] != '/'
        invariant
            floor <= i <= end <= path.len(),
            component_start(path@, floor as int, end as int) == component_start(
                path@,
                floor as int,
                i as int,
            ),
        decreases i,
    {
        i -= 1;
    }
    i
}

/// The length of the first `end` characters without the separators and `.`
/// components at their end.
fn trim_end(path: &Vec<char>, floor: usize, end: usize) -> (trimmed: usize)
    requires
        floor <= end <= path.len(),
    ensures
        trimmed == trimmed_end(path@, floor as int, end as int),
        floor <= trimmed <= end,
{
    let mut end: usize = end;
    let ghost whole = end;
    loop
        invariant
            floor <= end <= whole <= path.len(),
            trimmed_end(path@, floor as int, whole as int) == trimmed_end(
                path@,
                floor as int,
                end as int,
            ),
        ensures
            end == trimmed_end(path@, floor as int, whole as int),
            floor <= end <= whole,
        decreases end,
    {
        if end <= floor {
            break;
        }
        let start = last_component_start(path, floor, end);
        if start == end {
            end = end - 1;
        } else if end - start == 1 && path[start] == '.' {
            end = if start > floor {
                start - 1
            } else {
                start
            };
        } else {
            break;
        }
    }
    end
}

/// Where the name of the entry that `path` leads to stands in `path`.
pub fn find_file_name(path: &Vec<char>) -> (range: Option<(usize, usize)>)
    ensures
        match range {
            Some((start, end)) => file_name_range(path@) == Some((start as int, end as int))
                && body_start(path@) <= start < end <= path.len(),
            None => file_name_range(path@) is None,
        },
{
    let floor = body_floor(path);
    let end = trim_end(path, floor, path.len());
    if end <= floor {
        return None;
    }
    let start = last_component_start(path, floor, end);
    proof {
        lemma_component_bounds(path@, floor as int, path.len() as int);
        let name = path@.subrange(start as int, end as int);
        assert(start < end) by {
            // a trimmed path does not end in a separator
            if start == end {
                assert(trimmed_end(path@, floor as int, end as int) == trimmed_end(
                    path@,
                    floor as int,
                    end - 1,
                ));
                lemma_component_bounds(path@, floor as int, end - 1);
                lemma_trimmed_is_stable(path@, floor as int, path.len() as int);
            }
        }
        assert(name == seq!['.', '.'] <==> name.len() == 2 && name[0] == '.' && name[1] == '.')
            by {
            if name.len() == 2 && name[0] == '.' && name[1] == '.' {
                assert(name =~= seq!['.', '.']);
            }
        }
    }
    if end - start == 2 && path[start] == '.' && path[start + 1] == '.' {
        None
    } else {
        Some((start, end))
    }
}

/// Trimming what is trimmed changes nothing.
pub proof fn lemma_trimmed_is_stable(path: Seq<char>, floor: int, end: int)
    requires
        0 <= floor,
        end <= path.len(),
    ensures
        trimmed_end(path, floor, trimmed_end(path, floor, end)) == trimmed_end(path, floor, end),
    decreases end,
{
    if end > floor {
        let start = component_start(path, floor, end);
        lemma_component_bounds(path, floor, end);
        if start == end {
            lemma_trimmed_is_stable(path, floor, end - 1);
        } else if end - start == 1 && path[start] == '.' {
            lemma_trimmed_is_stable(path, floor, without_separator(floor, start));
        }
    }
}

/// The characters of `path` from `from` up to `to`, as a string.
pub fn substring(path: &Vec<char>, from: usize, to: usize) -> (s: String)
    requires
        from <= to <= path.len(),
    ensures
        s@ == path@.subrange(from as int, to as int),
{
    let mut part: Vec<char> = Vec::new();
    let mut i: usize = from;
    while i < to
        invariant
            from <= i <= to <= path.len(),
            part@ == path@.subrange(from as int, i as int),
        decreases to - i,
    {
        part.push(path[i]);
        proof {
            assert(part@ =~= path@.subrange(from as int, i + 1));
        }
        i += 1;
    }
    from_chars(&part)
}

/// The length of the path of the directory that holds the entry whose name
/// starts at `start`.
pub fn parent_end(path: &Vec<char>, start: usize) -> (end: usize)
    requires
        file_name_range(path@) matches Some(range) && range.0 == start,
        body_start(path@) <= start <= path.len(),
    ensures
        path@.take(end as int) == parent(path@),
        end <= start,
{
    let floor = body_floor(path);
    let cut = if start > floor {
        start - 1
    } else {
        start
    };
    trim_end(path, floor, cut)
}

/// The name under which the entry that `path` leads to is shown.
pub fn entry_name(path: &str) -> (name: String)
    ensures
        name@ == base_name(path@),
{
    let chars = to_chars(path);
    match find_file_name(&chars) {
        Some((start, end)) => substring(&chars, start, end),
        None => path.to_owned(),
    }
}

/// The segments of `path`: the pieces between its `/` separators, empty
/// ones included. A path without separator is one segment.
pub open spec fn segments(path: Seq<char>) -> Seq<Seq<char>>
    decreases path.len(),
{
    if path.len() == 0 {
        seq![Seq::empty()]
    } else {
        let before = segments(path.drop_last());
        if path.last() == '/' {
            before.push(Seq::empty())
        } else {
            before.drop_last().push(before.last().push(path.last()))
        }
    }
}

/// Whether a segment counts as a component: it is neither empty nor `.`.
pub open spec fn is_component(segment: Seq<char>) -> bool {
    segment.len() > 0 && segment != seq!['.']
}

/// The segments among the first `count` that count as components.
pub open spec fn components_among(all: Seq<Seq<char>>, count: nat) -> Seq<Seq<char>>
    decreases count,
{
    if count == 0 || count > all.len() {
        Seq::empty()
    } else {
        let before = components_among(all, (count - 1) as nat);
        if is_component(all[count - 1]) {
            before.push(all[count - 1])
        } else {
            before
        }
    }
}

/// The components of `path`: the root `/` of an absolute path or the `.`
/// with which a relative path begins, then the segments that are neither
/// empty nor `.`.
pub open spec fn components(path: Seq<char>) -> Seq<Seq<char>> {
    let named = components_among(segments(path), segments(path).len());
    if body_start(path) == 1 {
        seq![seq![path[0]]] + named
    } else {
        named
    }
}

/// Whether `path` lies at or below `base`: the components of `base` are the
/// first components of `path`.
pub open spec fn starts_with(path: Seq<char>, base: Seq<char>) -> bool {
    let whole = components(path);
    let prefix = components(base);
    prefix.len() <= whole.len() && whole.take(prefix.len() as int) == prefix
}

/// The views of a vector of character vectors.
pub open spec fn texts(parts: Seq<Vec<char>>) -> Seq<Seq<char>> {
    Seq::new(parts.len(), |i: int| parts[i]@)
}

/// Splits `path` into its segments.
fn split_segments(path: &Vec<char>) -> (parts: Vec<Vec<char>>)
    ensures
        texts(parts@) == segments(path@),
{
    let mut parts: Vec<Vec<char>> = Vec::new();
    let mut current: Vec<char> = Vec::new();
    let mut i: usize = 0;
    proof {
        assert(texts(parts@).push(current@) =~= segments(path@.take(0)));
    }
    while i < path.len()
        invariant
            i <= path.len(),
            texts(parts@).push(current@) == segments(path@.take(i as int)),
        decreases path.len() - i,
    {
        proof {
            assert(path@.take(i + 1).drop_last() =~= path@.take(i as int));
            assert(texts(parts@).push(current@).drop_last() =~= texts(parts@));
        }
        if path[i] == '/' {
            let ghost done = texts(parts@).push(current@);
            parts.push(current);
            current = Vec::new();
            proof {
                assert(texts(parts@) =~= done);
            }
        } else {
            current.push(path[i]);
        }
        i += 1;
    }
    proof {
        assert(path@.take(path.len() as int) =~= path@);
    }
    let ghost done = texts(parts@).push(current@);
    parts.push(current);
    proof {
        assert(texts(parts@) =~= done);
    }
    parts
}

/// The components of `path`.
pub fn path_components(path: &str) -> (parts: Vec<Vec<char>>)
    ensures
        texts(parts@) == components(path@),
{
    let chars = to_chars(path);
    let all = split_segments(&chars);
    let mut parts: Vec<Vec<char>> = Vec::new();
    if body_floor(&chars) == 1 {
        let mut head: Vec<char> = Vec::new();
        head.push(chars[0]);
        parts.push(head);
    }
    let ghost rooted = texts(parts@);
    proof {
        assert(rooted =~= if body_start(chars@) == 1 {
            seq![seq![chars[0]]]
        } else {
            Seq::empty()
        });
        assert(texts(parts@) =~= rooted + components_among(texts(all@), 0));
    }
    let mut k: usize = 0;
    while k < all.len()
        invariant
            k <= all.len(),
            texts(all@) == segments(chars@),
            texts(parts@) == rooted + components_among(texts(all@), k as nat),
        decreases all.len() - k,
    {
        let segment = &all[k];
        let ghost text = segment@;
        proof {
            assert(texts(all@)[k as int] == text);
            assert(text == seq!['.'] <==> text.len() == 1 && text[0] == '.') by {
                if text.len() == 1 && text[0] == '.' {
                    assert(text =~= seq!['.']);
                }
            }
        }
        if segment.len() > 0 && !(segment.len() == 1 && segment[0] == '.') {
            let ghost before = texts(parts@);
            parts.push(segment.clone());
            proof {
                assert(parts@.last()@ == text);
                assert(texts(parts@) =~= before.push(text));
                assert(texts(parts@) =~= rooted + components_among(texts(all@), (k + 1) as nat));
            }
        }
        k += 1;
    }
    parts
}

/// Whether the components `prefix` are the first components of `whole`.
pub fn components_start_with(whole: &Vec<Vec<char>>, prefix: &Vec<Vec<char>>) -> (starts: bool)
    ensures
        starts == (prefix.len() <= whole.len() && texts(whole@).take(prefix.len() as int) == texts(
            prefix@,
        )),
{
    if prefix.len() > whole.len() {
        return false;
    }
    let mut k: usize = 0;
    while k < prefix.len()
        invariant
            k <= prefix.len() <= whole.len(),
            texts(whole@).take(k as int) == texts(prefix@).take(k as int),
        decreases prefix.len() - k,
    {
        let same = chars_equal(&whole[k], &prefix[k]);
        if !same {
            proof {
                assert(texts(whole@).take(prefix.len() as int)[k as int] == whole[k as int]@);
                assert(texts(prefix@)[k as int] == prefix[k as int]@);
            }
            return false;
        }
        proof {
            assert(texts(whole@).take(k + 1) =~= texts(whole@).take(k as int).push(
                whole[k as int]@,
            ));
            assert(texts(prefix@).take(k + 1) =~= texts(prefix@).take(k as int).push(
                prefix[k as int]@,
            ));
        }
        k += 1;
    }
    proof {
        assert(texts(prefix@).take(prefix.len() as int) =~= texts(prefix@));
    }
    true
}

/// Whether two character vectors hold the same text.
pub fn chars_equal(a: &Vec<char>, b: &Vec<char>) -> (same: bool)
    ensures
        same == (a@ == b@),
{
    if a.len() != b.len() {
        return false;
    }
    let mut i: usize = 0;
    while i < a.len()
        invariant
            i <= a.len(),
            a.len() == b.len(),
            a@.take(i as int) == b@.take(i as int),
        decreases a.len() - i,
    {
        if a[i] != b[i] {
            return false;
        }
        proof {
            assert(a@.take(i + 1) =~= a@.take(i as int).push(a[i as int]));
            assert(b@.take(i + 1) =~= b@.take(i as int).push(b[i as int]));
        }
        i += 1;
    }
    proof {
        assert(a@.take(a.len() as int) =~= a@);
        assert(b@.take(b.len() as int) =~= b@);
    }
    true
}

} // verus!
