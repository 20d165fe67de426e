//! Paths as text: where the last component of a path begins and ends, what
//! its stem is, which directory holds it, and the path of the converted file
//! that follows from these.
//!
//! Components are separated by `/`. Repeated separators count as one, and a
//! component `.` counts only at the very start of a relative path. A path
//! names a file when its last component is neither `..` nor the root nor
//! that leading `.`.

use vstd::prelude::*;
use vstd::string::*;
use crate::text::characters;

verus! {

/// How many leading characters mark where the path starts from and belong to
/// no component name: the `/` of an absolute path, or a leading `.` that
/// stands for the current directory.
pub open spec fn anchor_len(path: Seq<char>) -> int {
    if path.len() >= 1 && path[0] == '/' {
        1
    } else if path.len() >= 1 && path[0] == '.' && (path.len() == 1 || path[1] == '/') {
        1
    } else {
        0
    }
}

/// Whether the character before `end` is a whole component `.`.
pub open spec fn dot_component_before(path: Seq<char>, end: int) -> bool {
    path[end - 1] == '.' && (end - 1 == anchor_len(path) || path[end - 2] == '/')
}

/// The length that is left of the first `end` characters once trailing
/// separators and trailing `.` components are dropped. The anchor stays.
pub open spec fn trimmed_len(path: Seq<char>, end: int) -> int
    decreases end,
{
    if end <= anchor_len(path) {
        end
    } else if path[end - 1] == '/' || dot_component_before(path, end) {
        trimmed_len(path, end - 1)
    } else {
        end
    }
}

/// Where the component that ends at `end` begins: after the nearest
/// separator before `end`, or at the anchor.
pub open spec fn name_start(path: Seq<char>, end: int) -> int
    decreases end,
{
    if end <= anchor_len(path) || path[end - 1] == '/' {
        end
    } else {
        name_start(path, end - 1)
    }
}

/// Where the last component of the path ends.
pub open spec fn name_end(path: Seq<char>) -> int {
    trimmed_len(path, path.len() as int)
}

/// The last component of the path; empty where the path is nothing but its
/// anchor.
pub open spec fn file_name(path: Seq<char>) -> Seq<char> {
    path.subrange(name_start(path, name_end(path)), name_end(path))
}

/// Whether the path names a file: it has a last component, and that is not
/// `..`.
pub open spec fn names_file(path: Seq<char>) -> bool {
    name_end(path) > anchor_len(path) && file_name(path) != seq!['.', '.']
}

/// The position of the last `.` among the characters from `start` to `end`,
/// the one at `start` itself not counted.
pub open spec fn last_dot(path: Seq<char>, start: int, end: int) -> Option<int>
    decreases end - start,
{
    if end <= start + 1 {
        None
    } else if path[end - 1] == '.' {
        Some(end - 1)
    } else {
        last_dot(path, start, end - 1)
    }
}

/// Where the stem of the name from `start` to `end` ends: at its last `.`,
/// unless the name has none or only begins with one.
pub open spec fn stem_end(path: Seq<char>, start: int, end: int) -> int {
    match last_dot(path, start, end) {
        Some(dot) => dot,
        None => end,
    }
}

/// The file name without its final extension.
pub open spec fn file_stem(path: Seq<char>) -> Seq<char> {
    let end = name_end(path);
    let start = name_start(path, end);
    path.subrange(start, stem_end(path, start, end))
}

/// The directory that holds the file: what stands before the file name,
/// without trailing separators and `.` components. It is empty for a bare
/// file name, which lies in the current directory.
pub open spec fn parent_dir(path: Seq<char>) -> Seq<char> {
    path.subrange(0, trimmed_len(path, name_start(path, name_end(path))))
}

/// A relative name appended to a directory, with a separator between them
/// unless the directory is empty or already ends in one.
pub open spec fn join(dir: Seq<char>, name: Seq<char>) -> Seq<char> {
    if dir.len() == 0 || dir.last() == '/' {
        dir + name
    } else {
        dir + seq!['/'] + name
    }
}

/// What is put behind the stem of the input to name the converted file.
pub open spec fn output_suffix() -> Seq<char> {
    "_telegram.mp4"@
}

/// The path of the converted file where none was asked for: in the
/// directory of the input, the input's stem followed by `_telegram.mp4`.
pub open spec fn derived_output_path(input_path: Seq<char>) -> Seq<char> {
    join(parent_dir(input_path), file_stem(input_path) + output_suffix())
}

/// What trimming leaves ends in a component, unless nothing but the anchor
/// is left.
pub proof fn lemma_trimmed(path: Seq<char>, end: int)
    requires
        0 <= end <= path.len(),
    ensures
        trimmed_len(path, end) <= end,
        end >= anchor_len(path) ==> trimmed_len(path, end) >= anchor_len(path),
        trimmed_len(path, end) <= anchor_len(path) || (path[trimmed_len(path, end) - 1] != '/'
            && !dot_component_before(path, trimmed_len(path, end))),
    decreases end,
{
    if end > anchor_len(path) && (path[end - 1] == '/' || dot_component_before(path, end)) {
        lemma_trimmed(path, end - 1);
    }
}

/// A component begins at the anchor or behind a separator, and holds no
/// separator.
pub proof fn lemma_name_start(path: Seq<char>, end: int)
    requires
        0 <= end <= path.len(),
    ensures
        name_start(path, end) <= end,
        end >= anchor_len(path) ==> name_start(path, end) >= anchor_len(path),
        name_start(path, end) <= anchor_len(path) || path[name_start(path, end) - 1] == '/',
        forall|i: int| name_start(path, end) <= i < end ==> path[i] != '/',
    decreases end,
{
    if !(end <= anchor_len(path) || path[end - 1] == '/') {
        lemma_name_start(path, end - 1);
    }
}

/// A stretch without separators that begins at the anchor or behind a
/// separator is one component.
pub proof fn lemma_component(path: Seq<char>, start: int, end: int)
    requires
        anchor_len(path) <= start <= end <= path.len(),
        start == anchor_len(path) || path[start - 1] == '/',
        forall|i: int| start <= i < end ==> path[i] != '/',
    ensures
        name_start(path, end) == start,
    decreases end - start,
{
    if end > start {
        lemma_component(path, start, end - 1);
    }
}

/// The stem of a name is not empty and ends within the name.
pub proof fn lemma_stem_end(path: Seq<char>, start: int, end: int)
    requires
        start < end,
    ensures
        start < stem_end(path, start, end) <= end,
    decreases end - start,
{
    if end > start + 1 && path[end - 1] != '.' {
        lemma_stem_end(path, start, end - 1);
    }
}

/// The last `.` that is found in a name stands behind its first character,
/// and no `.` follows it; where none is found, only the first character of
/// the name can be a `.`.
pub proof fn lemma_last_dot(path: Seq<char>, start: int, end: int)
    ensures
        match last_dot(path, start, end) {
            Some(dot) => start < dot < end && path[dot] == '.' && forall|i: int|
                dot < i < end ==> path[i] != '.',
            None => forall|i: int| start < i < end ==> path[i] != '.',
        },
    decreases end - start,
{
    if end > start + 1 && path[end - 1] != '.' {
        lemma_last_dot(path, start, end - 1);
    }
}

/// The stem takes only the final extension off: the file name is the stem
/// alone, and then holds no `.` behind its first character, or it is the
/// stem, a `.`, and an extension without a `.`.
pub proof fn lemma_stem_drops_final_extension(input_path: Seq<char>)
    requires
        names_file(input_path),
    ensures
        ({
            let name = file_name(input_path);
            let stem = file_stem(input_path);
            &&& 0 < stem.len() <= name.len()
            &&& stem == name.subrange(0, stem.len() as int)
            &&& stem.len() == name.len() ==> forall|i: int| 0 < i < name.len() ==> name[i] != '.'
            &&& stem.len() < name.len() ==> name[stem.len() as int] == '.' && forall|i: int|
                stem.len() < i < name.len() ==> name[i] != '.'
        }),
{
    let p = input_path;
    let e = name_end(p);
    let s = name_start(p, e);
    lemma_trimmed(p, p.len() as int);
    lemma_name_start(p, e);
    assert(s < e);
    lemma_stem_end(p, s, e);
    lemma_last_dot(p, s, e);
    let name = file_name(p);
    let stem = file_stem(p);
    assert(stem =~= name.subrange(0, stem.len() as int));
    assert(forall|i: int| 0 <= i < name.len() ==> name[i] == p[s + i]);
}

/// The converted file lies beside the input: the derived path names a file,
/// in the directory of the input, called by the input's stem followed by
/// `_telegram.mp4`.
pub proof fn lemma_output_lies_beside_input(input_path: Seq<char>)
    requires
        names_file(input_path),
    ensures
        names_file(derived_output_path(input_path)),
        parent_dir(derived_output_path(input_path)) == parent_dir(input_path),
        file_name(derived_output_path(input_path)) == file_stem(input_path) + output_suffix(),
{
    reveal_strlit("_telegram.mp4");
    let p = input_path;
    let anchor = anchor_len(p);
    let e = name_end(p);
    let s = name_start(p, e);
    let m = stem_end(p, s, e);
    let t = trimmed_len(p, s);
    lemma_trimmed(p, p.len() as int);
    lemma_name_start(p, e);
    assert(s < e);
    lemma_stem_end(p, s, e);
    lemma_trimmed(p, s);
    let dir = p.subrange(0, t);
    let stem = p.subrange(s, m);
    let name = stem + output_suffix();
    let d = derived_output_path(p);
    assert(name.len() == stem.len() + 13);
    assert(name[name.len() - 1] == '4');
    assert forall|j: int| 0 <= j < name.len() implies name[j] != '/' by {
        if j < stem.len() {
            assert(name[j] == p[s + j]);
        } else {
            assert(name[j] == output_suffix()[j - stem.len()]);
        }
    }
    assert(name[0] == p[s]);
    if name[0] == '.' {
        assert(name[1] != '/');
    }
    if t == 0 {
        assert(d =~= name);
        assert(anchor_len(d) == 0);
        assert(name_end(d) == d.len());
        lemma_component(d, 0, d.len() as int);
        assert(file_name(d) =~= name);
        assert(parent_dir(d) =~= dir);
    } else if p[t - 1] == '/' {
        assert(t == 1 && anchor == 1);
        assert(d =~= dir + name);
        assert(d[0] == '/');
        assert(anchor_len(d) == 1);
        assert(d[d.len() - 1] == name[name.len() - 1]);
        assert(name_end(d) == d.len());
        assert forall|i: int| 1 <= i < d.len() implies d[i] != '/' by {
            assert(d[i] == name[i - 1]);
        }
        lemma_component(d, 1, d.len() as int);
        assert(file_name(d) =~= name);
        assert(parent_dir(d) =~= dir);
    } else {
        assert(d =~= dir + seq!['/'] + name);
        assert(d[t] == '/');
        assert(forall|i: int| 0 <= i < t ==> d[i] == p[i]);
        assert(d[0] == p[0]);
        if t >= 2 {
            assert(d[1] == p[1]);
        } else {
            assert(d[1] == '/');
        }
        assert(anchor_len(d) == anchor);
        assert(d[d.len() - 1] == name[name.len() - 1]);
        assert(name_end(d) == d.len());
        assert forall|i: int| t + 1 <= i < d.len() implies d[i] != '/' by {
            assert(d[i] == name[i - t - 1]);
        }
        lemma_component(d, t + 1, d.len() as int);
        assert(trimmed_len(d, t + 1) == trimmed_len(d, t));
        assert(d[t - 1] == p[t - 1]);
        if t >= 2 {
            assert(d[t - 2] == p[t - 2]);
        }
        if t > anchor {
            assert(dot_component_before(d, t) == dot_component_before(p, t));
        }
        assert(trimmed_len(d, t) == t);
        assert(file_name(d) =~= name);
        assert(parent_dir(d) =~= dir);
    }
    assert(file_name(d).len() > 2);
}

fn anchor_of(chars: &Vec<char>) -> (anchor: usize)
    ensures
        anchor == anchor_len(chars@),
{
    let n = chars.len();
    if n >= 1 && chars[0] == '/' {
        1
    } else if n >= 1 && chars[0] == '.' && (n == 1 || chars[1] == '/') {
        1
    } else {
        0
    }
}

fn trim(chars: &Vec<char>, anchor: usize, end: usize) -> (kept: usize)
    requires
        anchor == anchor_len(chars@),
        end <= chars.len(),
    ensures
        kept == trimmed_len(chars@, end as int),
        kept <= end,
{
    let mut kept = end;
    while kept > anchor && (chars[kept - 1] == '/' || (chars[kept - 1] == '.' && (kept - 1
        == anchor || chars[kept - 2] == '/')))
        invariant
            anchor == anchor_len(chars@),
            kept <= end <= chars.len(),
            trimmed_len(chars@, end as int) == trimmed_len(chars@, kept as int),
        decreases kept,
    {
        kept = kept - 1;
    }
    kept
}

fn start_of_name(chars: &Vec<char>, anchor: usize, end: usize) -> (start: usize)
    requires
        anchor == anchor_len(chars@),
        end <= chars.len(),
    ensures
        start == name_start(chars@, end as int),
        start <= end,
{
    let mut start = end;
    while start > anchor && chars[start - 1] != '/'
        invariant
            anchor == anchor_len(chars@),
            start <= end <= chars.len(),
            name_start(chars@, end as int) == name_start(chars@, start as int),
        decreases start,
    {
        start = start - 1;
    }
    start
}

fn end_of_stem(chars: &Vec<char>, start: usize, end: usize) -> (stem: usize)
    requires
        start <= end <= chars.len(),
    ensures
        stem == stem_end(chars@, start as int, end as int),
        start <= stem <= end,
{
    let mut at = end;
    while at - start > 1 && chars[at - 1] != '.'
        invariant
            start <= at <= end <= chars.len(),
            last_dot(chars@, start as int, end as int) == last_dot(
                chars@,
                start as int,
                at as int,
            ),
        decreases at,
    {
        at = at - 1;
    }
    if at - start > 1 {
        at - 1
    } else {
        end
    }
}

/// Whether the path names a file, so that an output path can be derived
/// from it.
pub fn has_file_name(input_path: &str) -> (found: bool)
    ensures
        found == names_file(input_path@),
{
    let chars = characters(input_path);
    let anchor = anchor_of(&chars);
    let end = trim(&chars, anchor, chars.len());
    let start = start_of_name(&chars, anchor, end);
    let is_parent = end - start == 2 && chars[start] == '.' && chars[start + 1] == '.';
    proof {
        let name = file_name(input_path@);
        if is_parent {
            assert(name =~= seq!['.', '.']);
        } else if name == seq!['.', '.'] {
            assert(name.len() == 2);
            assert(name[0] == '.' && name[1] == '.');
        }
    }
    end > anchor && !is_parent
}

/// Derives the path of the converted file from the path of the input: in
/// the same directory, the input's name with `_telegram.mp4` in place of its
/// final extension.
pub fn generate_output_path(input_path: &str) -> (output: String)
    requires
        names_file(input_path@),
    ensures
        output@ == derived_output_path(input_path@),
{
    let chars = characters(input_path);
    let anchor = anchor_of(&chars);
    let end = trim(&chars, anchor, chars.len());
    let start = start_of_name(&chars, anchor, end);
    let stem = end_of_stem(&chars, start, end);
    let dir_end = trim(&chars, anchor, start);
    let mut output = String::from_str(input_path.substring_char(0, dir_end));
    if dir_end > 0 && chars[dir_end - 1] != '/' {
        output.append("/");
    }
    output.append(input_path.substring_char(start, stem));
    output.append("_telegram.mp4");
    proof {
        reveal_strlit("/");
        assert(output@ =~= derived_output_path(input_path@));
    }
    output
}

} // verus!
