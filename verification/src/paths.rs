//! Paths as the parts that they are made of.
use vstd::prelude::*;

use crate::text;
use crate::text::utf8_lossy;

verus! {

/// One part of a path; names as the bytes that the system gives them.
#[derive(Debug, Clone, PartialEq, Eq)]
pub enum PathPart {
    /// A drive or share in front of the root.
    Prefix(Vec<u8>),
    /// The root directory.
    Root,
    /// The current directory, at the front of a path.
    Current,
    /// The parent directory.
    Parent,
    /// A name.
    Normal(Vec<u8>),
}

/// What a part of a path says.
#[verifier::ext_equal]
pub enum PartV {
    Prefix(Seq<u8>),
    Root,
    Current,
    Parent,
    Normal(Seq<u8>),
}

impl View for PathPart {
    type V = PartV;

    open spec fn view(&self) -> PartV {
        match *self {
            PathPart::Prefix(name) => PartV::Prefix(name@),
            PathPart::Root => PartV::Root,
            PathPart::Current => PartV::Current,
            PathPart::Parent => PartV::Parent,
            PathPart::Normal(name) => PartV::Normal(name@),
        }
    }
}

/// What the parts of a path say.
pub open spec fn part_views(parts: Seq<PathPart>) -> Seq<PartV> {
    parts.map_values(|part: PathPart| part@)
}

/// Whether a path is a directory or something below it: it starts with the directory's parts.
pub open spec fn is_inside(path: Seq<PartV>, directory: Seq<PartV>) -> bool {
    directory.is_prefix_of(path)
}

/// Whether two runs of bytes are the same.
pub fn same_bytes(left: &[u8], right: &[u8]) -> (same: bool)
    ensures
        same == (left@ == right@),
{
    if left.len() != right.len() {
        return false;
    }
    for i in 0..left.len()
        invariant
            left.len() == right.len(),
            forall|j: int| 0 <= j < i ==> left@[j] == right@[j],
    {
        if left[i] != right[i] {
            return false;
        }
    }
    assert(left@ == right@);
    true
}

/// Whether two parts are the same.
pub fn same_part(left: &PathPart, right: &PathPart) -> (same: bool)
    ensures
        same == (left@ == right@),
{
    match (left, right) {
        (PathPart::Prefix(a), PathPart::Prefix(b)) => same_bytes(a.as_slice(), b.as_slice()),
        (PathPart::Root, PathPart::Root) => true,
        (PathPart::Current, PathPart::Current) => true,
        (PathPart::Parent, PathPart::Parent) => true,
        (PathPart::Normal(a), PathPart::Normal(b)) => same_bytes(a.as_slice(), b.as_slice()),
        _ => false,
    }
}

/// Whether a path is inside a directory.
pub fn inside(path: &[PathPart], directory: &[PathPart]) -> (within: bool)
    ensures
        within == is_inside(part_views(path@), part_views(directory@)),
{
    if directory.len() > path.len() {
        return false;
    }
    for i in 0..directory.len()
        invariant
            directory.len() <= path.len(),
            forall|j: int| 0 <= j < i ==> part_views(path@)[j] == part_views(directory@)[j],
    {
        if !same_part(&path[i], &directory[i]) {
            assert(part_views(path@)[i as int] != part_views(directory@)[i as int]);
            return false;
        }
    }
    assert(part_views(directory@) == part_views(path@).take(directory.len() as int));
    true
}

/// The text of a part; the root shows as the separator.
pub open spec fn part_text(part: PartV, separator: Seq<char>) -> Seq<char> {
    match part {
        PartV::Prefix(name) => text::lossy_text(name),
        PartV::Root => separator,
        PartV::Current => "."@,
        PartV::Parent => ".."@,
        PartV::Normal(name) => text::lossy_text(name),
    }
}

/// The text of a path: its parts, with a separator between names.
pub open spec fn path_text(parts: Seq<PartV>, separator: Seq<char>) -> Seq<char>
    decreases parts.len(),
{
    if parts.len() == 0 {
        seq![]
    } else {
        let front = parts.drop_last();
        let last = part_text(parts.last(), separator);
        if front.len() == 0 || front.last() is Root || front.last() is Prefix {
            path_text(front, separator) + last
        } else {
            path_text(front, separator) + separator + last
        }
    }
}

fn show_part(part: &PathPart, separator: &str) -> (shown: String)
    ensures
        shown@ == part_text(part@, separator@),
{
    match part {
        PathPart::Prefix(name) => utf8_lossy(name.as_slice()),
        PathPart::Root => separator.to_owned(),
        PathPart::Current => ".".to_owned(),
        PathPart::Parent => "..".to_owned(),
        PathPart::Normal(name) => utf8_lossy(name.as_slice()),
    }
}

/// The text of a path.
pub fn show_path(parts: &[PathPart], separator: &str) -> (shown: String)
    ensures
        shown@ == path_text(part_views(parts@), separator@),
{
    let mut shown = String::new();
    for i in 0..parts.len()
        invariant
            shown@ == path_text(part_views(parts@).take(i as int), separator@),
    {
        let ghost so_far = part_views(parts@).take(i as int);
        assert(part_views(parts@).take(i + 1).drop_last() == so_far);
        if i > 0 {
            assert(so_far.last() == parts@[i - 1]@);
            if !matches!(parts[i - 1], PathPart::Root | PathPart::Prefix(_)) {
                shown.append(separator);
            }
        }
        let last = show_part(&parts[i], separator);
        shown.append(last.as_str());
    }
    assert(part_views(parts@).take(parts.len() as int) == part_views(parts@));
    shown
}

/// A path below a directory without that directory, and any other path as it is.
pub open spec fn relative_to(path: Seq<PartV>, directory: Seq<PartV>) -> Seq<PartV> {
    if is_inside(path, directory) {
        path.skip(directory.len() as int)
    } else {
        path
    }
}

/// The text of a path relative to a directory.
pub fn show_relative(path: &[PathPart], directory: &[PathPart], separator: &str) -> (shown: String)
    ensures
        shown@ == path_text(
            relative_to(part_views(path@), part_views(directory@)),
            separator@,
        ),
{
    if inside(path, directory) {
        let rest = vstd::slice::slice_subrange(path, directory.len(), path.len());
        assert(part_views(rest@) == part_views(path@).skip(directory.len() as int));
        show_path(rest, separator)
    } else {
        show_path(path, separator)
    }
}

/// A path inside a directory that is inside another one is inside that one too.
pub proof fn law_containment_is_transitive(path: Seq<PartV>, inner: Seq<PartV>, outer: Seq<PartV>)
    requires
        is_inside(path, inner),
        is_inside(inner, outer),
    ensures
        is_inside(path, outer),
{
    assert(outer == path.take(outer.len() as int));
}

/// A path is inside a directory exactly where it is the directory or goes on from it; what it has
/// beyond the directory is its relative path, and a path outside stays as it is.
pub proof fn law_relative_paths_go_on_from_directories(
    directory: Seq<PartV>,
    rest: Seq<PartV>,
    path: Seq<PartV>,
)
    ensures
        is_inside(directory + rest, directory),
        relative_to(directory + rest, directory) == rest,
        is_inside(path, directory) <==> directory.len() <= path.len() && forall|i: int|
            0 <= i < directory.len() ==> #[trigger] path[i] == directory[i],
        !is_inside(path, directory) ==> relative_to(path, directory) == path,
        is_inside(path, directory) ==> directory + relative_to(path, directory) == path,
{
    assert((directory + rest).take(directory.len() as int) == directory);
    assert((directory + rest).skip(directory.len() as int) == rest);
    if is_inside(path, directory) {
        assert(directory == path.take(directory.len() as int));
        assert forall|i: int| 0 <= i < directory.len() implies #[trigger] path[i]
            == directory[i] by {
            assert(path.take(directory.len() as int)[i] == path[i]);
        }
        assert(directory + path.skip(directory.len() as int) == path);
    }
    if directory.len() <= path.len() && forall|i: int|
        0 <= i < directory.len() ==> #[trigger] path[i] == directory[i] {
        assert(directory == path.take(directory.len() as int));
    }
}

/// A path shows its parts from the first to the last, names as they are, with a separator in front of
/// each part but the first one and the ones right behind the root or a drive.
pub proof fn law_paths_show_their_parts(
    parts: Seq<PartV>,
    part: PartV,
    separator: Seq<char>,
)
    ensures
        path_text(Seq::<PartV>::empty(), separator) == Seq::<char>::empty(),
        ({
            let shown = match part {
                PartV::Root => separator,
                PartV::Current => "."@,
                PartV::Parent => ".."@,
                PartV::Prefix(name) => text::lossy_text(name),
                PartV::Normal(name) => text::lossy_text(name),
            };
            &&& parts.len() == 0 || parts.last() is Root || parts.last() is Prefix ==> path_text(
                parts.push(part),
                separator,
            ) == path_text(parts, separator) + shown
            &&& parts.len() > 0 && !(parts.last() is Root) && !(parts.last() is Prefix)
                ==> path_text(parts.push(part), separator) == path_text(parts, separator)
                + separator + shown
        }),
{
    assert(parts.push(part).drop_last() == parts);
}

} // verus!
