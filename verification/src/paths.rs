//! Windows paths as UTF-16 units.
//!
//! A path is a prefix, such as a drive or a share, a root and parts between
//! separators. Empty parts and parts that are a single dot name nothing.

use vstd::prelude::*;

use crate::text::{copy_units, encode_wide, lemma_ascii_units, same_units, utf16};

verus! {

/// The unit of the separator that is written.
pub const SEPARATOR: u16 = 92;

/// The unit of a dot.
pub const DOT: u16 = 46;

/// The unit of a colon.
pub const COLON: u16 = 58;

/// The unit of a question mark.
pub const QUESTION: u16 = 63;

/// What a path begins with.
#[derive(Clone, Copy, Debug, PartialEq, Eq, Structural)]
pub enum PrefixKind {
    /// Nothing special.
    Absent,
    /// A drive, as in `C:`.
    Drive,
    /// A share or a device, as in `\\server\share` and `\\.\device`.
    Share,
    /// A path that is taken literally, as in `\\?\C:` and `\\?\UNC\server\share`.
    Verbatim,
}

/// Whether a unit separates the parts of a path.
pub open spec fn is_separator(unit: u16) -> bool {
    unit == SEPARATOR || unit == 47
}

/// Whether a unit separates parts behind a prefix. In a literal path only the
/// backslash does.
pub open spec fn separates_in(kind: PrefixKind, unit: u16) -> bool {
    unit == SEPARATOR || (unit == 47 && kind != PrefixKind::Verbatim)
}

/// Where the part that begins at an index ends.
pub open spec fn part_end(path: Seq<u16>, from: int, kind: PrefixKind) -> int
    decreases path.len() - from,
{
    if from >= path.len() || separates_in(kind, path[from]) {
        from
    } else {
        part_end(path, from + 1, kind)
    }
}

/// Whether a drive stands at an index.
pub open spec fn drive_at(path: Seq<u16>, at: int) -> bool {
    &&& at + 1 < path.len()
    &&& 65 <= path[at] <= 90 || 97 <= path[at] <= 122
    &&& path[at + 1] == COLON
}

/// Whether a path begins with two separators.
pub open spec fn has_double_separator(path: Seq<u16>) -> bool {
    path.len() >= 2 && is_separator(path[0]) && is_separator(path[1])
}

/// Whether a path is to be taken literally: it begins with `\\?\`, in backslashes
/// alone.
pub open spec fn is_literal(path: Seq<u16>) -> bool {
    &&& path.len() >= 4
    &&& path[0] == SEPARATOR
    &&& path[1] == SEPARATOR
    &&& path[2] == QUESTION
    &&& path[3] == SEPARATOR
}

/// Whether a literal path names a share: `UNC\` follows.
pub open spec fn is_literal_share(path: Seq<u16>) -> bool {
    &&& path.len() >= 8
    &&& path[4] == 85
    &&& path[5] == 78
    &&& path[6] == 67
    &&& is_separator(path[7])
}

/// Whether a path names a device: it begins with `\\.\`.
pub open spec fn is_device(path: Seq<u16>) -> bool {
    path.len() >= 4 && path[2] == DOT && is_separator(path[3])
}

/// Where a share's name ends whose server ended at an index; the server's end itself
/// where no share follows.
pub open spec fn share_end(path: Seq<u16>, server_end: int, kind: PrefixKind) -> int {
    let end = part_end(path, server_end + 1, kind);
    if server_end < path.len() && end > server_end + 1 {
        end
    } else {
        server_end
    }
}

/// What a path begins with.
pub open spec fn prefix_kind(path: Seq<u16>) -> PrefixKind {
    if has_double_separator(path) {
        let server_end = part_end(path, 2, PrefixKind::Share);
        if is_literal(path) {
            PrefixKind::Verbatim
        } else if is_device(path) || (server_end > 2 && share_end(
            path,
            server_end,
            PrefixKind::Share,
        ) > server_end) {
            PrefixKind::Share
        } else {
            PrefixKind::Absent
        }
    } else if drive_at(path, 0) {
        PrefixKind::Drive
    } else {
        PrefixKind::Absent
    }
}

/// The length of a path's prefix.
pub open spec fn prefix_length(path: Seq<u16>) -> int {
    match prefix_kind(path) {
        PrefixKind::Absent => 0,
        PrefixKind::Drive => 2,
        PrefixKind::Share => if is_device(path) {
            part_end(path, 4, PrefixKind::Share)
        } else {
            share_end(path, part_end(path, 2, PrefixKind::Share), PrefixKind::Share)
        },
        PrefixKind::Verbatim => if is_literal_share(path) {
            share_end(path, part_end(path, 8, PrefixKind::Verbatim), PrefixKind::Verbatim)
        } else if drive_at(path, 4) && (path.len() == 6 || is_separator(path[6])) {
            6
        } else {
            part_end(path, 4, PrefixKind::Verbatim)
        },
    }
}

/// Whether a separator stands directly behind the prefix.
pub open spec fn has_root(path: Seq<u16>) -> bool {
    prefix_length(path) < path.len() && is_separator(path[prefix_length(path)])
}

/// Whether a path without a root begins with a part that is a single dot.
pub open spec fn begins_with_dot(path: Seq<u16>) -> bool {
    let length = prefix_length(path);
    &&& prefix_kind(path) == PrefixKind::Absent || prefix_kind(path) == PrefixKind::Drive
    &&& !has_root(path)
    &&& length < path.len()
    &&& path[length] == DOT
    &&& length + 1 == path.len() || is_separator(path[length + 1])
}

/// Where the parts of a path begin: behind its prefix, its root and a leading dot.
pub open spec fn parts_start(path: Seq<u16>) -> int {
    prefix_length(path) + if has_root(path) || begins_with_dot(path) {
        1int
    } else {
        0
    }
}

/// Where the part that ends at an index begins.
pub open spec fn part_start(path: Seq<u16>, start: int, end: int) -> int
    decreases end - start,
{
    if end <= start || separates_in(prefix_kind(path), path[end - 1]) {
        end
    } else {
        part_start(path, start, end - 1)
    }
}

/// Where the parts before one that begins at an index end.
pub open spec fn before_part(start: int, at: int) -> int {
    if at > start {
        at - 1
    } else {
        start
    }
}

/// Whether a part names nothing. In a literal path a single dot is a name.
pub open spec fn is_idle(kind: PrefixKind, part: Seq<u16>) -> bool {
    part.len() == 0 || (part == seq![DOT] && kind != PrefixKind::Verbatim)
}

/// Where the last part ends that names something and ends at an index or before.
pub open spec fn named_end(path: Seq<u16>, start: int, end: int) -> int
    decreases end - start,
    via named_end_decreases
{
    let at = part_start(path, start, end);
    if end <= start {
        start
    } else if is_idle(prefix_kind(path), path.subrange(at, end)) {
        named_end(path, start, before_part(start, at))
    } else {
        end
    }
}

#[via_fn]
proof fn named_end_decreases(path: Seq<u16>, start: int, end: int) {
    lemma_part_start(path, start, end);
}

proof fn lemma_part_start(path: Seq<u16>, start: int, end: int)
    ensures
        start <= end ==> start <= part_start(path, start, end) <= end,
        end < start ==> part_start(path, start, end) == end,
    decreases end - start,
{
    if end > start && !separates_in(prefix_kind(path), path[end - 1]) {
        lemma_part_start(path, start, end - 1);
    }
}

/// The directory of a path: what stands before its last part that names something.
/// A path without a directory has the empty one. A prefix with at most its root has
/// none.
pub open spec fn directory_of(path: Seq<u16>) -> Option<Seq<u16>> {
    let start = parts_start(path);
    let end = named_end(path, start, path.len() as int);
    if end > start {
        let at = part_start(path, start, end);
        Some(path.take(named_end(path, start, before_part(start, at))))
    } else if prefix_kind(path) == PrefixKind::Absent && begins_with_dot(path) {
        Some(Seq::empty())
    } else {
        None
    }
}

/// Whether units are one plain name: no separator in it, no drive before it, and
/// neither one dot nor two.
pub open spec fn is_name(name: Seq<u16>) -> bool {
    &&& name.len() > 0
    &&& forall|index: int| 0 <= index < name.len() ==> !is_separator(#[trigger] name[index])
    &&& !drive_at(name, 0)
    &&& name != seq![DOT]
    &&& name != seq![DOT, DOT]
}

/// ASCII text without separators and colons is a name, unless it is too short to tell
/// from dots.
pub proof fn lemma_text_is_name(text: Seq<char>)
    requires
        text.len() > 2,
        forall|index: int|
            0 <= index < text.len() ==> (#[trigger] text[index] as int) < 128 && text[index] != '/'
                && text[index] != '\\' && text[index] != ':',
    ensures
        is_name(utf16(text)),
{
    lemma_ascii_units(text);
    let name = utf16(text);
    assert forall|index: int| 0 <= index < name.len() implies !is_separator(
        #[trigger] name[index],
    ) by {
        assert(text[index] != '/' && text[index] != '\\');
    }
    assert(text[1] != ':');
    assert(name[1] as int == text[1] as int);
    assert(seq![DOT].len() == 1 && seq![DOT, DOT].len() == 2);
}

/// The parts of a literal path that name something, each behind one separator.
pub open spec fn tidied(path: Seq<u16>, start: int, end: int) -> Seq<u16>
    decreases end - start,
    via tidied_decreases
{
    let at = part_start(path, start, end);
    if end <= start {
        Seq::empty()
    } else {
        let before = tidied(path, start, before_part(start, at));
        if at == end {
            before
        } else {
            before + seq![SEPARATOR] + path.subrange(at, end)
        }
    }
}

#[via_fn]
proof fn tidied_decreases(path: Seq<u16>, start: int, end: int) {
    lemma_part_start(path, start, end);
}

/// A name behind a directory. A drive alone takes no separator, and what is repeated
/// in a literal path is left out.
pub open spec fn path_join(directory: Seq<u16>, name: Seq<u16>) -> Seq<u16> {
    if prefix_kind(directory) == PrefixKind::Verbatim {
        directory.take(prefix_length(directory)) + tidied(
            directory,
            parts_start(directory),
            directory.len() as int,
        ) + seq![SEPARATOR] + name
    } else if directory.len() == 0 || is_separator(directory.last()) || (prefix_kind(directory)
        == PrefixKind::Drive && directory.len() == 2) {
        directory + name
    } else {
        directory + seq![SEPARATOR] + name
    }
}

/// The index of the last dot, where there is one.
pub open spec fn last_dot(name: Seq<u16>) -> Option<int>
    decreases name.len(),
{
    if name.len() == 0 {
        None
    } else if name.last() == DOT {
        Some(name.len() - 1)
    } else {
        last_dot(name.drop_last())
    }
}

/// A path whose last part has another extension. A dot that begins the last part
/// begins no extension, and a path whose last part is no file name stays as it is.
pub open spec fn extended(path: Seq<u16>, extension: Seq<u16>) -> Seq<u16> {
    let start = parts_start(path);
    let end = named_end(path, start, path.len() as int);
    let at = part_start(path, start, end);
    let name = path.subrange(at, end);
    if end <= start || name == seq![DOT] || name == seq![DOT, DOT] {
        path
    } else {
        let stem = match last_dot(name) {
            Some(dot) if dot > 0 => dot,
            _ => name.len() as int,
        };
        path.take(at + stem) + seq![DOT] + extension
    }
}

fn separates(unit: u16) -> (result: bool)
    ensures
        result == is_separator(unit),
{
    unit == SEPARATOR || unit == 47
}

fn separates_parts(kind: PrefixKind, unit: u16) -> (result: bool)
    ensures
        result == separates_in(kind, unit),
{
    unit == SEPARATOR || (unit == 47 && kind != PrefixKind::Verbatim)
}

proof fn lemma_part_end(path: Seq<u16>, from: int, kind: PrefixKind)
    requires
        0 <= from <= path.len(),
    ensures
        from <= part_end(path, from, kind) <= path.len(),
    decreases path.len() - from,
{
    if from < path.len() && !separates_in(kind, path[from]) {
        lemma_part_end(path, from + 1, kind);
    }
}

fn find_part_end(path: &[u16], from: usize, kind: PrefixKind) -> (end: usize)
    requires
        from <= path@.len(),
    ensures
        end == part_end(path@, from as int, kind),
        from <= end <= path@.len(),
{
    let mut end: usize = from;
    while end < path.len() && !separates_parts(kind, path[end])
        invariant
            from <= end <= path.len(),
            part_end(path@, end as int, kind) == part_end(path@, from as int, kind),
        decreases path.len() - end,
    {
        end = end + 1;
    }
    end
}

fn find_drive(path: &[u16], at: usize) -> (found: bool)
    requires
        at <= 4,
    ensures
        found == drive_at(path@, at as int),
{
    path.len() > at + 1 && ((path[at] >= 65 && path[at] <= 90) || (path[at] >= 97 && path[at]
        <= 122)) && path[at + 1] == COLON
}

fn find_share_end(path: &[u16], server_end: usize, kind: PrefixKind) -> (end: usize)
    requires
        server_end <= path@.len(),
    ensures
        end == share_end(path@, server_end as int, kind),
        server_end <= end <= path@.len(),
{
    if server_end < path.len() {
        let end: usize = find_part_end(path, server_end + 1, kind);
        if end > server_end + 1 {
            return end;
        }
    }
    server_end
}

/// Finds what a path begins with, and its length.
fn find_prefix(path: &[u16]) -> (prefix: (PrefixKind, usize))
    ensures
        prefix.0 == prefix_kind(path@),
        prefix.1 == prefix_length(path@),
        prefix.1 <= path@.len(),
{
    let length: usize = path.len();
    if length >= 2 && separates(path[0]) && separates(path[1]) {
        if length >= 4 && path[0] == SEPARATOR && path[1] == SEPARATOR && path[2] == QUESTION
            && path[3] == SEPARATOR {
            if length >= 8 && path[4] == 85 && path[5] == 78 && path[6] == 67 && separates(path[7]) {
                let server_end: usize = find_part_end(path, 8, PrefixKind::Verbatim);
                return (
                    PrefixKind::Verbatim,
                    find_share_end(path, server_end, PrefixKind::Verbatim),
                );
            }
            if find_drive(path, 4) && (length == 6 || separates(path[6])) {
                return (PrefixKind::Verbatim, 6);
            }
            return (PrefixKind::Verbatim, find_part_end(path, 4, PrefixKind::Verbatim));
        }
        if length >= 4 && path[2] == DOT && separates(path[3]) {
            return (PrefixKind::Share, find_part_end(path, 4, PrefixKind::Share));
        }
        let server_end: usize = find_part_end(path, 2, PrefixKind::Share);
        let end: usize = find_share_end(path, server_end, PrefixKind::Share);
        if server_end > 2 && end > server_end {
            return (PrefixKind::Share, end);
        }
        return (PrefixKind::Absent, 0);
    }
    if find_drive(path, 0) {
        (PrefixKind::Drive, 2)
    } else {
        (PrefixKind::Absent, 0)
    }
}

/// Where the parts of a path begin, what it begins with, and whether a leading dot
/// stands before the parts.
struct Layout {
    kind: PrefixKind,
    prefix: usize,
    dotted: bool,
    start: usize,
}

impl Layout {
    spec fn describes(self, path: Seq<u16>) -> bool {
        &&& self.kind == prefix_kind(path)
        &&& self.prefix == prefix_length(path)
        &&& self.dotted == begins_with_dot(path)
        &&& self.start == parts_start(path)
        &&& self.prefix <= self.start <= path.len()
    }

    fn of(path: &[u16]) -> (layout: Layout)
        ensures
            layout.describes(path@),
    {
        let (kind, prefix) = find_prefix(path);
        let rooted: bool = prefix < path.len() && separates(path[prefix]);
        let plain: bool = kind == PrefixKind::Absent || kind == PrefixKind::Drive;
        let dotted: bool = plain && !rooted && prefix < path.len() && path[prefix] == DOT && (
        path.len() - prefix == 1 || separates(path[prefix + 1]));
        let start: usize = if rooted || dotted {
            prefix + 1
        } else {
            prefix
        };
        Layout { kind, prefix, dotted, start }
    }
}

fn find_part_start(path: &[u16], layout: &Layout, end: usize) -> (at: usize)
    requires
        layout.describes(path@),
        layout.start <= end <= path@.len(),
    ensures
        at == part_start(path@, layout.start as int, end as int),
        layout.start <= at <= end,
{
    let mut at: usize = end;
    while at > layout.start && !separates_parts(layout.kind, path[at - 1])
        invariant
            layout.describes(path@),
            layout.start <= at <= end <= path.len(),
            part_start(path@, layout.start as int, at as int) == part_start(
                path@,
                layout.start as int,
                end as int,
            ),
        decreases at,
    {
        at = at - 1;
    }
    at
}

fn find_named_end(path: &[u16], layout: &Layout, limit: usize) -> (end: usize)
    requires
        layout.describes(path@),
        layout.start <= limit <= path@.len(),
    ensures
        end == named_end(path@, layout.start as int, limit as int),
        layout.start <= end <= limit,
{
    let mut end: usize = limit;
    while end > layout.start
        invariant
            layout.describes(path@),
            layout.start <= end <= limit <= path.len(),
            named_end(path@, layout.start as int, end as int) == named_end(
                path@,
                layout.start as int,
                limit as int,
            ),
        decreases end,
    {
        let at: usize = find_part_start(path, layout, end);
        let ghost part = path@.subrange(at as int, end as int);
        let dot: bool = end - at == 1 && path[at] == DOT;
        assert(dot == (part == seq![DOT])) by {
            if dot {
                assert(part =~= seq![DOT]);
            }
            if part == seq![DOT] {
                assert(part.len() == 1 && part[0] == DOT);
            }
        }
        if at < end && !(dot && layout.kind != PrefixKind::Verbatim) {
            return end;
        }
        end = if at > layout.start {
            at - 1
        } else {
            layout.start
        };
    }
    end
}

/// The directory of a path.
pub fn parent(path: &[u16]) -> (directory: Option<Vec<u16>>)
    ensures
        match directory {
            Some(found) => directory_of(path@) == Some(found@),
            None => directory_of(path@) is None,
        },
{
    let layout = Layout::of(path);
    let end: usize = find_named_end(path, &layout, path.len());
    if end > layout.start {
        let at: usize = find_part_start(path, &layout, end);
        let before: usize = if at > layout.start {
            at - 1
        } else {
            layout.start
        };
        let length: usize = find_named_end(path, &layout, before);
        let part = vstd::slice::slice_subrange(path, 0, length);
        assert(part@ =~= path@.take(length as int));
        return Some(copy_units(part));
    }
    if layout.kind == PrefixKind::Absent && layout.dotted {
        let empty: Vec<u16> = Vec::new();
        assert(empty@ =~= Seq::empty());
        return Some(empty);
    }
    None
}

/// The parts of a literal path that name something, each behind one separator.
fn tidy(path: &[u16], layout: &Layout) -> (parts: Vec<u16>)
    requires
        layout.describes(path@),
    ensures
        parts@ == tidied(path@, layout.start as int, path@.len() as int),
{
    let mut parts: Vec<u16> = Vec::new();
    let mut at: usize = layout.start;
    let mut end: usize = layout.start;
    let ghost start = layout.start as int;
    assert(parts@ =~= tidied(path@, start, start));
    while end < path.len()
        invariant
            layout.describes(path@),
            start == layout.start,
            start <= at <= end <= path.len(),
            at == part_start(path@, start, end as int),
            parts@ == tidied(path@, start, before_part(start, at as int)),
        decreases path.len() - end,
    {
        if separates_parts(layout.kind, path[end]) {
            push_part(&mut parts, path, at, end);
            assert(parts@ == tidied(path@, start, end as int)) by {
                if end == start {
                    assert(at == end);
                }
            }
            at = end + 1;
        }
        end = end + 1;
    }
    push_part(&mut parts, path, at, end);
    parts
}

fn push_part(parts: &mut Vec<u16>, path: &[u16], at: usize, end: usize)
    requires
        at <= end <= path@.len(),
    ensures
        final(parts)@ == if at == end {
            old(parts)@
        } else {
            old(parts)@ + seq![SEPARATOR] + path@.subrange(at as int, end as int)
        },
{
    if at < end {
        parts.push(SEPARATOR);
        let part = vstd::slice::slice_subrange(path, at, end);
        parts.extend_from_slice(part);
        assert(parts@ =~= old(parts)@ + seq![SEPARATOR] + path@.subrange(at as int, end as int));
    }
}

/// Puts a name behind a directory.
pub fn join(directory: &[u16], name: &[u16]) -> (path: Vec<u16>)
    requires
        is_name(name@),
    ensures
        path@ == path_join(directory@, name@),
{
    let layout = Layout::of(directory);
    let length: usize = directory.len();
    if layout.kind == PrefixKind::Verbatim {
        let start = vstd::slice::slice_subrange(directory, 0, layout.prefix);
        assert(start@ =~= directory@.take(layout.prefix as int));
        let mut path = copy_units(start);
        let mut parts = tidy(directory, &layout);
        path.append(&mut parts);
        path.push(SEPARATOR);
        path.extend_from_slice(name);
        assert(path@ =~= path_join(directory@, name@));
        return path;
    }
    let mut path = copy_units(directory);
    if length > 0 && !separates(directory[length - 1]) && !(layout.kind == PrefixKind::Drive
        && length == 2) {
        path.push(SEPARATOR);
    }
    path.extend_from_slice(name);
    assert(path@ =~= path_join(directory@, name@));
    path
}

/// Gives the last part of a path another extension.
pub fn with_extension(path: &[u16], extension: &str) -> (changed: Vec<u16>)
    ensures
        changed@ == extended(path@, utf16(extension@)),
{
    let layout = Layout::of(path);
    let end: usize = find_named_end(path, &layout, path.len());
    if end <= layout.start {
        return copy_units(path);
    }
    let at: usize = find_part_start(path, &layout, end);
    let name = vstd::slice::slice_subrange(path, at, end);
    let ghost part = path@.subrange(at as int, end as int);
    assert(name@ =~= part);
    let one: [u16; 1] = [DOT];
    let two: [u16; 2] = [DOT, DOT];
    assert(one@ =~= seq![DOT]);
    assert(two@ =~= seq![DOT, DOT]);
    if same_units(name, &one) || same_units(name, &two) {
        return copy_units(path);
    }
    let mut dot: usize = name.len();
    assert(part.take(part.len() as int) =~= part);
    while dot > 0 && name[dot - 1] != DOT
        invariant
            dot <= name.len(),
            name@ == part,
            last_dot(part.take(dot as int)) == last_dot(part),
        decreases dot,
    {
        assert(part.take(dot as int).drop_last() =~= part.take(dot - 1));
        dot = dot - 1;
    }
    let stem: usize = if dot > 1 {
        dot - 1
    } else {
        name.len()
    };
    proof {
        if dot > 0 {
            assert(part.take(dot as int).last() == DOT);
        }
    }
    let kept = vstd::slice::slice_subrange(path, 0, at + stem);
    assert(kept@ =~= path@.take(at + stem));
    let mut changed = copy_units(kept);
    changed.push(DOT);
    let mut units = encode_wide(extension);
    changed.append(&mut units);
    assert(changed@ =~= extended(path@, utf16(extension@)));
    changed
}

proof fn lemma_named_end(path: Seq<u16>, start: int, end: int)
    requires
        start <= end,
    ensures
        start <= named_end(path, start, end) <= end,
    decreases end - start,
{
    let at = part_start(path, start, end);
    lemma_part_start(path, start, end);
    if end > start && is_idle(prefix_kind(path), path.subrange(at, end)) {
        lemma_named_end(path, start, before_part(start, at));
    }
}

proof fn lemma_part_start_of_both(path: Seq<u16>, other: Seq<u16>, start: int, end: int)
    requires
        0 <= start <= end <= path.len(),
        end <= other.len(),
        prefix_kind(path) == prefix_kind(other),
        forall|index: int| 0 <= index < end ==> #[trigger] path[index] == other[index],
    ensures
        part_start(path, start, end) == part_start(other, start, end),
    decreases end - start,
{
    if end > start {
        assert(path[end - 1] == other[end - 1]);
        if !separates_in(prefix_kind(path), path[end - 1]) {
            lemma_part_start_of_both(path, other, start, end - 1);
        }
    }
}

proof fn lemma_part_start_is(path: Seq<u16>, start: int, at: int, end: int)
    requires
        0 <= start <= at <= end <= path.len(),
        forall|index: int| at <= index < end ==> !is_separator(#[trigger] path[index]),
        at == start || separates_in(prefix_kind(path), path[at - 1]),
    ensures
        part_start(path, start, end) == at,
    decreases end - at,
{
    if at < end {
        assert(!is_separator(path[end - 1]));
        lemma_part_start_is(path, start, at, end - 1);
    }
}

/// Putting a name behind a directory and taking the directory again gives the
/// directory back, where it ends in a part that names something or in its root, and
/// where the name does not become part of its prefix or give it a root. Literal paths
/// are left out, as joining tidies them.
pub proof fn law_a_joined_path_is_in_its_directory(directory: Seq<u16>, name: Seq<u16>)
    requires
        is_name(name),
        prefix_kind(directory) != PrefixKind::Verbatim,
        named_end(directory, parts_start(directory), directory.len() as int) == directory.len(),
        prefix_kind(path_join(directory, name)) == prefix_kind(directory),
        parts_start(path_join(directory, name)) == parts_start(directory),
    ensures
        directory_of(path_join(directory, name)) == Some(directory),
{
    let path = path_join(directory, name);
    let start = parts_start(directory);
    let length = directory.len() as int;
    let at = path.len() - name.len();
    lemma_layout(directory);
    if length > start {
        let last = part_start(directory, start, length);
        lemma_part_start(directory, start, length);
        if is_idle(prefix_kind(directory), directory.subrange(last, length)) {
            lemma_named_end(directory, start, before_part(start, last));
        }
        lemma_part_start_of_both(directory, path, start, length);
        assert(path.subrange(last, length) =~= directory.subrange(last, length));
        assert(named_end(path, start, length) == length);
        if is_separator(directory.last()) {
            assert(last == length);
        }
    }
    assert forall|index: int| at <= index < path.len() implies !is_separator(
        #[trigger] path[index],
    ) by {
        assert(path[index] == name[index - at]);
    }
    lemma_part_start_is(path, start, at, path.len() as int);
    assert(path.subrange(at, path.len() as int) =~= name);
    assert(path.take(length) =~= directory);
}

proof fn lemma_layout(path: Seq<u16>)
    ensures
        0 <= prefix_length(path) <= parts_start(path) <= path.len(),
{
    if has_double_separator(path) {
        lemma_part_end(path, 2, PrefixKind::Share);
        let server_end = part_end(path, 2, PrefixKind::Share);
        if server_end < path.len() {
            lemma_part_end(path, server_end + 1, PrefixKind::Share);
        }
        if path.len() >= 4 {
            lemma_part_end(path, 4, PrefixKind::Share);
            lemma_part_end(path, 4, PrefixKind::Verbatim);
        }
        if path.len() >= 8 {
            lemma_part_end(path, 8, PrefixKind::Verbatim);
            let literal_end = part_end(path, 8, PrefixKind::Verbatim);
            if literal_end < path.len() {
                lemma_part_end(path, literal_end + 1, PrefixKind::Verbatim);
            }
        }
    }
}

/// A joined path begins with its directory and ends with the name. Between them stands one
/// backslash, unless the directory is empty, ends in a separator already or is a bare
/// drive. Literal paths are left out, as joining tidies them.
pub proof fn law_a_joined_path_holds_both(directory: Seq<u16>, name: Seq<u16>)
    requires
        prefix_kind(directory) != PrefixKind::Verbatim,
    ensures
        ({
            let path = path_join(directory, name);
            let between = path.len() - directory.len() - name.len();
            let bare_drive = directory.len() == 2 && directory[1] == 58 && (65 <= directory[0] <= 90
                || 97 <= directory[0] <= 122);
            &&& path.take(directory.len() as int) == directory
            &&& path.skip(path.len() - name.len()) == name
            &&& between == 0 || between == 1
            &&& between == 1 ==> path[directory.len() as int] == 92
            &&& between == 0 <==> directory.len() == 0 || directory.last() == 92
                || directory.last() == 47 || bare_drive
        }),
{
    let path = path_join(directory, name);
    assert(path.take(directory.len() as int) =~= directory);
    assert(path.skip(path.len() - name.len()) =~= name);
}

/// A name behind a literal path stands behind one backslash, and the path's beginning is
/// kept.
pub proof fn law_a_literal_path_takes_one_backslash(directory: Seq<u16>, name: Seq<u16>)
    requires
        prefix_kind(directory) == PrefixKind::Verbatim,
    ensures
        ({
            let path = path_join(directory, name);
            &&& path.len() >= 5 + name.len()
            &&& path.take(4) == seq![92u16, 92u16, 63u16, 92u16]
            &&& path.skip(path.len() - name.len()) == name
            &&& path[path.len() - name.len() - 1] == 92
        }),
{
    let path = path_join(directory, name);
    lemma_layout(directory);
    lemma_literal_prefix(directory);
    assert(path.take(4) =~= seq![92u16, 92u16, 63u16, 92u16]);
    assert(path.skip(path.len() - name.len()) =~= name);
}

proof fn lemma_literal_prefix(path: Seq<u16>)
    requires
        prefix_kind(path) == PrefixKind::Verbatim,
    ensures
        prefix_length(path) >= 4,
        path.len() >= 4,
        path[0] == 92 && path[1] == 92 && path[2] == 63 && path[3] == 92,
{
    lemma_part_end(path, 4, PrefixKind::Verbatim);
    if path.len() >= 8 {
        lemma_part_end(path, 8, PrefixKind::Verbatim);
        let server_end = part_end(path, 8, PrefixKind::Verbatim);
        if server_end < path.len() {
            lemma_part_end(path, server_end + 1, PrefixKind::Verbatim);
        }
    }
}

/// Whether a path begins with the root of a drive, as in `C:\`.
pub open spec fn on_a_drive(path: Seq<u16>) -> bool {
    &&& path.len() >= 3
    &&& 65 <= path[0] <= 90 || 97 <= path[0] <= 122
    &&& path[1] == 58
    &&& path[2] == 92 || path[2] == 47
}

proof fn lemma_on_a_drive(path: Seq<u16>)
    requires
        on_a_drive(path),
    ensures
        prefix_kind(path) == PrefixKind::Drive,
        prefix_length(path) == 2,
        parts_start(path) == 3,
{
}

proof fn lemma_directory_on_a_drive(directory: Seq<u16>, name: Seq<u16>)
    requires
        on_a_drive(directory),
        directory.len() > 3 ==> !is_separator(directory.last()) && directory.last() != DOT,
        is_name(name),
    ensures
        named_end(directory, 3, directory.len() as int) == directory.len(),
        on_a_drive(path_join(directory, name)),
        directory_of(path_join(directory, name)) == Some(directory),
{
    let length = directory.len() as int;
    lemma_on_a_drive(directory);
    let path = path_join(directory, name);
    assert(path[0] == directory[0] && path[1] == directory[1] && path[2] == directory[2]);
    lemma_on_a_drive(path);
    if length > 3 {
        let at = part_start(directory, 3, length);
        lemma_part_start(directory, 3, length - 1);
        assert(at < length);
        let part = directory.subrange(at, length);
        assert(part.len() > 0 && part.last() == directory.last());
        if part == seq![DOT] {
            assert(part.last() == DOT);
        }
    }
    law_a_joined_path_is_in_its_directory(directory, name);
}

/// On a drive, a file's directory is what it was joined to: every directory that ends in a
/// letter or digit, and the root.
pub proof fn law_a_file_on_a_drive_is_in_its_directory(directory: Seq<u16>, name: Seq<u16>)
    requires
        directory.len() >= 3,
        65 <= directory[0] <= 90 || 97 <= directory[0] <= 122,
        directory[1] == 58,
        directory[2] == 92 || directory[2] == 47,
        directory.len() > 3 ==> directory.last() != 92 && directory.last() != 47
            && directory.last() != 46,
        is_name(name),
    ensures
        directory.len() > 3 ==> directory_of(directory.push(92) + name) == Some(directory),
        directory.len() == 3 ==> directory_of(directory + name) == Some(directory),
{
    lemma_directory_on_a_drive(directory, name);
    lemma_on_a_drive(directory);
    if directory.len() > 3 {
        assert(path_join(directory, name) =~= directory.push(92) + name);
    }
}

/// A bare file name lies in the empty directory.
pub proof fn law_a_bare_name_is_in_the_empty_directory(name: Seq<u16>)
    requires
        is_name(name),
    ensures
        directory_of(name) == Some(Seq::<u16>::empty()),
{
    let empty = Seq::<u16>::empty();
    assert(path_join(empty, name) =~= name);
    assert(!is_separator(name[0]));
    if name.len() == 1 && name[0] == DOT {
        assert(name =~= seq![DOT]);
    }
    if name.len() > 1 {
        assert(!is_separator(name[1]));
    }
    law_a_joined_path_is_in_its_directory(empty, name);
}

/// Whether units are one plain name: without separators, a drive, or dots alone.
pub proof fn law_names_hold_no_separator(name: Seq<u16>)
    ensures
        is_name(name) ==> name.len() > 0 && !name.contains(92) && !name.contains(47),
        name.len() > 2 && !name.contains(92) && !name.contains(47) && name[1] != 58 ==> is_name(
            name,
        ),
{
    if is_name(name) {
        if name.contains(92) {
            let at = choose|at: int| 0 <= at < name.len() && name[at] == 92;
            assert(!is_separator(name[at]));
        }
        if name.contains(47) {
            let at = choose|at: int| 0 <= at < name.len() && name[at] == 47;
            assert(!is_separator(name[at]));
        }
    }
    if name.len() > 2 && !name.contains(92) && !name.contains(47) && name[1] != 58 {
        assert forall|index: int| 0 <= index < name.len() implies !is_separator(
            #[trigger] name[index],
        ) by {
            assert(name.contains(name[index]));
        }
        assert(seq![DOT].len() == 1 && seq![DOT, DOT].len() == 2);
    }
}

proof fn lemma_last_dot(stem: Seq<u16>, end: Seq<u16>)
    requires
        !end.contains(46),
    ensures
        last_dot(stem.push(46) + end) == Some(stem.len() as int),
        !stem.contains(46) ==> last_dot(stem) is None,
    decreases end.len() + stem.len(),
{
    let name = stem.push(46) + end;
    if end.len() == 0 {
        assert(name =~= stem.push(46));
    } else {
        let fewer = end.drop_last();
        assert(end.contains(end[end.len() - 1]));
        assert forall|unit: u16| fewer.contains(unit) implies end.contains(unit) by {
            let at = choose|at: int| 0 <= at < fewer.len() && fewer[at] == unit;
            assert(end[at] == unit);
        }
        lemma_last_dot(stem, fewer);
        assert(name.drop_last() =~= stem.push(46) + fewer);
    }
    if !stem.contains(46) && stem.len() > 0 {
        let fewer = stem.drop_last();
        assert(stem.contains(stem[stem.len() - 1]));
        assert forall|unit: u16| fewer.contains(unit) implies stem.contains(unit) by {
            let at = choose|at: int| 0 <= at < fewer.len() && fewer[at] == unit;
            assert(stem[at] == unit);
        }
        lemma_last_dot(fewer, Seq::empty());
    }
}

/// On a drive, a file's extension is replaced behind its last dot, and one without a dot
/// gets one. The directory and the stem stay.
pub proof fn law_an_extension_is_replaced(
    directory: Seq<u16>,
    stem: Seq<u16>,
    old_extension: Seq<u16>,
    extension: Seq<u16>,
)
    requires
        directory.len() >= 3,
        65 <= directory[0] <= 90 || 97 <= directory[0] <= 122,
        directory[1] == 58,
        directory[2] == 92 || directory[2] == 47,
        directory.len() > 3 ==> directory.last() != 92 && directory.last() != 47
            && directory.last() != 46,
        stem.len() > 0,
        is_name(stem),
        is_name(stem.push(46) + old_extension),
        !old_extension.contains(46),
    ensures
        extended(path_join(directory, stem.push(46) + old_extension), extension) == path_join(
            directory,
            stem.push(46) + extension,
        ),
        !stem.contains(46) ==> extended(path_join(directory, stem), extension) == path_join(
            directory,
            stem.push(46) + extension,
        ),
{
    let dotted = stem.push(46) + old_extension;
    let wanted = path_join(directory, stem.push(46) + extension);
    lemma_last_dot(stem, old_extension);
    lemma_last_part_on_a_drive(directory, dotted);
    lemma_last_part_on_a_drive(directory, stem);
    lemma_on_a_drive(directory);
    let start = path_join(directory, stem).len() - stem.len();
    let first = path_join(directory, dotted);
    assert(first.take(start + stem.len()) + seq![DOT] + extension =~= wanted);
    let second = path_join(directory, stem);
    assert(second.take(start + stem.len()) + seq![DOT] + extension =~= wanted);
}

proof fn lemma_last_part_on_a_drive(directory: Seq<u16>, name: Seq<u16>)
    requires
        on_a_drive(directory),
        directory.len() > 3 ==> !is_separator(directory.last()) && directory.last() != DOT,
        is_name(name),
    ensures
        ({
            let path = path_join(directory, name);
            let at = path.len() - name.len();
            &&& parts_start(path) == 3
            &&& named_end(path, 3, path.len() as int) == path.len()
            &&& part_start(path, 3, path.len() as int) == at
            &&& path.subrange(at, path.len() as int) == name
            &&& 3 <= at < path.len()
        }),
{
    let path = path_join(directory, name);
    let at = path.len() - name.len();
    lemma_on_a_drive(directory);
    assert(path[0] == directory[0] && path[1] == directory[1] && path[2] == directory[2]);
    lemma_on_a_drive(path);
    assert forall|index: int| at <= index < path.len() implies !is_separator(
        #[trigger] path[index],
    ) by {
        assert(path[index] == name[index - at]);
    }
    lemma_part_start_is(path, 3, at, path.len() as int);
    assert(path.subrange(at, path.len() as int) =~= name);
}

proof fn lemma_named_end_of_both(path: Seq<u16>, other: Seq<u16>, start: int, end: int)
    requires
        0 <= start <= end <= path.len(),
        end <= other.len(),
        prefix_kind(path) == prefix_kind(other),
        forall|index: int| 0 <= index < end ==> #[trigger] path[index] == other[index],
    ensures
        named_end(path, start, end) == named_end(other, start, end),
    decreases end - start,
{
    if end > start {
        let at = part_start(path, start, end);
        lemma_part_start_of_both(path, other, start, end);
        lemma_part_start(path, start, end);
        assert(path.subrange(at, end) =~= other.subrange(at, end));
        lemma_named_end_of_both(path, other, start, before_part(start, at));
    }
}

/// On a drive, a separator at the end makes no difference to a path's directory.
pub proof fn law_a_trailing_separator_names_nothing(path: Seq<u16>)
    requires
        path.len() >= 3,
        65 <= path[0] <= 90 || 97 <= path[0] <= 122,
        path[1] == 58,
        path[2] == 92 || path[2] == 47,
    ensures
        directory_of(path.push(92)) == directory_of(path),
{
    let longer = path.push(92);
    let length = path.len() as int;
    lemma_on_a_drive(path);
    lemma_on_a_drive(longer);
    lemma_named_end_of_both(path, longer, 3, length);
    lemma_named_end(path, 3, length);
    let end = named_end(path, 3, length);
    assert(longer.subrange(length + 1, length + 1).len() == 0);
    assert(part_start(longer, 3, length + 1) == length + 1);
    assert(named_end(longer, 3, length + 1) == named_end(longer, 3, length));
    if end > 3 {
        let at = part_start(path, 3, end);
        lemma_part_start(path, 3, end);
        lemma_part_start_of_both(path, longer, 3, end);
        lemma_named_end_of_both(path, longer, 3, before_part(3, at));
        lemma_named_end(path, 3, before_part(3, at));
        assert(path.take(named_end(path, 3, before_part(3, at))) =~= longer.take(
            named_end(path, 3, before_part(3, at)),
        ));
    }
}

proof fn lemma_part_end_is(path: Seq<u16>, from: int, end: int, kind: PrefixKind)
    requires
        0 <= from <= end <= path.len(),
        forall|index: int| from <= index < end ==> !separates_in(kind, #[trigger] path[index]),
        end == path.len() || separates_in(kind, path[end]),
    ensures
        part_end(path, from, kind) == end,
    decreases end - from,
{
    if from < end {
        assert(!separates_in(kind, path[from]));
        lemma_part_end_is(path, from + 1, end, kind);
    }
}

/// A share is a server and a name between separators: both belong to the prefix, and what
/// follows does not.
pub proof fn law_a_share_reaches_to_the_end_of_its_name(path: Seq<u16>, middle: int, end: int)
    requires
        2 < middle,
        middle + 1 < end <= path.len(),
        path[0] == 92 || path[0] == 47,
        path[1] == 92 || path[1] == 47,
        path[middle] == 92 || path[middle] == 47,
        middle == 3 ==> path[2] != 46 && path[2] != 63,
        forall|index: int|
            2 <= index < end && index != middle ==> #[trigger] path[index] != 92 && path[index]
                != 47,
        end < path.len() ==> path[end] == 92 || path[end] == 47,
    ensures
        prefix_kind(path) == PrefixKind::Share,
        prefix_length(path) == end,
{
    lemma_part_end_is(path, 2, middle, PrefixKind::Share);
    lemma_part_end_is(path, middle + 1, end, PrefixKind::Share);
    assert(path[2] != 92 && path[2] != 47);
    if middle > 3 {
        assert(path[3] != 92 && path[3] != 47);
    }
}

/// A server without a share is no prefix.
pub proof fn law_a_server_alone_is_no_prefix(path: Seq<u16>)
    requires
        path.len() >= 2,
        path[0] == 92 || path[0] == 47,
        path[1] == 92 || path[1] == 47,
        forall|index: int|
            2 <= index < path.len() ==> #[trigger] path[index] != 92 && path[index] != 47,
    ensures
        prefix_kind(path) == PrefixKind::Absent,
        prefix_length(path) == 0,
{
    lemma_part_end_is(path, 2, path.len() as int, PrefixKind::Share);
    if path.len() >= 4 {
        assert(path[3] != 92 && path[3] != 47);
    }
}

/// A device reaches to the end of its name.
pub proof fn law_a_device_reaches_to_the_end_of_its_name(path: Seq<u16>, end: int)
    requires
        4 <= end <= path.len(),
        path[0] == 92 || path[0] == 47,
        path[1] == 92 || path[1] == 47,
        path[2] == 46,
        path[3] == 92 || path[3] == 47,
        forall|index: int|
            4 <= index < end ==> #[trigger] path[index] != 92 && path[index] != 47,
        end < path.len() ==> path[end] == 92 || path[end] == 47,
    ensures
        prefix_kind(path) == PrefixKind::Share,
        prefix_length(path) == end,
{
    lemma_part_end_is(path, 4, end, PrefixKind::Share);
}

/// Behind `\\?\` stands a share, a drive or a single part, and only the backslash ends them.
pub proof fn law_a_literal_prefix_is_told_by_what_follows(path: Seq<u16>, middle: int, end: int)
    requires
        path.len() >= 4,
        path.take(4) == seq![92u16, 92u16, 63u16, 92u16],
        4 <= end <= path.len(),
        end < path.len() ==> path[end] == 92,
    ensures
        prefix_kind(path) == PrefixKind::Verbatim,
        path.len() >= 8 && path.subrange(4, 8) == seq![85u16, 78u16, 67u16, 92u16] && 8 <= middle
            && middle + 1 < end && path[middle] == 92 && (forall|index: int|
            8 <= index < end && index != middle ==> #[trigger] path[index] != 92)
            ==> prefix_length(path) == end,
        end == 6 && (65 <= path[4] <= 90 || 97 <= path[4] <= 122) && path[5] == 58
            ==> prefix_length(path) == 6,
        end != 7 && !(end == 6 && path[5] == 58) && (forall|index: int|
            4 <= index < end ==> #[trigger] path[index] != 92 && path[index] != 47)
            ==> prefix_length(path) == end,
{
    let head = path.take(4);
    assert(path[0] == head[0] && path[1] == head[1] && path[2] == head[2] && path[3] == head[3]);
    if path.len() >= 8 && path.subrange(4, 8) == seq![85u16, 78u16, 67u16, 92u16] && 8 <= middle
        && middle + 1 < end && path[middle] == 92 && (forall|index: int|
        8 <= index < end && index != middle ==> #[trigger] path[index] != 92) {
        let name = path.subrange(4, 8);
        assert(path[4] == name[0] && path[5] == name[1] && path[6] == name[2] && path[7]
            == name[3]);
        lemma_part_end_is(path, 8, middle, PrefixKind::Verbatim);
        lemma_part_end_is(path, middle + 1, end, PrefixKind::Verbatim);
    }
    if end != 7 && !(end == 6 && path[5] == 58) && (forall|index: int|
        4 <= index < end ==> #[trigger] path[index] != 92 && path[index] != 47) {
        if end >= 7 {
            assert(path[6] != 92 && path[6] != 47);
        }
        if end >= 8 {
            assert(path[7] != 92 && path[7] != 47);
        }
        lemma_part_end_is(path, 4, end, PrefixKind::Verbatim);
    }
}

/// Nothing, a root and a drive with at most its root have no directory; a single dot lies
/// in the empty one.
pub proof fn law_a_root_has_no_directory(path: Seq<u16>)
    ensures
        path.len() == 0 ==> directory_of(path) is None,
        path.len() == 1 && (path[0] == 92 || path[0] == 47) ==> directory_of(path) is None,
        path.len() == 1 && path[0] == 46 ==> directory_of(path) == Some(Seq::<u16>::empty()),
        drive_at(path, 0) && (path.len() == 2 || (path.len() == 3 && (path[2] == 92 || path[2]
            == 47 || path[2] == 46))) ==> directory_of(path) is None,
{
}

/// A single unit is a name, unless it is a separator or a dot.
pub proof fn law_a_single_unit_is_a_name(name: Seq<u16>)
    requires
        name.len() == 1,
    ensures
        is_name(name) <==> name[0] != 92 && name[0] != 47 && name[0] != 46,
{
    if name == seq![DOT] {
        assert(name[0] == 46);
    }
    if name[0] == 46 {
        assert(name =~= seq![DOT]);
    }
}

} // verus!
