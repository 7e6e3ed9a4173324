//! The text form of a sandbox profile.
//!
//! A profile is a run of entries. An entry is a name, `=`, and a quoted list
//! of paths separated by `:`, with one optional line feed behind it:
//!
//! ```text
//! LL_FS_RO="/usr:/etc/ssl"
//! LL_FS_RW="/tmp"
//! ```
//!
//! A path is `/` followed by segments of ASCII letters and digits with one
//! `/` between them. Nothing is escaped, and every match takes as much as
//! it can.

use vstd::prelude::*;

verus! {

pub const SLASH: u8 = 0x2f;

pub const COLON: u8 = 0x3a;

pub const QUOTE: u8 = 0x22;

pub const EQUALS: u8 = 0x3d;

pub const LINE_FEED: u8 = 0x0a;

/// What the paths of an entry are opened up for.
#[derive(Clone, Copy, Debug, PartialEq, Eq, Structural)]
pub enum Intent {
    /// `LL_FS_RO`: reading only.
    ReadOnly,
    /// `LL_FS_RW`: reading and writing.
    ReadWrite,
}

/// One entry of a profile: an intent and the paths it goes for, each path
/// as the bytes that stood in the text.
#[derive(Debug, PartialEq, Eq)]
pub struct Entry {
    pub intent: Intent,
    pub paths: Vec<Vec<u8>>,
}

/// An entry as a mathematical value.
pub struct EntryView {
    pub intent: Intent,
    pub paths: Seq<Seq<u8>>,
}

/// The paths of a vector, each as its sequence of bytes.
pub open spec fn paths_view(paths: Seq<Vec<u8>>) -> Seq<Seq<u8>> {
    Seq::new(paths.len(), |i: int| paths[i]@)
}

/// The entries of a vector, each as a mathematical value.
pub open spec fn entries_view(entries: Seq<Entry>) -> Seq<EntryView> {
    Seq::new(entries.len(), |i: int| entries[i]@)
}

impl View for Entry {
    type V = EntryView;

    open spec fn view(&self) -> EntryView {
        EntryView { intent: self.intent, paths: paths_view(self.paths@) }
    }
}

/// An ASCII letter or digit.
pub open spec fn spec_is_alnum(b: u8) -> bool {
    ||| 0x30 <= b <= 0x39
    ||| 0x41 <= b <= 0x5a
    ||| 0x61 <= b <= 0x7a
}

#[verifier::when_used_as_spec(spec_is_alnum)]
pub fn is_alnum(b: u8) -> (r: bool)
    ensures
        r == spec_is_alnum(b),
{
    (0x30 <= b && b <= 0x39) || (0x41 <= b && b <= 0x5a) || (0x61 <= b && b <= 0x7a)
}

/// Where the longest run of letters and digits that starts at `from` ends.
pub open spec fn segment_end(text: Seq<u8>, from: int) -> int
    decreases text.len() - from,
{
    if 0 <= from < text.len() && spec_is_alnum(text[from]) {
        segment_end(text, from + 1)
    } else {
        from
    }
}

/// Where the segments that go on from `from`, each behind a `/`, end. A `/`
/// with no segment behind it is not taken.
pub open spec fn more_segments_end(text: Seq<u8>, from: int) -> int
    decreases text.len() - from,
{
    if 0 <= from < text.len() && text[from] == SLASH && from + 1 < segment_end(text, from + 1)
        <= text.len() {
        more_segments_end(text, segment_end(text, from + 1))
    } else {
        from
    }
}

/// Where the path that starts at `from` ends, or `None` where none starts.
pub open spec fn path_end(text: Seq<u8>, from: int) -> Option<int> {
    if 0 <= from < text.len() && text[from] == SLASH {
        if segment_end(text, from + 1) > from + 1 {
            Some(more_segments_end(text, segment_end(text, from + 1)))
        } else {
            Some(from + 1)
        }
    } else {
        None
    }
}

fn scan_segment(text: &[u8], from: usize) -> (end: usize)
    requires
        from <= text.len(),
    ensures
        end == segment_end(text@, from as int),
        from <= end <= text.len(),
{
    let mut i: usize = from;
    while i < text.len() && is_alnum(text[i])
        invariant
            from <= i <= text.len(),
            segment_end(text@, i as int) == segment_end(text@, from as int),
        decreases text.len() - i,
    {
        i += 1;
    }
    i
}

fn scan_path(text: &[u8], from: usize) -> (end: Option<usize>)
    requires
        from <= text.len(),
    ensures
        end is Some == path_end(text@, from as int) is Some,
        end is Some ==> end.unwrap() == path_end(text@, from as int).unwrap() && from
            < end.unwrap() <= text.len(),
{
    if from < text.len() && text[from] == SLASH {
        let first: usize = scan_segment(text, from + 1);
        if first == from + 1 {
            return Some(first);
        }
        let mut e: usize = first;
        let mut more: bool = true;
        while more
            invariant
                from < e <= text.len(),
                more_segments_end(text@, e as int) == more_segments_end(text@, first as int),
                !more ==> more_segments_end(text@, e as int) == e,
            decreases text.len() - e + (if more { 1int } else { 0int }),
        {
            if e < text.len() && text[e] == SLASH {
                let next: usize = scan_segment(text, e + 1);
                if next > e + 1 {
                    e = next;
                } else {
                    more = false;
                }
            } else {
                more = false;
            }
        }
        Some(e)
    } else {
        None
    }
}

/// The paths that go on from `from`, each behind a `:`, added to `found`,
/// and where they end. A `:` with no path behind it is not taken.
pub open spec fn more_paths(text: Seq<u8>, from: int, found: Seq<Seq<u8>>) -> (Seq<Seq<u8>>, int)
    decreases text.len() - from,
{
    if 0 <= from < text.len() && text[from] == COLON && path_end(text, from + 1) is Some && from
        + 1 < path_end(text, from + 1).unwrap() <= text.len() {
        let end = path_end(text, from + 1).unwrap();
        more_paths(text, end, found.push(text.subrange(from + 1, end)))
    } else {
        (found, from)
    }
}

/// The list of paths that starts at `from`, which may be empty, and where
/// it ends.
pub open spec fn path_list(text: Seq<u8>, from: int) -> (Seq<Seq<u8>>, int) {
    match path_end(text, from) {
        Some(end) => more_paths(text, end, seq![text.subrange(from, end)]),
        None => (Seq::empty(), from),
    }
}

/// The intent whose name stands at `from`: `LL_FS_RO` or `LL_FS_RW`.
pub open spec fn name_at(text: Seq<u8>, from: int) -> Option<Intent> {
    if 0 <= from && from + 8 <= text.len() && text[from] == 0x4c && text[from + 1] == 0x4c
        && text[from + 2] == 0x5f && text[from + 3] == 0x46 && text[from + 4] == 0x53 && text[from
        + 5] == 0x5f && text[from + 6] == 0x52 {
        if text[from + 7] == 0x4f {
            Some(Intent::ReadOnly)
        } else if text[from + 7] == 0x57 {
            Some(Intent::ReadWrite)
        } else {
            None
        }
    } else {
        None
    }
}

/// The entry that starts at `from` and where the text goes on behind it,
/// or `None` where no entry starts.
pub open spec fn entry_at(text: Seq<u8>, from: int) -> Option<(EntryView, int)> {
    match name_at(text, from) {
        None => None,
        Some(intent) => {
            let list = from + 10;
            if list <= text.len() && text[from + 8] == EQUALS && text[from + 9] == QUOTE {
                let (paths, end) = path_list(text, list);
                if list <= end < text.len() && text[end] == QUOTE {
                    let next = if end + 1 < text.len() && text[end + 1] == LINE_FEED {
                        end + 2
                    } else {
                        end + 1
                    };
                    Some((EntryView { intent, paths }, next))
                } else {
                    None
                }
            } else {
                None
            }
        },
    }
}

/// The entries that follow one another from `from` on, added to `found`,
/// and where the first thing stands that is no entry.
pub open spec fn entries_from(text: Seq<u8>, from: int, found: Seq<EntryView>) -> (
    Seq<EntryView>,
    int,
)
    decreases text.len() - from,
{
    match entry_at(text, from) {
        Some((entry, next)) => if from < next <= text.len() {
            entries_from(text, next, found.push(entry))
        } else {
            (found, from)
        },
        None => (found, from),
    }
}

/// The entries of a profile, where the whole text is entries; else `None`.
pub open spec fn profile(text: Seq<u8>) -> Option<Seq<EntryView>> {
    let (entries, end) = entries_from(text, 0, Seq::empty());
    if end == text.len() {
        Some(entries)
    } else {
        None
    }
}

fn copy_range(text: &[u8], from: usize, to: usize) -> (bytes: Vec<u8>)
    requires
        from <= to <= text.len(),
    ensures
        bytes@ == text@.subrange(from as int, to as int),
{
    let mut bytes: Vec<u8> = Vec::new();
    let mut i: usize = from;
    while i < to
        invariant
            from <= i <= to <= text.len(),
            bytes@ == text@.subrange(from as int, i as int),
        decreases to - i,
    {
        bytes.push(text[i]);
        i += 1;
        proof {
            assert(bytes@ =~= text@.subrange(from as int, i as int));
        }
    }
    bytes
}

/// Reads the list of paths that starts at `from`: the paths, and where the
/// list ends.
pub fn parse_path_list(text: &[u8], from: usize) -> (r: (Vec<Vec<u8>>, usize))
    requires
        from <= text.len(),
    ensures
        (paths_view(r.0@), r.1 as int) == path_list(text@, from as int),
        from <= r.1 <= text.len(),
{
    let mut paths: Vec<Vec<u8>> = Vec::new();
    match scan_path(text, from) {
        None => {
            proof {
                assert(paths_view(paths@) =~= Seq::empty());
            }
            (paths, from)
        },
        Some(first) => {
            paths.push(copy_range(text, from, first));
            proof {
                assert(paths_view(paths@) =~= seq![text@.subrange(from as int, first as int)]);
            }
            let mut e: usize = first;
            let mut more: bool = true;
            while more
                invariant
                    from < e <= text.len(),
                    more_paths(text@, e as int, paths_view(paths@)) == path_list(
                        text@,
                        from as int,
                    ),
                    !more ==> more_paths(text@, e as int, paths_view(paths@)) == (
                        paths_view(paths@),
                        e as int,
                    ),
                decreases text.len() - e + (if more { 1int } else { 0int }),
            {
                if e < text.len() && text[e] == COLON {
                    match scan_path(text, e + 1) {
                        Some(next) => {
                            let ghost before = paths_view(paths@);
                            paths.push(copy_range(text, e + 1, next));
                            proof {
                                assert(paths_view(paths@) =~= before.push(
                                    text@.subrange(e + 1, next as int),
                                ));
                            }
                            e = next;
                        },
                        None => {
                            more = false;
                        },
                    }
                } else {
                    more = false;
                }
            }
            (paths, e)
        },
    }
}

fn scan_name(text: &[u8], from: usize) -> (intent: Option<Intent>)
    requires
        from <= text.len(),
    ensures
        intent == name_at(text@, from as int),
{
    if text.len() - from < 8 {
        return None;
    }
    if text[from] == 0x4c && text[from + 1] == 0x4c && text[from + 2] == 0x5f && text[from + 3]
        == 0x46 && text[from + 4] == 0x53 && text[from + 5] == 0x5f && text[from + 6] == 0x52 {
        if text[from + 7] == 0x4f {
            Some(Intent::ReadOnly)
        } else if text[from + 7] == 0x57 {
            Some(Intent::ReadWrite)
        } else {
            None
        }
    } else {
        None
    }
}

/// Reads the entry that starts at `from`: the entry, and where the text
/// goes on behind it; `None` where no entry starts there.
pub fn parse_entry(text: &[u8], from: usize) -> (r: Option<(Entry, usize)>)
    requires
        from <= text.len(),
    ensures
        match r {
            Some((entry, next)) => entry_at(text@, from as int) == Some((entry@, next as int))
                && from < next <= text.len(),
            None => entry_at(text@, from as int) is None,
        },
{
    match scan_name(text, from) {
        None => None,
        Some(intent) => {
            if text.len() - from < 10 {
                return None;
            }
            if text[from + 8] != EQUALS || text[from + 9] != QUOTE {
                return None;
            }
            let (paths, end) = parse_path_list(text, from + 10);
            if end < text.len() && text[end] == QUOTE {
                let next: usize = if text.len() - end > 1 && text[end + 1] == LINE_FEED {
                    end + 2
                } else {
                    end + 1
                };
                Some((Entry { intent, paths }, next))
            } else {
                None
            }
        },
    }
}

/// Reads a whole profile. The entries come back in the order of the text;
/// `None` where some part of the text is no entry.
pub fn parse_profile(text: &[u8]) -> (r: Option<Vec<Entry>>)
    ensures
        match r {
            Some(entries) => profile(text@) == Some(entries_view(entries@)),
            None => profile(text@) is None,
        },
{
    let mut entries: Vec<Entry> = Vec::new();
    let mut at: usize = 0;
    let mut more: bool = true;
    proof {
        assert(entries_view(entries@) =~= Seq::empty());
    }
    while more
        invariant
            at <= text.len(),
            entries_from(text@, at as int, entries_view(entries@)) == entries_from(
                text@,
                0,
                Seq::empty(),
            ),
            !more ==> entries_from(text@, at as int, entries_view(entries@)) == (
                entries_view(entries@),
                at as int,
            ),
        decreases text.len() - at + (if more { 1int } else { 0int }),
    {
        match parse_entry(text, at) {
            Some((entry, next)) => {
                let ghost before = entries_view(entries@);
                let ghost added = entry@;
                entries.push(entry);
                proof {
                    assert(entries_view(entries@) =~= before.push(added));
                }
                at = next;
            },
            None => {
                more = false;
            },
        }
    }
    if at == text.len() {
        Some(entries)
    } else {
        None
    }
}

} // verus!
