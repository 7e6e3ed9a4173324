//! What the profile grammar accepts, said without a parser: which paths are
//! well-formed, what it means for entries to stand in a text, and the proofs
//! that the parser reads exactly that.

use crate::profile::{
    entries_from, entry_at, more_paths, more_segments_end, name_at, path_end, path_list, profile,
    segment_end, spec_is_alnum, EntryView, COLON, EQUALS, LINE_FEED, QUOTE, SLASH,
};
use vstd::prelude::*;

verus! {

/// A well-formed path: absolute, made of `/`, letters and digits, with a
/// letter or digit behind every `/` unless the path is `/` alone. So it has
/// no empty segment, no `.` or `..`, and no `/` at its end.
pub open spec fn valid_path(path: Seq<u8>) -> bool {
    &&& path.len() >= 1
    &&& path[0] == SLASH
    &&& forall|i: int| 0 <= i < path.len() ==> #[trigger] path[i] == SLASH || spec_is_alnum(path[i])
    &&& path.len() > 1 ==> forall|i: int|
        0 <= i < path.len() && #[trigger] path[i] == SLASH ==> i + 1 < path.len() && spec_is_alnum(
            path[i + 1],
        )
}

/// Every path of the list is well-formed.
pub open spec fn valid_paths(paths: Seq<Seq<u8>>) -> bool {
    forall|i: int| 0 <= i < paths.len() ==> valid_path(#[trigger] paths[i])
}

/// Every path of every entry is well-formed.
pub open spec fn valid_entries(entries: Seq<EntryView>) -> bool {
    forall|i: int| 0 <= i < entries.len() ==> valid_paths((#[trigger] entries[i]).paths)
}

/// From `from` up to `to`, the text is letters, digits and `/`, with a
/// letter or digit behind every `/`.
spec fn segments_between(text: Seq<u8>, from: int, to: int) -> bool {
    &&& forall|i: int| from <= i < to ==> #[trigger] text[i] == SLASH || spec_is_alnum(text[i])
    &&& forall|i: int|
        from <= i < to && #[trigger] text[i] == SLASH ==> i + 1 < to && spec_is_alnum(text[i + 1])
}

proof fn lemma_segment_is_alnum(text: Seq<u8>, from: int)
    requires
        0 <= from <= text.len(),
    ensures
        from <= segment_end(text, from) <= text.len(),
        forall|i: int| from <= i < segment_end(text, from) ==> spec_is_alnum(#[trigger] text[i]),
    decreases text.len() - from,
{
    if from < text.len() && spec_is_alnum(text[from]) {
        lemma_segment_is_alnum(text, from + 1);
    }
}

proof fn lemma_more_segments(text: Seq<u8>, from: int)
    requires
        0 <= from <= text.len(),
    ensures
        from <= more_segments_end(text, from) <= text.len(),
        segments_between(text, from, more_segments_end(text, from)),
    decreases text.len() - from,
{
    if from < text.len() && text[from] == SLASH && from + 1 < segment_end(text, from + 1)
        <= text.len() {
        let s = segment_end(text, from + 1);
        lemma_segment_is_alnum(text, from + 1);
        lemma_more_segments(text, s);
        let e = more_segments_end(text, s);
        assert(spec_is_alnum(text[from + 1]));
        assert forall|i: int| from <= i < e && #[trigger] text[i] == SLASH implies i + 1 < e
            && spec_is_alnum(text[i + 1]) by {
            if i < s {
                assert(i == from);
            }
        }
    }
}

/// Where a path is read, it is a well-formed path.
pub proof fn lemma_path_is_valid(text: Seq<u8>, from: int)
    requires
        0 <= from <= text.len(),
        path_end(text, from) is Some,
    ensures
        from < path_end(text, from).unwrap() <= text.len(),
        valid_path(text.subrange(from, path_end(text, from).unwrap())),
{
    let s = segment_end(text, from + 1);
    lemma_segment_is_alnum(text, from + 1);
    let end = path_end(text, from).unwrap();
    let path = text.subrange(from, end);
    if s > from + 1 {
        lemma_more_segments(text, s);
        assert(spec_is_alnum(text[from + 1]));
        assert forall|i: int| 0 <= i < path.len() implies #[trigger] path[i] == SLASH
            || spec_is_alnum(path[i]) by {
            let k = from + i;
            if from + 1 <= k < s {
                assert(spec_is_alnum(text[k]));
            } else if k >= s {
                assert(text[k] == SLASH || spec_is_alnum(text[k]));
            }
        }
        assert forall|i: int| 0 <= i < path.len() && #[trigger] path[i] == SLASH implies i + 1
            < path.len() && spec_is_alnum(path[i + 1]) by {
            let k = from + i;
            if from + 1 <= k < s {
                assert(spec_is_alnum(text[k]));
            } else if k >= s {
                assert(text[k] == SLASH);
                assert(path[i + 1] == text[k + 1]);
            }
        }
    }
}

/// Whether a path that ends at `end` cannot go on there: the text is over,
/// or what comes is neither a letter, a digit nor a `/`.
pub open spec fn path_stops(text: Seq<u8>, end: int) -> bool {
    end == text.len() || (0 <= end < text.len() && !spec_is_alnum(text[end]) && text[end] != SLASH)
}

proof fn lemma_segment_end_stops(text: Seq<u8>, from: int, stop: int)
    requires
        0 <= from <= stop <= text.len(),
        stop == text.len() || !spec_is_alnum(text[stop]),
    ensures
        from <= segment_end(text, from) <= stop,
        segment_end(text, from) == text.len() || !spec_is_alnum(text[segment_end(text, from)]),
    decreases text.len() - from,
{
    if from < text.len() && spec_is_alnum(text[from]) {
        lemma_segment_end_stops(text, from + 1, stop);
    }
}

proof fn lemma_more_segments_reach(text: Seq<u8>, from: int, end: int)
    requires
        0 <= from <= end <= text.len(),
        segments_between(text, from, end),
        from == end || text[from] == SLASH,
        path_stops(text, end),
    ensures
        more_segments_end(text, from) == end,
    decreases end - from,
{
    if from < end {
        assert(spec_is_alnum(text[from + 1]));
        lemma_segment_end_stops(text, from + 1, end);
        let next = segment_end(text, from + 1);
        assert(next > from + 1);
        if next < end {
            assert(text[next] == SLASH || spec_is_alnum(text[next]));
        }
        lemma_more_segments_reach(text, next, end);
    }
}

/// A well-formed path that cannot go on where it ends is read whole: with
/// `lemma_path_is_valid`, the paths that are read are exactly the
/// well-formed ones.
pub proof fn lemma_valid_path_is_read(text: Seq<u8>, from: int, end: int)
    requires
        0 <= from < end <= text.len(),
        valid_path(text.subrange(from, end)),
        path_stops(text, end),
    ensures
        path_end(text, from) == Some(end),
{
    let path = text.subrange(from, end);
    assert(path[0] == text[from]);
    if end == from + 1 {
        lemma_segment_end_stops(text, from + 1, end);
    } else {
        assert(path[0] == SLASH);
        assert(path[1] == text[from + 1]);
        assert(spec_is_alnum(text[from + 1]));
        lemma_segment_end_stops(text, from + 1, end);
        let first = segment_end(text, from + 1);
        assert forall|i: int| first <= i < end implies (#[trigger] text[i] == SLASH
            || spec_is_alnum(text[i])) by {
            assert(path[i - from] == text[i]);
        }
        assert forall|i: int| first <= i < end && #[trigger] text[i] == SLASH implies i + 1 < end
            && spec_is_alnum(text[i + 1]) by {
            assert(path[i - from] == text[i]);
            assert(path[i - from + 1] == text[i + 1]);
        }
        if first < end {
            assert(path[first - from] == text[first]);
        }
        lemma_more_segments_reach(text, first, end);
    }
}

proof fn lemma_more_paths_valid(text: Seq<u8>, from: int, found: Seq<Seq<u8>>)
    requires
        0 <= from <= text.len(),
        valid_paths(found),
    ensures
        valid_paths(more_paths(text, from, found).0),
        from <= more_paths(text, from, found).1 <= text.len(),
    decreases text.len() - from,
{
    if from < text.len() && text[from] == COLON && path_end(text, from + 1) is Some && from + 1
        < path_end(text, from + 1).unwrap() <= text.len() {
        let end = path_end(text, from + 1).unwrap();
        lemma_path_is_valid(text, from + 1);
        lemma_more_paths_valid(text, end, found.push(text.subrange(from + 1, end)));
    }
}

/// Every path that a list of paths holds is well-formed.
pub proof fn lemma_path_list_is_valid(text: Seq<u8>, from: int)
    requires
        0 <= from <= text.len(),
    ensures
        valid_paths(path_list(text, from).0),
        from <= path_list(text, from).1 <= text.len(),
{
    if path_end(text, from) is Some {
        let end = path_end(text, from).unwrap();
        lemma_path_is_valid(text, from);
        lemma_more_paths_valid(text, end, seq![text.subrange(from, end)]);
    }
}

proof fn lemma_entries_valid(text: Seq<u8>, from: int, found: Seq<EntryView>)
    requires
        0 <= from <= text.len(),
        valid_entries(found),
    ensures
        valid_entries(entries_from(text, from, found).0),
    decreases text.len() - from,
{
    match entry_at(text, from) {
        Some((entry, next)) => {
            if from < next <= text.len() {
                lemma_path_list_is_valid(text, from + 10);
                lemma_entries_valid(text, next, found.push(entry));
            }
        },
        None => {},
    }
}

/// Every path of a profile that is read is well-formed.
pub proof fn lemma_profile_is_valid(text: Seq<u8>)
    requires
        profile(text) is Some,
    ensures
        valid_entries(profile(text).unwrap()),
{
    lemma_entries_valid(text, 0, Seq::empty());
}

/// Whether `paths`, one at least, stand in the text from `from` to `end`
/// with one `:` between each two.
pub open spec fn paths_laid(text: Seq<u8>, from: int, paths: Seq<Seq<u8>>, end: int) -> bool
    decreases paths.len(),
{
    if paths.len() == 0 {
        false
    } else {
        let stop = from + paths[0].len();
        &&& 0 <= from
        &&& stop <= end <= text.len()
        &&& text.subrange(from, stop) == paths[0]
        &&& if paths.len() == 1 {
            stop == end
        } else {
            stop < end && text[stop] == COLON && paths_laid(
                text,
                stop + 1,
                paths.drop_first(),
                end,
            )
        }
    }
}

/// Whether the list `paths`, which may be empty, stands in the text from
/// `from` to `end`.
pub open spec fn list_laid(text: Seq<u8>, from: int, paths: Seq<Seq<u8>>, end: int) -> bool {
    if paths.len() == 0 {
        0 <= from == end <= text.len()
    } else {
        paths_laid(text, from, paths, end)
    }
}

/// Whether `entry` stands in the text at `from`, with the quote that closes
/// its list at `quote`, and the text goes on at `next`: behind the quote, or
/// behind the line feed that follows the quote.
pub open spec fn entry_laid(text: Seq<u8>, from: int, entry: EntryView, quote: int, next: int) -> bool {
    &&& name_at(text, from) == Some(entry.intent)
    &&& from + 10 <= quote < text.len()
    &&& text[from + 8] == EQUALS
    &&& text[from + 9] == QUOTE
    &&& list_laid(text, from + 10, entry.paths, quote)
    &&& text[quote] == QUOTE
    &&& next == if quote + 1 < text.len() && text[quote + 1] == LINE_FEED {
        quote + 2
    } else {
        quote + 1
    }
}

/// Whether `entries` stand in the text one behind the other, from `from`
/// to `end`.
pub open spec fn entries_laid(text: Seq<u8>, from: int, entries: Seq<EntryView>, end: int) -> bool
    decreases entries.len(),
{
    if entries.len() == 0 {
        from == end
    } else {
        exists|quote: int, next: int|
            #[trigger] entry_laid(text, from, entries[0], quote, next) && entries_laid(
                text,
                next,
                entries.drop_first(),
                end,
            )
    }
}

/// Whether `rest` stands in the text from `at` to `end` as what follows a
/// path: nothing, or a `:` and one path at least.
pub open spec fn rest_laid(text: Seq<u8>, at: int, rest: Seq<Seq<u8>>, end: int) -> bool {
    if rest.len() == 0 {
        at == end
    } else {
        0 <= at < text.len() && text[at] == COLON && paths_laid(text, at + 1, rest, end)
    }
}

proof fn lemma_more_paths_reach(
    text: Seq<u8>,
    at: int,
    found: Seq<Seq<u8>>,
    rest: Seq<Seq<u8>>,
    end: int,
)
    requires
        0 <= at <= end < text.len(),
        text[end] == QUOTE,
        valid_paths(rest),
        rest_laid(text, at, rest, end),
    ensures
        more_paths(text, at, found) == (found + rest, end),
    decreases rest.len(),
{
    if rest.len() == 0 {
        assert(found + rest =~= found);
    } else {
        let stop = at + 1 + rest[0].len();
        assert(valid_path(rest[0]));
        lemma_valid_path_is_read(text, at + 1, stop);
        assert(valid_paths(rest.drop_first())) by {
            assert forall|i: int| 0 <= i < rest.drop_first().len() implies valid_path(
                #[trigger] rest.drop_first()[i],
            ) by {
                assert(rest.drop_first()[i] == rest[i + 1]);
            }
        }
        lemma_more_paths_reach(text, stop, found.push(rest[0]), rest.drop_first(), end);
        assert(found.push(rest[0]) + rest.drop_first() =~= found + rest);
    }
}

/// A list of well-formed paths that stands in the text before a quote is
/// read as it stands.
pub proof fn lemma_laid_list_is_read(text: Seq<u8>, from: int, paths: Seq<Seq<u8>>, end: int)
    requires
        list_laid(text, from, paths, end),
        valid_paths(paths),
        end < text.len(),
        text[end] == QUOTE,
    ensures
        path_list(text, from) == (paths, end),
{
    if paths.len() == 0 {
        assert(paths =~= Seq::empty());
    } else {
        let stop = from + paths[0].len();
        assert(valid_path(paths[0]));
        lemma_valid_path_is_read(text, from, stop);
        assert(valid_paths(paths.drop_first())) by {
            assert forall|i: int| 0 <= i < paths.drop_first().len() implies valid_path(
                #[trigger] paths.drop_first()[i],
            ) by {
                assert(paths.drop_first()[i] == paths[i + 1]);
            }
        }
        lemma_more_paths_reach(text, stop, seq![paths[0]], paths.drop_first(), end);
        assert(seq![paths[0]] + paths.drop_first() =~= paths);
    }
}

/// An entry of well-formed paths that stands in the text is read as it
/// stands.
pub proof fn lemma_laid_entry_is_read(
    text: Seq<u8>,
    from: int,
    entry: EntryView,
    quote: int,
    next: int,
)
    requires
        entry_laid(text, from, entry, quote, next),
        valid_paths(entry.paths),
    ensures
        entry_at(text, from) == Some((entry, next)),
        from < next <= text.len(),
{
    lemma_laid_list_is_read(text, from + 10, entry.paths, quote);
}

proof fn lemma_entries_reach(
    text: Seq<u8>,
    from: int,
    found: Seq<EntryView>,
    entries: Seq<EntryView>,
)
    requires
        entries_laid(text, from, entries, text.len() as int),
        valid_entries(entries),
    ensures
        entries_from(text, from, found) == (found + entries, text.len() as int),
    decreases entries.len(),
{
    if entries.len() == 0 {
        assert(found + entries =~= found);
    } else {
        let (quote, next) = choose|quote: int, next: int|
            #[trigger] entry_laid(text, from, entries[0], quote, next) && entries_laid(
                text,
                next,
                entries.drop_first(),
                text.len() as int,
            );
        assert(valid_paths(entries[0].paths));
        lemma_laid_entry_is_read(text, from, entries[0], quote, next);
        assert(valid_entries(entries.drop_first())) by {
            assert forall|i: int| 0 <= i < entries.drop_first().len() implies valid_paths(
                (#[trigger] entries.drop_first()[i]).paths,
            ) by {
                assert(entries.drop_first()[i] == entries[i + 1]);
            }
        }
        lemma_entries_reach(text, next, found.push(entries[0]), entries.drop_first());
        assert(found.push(entries[0]) + entries.drop_first() =~= found + entries);
    }
}

/// A text that is made of entries of well-formed paths, one behind the
/// other and nothing else, is read as those entries.
pub proof fn lemma_laid_profile_is_read(text: Seq<u8>, entries: Seq<EntryView>)
    requires
        entries_laid(text, 0, entries, text.len() as int),
        valid_entries(entries),
    ensures
        profile(text) == Some(entries),
{
    lemma_entries_reach(text, 0, Seq::empty(), entries);
    assert(Seq::<EntryView>::empty() + entries =~= entries);
}

proof fn lemma_more_paths_split(text: Seq<u8>, at: int, found: Seq<Seq<u8>>)
    ensures
        more_paths(text, at, found) == (
            found + more_paths(text, at, Seq::empty()).0,
            more_paths(text, at, Seq::empty()).1,
        ),
    decreases text.len() - at,
{
    if 0 <= at < text.len() && text[at] == COLON && path_end(text, at + 1) is Some && at + 1
        < path_end(text, at + 1).unwrap() <= text.len() {
        let end = path_end(text, at + 1).unwrap();
        let path = text.subrange(at + 1, end);
        lemma_more_paths_split(text, end, found.push(path));
        lemma_more_paths_split(text, end, Seq::<Seq<u8>>::empty().push(path));
        let tail = more_paths(text, end, Seq::empty()).0;
        assert(found.push(path) + tail =~= found + (Seq::<Seq<u8>>::empty().push(path) + tail));
    } else {
        assert(found + Seq::<Seq<u8>>::empty() =~= found);
    }
}

proof fn lemma_more_paths_laid(text: Seq<u8>, at: int)
    requires
        0 <= at <= text.len(),
    ensures
        rest_laid(
            text,
            at,
            more_paths(text, at, Seq::empty()).0,
            more_paths(text, at, Seq::empty()).1,
        ),
        at <= more_paths(text, at, Seq::empty()).1 <= text.len(),
    decreases text.len() - at,
{
    if at < text.len() && text[at] == COLON && path_end(text, at + 1) is Some && at + 1 < path_end(
        text,
        at + 1,
    ).unwrap() <= text.len() {
        let stop = path_end(text, at + 1).unwrap();
        let path = text.subrange(at + 1, stop);
        let first = Seq::<Seq<u8>>::empty().push(path);
        lemma_more_paths_split(text, stop, first);
        lemma_more_paths_laid(text, stop);
        let tail = more_paths(text, stop, Seq::empty()).0;
        let end = more_paths(text, stop, Seq::empty()).1;
        lemma_laid_behind(text, at + 1, stop, tail, end);
        assert(first + tail =~= seq![path] + tail);
    }
}

/// A path that stands from `from` to `stop`, with `tail` laid out behind
/// it, makes a laid-out list with the path in front.
proof fn lemma_laid_behind(text: Seq<u8>, from: int, stop: int, tail: Seq<Seq<u8>>, end: int)
    requires
        0 <= from < stop <= text.len(),
        stop <= end <= text.len(),
        rest_laid(text, stop, tail, end),
    ensures
        paths_laid(text, from, seq![text.subrange(from, stop)] + tail, end),
{
    let all = seq![text.subrange(from, stop)] + tail;
    assert(all[0] == text.subrange(from, stop));
    assert(all.drop_first() =~= tail);
}

/// What a list of paths is read as is what stands in the text.
pub proof fn lemma_read_list_is_laid(text: Seq<u8>, from: int)
    requires
        0 <= from <= text.len(),
    ensures
        list_laid(text, from, path_list(text, from).0, path_list(text, from).1),
{
    if path_end(text, from) is Some {
        let stop = path_end(text, from).unwrap();
        lemma_path_is_valid(text, from);
        lemma_more_paths_split(text, stop, seq![text.subrange(from, stop)]);
        lemma_more_paths_laid(text, stop);
        let tail = more_paths(text, stop, Seq::empty()).0;
        let end = more_paths(text, stop, Seq::empty()).1;
        lemma_laid_behind(text, from, stop, tail, end);
    }
}

/// What an entry is read as is what stands in the text.
pub proof fn lemma_read_entry_is_laid(text: Seq<u8>, from: int)
    requires
        0 <= from <= text.len(),
        entry_at(text, from) is Some,
    ensures
        entry_laid(
            text,
            from,
            entry_at(text, from).unwrap().0,
            path_list(text, from + 10).1,
            entry_at(text, from).unwrap().1,
        ),
        from < entry_at(text, from).unwrap().1 <= text.len(),
{
    lemma_read_list_is_laid(text, from + 10);
}

proof fn lemma_entries_split(text: Seq<u8>, from: int, found: Seq<EntryView>)
    ensures
        entries_from(text, from, found) == (
            found + entries_from(text, from, Seq::empty()).0,
            entries_from(text, from, Seq::empty()).1,
        ),
    decreases text.len() - from,
{
    match entry_at(text, from) {
        Some((entry, next)) => {
            if from < next <= text.len() {
                let first = Seq::<EntryView>::empty().push(entry);
                lemma_entries_split(text, next, found.push(entry));
                lemma_entries_split(text, next, first);
                let tail = entries_from(text, next, Seq::empty()).0;
                assert(found.push(entry) + tail =~= found + (first + tail));
            } else {
                assert(found + Seq::<EntryView>::empty() =~= found);
            }
        },
        None => {
            assert(found + Seq::<EntryView>::empty() =~= found);
        },
    }
}

proof fn lemma_entries_laid(text: Seq<u8>, from: int)
    requires
        0 <= from <= text.len(),
    ensures
        entries_laid(
            text,
            from,
            entries_from(text, from, Seq::empty()).0,
            entries_from(text, from, Seq::empty()).1,
        ),
    decreases text.len() - from,
{
    match entry_at(text, from) {
        Some((entry, next)) => {
            if from < next <= text.len() {
                let first = Seq::<EntryView>::empty().push(entry);
                lemma_entries_split(text, next, first);
                lemma_entries_laid(text, next);
                lemma_read_entry_is_laid(text, from);
                let tail = entries_from(text, next, Seq::empty()).0;
                let all = first + tail;
                assert(all[0] == entry);
                assert(all.drop_first() =~= tail);
                assert(entry_laid(text, from, all[0], path_list(text, from + 10).1, next));
            }
        },
        None => {},
    }
}

/// A profile that is read is what stands in the text: its entries, one
/// behind the other, and nothing else. With `lemma_profile_is_valid` and
/// `lemma_laid_profile_is_read`, a text is read as `entries` exactly when it
/// is made of those entries and their paths are well-formed.
pub proof fn lemma_read_profile_is_laid(text: Seq<u8>)
    requires
        profile(text) is Some,
    ensures
        entries_laid(text, 0, profile(text).unwrap(), text.len() as int),
{
    lemma_entries_laid(text, 0);
}

/// A text is read as `entries` exactly when it is made of those entries,
/// one behind the other and nothing else, and all their paths are
/// well-formed.
pub proof fn lemma_profile_reads_exactly(text: Seq<u8>, entries: Seq<EntryView>)
    ensures
        profile(text) == Some(entries) <==> valid_entries(entries) && entries_laid(
            text,
            0,
            entries,
            text.len() as int,
        ),
{
    if profile(text) == Some(entries) {
        lemma_profile_is_valid(text);
        lemma_read_profile_is_laid(text);
    }
    if valid_entries(entries) && entries_laid(text, 0, entries, text.len() as int) {
        lemma_laid_profile_is_read(text, entries);
    }
}

} // verus!
