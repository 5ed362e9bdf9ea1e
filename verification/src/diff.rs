//! The differences between a saved playlist and its current state.
use vstd::prelude::*;

use crate::track::{
    comparable, compare_items, comparison_of, items_match, lemma_same_iff_match, Comparison,
    PlayableInfo,
};

verus! {

/// One line of a playlist comparison; positions count from 0.
pub enum DiffEvent {
    /// The saved entry `from` is found first at position `to` of the current list.
    Moved { from: usize, to: usize },
    /// The saved entry `index` is not found in the current list.
    Added { index: usize },
    /// The saved entry `index` is reported removed, showing the current entry `at`.
    Removed { index: usize, at: usize },
    /// The current entry `index` is not found in the saved list.
    New { index: usize },
}

/// The first position `j >= from` of `list` whose entry holds the same song as `item`.
pub open spec fn first_match_from(
    item: Option<PlayableInfo>,
    list: Seq<Option<PlayableInfo>>,
    from: int,
) -> Option<int>
    decreases list.len() - from,
{
    if from < 0 || from >= list.len() {
        None
    } else if items_match(item, list[from]) {
        Some(from)
    } else {
        first_match_from(item, list, from + 1)
    }
}

/// Some entry of `saved` holds the same song as `item`.
pub open spec fn found_in_saved(saved: Seq<Option<PlayableInfo>>, item: Option<PlayableInfo>) -> bool {
    exists|j: int| 0 <= j < saved.len() && #[trigger] items_match(saved[j], item)
}

/// The events of the first `len` saved entries: an entry found first elsewhere
/// is moved, an entry found nowhere is reported added.
pub open spec fn saved_events(
    saved: Seq<Option<PlayableInfo>>,
    current: Seq<Option<PlayableInfo>>,
    len: int,
) -> Seq<DiffEvent>
    decreases len,
{
    if len <= 0 {
        Seq::empty()
    } else {
        let i = len - 1;
        let prev = saved_events(saved, current, i);
        match first_match_from(saved[i], current, 0) {
            Some(j) => if j != i {
                prev.push(DiffEvent::Moved { from: i as usize, to: j as usize })
            } else {
                prev
            },
            None => prev.push(DiffEvent::Added { index: i as usize }),
        }
    }
}

/// The events of the first `len` current entries: an entry found nowhere in the
/// saved list is new.
pub open spec fn current_events(
    saved: Seq<Option<PlayableInfo>>,
    current: Seq<Option<PlayableInfo>>,
    len: int,
) -> Seq<DiffEvent>
    decreases len,
{
    if len <= 0 {
        Seq::empty()
    } else {
        let i = len - 1;
        let prev = current_events(saved, current, i);
        if found_in_saved(saved, current[i]) {
            prev
        } else {
            prev.push(DiffEvent::New { index: i as usize })
        }
    }
}

/// The comparison of a saved list with the current one: the events of the saved
/// entries in order, then those of the current entries in order.
pub open spec fn diff_events(
    saved: Seq<Option<PlayableInfo>>,
    current: Seq<Option<PlayableInfo>>,
) -> Seq<DiffEvent> {
    saved_events(saved, current, saved.len() as int) + current_events(
        saved,
        current,
        current.len() as int,
    )
}

/// Every saved entry can be compared with every current one.
pub open spec fn all_comparable(
    saved: Seq<Option<PlayableInfo>>,
    current: Seq<Option<PlayableInfo>>,
) -> bool {
    forall|i: int, j: int|
        0 <= i < saved.len() && 0 <= j < current.len() ==> #[trigger] comparable(
            saved[i],
            current[j],
        )
}

/// Skipping positions that do not match leaves the first match unchanged.
pub proof fn lemma_first_match_skip(
    item: Option<PlayableInfo>,
    list: Seq<Option<PlayableInfo>>,
    from: int,
    to: int,
)
    requires
        0 <= from <= to <= list.len(),
        forall|k: int| from <= k < to ==> !#[trigger] items_match(item, list[k]),
    ensures
        first_match_from(item, list, from) == first_match_from(item, list, to),
    decreases to - from,
{
    if from < to {
        lemma_first_match_skip(item, list, from + 1, to);
    }
}

/// Whether every saved entry can be compared with every current one.
pub fn check_comparable(
    saved: &Vec<Option<PlayableInfo>>,
    current: &Vec<Option<PlayableInfo>>,
) -> (res: bool)
    ensures
        res == all_comparable(saved@, current@),
{
    let mut i: usize = 0;
    while i < saved.len()
        invariant
            i <= saved.len(),
            forall|a: int, b: int|
                0 <= a < i && 0 <= b < current@.len() ==> #[trigger] comparable(
                    saved@[a],
                    current@[b],
                ),
        decreases saved.len() - i,
    {
        let mut j: usize = 0;
        while j < current.len()
            invariant
                i < saved.len(),
                j <= current.len(),
                forall|a: int, b: int|
                    0 <= a < i && 0 <= b < current@.len() ==> #[trigger] comparable(
                        saved@[a],
                        current@[b],
                    ),
                forall|b: int| 0 <= b < j ==> #[trigger] comparable(saved@[i as int], current@[b]),
            decreases current.len() - j,
        {
            if !crate::track::is_comparable(&saved[i], &current[j]) {
                return false;
            }
            j = j + 1;
        }
        i = i + 1;
    }
    true
}

/// One line of the report of a playlist comparison: the outcome of comparing a
/// saved entry with a current one, or an event.
pub enum DiffLine {
    Compared { saved: usize, current: usize, outcome: Comparison },
    Event(DiffEvent),
}

/// The comparisons of saved entry `i` with the current entries `0..to`.
pub open spec fn saved_search(
    saved: Seq<Option<PlayableInfo>>,
    current: Seq<Option<PlayableInfo>>,
    i: int,
    to: int,
) -> Seq<DiffLine>
    decreases to,
{
    if to <= 0 {
        Seq::empty()
    } else {
        saved_search(saved, current, i, to - 1).push(
            DiffLine::Compared {
                saved: i as usize,
                current: (to - 1) as usize,
                outcome: comparison_of(saved[i], current[to - 1]),
            },
        )
    }
}

/// How many entries the search for `item` in `list` compares: up to and with the
/// first match, or all of them.
pub open spec fn searched(item: Option<PlayableInfo>, list: Seq<Option<PlayableInfo>>) -> int {
    match first_match_from(item, list, 0) {
        Some(j) => j + 1,
        None => list.len() as int,
    }
}

/// The event of saved entry `i`, as a line, if any.
pub open spec fn saved_event_line(
    saved: Seq<Option<PlayableInfo>>,
    current: Seq<Option<PlayableInfo>>,
    i: int,
) -> Seq<DiffLine> {
    match first_match_from(saved[i], current, 0) {
        Some(j) => if j != i {
            seq![DiffLine::Event(DiffEvent::Moved { from: i as usize, to: j as usize })]
        } else {
            Seq::empty()
        },
        None => seq![DiffLine::Event(DiffEvent::Added { index: i as usize })],
    }
}

/// The lines of the first `len` saved entries: the comparisons of each with the
/// current entries until the first match, then its event.
pub open spec fn saved_lines(
    saved: Seq<Option<PlayableInfo>>,
    current: Seq<Option<PlayableInfo>>,
    len: int,
) -> Seq<DiffLine>
    decreases len,
{
    if len <= 0 {
        Seq::empty()
    } else {
        let i = len - 1;
        saved_lines(saved, current, i) + saved_search(saved, current, i, searched(saved[i], current))
            + saved_event_line(saved, current, i)
    }
}

/// The first position `j >= from` of `saved` whose entry holds the same song as `item`.
pub open spec fn first_saved_match_from(
    saved: Seq<Option<PlayableInfo>>,
    item: Option<PlayableInfo>,
    from: int,
) -> Option<int>
    decreases saved.len() - from,
{
    if from < 0 || from >= saved.len() {
        None
    } else if items_match(saved[from], item) {
        Some(from)
    } else {
        first_saved_match_from(saved, item, from + 1)
    }
}

/// The comparisons of the saved entries `0..to` with current entry `i`.
pub open spec fn current_search(
    saved: Seq<Option<PlayableInfo>>,
    current: Seq<Option<PlayableInfo>>,
    i: int,
    to: int,
) -> Seq<DiffLine>
    decreases to,
{
    if to <= 0 {
        Seq::empty()
    } else {
        current_search(saved, current, i, to - 1).push(
            DiffLine::Compared {
                saved: (to - 1) as usize,
                current: i as usize,
                outcome: comparison_of(saved[to - 1], current[i]),
            },
        )
    }
}

/// How many saved entries the search for `item` compares.
pub open spec fn searched_saved(saved: Seq<Option<PlayableInfo>>, item: Option<PlayableInfo>) -> int {
    match first_saved_match_from(saved, item, 0) {
        Some(j) => j + 1,
        None => saved.len() as int,
    }
}

/// The lines of the first `len` current entries: the comparisons of each with the
/// saved entries until the first match, then `New` when there is none.
pub open spec fn current_lines(
    saved: Seq<Option<PlayableInfo>>,
    current: Seq<Option<PlayableInfo>>,
    len: int,
) -> Seq<DiffLine>
    decreases len,
{
    if len <= 0 {
        Seq::empty()
    } else {
        let i = len - 1;
        current_lines(saved, current, i) + current_search(
            saved,
            current,
            i,
            searched_saved(saved, current[i]),
        ) + if found_in_saved(saved, current[i]) {
            Seq::empty()
        } else {
            seq![DiffLine::Event(DiffEvent::New { index: i as usize })]
        }
    }
}

/// The full report of comparing a saved list with the current one.
pub open spec fn diff_lines(
    saved: Seq<Option<PlayableInfo>>,
    current: Seq<Option<PlayableInfo>>,
) -> Seq<DiffLine> {
    saved_lines(saved, current, saved.len() as int) + current_lines(
        saved,
        current,
        current.len() as int,
    )
}

/// The events among report lines, in order.
pub open spec fn events_of(lines: Seq<DiffLine>) -> Seq<DiffEvent>
    decreases lines.len(),
{
    if lines.len() == 0 {
        Seq::empty()
    } else {
        match lines.last() {
            DiffLine::Event(e) => events_of(lines.drop_last()).push(e),
            DiffLine::Compared { .. } => events_of(lines.drop_last()),
        }
    }
}

/// The events of two report parts follow each other.
pub proof fn lemma_events_of_concat(a: Seq<DiffLine>, b: Seq<DiffLine>)
    ensures
        events_of(a + b) == events_of(a) + events_of(b),
    decreases b.len(),
{
    if b.len() == 0 {
        assert(a + b =~= a);
        assert(events_of(b) =~= Seq::<DiffEvent>::empty());
        assert(events_of(a) + events_of(b) =~= events_of(a));
    } else {
        lemma_events_of_concat(a, b.drop_last());
        assert((a + b).drop_last() =~= a + b.drop_last());
        assert((a + b).last() == b.last());
        match b.last() {
            DiffLine::Event(e) => {
                assert(events_of(a) + events_of(b) =~= (events_of(a) + events_of(b.drop_last())).push(
                    e,
                ));
            },
            DiffLine::Compared { .. } => {},
        }
    }
}

/// The comparisons of a search hold no event.
proof fn lemma_saved_search_no_events(
    saved: Seq<Option<PlayableInfo>>,
    current: Seq<Option<PlayableInfo>>,
    i: int,
    to: int,
)
    ensures
        events_of(saved_search(saved, current, i, to)) == Seq::<DiffEvent>::empty(),
    decreases to,
{
    if to > 0 {
        lemma_saved_search_no_events(saved, current, i, to - 1);
        let s = saved_search(saved, current, i, to);
        assert(s.drop_last() =~= saved_search(saved, current, i, to - 1));
    }
}

/// The comparisons of a search hold no event.
proof fn lemma_current_search_no_events(
    saved: Seq<Option<PlayableInfo>>,
    current: Seq<Option<PlayableInfo>>,
    i: int,
    to: int,
)
    ensures
        events_of(current_search(saved, current, i, to)) == Seq::<DiffEvent>::empty(),
    decreases to,
{
    if to > 0 {
        lemma_current_search_no_events(saved, current, i, to - 1);
        let s = current_search(saved, current, i, to);
        assert(s.drop_last() =~= current_search(saved, current, i, to - 1));
    }
}

/// The events of one line list.
proof fn lemma_events_of_single(e: DiffEvent)
    ensures
        events_of(seq![DiffLine::Event(e)]) == seq![e],
{
    let s = seq![DiffLine::Event(e)];
    assert(s.drop_last() =~= Seq::<DiffLine>::empty());
    assert(s.last() == DiffLine::Event(e));
    assert(events_of(Seq::<DiffLine>::empty()) == Seq::<DiffEvent>::empty());
    assert(events_of(s) == events_of(s.drop_last()).push(e));
    assert(Seq::<DiffEvent>::empty().push(e) =~= seq![e]);
}

/// The events of the saved part of the report are the saved events.
proof fn lemma_saved_lines_events(
    saved: Seq<Option<PlayableInfo>>,
    current: Seq<Option<PlayableInfo>>,
    len: int,
)
    ensures
        events_of(saved_lines(saved, current, len)) == saved_events(saved, current, len),
    decreases len,
{
    if len > 0 {
        let i = len - 1;
        lemma_saved_lines_events(saved, current, i);
        let a = saved_lines(saved, current, i);
        let b = saved_search(saved, current, i, searched(saved[i], current));
        let c = saved_event_line(saved, current, i);
        lemma_events_of_concat(a + b, c);
        lemma_events_of_concat(a, b);
        lemma_saved_search_no_events(saved, current, i, searched(saved[i], current));
        assert(events_of(a) + Seq::<DiffEvent>::empty() =~= events_of(a));
        match first_match_from(saved[i], current, 0) {
            Some(j) => if j != i {
                lemma_events_of_single(DiffEvent::Moved { from: i as usize, to: j as usize });
            } else {
                assert(events_of(c) =~= Seq::<DiffEvent>::empty());
            },
            None => {
                lemma_events_of_single(DiffEvent::Added { index: i as usize });
            },
        }
        assert(events_of(a) + events_of(c) =~= saved_events(saved, current, len));
    }
}

/// The first match in the saved list is none exactly when the song is not found there.
proof fn lemma_first_saved_match_none(
    saved: Seq<Option<PlayableInfo>>,
    item: Option<PlayableInfo>,
    from: int,
)
    requires
        0 <= from <= saved.len(),
    ensures
        first_saved_match_from(saved, item, from) is None <==> forall|k: int|
            from <= k < saved.len() ==> !#[trigger] items_match(saved[k], item),
    decreases saved.len() - from,
{
    if from < saved.len() {
        lemma_first_saved_match_none(saved, item, from + 1);
    }
}

/// Skipping saved positions that do not match leaves the first match unchanged.
proof fn lemma_first_saved_match_skip(
    saved: Seq<Option<PlayableInfo>>,
    item: Option<PlayableInfo>,
    from: int,
    to: int,
)
    requires
        0 <= from <= to <= saved.len(),
        forall|k: int| from <= k < to ==> !#[trigger] items_match(saved[k], item),
    ensures
        first_saved_match_from(saved, item, from) == first_saved_match_from(saved, item, to),
    decreases to - from,
{
    if from < to {
        lemma_first_saved_match_skip(saved, item, from + 1, to);
    }
}

/// The events of the current part of the report are the current events.
proof fn lemma_current_lines_events(
    saved: Seq<Option<PlayableInfo>>,
    current: Seq<Option<PlayableInfo>>,
    len: int,
)
    ensures
        events_of(current_lines(saved, current, len)) == current_events(saved, current, len),
    decreases len,
{
    if len > 0 {
        let i = len - 1;
        lemma_current_lines_events(saved, current, i);
        let a = current_lines(saved, current, i);
        let b = current_search(saved, current, i, searched_saved(saved, current[i]));
        let c = if found_in_saved(saved, current[i]) {
            Seq::<DiffLine>::empty()
        } else {
            seq![DiffLine::Event(DiffEvent::New { index: i as usize })]
        };
        lemma_events_of_concat(a + b, c);
        lemma_events_of_concat(a, b);
        lemma_current_search_no_events(saved, current, i, searched_saved(saved, current[i]));
        assert(events_of(a) + Seq::<DiffEvent>::empty() =~= events_of(a));
        if found_in_saved(saved, current[i]) {
            assert(events_of(c) =~= Seq::<DiffEvent>::empty());
        } else {
            lemma_events_of_single(DiffEvent::New { index: i as usize });
        }
        assert(events_of(a) + events_of(c) =~= current_events(saved, current, len));
    }
}

/// The events of the full report are the events of the comparison.
pub proof fn diff_report_events(
    saved: Seq<Option<PlayableInfo>>,
    current: Seq<Option<PlayableInfo>>,
)
    ensures
        events_of(diff_lines(saved, current)) == diff_events(saved, current),
{
    lemma_events_of_concat(
        saved_lines(saved, current, saved.len() as int),
        current_lines(saved, current, current.len() as int),
    );
    lemma_saved_lines_events(saved, current, saved.len() as int);
    lemma_current_lines_events(saved, current, current.len() as int);
}

/// Compares a saved playlist with its current entries, and reports every
/// comparison it makes together with the events.
pub fn diff(saved: &Vec<Option<PlayableInfo>>, current: &Vec<Option<PlayableInfo>>) -> (res: Vec<
    DiffLine,
>)
    requires
        all_comparable(saved@, current@),
    ensures
        res@ == diff_lines(saved@, current@),
        events_of(res@) == diff_events(saved@, current@),
{
    let mut lines: Vec<DiffLine> = Vec::new();
    // A saved entry that is not found is reported added, so `removed` stays 0
    // and the shortcut for entries shifted by a removal is never taken.
    let mut removed: i32 = 0;
    let mut i: usize = 0;
    while i < saved.len()
        invariant
            i <= saved.len(),
            removed == 0,
            all_comparable(saved@, current@),
            lines@ == saved_lines(saved@, current@, i as int),
        decreases saved.len() - i,
    {
        let ghost base = lines@;
        let mut contains = false;
        let mut same_index = false;
        let mut index: usize = saved.len();
        let mut j: usize = 0;
        while !contains && j < current.len()
            invariant
                i < saved.len(),
                j <= current.len(),
                all_comparable(saved@, current@),
                forall|k: int| 0 <= k < j ==> !#[trigger] items_match(saved@[i as int], current@[k]),
                !contains ==> index == saved.len() && lines@ == base + saved_search(
                    saved@,
                    current@,
                    i as int,
                    j as int,
                ),
                contains ==> j < current.len() && index == j && same_index == (i == j)
                    && items_match(saved@[i as int], current@[j as int]) && lines@ == base
                    + saved_search(saved@, current@, i as int, j + 1),
            decreases current.len() - j + (if contains {
                0int
            } else {
                1int
            }),
        {
            let outcome = compare_items(&saved[i], &current[j]);
            proof {
                lemma_same_iff_match(saved@[i as int], current@[j as int]);
            }
            let matched = match outcome {
                Comparison::Same => true,
                _ => false,
            };
            lines.push(DiffLine::Compared { saved: i, current: j, outcome });
            assert(base + saved_search(saved@, current@, i as int, j + 1) =~= (base + saved_search(
                saved@,
                current@,
                i as int,
                j as int,
            )).push(DiffLine::Compared { saved: i, current: j, outcome }));
            if matched {
                contains = true;
                same_index = i == j;
                index = j;
            } else {
                j = j + 1;
            }
        }
        proof {
            lemma_first_match_skip(saved@[i as int], current@, 0, j as int);
        }
        if contains {
            if removed > 0 {
                let n: i32 = (i as i32) - removed;
                if n > 0 && (n as usize) < current.len() {
                    let outcome = compare_items(&saved[i], &current[n as usize]);
                    let same = match outcome {
                        Comparison::Same => true,
                        _ => false,
                    };
                    lines.push(DiffLine::Compared { saved: i, current: n as usize, outcome });
                    if same {
                        i = i + 1;
                        continue;
                    }
                }
            }
            if !same_index {
                lines.push(DiffLine::Event(DiffEvent::Moved { from: i, to: index }));
            }
        } else {
            if index == saved.len() {
                lines.push(DiffLine::Event(DiffEvent::Added { index: i }));
            } else {
                lines.push(DiffLine::Event(DiffEvent::Removed { index: i, at: index }));
                removed = removed + 1;
            }
        }
        assert(lines@ =~= saved_lines(saved@, current@, i + 1));
        i = i + 1;
    }
    let ghost first_part = lines@;
    let mut i: usize = 0;
    while i < current.len()
        invariant
            i <= current.len(),
            all_comparable(saved@, current@),
            first_part == saved_lines(saved@, current@, saved@.len() as int),
            lines@ == first_part + current_lines(saved@, current@, i as int),
        decreases current.len() - i,
    {
        let ghost base = lines@;
        let mut contains = false;
        let mut j: usize = 0;
        while !contains && j < saved.len()
            invariant
                i < current.len(),
                j <= saved.len(),
                all_comparable(saved@, current@),
                forall|k: int| 0 <= k < j ==> !#[trigger] items_match(saved@[k], current@[i as int]),
                !contains ==> lines@ == base + current_search(saved@, current@, i as int, j as int),
                contains ==> j < saved.len() && items_match(saved@[j as int], current@[i as int])
                    && lines@ == base + current_search(saved@, current@, i as int, j + 1),
            decreases saved.len() - j + (if contains {
                0int
            } else {
                1int
            }),
        {
            let outcome = compare_items(&saved[j], &current[i]);
            proof {
                lemma_same_iff_match(saved@[j as int], current@[i as int]);
            }
            let matched = match outcome {
                Comparison::Same => true,
                _ => false,
            };
            lines.push(DiffLine::Compared { saved: j, current: i, outcome });
            assert(base + current_search(saved@, current@, i as int, j + 1) =~= (base
                + current_search(saved@, current@, i as int, j as int)).push(
                DiffLine::Compared { saved: j, current: i, outcome },
            ));
            if matched {
                contains = true;
            } else {
                j = j + 1;
            }
        }
        proof {
            lemma_first_saved_match_skip(saved@, current@[i as int], 0, j as int);
            lemma_first_saved_match_none(saved@, current@[i as int], j as int);
        }
        if !contains {
            lines.push(DiffLine::Event(DiffEvent::New { index: i }));
        }
        assert(current_lines(saved@, current@, i + 1) =~= current_lines(saved@, current@, i as int)
            + current_search(saved@, current@, i as int, searched_saved(saved@, current@[i as int]))
            + if found_in_saved(saved@, current@[i as int]) {
            Seq::<DiffLine>::empty()
        } else {
            seq![DiffLine::Event(DiffEvent::New { index: i })]
        });
        assert(lines@ =~= first_part + current_lines(saved@, current@, i + 1));
        i = i + 1;
    }
    proof {
        diff_report_events(saved@, current@);
    }
    lines
}

/// Every entry is a track and no two entries hold the same song.
pub open spec fn distinct_tracks(list: Seq<Option<PlayableInfo>>) -> bool {
    &&& forall|i: int| 0 <= i < list.len() ==> (#[trigger] list[i] is Some && list[i]->0 is Track)
    &&& forall|i: int, j: int|
        0 <= i < list.len() && 0 <= j < list.len() && i != j ==> !#[trigger] items_match(
            list[i],
            list[j],
        )
}

/// A track entry holds the same song as itself.
pub proof fn lemma_track_matches_itself(item: Option<PlayableInfo>)
    requires
        item is Some && item->0 is Track,
    ensures
        items_match(item, item),
{
}

/// The first match of an entry that is found nowhere is none, and back.
pub proof fn lemma_first_match_none(
    item: Option<PlayableInfo>,
    list: Seq<Option<PlayableInfo>>,
    from: int,
)
    requires
        0 <= from <= list.len(),
    ensures
        first_match_from(item, list, from) is None <==> forall|k: int|
            from <= k < list.len() ==> !#[trigger] items_match(item, list[k]),
    decreases list.len() - from,
{
    if from < list.len() {
        lemma_first_match_none(item, list, from + 1);
    }
}

/// A playlist of distinct tracks compared with itself yields no event.
pub proof fn diff_of_unchanged_playlist_is_empty(list: Seq<Option<PlayableInfo>>)
    requires
        distinct_tracks(list),
    ensures
        diff_events(list, list) == Seq::<DiffEvent>::empty(),
{
    assert forall|len: int| 0 <= len <= list.len() implies #[trigger] saved_events(list, list, len)
        == Seq::<DiffEvent>::empty() by {
        lemma_saved_events_unchanged(list, len);
    }
    assert forall|len: int| 0 <= len <= list.len() implies #[trigger] current_events(list, list, len)
        == Seq::<DiffEvent>::empty() by {
        lemma_current_events_unchanged(list, len);
    }
    assert(diff_events(list, list) =~= Seq::<DiffEvent>::empty());
}

proof fn lemma_saved_events_unchanged(list: Seq<Option<PlayableInfo>>, len: int)
    requires
        distinct_tracks(list),
        0 <= len <= list.len(),
    ensures
        saved_events(list, list, len) == Seq::<DiffEvent>::empty(),
    decreases len,
{
    if len > 0 {
        let i = len - 1;
        lemma_saved_events_unchanged(list, i);
        assert forall|k: int| 0 <= k < i implies !#[trigger] items_match(list[i], list[k]) by {}
        lemma_first_match_skip(list[i], list, 0, i);
        lemma_track_matches_itself(list[i]);
    }
}

proof fn lemma_current_events_unchanged(list: Seq<Option<PlayableInfo>>, len: int)
    requires
        distinct_tracks(list),
        0 <= len <= list.len(),
    ensures
        current_events(list, list, len) == Seq::<DiffEvent>::empty(),
    decreases len,
{
    if len > 0 {
        let i = len - 1;
        lemma_current_events_unchanged(list, i);
        lemma_track_matches_itself(list[i]);
        assert(items_match(list[i], list[i]));
        assert(found_in_saved(list, list[i]));
    }
}

/// A sequence extended by `e` holds `x` when it held it before or `e` is `x`.
proof fn lemma_push_contains(s: Seq<DiffEvent>, e: DiffEvent, x: DiffEvent)
    ensures
        s.push(e).contains(x) <==> (s.contains(x) || e == x),
{
    if s.contains(x) {
        let k = choose|k: int| 0 <= k < s.len() && s[k] == x;
        assert(s.push(e)[k] == x);
    }
    if e == x {
        assert(s.push(e)[s.len() as int] == x);
    }
    if s.push(e).contains(x) {
        let k = choose|k: int| 0 <= k < s.push(e).len() && s.push(e)[k] == x;
        if k < s.len() {
            assert(s[k] == x);
        }
    }
}

/// A concatenation holds `x` when one of its parts does.
proof fn lemma_concat_contains(a: Seq<DiffEvent>, b: Seq<DiffEvent>, x: DiffEvent)
    ensures
        (a + b).contains(x) <==> (a.contains(x) || b.contains(x)),
{
    if a.contains(x) {
        let k = choose|k: int| 0 <= k < a.len() && a[k] == x;
        assert((a + b)[k] == x);
    }
    if b.contains(x) {
        let k = choose|k: int| 0 <= k < b.len() && b[k] == x;
        assert((a + b)[a.len() + k] == x);
    }
    if (a + b).contains(x) {
        let k = choose|k: int| 0 <= k < (a + b).len() && (a + b)[k] == x;
        if k < a.len() {
            assert(a[k] == x);
        } else {
            assert(b[k - a.len()] == x);
        }
    }
}

/// The saved events report entry `i` added exactly when it is among the first
/// `len` and found nowhere; they report nothing new.
proof fn lemma_saved_events_report(
    saved: Seq<Option<PlayableInfo>>,
    current: Seq<Option<PlayableInfo>>,
    len: int,
    i: int,
    n: usize,
)
    requires
        0 <= len <= saved.len() <= usize::MAX,
        0 <= i,
    ensures
        i < saved.len() ==> (saved_events(saved, current, len).contains(
            DiffEvent::Added { index: i as usize },
        ) <==> (i < len && first_match_from(saved[i], current, 0) is None)),
        !saved_events(saved, current, len).contains(DiffEvent::New { index: n }),
    decreases len,
{
    if len > 0 {
        let k = len - 1;
        lemma_saved_events_report(saved, current, k, i, n);
        let prev = saved_events(saved, current, k);
        match first_match_from(saved[k], current, 0) {
            Some(j) => {
                if j != k {
                    let e = DiffEvent::Moved { from: k as usize, to: j as usize };
                    lemma_push_contains(prev, e, DiffEvent::Added { index: i as usize });
                    lemma_push_contains(prev, e, DiffEvent::New { index: n });
                }
            },
            None => {
                let e = DiffEvent::Added { index: k as usize };
                lemma_push_contains(prev, e, DiffEvent::Added { index: i as usize });
                lemma_push_contains(prev, e, DiffEvent::New { index: n });
            },
        }
    }
}

/// The current events report entry `i` new exactly when it is among the first
/// `len` and not found in the saved list; they report nothing added.
proof fn lemma_current_events_report(
    saved: Seq<Option<PlayableInfo>>,
    current: Seq<Option<PlayableInfo>>,
    len: int,
    i: int,
    n: usize,
)
    requires
        0 <= len <= current.len() <= usize::MAX,
        0 <= i,
    ensures
        i < current.len() ==> (current_events(saved, current, len).contains(
            DiffEvent::New { index: i as usize },
        ) <==> (i < len && !found_in_saved(saved, current[i]))),
        !current_events(saved, current, len).contains(DiffEvent::Added { index: n }),
    decreases len,
{
    if len > 0 {
        let k = len - 1;
        lemma_current_events_report(saved, current, k, i, n);
        let prev = current_events(saved, current, k);
        if !found_in_saved(saved, current[k]) {
            let e = DiffEvent::New { index: k as usize };
            lemma_push_contains(prev, e, DiffEvent::New { index: i as usize });
            lemma_push_contains(prev, e, DiffEvent::Added { index: n });
        }
    }
}

/// A saved entry is reported added exactly when no current entry holds its song,
/// and a current entry is reported new exactly when no saved entry holds its song.
pub proof fn diff_reports_songs_missing_on_one_side(
    saved: Seq<Option<PlayableInfo>>,
    current: Seq<Option<PlayableInfo>>,
)
    requires
        saved.len() <= usize::MAX,
        current.len() <= usize::MAX,
    ensures
        forall|i: int|
            #![trigger saved[i]]
            0 <= i < saved.len() ==> (diff_events(saved, current).contains(
                DiffEvent::Added { index: i as usize },
            ) <==> forall|j: int| 0 <= j < current.len() ==> !items_match(saved[i], current[j])),
        forall|i: int|
            #![trigger current[i]]
            0 <= i < current.len() ==> (diff_events(saved, current).contains(
                DiffEvent::New { index: i as usize },
            ) <==> !found_in_saved(saved, current[i])),
{
    let a = saved_events(saved, current, saved.len() as int);
    let b = current_events(saved, current, current.len() as int);
    assert forall|i: int| #![trigger saved[i]] 0 <= i < saved.len() implies (diff_events(saved, current).contains(
        DiffEvent::Added { index: i as usize },
    ) <==> forall|j: int| 0 <= j < current.len() ==> !items_match(saved[i], current[j])) by {
        lemma_saved_events_report(saved, current, saved.len() as int, i, 0);
        lemma_current_events_report(saved, current, current.len() as int, 0, i as usize);
        lemma_concat_contains(a, b, DiffEvent::Added { index: i as usize });
        lemma_first_match_none(saved[i], current, 0);
    }
    assert forall|i: int| #![trigger current[i]] 0 <= i < current.len() implies (diff_events(saved, current).contains(
        DiffEvent::New { index: i as usize },
    ) <==> !found_in_saved(saved, current[i])) by {
        lemma_saved_events_report(saved, current, saved.len() as int, 0, i as usize);
        lemma_current_events_report(saved, current, current.len() as int, i, 0);
        lemma_concat_contains(a, b, DiffEvent::New { index: i as usize });
    }
}

/// The first match from `from` on is a matching position, and nothing matches
/// between `from` and it.
proof fn lemma_first_match_some(
    item: Option<PlayableInfo>,
    list: Seq<Option<PlayableInfo>>,
    from: int,
    j: int,
)
    requires
        0 <= from,
        first_match_from(item, list, from) == Some(j),
    ensures
        from <= j < list.len(),
        items_match(item, list[j]),
        forall|k: int| from <= k < j ==> !#[trigger] items_match(item, list[k]),
    decreases list.len() - from,
{
    if from < list.len() && !items_match(item, list[from]) {
        lemma_first_match_some(item, list, from + 1, j);
    }
}

/// The least matching position is the first match.
proof fn lemma_least_match_is_first(item: Option<PlayableInfo>, list: Seq<Option<PlayableInfo>>, j: int)
    requires
        0 <= j < list.len(),
        items_match(item, list[j]),
        forall|k: int| 0 <= k < j ==> !#[trigger] items_match(item, list[k]),
    ensures
        first_match_from(item, list, 0) == Some(j),
{
    lemma_first_match_skip(item, list, 0, j);
}

/// The saved events report a move of `a` to `b` exactly when `a` is among the
/// first `len` saved entries, found first at `b`, and `b` is not `a`.
proof fn lemma_saved_events_moves(
    saved: Seq<Option<PlayableInfo>>,
    current: Seq<Option<PlayableInfo>>,
    len: int,
    a: usize,
    b: usize,
)
    requires
        0 <= len <= saved.len() <= usize::MAX,
        current.len() <= usize::MAX,
    ensures
        saved_events(saved, current, len).contains(DiffEvent::Moved { from: a, to: b }) <==> (a
            < len && first_match_from(saved[a as int], current, 0) == Some(b as int) && a != b),
    decreases len,
{
    if len > 0 {
        let k = len - 1;
        lemma_saved_events_moves(saved, current, k, a, b);
        let prev = saved_events(saved, current, k);
        let x = DiffEvent::Moved { from: a, to: b };
        match first_match_from(saved[k], current, 0) {
            Some(j) => {
                lemma_first_match_some(saved[k], current, 0, j);
                if j != k {
                    let e = DiffEvent::Moved { from: k as usize, to: j as usize };
                    lemma_push_contains(prev, e, x);
                }
            },
            None => {
                lemma_push_contains(prev, DiffEvent::Added { index: k as usize }, x);
            },
        }
    }
}

/// The current events report no move.
proof fn lemma_current_events_no_moves(
    saved: Seq<Option<PlayableInfo>>,
    current: Seq<Option<PlayableInfo>>,
    len: int,
    a: usize,
    b: usize,
)
    ensures
        !current_events(saved, current, len).contains(DiffEvent::Moved { from: a, to: b }),
    decreases len,
{
    if len > 0 {
        let k = len - 1;
        lemma_current_events_no_moves(saved, current, k, a, b);
        let prev = current_events(saved, current, k);
        if !found_in_saved(saved, current[k]) {
            lemma_push_contains(
                prev,
                DiffEvent::New { index: k as usize },
                DiffEvent::Moved { from: a, to: b },
            );
        }
    }
}

/// Every saved entry whose song is found first at another position of the
/// current list is reported moved there, and every reported move is such a one.
pub proof fn diff_reports_every_move(
    saved: Seq<Option<PlayableInfo>>,
    current: Seq<Option<PlayableInfo>>,
)
    requires
        saved.len() <= usize::MAX,
        current.len() <= usize::MAX,
    ensures
        forall|i: int, j: int|
            0 <= i < saved.len() && 0 <= j < current.len() && i != j && #[trigger] items_match(
                saved[i],
                current[j],
            ) && (forall|k: int| 0 <= k < j ==> !items_match(saved[i], current[k]))
                ==> diff_events(saved, current).contains(
                DiffEvent::Moved { from: i as usize, to: j as usize },
            ),
        forall|a: usize, b: usize|
            #[trigger] diff_events(saved, current).contains(DiffEvent::Moved { from: a, to: b })
                ==> a < saved.len() && b < current.len() && a != b && items_match(
                saved[a as int],
                current[b as int],
            ) && forall|k: int| 0 <= k < b ==> !items_match(saved[a as int], current[k]),
{
    let left = saved_events(saved, current, saved.len() as int);
    let right = current_events(saved, current, current.len() as int);
    assert forall|i: int, j: int|
        0 <= i < saved.len() && 0 <= j < current.len() && i != j && #[trigger] items_match(
            saved[i],
            current[j],
        ) && (forall|k: int| 0 <= k < j ==> !items_match(saved[i], current[k])) implies diff_events(
        saved,
        current,
    ).contains(DiffEvent::Moved { from: i as usize, to: j as usize }) by {
        lemma_least_match_is_first(saved[i], current, j);
        lemma_saved_events_moves(saved, current, saved.len() as int, i as usize, j as usize);
        lemma_concat_contains(left, right, DiffEvent::Moved { from: i as usize, to: j as usize });
    }
    assert forall|a: usize, b: usize|
        #[trigger] diff_events(saved, current).contains(DiffEvent::Moved { from: a, to: b })
            implies a < saved.len() && b < current.len() && a != b && items_match(
            saved[a as int],
            current[b as int],
        ) && forall|k: int| 0 <= k < b ==> !items_match(saved[a as int], current[k]) by {
        lemma_concat_contains(left, right, DiffEvent::Moved { from: a, to: b });
        lemma_current_events_no_moves(saved, current, current.len() as int, a, b);
        lemma_saved_events_moves(saved, current, saved.len() as int, a, b);
        lemma_first_match_some(saved[a as int], current, 0, b as int);
    }
}

} // verus!
