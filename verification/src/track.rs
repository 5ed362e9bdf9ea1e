//! What the playlist logic reads of a playlist item: the track or episode in it,
//! with its names and duration as plain values.
use vstd::prelude::*;

use crate::text::texts;

verus! {

/// A music track: its name, the names of its artists in order, the name of its
/// album and its duration (whole seconds and the nanoseconds beyond them).
pub struct TrackInfo {
    pub name: String,
    pub artists: Vec<String>,
    pub album: String,
    pub duration_secs: i64,
    pub duration_nanos: i32,
}

/// A podcast episode, of which only the name is read.
pub struct EpisodeInfo {
    pub name: String,
}

/// What a playlist entry plays.
pub enum PlayableInfo {
    Track(TrackInfo),
    Episode(EpisodeInfo),
}

/// The names shown for a playlist entry.
pub struct ItemName {
    pub song_name: String,
    pub artist_name: Vec<String>,
    pub album_name: String,
}

/// Two tracks count as the same song: same name, same duration, same album and
/// the same artists in the same order.
pub open spec fn same_track(a: TrackInfo, b: TrackInfo) -> bool {
    &&& a.name@ == b.name@
    &&& a.duration_secs == b.duration_secs
    &&& a.duration_nanos == b.duration_nanos
    &&& a.album@ == b.album@
    &&& texts(a.artists@) == texts(b.artists@)
}

/// Two playlist entries hold the same song: both are tracks and `same_track` holds.
pub open spec fn items_match(left: Option<PlayableInfo>, right: Option<PlayableInfo>) -> bool {
    match (left, right) {
        (Some(PlayableInfo::Track(a)), Some(PlayableInfo::Track(b))) => same_track(a, b),
        _ => false,
    }
}

/// The comparison of two entries is defined: it is not an episode on the left
/// against anything on the right.
pub open spec fn comparable(left: Option<PlayableInfo>, right: Option<PlayableInfo>) -> bool {
    !(left matches Some(PlayableInfo::Episode(_)) && right is Some)
}

/// The song name, artist names and album name that an entry shows: those of its
/// track; the episode's name alone; nothing for an empty entry.
pub open spec fn shown_names(item: Option<PlayableInfo>) -> (Seq<char>, Seq<Seq<char>>, Seq<char>) {
    match item {
        Some(PlayableInfo::Track(t)) => (t.name@, texts(t.artists@), t.album@),
        Some(PlayableInfo::Episode(e)) => (e.name@, Seq::empty(), Seq::empty()),
        None => (Seq::empty(), Seq::empty(), Seq::empty()),
    }
}

impl ItemName {
    /// The three names as texts.
    pub open spec fn names(&self) -> (Seq<char>, Seq<Seq<char>>, Seq<char>) {
        (self.song_name@, texts(self.artist_name@), self.album_name@)
    }
}

/// Lists of strings with the same texts at every position have the same texts.
pub proof fn lemma_texts_pointwise(a: Seq<String>, b: Seq<String>)
    requires
        a.len() == b.len(),
        forall|k: int| 0 <= k < a.len() ==> #[trigger] a[k]@ == b[k]@,
    ensures
        texts(a) == texts(b),
{
    assert forall|k: int| 0 <= k < a.len() implies #[trigger] texts(a)[k] == texts(b)[k] by {
        assert(a[k]@ == b[k]@);
    }
    assert(texts(a) =~= texts(b));
}

/// A copy of a list of strings.
pub fn copy_strings(v: &Vec<String>) -> (res: Vec<String>)
    ensures
        texts(res@) == texts(v@),
{
    let mut res: Vec<String> = Vec::new();
    let mut i: usize = 0;
    while i < v.len()
        invariant
            i <= v.len(),
            res@.len() == i,
            forall|k: int| 0 <= k < i ==> #[trigger] res@[k]@ == v@[k]@,
        decreases v.len() - i,
    {
        let c = v[i].clone();
        res.push(c);
        i = i + 1;
    }
    proof {
        lemma_texts_pointwise(res@, v@);
    }
    res
}

/// The first position from `from` on where two lists of strings of the same
/// length hold different texts.
pub open spec fn first_difference_from(a: Seq<String>, b: Seq<String>, from: int) -> Option<int>
    decreases a.len() - from,
{
    if from < 0 || from >= a.len() {
        None
    } else if a[from]@ != b[from]@ {
        Some(from)
    } else {
        first_difference_from(a, b, from + 1)
    }
}

/// How two playlist entries compare: the first criterion on which two tracks
/// differ, in the order name, duration, album, number of artists, artists.
pub enum Comparison {
    /// Both are tracks of the same song.
    Same,
    /// At least one of them is not a track.
    NotTwoTracks,
    DifferentName,
    DifferentDuration,
    DifferentAlbum,
    DifferentArtistCount,
    /// The artists differ first at this position.
    DifferentArtist { index: usize },
}

/// The comparison of two entries.
pub open spec fn comparison_of(left: Option<PlayableInfo>, right: Option<PlayableInfo>) -> Comparison {
    match (left, right) {
        (Some(PlayableInfo::Track(a)), Some(PlayableInfo::Track(b))) => if a.name@ != b.name@ {
            Comparison::DifferentName
        } else if a.duration_secs != b.duration_secs || a.duration_nanos != b.duration_nanos {
            Comparison::DifferentDuration
        } else if a.album@ != b.album@ {
            Comparison::DifferentAlbum
        } else if a.artists@.len() != b.artists@.len() {
            Comparison::DifferentArtistCount
        } else {
            match first_difference_from(a.artists@, b.artists@, 0) {
                Some(i) => Comparison::DifferentArtist { index: i as usize },
                None => Comparison::Same,
            }
        },
        _ => Comparison::NotTwoTracks,
    }
}

/// Lists of the same length without a difference from `from` on agree from there.
proof fn lemma_first_difference_none(a: Seq<String>, b: Seq<String>, from: int)
    requires
        a.len() == b.len(),
        0 <= from <= a.len(),
    ensures
        first_difference_from(a, b, from) is None <==> forall|k: int|
            from <= k < a.len() ==> #[trigger] a[k]@ == b[k]@,
    decreases a.len() - from,
{
    if from < a.len() {
        lemma_first_difference_none(a, b, from + 1);
    }
}

/// Two entries compare the same exactly when they hold the same song.
pub proof fn lemma_same_iff_match(left: Option<PlayableInfo>, right: Option<PlayableInfo>)
    ensures
        (comparison_of(left, right) is Same) <==> items_match(left, right),
{
    match (left, right) {
        (Some(PlayableInfo::Track(a)), Some(PlayableInfo::Track(b))) => {
            if a.artists@.len() == b.artists@.len() {
                lemma_first_difference_none(a.artists@, b.artists@, 0);
                if first_difference_from(a.artists@, b.artists@, 0) is None {
                    lemma_texts_pointwise(a.artists@, b.artists@);
                } else if texts(a.artists@) == texts(b.artists@) {
                    assert forall|k: int| 0 <= k < a.artists@.len() implies #[trigger] a.artists@[k]@
                        == b.artists@[k]@ by {
                        assert(texts(a.artists@)[k] == texts(b.artists@)[k]);
                    }
                }
            } else {
                assert(texts(a.artists@).len() != texts(b.artists@).len());
            }
        },
        _ => {},
    }
}

/// A found first difference is a differing position with agreement before it.
proof fn lemma_first_difference_some(a: Seq<String>, b: Seq<String>, from: int, i: int)
    requires
        0 <= from,
        first_difference_from(a, b, from) == Some(i),
    ensures
        from <= i < a.len(),
        a[i]@ != b[i]@,
        forall|k: int| from <= k < i ==> #[trigger] a[k]@ == b[k]@,
    decreases a.len() - from,
{
    if from < a.len() && a[from]@ == b[from]@ {
        lemma_first_difference_some(a, b, from + 1, i);
    }
}

/// A comparison names the first criterion, in the order name, duration, album,
/// number of artists and artists, on which two tracks differ: all earlier ones
/// agree and the named one does not; `Same` when all agree.
pub proof fn comparison_names_the_first_difference(
    left: Option<PlayableInfo>,
    right: Option<PlayableInfo>,
)
    ensures
        (comparison_of(left, right) is NotTwoTracks) <==> !(left matches Some(
            PlayableInfo::Track(_),
        ) && right matches Some(PlayableInfo::Track(_))),
        (left, right) matches (Some(PlayableInfo::Track(a)), Some(PlayableInfo::Track(b))) ==> {
            &&& (comparison_of(left, right) is DifferentName) <==> a.name@ != b.name@
            &&& (comparison_of(left, right) is DifferentDuration) <==> (a.name@ == b.name@ && (
            a.duration_secs != b.duration_secs || a.duration_nanos != b.duration_nanos))
            &&& (comparison_of(left, right) is DifferentAlbum) <==> (a.name@ == b.name@
                && a.duration_secs == b.duration_secs && a.duration_nanos == b.duration_nanos
                && a.album@ != b.album@)
            &&& (comparison_of(left, right) is DifferentArtistCount) <==> (a.name@ == b.name@
                && a.duration_secs == b.duration_secs && a.duration_nanos == b.duration_nanos
                && a.album@ == b.album@ && a.artists@.len() != b.artists@.len())
            &&& comparison_of(left, right) matches Comparison::DifferentArtist { index } ==> (
            a.name@ == b.name@ && a.duration_secs == b.duration_secs && a.duration_nanos
                == b.duration_nanos && a.album@ == b.album@ && a.artists@.len()
                == b.artists@.len() && index < a.artists@.len() && a.artists@[index as int]@
                != b.artists@[index as int]@ && forall|k: int|
                0 <= k < index ==> #[trigger] a.artists@[k]@ == b.artists@[k]@)
            &&& (comparison_of(left, right) is Same) <==> (a.name@ == b.name@ && a.duration_secs
                == b.duration_secs && a.duration_nanos == b.duration_nanos && a.album@ == b.album@
                && a.artists@.len() == b.artists@.len() && forall|k: int|
                0 <= k < a.artists@.len() ==> #[trigger] a.artists@[k]@ == b.artists@[k]@)
        },
{
    match (left, right) {
        (Some(PlayableInfo::Track(a)), Some(PlayableInfo::Track(b))) => {
            if a.artists@.len() == b.artists@.len() {
                lemma_first_difference_none(a.artists@, b.artists@, 0);
                match first_difference_from(a.artists@, b.artists@, 0) {
                    Some(i) => {
                        lemma_first_difference_some(a.artists@, b.artists@, 0, i);
                        assert(a.artists@.len() == a.artists.len());
                        assert((i as usize) as int == i);
                    },
                    None => {},
                }
            }
        },
        _ => {},
    }
}

/// The first position where two lists of strings of the same length differ.
fn first_difference(a: &Vec<String>, b: &Vec<String>) -> (res: Option<usize>)
    requires
        a.len() == b.len(),
    ensures
        match res {
            Some(i) => first_difference_from(a@, b@, 0) == Some(i as int),
            None => first_difference_from(a@, b@, 0) is None,
        },
{
    let mut i: usize = 0;
    while i < a.len()
        invariant
            i <= a.len(),
            a.len() == b.len(),
            first_difference_from(a@, b@, 0) == first_difference_from(a@, b@, i as int),
        decreases a.len() - i,
    {
        if a[i] != b[i] {
            return Some(i);
        }
        i = i + 1;
    }
    None
}

/// Compares two playlist entries.
pub fn compare_items(left: &Option<PlayableInfo>, right: &Option<PlayableInfo>) -> (res: Comparison)
    requires
        comparable(*left, *right),
    ensures
        res == comparison_of(*left, *right),
{
    match (left, right) {
        (Some(PlayableInfo::Track(a)), Some(PlayableInfo::Track(b))) => {
            if a.name != b.name {
                return Comparison::DifferentName;
            }
            if a.duration_secs != b.duration_secs || a.duration_nanos != b.duration_nanos {
                return Comparison::DifferentDuration;
            }
            if a.album != b.album {
                return Comparison::DifferentAlbum;
            }
            if a.artists.len() != b.artists.len() {
                return Comparison::DifferentArtistCount;
            }
            match first_difference(&a.artists, &b.artists) {
                Some(i) => Comparison::DifferentArtist { index: i },
                None => Comparison::Same,
            }
        },
        _ => Comparison::NotTwoTracks,
    }
}

/// Whether two playlist entries hold the same song.
pub fn lazy_eval(left: &Option<PlayableInfo>, right: &Option<PlayableInfo>) -> (res: bool)
    requires
        comparable(*left, *right),
    ensures
        res == items_match(*left, *right),
{
    proof {
        lemma_same_iff_match(*left, *right);
    }
    match compare_items(left, right) {
        Comparison::Same => true,
        _ => false,
    }
}

/// Whether comparing `left` with `right` is defined.
pub fn is_comparable(left: &Option<PlayableInfo>, right: &Option<PlayableInfo>) -> (res: bool)
    ensures
        res == comparable(*left, *right),
{
    match (left, right) {
        (Some(PlayableInfo::Episode(_)), Some(_)) => false,
        _ => true,
    }
}

/// The names that a playlist entry shows.
pub fn get_playable_item_name(option: &Option<PlayableInfo>) -> (res: ItemName)
    ensures
        res.names() == shown_names(*option),
{
    match option {
        Some(PlayableInfo::Track(track)) => ItemName {
            song_name: track.name.clone(),
            artist_name: copy_strings(&track.artists),
            album_name: track.album.clone(),
        },
        Some(PlayableInfo::Episode(episode)) => {
            let res = ItemName {
                song_name: episode.name.clone(),
                artist_name: Vec::new(),
                album_name: String::new(),
            };
            assert(texts(res.artist_name@) =~= Seq::empty());
            res
        },
        None => {
            let res = ItemName {
                song_name: String::new(),
                artist_name: Vec::new(),
                album_name: String::new(),
            };
            assert(texts(res.artist_name@) =~= Seq::empty());
            res
        },
    }
}

} // verus!
