//! The aligned rows in which a playlist is shown.
use vstd::prelude::*;

use crate::text::{
    decimal, join, join_texts, pad_right, padded, texts, zero_padded, zero_padded_decimal,
};
use crate::track::ItemName;

verus! {

/// The texts of one shown playlist entry: the song name and the joined artist
/// names, both padded to the width of their column, and the album name.
pub struct DisplayRow {
    pub song: String,
    pub artists: String,
    pub album: String,
}

/// The separator between the artist names of an entry.
pub open spec fn artist_separator() -> Seq<char> {
    seq![',', ' ']
}

/// The artist names of an entry, joined.
pub open spec fn joined_artists(name: ItemName) -> Seq<char> {
    join_texts(texts(name.artist_name@), artist_separator())
}

/// The width that an entry needs in the first column: its song name or its album
/// name, whichever is longer.
pub open spec fn title_width(name: ItemName) -> nat {
    if name.song_name@.len() >= name.album_name@.len() {
        name.song_name@.len()
    } else {
        name.album_name@.len()
    }
}

/// The widest first column among the first `len` entries.
pub open spec fn widest_title(names: Seq<ItemName>, len: int) -> nat
    decreases len,
{
    if len <= 0 {
        0
    } else {
        let w = title_width(names[len - 1]);
        let prev = widest_title(names, len - 1);
        if w > prev {
            w
        } else {
            prev
        }
    }
}

/// The widest joined artist names among the first `len` entries.
pub open spec fn widest_artists(names: Seq<ItemName>, len: int) -> nat
    decreases len,
{
    if len <= 0 {
        0
    } else {
        let w = joined_artists(names[len - 1]).len();
        let prev = widest_artists(names, len - 1);
        if w > prev {
            w
        } else {
            prev
        }
    }
}

/// The row of entry `name` in a playlist whose columns are `title` and `artists` wide.
pub open spec fn row_of(row: DisplayRow, name: ItemName, title: nat, artists: nat) -> bool {
    &&& row.song@ == padded(name.song_name@, title)
    &&& row.artists@ == padded(joined_artists(name), artists)
    &&& row.album@ == name.album_name@
}

/// The artist names of an entry, joined by `, `.
pub fn join_artists(name: &ItemName) -> (res: String)
    ensures
        res@ == joined_artists(*name),
{
    proof {
        reveal_strlit(", ");
        assert(", "@ =~= artist_separator());
    }
    join(&name.artist_name, ", ")
}

/// The rows of a playlist, with the song names padded to the widest song or album
/// name and the artist names padded to the widest joined artist names.
pub fn playlist_rows(names: &Vec<ItemName>) -> (res: Vec<DisplayRow>)
    ensures
        res.len() == names.len(),
        forall|i: int|
            0 <= i < names.len() ==> row_of(
                #[trigger] res@[i],
                names@[i],
                widest_title(names@, names.len() as int),
                widest_artists(names@, names.len() as int),
            ),
{
    let mut title: usize = 0;
    let mut artists: usize = 0;
    let mut i: usize = 0;
    while i < names.len()
        invariant
            i <= names.len(),
            title == widest_title(names@, i as int),
            artists == widest_artists(names@, i as int),
        decreases names.len() - i,
    {
        let name = &names[i];
        let song_len = name.song_name.as_str().unicode_len();
        let album_len = name.album_name.as_str().unicode_len();
        let width = if song_len >= album_len { song_len } else { album_len };
        if width > title {
            title = width;
        }
        let joined_len = join_artists(name).as_str().unicode_len();
        if joined_len > artists {
            artists = joined_len;
        }
        i = i + 1;
    }
    let mut rows: Vec<DisplayRow> = Vec::new();
    let mut i: usize = 0;
    while i < names.len()
        invariant
            i <= names.len(),
            rows.len() == i,
            title == widest_title(names@, names.len() as int),
            artists == widest_artists(names@, names.len() as int),
            forall|k: int|
                0 <= k < i ==> row_of(#[trigger] rows@[k], names@[k], title as nat, artists as nat),
        decreases names.len() - i,
    {
        let name = &names[i];
        let row = DisplayRow {
            song: pad_right(&name.song_name, title),
            artists: pad_right(&join_artists(name), artists),
            album: name.album_name.clone(),
        };
        rows.push(row);
        i = i + 1;
    }
    rows
}

/// No entry among the first `len` needs wider columns than the widest ones.
proof fn lemma_widest_bounds(names: Seq<ItemName>, len: int, i: int)
    requires
        0 <= i < len <= names.len(),
    ensures
        names[i].song_name@.len() <= widest_title(names, len),
        names[i].album_name@.len() <= widest_title(names, len),
        joined_artists(names[i]).len() <= widest_artists(names, len),
    decreases len,
{
    if i < len - 1 {
        lemma_widest_bounds(names, len - 1, i);
    }
}

/// The rows of a playlist line up: every padded song name and every padded
/// artist list has exactly the width of its column.
pub proof fn playlist_rows_are_aligned(names: Seq<ItemName>)
    ensures
        forall|i: int|
            0 <= i < names.len() ==> #[trigger] padded(
                names[i].song_name@,
                widest_title(names, names.len() as int),
            ).len() == widest_title(names, names.len() as int) && padded(
                joined_artists(names[i]),
                widest_artists(names, names.len() as int),
            ).len() == widest_artists(names, names.len() as int),
{
    assert forall|i: int| 0 <= i < names.len() implies #[trigger] padded(
        names[i].song_name@,
        widest_title(names, names.len() as int),
    ).len() == widest_title(names, names.len() as int) && padded(
        joined_artists(names[i]),
        widest_artists(names, names.len() as int),
    ).len() == widest_artists(names, names.len() as int) by {
        lemma_widest_bounds(names, names.len() as int, i);
    }
}

/// A year as the `%Y` format writes it: four digits at least, with a sign in
/// front outside `0..10000`.
pub open spec fn year_text(year: int) -> Seq<char> {
    if 0 <= year < 10000 {
        zero_padded(decimal(year as nat), 4)
    } else if year >= 0 {
        seq!['+'] + zero_padded(decimal(year as nat), 4)
    } else {
        seq!['-'] + zero_padded(decimal((-year) as nat), 4)
    }
}

/// A date as `DD/MM/YYYY`.
pub open spec fn date_text(day: nat, month: nat, year: int) -> Seq<char> {
    zero_padded(decimal(day), 2) + seq!['/'] + zero_padded(decimal(month), 2) + seq!['/']
        + year_text(year)
}

/// Who added an entry and when: `added DD/MM/YYYY` when the date is known, then
/// ` by ` and the user's display name, `Anonymous` when it is unknown.
pub open spec fn added_by_text(date: Option<(u32, u32, i32)>, name: Option<Seq<char>>) -> Seq<char> {
    let when = match date {
        Some((day, month, year)) => seq!['a', 'd', 'd', 'e', 'd', ' '] + date_text(
            day as nat,
            month as nat,
            year as int,
        ),
        None => Seq::empty(),
    };
    let who = match name {
        Some(n) => n,
        None => seq!['A', 'n', 'o', 'n', 'y', 'm', 'o', 'u', 's'],
    };
    when + seq![' ', 'b', 'y', ' '] + who
}

/// Writes a year as the `%Y` format does.
fn year_string(year: i32) -> (res: String)
    ensures
        res@ == year_text(year as int),
{
    if 0 <= year && year < 10000 {
        zero_padded_decimal(year as u64, 4)
    } else if year >= 0 {
        let mut res = String::from_str("+");
        res.append(zero_padded_decimal(year as u64, 4).as_str());
        proof {
            reveal_strlit("+");
        }
        assert(res@ =~= year_text(year as int));
        res
    } else {
        let mut res = String::from_str("-");
        let magnitude: u64 = (0 - (year as i64)) as u64;
        res.append(zero_padded_decimal(magnitude, 4).as_str());
        proof {
            reveal_strlit("-");
        }
        assert(res@ =~= year_text(year as int));
        res
    }
}

/// Writes a date as `DD/MM/YYYY`.
fn date_string(day: u32, month: u32, year: i32) -> (res: String)
    ensures
        res@ == date_text(day as nat, month as nat, year as int),
{
    let mut res = zero_padded_decimal(day as u64, 2);
    res.append("/");
    res.append(zero_padded_decimal(month as u64, 2).as_str());
    res.append("/");
    res.append(year_string(year).as_str());
    proof {
        reveal_strlit("/");
    }
    assert(res@ =~= date_text(day as nat, month as nat, year as int));
    res
}

/// The line that says who added an entry and when; `date` is day, month and year.
pub fn added_by(date: Option<(u32, u32, i32)>, name: &Option<String>) -> (res: String)
    ensures
        res@ == added_by_text(
            date,
            match name {
                Some(n) => Some(n@),
                None => None,
            },
        ),
{
    proof {
        reveal_strlit("added ");
        reveal_strlit(" by ");
        reveal_strlit("Anonymous");
    }
    let mut res = String::new();
    match date {
        Some((day, month, year)) => {
            res.append("added ");
            res.append(date_string(day, month, year).as_str());
        },
        None => {},
    }
    res.append(" by ");
    match name {
        Some(n) => res.append(n.as_str()),
        None => res.append("Anonymous"),
    }
    assert(res@ =~= added_by_text(
        date,
        match name {
            Some(n) => Some(n@),
            None => None,
        },
    ));
    res
}

} // verus!
