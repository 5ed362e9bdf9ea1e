//! The decisions of the playlist tool: which playlist a query names, how search
//! results are offered and picked, and how tracks are labelled.
use vstd::prelude::*;

use crate::text::{decimal, decimal_string, texts};
use crate::track::TrackInfo;

verus! {

/// Whether `regex::Regex::new` accepts the pattern.
pub uninterp spec fn regex_valid(pattern: Seq<char>) -> bool;

/// What `regex::Regex::is_match` answers for the compiled pattern and the text.
pub uninterp spec fn regex_matches(pattern: Seq<char>, text: Seq<char>) -> bool;

/// Whether `text` matches the regular expression `pattern`, through
/// `regex::Regex::new` and `regex::Regex::is_match`; `None` when the pattern does
/// not compile. The contract claims that both answers depend on the pattern and
/// the text alone, through the two names above; the `regex` crate decides them.
#[verifier::external_body]
fn regex_is_match(pattern: &str, text: &str) -> (res: Option<bool>)
    ensures
        res is Some <==> regex_valid(pattern@),
        res matches Some(b) ==> b == regex_matches(pattern@, text@),
{
    match regex::Regex::new(pattern) {
        Ok(re) => Some(re.is_match(text)),
        Err(_) => None,
    }
}

/// The position of the first of `names` that the regular expression `pattern`
/// matches: `None` when the pattern does not compile, `Some(None)` when no name
/// matches.
pub fn first_match_position(pattern: &str, names: &Vec<String>) -> (res: Option<Option<usize>>)
    ensures
        res is Some <==> regex_valid(pattern@),
        res matches Some(found) ==> match found {
            Some(i) => i < names.len() && regex_matches(pattern@, names@[i as int]@) && forall|k: int|
                0 <= k < i ==> !regex_matches(pattern@, #[trigger] names@[k]@),
            None => forall|k: int|
                0 <= k < names.len() ==> !regex_matches(pattern@, #[trigger] names@[k]@),
        },
{
    let mut i: usize = 0;
    while i < names.len()
        invariant
            i <= names.len(),
            i > 0 ==> regex_valid(pattern@),
            forall|k: int| 0 <= k < i ==> !regex_matches(pattern@, #[trigger] names@[k]@),
        decreases names.len() - i,
    {
        match regex_is_match(pattern, names[i].as_str()) {
            None => {
                return None;
            },
            Some(true) => {
                return Some(Some(i));
            },
            Some(false) => {},
        }
        i = i + 1;
    }
    if i == 0 {
        match regex_is_match(pattern, "") {
            None => {
                return None;
            },
            Some(_) => {},
        }
    }
    Some(None)
}

/// The pattern of a playlist identifier: 22 letters or digits.
pub open spec fn playlist_id_pattern() -> Seq<char> {
    seq!['[', '0', '-', '9', 'A', '-', 'z', ']', '{', '2', '2', '}']
}

/// What a clone query names.
pub enum CloneTarget {
    /// The playlist with this URI.
    Playlist { uri: String },
    /// The playlists found by searching for this text.
    Search { query: String },
}

/// The prefix of playlist URIs.
pub open spec fn playlist_uri_prefix() -> Seq<char> {
    seq!['s', 'p', 'o', 't', 'i', 'f', 'y', ':', 'p', 'l', 'a', 'y', 'l', 'i', 's', 't', ':']
}

/// Whether `target` is what `query` names, given whether it matches the playlist
/// identifier pattern.
pub open spec fn names_target(query: Seq<char>, is_id: bool, target: CloneTarget) -> bool {
    if is_id {
        target matches CloneTarget::Playlist { uri } && uri@ == playlist_uri_prefix() + query
    } else {
        target matches CloneTarget::Search { query: q } && q@ == query
    }
}

/// What `query` names, given whether it matches the playlist identifier pattern.
pub fn clone_target_from_match(query: &str, is_id: bool) -> (res: CloneTarget)
    ensures
        names_target(query@, is_id, res),
{
    if is_id {
        let mut uri = String::from_str("spotify:playlist:");
        proof {
            reveal_strlit("spotify:playlist:");
            assert(uri@ =~= playlist_uri_prefix());
        }
        uri.append(query);
        CloneTarget::Playlist { uri }
    } else {
        CloneTarget::Search { query: String::from_str(query) }
    }
}

/// What a clone query names: the playlist it identifies when it holds 22 letters
/// or digits in a row, else a search for it; `None` when the identifier pattern
/// does not compile.
pub fn clone_target(query: &str) -> (res: Option<CloneTarget>)
    ensures
        regex_valid(playlist_id_pattern()) <==> res is Some,
        res matches Some(t) ==> names_target(
            query@,
            regex_matches(playlist_id_pattern(), query@),
            t,
        ),
{
    proof {
        reveal_strlit("[0-9A-z]{22}");
        assert("[0-9A-z]{22}"@ =~= playlist_id_pattern());
    }
    match regex_is_match("[0-9A-z]{22}", query) {
        Some(is_id) => Some(clone_target_from_match(query, is_id)),
        None => None,
    }
}

/// The number of search results on one page.
pub const PAGE_SIZE: u32 = 10;

/// The offset of the first search result of page `page`.
pub fn search_offset(page: u32) -> (res: u32)
    requires
        page * 10 <= u32::MAX,
    ensures
        res == page * 10,
{
    page * PAGE_SIZE
}

/// A playlist found by a search: its name and its owner's display name, if any.
pub struct PlaylistSummary {
    pub name: String,
    pub owner: Option<String>,
}

/// The choice that a search result is offered as: its number from 1, its name in
/// single quotes and its owner's name (empty when unknown).
pub open spec fn choice_label(number: nat, playlist: PlaylistSummary) -> Seq<char> {
    let owner = match playlist.owner {
        Some(o) => o@,
        None => Seq::empty(),
    };
    decimal(number) + seq!['.', ' ', '\''] + playlist.name@ + seq!['\'', ' ', 'b', 'y', ' ']
        + owner
}

/// The first choice of every page: going on to the next page.
pub open spec fn continue_label() -> Seq<char> {
    seq!['C', 'o', 'n', 't', 'i', 'n', 'u', 'e']
}

/// The choice offered for search result `number` (counted from 1).
fn playlist_choice(number: u64, playlist: &PlaylistSummary) -> (res: String)
    ensures
        res@ == choice_label(number as nat, *playlist),
{
    let mut label = decimal_string(number);
    label.append(". '");
    label.append(playlist.name.as_str());
    label.append("' by ");
    match &playlist.owner {
        Some(owner) => label.append(owner.as_str()),
        None => {},
    }
    proof {
        reveal_strlit(". '");
        reveal_strlit("' by ");
        assert(label@ =~= choice_label(number as nat, *playlist));
    }
    label
}

/// The choices offered for a page of search results: `Continue`, then the
/// results numbered from 1.
pub fn selection_labels(playlists: &Vec<PlaylistSummary>) -> (res: Vec<String>)
    requires
        playlists.len() < u64::MAX,
    ensures
        res.len() == playlists.len() + 1,
        res@[0]@ == continue_label(),
        forall|i: int|
            0 <= i < playlists.len() ==> #[trigger] res@[i + 1]@ == choice_label(
                (i + 1) as nat,
                playlists@[i],
            ),
{
    let mut labels: Vec<String> = Vec::new();
    labels.push(String::from_str("Continue"));
    proof {
        reveal_strlit("Continue");
    }
    assert(labels@[0]@ =~= continue_label());
    let mut i: usize = 0;
    while i < playlists.len()
        invariant
            i <= playlists.len() < u64::MAX,
            labels.len() == i + 1,
            labels@[0]@ == continue_label(),
            forall|k: int|
                0 <= k < i ==> #[trigger] labels@[k + 1]@ == choice_label(
                    (k + 1) as nat,
                    playlists@[k],
                ),
        decreases playlists.len() - i,
    {
        labels.push(playlist_choice((i + 1) as u64, &playlists[i]));
        i = i + 1;
    }
    labels
}

/// What picking a choice leads to.
pub enum SelectionAction {
    /// Show the page with this number.
    NextPage { page: u32 },
    /// Clone the search result at this position (counted from 0).
    Clone { index: usize },
    /// The choice is past the offered ones.
    OutOfRange,
}

/// What picking choice `index` of `choices` offered ones on page `page` leads to:
/// the first choice turns the page, any other clones the result before it.
pub open spec fn selection_action(page: u32, index: usize, choices: usize) -> SelectionAction {
    if index == 0 {
        SelectionAction::NextPage { page: (page + 1) as u32 }
    } else if index - 1 >= choices {
        SelectionAction::OutOfRange
    } else {
        SelectionAction::Clone { index: (index - 1) as usize }
    }
}

/// What picking choice `index` of `choices` offered ones on page `page` leads to.
pub fn on_selection(page: u32, index: usize, choices: usize) -> (res: SelectionAction)
    requires
        index == 0 ==> page < u32::MAX,
    ensures
        res == selection_action(page, index, choices),
{
    if index == 0 {
        SelectionAction::NextPage { page: page + 1 }
    } else {
        let i: usize = index - 1;
        if i >= choices {
            SelectionAction::OutOfRange
        } else {
            SelectionAction::Clone { index: i }
        }
    }
}

/// The choice that a found track is offered as: its name, ` - `, its album's
/// name, ` | ` and its artists' names joined by `, `.
pub open spec fn track_choice(track: TrackInfo) -> Seq<char> {
    track.name@ + seq![' ', '-', ' '] + track.album@ + seq![' ', '|', ' '] + crate::text::join_texts(
        texts(track.artists@),
        crate::display::artist_separator(),
    )
}

/// The choice that a found track is offered as.
pub fn track_choice_label(track: &TrackInfo) -> (res: String)
    ensures
        res@ == track_choice(*track),
{
    let mut label = track.name.clone();
    label.append(" - ");
    label.append(track.album.as_str());
    label.append(" | ");
    proof {
        reveal_strlit(", ");
        assert(", "@ =~= crate::display::artist_separator());
    }
    let artists = crate::text::join(&track.artists, ", ");
    label.append(artists.as_str());
    proof {
        reveal_strlit(" - ");
        reveal_strlit(" | ");
        assert(label@ =~= track_choice(*track));
    }
    label
}

/// The link shown for a track of an album: its preview address, else its
/// address, else nothing.
pub open spec fn link_of(preview: Option<Seq<char>>, href: Option<Seq<char>>) -> Seq<char> {
    match preview {
        Some(p) => p,
        None => match href {
            Some(h) => h,
            None => Seq::empty(),
        },
    }
}

/// The link shown for a track of an album.
pub fn track_link(preview: &Option<String>, href: &Option<String>) -> (res: String)
    ensures
        res@ == link_of(
            match preview {
                Some(p) => Some(p@),
                None => None,
            },
            match href {
                Some(h) => Some(h@),
                None => None,
            },
        ),
{
    match preview {
        Some(p) => p.clone(),
        None => match href {
            Some(h) => h.clone(),
            None => String::new(),
        },
    }
}

/// The file a playlist named `name` is cached in: `./<name>.json`.
pub open spec fn cache_path_of(name: Seq<char>) -> Seq<char> {
    seq!['.', '/'] + name + seq!['.', 'j', 's', 'o', 'n']
}

/// The file a playlist named `name` is cached in.
pub fn cache_file_path(name: &str) -> (res: String)
    ensures
        res@ == cache_path_of(name@),
{
    let mut path = String::from_str("./");
    path.append(name);
    path.append(".json");
    proof {
        reveal_strlit("./");
        reveal_strlit(".json");
        assert(path@ =~= cache_path_of(name@));
    }
    path
}

/// What the playlist tool is asked to do.
pub enum SpotigitCommand {
    /// Clone the playlist that the query names.
    Clone { query: String },
    /// Search (not offered yet).
    Search,
    /// Compare the cached playlist that the query names with its current state.
    Diff { query: String },
    /// Show the cached playlist that the query names.
    Show { query: String },
    /// Add a track found by the query to a cached playlist.
    Add { query: String },
    /// List the tracks of the sample album.
    Album,
    /// The command is empty.
    Empty,
    /// The command is not known.
    Unrecognized,
}

/// The command that the command line asks for (the program's name first): none
/// with fewer than two arguments. `clone` takes its query from the second
/// argument alone; `diff`, `show` and `add` take the arguments from the second on,
/// joined by spaces.
pub open spec fn spotigit_command_of(args: Seq<Seq<char>>, cmd: SpotigitCommand) -> bool {
    let command = args[1];
    let query = crate::text::join_texts(args.subrange(2, args.len() as int), seq![' ']);
    if command == seq!['c', 'l', 'o', 'n', 'e'] {
        cmd matches SpotigitCommand::Clone { query: q } && q@ == args[2]
    } else if command == seq!['s', 'e', 'a', 'r', 'c', 'h'] {
        cmd is Search
    } else if command == seq!['d', 'i', 'f', 'f'] {
        cmd matches SpotigitCommand::Diff { query: q } && q@ == query
    } else if command == seq!['s', 'h', 'o', 'w'] {
        cmd matches SpotigitCommand::Show { query: q } && q@ == query
    } else if command == seq!['a', 'd', 'd'] {
        cmd matches SpotigitCommand::Add { query: q } && q@ == query
    } else if command == seq!['a', 'l', 'b', 'u', 'm'] {
        cmd is Album
    } else if command.len() == 0 {
        cmd is Empty
    } else {
        cmd is Unrecognized
    }
}

/// Reads the command line of the playlist tool, the program's name first.
pub fn parse_spotigit_args(args: &Vec<String>) -> (res: Option<SpotigitCommand>)
    ensures
        res is None <==> args.len() < 3,
        res matches Some(cmd) ==> spotigit_command_of(texts(args@), cmd),
{
    if args.len() < 3 {
        return None;
    }
    let mut rest: Vec<String> = Vec::new();
    let mut i: usize = 2;
    while i < args.len()
        invariant
            2 <= i <= args.len(),
            texts(rest@) == texts(args@).subrange(2, i as int),
        decreases args.len() - i,
    {
        let ghost before = rest@;
        rest.push(args[i].clone());
        assert(texts(rest@) =~= texts(before).push(args@[i as int]@));
        i = i + 1;
        assert(texts(rest@) =~= texts(args@).subrange(2, i as int));
    }
    proof {
        reveal_strlit(" ");
        reveal_strlit("clone");
        reveal_strlit("search");
        reveal_strlit("diff");
        reveal_strlit("show");
        reveal_strlit("add");
        reveal_strlit("album");
    }
    let query = crate::text::join(&rest, " ");
    assert(" "@ =~= seq![' ']);
    let command = &args[1];
    let clone_word = String::from_str("clone");
    let search_word = String::from_str("search");
    let diff_word = String::from_str("diff");
    let show_word = String::from_str("show");
    let add_word = String::from_str("add");
    let album_word = String::from_str("album");
    assert(clone_word@ =~= seq!['c', 'l', 'o', 'n', 'e']);
    assert(search_word@ =~= seq!['s', 'e', 'a', 'r', 'c', 'h']);
    assert(diff_word@ =~= seq!['d', 'i', 'f', 'f']);
    assert(show_word@ =~= seq!['s', 'h', 'o', 'w']);
    assert(add_word@ =~= seq!['a', 'd', 'd']);
    assert(album_word@ =~= seq!['a', 'l', 'b', 'u', 'm']);
    assert(texts(args@)[1] == command@);
    let cmd = if *command == clone_word {
        SpotigitCommand::Clone { query: args[2].clone() }
    } else if *command == search_word {
        SpotigitCommand::Search
    } else if *command == diff_word {
        SpotigitCommand::Diff { query }
    } else if *command == show_word {
        SpotigitCommand::Show { query }
    } else if *command == add_word {
        SpotigitCommand::Add { query }
    } else if *command == album_word {
        SpotigitCommand::Album
    } else if command.as_str().unicode_len() == 0 {
        SpotigitCommand::Empty
    } else {
        SpotigitCommand::Unrecognized
    };
    Some(cmd)
}

/// The arguments from the second on, joined by single spaces.
pub open spec fn words_from_second(args: Seq<Seq<char>>) -> Seq<char> {
    crate::text::join_texts(args.subrange(2, args.len() as int), seq![' '])
}

/// Joining one word gives the word; joining more puts one space between the
/// first words and the last.
pub proof fn lemma_join_words(words: Seq<Seq<char>>)
    ensures
        words.len() == 1 ==> crate::text::join_texts(words, seq![' ']) == words[0],
        words.len() >= 2 ==> crate::text::join_texts(words, seq![' ']) == crate::text::join_texts(
            words.drop_last(),
            seq![' '],
        ) + seq![' '] + words.last(),
{
}

/// `diff`, `show` and `add` work on every argument from the second on, joined
/// by single spaces (`spotigit diff my list` compares the playlist `my list`);
/// `clone` works on the second argument alone.
pub proof fn spotigit_queries_join_the_arguments(args: Seq<Seq<char>>, cmd: SpotigitCommand)
    requires
        args.len() >= 3,
        spotigit_command_of(args, cmd),
    ensures
        args[1] == seq!['d', 'i', 'f', 'f'] ==> (cmd matches SpotigitCommand::Diff { query }
            && query@ == words_from_second(args)),
        args[1] == seq!['s', 'h', 'o', 'w'] ==> (cmd matches SpotigitCommand::Show { query }
            && query@ == words_from_second(args)),
        args[1] == seq!['a', 'd', 'd'] ==> (cmd matches SpotigitCommand::Add { query }
            && query@ == words_from_second(args)),
        args[1] == seq!['c', 'l', 'o', 'n', 'e'] ==> (cmd matches SpotigitCommand::Clone { query }
            && query@ == args[2]),
        args.len() == 4 ==> words_from_second(args) == args[2] + seq![' '] + args[3],
        args[1] == seq!['s', 'e', 'a', 'r', 'c', 'h'] ==> cmd is Search,
        args[1] == seq!['a', 'l', 'b', 'u', 'm'] ==> cmd is Album,
        args[1].len() == 0 ==> cmd is Empty,
        args[1] != seq!['c', 'l', 'o', 'n', 'e'] && args[1] != seq!['s', 'e', 'a', 'r', 'c', 'h']
            && args[1] != seq!['d', 'i', 'f', 'f'] && args[1] != seq!['s', 'h', 'o', 'w']
            && args[1] != seq!['a', 'd', 'd'] && args[1] != seq!['a', 'l', 'b', 'u', 'm']
            && args[1].len() > 0 ==> cmd is Unrecognized,
{
    if args.len() == 4 {
        let words = args.subrange(2, 4);
        lemma_join_words(words);
        lemma_join_words(words.drop_last());
        assert(words.drop_last().len() == 1);
        assert(words.drop_last()[0] == args[2]);
        assert(words.last() == args[3]);
    }
}

} // verus!
