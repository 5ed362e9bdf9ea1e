//! Where a download is saved, and what its progress line says.
use vstd::prelude::*;

use crate::console::{pretty_print, pretty_size};
use crate::text::{decimal, decimal_string};

verus! {

/// Whether `url::Url::parse` accepts the text.
pub uninterp spec fn url_parses(text: Seq<char>) -> bool;

/// The path that `url::Url::path` gives of the address that `url::Url::parse`
/// makes of the text.
pub uninterp spec fn url_path(text: Seq<char>) -> Seq<char>;

/// The path of the address written in `text`, through `url::Url::parse` and
/// `url::Url::path`; `None` when the text is no address. The contract claims that
/// the result depends on the text alone, through the two names above; what the
/// path is, the `url` crate decides.
#[verifier::external_body]
fn parse_url_path(text: &str) -> (res: Option<String>)
    ensures
        res is Some <==> url_parses(text@),
        res matches Some(p) ==> p@ == url_path(text@),
{
    match url::Url::parse(text) {
        Ok(address) => Some(address.path().to_string()),
        Err(_) => None,
    }
}

/// The text after the last slash of `p`; all of `p` when it has no slash.
pub open spec fn after_last_slash(p: Seq<char>) -> Seq<char>
    decreases p.len(),
{
    if p.len() == 0 {
        p
    } else if p.last() == '/' {
        Seq::empty()
    } else {
        after_last_slash(p.drop_last()).push(p.last())
    }
}

/// The last component of the path `p` that is neither empty nor `.`; empty when
/// there is none.
pub open spec fn last_named_component(p: Seq<char>) -> Seq<char>
    decreases p.len(),
{
    let c = after_last_slash(p);
    if c.len() > 0 && c != seq!['.'] {
        c
    } else if c.len() >= p.len() {
        Seq::empty()
    } else {
        last_named_component(p.take(p.len() - c.len() - 1))
    }
}

/// The file name of a path as `std::path::Path::file_name` gives it on Unix: the
/// last component that is neither empty nor `.`, unless it is `..`; none for a
/// path without such a component.
pub open spec fn file_name_of(p: Seq<char>) -> Option<Seq<char>> {
    let c = last_named_component(p);
    if c.len() == 0 || c == seq!['.', '.'] {
        None
    } else {
        Some(c)
    }
}

/// The text after the last slash of `q`, when `q[start..]` holds no slash and a
/// slash or the start of `q` comes just before it.
proof fn lemma_after_last_slash(q: Seq<char>, start: int)
    requires
        0 <= start <= q.len(),
        forall|k: int| start <= k < q.len() ==> q[k] != '/',
        start == 0 || q[start - 1] == '/',
    ensures
        after_last_slash(q) == q.subrange(start, q.len() as int),
    decreases q.len() - start,
{
    if start == q.len() {
        assert(q.subrange(start, q.len() as int) =~= Seq::<char>::empty());
        if start > 0 {
            assert(q.last() == '/');
        }
    } else {
        let r = q.drop_last();
        lemma_after_last_slash(r, start);
        assert(q.subrange(start, q.len() as int) =~= r.subrange(start, r.len() as int).push(
            q.last(),
        ));
    }
}

/// The file name of a path is its last component: a name after a slash is the
/// file name, a trailing slash or `/.` changes nothing, and a path ending in
/// `/..` has no file name.
pub proof fn file_name_is_the_last_component(dir: Seq<char>, name: Seq<char>)
    requires
        forall|k: int| 0 <= k < name.len() ==> name[k] != '/',
    ensures
        name.len() > 0 && name != seq!['.'] && name != seq!['.', '.'] ==> file_name_of(
            dir + seq!['/'] + name,
        ) == Some(name),
        file_name_of(dir + seq!['/']) == file_name_of(dir),
        file_name_of(dir + seq!['/', '.']) == file_name_of(dir),
        file_name_of(dir + seq!['/', '.', '.']) is None,
{
    let p = dir + seq!['/'] + name;
    lemma_after_last_slash(p, dir.len() + 1int);
    assert(p.subrange(dir.len() + 1int, p.len() as int) =~= name);
    let q = dir + seq!['/'];
    lemma_after_last_slash(q, q.len() as int);
    assert(q.subrange(q.len() as int, q.len() as int) =~= Seq::<char>::empty());
    assert(q.take(q.len() - 0 - 1) =~= dir);
    let r = dir + seq!['/', '.'];
    lemma_after_last_slash(r, r.len() - 1);
    assert(r.subrange(r.len() - 1, r.len() as int) =~= seq!['.']);
    assert(r.take(r.len() - 1 - 1) =~= dir);
    let u = dir + seq!['/', '.', '.'];
    lemma_after_last_slash(u, u.len() - 2);
    assert(u.subrange(u.len() - 2, u.len() as int) =~= seq!['.', '.']);
}

/// The file name of the path `p`, as `std::path::Path::file_name` finds it.
pub fn file_name(p: &str) -> (res: Option<String>)
    ensures
        match res {
            Some(name) => file_name_of(p@) == Some(name@),
            None => file_name_of(p@) is None,
        },
{
    let len: usize = p.unicode_len();
    let mut end: usize = len;
    let mut start: usize;
    assert(p@.take(len as int) =~= p@);
    loop
        invariant
            len == p@.len(),
            end <= len,
            last_named_component(p@) == last_named_component(p@.take(end as int)),
        decreases end,
    {
        let ghost q = p@.take(end as int);
        start = end;
        while start > 0 && p.get_char(start - 1) != '/'
            invariant
                len == p@.len(),
                start <= end <= len,
                q == p@.take(end as int),
                forall|k: int| start <= k < end ==> q[k] != '/',
            decreases start,
        {
            start = start - 1;
        }
        proof {
            lemma_after_last_slash(q, start as int);
            assert(q.subrange(start as int, end as int) =~= p@.subrange(start as int, end as int));
        }
        let size: usize = end - start;
        if size > 0 && !(size == 1 && p.get_char(start) == '.') {
            proof {
                if after_last_slash(q) == seq!['.'] {
                    assert(after_last_slash(q)[0] == p@[start as int]);
                }
            }
            let name = p.substring_char(start, end);
            let is_parent = size == 2 && p.get_char(start) == '.' && p.get_char(start + 1) == '.';
            if is_parent {
                assert(name@ =~= seq!['.', '.']);
                return None;
            }
            proof {
                if name@ == seq!['.', '.'] {
                    assert(name@[0] == p@[start as int] && name@[1] == p@[start + 1]);
                }
            }
            return Some(String::from_str(name));
        }
        proof {
            if size == 1 {
                assert(after_last_slash(q) =~= seq!['.']);
            }
        }
        if start == 0 {
            return None;
        }
        assert(q.take(q.len() - (end - start) - 1) =~= p@.take(start - 1));
        end = start - 1;
    }
}

/// The folder that downloads are saved in.
pub open spec fn download_folder() -> Seq<char> {
    seq!['.', '/', 'd', 'o', 'w', 'n', 'l', 'o', 'a', 'd', 's', '/']
}

/// Why no file can be named for a download address.
pub enum TargetError {
    /// The text is not an address.
    InvalidUrl,
    /// The address's path names no file.
    NoFileName,
}

/// The file that a download from `url` is saved to: the file name of the
/// address's path, in the download folder.
pub open spec fn download_target_of(url: Seq<char>) -> Result<Seq<char>, TargetError> {
    if !url_parses(url) {
        Err(TargetError::InvalidUrl)
    } else {
        match file_name_of(url_path(url)) {
            Some(name) => Ok(download_folder() + name),
            None => Err(TargetError::NoFileName),
        }
    }
}

/// The file that a download from `url` is saved to.
pub fn download_target(url: &str) -> (res: Result<String, TargetError>)
    ensures
        match res {
            Ok(path) => download_target_of(url@) == Ok::<Seq<char>, TargetError>(path@),
            Err(e) => download_target_of(url@) == Err::<Seq<char>, TargetError>(e),
        },
{
    match parse_url_path(url) {
        None => Err(TargetError::InvalidUrl),
        Some(path) => match file_name(path.as_str()) {
            None => Err(TargetError::NoFileName),
            Some(name) => {
                let mut target = String::from_str("./downloads/");
                proof {
                    reveal_strlit("./downloads/");
                    assert(target@ =~= download_folder());
                }
                target.append(name.as_str());
                Ok(target)
            },
        },
    }
}

/// The byte count shown for `size` received bytes: the count itself when it fits
/// in a `u64`, else 0.
pub open spec fn shown_size(size: nat) -> nat {
    if size <= u64::MAX {
        size
    } else {
        0
    }
}

/// The progress line of a download from `url` after `size` bytes: the address in
/// single quotes, ` : ` and the readable size.
pub open spec fn progress_line(url: Seq<char>, size: nat) -> Seq<char> {
    seq!['\''] + url + seq!['\'', ' ', ':', ' '] + pretty_size(shown_size(size))
}

/// The closing line of a download from `url` that took `secs` seconds.
pub open spec fn finish_line(url: Seq<char>, secs: nat) -> Seq<char> {
    seq!['D', 'o', 'w', 'n', 'l', 'o', 'a', 'd', 'e', 'd', ' '] + url + seq![' ', 'i', 'n', ' ']
        + decimal(secs) + seq!['s']
}

/// The bytes received so far by one download.
pub struct DownloadProgress {
    size: usize,
}

impl View for DownloadProgress {
    type V = nat;

    /// The number of bytes received.
    closed spec fn view(&self) -> nat {
        self.size as nat
    }
}

impl DownloadProgress {
    /// A download that has received nothing yet.
    pub fn new() -> (res: DownloadProgress)
        ensures
            res@ == 0,
    {
        DownloadProgress { size: 0 }
    }

    /// The number of bytes received.
    pub fn size(&self) -> (res: usize)
        ensures
            res == self@,
    {
        self.size
    }

    /// Counts a chunk of `len` bytes of the download from `url`, and gives the
    /// progress line to show.
    pub fn record_chunk(&mut self, url: &str, len: usize) -> (line: String)
        requires
            old(self)@ + len <= usize::MAX,
        ensures
            final(self)@ == old(self)@ + len,
            line@ == progress_line(url@, final(self)@),
    {
        self.size = self.size + len;
        let shown: u64 = if (self.size as u128) <= (u64::MAX as u128) {
            self.size as u64
        } else {
            0
        };
        let mut line = String::from_str("'");
        line.append(url);
        line.append("' : ");
        line.append(pretty_print(shown).as_str());
        proof {
            reveal_strlit("'");
            reveal_strlit("' : ");
            assert(line@ =~= progress_line(url@, self@));
        }
        line
    }
}

/// The closing line of a download from `url` that took `secs` seconds.
pub fn finished_message(url: &str, secs: u64) -> (line: String)
    ensures
        line@ == finish_line(url@, secs as nat),
{
    let mut line = String::from_str("Downloaded ");
    line.append(url);
    line.append(" in ");
    line.append(decimal_string(secs).as_str());
    line.append("s");
    proof {
        reveal_strlit("Downloaded ");
        reveal_strlit(" in ");
        reveal_strlit("s");
        assert(line@ =~= finish_line(url@, secs as nat));
    }
    line
}

} // verus!
