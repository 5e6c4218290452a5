//! Downloading the pictures of a thread: where a thread is, and where each
//! of its pictures comes from and goes to.

use crate::crawl::{
    first_column, first_values, page_view, read_attributes, rows_view, selected_attributes,
};
use crate::pattern::{capture_group, regex_group};
use crate::text::{chars_of, optional_text, slice_texts, str_starts_with, string_of, texts};
use vstd::prelude::*;

verus! {

/// The site whose threads can be downloaded.
pub const SITE: &'static str = "https://2ch.hk";

/// Whether the address `url` belongs to a site that can be downloaded from.
pub open spec fn is_supported(url: Seq<char>) -> bool {
    "https://2ch.hk/"@.is_prefix_of(url)
}

/// Executable form of [`is_supported`].
pub fn supports(url: &str) -> (supported: bool)
    ensures
        supported == is_supported(url@),
{
    str_starts_with(url, "https://2ch.hk/")
}

/// The expression that the address of a thread matches: the site, a board
/// of letters and digits, `res`, the number of the thread, `.html`.
pub const THREAD_PATTERN: &'static str = "^https?://2ch\\.hk/([a-zA-Z0-9]+)/res/(\\d+)\\.html$";

/// A thread, as plain values.
pub struct ThreadView {
    pub board: Seq<char>,
    pub id: Seq<char>,
}

/// A thread: its board and its number.
pub struct Thread {
    pub board: String,
    pub id: String,
}

impl View for Thread {
    type V = ThreadView;

    open spec fn view(&self) -> ThreadView {
        ThreadView { board: self.board@, id: self.id@ }
    }
}

/// The view of an optional thread.
pub open spec fn thread_view(thread: Option<Thread>) -> Option<ThreadView> {
    match thread {
        Some(t) => Some(t@),
        None => None,
    }
}

/// The thread that two parts of its address name, if both were found.
pub open spec fn thread_of(board: Option<Seq<char>>, id: Option<Seq<char>>) -> Option<ThreadView> {
    match (board, id) {
        (Some(b), Some(i)) => Some(ThreadView { board: b, id: i }),
        _ => None,
    }
}

/// The thread at the address `url`, if it is the address of a thread.
pub open spec fn thread_at(url: Seq<char>) -> Option<ThreadView> {
    thread_of(regex_group(THREAD_PATTERN@, url, 1), regex_group(THREAD_PATTERN@, url, 2))
}

/// Puts the two parts of the address of a thread together.
pub fn thread_from(board: Option<String>, id: Option<String>) -> (thread: Option<Thread>)
    ensures
        thread_view(thread) == thread_of(optional_text(board), optional_text(id)),
{
    match (board, id) {
        (Some(b), Some(i)) => Some(Thread { board: b, id: i }),
        _ => None,
    }
}

/// Finds the thread at an address.
pub fn find_thread(url: &str) -> (thread: Option<Thread>)
    ensures
        thread_view(thread) == thread_at(url@),
{
    thread_from(capture_group(THREAD_PATTERN, url, 1), capture_group(THREAD_PATTERN, url, 2))
}

/// The directory that receives the pictures of a thread.
pub open spec fn thread_dir(thread: ThreadView) -> Seq<char> {
    "./rex/gallery-dl/2ch.hk/"@ + thread.board + seq!['/'] + thread.id
}

/// Executable form of [`thread_dir`].
pub fn save_dir(thread: &Thread) -> (dir: String)
    ensures
        dir@ == thread_dir(thread@),
{
    let mut dir = String::from_str("./rex/gallery-dl/2ch.hk/");
    dir.append(thread.board.as_str());
    dir.push('/');
    dir.append(thread.id.as_str());
    dir
}

/// The position of the first `c` of `s`; the length of `s` if it has none.
pub open spec fn first_index(s: Seq<char>, c: char) -> int
    decreases s.len(),
{
    if s.len() == 0 || s[0] == c {
        0
    } else {
        1 + first_index(s.drop_first(), c)
    }
}

/// What stands before the first question mark of a reference.
pub open spec fn without_query(reference: Seq<char>) -> Seq<char> {
    reference.take(first_index(reference, '?'))
}

/// What stands after the last slash of a path; the whole path if it has no
/// slash.
pub open spec fn last_segment(path: Seq<char>) -> Seq<char>
    decreases path.len(),
{
    if path.len() == 0 || path.last() == '/' {
        Seq::<char>::empty()
    } else {
        last_segment(path.drop_last()).push(path.last())
    }
}

/// Where a picture comes from and goes to, as plain values.
pub struct MediaView {
    pub url: Seq<char>,
    pub filename: Seq<char>,
    pub path: Seq<char>,
}

/// Where a picture comes from and goes to.
pub struct Media {
    /// The address of the picture.
    pub url: String,
    /// The name of its file.
    pub filename: String,
    /// The place of its file in the directory of the thread.
    pub path: String,
}

impl View for Media {
    type V = MediaView;

    open spec fn view(&self) -> MediaView {
        MediaView { url: self.url@, filename: self.filename@, path: self.path@ }
    }
}

/// Where the picture with the reference `reference` comes from and goes to:
/// the reference without its query, on the site; and the file named by the
/// last part of that, in the directory `dir`.
pub open spec fn media_of(reference: Seq<char>, dir: Seq<char>) -> MediaView {
    let href = without_query(reference);
    MediaView {
        url: SITE@ + href,
        filename: last_segment(href),
        path: dir + seq!['/'] + last_segment(href),
    }
}

/// Executable form of [`media_of`].
pub fn media_target(reference: &str, dir: &str) -> (media: Media)
    ensures
        media@ == media_of(reference@, dir@),
{
    let cs = chars_of(reference);
    let mut end: usize = 0;
    proof {
        assert(cs@.skip(0) =~= cs@);
    }
    while end < cs.len() && cs[end] != '?'
        invariant
            end <= cs.len(),
            cs@ == reference@,
            first_index(reference@, '?') == end + first_index(cs@.skip(end as int), '?'),
        decreases cs.len() - end,
    {
        proof {
            assert(cs@.skip(end as int)[0] == cs@[end as int]);
            assert(cs@.skip(end as int).drop_first() =~= cs@.skip(end + 1));
        }
        end += 1;
    }
    proof {
        if end < cs.len() {
            assert(cs@.skip(end as int)[0] == cs@[end as int]);
        }
    }
    let ghost href = cs@.take(end as int);
    let mut url = String::from_str(SITE);
    let mut name: Vec<char> = Vec::new();
    let mut i: usize = 0;
    proof {
        assert(href.take(0).len() == 0);
        assert(url@ =~= SITE@ + href.take(0));
    }
    while i < end
        invariant
            i <= end <= cs.len(),
            href == cs@.take(end as int),
            url@ == SITE@ + href.take(i as int),
            name@ == last_segment(href.take(i as int)),
        decreases end - i,
    {
        proof {
            assert(href.take(i + 1).drop_last() =~= href.take(i as int));
            assert(href.take(i + 1).last() == cs@[i as int]);
            assert(href.take(i + 1) =~= href.take(i as int).push(cs@[i as int]));
        }
        url.push(cs[i]);
        if cs[i] == '/' {
            name = Vec::new();
        } else {
            name.push(cs[i]);
        }
        i += 1;
    }
    proof {
        assert(href.take(end as int) =~= href);
    }
    let filename = string_of(name.as_slice());
    let mut path = String::from_str(dir);
    path.push('/');
    path.append(filename.as_str());
    proof {
        assert(first_index(reference@, '?') == end);
        assert(href == without_query(reference@));
        assert(path@ =~= dir@ + seq!['/'] + filename@);
    }
    Media { url, filename, path }
}

/// The references to the pictures of the page `html`: what each of its
/// `img` elements gives as `data-src`.
pub open spec fn picture_references(html: Seq<char>) -> Seq<Seq<char>> {
    let page = selected_attributes(html, seq!["img"@], seq!["data-src"@]);
    if page.len() > 0 {
        first_column(page[0])
    } else {
        Seq::<Seq<char>>::empty()
    }
}

/// Reads the references to the pictures of a page.
pub fn find_pictures(html: &str) -> (references: Vec<String>)
    ensures
        texts(references@) == picture_references(html@),
{
    let selectors: [&str; 1] = ["img"];
    let attributes: [&str; 1] = ["data-src"];
    proof {
        assert(slice_texts(selectors@) =~= seq!["img"@]);
        assert(slice_texts(attributes@) =~= seq!["data-src"@]);
    }
    let read = read_attributes(html, selectors.as_slice(), attributes.as_slice());
    if read.len() > 0 {
        assert(page_view(read@)[0] == rows_view(read@[0]));
        first_values(&read[0])
    } else {
        Vec::new()
    }
}

} // verus!
