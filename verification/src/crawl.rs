//! The crawler: what a page gives (files of the wanted kinds, and links to
//! follow), and the list of pages that are still to be visited.

use crate::carve::{fresh_session_id, SESSION_ID_LEN};
use crate::numbers::{parse_usize, parsed_usize};
use crate::sorted::{sort_unique, strictly_sorted};
use crate::text::{
    chars_of, lowercase, matches_at, occurs_at, optional_slice, optional_text, slice_texts,
    str_eq, string_of, texts,
};
use crate::typosquat::{pieces, split_commas};
use crate::words::{trim_chars, trimmed};
use vstd::prelude::*;

verus! {

/// An address, as plain values.
pub struct LinkView {
    pub text: Seq<char>,
    pub path: Seq<char>,
    pub scheme: Seq<char>,
    pub host: Option<Seq<char>>,
    pub bare: Seq<char>,
}

/// An address that was read successfully.
pub struct Link {
    /// The address in full.
    pub text: String,
    /// Its path.
    pub path: String,
    /// Its scheme.
    pub scheme: String,
    /// Its host, if it has one.
    pub host: Option<String>,
    /// The address without its fragment.
    pub bare: String,
}

impl View for Link {
    type V = LinkView;

    open spec fn view(&self) -> LinkView {
        LinkView {
            text: self.text@,
            path: self.path@,
            scheme: self.scheme@,
            host: optional_text(self.host),
            bare: self.bare@,
        }
    }
}

/// The view of an optional address.
pub open spec fn link_view(link: Option<Link>) -> Option<LinkView> {
    match link {
        Some(l) => Some(l@),
        None => None,
    }
}

/// What the text `text` is as an absolute address, if it is one.
pub uninterp spec fn parsed_url(text: Seq<char>) -> Option<LinkView>;

/// What the reference `reference` is as an address when it is read on the
/// page at `base`. `None` where `base` is no absolute address, and where
/// the reference cannot be read against it.
pub uninterp spec fn joined_url(base: Seq<char>, reference: Seq<char>) -> Option<LinkView>;

/// Reads `text` with `url::Url::parse` and takes the parts of the address:
/// its text (`to_string`), `path`, `scheme` and `host_str`, and the text of
/// a copy after `set_fragment(None)`. Trusted: the result depends on the
/// text alone.
#[verifier::external_body]
pub(crate) fn parse_link(text: &str) -> (link: Option<Link>)
    ensures
        link_view(link) == parsed_url(text@),
{
    let url = url::Url::parse(text).ok()?;
    let mut bare = url.clone();
    bare.set_fragment(None);
    Some(
        Link {
            text: url.to_string(),
            path: url.path().to_string(),
            scheme: url.scheme().to_string(),
            host: url.host_str().map(|h| h.to_string()),
            bare: bare.to_string(),
        },
    )
}

/// Reads `base` with `url::Url::parse`, reads `reference` against it with
/// `Url::join` and takes the parts of the address as [`parse_link`] does.
/// Trusted: the result depends on the two texts alone.
#[verifier::external_body]
pub(crate) fn resolve_link(base: &str, reference: &str) -> (link: Option<Link>)
    ensures
        link_view(link) == joined_url(base@, reference@),
{
    let url = url::Url::parse(base).ok()?.join(reference).ok()?;
    let mut bare = url.clone();
    bare.set_fragment(None);
    Some(
        Link {
            text: url.to_string(),
            path: url.path().to_string(),
            scheme: url.scheme().to_string(),
            host: url.host_str().map(|h| h.to_string()),
            bare: bare.to_string(),
        },
    )
}

/// The attributes of the elements of a page: for each of `selectors`, for
/// each element of the page `html` that it selects, in the order of the
/// page, for each of `attributes`, the value that the element gives it, if
/// it has the attribute. A selector that cannot be read selects nothing.
pub uninterp spec fn selected_attributes(
    html: Seq<char>,
    selectors: Seq<Seq<char>>,
    attributes: Seq<Seq<char>>,
) -> Seq<Seq<Seq<Option<Seq<char>>>>>;

/// The views of the attributes of one element.
pub open spec fn row_view(row: Vec<Option<String>>) -> Seq<Option<Seq<char>>> {
    Seq::new(row@.len(), |k: int| optional_text(row@[k]))
}

/// The views of the attributes of the elements of one selector.
pub open spec fn rows_view(rows: Vec<Vec<Option<String>>>) -> Seq<Seq<Option<Seq<char>>>> {
    Seq::new(rows@.len(), |j: int| row_view(rows@[j]))
}

/// The views of the attributes of the elements of a page.
pub open spec fn page_view(page: Seq<Vec<Vec<Option<String>>>>) -> Seq<
    Seq<Seq<Option<Seq<char>>>>,
> {
    Seq::new(page.len(), |i: int| rows_view(page[i]))
}

/// Reads the page with `scraper::Html::parse_document`, each selector with
/// `scraper::Selector::parse`, and asks each element that `Html::select`
/// gives for each attribute with `Element::attr`. Trusted: the result
/// depends on the three arguments alone.
#[verifier::external_body]
pub(crate) fn read_attributes(html: &str, selectors: &[&str], attributes: &[&str]) -> (page: Vec<
    Vec<Vec<Option<String>>>,
>)
    ensures
        page_view(page@) == selected_attributes(
            html@,
            slice_texts(selectors@),
            slice_texts(attributes@),
        ),
{
    let document = scraper::Html::parse_document(html);
    selectors.iter().map(
        |s|
            match scraper::Selector::parse(s) {
                Ok(selector) => document.select(&selector).map(
                    |e| attributes.iter().map(|a| e.value().attr(a).map(|v| v.to_string())).collect(),
                ).collect(),
                Err(_) => Vec::new(),
            },
    ).collect()
}

/// The values that one element gives, in the order of the attributes.
pub open spec fn present(row: Seq<Option<Seq<char>>>) -> Seq<Seq<char>>
    decreases row.len(),
{
    if row.len() == 0 {
        Seq::<Seq<char>>::empty()
    } else {
        match row.last() {
            Some(value) => present(row.drop_last()).push(value),
            None => present(row.drop_last()),
        }
    }
}

/// The values that the elements of one selector give, element after
/// element.
pub open spec fn present_in_rows(rows: Seq<Seq<Option<Seq<char>>>>) -> Seq<Seq<char>>
    decreases rows.len(),
{
    if rows.len() == 0 {
        Seq::<Seq<char>>::empty()
    } else {
        present_in_rows(rows.drop_last()) + present(rows.last())
    }
}

/// The values that the elements of a page give, selector after selector.
pub open spec fn present_in_page(page: Seq<Seq<Seq<Option<Seq<char>>>>>) -> Seq<Seq<char>>
    decreases page.len(),
{
    if page.len() == 0 {
        Seq::<Seq<char>>::empty()
    } else {
        present_in_page(page.drop_last()) + present_in_rows(page.last())
    }
}

/// The values that the elements give to their first attribute.
pub open spec fn first_column(rows: Seq<Seq<Option<Seq<char>>>>) -> Seq<Seq<char>>
    decreases rows.len(),
{
    if rows.len() == 0 {
        Seq::<Seq<char>>::empty()
    } else if rows.last().len() > 0 && rows.last()[0] is Some {
        first_column(rows.drop_last()).push(rows.last()[0]->0)
    } else {
        first_column(rows.drop_last())
    }
}

/// Appends the values that one element gives.
fn push_present(out: &mut Vec<String>, row: &Vec<Option<String>>)
    ensures
        texts(final(out)@) == texts(old(out)@) + present(row_view(*row)),
{
    let ghost start = texts(out@);
    let ghost all = row_view(*row);
    let mut k: usize = 0;
    proof {
        assert(texts(out@) =~= start + present(all.take(0)));
    }
    while k < row.len()
        invariant
            k <= row.len(),
            all == row_view(*row),
            texts(out@) == start + present(all.take(k as int)),
        decreases row.len() - k,
    {
        let ghost so_far = texts(out@);
        proof {
            assert(all.take(k + 1).drop_last() =~= all.take(k as int));
            assert(all.take(k + 1).last() == optional_text(row@[k as int]));
        }
        match &row[k] {
            Some(value) => {
                out.push(value.clone());
                proof {
                    assert(texts(out@) =~= so_far.push(value@));
                    assert(texts(out@) =~= start + present(all.take(k + 1)));
                }
            },
            None => {},
        }
        k += 1;
    }
    proof {
        assert(all.take(all.len() as int) =~= all);
    }
}

/// Appends the values that the elements of one selector give.
fn push_present_rows(out: &mut Vec<String>, rows: &Vec<Vec<Option<String>>>)
    ensures
        texts(final(out)@) == texts(old(out)@) + present_in_rows(rows_view(*rows)),
{
    let ghost start = texts(out@);
    let ghost all = rows_view(*rows);
    let mut j: usize = 0;
    proof {
        assert(texts(out@) =~= start + present_in_rows(all.take(0)));
    }
    while j < rows.len()
        invariant
            j <= rows.len(),
            all == rows_view(*rows),
            texts(out@) == start + present_in_rows(all.take(j as int)),
        decreases rows.len() - j,
    {
        proof {
            assert(all.take(j + 1).drop_last() =~= all.take(j as int));
            assert(all.take(j + 1).last() == row_view(rows@[j as int]));
        }
        push_present(out, &rows[j]);
        proof {
            assert(texts(out@) =~= start + present_in_rows(all.take(j + 1)));
        }
        j += 1;
    }
    proof {
        assert(all.take(all.len() as int) =~= all);
    }
}

/// The values that the elements of a page give, selector after selector,
/// element after element, in the order of the attributes.
pub fn present_values(page: &Vec<Vec<Vec<Option<String>>>>) -> (values: Vec<String>)
    ensures
        texts(values@) == present_in_page(page_view(page@)),
{
    let mut values: Vec<String> = Vec::new();
    let ghost all = page_view(page@);
    let mut i: usize = 0;
    proof {
        assert(texts(values@) =~= present_in_page(all.take(0)));
    }
    while i < page.len()
        invariant
            i <= page.len(),
            all == page_view(page@),
            texts(values@) == present_in_page(all.take(i as int)),
        decreases page.len() - i,
    {
        proof {
            assert(all.take(i + 1).drop_last() =~= all.take(i as int));
            assert(all.take(i + 1).last() == rows_view(page@[i as int]));
        }
        push_present_rows(&mut values, &page[i]);
        i += 1;
    }
    proof {
        assert(all.take(all.len() as int) =~= all);
    }
    values
}

/// The values that the elements give to their first attribute.
pub fn first_values(rows: &Vec<Vec<Option<String>>>) -> (values: Vec<String>)
    ensures
        texts(values@) == first_column(rows_view(*rows)),
{
    let mut values: Vec<String> = Vec::new();
    let ghost all = rows_view(*rows);
    let mut j: usize = 0;
    proof {
        assert(texts(values@) =~= first_column(all.take(0)));
    }
    while j < rows.len()
        invariant
            j <= rows.len(),
            all == rows_view(*rows),
            texts(values@) == first_column(all.take(j as int)),
        decreases rows.len() - j,
    {
        let ghost so_far = texts(values@);
        proof {
            assert(all.take(j + 1).drop_last() =~= all.take(j as int));
            assert(all.take(j + 1).last() == row_view(rows@[j as int]));
        }
        let row = &rows[j];
        if row.len() > 0 {
            assert(row_view(*row)[0] == optional_text(row@[0]));
            match &row[0] {
                Some(value) => {
                    values.push(value.clone());
                    proof {
                        assert(texts(values@) =~= so_far.push(value@));
                    }
                },
                None => {},
            }
        }
        j += 1;
    }
    proof {
        assert(all.take(all.len() as int) =~= all);
    }
    values
}

/// Whether a path, in lower case, ends with a dot and one of the wanted
/// extensions.
pub open spec fn is_wanted(path: Seq<char>, extensions: Seq<Seq<char>>) -> bool {
    exists|i: int|
        0 <= i < extensions.len() && occurs_at(
            path,
            seq!['.'] + #[trigger] extensions[i],
            path.len() - 1 - extensions[i].len(),
        )
}

/// Executable form of [`is_wanted`].
pub fn has_wanted_extension(path: &str, extensions: &[String]) -> (wanted: bool)
    ensures
        wanted == is_wanted(path@, texts(extensions@)),
{
    let cs = chars_of(path);
    let ghost all = texts(extensions@);
    let mut i: usize = 0;
    while i < extensions.len()
        invariant
            i <= extensions.len(),
            cs@ == path@,
            all == texts(extensions@),
            forall|k: int|
                0 <= k < i ==> !occurs_at(
                    path@,
                    seq!['.'] + #[trigger] all[k],
                    path@.len() - 1 - all[k].len(),
                ),
        decreases extensions.len() - i,
    {
        let mut ending: Vec<char> = Vec::new();
        ending.push('.');
        let ext = chars_of(extensions[i].as_str());
        let mut k: usize = 0;
        while k < ext.len()
            invariant
                k <= ext.len(),
                ending@ == seq!['.'] + ext@.take(k as int),
            decreases ext.len() - k,
        {
            ending.push(ext[k]);
            proof {
                assert(ext@.take(k + 1) =~= ext@.take(k as int).push(ext@[k as int]));
                assert(ending@ =~= seq!['.'] + ext@.take(k + 1));
            }
            k += 1;
        }
        proof {
            assert(ext@.take(ext@.len() as int) =~= ext@);
            assert(ext@ == all[i as int]);
        }
        if ending.len() <= cs.len() && matches_at(
            cs.as_slice(),
            ending.as_slice(),
            cs.len() - ending.len(),
        ) {
            return true;
        }
        i += 1;
    }
    false
}

/// The files found so far after one more reference has been looked at:
/// `link` is the address it gives, `lowered` the path of that address in
/// lower case. The address joins the list if its path ends with a wanted
/// extension and the list does not hold it yet.
pub open spec fn with_media(
    found: Seq<Seq<char>>,
    link: Option<LinkView>,
    lowered: Seq<char>,
    extensions: Seq<Seq<char>>,
) -> Seq<Seq<char>> {
    match link {
        Some(l) => if is_wanted(lowered, extensions) && !found.contains(l.text) {
            found.push(l.text)
        } else {
            found
        },
        None => found,
    }
}

/// The path of an optional address, in lower case.
pub open spec fn lowered_path(link: Option<LinkView>) -> Seq<char> {
    match link {
        Some(l) => lowercase(l.path),
        None => Seq::<char>::empty(),
    }
}

/// The files found after the references `references` of the page at `base`
/// have been looked at, `already` being those found before.
pub open spec fn media_found(
    base: Seq<char>,
    references: Seq<Seq<char>>,
    already: Seq<Seq<char>>,
    extensions: Seq<Seq<char>>,
) -> Seq<Seq<char>>
    decreases references.len(),
{
    if references.len() == 0 {
        already
    } else {
        let link = joined_url(base, references.last());
        with_media(
            media_found(base, references.drop_last(), already, extensions),
            link,
            lowered_path(link),
            extensions,
        )
    }
}

/// Whether `text` is among `list`.
pub fn holds(list: &Vec<String>, text: &str) -> (found: bool)
    ensures
        found == texts(list@).contains(text@),
{
    let mut i: usize = 0;
    while i < list.len()
        invariant
            i <= list.len(),
            forall|k: int| 0 <= k < i ==> texts(list@)[k] != text@,
        decreases list.len() - i,
    {
        if str_eq(list[i].as_str(), text) {
            assert(texts(list@)[i as int] == text@);
            return true;
        }
        i += 1;
    }
    false
}

/// Looks at one address that a reference gave: `lowered` is its path in
/// lower case.
pub fn keep_media(found: &mut Vec<String>, link: &Link, lowered: &str, extensions: &[String])
    ensures
        texts(final(found)@) == with_media(
            texts(old(found)@),
            Some(link@),
            lowered@,
            texts(extensions@),
        ),
{
    let ghost before = texts(found@);
    if has_wanted_extension(lowered, extensions) && !holds(found, link.text.as_str()) {
        found.push(link.text.clone());
        proof {
            assert(texts(found@) =~= before.push(link@.text));
        }
    }
}

/// Whether an address lies on the site that is crawled: it has the host and
/// the scheme of the page it was found on, or its host is `site`.
pub open spec fn same_site(link: LinkView, page: LinkView, site: Seq<char>) -> bool {
    (link.host is Some && link.host == page.host && link.scheme == page.scheme) || link.host
        == Some(site)
}

/// Executable form of [`same_site`].
pub fn is_same_site(link: &Link, page: &Link, site: &str) -> (same: bool)
    ensures
        same == same_site(link@, page@, site@),
{
    match &link.host {
        Some(host) => {
            let on_page = match &page.host {
                Some(page_host) => str_eq(host.as_str(), page_host.as_str()) && str_eq(
                    link.scheme.as_str(),
                    page.scheme.as_str(),
                ),
                None => false,
            };
            on_page || str_eq(host.as_str(), site)
        },
        None => false,
    }
}

/// The links to follow after the references `references` of the page
/// `page`, which stands at `base`, have been looked at: the addresses on
/// the same site, each without its fragment, as often as they come.
/// `None` stands for a page without a host on which a reference could be
/// read: such a page cannot be crawled.
pub open spec fn links_followed(
    base: Seq<char>,
    page: LinkView,
    references: Seq<Seq<char>>,
    site: Seq<char>,
) -> Option<Seq<Seq<char>>>
    decreases references.len(),
{
    if references.len() == 0 {
        Some(Seq::<Seq<char>>::empty())
    } else {
        match links_followed(base, page, references.drop_last(), site) {
            None => None,
            Some(links) => match joined_url(base, references.last()) {
                None => Some(links),
                Some(link) => if page.host is None {
                    None
                } else if same_site(link, page, site) {
                    Some(links.push(link.bare))
                } else {
                    Some(links)
                },
            },
        }
    }
}

/// What a page gives, as plain values.
pub struct FindingsView {
    pub found: Seq<Seq<char>>,
    pub new_urls: Seq<Seq<char>>,
}

/// What a page gives: the files found so far, those of the page included,
/// and the links to follow.
pub struct PageFindings {
    pub found: Vec<String>,
    pub new_urls: Vec<String>,
}

impl View for PageFindings {
    type V = FindingsView;

    open spec fn view(&self) -> FindingsView {
        FindingsView { found: texts(self.found@), new_urls: texts(self.new_urls@) }
    }
}

/// The elements that are asked for references to files.
pub open spec fn media_selectors() -> Seq<Seq<char>> {
    seq![
        "a"@,
        "link"@,
        "script"@,
        "img"@,
        "source"@,
        "video"@,
        "audio"@,
        "iframe"@,
        "embed"@,
    ]
}

/// The attributes that are read as references to files.
pub open spec fn media_attributes() -> Seq<Seq<char>> {
    seq![
        "href"@,
        "src"@,
        "data-src"@,
        "data-href"@,
        "data-link"@,
        "data-file"@,
        "data-url"@,
        "data-video"@,
        "data-audio"@,
        "data-embed"@,
    ]
}

/// The references of the page `html` that lead on to other pages: the
/// `href` of each of its `a` elements.
pub open spec fn page_links(html: Seq<char>) -> Seq<Seq<char>> {
    let page = selected_attributes(html, media_selectors(), media_attributes());
    if page.len() > 0 {
        first_column(page[0])
    } else {
        Seq::<Seq<char>>::empty()
    }
}

/// The references of the page `html` that may lead to files.
pub open spec fn page_references(html: Seq<char>) -> Seq<Seq<char>> {
    present_in_page(selected_attributes(html, media_selectors(), media_attributes()))
}

/// What the page `html`, which stands at `base`, gives. `None` stands for a
/// page that cannot be crawled: its address is no absolute address, or it
/// has no host and one of its links could be read.
pub open spec fn page_findings(
    base: Seq<char>,
    html: Seq<char>,
    already: Seq<Seq<char>>,
    extensions: Seq<Seq<char>>,
    site: Seq<char>,
) -> Option<FindingsView> {
    match parsed_url(base) {
        None => None,
        Some(page) => match links_followed(base, page, page_links(html), site) {
            None => None,
            Some(links) => Some(
                FindingsView {
                    found: media_found(base, page_references(html), already, extensions),
                    new_urls: links,
                },
            ),
        },
    }
}

/// The view of what a page may give.
pub open spec fn findings_view(findings: Option<PageFindings>) -> Option<FindingsView> {
    match findings {
        Some(f) => Some(f@),
        None => None,
    }
}

/// A copy of a list of strings.
fn copy_strings(list: &[String]) -> (out: Vec<String>)
    ensures
        texts(out@) == texts(list@),
{
    let mut out: Vec<String> = Vec::new();
    let mut i: usize = 0;
    while i < list.len()
        invariant
            i <= list.len(),
            out@.len() == i,
            forall|k: int| 0 <= k < i ==> (#[trigger] out@[k])@ == list@[k]@,
        decreases list.len() - i,
    {
        out.push(list[i].clone());
        i += 1;
    }
    proof {
        assert(texts(out@) =~= texts(list@));
    }
    out
}

/// Goes through the page `html`, which was fetched from `base`: collects
/// the addresses of the files whose path ends with one of `extensions`,
/// after those in `already`, and the links that stay on the site.
pub fn scan_page(base: &str, html: &str, already: &[String], extensions: &[String], site: &str) -> (findings:
    Option<PageFindings>)
    ensures
        findings_view(findings) == page_findings(
            base@,
            html@,
            texts(already@),
            texts(extensions@),
            site@,
        ),
{
    let page = match parse_link(base) {
        Some(page) => page,
        None => {
            return None;
        },
    };
    let selectors: [&str; 9] = [
        "a",
        "link",
        "script",
        "img",
        "source",
        "video",
        "audio",
        "iframe",
        "embed",
    ];
    let attributes: [&str; 10] = [
        "href",
        "src",
        "data-src",
        "data-href",
        "data-link",
        "data-file",
        "data-url",
        "data-video",
        "data-audio",
        "data-embed",
    ];
    proof {
        assert(slice_texts(selectors@) =~= media_selectors());
        assert(slice_texts(attributes@) =~= media_attributes());
    }
    let read = read_attributes(html, selectors.as_slice(), attributes.as_slice());
    let references = present_values(&read);
    let ghost refs = texts(references@);
    let mut found = copy_strings(already);
    let mut i: usize = 0;
    proof {
        assert(refs.take(0).len() == 0);
    }
    while i < references.len()
        invariant
            i <= references.len(),
            refs == texts(references@),
            texts(found@) == media_found(
                base@,
                refs.take(i as int),
                texts(already@),
                texts(extensions@),
            ),
        decreases references.len() - i,
    {
        proof {
            assert(refs.take(i + 1).drop_last() =~= refs.take(i as int));
            assert(refs.take(i + 1).last() == references@[i as int]@);
        }
        match resolve_link(base, references[i].as_str()) {
            Some(link) => {
                let lowered = link.path.as_str().to_lowercase();
                keep_media(&mut found, &link, lowered.as_str(), extensions);
            },
            None => {},
        }
        i += 1;
    }
    proof {
        assert(refs.take(refs.len() as int) =~= refs);
    }
    let hrefs = if read.len() > 0 {
        assert(page_view(read@)[0] == rows_view(read@[0]));
        first_values(&read[0])
    } else {
        Vec::new()
    };
    let ghost links = texts(hrefs@);
    assert(links =~= page_links(html@));
    let mut new_urls: Vec<String> = Vec::new();
    let mut j: usize = 0;
    proof {
        assert(links.take(0).len() == 0);
        assert(texts(new_urls@) =~= Seq::<Seq<char>>::empty());
    }
    while j < hrefs.len()
        invariant
            j <= hrefs.len(),
            links == texts(hrefs@),
            links == page_links(html@),
            parsed_url(base@) == Some(page@),
            links_followed(base@, page@, links.take(j as int), site@) == Some(texts(new_urls@)),
        decreases hrefs.len() - j,
    {
        let ghost so_far = texts(new_urls@);
        proof {
            assert(links.take(j + 1).drop_last() =~= links.take(j as int));
            assert(links.take(j + 1).last() == hrefs@[j as int]@);
        }
        match resolve_link(base, hrefs[j].as_str()) {
            Some(link) => {
                if page.host.is_none() {
                    proof {
                        assert(links_followed(base@, page@, links.take(j + 1), site@) is None);
                        lemma_links_stay_lost(base@, page@, links, site@, j + 1);
                    }
                    return None;
                }
                if is_same_site(&link, &page, site) {
                    new_urls.push(link.bare.clone());
                    proof {
                        assert(texts(new_urls@) =~= so_far.push(link@.bare));
                    }
                }
            },
            None => {},
        }
        j += 1;
    }
    proof {
        assert(links.take(links.len() as int) =~= links);
    }
    Some(PageFindings { found, new_urls })
}

/// Once the links of a page cannot be followed, more references do not
/// change that.
pub proof fn lemma_links_stay_lost(
    base: Seq<char>,
    page: LinkView,
    references: Seq<Seq<char>>,
    site: Seq<char>,
    n: int,
)
    requires
        0 <= n <= references.len(),
        links_followed(base, page, references.take(n), site) is None,
    ensures
        links_followed(base, page, references, site) is None,
    decreases references.len() - n,
{
    if n < references.len() {
        assert(references.take(n + 1).drop_last() =~= references.take(n));
        lemma_links_stay_lost(base, page, references, site, n + 1);
    } else {
        assert(references.take(n) =~= references);
    }
}

/// The state of a crawl, as plain values.
pub struct FrontierView {
    pub pending: Seq<Seq<char>>,
    pub visited: Seq<Seq<char>>,
    pub found: Seq<Seq<char>>,
}

/// The state of a crawl: the pages still to visit, the last one first; the
/// pages visited; and the files found.
pub struct Frontier {
    pub pending: Vec<String>,
    pub visited: Vec<String>,
    pub found: Vec<String>,
}

impl View for Frontier {
    type V = FrontierView;

    open spec fn view(&self) -> FrontierView {
        FrontierView {
            pending: texts(self.pending@),
            visited: texts(self.visited@),
            found: texts(self.found@),
        }
    }
}

/// A batch of pages taken from a frontier, and what is left of the
/// frontier.
pub struct Batch {
    pub left: FrontierView,
    pub pages: Seq<Seq<char>>,
}

impl FrontierView {
    /// The state before any page is visited: only `base` is pending.
    pub open spec fn start(base: Seq<char>) -> FrontierView {
        FrontierView {
            pending: seq![base],
            visited: Seq::<Seq<char>>::empty(),
            found: Seq::<Seq<char>>::empty(),
        }
    }

    /// Takes up to `limit` pages off the end of the pending list. A page
    /// that was visited before is dropped, and still counts against the
    /// limit. Every page taken is visited from then on.
    pub open spec fn batch(self, limit: nat) -> Batch
        decreases limit,
    {
        if limit == 0 {
            Batch { left: self, pages: Seq::<Seq<char>>::empty() }
        } else {
            let before = self.batch((limit - 1) as nat);
            if before.left.pending.len() == 0 {
                before
            } else {
                let page = before.left.pending.last();
                let pending = before.left.pending.drop_last();
                if before.left.visited.contains(page) {
                    Batch { left: FrontierView { pending, ..before.left }, pages: before.pages }
                } else {
                    Batch {
                        left: FrontierView {
                            pending,
                            visited: before.left.visited.push(page),
                            ..before.left
                        },
                        pages: before.pages.push(page),
                    }
                }
            }
        }
    }

    /// The state after a page has given `links` and `files`: a link that is
    /// neither visited nor pending becomes pending, a file that is not in
    /// the list joins it.
    pub open spec fn absorbed(self, links: Seq<Seq<char>>, files: Seq<Seq<char>>) -> FrontierView {
        FrontierView {
            pending: queued(self.pending, self.visited, links),
            visited: self.visited,
            found: merged(self.found, files),
        }
    }
}

/// The pending list after the links `links` have been looked at.
pub open spec fn queued(pending: Seq<Seq<char>>, visited: Seq<Seq<char>>, links: Seq<Seq<char>>) -> Seq<
    Seq<char>,
>
    decreases links.len(),
{
    if links.len() == 0 {
        pending
    } else {
        let before = queued(pending, visited, links.drop_last());
        if !visited.contains(links.last()) && !before.contains(links.last()) {
            before.push(links.last())
        } else {
            before
        }
    }
}

/// The list `list` after the texts `more` have joined it, each unless the
/// list holds it already.
pub open spec fn merged(list: Seq<Seq<char>>, more: Seq<Seq<char>>) -> Seq<Seq<char>>
    decreases more.len(),
{
    if more.len() == 0 {
        list
    } else {
        let before = merged(list, more.drop_last());
        if before.contains(more.last()) {
            before
        } else {
            before.push(more.last())
        }
    }
}

impl Frontier {
    /// Starts a crawl at `base`.
    pub fn new(base: String) -> (frontier: Frontier)
        ensures
            frontier@ == FrontierView::start(base@),
    {
        let mut pending: Vec<String> = Vec::new();
        pending.push(base);
        let frontier = Frontier { pending, visited: Vec::new(), found: Vec::new() };
        proof {
            assert(frontier@.pending =~= seq![base@]);
            assert(frontier@.visited =~= Seq::<Seq<char>>::empty());
            assert(frontier@.found =~= Seq::<Seq<char>>::empty());
        }
        frontier
    }

    /// Whether no page is left to visit.
    pub fn is_done(&self) -> (done: bool)
        ensures
            done == (self@.pending.len() == 0),
    {
        self.pending.len() == 0
    }

    /// Takes the next pages to visit, `limit` at most.
    pub fn next_batch(&mut self, limit: usize) -> (pages: Vec<String>)
        ensures
            final(self)@ == old(self)@.batch(limit as nat).left,
            texts(pages@) == old(self)@.batch(limit as nat).pages,
    {
        let mut pages: Vec<String> = Vec::new();
        let mut n: usize = 0;
        proof {
            assert(texts(pages@) =~= Seq::<Seq<char>>::empty());
        }
        while n < limit
            invariant
                n <= limit,
                self@ == old(self)@.batch(n as nat).left,
                texts(pages@) == old(self)@.batch(n as nat).pages,
            decreases limit - n,
        {
            let ghost before = self@;
            let ghost taken = texts(pages@);
            match self.pending.pop() {
                Some(page) => {
                    proof {
                        assert(texts(self.pending@) =~= before.pending.drop_last());
                        assert(before.pending.last() == page@);
                    }
                    if !holds(&self.visited, page.as_str()) {
                        self.visited.push(page.clone());
                        pages.push(page);
                        proof {
                            assert(texts(self.visited@) =~= before.visited.push(page@));
                            assert(texts(pages@) =~= taken.push(page@));
                        }
                    }
                },
                None => {},
            }
            n += 1;
        }
        pages
    }

    /// Takes in what a page gave.
    pub fn absorb(&mut self, findings: PageFindings)
        ensures
            final(self)@ == old(self)@.absorbed(findings@.new_urls, findings@.found),
    {
        let links = findings.new_urls;
        let files = findings.found;
        let ghost all_links = texts(links@);
        let ghost all_files = texts(files@);
        let ghost start = self@;
        let mut i: usize = 0;
        proof {
            assert(all_links.take(0).len() == 0);
        }
        while i < links.len()
            invariant
                i <= links.len(),
                all_links == texts(links@),
                self@.visited == start.visited,
                self@.found == start.found,
                self@.pending == queued(start.pending, start.visited, all_links.take(i as int)),
            decreases links.len() - i,
        {
            let ghost before = texts(self.pending@);
            proof {
                assert(all_links.take(i + 1).drop_last() =~= all_links.take(i as int));
                assert(all_links.take(i + 1).last() == links@[i as int]@);
            }
            if !holds(&self.visited, links[i].as_str()) && !holds(
                &self.pending,
                links[i].as_str(),
            ) {
                self.pending.push(links[i].clone());
                proof {
                    assert(texts(self.pending@) =~= before.push(links@[i as int]@));
                }
            }
            i += 1;
        }
        proof {
            assert(all_links.take(all_links.len() as int) =~= all_links);
        }
        let mut j: usize = 0;
        proof {
            assert(all_files.take(0).len() == 0);
        }
        while j < files.len()
            invariant
                j <= files.len(),
                all_files == texts(files@),
                self@.visited == start.visited,
                self@.pending == queued(start.pending, start.visited, all_links),
                self@.found == merged(start.found, all_files.take(j as int)),
            decreases files.len() - j,
        {
            let ghost before = texts(self.found@);
            proof {
                assert(all_files.take(j + 1).drop_last() =~= all_files.take(j as int));
                assert(all_files.take(j + 1).last() == files@[j as int]@);
            }
            if !holds(&self.found, files[j].as_str()) {
                self.found.push(files[j].clone());
                proof {
                    assert(texts(self.found@) =~= before.push(files@[j as int]@));
                }
            }
            j += 1;
        }
        proof {
            assert(all_files.take(all_files.len() as int) =~= all_files);
        }
    }

    /// Ends the crawl and gives the files found, each once, in dictionary
    /// order.
    pub fn finish(self) -> (files: Vec<String>)
        ensures
            strictly_sorted(texts(files@)),
            forall|t: Seq<char>| texts(files@).contains(t) <==> self@.found.contains(t),
    {
        sort_unique(self.found.as_slice())
    }
}

/// The extensions that the setting `setting` names: its pieces between
/// commas, each without white space at its ends and in lower case.
pub open spec fn extensions_of(setting: Seq<char>) -> Seq<Seq<char>> {
    Seq::new(pieces(setting).len(), |i: int| lowercase(trimmed(pieces(setting)[i])))
}

/// Reads the extensions that a setting names.
pub fn parse_extensions(setting: &str) -> (extensions: Vec<String>)
    ensures
        texts(extensions@) == extensions_of(setting@),
{
    let parts = split_commas(setting);
    let mut extensions: Vec<String> = Vec::new();
    let mut i: usize = 0;
    while i < parts.len()
        invariant
            i <= parts.len(),
            texts(parts@) == pieces(setting@),
            extensions@.len() == i,
            forall|k: int|
                0 <= k < i ==> (#[trigger] extensions@[k])@ == lowercase(
                    trimmed(pieces(setting@)[k]),
                ),
        decreases parts.len() - i,
    {
        assert(texts(parts@)[i as int] == parts@[i as int]@);
        let piece = chars_of(parts[i].as_str());
        let bare = string_of(trim_chars(piece.as_slice()).as_slice());
        extensions.push(bare.as_str().to_lowercase());
        i += 1;
    }
    proof {
        assert(texts(extensions@) =~= extensions_of(setting@));
    }
    extensions
}

/// Number of pages fetched at a time where the command line names none.
pub const DEFAULT_THREADS: usize = 10;

/// The number of pages fetched at a time: what the setting spells, or
/// [`DEFAULT_THREADS`] where there is no setting or it spells no number.
pub open spec fn threads_of(setting: Option<Seq<char>>) -> usize {
    match setting {
        Some(text) => match parsed_usize(text) {
            Some(n) => n,
            None => DEFAULT_THREADS,
        },
        None => DEFAULT_THREADS,
    }
}

/// Reads the number of pages fetched at a time.
pub fn thread_count(setting: Option<&str>) -> (threads: usize)
    ensures
        threads == threads_of(optional_slice(setting)),
{
    match setting {
        Some(text) => match parse_usize(text) {
            Some(n) => n,
            None => DEFAULT_THREADS,
        },
        None => DEFAULT_THREADS,
    }
}

/// The name of the file that lists what a crawl found, for the crawl with
/// identifier `id`.
pub fn output_name(id: &str) -> (name: String)
    ensures
        name@ == id@ + ".txt"@,
{
    let mut name = String::from_str(id);
    name.append(".txt");
    name
}

/// A name under a fresh identifier for the file that lists what a crawl
/// found.
pub fn fresh_output_name() -> (name: String)
    ensures
        name@.len() == SESSION_ID_LEN + 4,
        ".txt"@.is_prefix_of(name@.skip(SESSION_ID_LEN as int)),
{
    let id = fresh_session_id();
    let name = output_name(id.as_str());
    proof {
        reveal_strlit(".txt");
        assert(name@.skip(SESSION_ID_LEN as int) =~= ".txt"@);
    }
    name
}

} // verus!
