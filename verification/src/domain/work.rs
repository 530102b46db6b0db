//! Works: what the server keeps of an AO3 work, read from the work's page,
//! from a blurb on a series page or from a downloaded EPUB.

use vstd::prelude::*;

use std::collections::HashMap;

use crate::common::{
    self, DownloadFormat, format_extension, format_named, all_formats, sanitised, join, fandom_label,
    filtered_fandoms,
};
use crate::config::Config;
use crate::html::{self, HtmlElement, ElementView, elements_view, texts};
use crate::strset::views;
use crate::text::{self, decimal, parse_int, words, terminated_pieces, push_str};

verus! {

broadcast use vstd::std_specs::hash::group_hash_axioms;

/// A work's place in a series.
#[derive(Clone, Debug, PartialEq)]
pub struct SeriesLink {
    pub series_id: i64,
    pub series_title: String,
    pub part_in_series: u8,
}

/// A series link as plain values: (series id, series title, part in series).
pub type LinkView = (int, Seq<char>, int);

pub open spec fn link_view(l: SeriesLink) -> LinkView {
    (l.series_id as int, l.series_title@, l.part_in_series as int)
}

/// The series links of a work, by series id, as plain values.
pub open spec fn links_view(m: Map<i64, SeriesLink>) -> Map<i64, LinkView> {
    Map::new(|k: i64| m.contains_key(k), |k: i64| link_view(m[k]))
}

// ---------------------------------------------------------------------------
// Download links
/// A work's download link for each format it offers
/// (a `HashMap<DownloadFormat, String>` held as one slot per format).
#[derive(Clone, Debug)]
pub struct DownloadLinks {
    azw3: Option<String>,
    epub: Option<String>,
    mobi: Option<String>,
    pdf: Option<String>,
    html: Option<String>,
}

impl DownloadLinks {
    pub closed spec fn slot(self, f: DownloadFormat) -> Option<String> {
        match f {
            DownloadFormat::Azw3 => self.azw3,
            DownloadFormat::Epub => self.epub,
            DownloadFormat::Mobi => self.mobi,
            DownloadFormat::Pdf => self.pdf,
            DownloadFormat::Html => self.html,
        }
    }

    pub fn new() -> (l: DownloadLinks)
        ensures
            l@ == Map::<DownloadFormat, Seq<char>>::empty(),
    {
        let l = DownloadLinks { azw3: None, epub: None, mobi: None, pdf: None, html: None };
        assert(l@ =~= Map::<DownloadFormat, Seq<char>>::empty());
        l
    }

    /// Sets the link for `format`.
    pub fn insert(&mut self, format: DownloadFormat, link: String)
        ensures
            final(self)@ == old(self)@.insert(format, link@),
    {
        let ghost l = link@;
        match format {
            DownloadFormat::Azw3 => self.azw3 = Some(link),
            DownloadFormat::Epub => self.epub = Some(link),
            DownloadFormat::Mobi => self.mobi = Some(link),
            DownloadFormat::Pdf => self.pdf = Some(link),
            DownloadFormat::Html => self.html = Some(link),
        }
        assert(final(self)@ =~= old(self)@.insert(format, l));
    }

    /// The link for `format`.
    pub fn get(&self, format: DownloadFormat) -> (r: Option<&String>)
        ensures
            r matches Some(s) ==> self@.contains_key(format) && self@[format] == s@,
            r is None ==> !self@.contains_key(format),
    {
        match format {
            DownloadFormat::Azw3 => self.azw3.as_ref(),
            DownloadFormat::Epub => self.epub.as_ref(),
            DownloadFormat::Mobi => self.mobi.as_ref(),
            DownloadFormat::Pdf => self.pdf.as_ref(),
            DownloadFormat::Html => self.html.as_ref(),
        }
    }
}

impl View for DownloadLinks {
    type V = Map<DownloadFormat, Seq<char>>;

    open spec fn view(&self) -> Map<DownloadFormat, Seq<char>> {
        Map::new(|f: DownloadFormat| self.slot(f) is Some, |f: DownloadFormat| self.slot(f)->0@)
    }
}

// ---------------------------------------------------------------------------
// Works
#[derive(Clone, Debug)]
pub struct Work {
    pub id: i64,
    pub title: String,
    pub authors: Vec<String>,
    pub download_links: DownloadLinks,
    pub fandoms: Vec<String>,
    pub filtered_fandom: String,
    pub relationships: Vec<String>,
    pub characters: Vec<String>,
    pub additional_tags: Vec<String>,
    pub series: HashMap<i64, SeriesLink>,
}

/// The file a work is saved as: `"<title>.<ext>"`, or
/// `"<part> - <title>.<ext>"` when saved as part of a series.
pub open spec fn work_filename(title: Seq<char>, link: Option<LinkView>, format: DownloadFormat) -> Seq<char> {
    match link {
        Some(l) => decimal(l.2 as nat) + " - "@ + title + "."@ + format_extension(format),
        None => title + "."@ + format_extension(format),
    }
}

impl Work {
    /// The link the work has to series `id`, as plain values.
    pub open spec fn link_to(self, series_id: Option<i64>) -> Option<LinkView> {
        match series_id {
            Some(id) => if self.series@.contains_key(id) {
                Some(link_view(self.series@[id]))
            } else {
                None
            },
            None => None,
        }
    }

    /// A stand-in work for tests and local listings.
    pub fn test_work(
        title: String,
        fandom: String,
        series: Option<String>,
        part_in_series: Option<u8>,
    ) -> (w: Work)
        requires
            series is Some ==> part_in_series is Some,
        ensures
            w.id == 1,
            w.title == title,
            views(w.authors@) == seq![Seq::<char>::empty()],
            w.download_links@ == Map::<DownloadFormat, Seq<char>>::empty(),
            w.fandoms@.len() == 0,
            w.filtered_fandom == fandom,
            w.relationships@.len() == 0,
            w.characters@.len() == 0,
            w.additional_tags@.len() == 0,
            series is None ==> w.series@ == Map::<i64, SeriesLink>::empty(),
            series matches Some(s) ==> links_view(w.series@) == Map::<i64, LinkView>::empty().insert(
                1,
                (1, s@, part_in_series->0 as int),
            ),
    {
        let authors = vec![String::new()];
        assert(views(authors@) =~= seq![Seq::<char>::empty()]);
        let mut links: HashMap<i64, SeriesLink> = HashMap::new();
        let ghost s_view = crate::pattern::opt_view(series);
        match series {
            None => {},
            Some(unwrapped_series) => {
                let part = match part_in_series {
                    Some(p) => p,
                    None => 0,
                };
                links.insert(
                    1,
                    SeriesLink { series_id: 1, series_title: unwrapped_series, part_in_series: part },
                );
                assert(links_view(links@) =~= Map::<i64, LinkView>::empty().insert(
                    1,
                    (1, s_view->0, part as int),
                ));
            },
        }
        Work {
            id: 1,
            title,
            authors,
            download_links: DownloadLinks::new(),
            fandoms: Vec::new(),
            filtered_fandom: fandom,
            relationships: Vec::new(),
            characters: Vec::new(),
            additional_tags: Vec::new(),
            series: links,
        }
    }

    /// The work's link to series `series_id`.
    pub fn get_series_link(&self, series_id: i64) -> (r: Option<&SeriesLink>)
        ensures
            self.series@.contains_key(series_id) ==> r == Some(&self.series@[series_id]),
            !self.series@.contains_key(series_id) ==> r is None,
    {
        self.series.get(&series_id)
    }

    /// The file name the work is saved under, in `format`, as part of
    /// series `series_id` if given.
    pub fn get_filename(&self, format: DownloadFormat, series_id: Option<i64>) -> (s: String)
        ensures
            s@ == work_filename(self.title@, self.link_to(series_id), format),
    {
        let link = match series_id {
            Some(id) => self.get_series_link(id),
            None => None,
        };
        let mut s = String::new();
        match link {
            Some(series_link) => {
                text::push_decimal(&mut s, series_link.part_in_series as u64);
                push_str(&mut s, " - ");
            },
            None => {},
        }
        push_str(&mut s, self.title.as_str());
        push_str(&mut s, ".");
        let ext = format.extension();
        push_str(&mut s, ext.as_str());
        proof {
            if link is Some {
                assert(s@ =~= decimal(link->0.part_in_series as nat) + " - "@ + self.title@ + "."@ + format_extension(format));
            } else {
                assert(s@ =~= self.title@ + "."@ + format_extension(format));
            }
        }
        s
    }
}

/// What a download of work `title` that answered with HTTP status `status`
/// means (`response` is how the response is described).
pub open spec fn download_outcome(title: Seq<char>, status: u16, response: Seq<char>) -> Result<(), Seq<char>> {
    if status == 525 {
        Err("SSL error trying to download work "@ + title + ": "@ + response)
    } else if !(200 <= status <= 299) {
        Err("Unknown error trying to download work "@ + title + ": "@ + response)
    } else {
        Ok(())
    }
}

pub fn check_download_status(title: &str, status: u16, response: &str) -> (r: Result<(), String>)
    ensures
        download_outcome(title@, status, response@) is Ok ==> r is Ok,
        download_outcome(title@, status, response@) matches Err(m) ==> (r matches Err(e) && e@ == m),
{
    let prefix = if status == 525 {
        "SSL error trying to download work "
    } else if !(200 <= status && status <= 299) {
        "Unknown error trying to download work "
    } else {
        return Ok(());
    };
    let mut m = text::owned(prefix);
    push_str(&mut m, title);
    push_str(&mut m, ": ");
    push_str(&mut m, response);
    Err(m)
}

// ---------------------------------------------------------------------------
// Pieces of AO3 markup
/// The third `/`-separated piece of a link such as `/series/123`.
pub open spec fn third_piece(href: Seq<char>) -> Option<Seq<char>> {
    let p = terminated_pieces(href, '/');
    if p.len() >= 3 {
        Some(p[2])
    } else {
        None
    }
}

pub fn third_piece_of(href: &str) -> (r: Option<String>)
    ensures
        r matches Some(s) ==> third_piece(href@) == Some(s@),
        r is None ==> third_piece(href@) is None,
{
    let p = text::split_on(href, '/');
    proof {
        text::lemma_split_nonempty(href@, '/');
    }
    let n = p.len();
    proof {
        assert(views(p@)[n - 1] == p@[n - 1]@);
    }
    let count = if p[n - 1].as_str().is_empty() {
        n - 1
    } else {
        n
    };
    if count >= 3 {
        assert(views(p@)[2] == p@[2]@);
        Some(p[2].clone())
    } else {
        None
    }
}

/// The words of `ws` other than `"series"`.
pub open spec fn without_series_word(ws: Seq<Seq<char>>) -> Seq<Seq<char>>
    decreases ws.len(),
{
    if ws.len() == 0 {
        ws
    } else if ws.last() == "series"@ {
        without_series_word(ws.drop_last())
    } else {
        without_series_word(ws.drop_last()).push(ws.last())
    }
}

/// A series name as AO3 shows it, without the word `"series"`, words joined by one space.
pub open spec fn series_name(s: Seq<char>) -> Seq<char> {
    join(without_series_word(words(s)), " "@)
}

pub fn strip_series_word(s: &str) -> (r: String)
    ensures
        r@ == series_name(s@),
{
    let ws = text::split_whitespace(s);
    let mut kept: Vec<String> = Vec::new();
    let mut i: usize = 0;
    assert(views(ws@).take(0) =~= Seq::<Seq<char>>::empty());
    while i < ws.len()
        invariant
            0 <= i <= ws.len(),
            views(ws@) == words(s@),
            views(kept@) == without_series_word(views(ws@).take(i as int)),
        decreases ws.len() - i,
    {
        proof {
            assert(views(ws@).take(i + 1).drop_last() =~= views(ws@).take(i as int));
            assert(views(ws@).take(i + 1).last() == ws@[i as int]@);
        }
        if !crate::strset::str_is(ws[i].as_str(), "series") {
            let ghost before = views(kept@);
            kept.push(ws[i].clone());
            assert(views(kept@) =~= before.push(ws@[i as int]@));
        }
        i = i + 1;
    }
    assert(views(ws@).take(i as int) =~= views(ws@));
    let mut r = String::new();
    common::push_joined(&mut r, &kept, " ");
    assert(r@ =~= series_name(s@));
    r
}

/// The second word of a position such as `"Part 2 of"`, read as a `u8`.
pub open spec fn part_number(s: Seq<char>) -> Option<int> {
    let w = words(s);
    if w.len() >= 2 {
        match parse_int(w[1], 0, 255, false) {
            Ok(v) => Some(v),
            Err(_) => None,
        }
    } else {
        None
    }
}

pub fn part_number_of(s: &str) -> (r: Option<u8>)
    ensures
        r matches Some(v) ==> part_number(s@) == Some(v as int),
        r is None ==> part_number(s@) is None,
{
    let w = text::split_whitespace(s);
    if w.len() >= 2 {
        assert(views(w@)[1] == w@[1]@);
        match text::parse_u8(w[1].as_str()) {
            Ok(v) => Some(v),
            Err(_) => None,
        }
    } else {
        None
    }
}

/// The number a series link points at: its third piece read as an `i64`.
pub open spec fn linked_id(href: Option<Seq<char>>) -> Option<int> {
    match href {
        Some(h) => match third_piece(h) {
            Some(p) => match parse_int(p, i64::MIN as int, i64::MAX as int, true) {
                Ok(v) => Some(v),
                Err(_) => None,
            },
            None => None,
        },
        None => None,
    }
}

pub fn linked_id_of(href: &Option<String>) -> (r: Option<i64>)
    ensures
        r matches Some(v) ==> linked_id(crate::pattern::opt_view(*href)) == Some(v as int),
        r is None ==> linked_id(crate::pattern::opt_view(*href)) is None,
{
    match href {
        None => None,
        Some(h) => match third_piece_of(h.as_str()) {
            None => None,
            Some(p) => match text::parse_i64(p.as_str()) {
                Ok(v) => Some(v),
                Err(_) => None,
            },
        },
    }
}

// ---------------------------------------------------------------------------
// A work's own page
/// What the selectors on a work's page found.
#[derive(Clone, Debug)]
pub struct WorkPage {
    /// `h2.title.heading`
    pub titles: Vec<String>,
    /// `h3.byline.heading>a`
    pub author_links: Vec<String>,
    /// `h3.byline.heading`
    pub bylines: Vec<String>,
    /// `li.download>ul>li>a`
    pub downloads: Vec<HtmlElement>,
    /// `dd.fandom.tags>ul>li>a`
    pub fandoms: Vec<String>,
    /// `dd.relationship.tags>ul>li>a`
    pub relationships: Vec<String>,
    /// `dd.character.tags>ul>li>a`
    pub characters: Vec<String>,
    /// `dd.freeform.tags>ul>li>a`
    pub additional_tags: Vec<String>,
    /// `dd.series>span.series>span.position`
    pub positions: Vec<String>,
    /// the first child element of each position
    pub position_links: Vec<HtmlElement>,
}

/// The page holds all that the work's fields are read from.
pub open spec fn work_page_complete(p: WorkPage) -> bool {
    let ds = elements_view(p.downloads@);
    let ls = elements_view(p.position_links@);
    &&& views(p.author_links@).len() == 0 ==> views(p.bylines@).len() > 0
    &&& forall|i: int| 0 <= i < ds.len() ==> format_named(#[trigger] ds[i].1) is Some && ds[i].2 is Some
    &&& ls.len() == views(p.positions@).len()
    &&& forall|i: int|
        0 <= i < ls.len() ==> linked_id(#[trigger] ls[i].2) is Some && part_number(views(p.positions@)[i]) is Some
}

/// The download links of the first `n` download anchors, a later one for a
/// format replacing an earlier one.
pub open spec fn page_download_map(ds: Seq<ElementView>, n: nat) -> Map<DownloadFormat, Seq<char>>
    decreases n,
{
    if n == 0 {
        Map::empty()
    } else {
        let d = ds[n - 1];
        page_download_map(ds, (n - 1) as nat).insert(
            format_named(d.1)->0,
            "https://archiveofourown.org"@ + d.2->0,
        )
    }
}

/// The series links of the first `n` positions, by series id.
pub open spec fn page_series_map(positions: Seq<Seq<char>>, links: Seq<ElementView>, n: nat) -> Map<i64, LinkView>
    decreases n,
{
    if n == 0 {
        Map::empty()
    } else {
        let id = linked_id(links[n - 1].2)->0;
        page_series_map(positions, links, (n - 1) as nat).insert(
            id as i64,
            (id, sanitised(series_name(links[n - 1].1)), part_number(positions[n - 1])->0),
        )
    }
}

/// `w` is the work that `page` describes, with id `id`, filed under `fandom`.
pub open spec fn work_from_page(w: Work, id: i64, p: WorkPage, fandom: Seq<char>) -> bool {
    &&& w.id == id
    &&& w.title@ == sanitised(views(p.titles@)[0])
    &&& views(w.authors@) == if views(p.author_links@).len() > 0 {
        views(p.author_links@)
    } else {
        seq![views(p.bylines@)[0]]
    }
    &&& w.download_links@ == page_download_map(elements_view(p.downloads@), elements_view(p.downloads@).len())
    &&& views(w.fandoms@) == views(p.fandoms@)
    &&& w.filtered_fandom@ == fandom
    &&& views(w.relationships@) == views(p.relationships@)
    &&& views(w.characters@) == views(p.characters@)
    &&& views(w.additional_tags@) == views(p.additional_tags@)
    &&& links_view(w.series@) == page_series_map(views(p.positions@), elements_view(p.position_links@), views(p.positions@).len())
}

/// The message for a work page without a title.
pub open spec fn missing_title_message(id: i64) -> Seq<char> {
    "Could not find title for work "@ + text::signed_decimal(id as int)
}

/// The download links the work page offers.
fn page_downloads(ds: &Vec<HtmlElement>) -> (l: DownloadLinks)
    requires
        forall|i: int|
            0 <= i < ds.len() ==> format_named(#[trigger] elements_view(ds@)[i].1) is Some && elements_view(ds@)[i].2 is Some,
    ensures
        l@ == page_download_map(elements_view(ds@), ds.len() as nat),
{
    let mut l = DownloadLinks::new();
    let mut i: usize = 0;
    while i < ds.len()
        invariant
            0 <= i <= ds.len(),
            forall|k: int|
                0 <= k < ds.len() ==> format_named(#[trigger] elements_view(ds@)[k].1) is Some && elements_view(ds@)[k].2 is Some,
            l@ == page_download_map(elements_view(ds@), i as nat),
        decreases ds.len() - i,
    {
        assert(format_named(elements_view(ds@)[i as int].1) is Some);
        assert(elements_view(ds@)[i as int] == html::element_view(ds@[i as int]));
        let format = match DownloadFormat::from_name(ds[i].text.as_str()) {
            Some(f) => f,
            None => DownloadFormat::Epub,
        };
        let mut link = text::owned("https://archiveofourown.org");
        match &ds[i].href {
            Some(h) => push_str(&mut link, h.as_str()),
            None => {},
        }
        l.insert(format, link);
        i = i + 1;
    }
    l
}

/// The series links the work page shows.
fn page_series_links(p: &WorkPage) -> (m: HashMap<i64, SeriesLink>)
    requires
        work_page_complete(*p),
    ensures
        links_view(m@) == page_series_map(views(p.positions@), elements_view(p.position_links@), p.positions.len() as nat),
{
    let mut m: HashMap<i64, SeriesLink> = HashMap::new();
    let mut i: usize = 0;
    assert(links_view(m@) =~= Map::<i64, LinkView>::empty());
    while i < p.positions.len()
        invariant
            0 <= i <= p.positions.len(),
            work_page_complete(*p),
            links_view(m@) == page_series_map(views(p.positions@), elements_view(p.position_links@), i as nat),
        decreases p.positions.len() - i,
    {
        assert(linked_id(elements_view(p.position_links@)[i as int].2) is Some
            && part_number(views(p.positions@)[i as int]) is Some);
        assert(elements_view(p.position_links@)[i as int] == html::element_view(p.position_links@[i as int]));
        assert(views(p.positions@)[i as int] == p.positions@[i as int]@);
        let series_id = match linked_id_of(&p.position_links[i].href) {
            Some(v) => v,
            None => 0,
        };
        let part = match part_number_of(p.positions[i].as_str()) {
            Some(v) => v,
            None => 0,
        };
        let name = strip_series_word(p.position_links[i].text.as_str());
        let title = common::sanitise_string(name.as_str());
        let ghost before = m@;
        m.insert(series_id, SeriesLink { series_id, series_title: title, part_in_series: part });
        assert(links_view(m@) =~= links_view(before).insert(
            series_id,
            (series_id as int, title@, part as int),
        ));
        i = i + 1;
    }
    m
}

impl Work {
    /// The work that `page` describes, filed under `filtered_fandom`.
    pub fn from_page(id: i64, page: &WorkPage, filtered_fandom: String) -> (r: Result<Work, String>)
        requires
            page.titles.len() > 0 ==> work_page_complete(*page),
        ensures
            page.titles.len() == 0 ==> (r matches Err(m) && m@ == missing_title_message(id)),
            page.titles.len() > 0 ==> (r matches Ok(w) && work_from_page(w, id, *page, filtered_fandom@)),
    {
        if page.titles.len() == 0 {
            let mut m = text::owned("Could not find title for work ");
            text::push_signed_decimal(&mut m, id);
            return Err(m);
        }
        let authors = if page.author_links.len() > 0 {
            page.author_links.clone()
        } else {
            let a = vec![page.bylines[0].clone()];
            assert(views(a@) =~= seq![views(page.bylines@)[0]]);
            a
        };
        assert(views(authors@) =~= if page.author_links.len() > 0 {
            views(page.author_links@)
        } else {
            seq![views(page.bylines@)[0]]
        });
        assert(views(page.titles@)[0] == page.titles@[0]@);
        let download_links = page_downloads(&page.downloads);
        let series = page_series_links(page);
        let fandoms = page.fandoms.clone();
        let relationships = page.relationships.clone();
        let characters = page.characters.clone();
        let additional_tags = page.additional_tags.clone();
        assert(views(fandoms@) =~= views(page.fandoms@));
        assert(views(relationships@) =~= views(page.relationships@));
        assert(views(characters@) =~= views(page.characters@));
        assert(views(additional_tags@) =~= views(page.additional_tags@));
        Ok(Work {
            id,
            title: common::sanitise_string(page.titles[0].as_str()),
            authors,
            download_links,
            fandoms,
            filtered_fandom,
            relationships,
            characters,
            additional_tags,
            series,
        })
    }
}

/// Whether the scraper accepts every selector read on a work's page.
pub open spec fn work_selectors_accepted() -> bool {
    &&& html::selector_accepted("h2.title.heading"@)
    &&& html::selector_accepted("h3.byline.heading>a"@)
    &&& html::selector_accepted("h3.byline.heading"@)
    &&& html::selector_accepted("li.download>ul>li>a"@)
    &&& html::selector_accepted("dd.fandom.tags>ul>li>a"@)
    &&& html::selector_accepted("dd.relationship.tags>ul>li>a"@)
    &&& html::selector_accepted("dd.character.tags>ul>li>a"@)
    &&& html::selector_accepted("dd.freeform.tags>ul>li>a"@)
    &&& html::selector_accepted("dd.series>span.series>span.position"@)
    &&& html::selector_accepted("dd.series>span.series>span.position>:nth-child(1)"@)
}

/// `p` holds what the work selectors select in `doc`.
pub open spec fn work_page_selected(p: WorkPage, doc: Seq<char>) -> bool {
    &&& work_selectors_accepted()
    &&& views(p.titles@) == texts(html::selected(doc, "h2.title.heading"@))
    &&& views(p.author_links@) == texts(html::selected(doc, "h3.byline.heading>a"@))
    &&& views(p.bylines@) == texts(html::selected(doc, "h3.byline.heading"@))
    &&& elements_view(p.downloads@) == html::selected(doc, "li.download>ul>li>a"@)
    &&& views(p.fandoms@) == texts(html::selected(doc, "dd.fandom.tags>ul>li>a"@))
    &&& views(p.relationships@) == texts(html::selected(doc, "dd.relationship.tags>ul>li>a"@))
    &&& views(p.characters@) == texts(html::selected(doc, "dd.character.tags>ul>li>a"@))
    &&& views(p.additional_tags@) == texts(html::selected(doc, "dd.freeform.tags>ul>li>a"@))
    &&& views(p.positions@) == texts(html::selected(doc, "dd.series>span.series>span.position"@))
    &&& elements_view(p.position_links@) == html::selected(doc, "dd.series>span.series>span.position>:nth-child(1)"@)
}

/// The fandom a work on `p` is filed under: the override where given, else
/// what the fandom rules of `config` give (`None` where no fandom is left).
pub open spec fn chosen_fandom(p: WorkPage, config: Config, fandom_override: Option<Seq<char>>) -> Option<Seq<char>> {
    match fandom_override {
        Some(f) => Some(f),
        None => {
            let left = filtered_fandoms(views(p.fandoms@), config.fandom_map@, config.filters());
            if left.len() > 0 {
                Some(fandom_label(left))
            } else {
                None
            }
        },
    }
}

pub fn check_work_page(p: &WorkPage) -> (b: bool)
    ensures
        b == work_page_complete(*p),
{
    if p.author_links.len() == 0 && p.bylines.len() == 0 {
        return false;
    }
    let mut i: usize = 0;
    while i < p.downloads.len()
        invariant
            0 <= i <= p.downloads.len(),
            forall|k: int| 0 <= k < i ==> format_named(#[trigger] elements_view(p.downloads@)[k].1) is Some
                && elements_view(p.downloads@)[k].2 is Some,
        decreases p.downloads.len() - i,
    {
        assert(elements_view(p.downloads@)[i as int] == html::element_view(p.downloads@[i as int]));
        if DownloadFormat::from_name(p.downloads[i].text.as_str()).is_none() || p.downloads[i].href.is_none() {
            assert(!(format_named(elements_view(p.downloads@)[i as int].1) is Some && elements_view(p.downloads@)[i as int].2 is Some));
            return false;
        }
        i = i + 1;
    }
    if p.position_links.len() != p.positions.len() {
        return false;
    }
    let mut j: usize = 0;
    while j < p.positions.len()
        invariant
            0 <= j <= p.positions.len(),
            p.position_links.len() == p.positions.len(),
            forall|k: int| 0 <= k < j ==> linked_id(#[trigger] elements_view(p.position_links@)[k].2) is Some
                && part_number(views(p.positions@)[k]) is Some,
        decreases p.positions.len() - j,
    {
        assert(elements_view(p.position_links@)[j as int] == html::element_view(p.position_links@[j as int]));
        assert(views(p.positions@)[j as int] == p.positions@[j as int]@);
        if linked_id_of(&p.position_links[j].href).is_none() || part_number_of(p.positions[j].as_str()).is_none() {
            assert(views(p.positions@)[j as int] == p.positions@[j as int]@);
            assert(!(linked_id(elements_view(p.position_links@)[j as int].2) is Some && part_number(views(p.positions@)[j as int]) is Some));
            return false;
        }
        j = j + 1;
    }
    true
}

/// The message for a page that lacks what a work's fields are read from.
pub open spec fn unreadable_work_message(id: i64) -> Seq<char> {
    "Could not read work "@ + text::signed_decimal(id as int) + " from its page"@
}

/// The message for a work none of whose fandoms is left after filtering.
pub open spec fn no_fandom_message(id: i64) -> Seq<char> {
    "No fandom left after filtering for work "@ + text::signed_decimal(id as int)
}

fn message_with_id(prefix: &str, id: i64, suffix: &str) -> (m: String)
    ensures
        m@ == prefix@ + text::signed_decimal(id as int) + suffix@,
{
    let mut m = text::owned(prefix);
    text::push_signed_decimal(&mut m, id);
    push_str(&mut m, suffix);
    m
}

impl Work {
    /// Reads the selectors of a work's page out of `document`.
    pub fn read_page(document: &str) -> (r: Result<WorkPage, String>)
        ensures
            r matches Ok(p) ==> work_page_selected(p, document@),
            r is Err <==> !work_selectors_accepted(),
    {
        let titles = html::select_texts_or(document, "h2.title.heading", "Error parsing title")?;
        let author_links = html::select_texts_or(document, "h3.byline.heading>a", "Error parsing author")?;
        let bylines = html::select_texts_or(document, "h3.byline.heading", "Error parsing author")?;
        let downloads = html::select_or(document, "li.download>ul>li>a", "Error parsing download links")?;
        let fandoms = html::select_texts_or(document, "dd.fandom.tags>ul>li>a", "Error parsing fandom tags")?;
        let relationships = html::select_texts_or(document, "dd.relationship.tags>ul>li>a", "Error parsing relationship tags")?;
        let characters = html::select_texts_or(document, "dd.character.tags>ul>li>a", "Error parsing character tags")?;
        let additional_tags = html::select_texts_or(document, "dd.freeform.tags>ul>li>a", "Error parsing additional tags")?;
        let positions = html::select_texts_or(document, "dd.series>span.series>span.position", "Error parsing part in series")?;
        let position_links = html::select_or(document, "dd.series>span.series>span.position>:nth-child(1)", "Error parsing part in series")?;
        let p = WorkPage {
            titles, author_links, bylines, downloads, fandoms, relationships, characters, additional_tags, positions,
            position_links,
        };
        Ok(p)
    }

    /// The work whose page is `document`, with id `id`, filed under
    /// `fandom_override` where given, else under what `config` gives.
    pub fn parse_work_document(id: i64, document: &str, config: &Config, fandom_override: Option<String>) -> (r: Result<Work, String>)
        ensures
            forall|p: WorkPage| #[trigger] work_page_selected(p, document@) ==> {
                &&& views(p.titles@).len() == 0 ==> (r matches Err(m) && m@ == missing_title_message(id))
                &&& views(p.titles@).len() > 0 && !work_page_complete(p) ==> (r matches Err(m) && m@ == unreadable_work_message(id))
                &&& views(p.titles@).len() > 0 && work_page_complete(p) && chosen_fandom(p, *config, crate::pattern::opt_view(fandom_override)) is None
                    ==> (r matches Err(m) && m@ == no_fandom_message(id))
                &&& views(p.titles@).len() > 0 && work_page_complete(p) && chosen_fandom(p, *config, crate::pattern::opt_view(fandom_override)) is Some
                    ==> (r matches Ok(w) && work_from_page(w, id, p, chosen_fandom(p, *config, crate::pattern::opt_view(fandom_override))->0))
            },
            !work_selectors_accepted() ==> r is Err,
    {
        let page = Work::read_page(document)?;
        if page.titles.len() == 0 {
            let r = Work::from_page(id, &page, String::new());
            return r;
        }
        if !check_work_page(&page) {
            return Err(message_with_id("Could not read work ", id, " from its page"));
        }
        let fandom = match fandom_override {
            Some(f) => f,
            None => match common::try_filter_fandoms(&page.fandoms, config) {
                Some(f) => f,
                None => {
                    let mut m = text::owned("No fandom left after filtering for work ");
                    text::push_signed_decimal(&mut m, id);
                    return Err(m);
                },
            },
        };
        Work::from_page(id, &page, fandom)
    }
}

// ---------------------------------------------------------------------------
// A work's blurb on a series page
/// What the selectors found below one work blurb (`li.work.blurb`).
#[derive(Clone, Debug)]
pub struct WorkBlurb {
    /// `h4.heading>a`: the title link, then the author links
    pub headings: Vec<HtmlElement>,
    /// `h5.fandoms.heading>a.tag`
    pub fandoms: Vec<String>,
    /// `li.relationships>a.tag`
    pub relationships: Vec<String>,
    /// `li.characters>a.tag`
    pub characters: Vec<String>,
    /// `li.freeforms>a.tag`
    pub additional_tags: Vec<String>,
    /// `ul.series>li`
    pub series_items: Vec<String>,
    /// the first child element of each series item: the part number
    pub series_parts: Vec<String>,
    /// the second child element of each series item: the series link
    pub series_links: Vec<HtmlElement>,
}

/// The id a blurb's title link gives, or the message for why it gives none.
pub open spec fn blurb_id(headings: Seq<ElementView>) -> Result<int, Seq<char>> {
    if headings.len() == 0 {
        Err("Could not find title for work"@)
    } else {
        match headings[0].2 {
            None => Err("Could not find id for work in blurb"@),
            Some(h) => match third_piece(h) {
                None => Err("Could not find id for work in blurb"@),
                Some(p) => match parse_int(p, i64::MIN as int, i64::MAX as int, true) {
                    Ok(v) => Ok(v),
                    Err(_) => Err("Could not parse work id into i64"@),
                },
            },
        }
    }
}

pub fn blurb_work_id(headings: &Vec<HtmlElement>) -> (r: Result<i64, String>)
    ensures
        r matches Ok(v) ==> blurb_id(elements_view(headings@)) == Ok::<int, Seq<char>>(v as int),
        r matches Err(m) ==> blurb_id(elements_view(headings@)) == Err::<int, Seq<char>>(m@),
{
    if headings.len() == 0 {
        return Err(text::owned("Could not find title for work"));
    }
    assert(elements_view(headings@)[0] == html::element_view(headings@[0]));
    match &headings[0].href {
        None => Err(text::owned("Could not find id for work in blurb")),
        Some(h) => match third_piece_of(h.as_str()) {
            None => Err(text::owned("Could not find id for work in blurb")),
            Some(p) => match text::parse_i64(p.as_str()) {
                Ok(v) => Ok(v),
                Err(_) => Err(text::owned("Could not parse work id into i64")),
            },
        },
    }
}

/// The blurb holds all that the work's series links are read from.
pub open spec fn blurb_complete(b: WorkBlurb) -> bool {
    let parts = views(b.series_parts@);
    let links = elements_view(b.series_links@);
    &&& parts.len() == views(b.series_items@).len()
    &&& links.len() == views(b.series_items@).len()
    &&& forall|i: int| 0 <= i < parts.len() ==> parse_int(#[trigger] parts[i], 0, 255, false) is Ok && linked_id(links[i].2) is Some
}

pub fn check_blurb(b: &WorkBlurb) -> (ok: bool)
    ensures
        ok == blurb_complete(*b),
{
    if b.series_parts.len() != b.series_items.len() || b.series_links.len() != b.series_items.len() {
        return false;
    }
    let mut i: usize = 0;
    while i < b.series_parts.len()
        invariant
            0 <= i <= b.series_parts.len(),
            b.series_parts.len() == b.series_links.len(),
            forall|k: int| 0 <= k < i ==> parse_int(#[trigger] views(b.series_parts@)[k], 0, 255, false) is Ok
                && linked_id(elements_view(b.series_links@)[k].2) is Some,
        decreases b.series_parts.len() - i,
    {
        assert(views(b.series_parts@)[i as int] == b.series_parts@[i as int]@);
        assert(elements_view(b.series_links@)[i as int] == html::element_view(b.series_links@[i as int]));
        if text::parse_u8(b.series_parts[i].as_str()).is_err() || linked_id_of(&b.series_links[i].href).is_none() {
            return false;
        }
        i = i + 1;
    }
    true
}

/// The download link AO3 serves a work in `format` from.
pub open spec fn blurb_download_link(id: int, format: DownloadFormat) -> Seq<char> {
    "https://download.archiveofourown.org/downloads/"@ + text::signed_decimal(id) + "/work."@ + format_extension(format)
}

/// The series links of the first `n` series items of a blurb, all under the series' name.
pub open spec fn blurb_series_map(parts: Seq<Seq<char>>, links: Seq<ElementView>, name: Seq<char>, n: nat) -> Map<i64, LinkView>
    decreases n,
{
    if n == 0 {
        Map::empty()
    } else {
        let id = linked_id(links[n - 1].2)->0;
        blurb_series_map(parts, links, name, (n - 1) as nat).insert(
            id as i64,
            (id, sanitised(name), parse_int(parts[n - 1], 0, 255, false)->Ok_0),
        )
    }
}

/// `w` is the work that blurb `b` describes, with id `id`, in the series
/// called `name`, filed under `fandom`.
pub open spec fn work_from_blurb(w: Work, id: i64, b: WorkBlurb, name: Seq<char>, fandom: Seq<char>) -> bool {
    let heads = texts(elements_view(b.headings@));
    &&& w.id == id
    &&& w.title@ == sanitised(heads[0])
    &&& views(w.authors@) == if heads.len() > 1 {
        heads.drop_first()
    } else {
        seq!["Anonymous"@]
    }
    &&& w.download_links@ == Map::new(|f: DownloadFormat| true, |f: DownloadFormat| blurb_download_link(id as int, f))
    &&& views(w.fandoms@) == views(b.fandoms@)
    &&& w.filtered_fandom@ == fandom
    &&& views(w.relationships@) == views(b.relationships@)
    &&& views(w.characters@) == views(b.characters@)
    &&& views(w.additional_tags@) == views(b.additional_tags@)
    &&& links_view(w.series@) == blurb_series_map(views(b.series_parts@), elements_view(b.series_links@), name, views(b.series_items@).len())
}

/// The download links of every format for work `id`.
fn blurb_downloads(id: i64) -> (l: DownloadLinks)
    ensures
        l@ == Map::new(|f: DownloadFormat| true, |f: DownloadFormat| blurb_download_link(id as int, f)),
{
    let formats = DownloadFormat::all();
    let mut l = DownloadLinks::new();
    let mut i: usize = 0;
    while i < formats.len()
        invariant
            0 <= i <= formats.len(),
            formats@ == all_formats(),
            forall|f: DownloadFormat| #[trigger] l@.contains_key(f) ==> l@[f] == blurb_download_link(id as int, f),
            forall|k: int| 0 <= k < i ==> l@.contains_key(#[trigger] formats@[k]),
            forall|f: DownloadFormat| #[trigger] l@.contains_key(f) ==> exists|k: int| 0 <= k < i && formats@[k] == f,
        decreases formats.len() - i,
    {
        let f = formats[i];
        let mut link = text::owned("https://download.archiveofourown.org/downloads/");
        text::push_signed_decimal(&mut link, id);
        push_str(&mut link, "/work.");
        let ext = f.extension();
        push_str(&mut link, ext.as_str());
        l.insert(f, link);
        i = i + 1;
    }
    assert forall|f: DownloadFormat| l@.contains_key(f) by {
        match f {
            DownloadFormat::Azw3 => assert(formats@[0] == f),
            DownloadFormat::Epub => assert(formats@[1] == f),
            DownloadFormat::Mobi => assert(formats@[2] == f),
            DownloadFormat::Pdf => assert(formats@[3] == f),
            DownloadFormat::Html => assert(formats@[4] == f),
        }
    }
    assert(l@ =~= Map::new(|f: DownloadFormat| true, |f: DownloadFormat| blurb_download_link(id as int, f)));
    l
}

impl Work {
    /// The work that blurb `blurb` describes, with id `id`, in the series
    /// called `series_name`, filed under `filtered_fandom`.
    pub fn from_blurb(id: i64, blurb: &WorkBlurb, series_name: &str, filtered_fandom: String) -> (w: Work)
        requires
            blurb.headings.len() > 0,
            blurb_complete(*blurb),
        ensures
            work_from_blurb(w, id, *blurb, series_name@, filtered_fandom@),
    {
        let heads = html::element_texts(&blurb.headings);
        let title = common::sanitise_string(blurb.headings[0].text.as_str());
        assert(views(heads@)[0] == blurb.headings@[0].text@);
        assert(views(heads@).len() == heads@.len());
        assert(heads.len() >= 1);
        let mut authors: Vec<String> = Vec::new();
        assert(views(authors@) =~= views(heads@).subrange(1, 1));
        let mut i: usize = 1;
        while i < heads.len()
            invariant
                1 <= i <= heads.len(),
                views(authors@) == views(heads@).subrange(1, i as int),
            decreases heads.len() - i,
        {
            let ghost before = views(authors@);
            let h = heads[i].clone();
            authors.push(h);
            assert(views(authors@) =~= before.push(h@));
            assert(views(heads@)[i as int] == heads@[i as int]@);
            assert(views(authors@) =~= views(heads@).subrange(1, i + 1));
            i = i + 1;
        }
        if authors.len() == 0 {
            authors = vec![text::owned("Anonymous")];
            assert(views(authors@) =~= seq!["Anonymous"@]);
        } else {
            assert(views(authors@) =~= views(heads@).drop_first());
        }
        let series_title = common::sanitise_string(series_name);
        let mut series: HashMap<i64, SeriesLink> = HashMap::new();
        let mut k: usize = 0;
        assert(links_view(series@) =~= Map::<i64, LinkView>::empty());
        while k < blurb.series_items.len()
            invariant
                0 <= k <= blurb.series_items.len(),
                blurb_complete(*blurb),
                series_title@ == sanitised(series_name@),
                links_view(series@) == blurb_series_map(views(blurb.series_parts@), elements_view(blurb.series_links@), series_name@, k as nat),
            decreases blurb.series_items.len() - k,
        {
            assert(views(blurb.series_parts@)[k as int] == blurb.series_parts@[k as int]@);
            assert(elements_view(blurb.series_links@)[k as int] == html::element_view(blurb.series_links@[k as int]));
            assert(parse_int(views(blurb.series_parts@)[k as int], 0, 255, false) is Ok);
            let part = match text::parse_u8(blurb.series_parts[k].as_str()) {
                Ok(v) => v,
                Err(_) => 0,
            };
            let series_id = match linked_id_of(&blurb.series_links[k].href) {
                Some(v) => v,
                None => 0,
            };
            let ghost before = series@;
            series.insert(series_id, SeriesLink { series_id, series_title: series_title.clone(), part_in_series: part });
            assert(links_view(series@) =~= links_view(before).insert(series_id, (series_id as int, series_title@, part as int)));
            k = k + 1;
        }
        let fandoms = blurb.fandoms.clone();
        let relationships = blurb.relationships.clone();
        let characters = blurb.characters.clone();
        let additional_tags = blurb.additional_tags.clone();
        assert(views(fandoms@) =~= views(blurb.fandoms@));
        assert(views(relationships@) =~= views(blurb.relationships@));
        assert(views(characters@) =~= views(blurb.characters@));
        assert(views(additional_tags@) =~= views(blurb.additional_tags@));
        Work {
            id,
            title,
            authors,
            download_links: blurb_downloads(id),
            fandoms,
            filtered_fandom,
            relationships,
            characters,
            additional_tags,
            series,
        }
    }
}

/// Whether the scraper accepts every selector read on a blurb, and the
/// page has an `index`-th blurb.
/// The fandom tags of the `index`-th blurb of `doc`.
pub open spec fn blurb_fandom_texts(doc: Seq<char>, index: nat) -> Seq<Seq<char>> {
    texts(html::selected_within(doc, "li.work.blurb"@, index, "h5.fandoms.heading>a.tag"@))
}

pub open spec fn blurb_readable(doc: Seq<char>, index: nat) -> bool {
    &&& html::selector_accepted("li.work.blurb"@)
    &&& html::selector_accepted("h4.heading>a"@)
    &&& html::selector_accepted("h5.fandoms.heading>a.tag"@)
    &&& html::selector_accepted("li.relationships>a.tag"@)
    &&& html::selector_accepted("li.characters>a.tag"@)
    &&& html::selector_accepted("li.freeforms>a.tag"@)
    &&& html::selector_accepted("ul.series>li"@)
    &&& html::selector_accepted(":scope ul.series>li>:nth-child(1)"@)
    &&& html::selector_accepted(":scope ul.series>li>:nth-child(2)"@)
    &&& index < html::selected(doc, "li.work.blurb"@).len()
}

/// `b` holds what the blurb selectors select below the `index`-th blurb of `doc`.
pub open spec fn blurb_selected(b: WorkBlurb, doc: Seq<char>, index: nat) -> bool {
    let o = "li.work.blurb"@;
    &&& blurb_readable(doc, index)
    &&& elements_view(b.headings@) == html::selected_within(doc, o, index, "h4.heading>a"@)
    &&& views(b.fandoms@) == texts(html::selected_within(doc, o, index, "h5.fandoms.heading>a.tag"@))
    &&& views(b.relationships@) == texts(html::selected_within(doc, o, index, "li.relationships>a.tag"@))
    &&& views(b.characters@) == texts(html::selected_within(doc, o, index, "li.characters>a.tag"@))
    &&& views(b.additional_tags@) == texts(html::selected_within(doc, o, index, "li.freeforms>a.tag"@))
    &&& views(b.series_items@) == texts(html::selected_within(doc, o, index, "ul.series>li"@))
    &&& views(b.series_parts@) == texts(html::selected_within(doc, o, index, ":scope ul.series>li>:nth-child(1)"@))
    &&& elements_view(b.series_links@) == html::selected_within(doc, o, index, ":scope ul.series>li>:nth-child(2)"@)
}

/// The message for a blurb that lacks what its series links are read from.
pub open spec fn unreadable_blurb_message(id: i64) -> Seq<char> {
    "Could not read the series of work "@ + text::signed_decimal(id as int) + " from its blurb"@
}

/// What reading the `index`-th blurb of `doc` gives for a blurb `b` so selected,
/// in the series called `name`.
pub open spec fn blurb_outcome(w: Result<Work, String>, b: WorkBlurb, name: Seq<char>, config: Config) -> bool {
    let heads = elements_view(b.headings@);
    let left = filtered_fandoms(views(b.fandoms@), config.fandom_map@, config.filters());
    match blurb_id(heads) {
        Err(m) => w matches Err(e) && e@ == m,
        Ok(id) => if !blurb_complete(b) {
            w matches Err(e) && e@ == unreadable_blurb_message(id as i64)
        } else if left.len() == 0 {
            w matches Err(e) && e@ == no_fandom_message(id as i64)
        } else {
            w matches Ok(x) && work_from_blurb(x, id as i64, b, name, fandom_label(left))
        },
    }
}

/// Blurb `b` reads as a work under `config`: it names an id, shows its series
/// links completely, and some fandom of it is left after filtering.
pub open spec fn blurb_reads_ok(b: WorkBlurb, config: Config) -> bool {
    &&& blurb_id(elements_view(b.headings@)) is Ok
    &&& blurb_complete(b)
    &&& filtered_fandoms(views(b.fandoms@), config.fandom_map@, config.filters()).len() > 0
}

impl Work {
    /// Reads the selectors below the `index`-th blurb of `document`.
    pub fn read_blurb(document: &str, index: usize) -> (r: Result<WorkBlurb, String>)
        ensures
            r is Ok <==> blurb_readable(document@, index as nat),
            r matches Ok(b) ==> blurb_selected(b, document@, index as nat),
    {
        let o = "li.work.blurb";
        let headings = html::select_within_or(document, o, index, "h4.heading>a", "Error parsing heading")?;
        let fandoms = html::select_texts_within_or(document, o, index, "h5.fandoms.heading>a.tag", "Error parsing fandom tags")?;
        let relationships = html::select_texts_within_or(document, o, index, "li.relationships>a.tag", "Error parsing relationship tags")?;
        let characters = html::select_texts_within_or(document, o, index, "li.characters>a.tag", "Error parsing character tags")?;
        let additional_tags = html::select_texts_within_or(document, o, index, "li.freeforms>a.tag", "Error parsing additional tags")?;
        let series_items = html::select_texts_within_or(document, o, index, "ul.series>li", "Error parsing series")?;
        let series_parts = html::select_texts_within_or(document, o, index, ":scope ul.series>li>:nth-child(1)", "Error parsing series")?;
        let series_links = html::select_within_or(document, o, index, ":scope ul.series>li>:nth-child(2)", "Error parsing series")?;
        Ok(WorkBlurb { headings, fandoms, relationships, characters, additional_tags, series_items, series_parts, series_links })
    }

    /// The work the `index`-th blurb of a series page describes, in the
    /// series called `series_name`.
    pub fn parse_work_from_blurb(document: &str, index: usize, series_name: &str, config: &Config) -> (r: Result<Work, String>)
        ensures
            !blurb_readable(document@, index as nat) ==> r is Err,
            r matches Ok(w) ==> views(w.fandoms@) == blurb_fandom_texts(document@, index as nat),
            forall|b: WorkBlurb| #[trigger] blurb_selected(b, document@, index as nat) ==> blurb_outcome(r, b, series_name@, *config),
            blurb_readable(document@, index as nat) && (forall|b: WorkBlurb| #[trigger] blurb_selected(b, document@, index as nat) ==> blurb_reads_ok(b, *config)) ==> r is Ok,
    {
        let blurb = Work::read_blurb(document, index)?;
        let id = blurb_work_id(&blurb.headings)?;
        if !check_blurb(&blurb) {
            return Err(message_with_id("Could not read the series of work ", id, " from its blurb"));
        }
        match common::try_filter_fandoms(&blurb.fandoms, config) {
            Some(fandom) => Ok(Work::from_blurb(id, &blurb, series_name, fandom)),
            None => {
                let mut m = text::owned("No fandom left after filtering for work ");
                text::push_signed_decimal(&mut m, id);
                Err(m)
            },
        }
    }
}

} // verus!
