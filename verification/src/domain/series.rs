//! Series: an AO3 series with its works, read from the series' pages.

use vstd::prelude::*;

use crate::common::{self, sanitised, fandom_label, filtered_fandoms};
use crate::config::Config;
use crate::domain::work::{
    Work, WorkBlurb, series_name, blurb_selected, blurb_fandom_texts, blurb_outcome, blurb_readable, no_fandom_message,
};
use crate::html::{self, texts, elements_view};
use crate::strset::{self, views, distinct};
use crate::text::{self, parse_int, drop_separators, trim, occurs_at, first_occurrence};

verus! {

#[derive(Debug)]
pub struct Series {
    pub id: i64,
    pub title: String,
    pub creators: Vec<String>,
    pub begun: String,
    pub updated: String,
    pub description: String,
    pub num_words: u32,
    pub num_works: u32,
    pub is_completed: bool,
    pub num_bookmarks: u32,
    pub works: Vec<Work>,
    /// The fandoms of the works, each once, in the order first met.
    pub fandoms: Vec<String>,
    pub filtered_fandom: String,
}

// ---------------------------------------------------------------------------
// Local series folders
/// Where `" - "` first splits `s` (`str::split_once`).
pub open spec fn split_at_dash(s: Seq<char>) -> Option<(Seq<char>, Seq<char>)> {
    match first_occurrence(s, " - "@, 0) {
        Some(i) => Some((s.subrange(0, i), s.subrange(i + 3, s.len() as int))),
        None => None,
    }
}

/// A saved file name stem such as `"2 - Title"` names its part and its work.
pub open spec fn stem_readable(stem: Seq<char>) -> bool {
    split_at_dash(stem) matches Some(p) && parse_int(p.0, 0, 255, false) is Ok
}

pub fn split_dash(s: &str) -> (r: Option<(String, String)>)
    ensures
        r matches Some(p) ==> split_at_dash(s@) == Some((p.0@, p.1@)),
        r is None ==> split_at_dash(s@) is None,
{
    let v = text::chars_of(s);
    let d = text::chars_of(" - ");
    match text::find_from(&v, &d, 0) {
        None => None,
        Some(i) => {
            proof {
                reveal_strlit(" - ");
            }
            assert(d@.len() == 3);
            assert(occurs_at(v@, d@, i as int));
            assert(i + 3 <= v.len());
            let a = text::string_from_range(&v, 0, i);
            let b = text::string_from_range(&v, i + 3, v.len());
            Some((a, b))
        },
    }
}

/// What every stand-in work holds besides its title, fandom and series link
/// (as `Work::test_work` makes it): id 1, one empty author, no download
/// links and no tags.
pub open spec fn stand_in_work(w: Work) -> bool {
    &&& w.id == 1
    &&& views(w.authors@) == seq![Seq::<char>::empty()]
    &&& w.download_links@ == Map::<common::DownloadFormat, Seq<char>>::empty()
    &&& w.fandoms@.len() == 0
    &&& w.relationships@.len() == 0
    &&& w.characters@.len() == 0
    &&& w.additional_tags@.len() == 0
}

impl Series {
    /// A stand-in series for tests, from the stems of the files saved in its
    /// folder (`"<part> - <title>"` each).
    pub fn test_series(title: &str, fandom: String, stems: &Vec<String>) -> (s: Series)
        requires
            stems.len() <= u32::MAX,
            forall|i: int| 0 <= i < stems.len() ==> stem_readable(#[trigger] stems@[i]@),
        ensures
            s.id == 1,
            s.title@ == sanitised(title@),
            views(s.creators@) == seq!["bob"@],
            s.begun@ == "at some point"@,
            s.updated@ == "sure"@,
            s.description@ == "yes"@,
            s.num_words == 1,
            s.num_works == stems.len(),
            s.is_completed,
            s.num_bookmarks == 0,
            s.works.len() == stems.len(),
            forall|i: int| 0 <= i < stems.len() ==> {
                let p = split_at_dash(#[trigger] stems@[i]@)->0;
                &&& stand_in_work(s.works@[i])
                &&& s.works@[i].title@ == p.1
                &&& s.works@[i].filtered_fandom@ == fandom@
                &&& crate::domain::work::links_view(s.works@[i].series@) == Map::<i64, crate::domain::work::LinkView>::empty().insert(
                    1,
                    (1, title@, parse_int(p.0, 0, 255, false)->Ok_0),
                )
            },
            views(s.fandoms@) == seq!["yes"@],
            s.filtered_fandom == fandom,
    {
        let mut works: Vec<Work> = Vec::new();
        let mut num_works: u32 = 0;
        let mut i: usize = 0;
        while i < stems.len()
            invariant
                0 <= i <= stems.len() <= u32::MAX,
                num_works == i,
                works.len() == i,
                forall|k: int| 0 <= k < stems.len() ==> stem_readable(#[trigger] stems@[k]@),
                forall|k: int| 0 <= k < i ==> {
                    let p = split_at_dash(#[trigger] stems@[k]@)->0;
                    &&& stand_in_work(works@[k])
                    &&& works@[k].title@ == p.1
                    &&& works@[k].filtered_fandom@ == fandom@
                    &&& crate::domain::work::links_view(works@[k].series@) == Map::<i64, crate::domain::work::LinkView>::empty().insert(
                        1,
                        (1, title@, parse_int(p.0, 0, 255, false)->Ok_0),
                    )
                },
            decreases stems.len() - i,
        {
            assert(stem_readable(stems@[i as int]@));
            let (num, work_title) = match split_dash(stems[i].as_str()) {
                Some(p) => p,
                None => (String::new(), String::new()),
            };
            let part = match text::parse_u8(num.as_str()) {
                Ok(v) => v,
                Err(_) => 0,
            };
            let w = Work::test_work(work_title, fandom.clone(), Some(text::owned(title)), Some(part));
            works.push(w);
            num_works = num_works + 1;
            i = i + 1;
        }
        let fandoms = vec![text::owned("yes")];
        assert(views(fandoms@) =~= seq!["yes"@]);
        let creators = vec![text::owned("bob")];
        assert(views(creators@) =~= seq!["bob"@]);
        Series {
            id: 1,
            title: common::sanitise_string(title),
            creators,
            begun: text::owned("at some point"),
            updated: text::owned("sure"),
            description: text::owned("yes"),
            num_words: 1,
            num_works,
            is_completed: true,
            num_bookmarks: 0,
            works,
            fandoms,
            filtered_fandom: fandom,
        }
    }
}

// ---------------------------------------------------------------------------
// The first page of a series
/// What the selectors on the first page of a series found.
#[derive(Clone, Debug)]
pub struct SeriesPage {
    /// `h2.heading`
    pub titles: Vec<String>,
    /// `dl.series.meta.group>dd>a`
    pub creator_links: Vec<String>,
    /// `dl.series.meta.group>dd`: the creators, the date begun, the date updated, ...
    pub meta: Vec<String>,
    /// `blockquote.userstuff>p`
    pub descriptions: Vec<String>,
    /// `dd.words`
    pub words: Vec<String>,
    /// `dd.works`
    pub works: Vec<String>,
    /// `dl.stats>dd`
    pub stats: Vec<String>,
    /// `dd.bookmarks>a`
    pub bookmarks: Vec<String>,
}

/// A count as AO3 writes it (`"1,234"`), read as a `u32`.
pub open spec fn count_value(s: Seq<char>) -> Result<int, text::IntErrorKind> {
    parse_int(drop_separators(s), 0, u32::MAX as int, false)
}

/// The first page holds all that the series' fields are read from.
pub open spec fn series_page_complete(p: SeriesPage) -> bool {
    let meta = views(p.meta@);
    &&& views(p.titles@).len() > 0
    &&& views(p.creator_links@).len() == 0 ==> meta.len() > 0
    &&& meta.len() >= 3
    &&& views(p.descriptions@).len() > 0
    &&& views(p.words@).len() > 0 && count_value(views(p.words@)[0]) is Ok
    &&& views(p.works@).len() > 0 && count_value(views(p.works@)[0]) is Ok
    &&& views(p.stats@).len() >= 3
    &&& views(p.bookmarks@).len() > 0 && count_value(trim(views(p.bookmarks@)[0])) is Ok
}

pub fn check_series_page(p: &SeriesPage) -> (ok: bool)
    ensures
        ok == series_page_complete(*p),
{
    if p.titles.len() == 0 || p.meta.len() < 3 || p.descriptions.len() == 0 || p.words.len() == 0
        || p.works.len() == 0 || p.stats.len() < 3 || p.bookmarks.len() == 0 {
        return false;
    }
    assert(views(p.words@)[0] == p.words@[0]@);
    assert(views(p.works@)[0] == p.works@[0]@);
    assert(views(p.bookmarks@)[0] == p.bookmarks@[0]@);
    let w = text::remove_separators(p.words[0].as_str());
    let n = text::remove_separators(p.works[0].as_str());
    let b = text::trimmed(p.bookmarks[0].as_str());
    let b = text::remove_separators(b.as_str());
    text::parse_u32(w.as_str()).is_ok() && text::parse_u32(n.as_str()).is_ok() && text::parse_u32(b.as_str()).is_ok()
}

fn read_count(s: &str) -> (n: u32)
    requires
        count_value(s@) is Ok,
    ensures
        n as int == count_value(s@)->Ok_0,
{
    let t = text::remove_separators(s);
    match text::parse_u32(t.as_str()) {
        Ok(v) => v,
        Err(_) => 0,
    }
}

/// The works of several series pages, in page order, then blurb order.
pub open spec fn blurb_places(counts: Seq<nat>) -> Seq<(int, int)>
    decreases counts.len(),
{
    if counts.len() == 0 {
        Seq::empty()
    } else {
        blurb_places(counts.drop_last()) + Seq::new(counts.last(), |b: int| ((counts.len() - 1) as int, b))
    }
}

/// How many work blurbs all of the pages `docs` hold together.
pub open spec fn total_blurbs(docs: Seq<Seq<char>>) -> nat
    decreases docs.len(),
{
    if docs.len() == 0 {
        0
    } else {
        total_blurbs(docs.drop_last()) + html::selected(docs.last(), "li.work.blurb"@).len()
    }
}

/// How many blurbs each document holds.
pub open spec fn blurb_counts(docs: Seq<Seq<char>>) -> Seq<nat> {
    docs.map_values(|d: Seq<char>| html::selected(d, "li.work.blurb"@).len())
}

/// `fs` appended to `acc`, without the ones already met.
pub open spec fn add_unseen(acc: Seq<Seq<char>>, fs: Seq<Seq<char>>) -> Seq<Seq<char>>
    decreases fs.len(),
{
    if fs.len() == 0 {
        acc
    } else {
        let a = add_unseen(acc, fs.drop_last());
        if a.contains(fs.last()) {
            a
        } else {
            a.push(fs.last())
        }
    }
}

/// The fandoms of `works`, each once, in the order first met.
pub open spec fn gathered_fandoms(works: Seq<Work>) -> Seq<Seq<char>>
    decreases works.len(),
{
    if works.len() == 0 {
        Seq::empty()
    } else {
        add_unseen(gathered_fandoms(works.drop_last()), views(works.last().fandoms@))
    }
}

/// `s` holds the header fields that first page `p` of series `id` shows.
pub open spec fn series_header(s: Series, id: i64, p: SeriesPage) -> bool {
    let meta = views(p.meta@);
    &&& s.id == id
    &&& s.title@ == sanitised(series_name(views(p.titles@)[0]))
    &&& views(s.creators@) == if views(p.creator_links@).len() > 0 {
        views(p.creator_links@)
    } else {
        seq![meta[0]]
    }
    &&& s.begun@ == meta[1]
    &&& s.updated@ == meta[2]
    &&& s.description@ == views(p.descriptions@)[0]
    &&& s.num_words as int == count_value(views(p.words@)[0])->Ok_0
    &&& s.num_works as int == count_value(views(p.works@)[0])->Ok_0
    &&& s.is_completed == (views(p.stats@)[2] == "Yes"@)
    &&& s.num_bookmarks as int == count_value(trim(views(p.bookmarks@)[0]))->Ok_0
}

/// Whether the scraper accepts every selector read on a series' first page.
pub open spec fn series_selectors_accepted() -> bool {
    &&& html::selector_accepted("h2.heading"@)
    &&& html::selector_accepted("dl.series.meta.group>dd>a"@)
    &&& html::selector_accepted("dl.series.meta.group>dd"@)
    &&& html::selector_accepted("blockquote.userstuff>p"@)
    &&& html::selector_accepted("dd.words"@)
    &&& html::selector_accepted("dd.works"@)
    &&& html::selector_accepted("dl.stats>dd"@)
    &&& html::selector_accepted("dd.bookmarks>a"@)
    &&& html::selector_accepted("li.work.blurb"@)
}

/// `p` holds what the series selectors select in `doc`.
pub open spec fn series_page_selected(p: SeriesPage, doc: Seq<char>) -> bool {
    &&& series_selectors_accepted()
    &&& views(p.titles@) == texts(html::selected(doc, "h2.heading"@))
    &&& views(p.creator_links@) == texts(html::selected(doc, "dl.series.meta.group>dd>a"@))
    &&& views(p.meta@) == texts(html::selected(doc, "dl.series.meta.group>dd"@))
    &&& views(p.descriptions@) == texts(html::selected(doc, "blockquote.userstuff>p"@))
    &&& views(p.words@) == texts(html::selected(doc, "dd.words"@))
    &&& views(p.works@) == texts(html::selected(doc, "dd.works"@))
    &&& views(p.stats@) == texts(html::selected(doc, "dl.stats>dd"@))
    &&& views(p.bookmarks@) == texts(html::selected(doc, "dd.bookmarks>a"@))
}

/// The message for a first page that lacks what the series' fields are read from.
pub open spec fn unreadable_series_message(id: i64) -> Seq<char> {
    "Could not read series "@ + text::signed_decimal(id as int) + " from its page"@
}

/// The series pages as the server reads them: each page parsed and serialized again.
pub open spec fn series_documents(pages: Seq<String>) -> Seq<Seq<char>> {
    pages.map_values(|p: String| html::serialized(p@))
}

impl Series {
    /// Reads the selectors of a series' first page out of `document`.
    pub fn read_page(document: &str) -> (r: Result<SeriesPage, String>)
        ensures
            r is Ok <==> series_selectors_accepted(),
            r matches Ok(p) ==> series_page_selected(p, document@),
    {
        if html::select_all(document, "li.work.blurb").is_none() {
            return Err(text::owned("Failed to parse work blurbs"));
        }
        let titles = html::select_texts_or(document, "h2.heading", "Failed to parse title")?;
        let creator_links = html::select_texts_or(document, "dl.series.meta.group>dd>a", "Failed to parse creator")?;
        let meta = html::select_texts_or(document, "dl.series.meta.group>dd", "Failed to parse series dates")?;
        let descriptions = html::select_texts_or(document, "blockquote.userstuff>p", "Failed to parse description")?;
        let words = html::select_texts_or(document, "dd.words", "Failed to parse number of words")?;
        let works = html::select_texts_or(document, "dd.works", "Failed to parse number of works")?;
        let stats = html::select_texts_or(document, "dl.stats>dd", "Failed to parse if series is completed")?;
        let bookmarks = html::select_texts_or(document, "dd.bookmarks>a", "Failed to parse number of bookmarks")?;
        Ok(SeriesPage { titles, creator_links, meta, descriptions, words, works, stats, bookmarks })
    }
}

/// `w` is the work read from the blurb at `place` of `docs`, in the series called `name`.
pub open spec fn work_at(w: Work, docs: Seq<Seq<char>>, place: (int, int), name: Seq<char>, config: Config) -> bool {
    &&& forall|b: WorkBlurb| #[trigger] blurb_selected(b, docs[place.0], place.1 as nat) ==> blurb_outcome(Ok(w), b, name, config)
    &&& views(w.fandoms@) == blurb_fandom_texts(docs[place.0], place.1 as nat)
}

/// The lists of `ls` gathered into one, each entry once, in the order first met.
pub open spec fn gather_lists(ls: Seq<Seq<Seq<char>>>) -> Seq<Seq<char>>
    decreases ls.len(),
{
    if ls.len() == 0 {
        Seq::empty()
    } else {
        add_unseen(gather_lists(ls.drop_last()), ls.last())
    }
}

/// The fandoms of all blurbs of the series pages `docs`, each once, in the order first met.
pub open spec fn series_blurb_fandoms(docs: Seq<Seq<char>>) -> Seq<Seq<char>> {
    gather_lists(
        blurb_places(blurb_counts(docs)).map_values(|pl: (int, int)| blurb_fandom_texts(docs[pl.0], pl.1 as nat)),
    )
}

/// The fandoms of the series on pages `docs` left after the fandom rules of `config`.
pub open spec fn series_fandoms_left(docs: Seq<Seq<char>>, config: Config) -> Set<Seq<char>> {
    filtered_fandoms(series_blurb_fandoms(docs), config.fandom_map@, config.filters())
}

proof fn lemma_gathered_lists(works: Seq<Work>, ls: Seq<Seq<Seq<char>>>)
    requires
        works.len() == ls.len(),
        forall|k: int| 0 <= k < works.len() ==> views(#[trigger] works[k].fandoms@) == ls[k],
    ensures
        gathered_fandoms(works) == gather_lists(ls),
    decreases works.len(),
{
    if works.len() > 0 {
        assert forall|k: int| 0 <= k < works.drop_last().len() implies views(#[trigger] works.drop_last()[k].fandoms@) == ls.drop_last()[k] by {
            assert(works.drop_last()[k] == works[k]);
        }
        lemma_gathered_lists(works.drop_last(), ls.drop_last());
        assert(views(works[works.len() - 1].fandoms@) == ls[ls.len() - 1]);
    }
}

/// The blurb at `place` of `docs` reads as a work.
pub open spec fn blurb_reads(docs: Seq<Seq<char>>, place: (int, int), config: Config) -> bool {
    &&& blurb_readable(docs[place.0], place.1 as nat)
    &&& forall|b: WorkBlurb| #[trigger] blurb_selected(b, docs[place.0], place.1 as nat) ==> crate::domain::work::blurb_reads_ok(b, config)
}

/// The message for a series none of whose works' fandoms is left after filtering.
pub open spec fn no_series_fandom_message(id: i64) -> Seq<char> {
    "No fandom left after filtering for series "@ + text::signed_decimal(id as int)
}

proof fn lemma_places_step(counts: Seq<nat>, d: int)
    requires
        0 <= d < counts.len(),
    ensures
        blurb_places(counts.take(d + 1)) == blurb_places(counts.take(d)) + Seq::new(counts[d], |b: int| (d, b)),
{
    assert(counts.take(d + 1).drop_last() =~= counts.take(d));
}

proof fn lemma_places_prefix(counts: Seq<nat>, m: int)
    requires
        0 <= m <= counts.len(),
    ensures
        blurb_places(counts.take(m)).len() <= blurb_places(counts).len(),
        forall|k: int| 0 <= k < blurb_places(counts.take(m)).len() ==> #[trigger] blurb_places(counts.take(m))[k] == blurb_places(counts)[k],
    decreases counts.len() - m,
{
    if m == counts.len() {
        assert(counts.take(m) =~= counts);
    } else {
        lemma_places_prefix(counts, m + 1);
        lemma_places_step(counts, m);
        let a = blurb_places(counts.take(m));
        let b = Seq::new(counts[m], |x: int| (m, x));
        assert forall|k: int| 0 <= k < a.len() implies #[trigger] a[k] == blurb_places(counts)[k] by {
            assert((a + b)[k] == a[k]);
            assert(blurb_places(counts.take(m + 1))[k] == a[k]);
        }
    }
}

/// The fandoms of `works`, each once, in the order first met, held without repeats.
fn gather_fandoms(works: &Vec<Work>) -> (r: Vec<String>)
    ensures
        distinct(r@),
        views(r@) == gathered_fandoms(works@),
{
    let mut r: Vec<String> = Vec::new();
    let mut i: usize = 0;
    assert(works@.take(0) =~= Seq::<Work>::empty());
    while i < works.len()
        invariant
            0 <= i <= works.len(),
            distinct(r@),
            views(r@) == gathered_fandoms(works@.take(i as int)),
        decreases works.len() - i,
    {
        let fs = &works[i].fandoms;
        let ghost start = views(r@);
        let mut j: usize = 0;
        assert(views(fs@).take(0) =~= Seq::<Seq<char>>::empty());
        while j < fs.len()
            invariant
                0 <= j <= fs.len(),
                distinct(r@),
                views(r@) == add_unseen(start, views(fs@).take(j as int)),
            decreases fs.len() - j,
        {
            assert(views(fs@).take(j + 1).drop_last() =~= views(fs@).take(j as int));
            assert(views(fs@)[j as int] == fs@[j as int]@);
            strset::insert(&mut r, &fs[j]);
            j = j + 1;
        }
        assert(views(fs@).take(j as int) =~= views(fs@));
        assert(works@.take(i + 1).drop_last() =~= works@.take(i as int));
        i = i + 1;
    }
    assert(works@.take(i as int) =~= works@);
    r
}

impl Series {
    /// The series `id` whose pages, as fetched, are `pages`.
    pub fn parse_series_pages(id: i64, pages: &Vec<String>, config: &Config) -> (r: Result<Series, String>)
        requires
            pages.len() >= 1,
        ensures
            !series_selectors_accepted() ==> r is Err,
            r matches Ok(s) ==> s.works.len() == total_blurbs(series_documents(pages@)),
            forall|p: SeriesPage| #[trigger] series_page_selected(p, series_documents(pages@)[0]) ==> {
                let docs = series_documents(pages@);
                let places = blurb_places(blurb_counts(docs));
                let name = series_name(views(p.titles@)[0]);
                &&& !series_page_complete(p) ==> (r matches Err(m) && m@ == unreadable_series_message(id))
                &&& r matches Ok(s) ==> {
                    &&& series_header(s, id, p)
                    &&& s.works.len() == places.len()
                    &&& forall|k: int| 0 <= k < places.len() ==> work_at(#[trigger] s.works@[k], docs, places[k], name, *config)
                    &&& views(s.fandoms@) == gathered_fandoms(s.works@)
                    &&& filtered_fandoms(views(s.fandoms@), config.fandom_map@, config.filters()).len() > 0
                    &&& s.filtered_fandom@ == fandom_label(filtered_fandoms(views(s.fandoms@), config.fandom_map@, config.filters()))
                }
                &&& series_page_complete(p) && (forall|k: int| 0 <= k < places.len() ==> #[trigger] blurb_reads(docs, places[k], *config))
                    ==> if series_fandoms_left(docs, *config).len() > 0 {
                        r is Ok
                    } else {
                        r matches Err(m) && m@ == no_series_fandom_message(id)
                    }
            },
    {
        let ghost docs_view = series_documents(pages@);
        let mut docs: Vec<String> = Vec::new();
        let mut i: usize = 0;
        while i < pages.len()
            invariant
                0 <= i <= pages.len(),
                docs_view == series_documents(pages@),
                views(docs@) == docs_view.take(i as int),
            decreases pages.len() - i,
        {
            let ghost before = views(docs@);
            let d = html::serialize(pages[i].as_str());
            docs.push(d);
            assert(views(docs@) =~= before.push(d@));
            assert(views(docs@) =~= docs_view.take(i + 1));
            i = i + 1;
        }
        assert(views(docs@) =~= docs_view);
        assert(views(docs@)[0] == docs@[0]@);
        let page = Series::read_page(docs[0].as_str())?;
        if !check_series_page(&page) {
            let mut m = text::owned("Could not read series ");
            text::push_signed_decimal(&mut m, id);
            text::push_str(&mut m, " from its page");
            return Err(m);
        }
        assert(views(page.titles@)[0] == page.titles@[0]@);
        let raw_title = crate::domain::work::strip_series_word(page.titles[0].as_str());
        let ghost name = raw_title@;
        let ghost counts = blurb_counts(docs_view);
        let mut works: Vec<Work> = Vec::new();
        let mut d: usize = 0;
        assert(blurb_places(counts.take(0)) =~= Seq::<(int, int)>::empty());
        while d < docs.len()
            invariant
                0 <= d <= docs.len(),
                views(docs@) == docs_view,
                docs_view == series_documents(pages@),
                series_page_selected(page, docs_view[0]),
                series_page_complete(page),
                name == series_name(views(page.titles@)[0]),
                counts == blurb_counts(docs_view),
                name == raw_title@,
                works.len() == blurb_places(counts.take(d as int)).len(),
                forall|k: int| 0 <= k < works.len() ==> work_at(#[trigger] works@[k], docs_view, blurb_places(counts.take(d as int))[k], name, *config),
            decreases docs.len() - d,
        {
            assert(docs_view[d as int] == docs@[d as int]@);
            let blurbs = match html::select_all(docs[d].as_str(), "li.work.blurb") {
                Some(v) => v,
                None => {
                    return Err(text::owned("Failed to parse work blurbs"));
                },
            };
            let ghost prev = blurb_places(counts.take(d as int));
            proof {
                lemma_places_step(counts, d as int);
                assert(counts[d as int] == blurbs.len());
            }
            let mut b: usize = 0;
            while b < blurbs.len()
                invariant
                    0 <= b <= blurbs.len(),
                    d < docs.len(),
                    views(docs@) == docs_view,
                    docs_view == series_documents(pages@),
                    series_page_selected(page, docs_view[0]),
                    series_page_complete(page),
                    name == series_name(views(page.titles@)[0]),
                    docs_view[d as int] == docs@[d as int]@,
                    counts == blurb_counts(docs_view),
                    counts[d as int] == blurbs.len(),
                    name == raw_title@,
                    prev == blurb_places(counts.take(d as int)),
                    blurb_places(counts.take(d + 1)) == prev + Seq::new(counts[d as int], |x: int| (d as int, x)),
                    works.len() == prev.len() + b,
                    forall|k: int| 0 <= k < works.len() ==> work_at(#[trigger] works@[k], docs_view, blurb_places(counts.take(d + 1))[k], name, *config),
                decreases blurbs.len() - b,
            {
                proof {
                    lemma_places_prefix(counts, d + 1);
                    assert(blurb_places(counts.take(d + 1))[prev.len() + b] == (d as int, b as int));
                }
                let w = match Work::parse_work_from_blurb(docs[d].as_str(), b, raw_title.as_str(), config) {
                    Ok(w) => w,
                    Err(e) => {
                        proof {
                            let k0 = prev.len() + b;
                            assert(blurb_places(counts)[k0] == (d as int, b as int));
                            assert(!blurb_reads(docs_view, (d as int, b as int), *config));
                            assert(counts.take(docs.len() as int) =~= counts);
                            lemma_places_prefix(counts, d + 1);
                            assert(k0 < blurb_places(counts).len());
                            assert forall|p: SeriesPage| #[trigger] series_page_selected(p, docs_view[0]) implies series_page_complete(p) by {
                                assert(views(p.meta@) == views(page.meta@));
                            }
                            assert(docs_view == series_documents(pages@));
                        }
                        return Err(e);
                    },
                };
                let ghost before = works@;
                works.push(w);
                proof {
                    assert(blurb_places(counts.take(d + 1))[prev.len() + b] == (d as int, b as int));
                    assert forall|k: int| 0 <= k < works.len() implies work_at(#[trigger] works@[k], docs_view, blurb_places(counts.take(d + 1))[k], name, *config) by {
                        if k < before.len() {
                            assert(works@[k] == before[k]);
                        }
                    }
                }
                b = b + 1;
            }
            d = d + 1;
        }
        proof {
            assert(counts.take(docs.len() as int) =~= counts);
            let places = blurb_places(counts);
            let ls = places.map_values(|pl: (int, int)| blurb_fandom_texts(docs_view[pl.0], pl.1 as nat));
            assert forall|k: int| 0 <= k < works.len() implies views(#[trigger] works@[k].fandoms@) == ls[k] by {
                assert(work_at(works@[k], docs_view, places[k], name, *config));
            }
            lemma_gathered_lists(works@, ls);
        }
        let fandoms = gather_fandoms(&works);
        let filtered_fandom = match common::try_filter_fandoms(&fandoms, config) {
            Some(f) => f,
            None => {
                let mut m = text::owned("No fandom left after filtering for series ");
                text::push_signed_decimal(&mut m, id);
                return Err(m);
            },
        };
        let creators = if page.creator_links.len() > 0 {
            page.creator_links.clone()
        } else {
            assert(views(page.meta@)[0] == page.meta@[0]@);
            let c = vec![page.meta[0].clone()];
            assert(views(c@) =~= seq![views(page.meta@)[0]]);
            c
        };
        assert(views(creators@) =~= if views(page.creator_links@).len() > 0 {
            views(page.creator_links@)
        } else {
            seq![views(page.meta@)[0]]
        });
        assert(views(page.meta@)[1] == page.meta@[1]@);
        assert(views(page.meta@)[2] == page.meta@[2]@);
        assert(views(page.descriptions@)[0] == page.descriptions@[0]@);
        assert(views(page.words@)[0] == page.words@[0]@);
        assert(views(page.works@)[0] == page.works@[0]@);
        assert(views(page.bookmarks@)[0] == page.bookmarks@[0]@);
        assert(views(page.stats@)[2] == page.stats@[2]@);
        let bookmarks = text::trimmed(page.bookmarks[0].as_str());
        let is_completed = strset::str_is(page.stats[2].as_str(), "Yes");
        proof {
            crate::laws::law_series_reads_every_page(docs_view);
        }
        let s = Series {
            id,
            title: common::sanitise_string(raw_title.as_str()),
            creators,
            begun: page.meta[1].clone(),
            updated: page.meta[2].clone(),
            description: page.descriptions[0].clone(),
            num_words: read_count(page.words[0].as_str()),
            num_works: read_count(page.works[0].as_str()),
            is_completed,
            num_bookmarks: read_count(bookmarks.as_str()),
            works,
            fandoms,
            filtered_fandom,
        };
        Ok(s)
    }
}

} // verus!
