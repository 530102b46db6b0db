//! Reading a work back from the first pages of a downloaded EPUB.

use vstd::prelude::*;

use std::collections::HashMap;

use crate::common::{self, fandom_label, filtered_fandoms};
use crate::config::Config;
use crate::domain::work::{DownloadLinks, LinkView, SeriesLink, Work, links_view};
use crate::html::{self, ElementView, HtmlNode, NodeView, nodes_view, texts};
use crate::pattern::{self, regex_accepts, regex_captures_of};
use crate::strset::views;
use crate::text::{self, parse_int, split_pieces};

verus! {

broadcast use vstd::std_specs::hash::group_hash_axioms;

/// The number a link such as `https://archiveofourown.org/series/12` ends in:
/// its last `/`-separated piece read as an `i64`.
pub open spec fn last_piece_id(s: Seq<char>) -> Option<int> {
    match parse_int(split_pieces(s, '/').last(), i64::MIN as int, i64::MAX as int, true) {
        Ok(v) => Some(v),
        Err(_) => None,
    }
}

pub fn last_piece_id_of(s: &str) -> (r: Option<i64>)
    ensures
        r matches Some(v) ==> last_piece_id(s@) == Some(v as int),
        r is None ==> last_piece_id(s@) is None,
{
    let p = text::split_on(s, '/');
    proof {
        text::lemma_split_nonempty(s@, '/');
    }
    let n = p.len();
    assert(views(p@)[n - 1] == p@[n - 1]@);
    match text::parse_i64(p[n - 1].as_str()) {
        Ok(v) => Some(v),
        Err(_) => None,
    }
}

/// The pattern of a series position in an EPUB's tag list.
pub open spec fn part_pattern() -> Seq<char> {
    "Part (\\d+) of"@
}

/// The part number a text node of a series tag sets: group 1 of the first
/// `Part <n> of`, read as a `u8`; `None` where the node has none.
pub open spec fn text_part(t: Seq<char>) -> Option<Result<int, ()>> {
    match regex_captures_of(part_pattern(), t) {
        Some(g) => Some(
            if g.len() > 1 && g[1] is Some && parse_int(g[1]->0, 0, 255, false) is Ok {
                Ok(parse_int(g[1]->0, 0, 255, false)->Ok_0)
            } else {
                Err(())
            },
        ),
        None => None,
    }
}

/// The `a` element a child node is, if it is one.
pub open spec fn link_of(node: NodeView) -> Option<ElementView> {
    match node.1 {
        Some(e) => if node.0 is None && e.0 == "a"@ {
            Some(e)
        } else {
            None
        },
        None => None,
    }
}

/// A series tag's children read in order: text nodes set the part number,
/// `a` elements name a series at that part.
pub open spec fn series_tag_readable(nodes: Seq<NodeView>) -> bool {
    &&& regex_accepts(part_pattern())
    &&& forall|i: int|
        #![trigger nodes[i]]
        0 <= i < nodes.len() ==> {
            &&& (nodes[i].0 matches Some(t) ==> !(text_part(t) matches Some(Err(_))))
            &&& (link_of(nodes[i]) matches Some(e) ==> (e.2 matches Some(h) && last_piece_id(h) is Some))
        }
}

/// The part number in force after the first `n` children (0 before any).
pub open spec fn part_after(nodes: Seq<NodeView>, n: nat) -> int
    decreases n,
{
    if n == 0 {
        0
    } else {
        let prev = part_after(nodes, (n - 1) as nat);
        match nodes[n - 1].0 {
            Some(t) => match text_part(t) {
                Some(Ok(p)) => p,
                _ => prev,
            },
            None => prev,
        }
    }
}

/// The series links the first `n` children of a series tag give.
pub open spec fn series_tag_links(nodes: Seq<NodeView>, n: nat) -> Map<i64, LinkView>
    decreases n,
{
    if n == 0 {
        Map::empty()
    } else {
        let prev = series_tag_links(nodes, (n - 1) as nat);
        match link_of(nodes[n - 1]) {
            Some(e) => {
                let id = last_piece_id(e.2->0)->0;
                prev.insert(id as i64, (id, e.1, part_after(nodes, (n - 1) as nat)))
            },
            None => prev,
        }
    }
}

/// The series links a series tag (its child nodes `children`) names.
pub fn parse_series_tag(children: &Vec<HtmlNode>) -> (m: HashMap<i64, SeriesLink>)
    requires
        series_tag_readable(nodes_view(children@)),
    ensures
        links_view(m@) == series_tag_links(nodes_view(children@), children.len() as nat),
{
    let ghost nodes = nodes_view(children@);
    let mut part: u8 = 0;
    let mut m: HashMap<i64, SeriesLink> = HashMap::new();
    let mut i: usize = 0;
    assert(links_view(m@) =~= Map::<i64, LinkView>::empty());
    while i < children.len()
        invariant
            0 <= i <= children.len(),
            nodes == nodes_view(children@),
            series_tag_readable(nodes),
            part as int == part_after(nodes, i as nat),
            links_view(m@) == series_tag_links(nodes, i as nat),
        decreases children.len() - i,
    {
        assert(nodes[i as int] == html::node_view(children@[i as int]));
        match &children[i] {
            HtmlNode::Text(t) => {
                match pattern::regex_captures("Part (\\d+) of", t.as_str()) {
                    Ok(Some(g)) => {
                        if g.len() > 1 {
                            assert(pattern::groups_view(g@)[1] == pattern::opt_view(g@[1]));
                            match &g[1] {
                                Some(digits) => match text::parse_u8(digits.as_str()) {
                                    Ok(p) => {
                                        part = p;
                                    },
                                    Err(_) => {},
                                },
                                None => {},
                            }
                        }
                    },
                    _ => {},
                }
            },
            HtmlNode::Element(e) => {
                if crate::strset::str_is(e.name.as_str(), "a") {
                    let series_id = match &e.href {
                        Some(h) => match last_piece_id_of(h.as_str()) {
                            Some(v) => v,
                            None => 0,
                        },
                        None => 0,
                    };
                    let ghost before = m@;
                    let link = SeriesLink { series_id, series_title: e.text.clone(), part_in_series: part };
                    m.insert(series_id, link);
                    assert(links_view(m@) =~= links_view(before).insert(series_id, (series_id as int, e.text@, part as int)));
                }
            },
            HtmlNode::Other => {},
        }
        i = i + 1;
    }
    m
}

// ---------------------------------------------------------------------------
// The first two pages of a downloaded EPUB
/// What the selectors found on the first two pages of a downloaded EPUB.
#[derive(Clone, Debug)]
pub struct EpubPages {
    /// `p.message b` on the first page
    pub message_titles: Vec<String>,
    /// `p.message a` on the first page
    pub message_links: Vec<String>,
    /// `dl.tags dt` on the first page
    pub tag_types: Vec<String>,
    /// for each `dl.tags dd` on the first page: the texts of its `a` elements
    pub tag_lists: Vec<Vec<String>>,
    /// for each `dl.tags dd` on the first page: its child nodes
    pub tag_children: Vec<Vec<HtmlNode>>,
    /// `div.byline a` on the second page
    pub bylines: Vec<String>,
}

/// A tag kind as written, without its trailing `:`.
pub open spec fn tag_label(t: Seq<char>) -> Seq<char> {
    t.drop_last()
}

/// The number of (kind, tags) rows: kinds and tag lists taken in pairs.
pub open spec fn row_count(e: EpubPages) -> int {
    let a = views(e.tag_types@).len() as int;
    let b = e.tag_lists.len() as int;
    if a < b {
        a
    } else {
        b
    }
}

/// The pages hold all that the work's fields are read from.
pub open spec fn epub_complete(e: EpubPages) -> bool {
    let types = views(e.tag_types@);
    &&& views(e.message_titles@).len() > 0
    &&& views(e.message_links@).len() > 1
    &&& last_piece_id(views(e.message_links@)[1]) is Some
    &&& e.tag_children.len() == e.tag_lists.len()
    &&& forall|k: int| 0 <= k < row_count(e) ==> {
        &&& (#[trigger] types[k]).len() > 0 && types[k].last() == ':'
        &&& tag_label(types[k]) == "Series"@ ==> series_tag_readable(nodes_view(e.tag_children@[k]@))
    }
}

/// The tags of the last row among the first `n` whose kind is one of `labels`.
pub open spec fn last_tags(e: EpubPages, labels: Set<Seq<char>>, n: nat) -> Seq<Seq<char>>
    decreases n,
{
    if n == 0 {
        Seq::empty()
    } else if labels.contains(tag_label(views(e.tag_types@)[n - 1])) {
        views(e.tag_lists@[n - 1]@)
    } else {
        last_tags(e, labels, (n - 1) as nat)
    }
}

/// The series links of the last `Series` row among the first `n`.
pub open spec fn last_series(e: EpubPages, n: nat) -> Map<i64, LinkView>
    decreases n,
{
    if n == 0 {
        Map::empty()
    } else if tag_label(views(e.tag_types@)[n - 1]) == "Series"@ {
        let nodes = nodes_view(e.tag_children@[n - 1]@);
        series_tag_links(nodes, nodes.len())
    } else {
        last_series(e, (n - 1) as nat)
    }
}

pub open spec fn fandom_labels() -> Set<Seq<char>> {
    set!["Fandom"@, "Fandoms"@]
}

pub open spec fn relationship_labels() -> Set<Seq<char>> {
    set!["Relationship"@, "Relationships"@]
}

/// `w` is the work the EPUB pages `e` describe, filed under `fandom`.
pub open spec fn work_from_epub(w: Work, e: EpubPages, fandom: Seq<char>) -> bool {
    let n = row_count(e) as nat;
    &&& w.id as int == last_piece_id(views(e.message_links@)[1])->0
    &&& w.title@ == views(e.message_titles@)[0]
    &&& views(w.authors@) == views(e.bylines@)
    &&& w.download_links@ == Map::<crate::common::DownloadFormat, Seq<char>>::empty()
    &&& views(w.fandoms@) == last_tags(e, fandom_labels(), n)
    &&& w.filtered_fandom@ == fandom
    &&& views(w.relationships@) == last_tags(e, relationship_labels(), n)
    &&& views(w.characters@) == last_tags(e, set!["Characters"@], n)
    &&& views(w.additional_tags@) == last_tags(e, set!["Additional Tags"@], n)
    &&& links_view(w.series@) == last_series(e, n)
}

/// The tag kinds the reader tells apart are different words.
proof fn lemma_tag_labels_apart()
    ensures
        "Fandom"@ != "Relationship"@,
        "Fandom"@ != "Relationships"@,
        "Fandoms"@ != "Relationship"@,
        "Fandoms"@ != "Relationships"@,
        "Fandom"@ != "Characters"@,
        "Fandoms"@ != "Characters"@,
        "Fandom"@ != "Additional Tags"@,
        "Fandoms"@ != "Additional Tags"@,
        "Fandom"@ != "Series"@,
        "Fandoms"@ != "Series"@,
        "Relationship"@ != "Characters"@,
        "Relationships"@ != "Characters"@,
        "Relationship"@ != "Additional Tags"@,
        "Relationships"@ != "Additional Tags"@,
        "Relationship"@ != "Series"@,
        "Relationships"@ != "Series"@,
        "Characters"@ != "Additional Tags"@,
        "Characters"@ != "Series"@,
        "Additional Tags"@ != "Series"@,
{
    reveal_strlit("Fandom");
    reveal_strlit("Fandoms");
    reveal_strlit("Relationship");
    reveal_strlit("Relationships");
    reveal_strlit("Characters");
    reveal_strlit("Additional Tags");
    reveal_strlit("Series");
    assert("Fandom"@[0] != "Series"@[0]);
    assert("Fandom"@.len() == 6);
    assert("Fandoms"@.len() == 7);
    assert("Characters"@.len() == 10);
    assert("Additional Tags"@.len() == 15);
    assert("Series"@.len() == 6);
    assert("Relationship"@.len() == 12);
    assert("Relationships"@.len() == 13);
}

fn label_of(t: &String) -> (l: String)
    requires
        t@.len() > 0,
    ensures
        l@ == tag_label(t@),
{
    let v = text::chars_of(t.as_str());
    text::string_from_range(&v, 0, v.len() - 1)
}

fn copy_strings(v: &Vec<String>) -> (r: Vec<String>)
    ensures
        views(r@) == views(v@),
{
    let r = v.clone();
    assert(r.len() == v.len());
    assert forall|k: int| 0 <= k < v.len() implies r@[k] == v@[k] by {
        assert(vstd::pervasive::cloned::<String>(v@[k], r@[k]));
    }
    assert(views(r@) =~= views(v@));
    r
}

impl Work {
    /// The work that EPUB pages `e` describe, filed under `filtered_fandom`.
    pub fn from_epub(e: &EpubPages, filtered_fandom: String) -> (w: Work)
        requires
            epub_complete(*e),
        ensures
            work_from_epub(w, *e, filtered_fandom@),
    {
        assert(views(e.message_links@)[1] == e.message_links@[1]@);
        assert(views(e.message_titles@)[0] == e.message_titles@[0]@);
        let id = match last_piece_id_of(e.message_links[1].as_str()) {
            Some(v) => v,
            None => 0,
        };
        let n = if e.tag_types.len() < e.tag_lists.len() {
            e.tag_types.len()
        } else {
            e.tag_lists.len()
        };
        let mut fandoms: Vec<String> = Vec::new();
        let mut relationships: Vec<String> = Vec::new();
        let mut characters: Vec<String> = Vec::new();
        let mut additional_tags: Vec<String> = Vec::new();
        let mut series: HashMap<i64, SeriesLink> = HashMap::new();
        assert(links_view(series@) =~= Map::<i64, LinkView>::empty());
        let mut k: usize = 0;
        while k < n
            invariant
                0 <= k <= n,
                n == row_count(*e),
                epub_complete(*e),
                views(fandoms@) == last_tags(*e, fandom_labels(), k as nat),
                views(relationships@) == last_tags(*e, relationship_labels(), k as nat),
                views(characters@) == last_tags(*e, set!["Characters"@], k as nat),
                views(additional_tags@) == last_tags(*e, set!["Additional Tags"@], k as nat),
                links_view(series@) == last_series(*e, k as nat),
            decreases n - k,
        {
            let ghost ty = views(e.tag_types@)[k as int];
            assert(ty == e.tag_types@[k as int]@);
            assert(ty.len() > 0 && ty.last() == ':');
            let label = label_of(&e.tag_types[k]);
            proof {
                lemma_tag_labels_apart();
            }
            let tags = &e.tag_lists[k];
            if crate::strset::str_is(label.as_str(), "Fandom") || crate::strset::str_is(label.as_str(), "Fandoms") {
                fandoms = copy_strings(tags);
            } else if crate::strset::str_is(label.as_str(), "Relationship") || crate::strset::str_is(label.as_str(), "Relationships") {
                relationships = copy_strings(tags);
            } else if crate::strset::str_is(label.as_str(), "Characters") {
                characters = copy_strings(tags);
            } else if crate::strset::str_is(label.as_str(), "Additional Tags") {
                additional_tags = copy_strings(tags);
            } else if crate::strset::str_is(label.as_str(), "Series") {
                series = parse_series_tag(&e.tag_children[k]);
            }
            k = k + 1;
        }
        Work {
            id,
            title: e.message_titles[0].clone(),
            authors: copy_strings(&e.bylines),
            download_links: DownloadLinks::new(),
            fandoms,
            filtered_fandom,
            relationships,
            characters,
            additional_tags,
            series,
        }
    }
}

// ---------------------------------------------------------------------------
// Reading the pages
/// Whether the scraper accepts every selector read on the EPUB pages.
pub open spec fn epub_selectors_accepted() -> bool {
    &&& html::selector_accepted("p.message b"@)
    &&& html::selector_accepted("p.message a"@)
    &&& html::selector_accepted("dl.tags dt"@)
    &&& html::selector_accepted("dl.tags dd"@)
    &&& html::selector_accepted("a"@)
    &&& html::selector_accepted("div.byline a"@)
}

/// `e` holds what the selectors select in the first page `first` and the second page `second`.
pub open spec fn epub_pages_selected(e: EpubPages, first: Seq<char>, second: Seq<char>) -> bool {
    let dds = html::selected(first, "dl.tags dd"@);
    &&& epub_selectors_accepted()
    &&& views(e.message_titles@) == texts(html::selected(first, "p.message b"@))
    &&& views(e.message_links@) == texts(html::selected(first, "p.message a"@))
    &&& views(e.tag_types@) == texts(html::selected(first, "dl.tags dt"@))
    &&& e.tag_lists.len() == dds.len()
    &&& e.tag_children.len() == dds.len()
    &&& forall|k: int|
        #![trigger e.tag_lists@[k]]
        0 <= k < dds.len() ==> views(e.tag_lists@[k]@) == texts(
            html::selected_within(first, "dl.tags dd"@, k as nat, "a"@),
        )
    &&& forall|k: int|
        #![trigger e.tag_children@[k]]
        0 <= k < dds.len() ==> nodes_view(e.tag_children@[k]@) == html::child_nodes(first, "dl.tags dd"@, k as nat)
    &&& views(e.bylines@) == texts(html::selected(second, "div.byline a"@))
}

/// Reads the selectors of the first two EPUB pages `first` and `second`.
pub fn read_epub_pages(first: &str, second: &str) -> (r: Result<EpubPages, String>)
    ensures
        r matches Ok(e) ==> epub_pages_selected(e, first@, second@),
        r is Err <==> !epub_selectors_accepted(),
{
    let message_titles = html::select_texts_or(first, "p.message b", "Error parsing title")?;
    let message_links = html::select_texts_or(first, "p.message a", "Error parsing work id")?;
    let tag_types = html::select_texts_or(first, "dl.tags dt", "Error parsing tag types")?;
    let dds = html::select_or(first, "dl.tags dd", "Error parsing tags")?;
    if html::select_all(first, "a").is_none() {
        return Err(text::owned("Error parsing tags"));
    }
    let bylines = html::select_texts_or(second, "div.byline a", "Error parsing author")?;
    let ghost dv = html::selected(first@, "dl.tags dd"@);
    let mut tag_lists: Vec<Vec<String>> = Vec::new();
    let mut tag_children: Vec<Vec<HtmlNode>> = Vec::new();
    let mut k: usize = 0;
    while k < dds.len()
        invariant
            0 <= k <= dds.len(),
            dds.len() == dv.len(),
            dv == html::selected(first@, "dl.tags dd"@),
            epub_selectors_accepted(),
            tag_lists.len() == k,
            tag_children.len() == k,
            forall|j: int|
                #![trigger tag_lists@[j]]
                0 <= j < k ==> views(tag_lists@[j]@) == texts(html::selected_within(first@, "dl.tags dd"@, j as nat, "a"@)),
            forall|j: int|
                #![trigger tag_children@[j]]
                0 <= j < k ==> nodes_view(tag_children@[j]@) == html::child_nodes(first@, "dl.tags dd"@, j as nat),
        decreases dds.len() - k,
    {
        let tags = match html::select_texts_within_or(first, "dl.tags dd", k, "a", "Error parsing tags") {
            Ok(t) => t,
            Err(m) => {
                return Err(m);
            },
        };
        let children = match html::children_of(first, "dl.tags dd", k) {
            Some(c) => c,
            None => {
                return Err(text::owned("Error parsing tags"));
            },
        };
        tag_lists.push(tags);
        tag_children.push(children);
        k = k + 1;
    }
    Ok(EpubPages { message_titles, message_links, tag_types, tag_lists, tag_children, bylines })
}

/// Whether the children of a series tag can be read: the same test as
/// `series_tag_readable`, made by running the pattern.
pub fn check_series_tag(children: &Vec<HtmlNode>) -> (b: bool)
    ensures
        b == series_tag_readable(nodes_view(children@)),
{
    let ghost nodes = nodes_view(children@);
    if pattern::regex_captures("Part (\\d+) of", "").is_err() {
        return false;
    }
    let mut i: usize = 0;
    while i < children.len()
        invariant
            0 <= i <= children.len(),
            nodes == nodes_view(children@),
            regex_accepts(part_pattern()),
            forall|j: int|
                #![trigger nodes[j]]
                0 <= j < i ==> {
                    &&& (nodes[j].0 matches Some(t) ==> !(text_part(t) matches Some(Err(_))))
                    &&& (link_of(nodes[j]) matches Some(e) ==> (e.2 matches Some(h) && last_piece_id(h) is Some))
                },
        decreases children.len() - i,
    {
        assert(nodes[i as int] == html::node_view(children@[i as int]));
        match &children[i] {
            HtmlNode::Text(t) => {
                match pattern::regex_captures("Part (\\d+) of", t.as_str()) {
                    Ok(Some(g)) => {
                        if g.len() <= 1 {
                            return false;
                        }
                        assert(pattern::groups_view(g@)[1] == pattern::opt_view(g@[1]));
                        match &g[1] {
                            Some(digits) => {
                                if text::parse_u8(digits.as_str()).is_err() {
                                    return false;
                                }
                            },
                            None => {
                                return false;
                            },
                        }
                    },
                    Ok(None) => {},
                    Err(_) => {
                        return false;
                    },
                }
            },
            HtmlNode::Element(e) => {
                if crate::strset::str_is(e.name.as_str(), "a") {
                    match &e.href {
                        Some(h) => {
                            if last_piece_id_of(h.as_str()).is_none() {
                                return false;
                            }
                        },
                        None => {
                            return false;
                        },
                    }
                }
            },
            HtmlNode::Other => {},
        }
        i = i + 1;
    }
    true
}

pub fn check_epub(e: &EpubPages) -> (b: bool)
    ensures
        b == epub_complete(*e),
{
    if e.message_titles.len() == 0 || e.message_links.len() <= 1 {
        return false;
    }
    assert(views(e.message_links@)[1] == e.message_links@[1]@);
    if last_piece_id_of(e.message_links[1].as_str()).is_none() {
        return false;
    }
    if e.tag_children.len() != e.tag_lists.len() {
        return false;
    }
    let n = if e.tag_types.len() < e.tag_lists.len() {
        e.tag_types.len()
    } else {
        e.tag_lists.len()
    };
    let ghost types = views(e.tag_types@);
    let mut k: usize = 0;
    while k < n
        invariant
            0 <= k <= n,
            n == row_count(*e),
            types == views(e.tag_types@),
            e.tag_children.len() == e.tag_lists.len(),
            forall|j: int|
                #![trigger types[j]]
                0 <= j < k ==> {
                    &&& types[j].len() > 0 && types[j].last() == ':'
                    &&& tag_label(types[j]) == "Series"@ ==> series_tag_readable(nodes_view(e.tag_children@[j]@))
                },
        decreases n - k,
    {
        assert(types[k as int] == e.tag_types@[k as int]@);
        let t = &e.tag_types[k];
        if t.as_str().unicode_len() == 0 {
            return false;
        }
        let last = t.as_str().get_char(t.as_str().unicode_len() - 1);
        if last != ':' {
            return false;
        }
        let label = label_of(t);
        if crate::strset::str_is(label.as_str(), "Series") && !check_series_tag(&e.tag_children[k]) {
            return false;
        }
        k = k + 1;
    }
    true
}

/// The message for EPUB pages that lack what a work's fields are read from.
pub open spec fn unreadable_epub_message() -> Seq<char> {
    "Could not read the work from its EPUB pages"@
}

/// The message for an EPUB whose fandoms are all filtered out.
pub open spec fn no_epub_fandom_message() -> Seq<char> {
    "No fandom left after filtering"@
}

/// The fandom a work read from `e` is filed under by the rules of `config`;
/// `None` where no fandom is left.
pub open spec fn epub_fandom(e: EpubPages, config: Config) -> Option<Seq<char>> {
    let left = filtered_fandoms(last_tags(e, fandom_labels(), row_count(e) as nat), config.fandom_map@, config.filters());
    if left.len() > 0 {
        Some(fandom_label(left))
    } else {
        None
    }
}

/// Two reads of the pages that hold the same values.
pub open spec fn same_pages(a: EpubPages, b: EpubPages) -> bool {
    &&& views(a.message_titles@) == views(b.message_titles@)
    &&& views(a.message_links@) == views(b.message_links@)
    &&& views(a.tag_types@) == views(b.tag_types@)
    &&& views(a.bylines@) == views(b.bylines@)
    &&& a.tag_lists.len() == b.tag_lists.len()
    &&& a.tag_children.len() == b.tag_children.len()
    &&& forall|k: int|
        #![trigger a.tag_lists@[k]]
        #![trigger b.tag_lists@[k]]
        0 <= k < a.tag_lists.len() ==> views(a.tag_lists@[k]@) == views(b.tag_lists@[k]@)
    &&& forall|k: int|
        #![trigger a.tag_children@[k]]
        #![trigger b.tag_children@[k]]
        0 <= k < a.tag_children.len() ==> nodes_view(a.tag_children@[k]@) == nodes_view(b.tag_children@[k]@)
}

proof fn lemma_same_last_tags(a: EpubPages, b: EpubPages, labels: Set<Seq<char>>, n: nat)
    requires
        same_pages(a, b),
        n <= row_count(a),
    ensures
        last_tags(a, labels, n) == last_tags(b, labels, n),
    decreases n,
{
    if n > 0 {
        lemma_same_last_tags(a, b, labels, (n - 1) as nat);
        assert(views(a.tag_lists@[n - 1]@) == views(b.tag_lists@[n - 1]@));
    }
}

proof fn lemma_same_last_series(a: EpubPages, b: EpubPages, n: nat)
    requires
        same_pages(a, b),
        n <= row_count(a),
        a.tag_children.len() == a.tag_lists.len(),
    ensures
        last_series(a, n) == last_series(b, n),
    decreases n,
{
    if n > 0 {
        lemma_same_last_series(a, b, (n - 1) as nat);
        assert(nodes_view(a.tag_children@[n - 1]@) == nodes_view(b.tag_children@[n - 1]@));
    }
}

/// What is read from the pages depends on the values they hold alone.
proof fn lemma_same_pages(a: EpubPages, b: EpubPages)
    requires
        same_pages(a, b),
    ensures
        row_count(a) == row_count(b),
        epub_complete(a) == epub_complete(b),
        epub_complete(a) ==> forall|labels: Set<Seq<char>>|
            #[trigger] last_tags(a, labels, row_count(a) as nat) == last_tags(b, labels, row_count(b) as nat),
        epub_complete(a) ==> last_series(a, row_count(a) as nat) == last_series(b, row_count(b) as nat),
{
    let types = views(a.tag_types@);
    if epub_complete(a) {
        assert forall|labels: Set<Seq<char>>| #[trigger] last_tags(a, labels, row_count(a) as nat) == last_tags(b, labels, row_count(b) as nat) by {
            lemma_same_last_tags(a, b, labels, row_count(a) as nat);
        }
        lemma_same_last_series(a, b, row_count(a) as nat);
    }
    if a.tag_children.len() == a.tag_lists.len() {
        assert forall|k: int| 0 <= k < row_count(a) && tag_label(#[trigger] types[k]) == "Series"@ implies
            nodes_view(a.tag_children@[k]@) == nodes_view(b.tag_children@[k]@) by {
        }
    }
}

/// The work that the first two pages of a downloaded EPUB describe:
/// `first` holds the title, the link to the work and the tags, `second` the byline.
pub fn meta(first: &str, second: &str, config: &Config) -> (r: Result<Work, String>)
    ensures
        forall|e: EpubPages| #[trigger] epub_pages_selected(e, first@, second@) ==> {
            &&& !epub_complete(e) ==> (r matches Err(m) && m@ == unreadable_epub_message())
            &&& epub_complete(e) && epub_fandom(e, *config) is None ==> (r matches Err(m) && m@ == no_epub_fandom_message())
            &&& epub_complete(e) && epub_fandom(e, *config) is Some ==> (r matches Ok(w) && work_from_epub(
                w,
                e,
                epub_fandom(e, *config)->0,
            ))
        },
        !epub_selectors_accepted() ==> r is Err,
{
    let e = read_epub_pages(first, second)?;
    proof {
        assert forall|o: EpubPages| #[trigger] epub_pages_selected(o, first@, second@) implies same_pages(e, o) by {}
        assert forall|o: EpubPages| #[trigger] epub_pages_selected(o, first@, second@) implies {
            &&& row_count(e) == row_count(o)
            &&& epub_complete(e) == epub_complete(o)
            &&& epub_complete(e) ==> last_series(e, row_count(e) as nat) == last_series(o, row_count(o) as nat)
            &&& epub_complete(e) ==> epub_fandom(e, *config) == epub_fandom(o, *config)
        } by {
            lemma_same_pages(e, o);
            if epub_complete(e) {
                assert(last_tags(e, fandom_labels(), row_count(e) as nat) == last_tags(o, fandom_labels(), row_count(o) as nat));
            }
        }
    }
    if !check_epub(&e) {
        return Err(text::owned("Could not read the work from its EPUB pages"));
    }
    let w = Work::from_epub(&e, String::new());
    match common::try_filter_fandoms(&w.fandoms, config) {
        Some(f) => {
            let w = Work { filtered_fandom: f, ..w };
            proof {
                assert forall|o: EpubPages| #[trigger] epub_pages_selected(o, first@, second@) implies work_from_epub(w, o, epub_fandom(o, *config)->0) by {
                    lemma_same_pages(e, o);
                    assert(last_tags(e, fandom_labels(), row_count(e) as nat) == last_tags(o, fandom_labels(), row_count(o) as nat));
                    assert(last_tags(e, relationship_labels(), row_count(e) as nat) == last_tags(o, relationship_labels(), row_count(o) as nat));
                    assert(last_tags(e, set!["Characters"@], row_count(e) as nat) == last_tags(o, set!["Characters"@], row_count(o) as nat));
                    assert(last_tags(e, set!["Additional Tags"@], row_count(e) as nat) == last_tags(o, set!["Additional Tags"@], row_count(o) as nat));
                }
            }
            Ok(w)
        },
        None => Err(text::owned("No fandom left after filtering")),
    }
}

} // verus!
