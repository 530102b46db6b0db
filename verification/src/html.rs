//! Reading AO3 pages: CSS selection over HTML, done by the scraper crate.
//! Each function parses the document text it is given and hands back what it
//! selected as plain strings.

use vstd::prelude::*;

use crate::pattern::opt_view;

verus! {

/// What the server reads of an element: its tag name, its text (the text of
/// all its descendants, in order) and its `href` and `id` attributes.
#[derive(Clone, Debug)]
pub struct HtmlElement {
    pub name: String,
    pub text: String,
    pub href: Option<String>,
    pub id: Option<String>,
}

/// A child node of an element.
#[derive(Clone, Debug)]
pub enum HtmlNode {
    Text(String),
    Element(HtmlElement),
    Other,
}

/// An element as plain values: (name, text, href, id).
pub type ElementView = (Seq<char>, Seq<char>, Option<Seq<char>>, Option<Seq<char>>);

/// A child node as plain values: `Some(text)` for a text node, or the element.
pub type NodeView = (Option<Seq<char>>, Option<ElementView>);

pub open spec fn element_view(e: HtmlElement) -> ElementView {
    (e.name@, e.text@, opt_view(e.href), opt_view(e.id))
}

pub open spec fn elements_view(v: Seq<HtmlElement>) -> Seq<ElementView> {
    v.map_values(|e: HtmlElement| element_view(e))
}

pub open spec fn node_view(n: HtmlNode) -> NodeView {
    match n {
        HtmlNode::Text(t) => (Some(t@), None),
        HtmlNode::Element(e) => (None, Some(element_view(e))),
        HtmlNode::Other => (None, None),
    }
}

pub open spec fn nodes_view(v: Seq<HtmlNode>) -> Seq<NodeView> {
    v.map_values(|n: HtmlNode| node_view(n))
}

/// Whether `Selector::parse` accepts `selector`.
pub uninterp spec fn selector_accepted(selector: Seq<char>) -> bool;

/// The elements `Html::select` yields for `selector` on the parsed `document`, in document order.
pub uninterp spec fn selected(document: Seq<char>, selector: Seq<char>) -> Seq<ElementView>;

/// The elements `ElementRef::select` yields for `inner` below the
/// `index`-th element that `outer` selects in the parsed `document`.
pub uninterp spec fn selected_within(document: Seq<char>, outer: Seq<char>, index: nat, inner: Seq<char>) -> Seq<ElementView>;

/// The child nodes (`NodeRef::children`) of the `index`-th element that `outer` selects.
pub uninterp spec fn child_nodes(document: Seq<char>, outer: Seq<char>, index: nat) -> Seq<NodeView>;

/// The parsed `document` serialized again (`Html::html`).
pub uninterp spec fn serialized(document: Seq<char>) -> Seq<char>;

/// `Html::parse_document(document).select(&Selector::parse(selector)?)`.
#[verifier::external_body]
pub(crate) fn select_all(document: &str, selector: &str) -> (r: Option<Vec<HtmlElement>>)
    ensures
        r is None <==> !selector_accepted(selector@),
        r matches Some(v) ==> elements_view(v@) == selected(document@, selector@),
{
    let sel = scraper::Selector::parse(selector).ok()?;
    let doc = scraper::Html::parse_document(document);
    Some(doc.select(&sel).map(|e| HtmlElement {
        name: e.value().name().to_string(),
        text: e.text().collect(),
        href: e.attr("href").map(String::from),
        id: e.attr("id").map(String::from),
    }).collect())
}

/// `ElementRef::select(&Selector::parse(inner)?)` on the `index`-th element
/// that `outer` selects in the parsed `document`.
#[verifier::external_body]
pub(crate) fn select_within(document: &str, outer: &str, index: usize, inner: &str) -> (r: Option<Vec<HtmlElement>>)
    ensures
        r is None <==> !(selector_accepted(outer@) && selector_accepted(inner@) && index < selected(document@, outer@).len()),
        r matches Some(v) ==> elements_view(v@) == selected_within(document@, outer@, index as nat, inner@),
{
    let (o, i) = (scraper::Selector::parse(outer).ok()?, scraper::Selector::parse(inner).ok()?);
    let doc = scraper::Html::parse_document(document);
    Some(doc.select(&o).nth(index)?.select(&i).map(|e| HtmlElement {
        name: e.value().name().to_string(),
        text: e.text().collect(),
        href: e.attr("href").map(String::from),
        id: e.attr("id").map(String::from),
    }).collect())
}

/// `NodeRef::children` of the `index`-th element that `outer` selects in the parsed `document`.
#[verifier::external_body]
pub(crate) fn children_of(document: &str, outer: &str, index: usize) -> (r: Option<Vec<HtmlNode>>)
    ensures
        r is None <==> !(selector_accepted(outer@) && index < selected(document@, outer@).len()),
        r matches Some(v) ==> nodes_view(v@) == child_nodes(document@, outer@, index as nat),
{
    let o = scraper::Selector::parse(outer).ok()?;
    let doc = scraper::Html::parse_document(document);
    Some(doc.select(&o).nth(index)?.children().map(|c| match (c.value(), scraper::ElementRef::wrap(c)) {
        (scraper::Node::Text(t), _) => HtmlNode::Text(t.to_string()),
        (_, Some(e)) => HtmlNode::Element(HtmlElement { name: e.value().name().to_string(),
            text: e.text().collect(), href: e.attr("href").map(String::from), id: e.attr("id").map(String::from) }),
        _ => HtmlNode::Other,
    }).collect())
}

/// `Html::parse_document(document).html()`.
#[verifier::external_body]
pub(crate) fn serialize(document: &str) -> (r: String)
    ensures
        r@ == serialized(document@),
{
    scraper::Html::parse_document(document).html()
}

/// The texts of a list of elements.
pub open spec fn texts(v: Seq<ElementView>) -> Seq<Seq<char>> {
    v.map_values(|e: ElementView| e.1)
}

pub fn element_texts(v: &Vec<HtmlElement>) -> (r: Vec<String>)
    ensures
        crate::strset::views(r@) == texts(elements_view(v@)),
{
    let mut r: Vec<String> = Vec::new();
    let mut i: usize = 0;
    while i < v.len()
        invariant
            0 <= i <= v.len(),
            crate::strset::views(r@) == texts(elements_view(v@)).take(i as int),
        decreases v.len() - i,
    {
        let ghost before = r@;
        r.push(v[i].text.clone());
        assert(crate::strset::views(r@) =~= crate::strset::views(before).push(v@[i as int].text@));
        assert(texts(elements_view(v@))[i as int] == v@[i as int].text@);
        assert(crate::strset::views(r@) =~= texts(elements_view(v@)).take(i + 1));
        i = i + 1;
    }
    assert(texts(elements_view(v@)).take(i as int) =~= texts(elements_view(v@)));
    r
}

} // verus!

verus! {

/// The elements `selector` selects in `document`; `Err(message)` where the selector is refused.
pub fn select_or(document: &str, selector: &str, message: &str) -> (r: Result<Vec<HtmlElement>, String>)
    ensures
        r is Ok <==> selector_accepted(selector@),
        r matches Ok(v) ==> elements_view(v@) == selected(document@, selector@),
        r matches Err(m) ==> m@ == message@,
{
    match select_all(document, selector) {
        Some(v) => Ok(v),
        None => Err(crate::text::owned(message)),
    }
}

/// The texts of the elements `selector` selects in `document`; `Err(message)` where the selector is refused.
pub fn select_texts_or(document: &str, selector: &str, message: &str) -> (r: Result<Vec<String>, String>)
    ensures
        r is Ok <==> selector_accepted(selector@),
        r matches Ok(v) ==> crate::strset::views(v@) == texts(selected(document@, selector@)),
        r matches Err(m) ==> m@ == message@,
{
    let v = select_or(document, selector, message)?;
    Ok(element_texts(&v))
}

/// The elements `inner` selects below the `index`-th element `outer` selects; `Err(message)` otherwise.
pub fn select_within_or(document: &str, outer: &str, index: usize, inner: &str, message: &str) -> (r: Result<Vec<HtmlElement>, String>)
    ensures
        r is Ok <==> (selector_accepted(outer@) && selector_accepted(inner@) && index < selected(document@, outer@).len()),
        r matches Ok(v) ==> elements_view(v@) == selected_within(document@, outer@, index as nat, inner@),
        r matches Err(m) ==> m@ == message@,
{
    match select_within(document, outer, index, inner) {
        Some(v) => Ok(v),
        None => Err(crate::text::owned(message)),
    }
}

/// The texts of the elements `inner` selects below the `index`-th element `outer` selects.
pub fn select_texts_within_or(document: &str, outer: &str, index: usize, inner: &str, message: &str) -> (r: Result<Vec<String>, String>)
    ensures
        r is Ok <==> (selector_accepted(outer@) && selector_accepted(inner@) && index < selected(document@, outer@).len()),
        r matches Ok(v) ==> crate::strset::views(v@) == texts(selected_within(document@, outer@, index as nat, inner@)),
        r matches Err(m) ==> m@ == message@,
{
    let v = select_within_or(document, outer, index, inner, message)?;
    Ok(element_texts(&v))
}

} // verus!
