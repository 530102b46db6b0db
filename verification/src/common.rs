//! Formats, page kinds, string clean-up and the fandom filing rules.

use vstd::prelude::*;

use crate::config::{Config, FandomMap, filter_list_view};
use crate::strset::{self, distinct, set_of, views};
use crate::text::{self, push_str, push_char, IntErrorKind, parse_int};
use crate::pattern::{self, opt_view, groups_view, regex_accepts, regex_captures_of};
use crate::html;

verus! {

// ---------------------------------------------------------------------------
// Download formats
/// The formats AO3 offers a work in.
#[derive(Clone, Copy, Debug, PartialEq, Eq, Structural, Hash)]
pub enum DownloadFormat {
    Azw3,
    Epub,
    Mobi,
    Pdf,
    Html,
}

/// The name of a format, as it is written on AO3's download links.
pub open spec fn format_name(f: DownloadFormat) -> Seq<char> {
    match f {
        DownloadFormat::Azw3 => "Azw3"@,
        DownloadFormat::Epub => "Epub"@,
        DownloadFormat::Mobi => "Mobi"@,
        DownloadFormat::Pdf => "Pdf"@,
        DownloadFormat::Html => "Html"@,
    }
}

/// The file extension of a format: its name in lower case.
pub open spec fn format_extension(f: DownloadFormat) -> Seq<char> {
    match f {
        DownloadFormat::Azw3 => "azw3"@,
        DownloadFormat::Epub => "epub"@,
        DownloadFormat::Mobi => "mobi"@,
        DownloadFormat::Pdf => "pdf"@,
        DownloadFormat::Html => "html"@,
    }
}

/// The format whose name is `name`, if any.
pub open spec fn format_named(name: Seq<char>) -> Option<DownloadFormat> {
    if name == "Azw3"@ {
        Some(DownloadFormat::Azw3)
    } else if name == "Epub"@ {
        Some(DownloadFormat::Epub)
    } else if name == "Mobi"@ {
        Some(DownloadFormat::Mobi)
    } else if name == "Pdf"@ {
        Some(DownloadFormat::Pdf)
    } else if name == "Html"@ {
        Some(DownloadFormat::Html)
    } else {
        None
    }
}

/// All formats, in the order they are declared.
pub open spec fn all_formats() -> Seq<DownloadFormat> {
    seq![
        DownloadFormat::Azw3,
        DownloadFormat::Epub,
        DownloadFormat::Mobi,
        DownloadFormat::Pdf,
        DownloadFormat::Html,
    ]
}

impl DownloadFormat {
    /// The format's name.
    pub fn name(&self) -> (s: String)
        ensures
            s@ == format_name(*self),
    {
        match self {
            DownloadFormat::Azw3 => text::owned("Azw3"),
            DownloadFormat::Epub => text::owned("Epub"),
            DownloadFormat::Mobi => text::owned("Mobi"),
            DownloadFormat::Pdf => text::owned("Pdf"),
            DownloadFormat::Html => text::owned("Html"),
        }
    }

    /// The format's file extension.
    pub fn extension(&self) -> (s: String)
        ensures
            s@ == format_extension(*self),
    {
        match self {
            DownloadFormat::Azw3 => text::owned("azw3"),
            DownloadFormat::Epub => text::owned("epub"),
            DownloadFormat::Mobi => text::owned("mobi"),
            DownloadFormat::Pdf => text::owned("pdf"),
            DownloadFormat::Html => text::owned("html"),
        }
    }

    /// The format called `name` (names are matched exactly).
    pub fn from_name(name: &str) -> (r: Option<DownloadFormat>)
        ensures
            r == format_named(name@),
    {
        if strset::str_is(name, "Azw3") {
            Some(DownloadFormat::Azw3)
        } else if strset::str_is(name, "Epub") {
            Some(DownloadFormat::Epub)
        } else if strset::str_is(name, "Mobi") {
            Some(DownloadFormat::Mobi)
        } else if strset::str_is(name, "Pdf") {
            Some(DownloadFormat::Pdf)
        } else if strset::str_is(name, "Html") {
            Some(DownloadFormat::Html)
        } else {
            None
        }
    }

    /// Every format, in declaration order.
    pub fn all() -> (v: Vec<DownloadFormat>)
        ensures
            v@ == all_formats(),
    {
        let v = vec![
            DownloadFormat::Azw3,
            DownloadFormat::Epub,
            DownloadFormat::Mobi,
            DownloadFormat::Pdf,
            DownloadFormat::Html,
        ];
        assert(v@ =~= all_formats());
        v
    }
}

impl Default for DownloadFormat {
    fn default() -> (f: DownloadFormat)
        ensures
            f == DownloadFormat::Epub,
    {
        DownloadFormat::Epub
    }
}

// ---------------------------------------------------------------------------
// Pages and URLs
/// The two kinds of AO3 page the server fetches.
#[derive(Clone, Copy, Debug, PartialEq, Eq, Structural)]
pub enum PageType {
    Work,
    Series,
}

/// The path word of a page kind in AO3 URLs.
pub open spec fn page_type_named(word: Seq<char>) -> Option<PageType> {
    if word == "works"@ {
        Some(PageType::Work)
    } else if word == "series"@ {
        Some(PageType::Series)
    } else {
        None
    }
}

/// How a page kind is written in messages.
pub open spec fn page_type_label(p: PageType) -> Seq<char> {
    match p {
        PageType::Work => "work"@,
        PageType::Series => "series"@,
    }
}

impl PageType {
    /// The page kind whose URL path word is `word` (`"works"` or `"series"`).
    pub fn from_path_word(word: &str) -> (r: Option<PageType>)
        ensures
            r == page_type_named(word@),
    {
        if strset::str_is(word, "works") {
            Some(PageType::Work)
        } else if strset::str_is(word, "series") {
            Some(PageType::Series)
        } else {
            None
        }
    }

    /// The page kind as messages write it.
    pub fn label(&self) -> (s: String)
        ensures
            s@ == page_type_label(*self),
    {
        match self {
            PageType::Work => text::owned("work"),
            PageType::Series => text::owned("series"),
        }
    }
}

/// What an AO3 URL points at.
#[derive(Clone, Copy, Debug, PartialEq, Eq, Structural)]
pub struct UrlInfo {
    pub page_type: PageType,
    pub id: i64,
}

// ---------------------------------------------------------------------------
// Upload errors
/// The strings of `parts` joined with `sep` between them.
pub open spec fn join(parts: Seq<Seq<char>>, sep: Seq<char>) -> Seq<char>
    decreases parts.len(),
{
    if parts.len() == 0 {
        Seq::empty()
    } else if parts.len() == 1 {
        parts[0]
    } else {
        join(parts.drop_last(), sep) + sep + parts.last()
    }
}

/// Appends `parts` joined with `sep` to `out`.
pub fn push_joined(out: &mut String, parts: &Vec<String>, sep: &str)
    ensures
        final(out)@ == old(out)@ + join(views(parts@), sep@),
{
    let mut i: usize = 0;
    assert(views(parts@).take(0) =~= Seq::<Seq<char>>::empty());
    while i < parts.len()
        invariant
            0 <= i <= parts.len(),
            out@ == old(out)@ + join(views(parts@).take(i as int), sep@),
        decreases parts.len() - i,
    {
        let ghost before = out@;
        if i > 0 {
            push_str(out, sep);
        }
        push_str(out, parts[i].as_str());
        proof {
            let t = views(parts@).take(i + 1);
            assert(t.drop_last() =~= views(parts@).take(i as int));
            assert(t.last() == parts@[i as int]@);
            if i == 0 {
                assert(join(t, sep@) == t[0]);
                assert(join(views(parts@).take(0), sep@) =~= Seq::<char>::empty());
            }
            assert(out@ =~= old(out)@ + join(t, sep@));
        }
        i = i + 1;
    }
    assert(views(parts@).take(i as int) =~= views(parts@));
}

/// An upload that stopped at one device after reaching others.
pub struct UploadError {
    pub successes: Vec<String>,
    pub failure: String,
}

impl UploadError {
    pub open spec fn response_text(self) -> Seq<char> {
        "'"@ + self.failure@ + "'\nSuccessfully uploaded to device(s) '"@ + join(
            views(self.successes@),
            ", "@,
        ) + "'"@
    }

    /// The text the server answers a failed upload with.
    pub fn to_response_string(&self) -> (s: String)
        ensures
            s@ == self.response_text(),
    {
        let mut s = text::owned("'");
        push_str(&mut s, self.failure.as_str());
        push_str(&mut s, "'\nSuccessfully uploaded to device(s) '");
        push_joined(&mut s, &self.successes, ", ");
        push_str(&mut s, "'");
        s
    }
}

// ---------------------------------------------------------------------------
// String clean-up
/// The characters that cleaned titles never hold.
pub open spec fn is_unsafe_char(c: char) -> bool {
    c == '!' || c == '?' || c == ':' || c == '"'
}

/// `s` without the unsafe characters.
pub open spec fn drop_unsafe(s: Seq<char>) -> Seq<char>
    decreases s.len(),
{
    if s.len() == 0 {
        s
    } else if is_unsafe_char(s.last()) {
        drop_unsafe(s.drop_last())
    } else {
        drop_unsafe(s.drop_last()).push(s.last())
    }
}

/// A title cleaned for use in file names: trimmed, then without `! ? : "`.
pub open spec fn sanitised(s: Seq<char>) -> Seq<char> {
    drop_unsafe(text::trim(s))
}

pub fn sanitise_string(string: &str) -> (r: String)
    ensures
        r@ == sanitised(string@),
{
    let v = text::chars_of(string);
    let (start, end) = text::trim_bounds(&v);
    let ghost t = v@.subrange(start as int, end as int);
    let mut r = String::new();
    let mut i = start;
    assert(t.take(0) =~= Seq::<char>::empty());
    while i < end
        invariant
            start <= i <= end <= v.len(),
            t == v@.subrange(start as int, end as int),
            r@ == drop_unsafe(t.take(i - start)),
        decreases end - i,
    {
        let c = v[i];
        proof {
            assert(t.take(i - start + 1).drop_last() =~= t.take(i - start));
            assert(t.take(i - start + 1).last() == c);
        }
        if !(c == '!' || c == '?' || c == ':' || c == '"') {
            push_char(&mut r, c);
        }
        i = i + 1;
    }
    assert(t.take(end - start) =~= t);
    r
}

// ---------------------------------------------------------------------------
// Filing a work under one fandom
/// The fandom set after the first `n` fandoms were looked up in `map`:
/// each mapped fandom leaves the set and its mapped name joins it.
pub open spec fn map_fandoms(fandoms: Seq<Seq<char>>, map: Map<Seq<char>, Seq<char>>, n: nat) -> Set<
    Seq<char>,
>
    decreases n,
{
    if n == 0 {
        fandoms.to_set()
    } else {
        let s = map_fandoms(fandoms, map, (n - 1) as nat);
        let f = fandoms[n - 1];
        if map.contains_key(f) {
            s.remove(f).insert(map[f])
        } else {
            s
        }
    }
}

/// The fandoms after the fandom map was applied to all of them.
pub open spec fn mapped_fandoms(fandoms: Seq<Seq<char>>, map: Map<Seq<char>, Seq<char>>) -> Set<
    Seq<char>,
> {
    map_fandoms(fandoms, map, fandoms.len())
}

/// The filter for `key` applied with its first `n` removals: `"*"` keeps
/// only `key`, a mapped fandom named in the list leaves the set.
pub open spec fn apply_removals(
    current: Set<Seq<char>>,
    mapped: Set<Seq<char>>,
    key: Seq<char>,
    removals: Seq<Seq<char>>,
    n: nat,
) -> Set<Seq<char>>
    decreases n,
{
    if n == 0 {
        current
    } else {
        let s = apply_removals(current, mapped, key, removals, (n - 1) as nat);
        let r = removals[n - 1];
        if r == "*"@ {
            set![key]
        } else if mapped.contains(r) {
            s.remove(r)
        } else {
            s
        }
    }
}

/// The first `n` filters applied in order; a filter applies when its key is
/// among the mapped fandoms and has not been filtered out.
pub open spec fn apply_filters(
    mapped: Set<Seq<char>>,
    filters: Seq<(Seq<char>, Seq<Seq<char>>)>,
    n: nat,
) -> Set<Seq<char>>
    decreases n,
{
    if n == 0 {
        mapped
    } else {
        let s = apply_filters(mapped, filters, (n - 1) as nat);
        let key = filters[n - 1].0;
        let removals = filters[n - 1].1;
        if mapped.contains(key) && s.contains(key) {
            apply_removals(s, mapped, key, removals, removals.len())
        } else {
            s
        }
    }
}

/// The fandoms left after mapping and filtering.
pub open spec fn filtered_fandoms(
    fandoms: Seq<Seq<char>>,
    map: Map<Seq<char>, Seq<char>>,
    filters: Seq<(Seq<char>, Seq<Seq<char>>)>,
) -> Set<Seq<char>> {
    apply_filters(mapped_fandoms(fandoms, map), filters, filters.len())
}

/// The single fandom a non-empty set files under: `"Multiple"` for more than one.
pub open spec fn fandom_label(s: Set<Seq<char>>) -> Seq<char> {
    if s.len() > 1 {
        "Multiple"@
    } else {
        s.choose()
    }
}

/// A copy of a set held in a vector.
fn copy_set(v: &Vec<String>) -> (r: Vec<String>)
    ensures
        views(r@) == views(v@),
{
    let mut r: Vec<String> = Vec::new();
    let mut i: usize = 0;
    while i < v.len()
        invariant
            0 <= i <= v.len(),
            views(r@) == views(v@).take(i as int),
        decreases v.len() - i,
    {
        let ghost before = r@;
        let e = v[i].clone();
        assert(e@ == v@[i as int]@);
        r.push(e);
        assert(r@ == before.push(e));
        assert(views(r@) =~= views(before).push(e@));
        assert(views(r@) =~= views(v@).take(i + 1));
        i = i + 1;
    }
    assert(views(v@).take(i as int) =~= views(v@));
    r
}

/// The fandom a work with `fandoms` is filed under, given the fandom map
/// and the filters in order; `None` where no fandom is left.
pub fn label_fandoms(
    fandoms: &Vec<String>,
    map: &FandomMap,
    filters: &Vec<(String, Vec<String>)>,
) -> (r: Option<String>)
    ensures
        ({
            let left = filtered_fandoms(views(fandoms@), map@, filter_list_view(filters@));
            &&& left.finite()
            &&& left.len() == 0 <==> r is None
            &&& r matches Some(s) ==> s@ == fandom_label(left)
        }),
{
    let ghost fs = views(fandoms@);
    let ghost fl = filter_list_view(filters@);
    let mut mapped = strset::from_vec(fandoms);
    let mut i: usize = 0;
    while i < fandoms.len()
        invariant
            0 <= i <= fandoms.len(),
            fs == views(fandoms@),
            distinct(mapped@),
            set_of(mapped@) == map_fandoms(fs, map@, i as nat),
        decreases fandoms.len() - i,
    {
        assert(fs[i as int] == fandoms@[i as int]@);
        match map.get(&fandoms[i]) {
            Some(t) => {
                strset::remove(&mut mapped, &fandoms[i]);
                strset::insert(&mut mapped, t);
            },
            None => {},
        }
        i = i + 1;
    }
    let ghost m = set_of(mapped@);
    let mut current = copy_set(&mapped);
    let mut j: usize = 0;
    while j < filters.len()
        invariant
            0 <= j <= filters.len(),
            fl == filter_list_view(filters@),
            distinct(mapped@),
            m == set_of(mapped@),
            distinct(current@),
            set_of(current@) == apply_filters(m, fl, j as nat),
        decreases filters.len() - j,
    {
        let key = &filters[j].0;
        let removals = &filters[j].1;
        assert(fl[j as int].0 == key@ && fl[j as int].1 == views(removals@));
        if strset::contains(&mapped, key) && strset::contains(&current, key) {
            let ghost before = set_of(current@);
            let mut k: usize = 0;
            while k < removals.len()
                invariant
                    0 <= k <= removals.len(),
                    distinct(mapped@),
                    m == set_of(mapped@),
                    distinct(current@),
                    set_of(current@) == apply_removals(before, m, key@, views(removals@), k as nat),
                decreases removals.len() - k,
            {
                assert(views(removals@)[k as int] == removals@[k as int]@);
                if strset::str_is(removals[k].as_str(), "*") {
                    current = vec![key.clone()];
                    proof {
                        strset::lemma_singleton(current@);
                        assert(views(current@) =~= seq![key@]);
                    }
                } else if strset::contains(&mapped, &removals[k]) {
                    strset::remove(&mut current, &removals[k]);
                }
                k = k + 1;
            }
        }
        j = j + 1;
    }
    proof {
        strset::lemma_len(current@);
        assert(fs.len() == fandoms.len());
        assert(fl.len() == filters.len());
        assert(m == mapped_fandoms(fs, map@));
        assert(set_of(current@) == filtered_fandoms(fs, map@, fl));
    }
    let n = current.len();
    if n > 1 {
        Some(text::owned("Multiple"))
    } else if n == 1 {
        proof {
            strset::lemma_singleton(current@);
        }
        Some(current[0].clone())
    } else {
        None
    }
}

/// The fandom a work with `fandoms` is filed under, under `config`.
pub fn filter_fandoms(fandoms: &Vec<String>, config: &Config) -> (r: String)
    requires
        filtered_fandoms(views(fandoms@), config.fandom_map@, config.filters()).len() > 0,
    ensures
        r@ == fandom_label(filtered_fandoms(views(fandoms@), config.fandom_map@, config.filters())),
{
    let filters = config.fandom_filter_list();
    match label_fandoms(fandoms, &config.fandom_map, &filters) {
        Some(s) => s,
        None => String::new(),
    }
}

/// `filter_fandoms` where some fandom is left; `None` where none is.
pub fn try_filter_fandoms(fandoms: &Vec<String>, config: &Config) -> (r: Option<String>)
    ensures
        ({
            let left = filtered_fandoms(views(fandoms@), config.fandom_map@, config.filters());
            &&& left.len() == 0 <==> r is None
            &&& r matches Some(s) ==> s@ == fandom_label(left)
        }),
{
    let filters = config.fandom_filter_list();
    label_fandoms(fandoms, &config.fandom_map, &filters)
}

// ---------------------------------------------------------------------------
// URLs
#[verifier::external_type_specification]
#[verifier::external_body]
pub struct ExUrlParseError(url::ParseError);

/// What `Url::parse` makes of `input`: the URL's serialization and its domain
/// (`None` where the host is no domain); `None` where it refuses the input.
pub uninterp spec fn url_parts(input: Seq<char>) -> Option<(Seq<char>, Option<Seq<char>>)>;

/// `Url::parse(input)`, the URL given back as its serialization
/// (`Url::as_str`) and its domain (`Url::domain`).
#[verifier::external_body]
fn parse_url_parts(input: &str) -> (r: Result<(String, Option<String>), url::ParseError>)
    ensures
        r is Err <==> url_parts(input@) is None,
        r matches Ok(p) ==> url_parts(input@) == Some((p.0@, opt_view(p.1))),
{
    url::Url::parse(input).map(|u| (u.as_str().to_string(), u.domain().map(|d| d.to_string())))
}

/// A parsed web address: what the server reads of it.
#[derive(Clone, Debug)]
pub struct Url {
    pub serialization: String,
    pub domain: Option<String>,
}

/// An address that does not parse as a URL.
#[derive(Clone, Copy, Debug, PartialEq, Eq, Structural)]
pub struct UrlParseError;

impl Url {
    /// Parses `input` as a URL.
    pub fn parse(input: &str) -> (r: Result<Url, UrlParseError>)
        ensures
            r is Err <==> url_parts(input@) is None,
            r matches Ok(u) ==> url_parts(input@) == Some((u.serialization@, opt_view(u.domain))),
    {
        match parse_url_parts(input) {
            Ok((serialization, domain)) => Ok(Url { serialization, domain }),
            Err(_) => Err(UrlParseError),
        }
    }

    pub fn as_str(&self) -> (s: &str)
        ensures
            s@ == self.serialization@,
    {
        self.serialization.as_str()
    }
}

/// Why a URL names no AO3 work or series.
#[derive(Clone, Debug)]
pub enum UrlError {
    NotAo3Url,
    NotWorkOrSeries(String),
    InvalidPageType(String),
    InvalidId(IntErrorKind),
    InvalidPattern(String),
}

pub open spec fn url_error_message(e: UrlError) -> Seq<char> {
    match e {
        UrlError::NotAo3Url => "Provided URL is not an AO3 URL"@,
        UrlError::NotWorkOrSeries(u) => "URL "@ + u@ + " is not for a work or series"@,
        UrlError::InvalidPageType(w) => "Invalid page type "@ + w@,
        UrlError::InvalidId(k) => text::int_error_message(k),
        UrlError::InvalidPattern(m) => m@,
    }
}

impl UrlError {
    /// The error's text.
    pub fn message(&self) -> (s: String)
        ensures
            s@ == url_error_message(*self),
    {
        match self {
            UrlError::NotAo3Url => text::owned("Provided URL is not an AO3 URL"),
            UrlError::NotWorkOrSeries(u) => {
                let mut s = text::owned("URL ");
                push_str(&mut s, u.as_str());
                push_str(&mut s, " is not for a work or series");
                s
            },
            UrlError::InvalidPageType(w) => {
                let mut s = text::owned("Invalid page type ");
                push_str(&mut s, w.as_str());
                s
            },
            UrlError::InvalidId(k) => k.message(),
            UrlError::InvalidPattern(m) => m.clone(),
        }
    }
}

/// The pattern AO3 work and series addresses follow.
pub open spec fn work_or_series_pattern() -> Seq<char> {
    "(?<type>works|series)/(?<id>\\d+)"@
}

/// The text of group `i`; empty where the group took no part.
pub open spec fn group_text(g: Seq<Option<Seq<char>>>, i: int) -> Seq<char> {
    if 0 <= i < g.len() && g[i] is Some {
        g[i]->0
    } else {
        Seq::empty()
    }
}

/// What the groups of a work-or-series match say: the page kind (group 1)
/// and the id (group 2).
pub open spec fn info_from_groups(g: Seq<Option<Seq<char>>>) -> Result<UrlInfo, UrlError> {
    match page_type_named(group_text(g, 1)) {
        None => Err(UrlError::InvalidPageType(arbitrary())),
        Some(p) => match parse_int(group_text(g, 2), i64::MIN as int, i64::MAX as int, true) {
            Err(k) => Err(UrlError::InvalidId(k)),
            Ok(v) => Ok(UrlInfo { page_type: p, id: v as i64 }),
        },
    }
}

/// The result agrees with `expected` up to the text carried by a page-type error.
pub open spec fn same_outcome(r: Result<UrlInfo, UrlError>, expected: Result<UrlInfo, UrlError>) -> bool {
    match (r, expected) {
        (Ok(a), Ok(b)) => a == b,
        (Err(UrlError::InvalidPageType(_)), Err(UrlError::InvalidPageType(_))) => true,
        (Err(UrlError::InvalidId(a)), Err(UrlError::InvalidId(b))) => a == b,
        _ => false,
    }
}

fn group_string(g: &Vec<Option<String>>, i: usize) -> (s: String)
    ensures
        s@ == group_text(groups_view(g@), i as int),
{
    if i < g.len() {
        match &g[i] {
            Some(t) => t.clone(),
            None => String::new(),
        }
    } else {
        String::new()
    }
}

/// The page a URL names, read from what the work-or-series pattern captured
/// in `url_text` (`None`: no match).
pub fn url_info_from_captures(url_text: &str, groups: Option<Vec<Option<String>>>) -> (r: Result<
    UrlInfo,
    UrlError,
>)
    ensures
        groups is None ==> (r matches Err(UrlError::NotWorkOrSeries(u)) && u@ == url_text@),
        groups matches Some(g) ==> same_outcome(r, info_from_groups(groups_view(g@))),
        groups matches Some(g) ==> (r matches Err(UrlError::InvalidPageType(w)) ==> w@ == group_text(groups_view(g@), 1)),
{
    match groups {
        None => Err(UrlError::NotWorkOrSeries(text::owned(url_text))),
        Some(g) => {
            let word = group_string(&g, 1);
            match PageType::from_path_word(word.as_str()) {
                None => Err(UrlError::InvalidPageType(word)),
                Some(page_type) => {
                    let digits = group_string(&g, 2);
                    match text::parse_i64(digits.as_str()) {
                        Err(k) => Err(UrlError::InvalidId(k)),
                        Ok(id) => Ok(UrlInfo { page_type, id }),
                    }
                },
            }
        },
    }
}

/// Reads which AO3 work or series `url` points at.
pub fn parse_url(url: &Url) -> (r: Result<UrlInfo, UrlError>)
    ensures
        url.domain is None || url.domain->0@ != "archiveofourown.org"@ ==> (r matches Err(UrlError::NotAo3Url)),
        url.domain matches Some(d) && d@ == "archiveofourown.org"@ ==> {
            &&& !regex_accepts(work_or_series_pattern()) ==> (r matches Err(UrlError::InvalidPattern(_)))
            &&& regex_accepts(work_or_series_pattern()) ==> (match regex_captures_of(work_or_series_pattern(), url.serialization@) {
                None => (r matches Err(UrlError::NotWorkOrSeries(u)) && u@ == url.serialization@),
                Some(g) => same_outcome(r, info_from_groups(g))
                    && (r matches Err(UrlError::InvalidPageType(w)) ==> w@ == group_text(g, 1)),
            })
        },
{
    let is_ao3 = match &url.domain {
        Some(d) => strset::str_is(d.as_str(), "archiveofourown.org"),
        None => false,
    };
    if !is_ao3 {
        return Err(UrlError::NotAo3Url);
    }
    match pattern::regex_captures("(?<type>works|series)/(?<id>\\d+)", url.serialization.as_str()) {
        Err(m) => Err(UrlError::InvalidPattern(m)),
        Ok(groups) => url_info_from_captures(url.serialization.as_str(), groups),
    }
}

// ---------------------------------------------------------------------------
// Fetching pages
/// The address of a work's page, or of page `page` of a series.
pub open spec fn page_url_text(id: i64, page: Option<u8>) -> Seq<char> {
    match page {
        Some(i) => "https://archiveofourown.org/series/"@ + text::signed_decimal(id as int) + "?page="@ + text::decimal(i as nat),
        None => "https://archiveofourown.org/works/"@ + text::signed_decimal(id as int),
    }
}

pub fn page_url(id: i64, page: Option<u8>) -> (s: String)
    ensures
        s@ == page_url_text(id, page),
{
    match page {
        Some(i) => {
            let mut s = text::owned("https://archiveofourown.org/series/");
            text::push_signed_decimal(&mut s, id);
            push_str(&mut s, "?page=");
            text::push_decimal(&mut s, i as u64);
            s
        },
        None => {
            let mut s = text::owned("https://archiveofourown.org/works/");
            text::push_signed_decimal(&mut s, id);
            s
        },
    }
}

/// The address AO3 sends readers of a restricted work to.
pub open spec fn restricted_url() -> Seq<char> {
    "https://archiveofourown.org/users/login?restricted=true"@
}

/// What a fetch of `url` that ended at `final_url` with HTTP status `status`
/// (written `status_text`) means: `Ok` for a page to read, else the error.
pub open spec fn response_outcome(url: Seq<char>, final_url: Seq<char>, status: u16, status_text: Seq<char>) -> Result<(), Seq<char>> {
    if final_url == restricted_url() {
        Err("Restricted Error"@)
    } else if status == 404 {
        Err("URL "@ + url + " is not a valid page"@)
    } else if status == 525 {
        Err("Cloudflare SSL Error"@)
    } else if !(200 <= status <= 299) {
        Err("Unknown HTTP error "@ + status_text)
    } else {
        Ok(())
    }
}

pub fn check_page_response(url: &str, final_url: &str, status: u16, status_text: &str) -> (r: Result<(), String>)
    ensures
        response_outcome(url@, final_url@, status, status_text@) is Ok ==> r is Ok,
        response_outcome(url@, final_url@, status, status_text@) matches Err(m) ==> (r matches Err(e) && e@ == m),
{
    if strset::str_is(final_url, "https://archiveofourown.org/users/login?restricted=true") {
        return Err(text::owned("Restricted Error"));
    }
    if status == 404 {
        let mut m = text::owned("URL ");
        push_str(&mut m, url);
        push_str(&mut m, " is not a valid page");
        return Err(m);
    }
    if status == 525 {
        return Err(text::owned("Cloudflare SSL Error"));
    }
    if !(200 <= status && status <= 299) {
        let mut m = text::owned("Unknown HTTP error ");
        push_str(&mut m, status_text);
        return Err(m);
    }
    Ok(())
}

/// The text of the first `div.errors` on a page; empty where there is none.
pub open spec fn page_error_text(document: Seq<char>) -> Seq<char> {
    if html::selector_accepted("div.errors"@) && html::selected(document, "div.errors"@).len() > 0 {
        html::selected(document, "div.errors"@)[0].1
    } else {
        Seq::empty()
    }
}

/// A fetched page of `url` is readable unless it shows an error box.
pub fn check_page(url: &str, document: &str) -> (r: Result<(), String>)
    ensures
        page_error_text(document@).len() == 0 ==> r is Ok,
        page_error_text(document@).len() > 0 ==> (r matches Err(e) && e@ == "Got error "@ + page_error_text(document@) + " while fetching "@ + url@),
{
    let error = match html::select_all(document, "div.errors") {
        Some(v) => if v.len() > 0 {
            assert(html::elements_view(v@)[0] == html::element_view(v@[0]));
            v[0].text.clone()
        } else {
            String::new()
        },
        None => String::new(),
    };
    if error.as_str().is_empty() {
        Ok(())
    } else {
        let mut m = text::owned("Got error ");
        push_str(&mut m, error.as_str());
        push_str(&mut m, " while fetching ");
        push_str(&mut m, url);
        Err(m)
    }
}

/// The part of `doc` from the first occurrence of `"Pages Navigation"` to
/// the next one, up to its first line break: where the page links are.
pub open spec fn navigation_line(doc: Seq<char>) -> Seq<char> {
    let mark = "Pages Navigation"@;
    let i = text::first_occurrence(doc, mark, 0)->0;
    let rest = doc.subrange(i + mark.len(), doc.len() as int);
    let seg = match text::first_occurrence(rest, mark, 0) {
        Some(j) => rest.subrange(0, j),
        None => rest,
    };
    match text::first_occurrence(seg, seq!['\n'], 0) {
        Some(k) => seg.subrange(0, k),
        None => seg,
    }
}

/// The pattern of a page link number in the navigation line.
pub open spec fn page_link_pattern() -> Seq<char> {
    ">\\d+<"@
}

/// How many pages series `id` has, read from its first page as fetched:
/// one without page navigation, else the number of page links.
pub open spec fn series_page_outcome(id: i64, page: Seq<char>) -> Result<int, ()> {
    let doc = html::serialized(page);
    if text::first_occurrence(doc, "Pages Navigation"@, 0) is None {
        Ok(1)
    } else if !pattern::regex_accepts(page_link_pattern()) {
        Err(())
    } else {
        let n = pattern::regex_match_count(page_link_pattern(), navigation_line(doc));
        if n <= 255 {
            Ok(n as int)
        } else {
            Err(())
        }
    }
}

fn range_string(v: &Vec<char>, from: usize, to: usize) -> (s: String)
    requires
        from <= to <= v.len(),
    ensures
        s@ == v@.subrange(from as int, to as int),
{
    text::string_from_range(v, from, to)
}

pub fn series_page_count(id: i64, first_page: &str) -> (r: Result<u8, String>)
    ensures
        series_page_outcome(id, first_page@) matches Ok(n) ==> (r matches Ok(c) && c as int == n),
        series_page_outcome(id, first_page@) is Err ==> r is Err,
{
    let doc = html::serialize(first_page);
    let v = text::chars_of(doc.as_str());
    let mark = text::chars_of("Pages Navigation");
    let i = match text::find_from(&v, &mark, 0) {
        None => {
            return Ok(1);
        },
        Some(i) => i,
    };
    assert(text::occurs_at(v@, mark@, i as int));
    assert(i + mark@.len() <= v@.len());
    let ml = mark.len();
    let vl = v.len();
    assert(i + ml <= vl);
    let after = range_string(&v, i + ml, vl);
    let rest = text::chars_of(after.as_str());
    let seg_end = match text::find_from(&rest, &mark, 0) {
        Some(j) => j,
        None => rest.len(),
    };
    let seg = range_string(&rest, 0, seg_end);
    let segv = text::chars_of(seg.as_str());
    let nl = vec!['\n'];
    assert(nl@ =~= seq!['\n']);
    let line_end = match text::find_from(&segv, &nl, 0) {
        Some(k) => k,
        None => segv.len(),
    };
    let line = range_string(&segv, 0, line_end);
    proof {
        let m = "Pages Navigation"@;
        assert(mark@ == m);
        assert(v@ == doc@);
        assert(rest@ == doc@.subrange(i + m.len(), doc@.len() as int));
        assert(seg@ == match text::first_occurrence(rest@, m, 0) {
            Some(j) => rest@.subrange(0, j),
            None => rest@,
        });
        assert(segv@ == seg@);
        assert(line@ == navigation_line(doc@));
    }
    let n = match pattern::regex_count(">\\d+<", line.as_str()) {
        Ok(n) => n,
        Err(m) => {
            return Err(m);
        },
    };
    if n <= 255 {
        Ok(n as u8)
    } else {
        let mut m = text::owned("Failed to parse num of pages for series ");
        text::push_signed_decimal(&mut m, id);
        Err(m)
    }
}

} // verus!
