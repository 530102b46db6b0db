use a2o4::common::{check_page, check_page_response, series_page_count, DownloadFormat};
use a2o4::config::{Config, FandomMap};
use a2o4::domain::series::Series;
use a2o4::domain::work::{check_download_status, SeriesLink, Work};
use a2o4::domain::user::login_token;
use a2o4::html::{select_or, select_texts_or, select_texts_within_or, select_within_or, HtmlNode};
use a2o4::routes::metadata::{last_piece_id_of, meta, parse_series_tag, read_epub_pages};

fn big_boy_config() -> Config {
    Config {
        fandom_map: FandomMap::from_pairs(vec![("Fandom 1 TBB".to_owned(), "Fandom 1".to_owned())]),
        ..Config::default()
    }
}

const WORK_PAGE: &str = r#"<html><body>
<h2 class="title heading">
  A Title?
</h2>
<h3 class="byline heading"><a rel="author" href="/users/x">Writer</a></h3>
<ul><li class="download"><ul>
<li><a href="/downloads/5/A_Title.epub?updated_at=1">Epub</a></li>
<li><a href="/downloads/5/A_Title.pdf">Pdf</a></li>
</ul></li></ul>
<dl>
<dd class="fandom tags"><ul><li><a class="tag">Fandom 1 TBB</a></li></ul></dd>
<dd class="relationship tags"><ul><li><a class="tag">A/B</a></li></ul></dd>
<dd class="character tags"><ul><li><a class="tag">A</a></li><li><a class="tag">B</a></li></ul></dd>
<dd class="freeform tags"><ul><li><a class="tag">Fluff</a></li></ul></dd>
<dd class="series"><span class="series"><span class="position">Part 2 of <a href="/series/77">The Big series</a></span></span></dd>
</dl>
</body></html>"#;

#[test]
fn reads_a_work_page() {
    let w = Work::parse_work_document(5, WORK_PAGE, &big_boy_config(), None).unwrap();
    assert_eq!(w.id, 5);
    assert_eq!(w.title, "A Title");
    assert_eq!(w.authors, vec!["Writer"]);
    assert_eq!(
        w.download_links.get(DownloadFormat::Epub),
        Some(&"https://archiveofourown.org/downloads/5/A_Title.epub?updated_at=1".to_owned())
    );
    assert_eq!(
        w.download_links.get(DownloadFormat::Pdf),
        Some(&"https://archiveofourown.org/downloads/5/A_Title.pdf".to_owned())
    );
    assert_eq!(w.download_links.get(DownloadFormat::Mobi), None);
    assert_eq!(w.fandoms, vec!["Fandom 1 TBB"]);
    assert_eq!(w.filtered_fandom, "Fandom 1");
    assert_eq!(w.relationships, vec!["A/B"]);
    assert_eq!(w.characters, vec!["A", "B"]);
    assert_eq!(w.additional_tags, vec!["Fluff"]);
    assert_eq!(
        w.get_series_link(77),
        Some(&SeriesLink { series_id: 77, series_title: "The Big".to_owned(), part_in_series: 2 })
    );
    assert_eq!(w.series.len(), 1);
    assert_eq!(w.get_filename(DownloadFormat::Epub, Some(77)), "2 - A Title.epub");
    assert_eq!(w.get_filename(DownloadFormat::Pdf, None), "A Title.pdf");
    assert_eq!(w.get_filename(DownloadFormat::Pdf, Some(1)), "A Title.pdf");
}

#[test]
fn work_page_fandom_override_wins() {
    let w = Work::parse_work_document(5, WORK_PAGE, &big_boy_config(), Some("Mine".to_owned())).unwrap();
    assert_eq!(w.filtered_fandom, "Mine");
}

#[test]
fn work_page_errors() {
    let untitled = Work::parse_work_document(9, "<html><body><p>nothing</p></body></html>", &Config::default(), None);
    assert_eq!(untitled.unwrap_err(), "Could not find title for work 9");
    let bad_download = WORK_PAGE.replace(">Pdf<", ">PDF<");
    assert_eq!(
        Work::parse_work_document(5, &bad_download, &Config::default(), None).unwrap_err(),
        "Could not read work 5 from its page"
    );
    let no_fandom = WORK_PAGE.replace(r#"<dd class="fandom tags"><ul><li><a class="tag">Fandom 1 TBB</a></li></ul></dd>"#, "");
    assert_eq!(
        Work::parse_work_document(5, &no_fandom, &Config::default(), None).unwrap_err(),
        "No fandom left after filtering for work 5"
    );
}

#[test]
fn anonymous_byline_is_the_author() {
    let page = WORK_PAGE.replace(
        r#"<h3 class="byline heading"><a rel="author" href="/users/x">Writer</a></h3>"#,
        r#"<h3 class="byline heading">Anonymous</h3>"#,
    );
    let w = Work::parse_work_document(5, &page, &Config::default(), None).unwrap();
    assert_eq!(w.authors, vec!["Anonymous"]);
}

const SERIES_PAGE: &str = r#"<html><body>
<h2 class="heading">  The Big series </h2>
<dl class="series meta group">
<dt>Creator:</dt><dd><a href="/users/bob">bob</a></dd>
<dt>Series Begun:</dt><dd>2020-01-01</dd>
<dt>Series Updated:</dt><dd>2021-02-02</dd>
<dt>Description:</dt><dd><blockquote class="userstuff"><p>About it.</p></blockquote></dd>
<dt>Stats:</dt><dd><dl class="stats"><dt>Words:</dt><dd class="words">1,234</dd><dt>Works:</dt><dd class="works">2</dd><dt>Complete:</dt><dd>Yes</dd><dt>Bookmarks:</dt><dd class="bookmarks"><a href="/b"> 5 </a></dd></dl></dd>
</dl>
<ul class="series work index group">
<li class="work blurb group" id="work_11">
<div class="header module"><h4 class="heading"><a href="/works/11">First!</a> by <a rel="author" href="/users/bob">bob</a></h4>
<h5 class="fandoms heading"><a class="tag">Fandom 1 TBB</a></h5></div>
<ul class="tags commas"><li class="relationships"><a class="tag">A/B</a></li><li class="characters"><a class="tag">A</a></li><li class="freeforms"><a class="tag">Fluff</a></li></ul>
<ul class="series"><li>Part <strong>1</strong> of <a href="/series/77">The Big</a></li></ul>
</li>
<li class="work blurb group" id="work_12">
<div class="header module"><h4 class="heading"><a href="/works/12">Second</a></h4>
<h5 class="fandoms heading"><a class="tag">Fandom 2</a></h5></div>
<ul class="series"><li>Part <strong>2</strong> of <a href="/series/77">The Big</a></li></ul>
</li>
</ul>
</body></html>"#;

#[test]
fn reads_a_series_page() {
    let pages = vec![SERIES_PAGE.to_owned()];
    let s = Series::parse_series_pages(77, &pages, &big_boy_config()).unwrap();
    assert_eq!(s.id, 77);
    assert_eq!(s.title, "The Big");
    assert_eq!(s.creators, vec!["bob"]);
    assert_eq!(s.begun, "2020-01-01");
    assert_eq!(s.updated, "2021-02-02");
    assert_eq!(s.description, "About it.");
    assert_eq!(s.num_words, 1234);
    assert_eq!(s.num_works, 2);
    assert!(s.is_completed);
    assert_eq!(s.num_bookmarks, 5);
    assert_eq!(s.works.len(), 2);
    assert_eq!(s.fandoms, vec!["Fandom 1 TBB", "Fandom 2"]);
    assert_eq!(s.filtered_fandom, "Multiple");
    let first = &s.works[0];
    assert_eq!(first.id, 11);
    assert_eq!(first.title, "First");
    assert_eq!(first.authors, vec!["bob"]);
    assert_eq!(first.filtered_fandom, "Fandom 1");
    assert_eq!(first.relationships, vec!["A/B"]);
    assert_eq!(
        first.get_series_link(77),
        Some(&SeriesLink { series_id: 77, series_title: "The Big".to_owned(), part_in_series: 1 })
    );
    assert_eq!(
        first.download_links.get(DownloadFormat::Mobi),
        Some(&"https://download.archiveofourown.org/downloads/11/work.mobi".to_owned())
    );
    let second = &s.works[1];
    assert_eq!(second.id, 12);
    assert_eq!(second.authors, vec!["Anonymous"]);
    assert_eq!(second.filtered_fandom, "Fandom 2");
    assert_eq!(second.get_series_link(77).unwrap().part_in_series, 2);
    assert_eq!(second.get_filename(DownloadFormat::Epub, Some(77)), "2 - Second.epub");
}

#[test]
fn series_page_errors() {
    let pages = vec!["<html><body></body></html>".to_owned()];
    assert_eq!(
        Series::parse_series_pages(3, &pages, &Config::default()).unwrap_err(),
        "Could not read series 3 from its page"
    );
    let bad_count = vec![SERIES_PAGE.replace("1,234", "lots")];
    assert_eq!(
        Series::parse_series_pages(3, &bad_count, &Config::default()).unwrap_err(),
        "Could not read series 3 from its page"
    );
}

#[test]
fn blurb_errors() {
    let page = SERIES_PAGE.replace(r#"<a href="/works/12">"#, r#"<a href="/works/x12">"#);
    let pages = vec![page];
    assert_eq!(
        Series::parse_series_pages(3, &pages, &Config::default()).unwrap_err(),
        "Could not parse work id into i64"
    );
    assert_eq!(Work::parse_work_from_blurb(SERIES_PAGE, 5, "x", &Config::default()).is_err(), true);
    let w = Work::parse_work_from_blurb(SERIES_PAGE, 1, "The Big", &Config::default()).unwrap();
    assert_eq!(w.id, 12);
    let missing_part = SERIES_PAGE.replace("<strong>2</strong>", "");
    assert_eq!(
        Work::parse_work_from_blurb(&missing_part, 1, "The Big", &Config::default()).unwrap_err(),
        "Could not read the series of work 12 from its blurb"
    );
}

#[test]
fn page_count_reads_navigation() {
    assert_eq!(series_page_count(1, SERIES_PAGE), Ok(1));
    let nav = r#"<html><body><h4 class="landmark heading">Pages Navigation</h4><ol><li><a href="?page=1">1</a></li><li><a href="?page=2">2</a></li><li><a href="?page=3">3</a></li></ol>
</body></html>"#;
    let doc = scraper::Html::parse_document(nav).html();
    let expected = doc.split("Pages Navigation").nth(1).unwrap().split('\n').next().unwrap();
    let expected = regex::Regex::new(r">\d+<").unwrap().captures_iter(expected).count();
    assert_eq!(expected, 3);
    assert_eq!(series_page_count(1, nav), Ok(3));
}

#[test]
fn page_responses() {
    let u = "https://archiveofourown.org/works/1";
    assert_eq!(check_page_response(u, u, 200, "200 OK"), Ok(()));
    assert_eq!(
        check_page_response(u, "https://archiveofourown.org/users/login?restricted=true", 200, "200 OK"),
        Err("Restricted Error".to_owned())
    );
    assert_eq!(
        check_page_response(u, u, 404, "404 Not Found"),
        Err("URL https://archiveofourown.org/works/1 is not a valid page".to_owned())
    );
    assert_eq!(check_page_response(u, u, 525, "525 <unknown status code>"), Err("Cloudflare SSL Error".to_owned()));
    assert_eq!(
        check_page_response(u, u, 503, "503 Service Unavailable"),
        Err("Unknown HTTP error 503 Service Unavailable".to_owned())
    );
    assert_eq!(check_page(u, WORK_PAGE), Ok(()));
    assert_eq!(
        check_page(u, r#"<div class="errors">Gone</div>"#),
        Err("Got error Gone while fetching https://archiveofourown.org/works/1".to_owned())
    );
}

#[test]
fn download_statuses() {
    assert_eq!(check_download_status("T", 200, "r"), Ok(()));
    assert_eq!(check_download_status("T", 525, "r"), Err("SSL error trying to download work T: r".to_owned()));
    assert_eq!(check_download_status("T", 500, "r"), Err("Unknown error trying to download work T: r".to_owned()));
}

#[test]
fn selection_wrappers_select() {
    let v = select_or(WORK_PAGE, "dd.character.tags>ul>li>a", "bad").unwrap();
    assert_eq!(v.len(), 2);
    assert_eq!(v[0].name, "a");
    assert_eq!(v[0].text, "A");
    assert_eq!(v[1].text, "B");
    assert_eq!(select_or(WORK_PAGE, "[[", "bad selector").unwrap_err(), "bad selector");
    assert_eq!(select_texts_or(WORK_PAGE, "dd.freeform.tags a", "bad").unwrap(), vec!["Fluff"]);
    let inner = select_within_or(SERIES_PAGE, "li.work.blurb", 0, "h4.heading>a", "bad").unwrap();
    assert_eq!(inner.len(), 2);
    assert_eq!(inner[0].href.as_deref(), Some("/works/11"));
    assert_eq!(select_within_or(SERIES_PAGE, "li.work.blurb", 2, "a", "no blurb").unwrap_err(), "no blurb");
    assert_eq!(
        select_texts_within_or(SERIES_PAGE, "li.work.blurb", 1, "h5.fandoms.heading>a.tag", "bad").unwrap(),
        vec!["Fandom 2"]
    );
    let pages = read_epub_pages(EPUB_FIRST, EPUB_SECOND).unwrap();
    assert_eq!(pages.tag_types.len(), 7);
    assert_eq!(pages.tag_lists[2], vec!["A/B", "C/D"]);
    let series_kids = &pages.tag_children[5];
    assert_eq!(series_kids.len(), 4);
    assert!(matches!(&series_kids[0], HtmlNode::Text(t) if t == "Part 2 of "));
    assert!(matches!(&series_kids[1], HtmlNode::Element(e) if e.name == "a" && e.text == "The Big"));
    assert_eq!(pages.bylines, vec!["Author"]);
}

#[test]
fn pattern_wrappers_match() {
    assert_eq!(login_token(r#"<form id="new_user"><input name="authenticity_token" value="abc" /></form>"#), Some("abc".to_owned()));
    assert_eq!(login_token("nothing here"), None);
}

const EPUB_FIRST: &str = r#"<html><body>
<p class="message"><b>The Title</b> was downloaded from <a href="http://archiveofourown.org/">Archive of Our Own</a> at <a href="http://archiveofourown.org/works/123">http://archiveofourown.org/works/123</a>.</p>
<dl class="tags">
<dt>Rating:</dt><dd><a href="r">Teen</a></dd>
<dt>Fandom:</dt><dd><a href="f">Fandom 1 TBB</a></dd>
<dt>Relationships:</dt><dd><a href="r1">A/B</a>, <a href="r2">C/D</a></dd>
<dt>Characters:</dt><dd><a href="c">A</a></dd>
<dt>Additional Tags:</dt><dd><a href="t">Fluff</a></dd>
<dt>Series:</dt><dd>Part 2 of <a href="http://archiveofourown.org/series/77">The Big</a>, Part 5 of <a href="http://archiveofourown.org/series/88">Other</a></dd>
<dt>Stats:</dt><dd>Words: 10</dd>
</dl>
</body></html>"#;

const EPUB_SECOND: &str = r#"<html><body><div class="meta"><h1>The Title</h1><div class="byline">by <a rel="author" href="u">Author</a></div></div></body></html>"#;

#[test]
fn reads_the_first_pages_of_an_epub() {
    let w = meta(EPUB_FIRST, EPUB_SECOND, &big_boy_config()).unwrap();
    assert_eq!(w.id, 123);
    assert_eq!(w.title, "The Title");
    assert_eq!(w.authors, vec!["Author"]);
    assert_eq!(w.fandoms, vec!["Fandom 1 TBB"]);
    assert_eq!(w.filtered_fandom, "Fandom 1");
    assert_eq!(w.relationships, vec!["A/B", "C/D"]);
    assert_eq!(w.characters, vec!["A"]);
    assert_eq!(w.additional_tags, vec!["Fluff"]);
    assert_eq!(w.download_links.get(DownloadFormat::Epub), None);
    assert_eq!(w.series.len(), 2);
    assert_eq!(
        w.get_series_link(77),
        Some(&SeriesLink { series_id: 77, series_title: "The Big".to_owned(), part_in_series: 2 })
    );
    assert_eq!(w.get_series_link(88).unwrap().part_in_series, 5);
}

#[test]
fn epub_errors() {
    let no_link = EPUB_FIRST.replace("http://archiveofourown.org/works/123</a>", "</a>");
    assert_eq!(
        meta(&no_link, EPUB_SECOND, &Config::default()).unwrap_err(),
        "Could not read the work from its EPUB pages"
    );
    let bad_kind = EPUB_FIRST.replace("<dt>Fandom:</dt>", "<dt>Fandom</dt>");
    assert_eq!(
        meta(&bad_kind, EPUB_SECOND, &Config::default()).unwrap_err(),
        "Could not read the work from its EPUB pages"
    );
    let bad_series = EPUB_FIRST.replace("series/88", "series/x");
    assert!(meta(&bad_series, EPUB_SECOND, &Config::default()).is_err());
    let no_fandom = EPUB_FIRST.replace("<dt>Fandom:</dt><dd><a href=\"f\">Fandom 1 TBB</a></dd>", "");
    assert_eq!(
        meta(&no_fandom, EPUB_SECOND, &Config::default()).unwrap_err(),
        "No fandom left after filtering"
    );
}

#[test]
fn series_tag_children_set_parts() {
    let pages = read_epub_pages(EPUB_FIRST, EPUB_SECOND).unwrap();
    let m = parse_series_tag(&pages.tag_children[5]);
    assert_eq!(m.len(), 2);
    assert_eq!(m[&88].series_title, "Other");
    assert_eq!(last_piece_id_of("http://x/series/9"), Some(9));
    assert_eq!(last_piece_id_of("http://x/series/"), None);
}

#[test]
fn series_owes_a_result_when_fandoms_are_left() {
    let page = SERIES_PAGE.replace(
        r#"<h5 class="fandoms heading"><a class="tag">Fandom 1 TBB</a></h5>"#,
        r#"<h5 class="fandoms heading"><a class="tag">Fandom 1 TBB</a><a class="tag">Fandom 3</a></h5>"#,
    );
    let pages = vec![page.clone()];
    let all_filtered = Config {
        fandom_filter: {
            let mut m = indexmap::IndexMap::new();
            m.insert("Fandom 2".to_owned(), vec!["Fandom 1 TBB".to_owned()]);
            m.insert("Fandom 3".to_owned(), vec!["Fandom 2".to_owned(), "Fandom 3".to_owned()]);
            m
        },
        ..Config::default()
    };
    assert_eq!(Work::parse_work_from_blurb(&page, 0, "The Big", &all_filtered).unwrap().filtered_fandom, "Fandom 1 TBB");
    assert_eq!(Work::parse_work_from_blurb(&page, 1, "The Big", &all_filtered).unwrap().filtered_fandom, "Fandom 2");
    assert_eq!(
        Series::parse_series_pages(77, &pages, &all_filtered).unwrap_err(),
        "No fandom left after filtering for series 77"
    );
    let s = Series::parse_series_pages(77, &pages, &Config::default()).unwrap();
    assert_eq!(s.fandoms, vec!["Fandom 1 TBB", "Fandom 3", "Fandom 2"]);
    assert_eq!(s.filtered_fandom, "Multiple");
}

#[test]
fn fandom_order_does_not_matter() {
    let config = big_boy_config();
    let a = vec!["Fandom 2".to_owned(), "Fandom 1 TBB".to_owned(), "Fandom 2".to_owned()];
    let b = vec!["Fandom 1 TBB".to_owned(), "Fandom 2".to_owned()];
    assert_eq!(a2o4::common::filter_fandoms(&a, &config), a2o4::common::filter_fandoms(&b, &config));
    assert_eq!(a2o4::common::try_filter_fandoms(&vec![], &config), None);
}
