use a2o4::common::{
    filter_fandoms, page_url, parse_url, sanitise_string, try_filter_fandoms, url_info_from_captures, DownloadFormat,
    PageType, UploadError, Url, UrlError, UrlInfo,
};
use a2o4::config::{Config, FandomMap};
use a2o4::text::IntErrorKind;
use indexmap::IndexMap;

fn strings(v: &[&str]) -> Vec<String> {
    v.iter().map(|s| s.to_string()).collect()
}

fn config_with(map: Vec<(&str, &str)>, filters: Vec<(&str, Vec<&str>)>) -> Config {
    let mut fandom_filter = IndexMap::new();
    for (k, rs) in filters {
        fandom_filter.insert(k.to_owned(), strings(&rs));
    }
    Config {
        fandom_map: FandomMap::from_pairs(map.into_iter().map(|(a, b)| (a.to_owned(), b.to_owned())).collect()),
        fandom_filter,
        ..Config::default()
    }
}

#[test]
fn unmapped_fandom_passes_through_alone() {
    let config = config_with(vec![("A long", "A")], vec![]);
    assert_eq!(filter_fandoms(&strings(&["B"]), &config), "B");
}

#[test]
fn two_fandoms_left_file_under_multiple() {
    let config = Config::default();
    assert_eq!(filter_fandoms(&strings(&["A", "B"]), &config), "Multiple");
    assert_eq!(filter_fandoms(&strings(&["A", "A"]), &config), "A");
}

#[test]
fn map_renames_each_fandom() {
    let config = config_with(vec![("A long", "A"), ("B long", "B")], vec![]);
    assert_eq!(filter_fandoms(&strings(&["A long", "A"]), &config), "A");
    assert_eq!(filter_fandoms(&strings(&["A long", "B long"]), &config), "Multiple");
}

#[test]
fn wildcard_filter_keeps_its_key() {
    let config = config_with(vec![], vec![("A", vec!["*"])]);
    assert_eq!(filter_fandoms(&strings(&["A", "B", "C"]), &config), "A");
    let absent = config_with(vec![], vec![("Z", vec!["*"])]);
    assert_eq!(filter_fandoms(&strings(&["A", "B"]), &absent), "Multiple");
}

#[test]
fn filter_of_a_removed_fandom_does_nothing() {
    let config = config_with(vec![], vec![("A", vec!["B"]), ("B", vec!["A"])]);
    assert_eq!(filter_fandoms(&strings(&["A", "B"]), &config), "A");
}

#[test]
fn nothing_left_gives_none() {
    let config = config_with(vec![], vec![("A", vec!["A"])]);
    assert_eq!(try_filter_fandoms(&strings(&["A"]), &config), None);
    assert_eq!(try_filter_fandoms(&strings(&[]), &Config::default()), None);
    assert_eq!(try_filter_fandoms(&strings(&["A"]), &Config::default()), Some("A".to_owned()));
}

#[test]
fn filters_are_read_in_their_order() {
    let config = config_with(vec![], vec![("B", vec!["x"]), ("A", vec!["y", "z"])]);
    let list = config.fandom_filter_list();
    assert_eq!(
        list,
        vec![("B".to_owned(), strings(&["x"])), ("A".to_owned(), strings(&["y", "z"]))]
    );
    assert!(Config::default().fandom_filter_list().is_empty());
}

#[test]
fn fandom_map_reads_back_what_was_written() {
    let mut m = FandomMap::new();
    m.insert("a".to_owned(), "1".to_owned());
    m.insert("b".to_owned(), "2".to_owned());
    m.insert("a".to_owned(), "3".to_owned());
    assert_eq!(m.get(&"a".to_owned()), Some(&"3".to_owned()));
    assert_eq!(m.get(&"b".to_owned()), Some(&"2".to_owned()));
    assert_eq!(m.get(&"c".to_owned()), None);
    let p = FandomMap::from_pairs(vec![("k".to_owned(), "v".to_owned()), ("k".to_owned(), "w".to_owned())]);
    assert_eq!(p.get(&"k".to_owned()), Some(&"w".to_owned()));
}

#[test]
fn sanitises_titles() {
    assert_eq!(sanitise_string("  What?! A: \"Title\"  "), "What A Title");
    assert_eq!(sanitise_string("Plain"), "Plain");
    assert_eq!(sanitise_string("a !"), "a ");
    assert_eq!(sanitise_string(""), "");
}

#[test]
fn formats_have_names_and_extensions() {
    assert_eq!(DownloadFormat::default(), DownloadFormat::Epub);
    assert_eq!(DownloadFormat::all().len(), 5);
    for f in DownloadFormat::all() {
        assert_eq!(DownloadFormat::from_name(&f.name()), Some(f));
        assert_eq!(f.extension(), f.name().to_lowercase());
    }
    assert_eq!(DownloadFormat::from_name("EPUB"), None);
    assert_eq!(PageType::from_path_word("works"), Some(PageType::Work));
    assert_eq!(PageType::from_path_word("series"), Some(PageType::Series));
    assert_eq!(PageType::from_path_word("users"), None);
    assert_eq!(PageType::Work.label(), "work");
    assert_eq!(PageType::Series.label(), "series");
}

#[test]
fn upload_error_answer_lists_successes() {
    let e = UploadError { successes: strings(&["kobo", "kindle"]), failure: "boom".to_owned() };
    assert_eq!(e.to_response_string(), "'boom'\nSuccessfully uploaded to device(s) 'kobo, kindle'");
    let none = UploadError { successes: vec![], failure: "x".to_owned() };
    assert_eq!(none.to_response_string(), "'x'\nSuccessfully uploaded to device(s) ''");
}

#[test]
fn url_parse_gives_serialization_and_domain() {
    let u = Url::parse("https://ArchiveOfOurOwn.org/works/1?view=full").unwrap();
    assert_eq!(u.as_str(), "https://archiveofourown.org/works/1?view=full");
    assert_eq!(u.domain.as_deref(), Some("archiveofourown.org"));
    let ip = Url::parse("http://127.0.0.1/works/1").unwrap();
    assert_eq!(ip.domain, None);
    assert!(Url::parse("not a url").is_err());
}

#[test]
fn url_errors() {
    let ip = Url::parse("http://127.0.0.1/works/1").unwrap();
    assert_eq!(parse_url(&ip).unwrap_err().message(), "Provided URL is not an AO3 URL");
    let big = Url::parse("https://archiveofourown.org/works/99999999999999999999").unwrap();
    match parse_url(&big) {
        Err(UrlError::InvalidId(k)) => assert_eq!(k, IntErrorKind::PosOverflow),
        _ => panic!("expected an invalid id"),
    }
    assert_eq!(
        parse_url(&big).unwrap_err().message(),
        "number too large to fit in target type"
    );
    let odd = url_info_from_captures("u", Some(vec![Some("x".to_owned()), Some("users".to_owned()), Some("1".to_owned())]));
    assert_eq!(odd.unwrap_err().message(), "Invalid page type users");
    assert_eq!(url_info_from_captures("u", None).unwrap_err().message(), "URL u is not for a work or series");
}

#[test]
fn page_addresses_read_back() {
    let w = page_url(123456, None);
    assert_eq!(w, "https://archiveofourown.org/works/123456");
    assert_eq!(
        parse_url(&Url::parse(&w).unwrap()).unwrap(),
        UrlInfo { page_type: PageType::Work, id: 123456 }
    );
    let s = page_url(42, Some(3));
    assert_eq!(s, "https://archiveofourown.org/series/42?page=3");
    assert_eq!(
        parse_url(&Url::parse(&s).unwrap()).unwrap(),
        UrlInfo { page_type: PageType::Series, id: 42 }
    );
}
