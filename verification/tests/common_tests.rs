use a2o4::common::{filter_fandoms, parse_url, PageType, Url, UrlInfo};
use a2o4::config::{Config, FandomMap};
use indexmap::IndexMap;

fn big_boy_map() -> FandomMap {
    FandomMap::from_pairs(vec![
        ("Fandom 1 the big boy".to_owned(), "Fandom 1".to_owned()),
        ("Fandom 1 TBB".to_owned(), "Fandom 1".to_owned()),
        (
            "Fandom 2 the big boy returns".to_owned(),
            "Fandom 2".to_owned(),
        ),
    ])
}

#[test]
fn parse_valid_work_url() {
    assert_eq!(
        parse_url(&Url::parse("https://archiveofourown.org/works/123456").unwrap()).unwrap(),
        UrlInfo {
            page_type: PageType::Work,
            id: 123456
        }
    );
}

#[test]
fn parse_series_url() {
    assert_eq!(
        parse_url(&Url::parse("https://archiveofourown.org/series/123456").unwrap()).unwrap(),
        UrlInfo {
            page_type: PageType::Series,
            id: 123456
        }
    );
}

#[test]
fn parse_work_in_collection_url() {
    assert_eq!(
        parse_url(&Url::parse("https://archiveofourown.org/collections/aaaaa/works/654321").unwrap())
            .unwrap(),
        UrlInfo {
            page_type: PageType::Work,
            id: 654321
        }
    );
}

#[test]
fn error_on_non_ao3_url() {
    assert_eq!(
        parse_url(&Url::parse("https://google.com").unwrap())
            .unwrap_err()
            .message(),
        "Provided URL is not an AO3 URL"
    );
}

#[test]
fn error_on_invalid_ao3_url() {
    assert_eq!(
        parse_url(&Url::parse("https://archiveofourown.org/users/bob").unwrap())
            .unwrap_err()
            .message(),
        "URL https://archiveofourown.org/users/bob is not for a work or series"
    );
}

#[test]
fn map() {
    let config = Config {
        fandom_map: big_boy_map(),
        ..Config::default()
    };

    assert_eq!(
        filter_fandoms(
            &vec!["Fandom 1 the big boy".to_owned(), "Fandom 1 TBB".to_owned()],
            &config
        ),
        "Fandom 1"
    );
}

#[test]
fn map_lets_unmatched_fandoms_through() {
    let config = Config {
        fandom_map: big_boy_map(),
        ..Config::default()
    };

    assert_eq!(
        filter_fandoms(
            &vec!["Fandom 4 how is big boy possibly back once again".to_owned()],
            &config
        ),
        "Fandom 4 how is big boy possibly back once again"
    );
}

#[test]
fn map_removes_all() {
    let config = Config {
        fandom_map: big_boy_map(),
        fandom_filter: IndexMap::from([("Fandom 1".to_owned(), vec!["*".to_owned()])]),
        ..Config::default()
    };

    assert_eq!(
        filter_fandoms(
            &vec![
                "Fandom 1".to_owned(),
                "Fandom 2".to_owned(),
                "Fandom 3".to_owned(),
                "Fandom 4".to_owned(),
            ],
            &config
        ),
        "Fandom 1"
    );
}

#[test]
fn map_applies_in_order() {
    let config = Config {
        fandom_map: big_boy_map(),
        fandom_filter: IndexMap::from([
            ("Fandom 1".to_owned(), vec!["Fandom 2".to_owned()]),
            ("Fandom 2".to_owned(), vec!["Fandom 1".to_owned()]),
        ]),
        ..Config::default()
    };

    assert_eq!(
        filter_fandoms(
            &vec!["Fandom 1".to_owned(), "Fandom 2".to_owned(),],
            &config
        ),
        "Fandom 1"
    );
}

#[test]
fn filter() {
    let config = Config {
        fandom_filter: IndexMap::from([
            ("Fandom 1".to_owned(), vec!["Fandom 2".to_owned()]),
            ("Fandom 2".to_owned(), vec!["Fandom 3".to_owned()]),
        ]),
        ..Config::default()
    };

    assert_eq!(
        filter_fandoms(&vec!["Fandom 1".to_owned(), "Fandom 2".to_owned()], &config),
        "Fandom 1"
    );
}

#[test]
fn map_and_filter() {
    let config = Config {
        fandom_map: big_boy_map(),
        fandom_filter: IndexMap::from([
            ("Fandom 1".to_owned(), vec!["Fandom 2".to_owned()]),
            ("Fandom 2".to_owned(), vec!["Fandom 3".to_owned()]),
        ]),
        ..Config::default()
    };

    assert_eq!(
        filter_fandoms(
            &vec![
                "Fandom 1 the big boy".to_owned(),
                "Fandom 1 TBB".to_owned(),
                "Fandom 2 the big boy returns".to_owned()
            ],
            &config
        ),
        "Fandom 1"
    );
}
