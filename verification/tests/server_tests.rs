use a2o4::clients::client::{
    folder_reply, folder_requests, generate_remote_path, local_file_path, push_path, read_reply, start_message,
    FolderReply, UploadReply, UploadRun,
};
use a2o4::common::{DownloadFormat, PageType, UrlInfo};
use a2o4::config::{client_from_name, Clients, Config, Crosspoint, Device};
use a2o4::config::FandomMap;
use a2o4::db::{links_by_series, queue_kind, series_link_rows, split_queue, tag_rows};
use a2o4::domain::work::SeriesLink;
use a2o4::domain::series::Series;
use a2o4::domain::tag::{TagType, Tags};
use a2o4::domain::user::{get_credentials, login_token, user_error_message};
use a2o4::domain::work::Work;
use a2o4::routes::devices;
use a2o4::routes::download::{
    download_message, first_download_action, next_download_action, plan_download, request_url_info,
    resolve_download_request, DownloadAction,
    DownloadRequest, DownloadStep, RawDownloadRequest,
};

fn strings(v: &[&str]) -> Vec<String> {
    v.iter().map(|s| s.to_string()).collect()
}

fn device(name: &str) -> Device {
    Device {
        name: name.to_owned(),
        ip: "10.0.0.2".to_owned(),
        port: 81,
        username: String::new(),
        password: String::new(),
        download_folder: "/books".to_owned(),
        uses_koreader: None,
        client: Clients::Crosspoint(Crosspoint {}),
    }
}

fn config_with_devices() -> Config {
    Config { devices: vec![device("kobo"), device("kindle"), device("kobo")], ..Config::default() }
}

fn raw(upload: Option<&[&str]>, queue: Option<&[&str]>) -> RawDownloadRequest {
    RawDownloadRequest {
        url: "https://archiveofourown.org/works/5".to_owned(),
        devices_to_upload_to: upload.map(strings),
        devices_to_queue: queue.map(strings),
        fandom_override: None,
        format: None,
    }
}

#[test]
fn requests_must_name_devices_once() {
    assert_eq!(
        DownloadRequest::try_from(raw(None, None)).err(),
        Some("Must supply device(s) to upload to and/or to queue an upload for")
    );
    assert_eq!(
        DownloadRequest::try_from(raw(Some(&["a", "b"]), Some(&["c", "b"]))).err(),
        Some("Must not have the same device in the upload and queue lists")
    );
    let ok = DownloadRequest::try_from(raw(Some(&["a"]), Some(&["c"]))).ok().unwrap();
    assert_eq!(ok.devices_to_upload_to, Some(strings(&["a"])));
    assert_eq!(ok.devices_to_queue, Some(strings(&["c"])));
    assert!(DownloadRequest::try_from(raw(None, Some(&[]))).is_ok());
    assert!(DownloadRequest::try_from(raw(Some(&[]), None)).is_ok());
}

#[test]
fn request_addresses() {
    assert_eq!(
        request_url_info("https://archiveofourown.org/works/5"),
        Ok(UrlInfo { page_type: PageType::Work, id: 5 })
    );
    assert_eq!(request_url_info("not a url"), Err("Could not parse provided URL".to_owned()));
    assert_eq!(request_url_info("https://example.com/works/5"), Err("Provided URL is not an AO3 URL".to_owned()));
    assert_eq!(
        request_url_info("https://archiveofourown.org/tags/x"),
        Err("URL https://archiveofourown.org/tags/x is not for a work or series".to_owned())
    );
}

#[test]
fn plans_resolve_devices() {
    let config = config_with_devices();
    let info = UrlInfo { page_type: PageType::Series, id: 9 };
    let request = DownloadRequest::try_from(raw(Some(&["kindle"]), Some(&["kobo"]))).ok().unwrap();
    let plan = plan_download(&request, info, &config).ok().unwrap();
    assert_eq!(plan.devices_to_upload_to.len(), 1);
    assert_eq!(plan.devices_to_upload_to[0].name, "kindle");
    assert!(std::ptr::eq(plan.devices_to_queue[0], &config.devices[0]));
    assert_eq!(plan.format, DownloadFormat::Epub);
    let unknown = DownloadRequest::try_from(raw(Some(&["kobo", "nook"]), None)).ok().unwrap();
    assert_eq!(plan_download(&unknown, info, &config).err(), Some("Could not find device nook".to_owned()));
    let unknown_queue = DownloadRequest::try_from(raw(None, Some(&["nook"]))).ok().unwrap();
    assert_eq!(plan_download(&unknown_queue, info, &config).err(), Some("Could not find device nook".to_owned()));
    let mut pdf = raw(Some(&["kobo"]), None);
    pdf.format = Some(DownloadFormat::Pdf);
    let pdf = DownloadRequest::try_from(pdf).ok().unwrap();
    assert_eq!(plan_download(&pdf, info, &config).ok().unwrap().format, DownloadFormat::Pdf);
}

fn answer(a: DownloadAction) -> (u16, String) {
    match a {
        DownloadAction::Answer(code, m) => (code, m),
        DownloadAction::Run(s) => panic!("expected an answer, got step {:?}", s),
    }
}

fn run(a: DownloadAction) -> DownloadStep {
    match a {
        DownloadAction::Run(s) => s,
        DownloadAction::Answer(c, m) => panic!("expected a step, got {} {}", c, m),
    }
}

#[test]
fn download_steps_in_order() {
    let config = config_with_devices();
    let info = UrlInfo { page_type: PageType::Work, id: 5 };
    let both = DownloadRequest::try_from(raw(Some(&["kindle"]), Some(&["kobo"]))).ok().unwrap();
    let plan = plan_download(&both, info, &config).ok().unwrap();
    let mut steps = vec![];
    let mut action = first_download_action();
    loop {
        match action {
            DownloadAction::Run(s) => {
                steps.push(s);
                action = next_download_action(s, None, &plan);
            }
            DownloadAction::Answer(code, m) => {
                assert_eq!(code, 200);
                assert_eq!(m, "Successfully downloaded work with id 5");
                break;
            }
        }
    }
    assert_eq!(
        steps,
        vec![
            DownloadStep::WriteCookies,
            DownloadStep::Parse,
            DownloadStep::Save,
            DownloadStep::Record,
            DownloadStep::Upload,
            DownloadStep::Queue
        ]
    );
    let queue_only = DownloadRequest::try_from(raw(None, Some(&["kobo"]))).ok().unwrap();
    let plan = plan_download(&queue_only, info, &config).ok().unwrap();
    assert_eq!(run(next_download_action(DownloadStep::Record, None, &plan)), DownloadStep::Queue);
    let upload_only = DownloadRequest::try_from(raw(Some(&["kobo"]), None)).ok().unwrap();
    let plan = plan_download(&upload_only, info, &config).ok().unwrap();
    assert_eq!(
        answer(next_download_action(DownloadStep::Upload, None, &plan)),
        (200, "Successfully downloaded work with id 5".to_owned())
    );
}

#[test]
fn download_failures_answer() {
    let config = config_with_devices();
    let info = UrlInfo { page_type: PageType::Series, id: 8 };
    let request = DownloadRequest::try_from(raw(Some(&["kobo"]), None)).ok().unwrap();
    let plan = plan_download(&request, info, &config).ok().unwrap();
    let e = || Some("bad".to_owned());
    assert_eq!(
        answer(next_download_action(DownloadStep::WriteCookies, e(), &plan)),
        (500, "File error while writing cookies: bad".to_owned())
    );
    assert_eq!(answer(next_download_action(DownloadStep::Parse, e(), &plan)), (400, "bad".to_owned()));
    assert_eq!(answer(next_download_action(DownloadStep::Save, e(), &plan)), (400, "bad".to_owned()));
    assert_eq!(answer(next_download_action(DownloadStep::Record, e(), &plan)), (500, "bad".to_owned()));
    assert_eq!(answer(next_download_action(DownloadStep::Upload, e(), &plan)), (502, "bad".to_owned()));
    assert_eq!(
        answer(next_download_action(DownloadStep::Queue, e(), &plan)),
        (500, "Failed to add to queue bad".to_owned())
    );
    assert_eq!(download_message(info), "Successfully downloaded series with id 8");
}

#[test]
fn device_lookup() {
    let config = config_with_devices();
    assert_eq!(config.get_device_by_name("kindle").unwrap().name, "kindle");
    assert!(std::ptr::eq(config.get_device_by_name("kobo").unwrap(), &config.devices[0]));
    assert!(config.get_device_by_name("nook").is_none());
    assert_eq!(config.get_devices(strings(&["nook", "kobo", "x"])).err(), Some("nook".to_owned()));
    assert_eq!(config.get_devices(strings(&["kobo", "x"])).err(), Some("x".to_owned()));
    assert_eq!(config.get_devices(strings(&["kindle", "kobo"])).ok().unwrap().len(), 2);
    assert_eq!(devices::get_devices(&config), vec!["kobo", "kindle", "kobo"]);
    assert!(matches!(client_from_name("sftp"), Ok(Clients::Sftp(_))));
    assert!(matches!(client_from_name("crosspoint"), Ok(Clients::Crosspoint(_))));
    assert_eq!(client_from_name("ftp").err(), Some("invalid client: 'ftp'".to_owned()));
}

#[test]
fn paths_push_like_pathbuf() {
    for (base, part) in [("/books", "Fandom"), ("/books/", "Fandom"), ("", "x"), ("/a", "/abs"), ("rel", "")] {
        let mut s = base.to_owned();
        push_path(&mut s, part);
        let mut p = std::path::PathBuf::from(base);
        p.push(part);
        assert_eq!(s, p.to_str().unwrap());
    }
}

#[test]
fn remote_paths() {
    let work = Work::test_work("Title".to_owned(), "Fandom".to_owned(), None, None);
    assert_eq!(generate_remote_path(Some(&work), None, None, "/books"), "/books/Fandom");
    let original = Work::test_work("T".to_owned(), "Original Work".to_owned(), None, None);
    assert_eq!(generate_remote_path(Some(&original), None, Some("f.epub".to_owned()), "/books"), "/books/Original Work/f.epub");
    let stems = strings(&["1 - First", "2 - Second"]);
    let series = Series::test_series("The: Series", "Fandom".to_owned(), &stems);
    assert_eq!(generate_remote_path(None, Some(&series), None, "/books"), "/books/Fandom/The Series");
    assert_eq!(
        generate_remote_path(Some(&work), Some(&series), None, "/books"),
        generate_remote_path(None, Some(&series), None, "/books")
    );
    assert_eq!(local_file_path("dl", Some(&series), "1 - First.epub"), "dl/The Series/1 - First.epub");
    assert_eq!(local_file_path("dl/", None, "x.pdf"), "dl/x.pdf");
}

#[test]
fn stand_in_works_and_series() {
    let w = Work::test_work("T".to_owned(), "F".to_owned(), Some("S".to_owned()), Some(3));
    assert_eq!(w.id, 1);
    assert_eq!(w.authors, vec![""]);
    assert_eq!(w.get_series_link(1).unwrap().part_in_series, 3);
    assert_eq!(w.get_series_link(1).unwrap().series_title, "S");
    assert_eq!(w.get_filename(DownloadFormat::Azw3, Some(1)), "3 - T.azw3");
    let stems = strings(&["1 - First", "12 - Second - part"]);
    let s = Series::test_series("The: Series", "F".to_owned(), &stems);
    assert_eq!(s.title, "The Series");
    assert_eq!(s.num_works, 2);
    assert_eq!(s.works[1].title, "Second - part");
    assert_eq!(s.works[1].get_series_link(1).unwrap().part_in_series, 12);
    assert_eq!(s.works[1].get_series_link(1).unwrap().series_title, "The: Series");
    assert_eq!(s.fandoms, vec!["yes"]);
    assert_eq!(s.creators, vec!["bob"]);
}

#[test]
fn crosspoint_messages() {
    assert_eq!(start_message("a.epub", 1024, "/books/F"), "START:a.epub:1024:/books/F");
    assert!(matches!(read_reply("DONE", "T", "f", "d"), UploadReply::Done));
    assert!(matches!(read_reply("PROGRESS:5", "T", "f", "d"), UploadReply::Pending));
    match read_reply("ERROR:disk full: yes", "T", "f.epub", "kobo") {
        UploadReply::Failed(m) => {
            assert_eq!(m, "Error uploading work T with filename f.epub to device 'kobo': disk full: yes")
        }
        _ => panic!("expected a failure"),
    }
}

#[test]
fn upload_runs_keep_successes() {
    let mut run = UploadRun::new();
    run.record_success(&"kobo".to_owned());
    run.record_success(&"kindle".to_owned());
    let e = run.fail("nook", "timeout");
    assert_eq!(e.successes, vec!["kobo", "kindle"]);
    assert_eq!(e.failure, "Failed to upload to device \"'nook'\": 'timeout'");
}

#[test]
fn folders_created_outermost_first() {
    let r = folder_requests("/books/Fandom/Title");
    assert_eq!(
        r,
        vec![
            ("books".to_owned(), "".to_owned()),
            ("Fandom".to_owned(), "/books".to_owned()),
            ("Title".to_owned(), "/books/Fandom".to_owned())
        ]
    );
    assert_eq!(folder_requests("a//b/./c/"), folder_requests("a/b/c"));
    assert_eq!(folder_requests("/"), vec![]);
    for path in ["/books/Fandom/Title", "a//b/./c/", "x", ""] {
        let names: Vec<String> = std::path::Path::new(path)
            .ancestors()
            .collect::<Vec<_>>()
            .iter()
            .rev()
            .skip(1)
            .map(|p| p.file_name().unwrap().to_str().unwrap().to_owned())
            .collect();
        let got: Vec<String> = folder_requests(path).into_iter().map(|(n, _)| n).collect();
        assert_eq!(got, names);
    }
    assert!(matches!(folder_reply(200), FolderReply::Created));
    assert!(matches!(folder_reply(400), FolderReply::Refused));
    assert!(matches!(folder_reply(500), FolderReply::Failed));
}

#[test]
fn stored_tags_read_back() {
    let f = strings(&["F1", "F2"]);
    let c = strings(&["C"]);
    let r = strings(&[]);
    let a = strings(&["A1"]);
    let rows = tag_rows(&f, &c, &r, &a);
    assert_eq!(
        rows,
        vec![
            ("fandom".to_owned(), "F1".to_owned()),
            ("fandom".to_owned(), "F2".to_owned()),
            ("characters".to_owned(), "C".to_owned()),
            ("additional".to_owned(), "A1".to_owned())
        ]
    );
    let typed: Vec<(TagType, String)> =
        rows.into_iter().map(|(k, t)| (TagType::from_name(&k).unwrap(), t)).collect();
    let tags = Tags::from_rows(typed);
    assert_eq!(tags.fandoms, f);
    assert_eq!(tags.characters, c);
    assert_eq!(tags.relationships, r);
    assert_eq!(tags.additional, a);
    assert_eq!(TagType::Relationships.name(), "relationships");
    assert_eq!(TagType::from_name("Fandom"), None);
}

#[test]
fn queue_entries_sort_by_kind() {
    let rows = vec![
        (queue_kind(true), 1),
        (queue_kind(false), 2),
        (queue_kind(true), 3),
        ("other".to_owned(), 4),
    ];
    assert_eq!(queue_kind(true), "work");
    assert_eq!(queue_kind(false), "series");
    let (works, series) = split_queue(&rows);
    assert_eq!(works, vec![1, 3]);
    assert_eq!(series, vec![2, 4]);
    assert_eq!(works.len() + series.len(), rows.len());
}

#[test]
fn sign_in() {
    assert_eq!(get_credentials(Some("u".to_owned()), Some("p".to_owned())), Ok(("u".to_owned(), "p".to_owned())));
    assert_eq!(
        get_credentials(Some("u".to_owned()), None),
        Err("Username or Password not provided in config file".to_owned())
    );
    assert_eq!(user_error_message("nope"), "User Error nope");
    let page = r#"<form id="new_user" action="/users/login"><input name="authenticity_token" value="tok123" type="hidden"></form>"#;
    assert_eq!(login_token(page), Some("tok123".to_owned()));
    assert_eq!(login_token("<p>no form</p>"), None);
}

#[test]
fn series_link_rows_cover_every_link() {
    let a = Work::test_work("A".to_owned(), "F".to_owned(), Some("S".to_owned()), Some(2));
    let mut b = Work::test_work("B".to_owned(), "F".to_owned(), None, None);
    b.id = 7;
    b.series.insert(9, SeriesLink { series_id: 9, series_title: "N".to_owned(), part_in_series: 4 });
    b.series.insert(10, SeriesLink { series_id: 10, series_title: "M".to_owned(), part_in_series: 1 });
    let mut rows = series_link_rows(&vec![a, b]);
    rows.sort();
    assert_eq!(rows, vec![(1, 1, 2), (7, 9, 4), (7, 10, 1)]);
    assert!(series_link_rows(&vec![]).is_empty());
}

#[test]
fn stored_links_keyed_by_series() {
    let m = links_by_series(vec![
        SeriesLink { series_id: 3, series_title: "old".to_owned(), part_in_series: 1 },
        SeriesLink { series_id: 4, series_title: "x".to_owned(), part_in_series: 2 },
        SeriesLink { series_id: 3, series_title: "new".to_owned(), part_in_series: 5 },
    ]);
    assert_eq!(m.len(), 2);
    assert_eq!(m[&3].series_title, "new");
    assert_eq!(m[&3].part_in_series, 5);
    assert_eq!(m[&4].series_title, "x");
}

#[test]
fn fandom_map_pairs_round_trip() {
    let m = FandomMap::from_pairs(vec![
        ("a".to_owned(), "1".to_owned()),
        ("b".to_owned(), "2".to_owned()),
        ("a".to_owned(), "3".to_owned()),
    ]);
    let mut pairs = m.to_pairs();
    pairs.sort();
    assert_eq!(pairs, vec![("a".to_owned(), "3".to_owned()), ("b".to_owned(), "2".to_owned())]);
    let back = FandomMap::from_pairs(pairs);
    assert_eq!(back.get(&"a".to_owned()), Some(&"3".to_owned()));
}

#[test]
fn front_page_and_health() {
    assert_eq!(a2o4::routes::index(), "Hello 👋");
    assert_eq!(a2o4::routes::healthcheck(), (200, "A2O4 is running".to_owned()));
}

#[test]
fn download_requests_are_checked_in_order() {
    let config = config_with_devices();
    let mut both_bad = raw(None, None);
    both_bad.url = "not a url".to_owned();
    assert_eq!(
        resolve_download_request(both_bad, &config).err(),
        Some("Must supply device(s) to upload to and/or to queue an upload for".to_owned())
    );
    let mut bad_url = raw(Some(&["nook"]), None);
    bad_url.url = "not a url".to_owned();
    assert_eq!(resolve_download_request(bad_url, &config).err(), Some("Could not parse provided URL".to_owned()));
    let unknown = raw(Some(&["kobo", "nook"]), Some(&["zzz"]));
    assert_eq!(resolve_download_request(unknown, &config).err(), Some("Could not find device nook".to_owned()));
    let unknown_queue = raw(Some(&["kobo"]), Some(&["zzz"]));
    assert_eq!(resolve_download_request(unknown_queue, &config).err(), Some("Could not find device zzz".to_owned()));
    let mut good = raw(Some(&["kindle"]), Some(&["kobo"]));
    good.fandom_override = Some("F".to_owned());
    let plan = resolve_download_request(good, &config).ok().unwrap();
    assert_eq!(plan.url_info, UrlInfo { page_type: PageType::Work, id: 5 });
    assert_eq!(plan.devices_to_upload_to[0].name, "kindle");
    assert_eq!(plan.devices_to_queue[0].name, "kobo");
    assert_eq!(plan.fandom_override, Some("F".to_owned()));
    assert_eq!(plan.format, DownloadFormat::Epub);
}

#[test]
fn upload_runs_step_device_by_device() {
    let run = UploadRun::new();
    let run = run.after_device(&"kobo".to_owned(), None).ok().unwrap();
    let run = run.after_device(&"kindle".to_owned(), None).ok().unwrap();
    assert_eq!(run.successes, vec!["kobo", "kindle"]);
    let e = run.after_device(&"nook".to_owned(), Some("timeout".to_owned())).err().unwrap();
    assert_eq!(e.successes, vec!["kobo", "kindle"]);
    assert_eq!(e.failure, "Failed to upload to device \"'nook'\": 'timeout'");
}

#[test]
fn stand_in_series_works_are_stand_in_works() {
    let stems = strings(&["3 - Third"]);
    let s = Series::test_series("T", "F".to_owned(), &stems);
    let w = &s.works[0];
    let expected = Work::test_work("Third".to_owned(), "F".to_owned(), Some("T".to_owned()), Some(3));
    assert_eq!(w.id, expected.id);
    assert_eq!(w.authors, expected.authors);
    assert_eq!(w.fandoms, expected.fandoms);
    assert!(w.relationships.is_empty() && w.characters.is_empty() && w.additional_tags.is_empty());
    for f in DownloadFormat::all() {
        assert_eq!(w.download_links.get(f), None);
    }
    assert_eq!(w.get_series_link(1), expected.get_series_link(1));
}
