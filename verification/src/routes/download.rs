//! The decisions of a download request: which requests are valid, which
//! page they name, which devices they reach, and what the server answers.

use vstd::prelude::*;

use crate::common::{
    self, DownloadFormat, PageType, UrlInfo, Url, UrlError, url_parts, info_from_groups, page_type_label,
    work_or_series_pattern,
};
use crate::config::{Config, Device, first_unknown_name, is_first_named};
use crate::pattern::{regex_accepts, regex_captures_of};
use crate::strset::{self, views};
use crate::text::{self, push_str};

verus! {

/// A download request as the client sent it.
pub struct RawDownloadRequest {
    pub url: String,
    pub devices_to_upload_to: Option<Vec<String>>,
    pub devices_to_queue: Option<Vec<String>>,
    pub fandom_override: Option<String>,
    pub format: Option<DownloadFormat>,
}

/// A download request that names at least one device, and no device twice.
pub struct DownloadRequest {
    pub url: String,
    pub devices_to_upload_to: Option<Vec<String>>,
    pub devices_to_queue: Option<Vec<String>>,
    pub fandom_override: Option<String>,
    pub format: Option<DownloadFormat>,
}

/// Some name of `b` is also in `a`.
pub open spec fn lists_overlap(a: Seq<Seq<char>>, b: Seq<Seq<char>>) -> bool {
    exists|i: int| 0 <= i < b.len() && a.contains(#[trigger] b[i])
}

pub open spec fn names_view(o: Option<Vec<String>>) -> Option<Seq<Seq<char>>> {
    match o {
        Some(v) => Some(views(v@)),
        None => None,
    }
}

impl DownloadRequest {
    /// Checks a raw request: it must name devices to upload to or to queue
    /// for, and no device in both lists.
    pub fn try_from(raw: RawDownloadRequest) -> (r: Result<DownloadRequest, &'static str>)
        ensures
            raw.devices_to_upload_to is None && raw.devices_to_queue is None ==> (r matches Err(e)
                && e@ == "Must supply device(s) to upload to and/or to queue an upload for"@),
            raw.devices_to_upload_to is Some && raw.devices_to_queue is Some && lists_overlap(
                views(raw.devices_to_upload_to->0@),
                views(raw.devices_to_queue->0@),
            ) ==> (r matches Err(e) && e@ == "Must not have the same device in the upload and queue lists"@),
            !(raw.devices_to_upload_to is None && raw.devices_to_queue is None) && !(raw.devices_to_upload_to is Some
                && raw.devices_to_queue is Some && lists_overlap(
                views(raw.devices_to_upload_to->0@),
                views(raw.devices_to_queue->0@),
            )) ==> (r matches Ok(q) && q.url == raw.url && q.devices_to_upload_to == raw.devices_to_upload_to
                && q.devices_to_queue == raw.devices_to_queue && q.fandom_override == raw.fandom_override
                && q.format == raw.format),
    {
        let has_upload_devices = raw.devices_to_upload_to.is_some();
        let has_queue_devices = raw.devices_to_queue.is_some();
        if !has_upload_devices && !has_queue_devices {
            return Err("Must supply device(s) to upload to and/or to queue an upload for");
        }
        if has_upload_devices && has_queue_devices {
            let is_dup = match (&raw.devices_to_upload_to, &raw.devices_to_queue) {
                (Some(upload), Some(queue)) => {
                    let mut found = false;
                    let mut i: usize = 0;
                    while i < queue.len()
                        invariant
                            0 <= i <= queue.len(),
                            found == exists|k: int| 0 <= k < i && views(upload@).contains(#[trigger] views(queue@)[k]),
                        decreases queue.len() - i,
                    {
                        assert(views(queue@)[i as int] == queue@[i as int]@);
                        if strset::contains(upload, &queue[i]) {
                            found = true;
                        }
                        i = i + 1;
                    }
                    found
                },
                _ => false,
            };
            if is_dup {
                return Err("Must not have the same device in the upload and queue lists");
            }
        }
        Ok(
            DownloadRequest {
                url: raw.url,
                devices_to_upload_to: raw.devices_to_upload_to,
                devices_to_queue: raw.devices_to_queue,
                fandom_override: raw.fandom_override,
                format: raw.format,
            },
        )
    }
}

/// The answer to a request whose URL parses to `(serialization, domain)`,
/// as far as the URL decides it: the page it names, or the error text.
pub open spec fn url_answer(parts: Option<(Seq<char>, Option<Seq<char>>)>) -> Option<Result<UrlInfo, Seq<char>>> {
    match parts {
        None => Some(Err("Could not parse provided URL"@)),
        Some((serialization, domain)) => if domain != Some("archiveofourown.org"@) {
            Some(Err("Provided URL is not an AO3 URL"@))
        } else if !regex_accepts(work_or_series_pattern()) {
            None
        } else {
            match regex_captures_of(work_or_series_pattern(), serialization) {
                None => Some(Err("URL "@ + serialization + " is not for a work or series"@)),
                Some(g) => match info_from_groups(g) {
                    Ok(info) => Some(Ok(info)),
                    Err(UrlError::InvalidId(k)) => Some(Err(text::int_error_message(k))),
                    Err(_) => None,
                },
            }
        },
    }
}

/// The page that a request's URL names, or the text of the error answer.
pub fn request_url_info(url: &str) -> (r: Result<UrlInfo, String>)
    ensures
        url_answer(url_parts(url@)) matches Some(a) ==> match a {
            Ok(info) => r == Ok::<UrlInfo, String>(info),
            Err(m) => r matches Err(e) && e@ == m,
        },
        url_answer(url_parts(url@)) is None ==> r is Err,
{
    let parsed = match Url::parse(url) {
        Ok(u) => u,
        Err(_) => {
            return Err(text::owned("Could not parse provided URL"));
        },
    };
    match common::parse_url(&parsed) {
        Ok(info) => Ok(info),
        Err(e) => {
            let m = e.message();
            proof {
                if parsed.domain is Some && parsed.domain->0@ == "archiveofourown.org"@ {
                    assert(crate::pattern::opt_view(parsed.domain) == Some("archiveofourown.org"@));
                }
            }
            Err(m)
        },
    }
}

/// What a request reaches: the page, the devices to upload to and to queue
/// for, the format and the fandom to file under.
pub struct DownloadPlan<'a> {
    pub url_info: UrlInfo,
    pub devices_to_upload_to: Vec<&'a Device>,
    pub devices_to_queue: Vec<&'a Device>,
    pub format: DownloadFormat,
    pub fandom_override: Option<String>,
}

/// The answer for a device name that no device carries.
pub open spec fn unknown_device_message(name: Seq<char>) -> Seq<char> {
    "Could not find device "@ + name
}

/// The devices a request's list names; an absent list names none.
pub open spec fn devices_answer(devices: Seq<Device>, names: Option<Seq<Seq<char>>>) -> Result<(), Seq<char>> {
    match names {
        None => Ok(()),
        Some(ns) => match first_unknown_name(devices, ns) {
            Some(i) => Err(unknown_device_message(ns[i])),
            None => Ok(()),
        },
    }
}

/// `ds` are the devices `names` names, in order.
pub open spec fn devices_match(devices: Seq<Device>, names: Option<Seq<Seq<char>>>, ds: Seq<&Device>) -> bool {
    match names {
        None => ds.len() == 0,
        Some(ns) => ds.len() == ns.len() && forall|k: int| 0 <= k < ns.len() ==> is_first_named(devices, ns[k], *(#[trigger] ds[k])),
    }
}

fn resolve_devices<'a>(config: &'a Config, names: &Option<Vec<String>>) -> (r: Result<Vec<&'a Device>, String>)
    ensures
        devices_answer(config.devices@, names_view(*names)) matches Err(m) ==> (r matches Err(e) && e@ == m),
        devices_answer(config.devices@, names_view(*names)) is Ok ==> (r matches Ok(ds) && devices_match(config.devices@, names_view(*names), ds@)),
{
    match names {
        None => Ok(Vec::new()),
        Some(ns) => {
            let copy = ns.clone();
            assert(copy.len() == ns.len());
            assert forall|k: int| 0 <= k < ns.len() implies copy@[k] == ns@[k] by {
                assert(vstd::pervasive::cloned::<String>(ns@[k], copy@[k]));
            }
            assert(views(copy@) =~= views(ns@));
            match config.get_devices(copy) {
            Ok(ds) => {
                proof {
                    assert forall|k: int| 0 <= k < views(ns@).len() implies is_first_named(config.devices@, views(ns@)[k], *(#[trigger] ds@[k])) by {
                        assert(views(ns@)[k] == ns@[k]@);
                    }
                }
                Ok(ds)
            },
            Err(name) => {
                let mut m = text::owned("Could not find device ");
                push_str(&mut m, name.as_str());
                proof {
                    assert(first_unknown_name(config.devices@, views(ns@)) is Some);
                    crate::config::lemma_first_unknown_in_range(config.devices@, views(ns@));
                    let i = first_unknown_name(config.devices@, views(ns@))->0;
                    assert(views(ns@)[i] == ns@[i]@);
                }
                Err(m)
            },
        }},
    }
}

/// Resolves a checked request, whose URL named `url_info`, against `config`.
pub fn plan_download<'a>(request: &DownloadRequest, url_info: UrlInfo, config: &'a Config) -> (r: Result<DownloadPlan<'a>, String>)
    ensures
        devices_answer(config.devices@, names_view(request.devices_to_upload_to)) matches Err(m) ==> (r matches Err(e) && e@ == m),
        devices_answer(config.devices@, names_view(request.devices_to_upload_to)) is Ok ==> (
            devices_answer(config.devices@, names_view(request.devices_to_queue)) matches Err(m) ==> (r matches Err(e) && e@ == m)),
        devices_answer(config.devices@, names_view(request.devices_to_upload_to)) is Ok
            && devices_answer(config.devices@, names_view(request.devices_to_queue)) is Ok ==> (r matches Ok(p)
                && p.url_info == url_info
                && devices_match(config.devices@, names_view(request.devices_to_upload_to), p.devices_to_upload_to@)
                && devices_match(config.devices@, names_view(request.devices_to_queue), p.devices_to_queue@)
                && p.format == (match request.format { Some(f) => f, None => config.default_format })
                && p.fandom_override == request.fandom_override),
{
    let upload = resolve_devices(config, &request.devices_to_upload_to)?;
    let queue = resolve_devices(config, &request.devices_to_queue)?;
    let format = match request.format {
        Some(f) => f,
        None => config.default_format,
    };
    Ok(DownloadPlan {
        url_info,
        devices_to_upload_to: upload,
        devices_to_queue: queue,
        format,
        fandom_override: request.fandom_override.clone(),
    })
}

/// Why a request with these device lists is refused, checked in order: no
/// list at all, then a device in both lists.
pub open spec fn request_refusal(upload: Option<Seq<Seq<char>>>, queue: Option<Seq<Seq<char>>>) -> Option<Seq<char>> {
    if upload is None && queue is None {
        Some("Must supply device(s) to upload to and/or to queue an upload for"@)
    } else if upload is Some && queue is Some && lists_overlap(upload->0, queue->0) {
        Some("Must not have the same device in the upload and queue lists"@)
    } else {
        None
    }
}

/// Checks and resolves a download request before any work is done, in this
/// order: the device lists, the URL, the devices to upload to, the devices to
/// queue for. The first that fails gives the answer's text.
pub fn resolve_download_request<'a>(raw: RawDownloadRequest, config: &'a Config) -> (r: Result<DownloadPlan<'a>, String>)
    ensures
        ({
            let upload = names_view(raw.devices_to_upload_to);
            let queue = names_view(raw.devices_to_queue);
            let address = url_answer(url_parts(raw.url@));
            &&& request_refusal(upload, queue) matches Some(m) ==> (r matches Err(e) && e@ == m)
            &&& request_refusal(upload, queue) is None && address is None ==> r is Err
            &&& request_refusal(upload, queue) is None ==> (address matches Some(Err(m)) ==> (r matches Err(e) && e@ == m))
            &&& request_refusal(upload, queue) is None && address is Some && address->0 is Ok ==> {
                &&& devices_answer(config.devices@, upload) matches Err(m) ==> (r matches Err(e) && e@ == m)
                &&& devices_answer(config.devices@, upload) is Ok ==> (devices_answer(config.devices@, queue) matches Err(m)
                    ==> (r matches Err(e) && e@ == m))
                &&& devices_answer(config.devices@, upload) is Ok && devices_answer(config.devices@, queue) is Ok ==> (r matches Ok(p)
                    && p.url_info == address->0->Ok_0
                    && devices_match(config.devices@, upload, p.devices_to_upload_to@)
                    && devices_match(config.devices@, queue, p.devices_to_queue@)
                    && p.format == (match raw.format { Some(f) => f, None => config.default_format })
                    && p.fandom_override == raw.fandom_override)
            }
        }),
{
    let ghost upload = names_view(raw.devices_to_upload_to);
    let ghost queue = names_view(raw.devices_to_queue);
    let ghost url = raw.url@;
    let ghost format = raw.format;
    let ghost fandom_override = raw.fandom_override;
    let request = match DownloadRequest::try_from(raw) {
        Ok(q) => q,
        Err(e) => {
            return Err(text::owned(e));
        },
    };
    assert(request.url@ == url);
    let url_info = request_url_info(request.url.as_str())?;
    plan_download(&request, url_info, config)
}

/// The answer to a download that went through.
pub open spec fn success_message(info: UrlInfo) -> Seq<char> {
    "Successfully downloaded "@ + page_type_label(info.page_type) + " with id "@ + text::signed_decimal(info.id as int)
}

pub fn download_message(info: UrlInfo) -> (s: String)
    ensures
        s@ == success_message(info),
{
    let mut s = text::owned("Successfully downloaded ");
    let label = info.page_type.label();
    push_str(&mut s, label.as_str());
    push_str(&mut s, " with id ");
    text::push_signed_decimal(&mut s, info.id);
    s
}

// ---------------------------------------------------------------------------
// Running a download
/// The steps of a download once its request was resolved, in the order they run.
#[derive(Clone, Copy, Debug, PartialEq, Eq, Structural)]
pub enum DownloadStep {
    /// Save the session's cookies.
    WriteCookies,
    /// Fetch and read the work's or series' pages.
    Parse,
    /// Download the file(s).
    Save,
    /// Store the work or series in the database.
    Record,
    /// Upload to the devices the request names.
    Upload,
    /// Queue uploads for the devices the request names.
    Queue,
}

/// What the server does next in a download: run a step, or answer with an
/// HTTP status and a text.
pub enum DownloadAction {
    Run(DownloadStep),
    Answer(u16, String),
}

/// The step after `step` went through; `None` where the download is done.
pub open spec fn step_after(step: DownloadStep, uploads: bool, queues: bool) -> Option<DownloadStep> {
    match step {
        DownloadStep::WriteCookies => Some(DownloadStep::Parse),
        DownloadStep::Parse => Some(DownloadStep::Save),
        DownloadStep::Save => Some(DownloadStep::Record),
        DownloadStep::Record => if uploads {
            Some(DownloadStep::Upload)
        } else if queues {
            Some(DownloadStep::Queue)
        } else {
            None
        },
        DownloadStep::Upload => if queues {
            Some(DownloadStep::Queue)
        } else {
            None
        },
        DownloadStep::Queue => None,
    }
}

/// The answer to a download whose `step` failed with `error`.
pub open spec fn failure_answer(step: DownloadStep, error: Seq<char>) -> (u16, Seq<char>) {
    match step {
        DownloadStep::WriteCookies => (500, "File error while writing cookies: "@ + error),
        DownloadStep::Parse => (400, error),
        DownloadStep::Save => (400, error),
        DownloadStep::Record => (500, error),
        DownloadStep::Upload => (502, error),
        DownloadStep::Queue => (500, "Failed to add to queue "@ + error),
    }
}

/// The first step of a resolved download.
pub fn first_download_action() -> (a: DownloadAction)
    ensures
        a == DownloadAction::Run(DownloadStep::WriteCookies),
{
    DownloadAction::Run(DownloadStep::WriteCookies)
}

/// What follows `step` of the download `plan` describes, given how the step
/// went (`error`: the text of its failure; for an upload, the upload
/// error's response text).
pub fn next_download_action(step: DownloadStep, error: Option<String>, plan: &DownloadPlan) -> (a: DownloadAction)
    ensures
        error matches Some(e) ==> (a matches DownloadAction::Answer(code, m) && code == failure_answer(step, e@).0 && m@
            == failure_answer(step, e@).1),
        error is None ==> match step_after(step, plan.devices_to_upload_to.len() > 0, plan.devices_to_queue.len() > 0) {
            Some(next) => a == DownloadAction::Run(next),
            None => a matches DownloadAction::Answer(code, m) && code == 200 && m@ == success_message(plan.url_info),
        },
{
    match error {
        Some(e) => {
            let m = match step {
                DownloadStep::WriteCookies => {
                    let mut m = text::owned("File error while writing cookies: ");
                    push_str(&mut m, e.as_str());
                    m
                },
                DownloadStep::Queue => {
                    let mut m = text::owned("Failed to add to queue ");
                    push_str(&mut m, e.as_str());
                    m
                },
                _ => e,
            };
            let code: u16 = match step {
                DownloadStep::Parse | DownloadStep::Save => 400,
                DownloadStep::Upload => 502,
                _ => 500,
            };
            DownloadAction::Answer(code, m)
        },
        None => {
            let uploads = plan.devices_to_upload_to.len() > 0;
            let queues = plan.devices_to_queue.len() > 0;
            match step {
                DownloadStep::WriteCookies => DownloadAction::Run(DownloadStep::Parse),
                DownloadStep::Parse => DownloadAction::Run(DownloadStep::Save),
                DownloadStep::Save => DownloadAction::Run(DownloadStep::Record),
                DownloadStep::Record if uploads => DownloadAction::Run(DownloadStep::Upload),
                DownloadStep::Record if queues => DownloadAction::Run(DownloadStep::Queue),
                DownloadStep::Upload if queues => DownloadAction::Run(DownloadStep::Queue),
                _ => DownloadAction::Answer(200, download_message(plan.url_info)),
            }
        },
    }
}

} // verus!
