//! Where uploaded files go: the paths on the server and on the devices, and
//! the messages of the upload protocols.

use vstd::prelude::*;

use crate::common::UploadError;
use crate::domain::series::Series;
use crate::domain::work::Work;
use crate::strset::views;
use crate::text::{self, push_str, push_char, starts_with, first_occurrence, split_pieces};

verus! {

/// `PathBuf::push` on Unix: an absolute part replaces the path; otherwise
/// the part is appended after a `/` where the path does not end in one.
pub open spec fn path_push(base: Seq<char>, part: Seq<char>) -> Seq<char> {
    if part.len() > 0 && part[0] == '/' {
        part
    } else if base.len() == 0 || base.last() == '/' {
        base + part
    } else {
        base + seq!['/'] + part
    }
}

/// Appends `part` to the path `base` as `PathBuf::push` does on Unix.
pub fn push_path(base: &mut String, part: &str)
    ensures
        final(base)@ == path_push(old(base)@, part@),
{
    let p = text::chars_of(part);
    if p.len() > 0 && p[0] == '/' {
        *base = text::owned(part);
        return;
    }
    let b = text::chars_of(base.as_str());
    if b.len() > 0 && b[b.len() - 1] != '/' {
        push_char(base, '/');
    }
    push_str(base, part);
    proof {
        if b@.len() > 0 && b@.last() != '/' {
            assert(final(base)@ =~= old(base)@ + seq!['/'] + part@);
        }
    }
}

/// The fandom under which the files of a work go, and the creator folder
/// that `"Original Work"` adds.
pub open spec fn filing_folders(fandom: Seq<char>, creators: Seq<Seq<char>>) -> Seq<Seq<char>> {
    if fandom == "Original Work"@ {
        seq![fandom, creators[0]]
    } else {
        seq![fandom]
    }
}

/// `parts` pushed onto `base` in order.
pub open spec fn push_all(base: Seq<char>, parts: Seq<Seq<char>>) -> Seq<char>
    decreases parts.len(),
{
    if parts.len() == 0 {
        base
    } else {
        path_push(push_all(base, parts.drop_last()), parts.last())
    }
}

/// The folders below the device's download folder where a series' files, or
/// a single work's file, go, then the file name where given.
pub open spec fn remote_parts(work: Option<Work>, series: Option<Series>, filename: Option<Seq<char>>) -> Seq<Seq<char>> {
    let folders = match series {
        Some(s) => filing_folders(s.filtered_fandom@, views(s.creators@)).push(s.title@),
        None => filing_folders(work->0.filtered_fandom@, views(work->0.authors@)),
    };
    match filename {
        Some(f) => folders.push(f),
        None => folders,
    }
}

/// Where on a device a work or series goes (the path as a string).
pub fn generate_remote_path(
    work: Option<&Work>,
    series: Option<&Series>,
    filename: Option<String>,
    remote_download_folder: &str,
) -> (path: String)
    requires
        series is None ==> work is Some,
        series matches Some(s) ==> (s.filtered_fandom@ == "Original Work"@ ==> s.creators.len() > 0),
        series is None ==> (work matches Some(w) ==> (w.filtered_fandom@ == "Original Work"@ ==> w.authors.len() > 0)),
    ensures
        path@ == push_all(
            remote_download_folder@,
            remote_parts(
                match work { Some(w) => Some(*w), None => None },
                match series { Some(s) => Some(*s), None => None },
                crate::pattern::opt_view(filename),
            ),
        ),
{
    let mut path = text::owned(remote_download_folder);
    let ghost mut parts: Seq<Seq<char>> = Seq::empty();
    assert(path@ == push_all(remote_download_folder@, parts));
    match series {
        Some(s) => {
            push_path(&mut path, s.filtered_fandom.as_str());
            proof { lemma_push_all_push(remote_download_folder@, parts, s.filtered_fandom@); parts = parts.push(s.filtered_fandom@); }
            if crate::strset::str_is(s.filtered_fandom.as_str(), "Original Work") {
                assert(views(s.creators@)[0] == s.creators@[0]@);
                push_path(&mut path, s.creators[0].as_str());
                proof { lemma_push_all_push(remote_download_folder@, parts, s.creators@[0]@); parts = parts.push(s.creators@[0]@); }
            }
            push_path(&mut path, s.title.as_str());
            proof { lemma_push_all_push(remote_download_folder@, parts, s.title@); parts = parts.push(s.title@); }
        },
        None => {
            let w = match work {
                Some(w) => w,
                None => {
                    return path;
                },
            };
            push_path(&mut path, w.filtered_fandom.as_str());
            proof { lemma_push_all_push(remote_download_folder@, parts, w.filtered_fandom@); parts = parts.push(w.filtered_fandom@); }
            if crate::strset::str_is(w.filtered_fandom.as_str(), "Original Work") {
                assert(views(w.authors@)[0] == w.authors@[0]@);
                push_path(&mut path, w.authors[0].as_str());
                proof { lemma_push_all_push(remote_download_folder@, parts, w.authors@[0]@); parts = parts.push(w.authors@[0]@); }
            }
        },
    }
    match &filename {
        Some(f) => {
            push_path(&mut path, f.as_str());
            proof { lemma_push_all_push(remote_download_folder@, parts, f@); parts = parts.push(f@); }
        },
        None => {},
    }
    proof {
        let expected = remote_parts(
            match work { Some(w) => Some(*w), None => None },
            match series { Some(s) => Some(*s), None => None },
            crate::pattern::opt_view(filename),
        );
        assert(parts =~= expected);
    }
    path
}

proof fn lemma_push_all_push(base: Seq<char>, parts: Seq<Seq<char>>, x: Seq<char>)
    ensures
        push_all(base, parts.push(x)) == path_push(push_all(base, parts), x),
{
    assert(parts.push(x).drop_last() =~= parts);
}

/// Where on the server a work's downloaded file is: under the download
/// folder, in the series' folder when saved as part of one.
pub open spec fn local_path(download_path: Seq<char>, series_title: Option<Seq<char>>, filename: Seq<char>) -> Seq<char> {
    match series_title {
        Some(t) => path_push(path_push(download_path, t), filename),
        None => path_push(download_path, filename),
    }
}

pub fn local_file_path(download_path: &str, series: Option<&Series>, filename: &str) -> (path: String)
    ensures
        path@ == local_path(download_path@, match series { Some(s) => Some(s.title@), None => None }, filename@),
{
    let mut path = text::owned(download_path);
    match series {
        Some(s) => push_path(&mut path, s.title.as_str()),
        None => {},
    }
    push_path(&mut path, filename);
    path
}

// ---------------------------------------------------------------------------
// The Crosspoint upload protocol
/// The first message of an upload: `"START:<file>:<size>:<remote path>"`.
pub open spec fn start_text(filename: Seq<char>, size: u64, remote_path: Seq<char>) -> Seq<char> {
    "START:"@ + filename + ":"@ + text::decimal(size as nat) + ":"@ + remote_path
}

pub fn start_message(filename: &str, size: u64, remote_path: &str) -> (m: String)
    ensures
        m@ == start_text(filename@, size, remote_path@),
{
    let mut m = text::owned("START:");
    push_str(&mut m, filename);
    push_str(&mut m, ":");
    text::push_decimal(&mut m, size);
    push_str(&mut m, ":");
    push_str(&mut m, remote_path);
    m
}

/// What a text reply from the device means.
#[derive(Clone, Debug)]
pub enum UploadReply {
    /// `DONE...`: the file arrived.
    Done,
    /// `ERROR:...`: the upload failed, with the message to report.
    Failed(String),
    /// Anything else: keep waiting.
    Pending,
}

/// The text after the first `:` of `s`.
pub open spec fn after_colon(s: Seq<char>) -> Seq<char> {
    let i = first_occurrence(s, seq![':'], 0)->0;
    s.subrange(i + 1, s.len() as int)
}

/// The message reported for a failed upload of `title` as `filename` to `device`.
pub open spec fn upload_failure_text(title: Seq<char>, filename: Seq<char>, device: Seq<char>, reply: Seq<char>) -> Seq<char> {
    "Error uploading work "@ + title + " with filename "@ + filename + " to device '"@ + device + "': "@ + after_colon(reply)
}

/// Reads a text reply of the device receiving `filename` (work `title`).
pub fn read_reply(reply: &str, title: &str, filename: &str, device: &str) -> (r: UploadReply)
    requires
        !starts_with(reply@, "DONE"@) && starts_with(reply@, "ERROR"@) ==> first_occurrence(reply@, seq![':'], 0) is Some,
    ensures
        starts_with(reply@, "DONE"@) ==> r is Done,
        !starts_with(reply@, "DONE"@) && starts_with(reply@, "ERROR"@) ==> (r matches UploadReply::Failed(m) && m@ == upload_failure_text(title@, filename@, device@, reply@)),
        !starts_with(reply@, "DONE"@) && !starts_with(reply@, "ERROR"@) ==> r is Pending,
{
    if text::starts_with_str(reply, "DONE") {
        return UploadReply::Done;
    }
    if !text::starts_with_str(reply, "ERROR") {
        return UploadReply::Pending;
    }
    let v = text::chars_of(reply);
    let colon = vec![':'];
    assert(colon@ =~= seq![':']);
    let i = match text::find_from(&v, &colon, 0) {
        Some(i) => i,
        None => 0,
    };
    assert(text::occurs_at(v@, colon@, i as int));
    assert(i + colon@.len() <= v@.len());
    let vl = v.len();
    assert(i + 1 <= vl);
    let rest = text::string_from_range(&v, i + 1, vl);
    let mut m = text::owned("Error uploading work ");
    push_str(&mut m, title);
    push_str(&mut m, " with filename ");
    push_str(&mut m, filename);
    push_str(&mut m, " to device '");
    push_str(&mut m, device);
    push_str(&mut m, "': ");
    push_str(&mut m, rest.as_str());
    UploadReply::Failed(m)
}

// ---------------------------------------------------------------------------
// Uploading to several devices
/// The devices reached so far by an upload that goes device by device.
pub struct UploadRun {
    pub successes: Vec<String>,
}

/// The failure text for a device an upload did not reach.
pub open spec fn device_failure_text(device: Seq<char>, error: Seq<char>) -> Seq<char> {
    "Failed to upload to device \"'"@ + device + "'\": '"@ + error + "'"@
}

impl UploadRun {
    pub fn new() -> (r: UploadRun)
        ensures
            r.successes@.len() == 0,
    {
        UploadRun { successes: Vec::new() }
    }

    /// Notes that the upload reached `device`.
    pub fn record_success(&mut self, device: &String)
        ensures
            views(final(self).successes@) == views(old(self).successes@).push(device@),
    {
        let ghost before = views(self.successes@);
        self.successes.push(device.clone());
        assert(views(self.successes@) =~= before.push(device@));
    }

    /// Takes how the upload to `device` went (`error`: the text of its
    /// failure) and gives the run to go on with, or the error that ends it.
    pub fn after_device(self, device: &String, error: Option<String>) -> (r: Result<UploadRun, UploadError>)
        ensures
            error is None ==> (r matches Ok(run) && views(run.successes@) == views(self.successes@).push(device@)),
            error matches Some(e) ==> (r matches Err(u) && u.successes == self.successes && u.failure@
                == device_failure_text(device@, e@)),
    {
        match error {
            None => {
                let mut run = self;
                run.record_success(device);
                Ok(run)
            },
            Some(e) => Err(self.fail(device.as_str(), e.as_str())),
        }
    }

    /// Ends the run at `device`, which failed with `error`.
    pub fn fail(self, device: &str, error: &str) -> (e: UploadError)
        ensures
            e.successes == self.successes,
            e.failure@ == device_failure_text(device@, error@),
    {
        let mut failure = text::owned("Failed to upload to device \"'");
        push_str(&mut failure, device);
        push_str(&mut failure, "'\": '");
        push_str(&mut failure, error);
        push_str(&mut failure, "'");
        UploadError { successes: self.successes, failure }
    }
}

// ---------------------------------------------------------------------------
// Creating the folders of a path on a device
/// The folder names along a path (its `/`-separated pieces), without the
/// empty pieces and `.` pieces that `Path::ancestors` passes over.
pub open spec fn folder_names(pieces: Seq<Seq<char>>) -> Seq<Seq<char>>
    decreases pieces.len(),
{
    if pieces.len() == 0 {
        Seq::empty()
    } else {
        let r = folder_names(pieces.drop_last());
        let p = pieces.last();
        if p.len() > 0 && p != "."@ {
            r.push(p)
        } else {
            r
        }
    }
}

/// The folder above the `k`-th folder, as the device names it: `""`, then
/// `"/a"`, `"/a/b"` and so on.
pub open spec fn folder_parent(names: Seq<Seq<char>>, k: nat) -> Seq<char>
    decreases k,
{
    if k == 0 {
        Seq::empty()
    } else {
        folder_parent(names, (k - 1) as nat) + "/"@ + names[k - 1]
    }
}

/// Whether each folder along `path` has a name: no piece is `..`, and a
/// relative path does not start with `.`.
pub open spec fn folders_named(path: Seq<char>) -> bool {
    let pieces = split_pieces(path, '/');
    &&& pieces[0] != "."@
    &&& forall|i: int| 0 <= i < pieces.len() ==> #[trigger] pieces[i] != ".."@
}

/// The `mkdir` requests that create `path` on a device, outermost first:
/// each folder's name with the path of the folder above it.
pub fn folder_requests(path: &str) -> (r: Vec<(String, String)>)
    requires
        folders_named(path@),
    ensures
        r.len() == folder_names(split_pieces(path@, '/')).len(),
        forall|k: int|
            #![trigger r@[k]]
            0 <= k < r.len() ==> r@[k].0@ == folder_names(split_pieces(path@, '/'))[k] && r@[k].1@ == folder_parent(
                folder_names(split_pieces(path@, '/')),
                k as nat,
            ),
{
    let pieces = text::split_on(path, '/');
    let ghost ps = split_pieces(path@, '/');
    let mut r: Vec<(String, String)> = Vec::new();
    let mut parent = String::new();
    let mut i: usize = 0;
    assert(ps.take(0) =~= Seq::<Seq<char>>::empty());
    while i < pieces.len()
        invariant
            0 <= i <= pieces.len(),
            views(pieces@) == ps,
            r.len() == folder_names(ps.take(i as int)).len(),
            parent@ == folder_parent(folder_names(ps.take(i as int)), r.len() as nat),
            forall|k: int|
                #![trigger r@[k]]
                0 <= k < r.len() ==> r@[k].0@ == folder_names(ps.take(i as int))[k] && r@[k].1@ == folder_parent(
                    folder_names(ps.take(i as int)),
                    k as nat,
                ),
        decreases pieces.len() - i,
    {
        assert(ps.take(i + 1).drop_last() =~= ps.take(i as int));
        assert(ps.take(i + 1).last() == ps[i as int]);
        assert(ps[i as int] == pieces@[i as int]@);
        let ghost names = folder_names(ps.take(i as int));
        let piece = &pieces[i];
        if piece.as_str().unicode_len() > 0 && !crate::strset::str_is(piece.as_str(), ".") {
            let ghost before = r@;
            let entry = (piece.clone(), parent.clone());
            assert(entry.0@ == piece@ && entry.1@ == parent@);
            r.push(entry);
            let ghost next = names.push(piece@);
            assert(folder_names(ps.take(i + 1)) == next);
            assert forall|k: int| 0 <= k < r.len() implies r@[k].0@ == next[k] && r@[k].1@ == folder_parent(next, k as nat) by {
                lemma_folder_parent_prefix(names, piece@, k as nat);
                if k < before.len() {
                    assert(r@[k] == before[k]);
                    assert(before[k].0@ == names[k]);
                    assert(next[k] == names[k]);
                } else {
                    assert(k == names.len());
                    assert(r@[k] == entry);
                }
            }
            push_str(&mut parent, "/");
            push_str(&mut parent, piece.as_str());
            proof {
                lemma_folder_parent_prefix(names, piece@, names.len());
            }
            assert(folder_parent(next, r.len() as nat) == folder_parent(next, (r.len() - 1) as nat) + "/"@ + next[r.len() - 1]);
        }
        i = i + 1;
    }
    assert(ps.take(i as int) =~= ps);
    r
}

proof fn lemma_folder_parent_prefix(names: Seq<Seq<char>>, x: Seq<char>, k: nat)
    requires
        k <= names.len(),
    ensures
        folder_parent(names.push(x), k) == folder_parent(names, k),
    decreases k,
{
    if k > 0 {
        lemma_folder_parent_prefix(names, x, (k - 1) as nat);
        assert(names.push(x)[k - 1] == names[k - 1]);
    }
}

/// What the device's answer to a `mkdir` request means.
pub enum FolderReply {
    /// 200: the folder was made.
    Created,
    /// 400: the device refused, most often because the folder is there; go on.
    Refused,
    /// Anything else: stop with the device's answer.
    Failed,
}

pub fn folder_reply(status: u16) -> (r: FolderReply)
    ensures
        status == 200 ==> r is Created,
        status == 400 ==> r is Refused,
        status != 200 && status != 400 ==> r is Failed,
{
    if status == 200 {
        FolderReply::Created
    } else if status == 400 {
        FolderReply::Refused
    } else {
        FolderReply::Failed
    }
}

} // verus!
