//! The paths of the artifact proxy, and what it does with a request.

use vstd::prelude::*;
use vstd::slice::*;
use vstd::string::*;
use crate::mlflow::error::{
    ErrorModel, MlflowError, around, internal_error, invalid_error, not_found_error, outcome,
    outcomes, text_around,
};
use crate::text::ascii::{char_is_alphanumeric, is_alphanumeric};
use crate::text::chars::{chars_of, copied, lemma_views_push, same_text, texts, views};
use crate::text::number::{decimal, decimal_text};
use crate::text::split::{join_texts, joined, pieces, split_text};

verus! {

/// A segment that no artifact path may have.
pub open spec fn is_bad_segment(p: Seq<char>) -> bool {
    p == ".."@ || p.contains('\\') || p.contains('\0')
}

/// The segments of a path among its pieces: the empty ones and `.` are left out.
pub open spec fn clean_segments(parts: Seq<Seq<char>>) -> Result<Seq<Seq<char>>, ErrorModel>
    decreases parts.len(),
{
    if parts.len() == 0 {
        Ok(Seq::empty())
    } else {
        match clean_segments(parts.drop_last()) {
            Err(e) => Err(e),
            Ok(v) => {
                let p = parts.last();
                if p.len() == 0 || p == "."@ {
                    Ok(v)
                } else if is_bad_segment(p) {
                    Err(invalid_error(around("invalid artifact path segment '"@, p, "'"@)))
                } else {
                    Ok(v.push(p))
                }
            },
        }
    }
}

/// The segments of an artifact path.
pub open spec fn artifact_segments(path: Seq<char>) -> Result<Seq<Seq<char>>, ErrorModel> {
    match clean_segments(pieces(path, '/')) {
        Err(e) => Err(e),
        Ok(v) => if v.len() == 0 {
            Err(invalid_error("artifact path must not be empty"@))
        } else {
            Ok(v)
        },
    }
}

proof fn lemma_clean_error(parts: Seq<Seq<char>>, k: int)
    requires
        0 <= k <= parts.len(),
        clean_segments(parts.take(k)) is Err,
    ensures
        clean_segments(parts) == clean_segments(parts.take(k)),
    decreases parts.len() - k,
{
    if k < parts.len() {
        assert(parts.take(k + 1).drop_last() =~= parts.take(k));
        lemma_clean_error(parts, k + 1);
    } else {
        assert(parts.take(k) =~= parts);
    }
}

fn has_char(text: &str, c: char) -> (r: bool)
    ensures
        r == text@.contains(c),
{
    let s: Vec<char> = chars_of(text);
    let mut i: usize = 0;
    while i < s.len()
        invariant
            i <= s@.len(),
            s@ == text@,
            forall|j: int| 0 <= j < i ==> s@[j] != c,
        decreases s@.len() - i,
    {
        if s[i] == c {
            return true;
        }
        i += 1;
    }
    false
}

/// The segments of an artifact path. None of them leaves its directory.
pub fn sanitize_segments(path: &str) -> (r: Result<Vec<String>, MlflowError>)
    ensures
        outcomes(r) == artifact_segments(path@),
{
    let parts: Vec<String> = split_text(path, '/');
    let ghost all = texts(parts@);
    let mut v: Vec<String> = Vec::new();
    assert(all.take(0) =~= Seq::empty());
    assert(views(v@) =~= Seq::empty());
    let mut i: usize = 0;
    while i < parts.len()
        invariant
            i <= parts@.len(),
            all == texts(parts@),
            all == pieces(path@, '/'),
            clean_segments(all.take(i as int)) == Ok::<Seq<Seq<char>>, ErrorModel>(views(v@)),
        decreases parts@.len() - i,
    {
        assert(all.take(i + 1).drop_last() =~= all.take(i as int));
        assert(all[i as int] == parts@[i as int]@);
        let p: &str = parts[i].as_str();
        if p.unicode_len() == 0 || same_text(p, ".") {
        } else if same_text(p, "..") || has_char(p, '\\') || has_char(p, '\0') {
            proof {
                lemma_clean_error(all, i + 1);
            }
            return Err(
                MlflowError::invalid(text_around("invalid artifact path segment '", p, "'")),
            );
        } else {
            let segment: String = p.to_owned();
            proof {
                lemma_views_push(v@, segment);
            }
            v.push(segment);
        }
        i += 1;
    }
    assert(all.take(i as int) =~= all);
    if v.len() == 0 {
        return Err(MlflowError::invalid("artifact path must not be empty".to_owned()));
    }
    Ok(v)
}

/// A character that a path component keeps.
pub open spec fn is_plain(c: char) -> bool {
    is_alphanumeric(c) || c == '-' || c == '_'
}

/// The component with an underscore for every other character.
pub open spec fn sanitized(component: Seq<char>) -> Seq<char> {
    component.map_values(
        |c: char|
            if is_plain(c) {
                c
            } else {
                '_'
            },
    )
}

/// A path component of plain characters.
pub fn sanitize(component: &str) -> (r: String)
    ensures
        r@ == sanitized(component@),
{
    let s: Vec<char> = chars_of(component);
    let mut r: String = String::new();
    let mut i: usize = 0;
    while i < s.len()
        invariant
            i <= s@.len(),
            r@ == sanitized(s@.take(i as int)),
        decreases s@.len() - i,
    {
        let c: char = s[i];
        if char_is_alphanumeric(c) || c == '-' || c == '_' {
            r.push(c);
        } else {
            r.push('_');
        }
        i += 1;
        assert(r@ =~= sanitized(s@.take(i as int)));
    }
    assert(s@.take(i as int) =~= s@);
    r
}

/// The segments, each behind a slash.
pub open spec fn slashed(segments: Seq<Seq<char>>) -> Seq<char>
    decreases segments.len(),
{
    if segments.len() == 0 {
        Seq::empty()
    } else {
        slashed(segments.drop_last()) + "/"@ + segments.last()
    }
}

/// Where the repository keeps an artifact of a tenant.
pub open spec fn repository_path(tenant: Seq<char>, segments: Seq<Seq<char>>) -> Seq<char> {
    sanitized(tenant) + slashed(segments)
}

/// Where the repository keeps an artifact of a tenant.
pub fn port_path(tenant: &str, segments: &[String]) -> (r: String)
    ensures
        r@ == repository_path(tenant@, texts(segments@)),
{
    let mut r: String = sanitize(tenant);
    let mut i: usize = 0;
    assert(r@ =~= sanitized(tenant@) + slashed(texts(segments@).take(0)));
    while i < segments.len()
        invariant
            i <= segments@.len(),
            r@ == sanitized(tenant@) + slashed(texts(segments@).take(i as int)),
        decreases segments@.len() - i,
    {
        assert(texts(segments@).take(i + 1).drop_last() =~= texts(segments@).take(i as int));
        r.append("/");
        r.append(segments[i].as_str());
        assert(r@ =~= sanitized(tenant@) + slashed(texts(segments@).take(i + 1)));
        i += 1;
    }
    assert(texts(segments@).take(i as int) =~= texts(segments@));
    r
}

/// The index behind the first segment `artifacts`; 0 where there is none.
pub open spec fn anchor_from(segments: Seq<Seq<char>>, i: int) -> int
    decreases segments.len() - i,
{
    if i < 0 || i >= segments.len() {
        0
    } else if segments[i] == "artifacts"@ {
        i + 1
    } else {
        anchor_from(segments, i + 1)
    }
}

/// What stands before the names of a listing: the path from the artifact root
/// of a run on.
pub open spec fn entry_prefix(segments: Seq<Seq<char>>) -> Seq<char> {
    joined(segments.skip(anchor_from(segments, 0)), "/"@)
}

/// What stands before the names of a listing: the path from the artifact root
/// of a run on, so that a client can pass a name as its next path.
pub fn list_entry_prefix(segments: &[String]) -> (r: String)
    ensures
        r@ == entry_prefix(texts(segments@)),
{
    let mut anchor: usize = 0;
    let mut i: usize = 0;
    while i < segments.len() && anchor == 0
        invariant
            i <= segments@.len(),
            anchor <= segments@.len(),
            anchor == 0 ==> anchor_from(texts(segments@), 0) == anchor_from(
                texts(segments@),
                i as int,
            ),
            anchor != 0 ==> anchor_from(texts(segments@), 0) == anchor,
        decreases segments@.len() - i,
    {
        if same_text(segments[i].as_str(), "artifacts") {
            assert(texts(segments@)[i as int] == "artifacts"@);
            anchor = i + 1;
        }
        i += 1;
    }
    let rest: &[String] = slice_subrange(segments, anchor, segments.len());
    assert(texts(rest@) =~= texts(segments@).skip(anchor as int));
    join_texts(rest, "/")
}

/// An entry of a directory of the repository.
#[derive(Debug)]
pub struct ArtifactEntry {
    pub path: String,
    pub is_dir: bool,
    pub size_bytes: u64,
}

/// An entry of a listing.
#[derive(Debug)]
pub struct FileOut {
    pub path: String,
    pub is_dir: bool,
    pub file_size: u64,
}

pub struct FileModel {
    pub path: Seq<char>,
    pub is_dir: bool,
    pub size: u64,
}

impl View for ArtifactEntry {
    type V = FileModel;

    open spec fn view(&self) -> FileModel {
        FileModel { path: self.path@, is_dir: self.is_dir, size: self.size_bytes }
    }
}

impl View for FileOut {
    type V = FileModel;

    open spec fn view(&self) -> FileModel {
        FileModel { path: self.path@, is_dir: self.is_dir, size: self.file_size }
    }
}

/// How an entry is shown under a prefix.
pub open spec fn shown_entry(entry: FileModel, prefix: Seq<char>) -> FileModel {
    FileModel {
        path: if prefix.len() == 0 {
            entry.path
        } else {
            prefix + "/"@ + entry.path
        },
        ..entry
    }
}

/// How a directory is shown under a prefix.
pub open spec fn shown_entries(entries: Seq<FileModel>, prefix: Seq<char>) -> Seq<FileModel> {
    entries.map_values(|e: FileModel| shown_entry(e, prefix))
}

/// The listing of a directory.
pub fn entries_out(entries: &Vec<ArtifactEntry>, prefix: &str) -> (r: Vec<FileOut>)
    ensures
        views(r@) == shown_entries(views(entries@), prefix@),
{
    let bare: bool = prefix.unicode_len() == 0;
    let mut r: Vec<FileOut> = Vec::new();
    let mut i: usize = 0;
    while i < entries.len()
        invariant
            i <= entries@.len(),
            bare == (prefix@.len() == 0),
            views(r@) == shown_entries(views(entries@.take(i as int)), prefix@),
        decreases entries@.len() - i,
    {
        let entry: &ArtifactEntry = &entries[i];
        let path: String = if bare {
            copied(&entry.path)
        } else {
            text_around(prefix, "/", entry.path.as_str())
        };
        let out: FileOut = FileOut { path, is_dir: entry.is_dir, file_size: entry.size_bytes };
        proof {
            lemma_views_push(r@, out);
        }
        r.push(out);
        assert(views(r@) =~= shown_entries(views(entries@.take(i + 1)), prefix@));
        i += 1;
    }
    assert(entries@.take(i as int) =~= entries@);
    r
}

/// The method of a request to the proxy.
#[derive(Debug)]
pub enum ArtifactMethod {
    Put,
    Get,
    Delete,
    Other(String),
}

/// What the proxy asks of the repository.
#[derive(Clone, Copy, Debug, PartialEq, Eq, Structural)]
pub enum ArtifactAction {
    Put,
    Get,
    List,
    Delete,
}

/// A request to the proxy: the path that the client gave, the path in the
/// repository, what stands before the names of a listing, and what to do first.
#[derive(Debug)]
pub struct ArtifactRequest {
    pub path: String,
    pub repo_path: String,
    pub prefix: String,
    pub action: ArtifactAction,
}

pub struct RequestModel {
    pub path: Seq<char>,
    pub repo_path: Seq<char>,
    pub prefix: Seq<char>,
    pub action: ArtifactAction,
}

impl View for ArtifactRequest {
    type V = RequestModel;

    open spec fn view(&self) -> RequestModel {
        RequestModel {
            path: self.path@,
            repo_path: self.repo_path@,
            prefix: self.prefix@,
            action: self.action,
        }
    }
}

/// How the proxy begins a request.
pub open spec fn proxy_request(
    tenant: Seq<char>,
    path: Seq<char>,
    method: ArtifactMethod,
) -> Result<RequestModel, ErrorModel> {
    match artifact_segments(path) {
        Err(e) => Err(e),
        Ok(segments) => {
            let request = RequestModel {
                path,
                repo_path: repository_path(tenant, segments),
                prefix: entry_prefix(segments),
                action: ArtifactAction::Put,
            };
            match method {
                ArtifactMethod::Put => Ok(request),
                ArtifactMethod::Get => Ok((RequestModel { action: ArtifactAction::Get, ..request })),
                ArtifactMethod::Delete => Ok(
                    (RequestModel { action: ArtifactAction::Delete, ..request }),
                ),
                ArtifactMethod::Other(name) => Err(
                    invalid_error("unsupported artifact method "@ + name@),
                ),
            }
        },
    }
}

/// Begins a request to the proxy.
pub fn artifact_proxy(tenant: &str, path: &str, method: ArtifactMethod) -> (r: Result<
    ArtifactRequest,
    MlflowError,
>)
    ensures
        outcome(r) == proxy_request(tenant@, path@, method),
{
    let segments: Vec<String> = match sanitize_segments(path) {
        Err(e) => {
            return Err(e);
        },
        Ok(segments) => segments,
    };
    assert(texts(segments@) =~= views(segments@));
    let prefix: String = list_entry_prefix(segments.as_slice());
    let repo_path: String = port_path(tenant, segments.as_slice());
    let action: ArtifactAction = match method {
        ArtifactMethod::Put => ArtifactAction::Put,
        ArtifactMethod::Get => ArtifactAction::Get,
        ArtifactMethod::Delete => ArtifactAction::Delete,
        ArtifactMethod::Other(name) => {
            let mut message: String = "unsupported artifact method ".to_owned();
            message.append(name.as_str());
            return Err(MlflowError::invalid(message));
        },
    };
    Ok(ArtifactRequest { path: path.to_owned(), repo_path, prefix, action })
}

/// What the repository answered.
#[derive(Debug)]
pub enum ArtifactEvent {
    Failed(String),
    /// An upload or a removal is done.
    Done,
    /// The bytes of a file were read.
    File,
    /// There is no file at the path.
    NoFile,
    Listed(Vec<ArtifactEntry>),
}

/// What the proxy does next: it asks the repository, or it answers.
#[derive(Debug)]
pub enum ArtifactStep {
    Perform(ArtifactAction),
    /// Success without content.
    Empty,
    /// The bytes that were read.
    Content,
    Files(Vec<FileOut>),
}

pub enum StepModel {
    Perform(ArtifactAction),
    Empty,
    Content,
    Files(Seq<FileModel>),
}

impl View for ArtifactStep {
    type V = StepModel;

    open spec fn view(&self) -> StepModel {
        match self {
            ArtifactStep::Perform(action) => StepModel::Perform(*action),
            ArtifactStep::Empty => StepModel::Empty,
            ArtifactStep::Content => StepModel::Content,
            ArtifactStep::Files(files) => StepModel::Files(views(files@)),
        }
    }
}

/// The event can answer the action.
pub open spec fn answers(event: ArtifactEvent, action: ArtifactAction) -> bool {
    match event {
        ArtifactEvent::Failed(_) => true,
        ArtifactEvent::Done => action is Put || action is Delete,
        ArtifactEvent::File | ArtifactEvent::NoFile => action is Get,
        ArtifactEvent::Listed(_) => action is List,
    }
}

/// What the proxy does after an event. What is no file is listed; where the
/// listing is empty too, the artifact is missing.
pub open spec fn proxy_step(request: RequestModel, event: ArtifactEvent) -> Result<
    StepModel,
    ErrorModel,
> {
    match event {
        ArtifactEvent::Failed(message) => Err(internal_error(message@)),
        ArtifactEvent::Done => Ok(StepModel::Empty),
        ArtifactEvent::File => Ok(StepModel::Content),
        ArtifactEvent::NoFile => Ok(StepModel::Perform(ArtifactAction::List)),
        ArtifactEvent::Listed(entries) => if entries@.len() == 0 {
            Err(not_found_error(around("artifact '"@, request.path, "' does not exist"@)))
        } else {
            Ok(StepModel::Files(shown_entries(views(entries@), request.prefix)))
        },
    }
}

/// Goes on with a request after an event.
pub fn artifact_step(
    request: &ArtifactRequest,
    action: ArtifactAction,
    event: ArtifactEvent,
) -> (r: Result<ArtifactStep, MlflowError>)
    requires
        answers(event, action),
    ensures
        outcome(r) == proxy_step(request@, event),
{
    match event {
        ArtifactEvent::Failed(message) => Err(MlflowError::internal(message)),
        ArtifactEvent::Done => Ok(ArtifactStep::Empty),
        ArtifactEvent::File => Ok(ArtifactStep::Content),
        ArtifactEvent::NoFile => Ok(ArtifactStep::Perform(ArtifactAction::List)),
        ArtifactEvent::Listed(entries) => {
            if entries.len() == 0 {
                return Err(
                    MlflowError::not_found(
                        text_around("artifact '", request.path.as_str(), "' does not exist"),
                    ),
                );
            }
            Ok(ArtifactStep::Files(entries_out(&entries, request.prefix.as_str())))
        },
    }
}

/// What a request without a path of its own gave as `path`.
pub open spec fn given_path(sub: Option<String>) -> Seq<char> {
    match sub {
        Some(t) => t@,
        None => Seq::empty(),
    }
}

/// The listing that a request to the root asks for: the tenant's own root where
/// no path is given.
pub open spec fn root_listing(tenant: Seq<char>, sub: Seq<char>) -> Result<
    RequestModel,
    ErrorModel,
> {
    if sub.len() == 0 {
        Ok(
            RequestModel {
                path: sub,
                repo_path: sanitized(tenant),
                prefix: Seq::empty(),
                action: ArtifactAction::List,
            },
        )
    } else {
        match artifact_segments(sub) {
            Err(e) => Err(e),
            Ok(segments) => Ok(
                RequestModel {
                    path: sub,
                    repo_path: repository_path(tenant, segments),
                    prefix: entry_prefix(segments),
                    action: ArtifactAction::List,
                },
            ),
        }
    }
}

/// Begins a listing at the root. Whatever the repository lists is shown, an
/// empty directory too.
pub fn artifact_root_list(tenant: &str, sub: Option<String>) -> (r: Result<
    ArtifactRequest,
    MlflowError,
>)
    ensures
        outcome(r) == root_listing(tenant@, given_path(sub)),
{
    let sub: String = match sub {
        Some(t) => t,
        None => String::new(),
    };
    if sub.as_str().unicode_len() == 0 {
        return Ok(
            ArtifactRequest {
                path: sub,
                repo_path: sanitize(tenant),
                prefix: String::new(),
                action: ArtifactAction::List,
            },
        );
    }
    let segments: Vec<String> = match sanitize_segments(sub.as_str()) {
        Err(e) => {
            return Err(e);
        },
        Ok(segments) => segments,
    };
    assert(texts(segments@) =~= views(segments@));
    let prefix: String = list_entry_prefix(segments.as_slice());
    let repo_path: String = port_path(tenant, segments.as_slice());
    Ok(ArtifactRequest { path: sub, repo_path, prefix, action: ArtifactAction::List })
}

/// What a removal at the root removes. The whole tree of a tenant is never it.
pub open spec fn root_removal(tenant: Seq<char>, sub: Seq<char>) -> Result<Seq<char>, ErrorModel> {
    if sub.len() == 0 {
        Err(invalid_error("artifact delete requires an explicit ?path="@))
    } else {
        match artifact_segments(sub) {
            Err(e) => Err(e),
            Ok(segments) => Ok(repository_path(tenant, segments)),
        }
    }
}

/// The repository path that a removal at the root removes.
pub fn artifact_root_delete(tenant: &str, sub: Option<String>) -> (r: Result<String, MlflowError>)
    ensures
        outcome(r) == root_removal(tenant@, given_path(sub)),
{
    let sub: String = match sub {
        Some(t) => t,
        None => String::new(),
    };
    if sub.as_str().unicode_len() == 0 {
        return Err(
            MlflowError::invalid("artifact delete requires an explicit ?path=".to_owned()),
        );
    }
    let segments: Vec<String> = match sanitize_segments(sub.as_str()) {
        Err(e) => {
            return Err(e);
        },
        Ok(segments) => segments,
    };
    assert(texts(segments@) =~= views(segments@));
    Ok(port_path(tenant, segments.as_slice()))
}

/// The artifact URI of a run.
pub open spec fn run_uri(experiment_id: u64, run_id: Seq<char>) -> Seq<char> {
    "mlflow-artifacts:/"@ + decimal(experiment_id as nat) + "/"@ + run_id + "/artifacts"@
}

/// The artifact URI that clients resolve against the tracking host.
pub fn run_artifact_uri(experiment_id: u64, run_id: &str) -> (r: String)
    ensures
        r@ == run_uri(experiment_id, run_id@),
{
    let id: String = decimal_text(experiment_id as u128);
    let mut r: String = "mlflow-artifacts:/".to_owned();
    r.append(id.as_str());
    r.append("/");
    r.append(run_id);
    r.append("/artifacts");
    r
}

/// The artifact location of an experiment that has none of its own.
pub open spec fn experiment_uri(experiment_id: u64) -> Seq<char> {
    "mlflow-artifacts:/"@ + decimal(experiment_id as nat)
}

/// The artifact location of an experiment that has none of its own.
pub fn experiment_artifact_location(experiment_id: u64) -> (r: String)
    ensures
        r@ == experiment_uri(experiment_id),
{
    let id: String = decimal_text(experiment_id as u128);
    let mut r: String = "mlflow-artifacts:/".to_owned();
    r.append(id.as_str());
    r
}

proof fn lemma_clean_segments(parts: Seq<Seq<char>>)
    ensures
        match clean_segments(parts) {
            Ok(v) => forall|i: int|
                0 <= i < v.len() ==> (#[trigger] v[i]).len() > 0 && v[i] != "."@ && !is_bad_segment(
                    v[i],
                ),
            Err(_) => true,
        },
    decreases parts.len(),
{
    if parts.len() > 0 {
        lemma_clean_segments(parts.drop_last());
    }
}

/// No segment of an accepted path is empty, `.` or `..`, or holds a backslash
/// or a NUL: the path stays beneath the tenant's own directory.
pub proof fn law_accepted_paths_stay_inside(path: Seq<char>)
    ensures
        match artifact_segments(path) {
            Ok(v) => v.len() > 0 && forall|i: int|
                0 <= i < v.len() ==> (#[trigger] v[i]).len() > 0 && v[i] != "."@ && v[i] != ".."@
                    && !v[i].contains('\\') && !v[i].contains('\0'),
            Err(_) => true,
        },
{
    lemma_clean_segments(pieces(path, '/'));
}

proof fn lemma_slashed_starts(segments: Seq<Seq<char>>)
    ensures
        segments.len() > 0 ==> slashed(segments).len() > 0 && slashed(segments)[0] == '/',
    decreases segments.len(),
{
    reveal_strlit("/");
    if segments.len() > 0 {
        let before = slashed(segments.drop_last());
        lemma_slashed_starts(segments.drop_last());
        if segments.len() == 1 {
            assert(before.len() == 0);
        }
        assert(slashed(segments)[0] == (before + "/"@)[0]);
    }
}

/// Paths of tenants whose directories differ never meet.
pub proof fn law_tenants_are_apart(
    tenant_a: Seq<char>,
    tenant_b: Seq<char>,
    a: Seq<Seq<char>>,
    b: Seq<Seq<char>>,
)
    requires
        sanitized(tenant_a) != sanitized(tenant_b),
    ensures
        repository_path(tenant_a, a) != repository_path(tenant_b, b),
{
    let (sa, sb) = (sanitized(tenant_a), sanitized(tenant_b));
    let (ra, rb) = (repository_path(tenant_a, a), repository_path(tenant_b, b));
    lemma_slashed_starts(a);
    lemma_slashed_starts(b);
    if ra == rb {
        if sa.len() < sb.len() {
            assert(ra[sa.len() as int] == sb[sa.len() as int]);
            assert(ra.len() > sa.len());
            assert(ra[sa.len() as int] == slashed(a)[0]);
            assert(false);
        } else if sb.len() < sa.len() {
            assert(rb[sb.len() as int] == sa[sb.len() as int]);
            assert(rb[sb.len() as int] == slashed(b)[0]);
            assert(false);
        } else {
            assert forall|i: int| 0 <= i < sa.len() implies sa[i] == sb[i] by {
                assert(ra[i] == rb[i]);
            }
            assert(sa =~= sb);
        }
    }
}

} // verus!
