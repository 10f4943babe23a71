//! Artifact paths and the paths of queues.

use vstd::prelude::*;
use vstd::string::*;
use crate::mlflow::artifacts::{
    ArtifactAction, ArtifactEntry, ArtifactEvent, ArtifactMethod, FileModel, RequestModel,
    StepModel, anchor_from, artifact_segments, clean_segments, entry_prefix, experiment_uri,
    proxy_request, proxy_step, repository_path, root_listing, root_removal, run_uri, sanitized,
    shown_entry, slashed,
};
use crate::mlflow::error::ErrorModel;
use crate::queue::adapter::{
    QueueFault, RootModel, child_prefix, legacy_url_of, listed_of, relative_of, root_of, url_of,
    without_slashes,
};
use crate::queue::path::{
    climbs, components, is_absolute, lemma_pieces_of_both, path_text, piece_components,
    without_dots,
};
use crate::text::ascii::is_alphanumeric;
use crate::text::number::{decimal, lemma_decimal_injective};
use crate::text::search::{ends_with, find_char, find_part, lemma_find_char, part_at};
use crate::text::split::{joined, pieces};
use crate::text::trim::trim_start_char;

verus! {

/// A name that can stand between two slashes: not empty, no dot, no parent, and
/// without a slash, a backslash and a NUL.
pub open spec fn is_name(s: Seq<char>) -> bool {
    s.len() > 0 && s != "."@ && s != ".."@ && !s.contains('/') && !s.contains('\\') && !s.contains(
        '\0',
    )
}

pub(crate) proof fn lemma_one_piece(s: Seq<char>)
    requires
        !s.contains('/'),
    ensures
        pieces(s, '/') == seq![s],
{
    lemma_find_char(s, '/', 0);
    if let Some(k) = find_char(s, '/', 0) {
        assert(s.contains(s[k]));
    }
    assert(s.skip(0) =~= s);
}

pub(crate) proof fn lemma_two_pieces(a: Seq<char>, b: Seq<char>)
    requires
        !a.contains('/'),
        !b.contains('/'),
    ensures
        pieces(a + seq!['/'] + b, '/') == seq![a, b],
{
    lemma_one_piece(a);
    lemma_one_piece(b);
    lemma_pieces_of_both(a, b, '/');
    assert(seq![a] + seq![b] =~= seq![a, b]);
}

/// The segments of a path are the names between its slashes; empty ones and dots
/// are left out, and a parent, a backslash or a NUL is refused wherever it
/// stands.
pub proof fn law_segments_are_the_names(a: Seq<char>, b: Seq<char>, bad: Seq<char>)
    requires
        is_name(a),
        is_name(b),
        bad == ".."@ || (!bad.contains('/') && (bad.contains('\\') || bad.contains('\0'))),
    ensures
        artifact_segments(a) == Ok::<Seq<Seq<char>>, ErrorModel>(seq![a]),
        artifact_segments(a + seq!['/'] + b) == Ok::<Seq<Seq<char>>, ErrorModel>(seq![a, b]),
        artifact_segments(a + seq!['/'] + seq!['.']) == Ok::<Seq<Seq<char>>, ErrorModel>(seq![a]),
        artifact_segments(a + seq!['/'] + Seq::empty()) == Ok::<Seq<Seq<char>>, ErrorModel>(
            seq![a],
        ),
        artifact_segments(a + seq!['/'] + bad) is Err,
        artifact_segments(bad + seq!['/'] + a) is Err,
        artifact_segments(Seq::empty()) is Err,
{
    reveal_strlit(".");
    reveal_strlit("..");
    let none = Seq::<char>::empty();
    assert("."@ =~= seq!['.']);
    assert("."@.len() == 1 && ".."@.len() == 2);
    assert(!bad.contains('/')) by {
        if bad == ".."@ {
            assert(bad[0] == '.' && bad[1] == '.');
        }
    }
    assert(bad.len() > 0) by {
        if bad.len() == 0 {
            assert(!bad.contains('\\') && !bad.contains('\0'));
        }
    }
    assert(bad != "."@) by {
        if bad == "."@ {
            assert(!bad.contains('\\') && !bad.contains('\0'));
        }
    }
    assert(!seq!['.'].contains('/'));
    assert(!none.contains('/'));
    lemma_one_piece(a);
    lemma_one_piece(none);
    lemma_two_pieces(a, b);
    lemma_two_pieces(a, seq!['.']);
    lemma_two_pieces(a, none);
    lemma_two_pieces(a, bad);
    lemma_two_pieces(bad, a);
    reveal_with_fuel(clean_segments, 3);
    let empty = Seq::<Seq<char>>::empty();
    assert(seq![a].drop_last() =~= empty);
    assert(seq![none].drop_last() =~= empty);
    assert(seq![a, b].drop_last() =~= seq![a]);
    assert(seq![a, seq!['.']].drop_last() =~= seq![a]);
    assert(seq![a, none].drop_last() =~= seq![a]);
    assert(seq![a, bad].drop_last() =~= seq![a]);
    assert(seq![bad, a].drop_last() =~= seq![bad]);
    assert(seq![bad].drop_last() =~= empty);
    assert(empty.push(a) =~= seq![a]);
    assert(seq![a].push(b) =~= seq![a, b]);
    assert(clean_segments(seq![bad]) is Err);
}

/// A tenant's directory keeps its letters, digits, dashes and underscores and
/// has an underscore for everything else, so that it is one name.
pub proof fn law_tenant_directories_are_plain(tenant: Seq<char>, i: int)
    requires
        0 <= i < tenant.len(),
    ensures
        sanitized(tenant).len() == tenant.len(),
        is_alphanumeric(tenant[i]) || tenant[i] == '-' || tenant[i] == '_' ==> sanitized(tenant)[i]
            == tenant[i],
        !(is_alphanumeric(tenant[i]) || tenant[i] == '-' || tenant[i] == '_') ==> sanitized(
            tenant,
        )[i] == '_',
{
}

/// An artifact is kept under the directory of its tenant, by its names.
pub proof fn law_artifacts_are_kept_by_name(tenant: Seq<char>, a: Seq<char>, b: Seq<char>)
    ensures
        repository_path(tenant, seq![a]) == sanitized(tenant) + seq!['/'] + a,
        repository_path(tenant, seq![a, b]) == sanitized(tenant) + seq!['/'] + a + seq!['/'] + b,
        repository_path(tenant, Seq::empty()) == sanitized(tenant),
{
    reveal_strlit("/");
    assert("/"@ =~= seq!['/']);
    reveal_with_fuel(slashed, 3);
    assert(seq![a].drop_last() =~= Seq::<Seq<char>>::empty());
    assert(seq![a, b].drop_last() =~= seq![a]);
    assert(repository_path(tenant, seq![a]) =~= sanitized(tenant) + seq!['/'] + a);
    assert(repository_path(tenant, seq![a, b]) =~= sanitized(tenant) + seq!['/'] + a + seq!['/']
        + b);
    assert(repository_path(tenant, Seq::empty()) =~= sanitized(tenant));
}

/// A request does what its method says, at the place of its path under its own
/// tenant; other methods are refused.
pub proof fn law_requests_do_what_they_say(
    tenant: Seq<char>,
    path: Seq<char>,
    segments: Seq<Seq<char>>,
    other: String,
)
    requires
        artifact_segments(path) == Ok::<Seq<Seq<char>>, ErrorModel>(segments),
    ensures
        proxy_request(tenant, path, ArtifactMethod::Put) matches Ok(r) && r.action is Put
            && r.repo_path == repository_path(tenant, segments) && r.path == path,
        proxy_request(tenant, path, ArtifactMethod::Get) matches Ok(r) && r.action is Get
            && r.repo_path == repository_path(tenant, segments) && r.path == path,
        proxy_request(tenant, path, ArtifactMethod::Delete) matches Ok(r) && r.action is Delete
            && r.repo_path == repository_path(tenant, segments) && r.path == path,
        proxy_request(tenant, path, ArtifactMethod::Other(other)) is Err,
        root_listing(tenant, Seq::empty()) matches Ok(r) && r.action is List && r.repo_path
            == sanitized(tenant) && r.prefix.len() == 0,
        path.len() > 0 ==> (root_listing(tenant, path) matches Ok(r) && r.action is List
            && r.repo_path == repository_path(tenant, segments)),
        path.len() > 0 ==> root_removal(tenant, path) == Ok::<Seq<char>, ErrorModel>(
            repository_path(tenant, segments),
        ),
        root_removal(tenant, Seq::empty()) is Err,
{
}

/// What is no file is listed; a listing that is empty is a missing artifact; a
/// failure is an internal error; and what is done is done.
pub proof fn law_requests_go_on(request: RequestModel, entries: Vec<ArtifactEntry>, message: String)
    ensures
        proxy_step(request, ArtifactEvent::NoFile) == Ok::<StepModel, ErrorModel>(
            StepModel::Perform(ArtifactAction::List),
        ),
        proxy_step(request, ArtifactEvent::File) == Ok::<StepModel, ErrorModel>(
            StepModel::Content,
        ),
        proxy_step(request, ArtifactEvent::Done) == Ok::<StepModel, ErrorModel>(StepModel::Empty),
        entries@.len() == 0 ==> (proxy_step(request, ArtifactEvent::Listed(entries)) matches Err(e)
            && e.status == 404),
        entries@.len() > 0 ==> (proxy_step(
            request,
            ArtifactEvent::Listed(entries),
        ) matches Ok(StepModel::Files(files)) && files.len() == entries@.len()),
        proxy_step(request, ArtifactEvent::Failed(message)) matches Err(e) && e.status == 500
            && e.message == message@,
{
}

/// An entry is shown under the directory that was listed, with its kind and
/// size.
pub proof fn law_entries_are_shown_under_their_directory(entry: FileModel, dir: Seq<char>)
    ensures
        shown_entry(entry, dir).is_dir == entry.is_dir,
        shown_entry(entry, dir).size == entry.size,
        dir.len() == 0 ==> shown_entry(entry, dir).path == entry.path,
        dir.len() > 0 ==> shown_entry(entry, dir).path == dir + seq!['/'] + entry.path,
{
    reveal_strlit("/");
    assert("/"@ =~= seq!['/']);
}

/// The names of a listing begin behind the artifact root of the run.
pub proof fn law_listings_begin_at_the_artifact_root(
    experiment: Seq<char>,
    run: Seq<char>,
    name: Seq<char>,
)
    requires
        experiment != "artifacts"@,
        run != "artifacts"@,
        name != "artifacts"@,
    ensures
        entry_prefix(seq![experiment, run, "artifacts"@]).len() == 0,
        entry_prefix(seq![experiment, run, "artifacts"@, name]) == name,
        entry_prefix(seq![name]) == name,
{
    let root = seq![experiment, run, "artifacts"@];
    let below = seq![experiment, run, "artifacts"@, name];
    reveal_with_fuel(anchor_from, 5);
    reveal_with_fuel(joined, 2);
    assert(root.skip(3) =~= Seq::<Seq<char>>::empty());
    assert(below.skip(3) =~= seq![name]);
    assert(seq![name].skip(0) =~= seq![name]);
}

/// The artifact locations of runs and experiments are told by their ids.
pub proof fn law_artifact_locations_are_apart(e: u64, f: u64, run: Seq<char>)
    ensures
        experiment_uri(e) == experiment_uri(f) ==> e == f,
        experiment_uri(e) == "mlflow-artifacts:/"@ + decimal(e as nat),
        run_uri(e, run) == experiment_uri(e) + "/"@ + run + "/artifacts"@,
{
    if experiment_uri(e) == experiment_uri(f) {
        let n = "mlflow-artifacts:/"@.len() as int;
        assert(experiment_uri(e).skip(n) =~= decimal(e as nat));
        assert(experiment_uri(f).skip(n) =~= decimal(f as nat));
        lemma_decimal_injective(e as nat, f as nat);
    }
}

pub(crate) proof fn lemma_name_components(a: Seq<char>, b: Seq<char>)
    requires
        is_name(a),
        is_name(b),
    ensures
        components(a) == seq![a],
        components(a + seq!['/'] + b) == seq![a, b],
        !climbs(seq![a]),
        !climbs(seq![a, b]),
        without_dots(seq![a]) == seq![a],
        without_dots(seq![a, b]) == seq![a, b],
        !is_absolute(a),
        !is_absolute(a + seq!['/'] + b),
{
    assert(a.contains(a[0]));
    assert((a + seq!['/'] + b)[0] == a[0]);
    lemma_one_piece(a);
    lemma_two_pieces(a, b);
    reveal_with_fuel(piece_components, 3);
    reveal_with_fuel(without_dots, 3);
    let empty = Seq::<Seq<char>>::empty();
    assert(seq![a].drop_last() =~= empty);
    assert(seq![a, b].drop_last() =~= seq![a]);
    assert(empty.push(a) =~= seq![a]);
    assert(seq![a].push(b) =~= seq![a, b]);
    assert(components(a) =~= seq![a]);
}

/// A path of a queue is kept at its names under the root.
pub proof fn law_queue_paths_are_kept_under_the_root(
    root: RootModel,
    a: Seq<char>,
    b: Seq<char>,
)
    requires
        is_name(a) && is_name(b),
        root.local_root is None,
        !ends_with(root.root_url, "/"@),
    ensures
        url_of(root, a) == Ok::<Seq<char>, QueueFault>(root.root_url + seq!['/'] + a),
        url_of(root, a + seq!['/'] + b) == Ok::<Seq<char>, QueueFault>(
            root.root_url + seq!['/'] + a + seq!['/'] + b,
        ),
        url_of(root, ".."@ + seq!['/'] + a) is Err,
        url_of(root, a + seq!['/'] + ".."@) is Err,
        url_of(root, seq!['/'] + a) is Err,
{
    reveal_strlit("/");
    reveal_strlit("..");
    reveal_strlit(".");
    assert("/"@ =~= seq!['/']);
    lemma_name_components(a, b);
    assert(a[0] != '/') by {
        assert(a.contains(a[0]));
    }
    assert(a != "/"@);
    reveal_with_fuel(joined, 2);
    assert(seq![a, b].drop_last() =~= seq![a]);
    assert(path_text(seq![a]) =~= a);
    assert(path_text(seq![a, b]) =~= a + seq!['/'] + b);
    assert(child_prefix(root.root_url) =~= root.root_url + seq!['/']);
    assert(root.root_url + seq!['/'] + (a + seq!['/'] + b) =~= root.root_url + seq!['/'] + a + seq![
        '/',
    ] + b);
    let up = ".."@;
    assert(!up.contains('/')) by {
        assert(up[0] == '.' && up[1] == '.');
    }
    lemma_two_pieces(up, a);
    lemma_two_pieces(a, up);
    reveal_with_fuel(piece_components, 3);
    assert("."@.len() == 1 && up.len() == 2);
    let empty = Seq::<Seq<char>>::empty();
    assert(seq![up].drop_last() =~= empty);
    assert(seq![a].drop_last() =~= empty);
    assert(seq![up, a].drop_last() =~= seq![up]);
    assert(seq![a, up].drop_last() =~= seq![a]);
    let x = components(up + seq!['/'] + a);
    let y = components(a + seq!['/'] + up);
    assert((up + seq!['/'] + a)[0] == '.');
    assert((a + seq!['/'] + up)[0] == a[0]);
    assert(x[0] == up);
    assert(y[1] == up);
}

proof fn lemma_no_scheme(s: Seq<char>, k: int)
    requires
        0 <= k <= s.len(),
        !s.contains(':'),
    ensures
        find_part(s, "://"@, k) is None,
    decreases s.len() - k,
{
    reveal_strlit("://");
    if k + 3 <= s.len() {
        assert(s.subrange(k, k + 3)[0] == s[k]);
        assert(s.contains(s[k]));
        assert(!part_at(s, k, "://"@));
        lemma_no_scheme(s, k + 1);
    }
}

/// An absolute path is a local root, and a relative one is refused, since what it
/// is relative to is not known.
pub proof fn law_queue_roots_are_absolute(a: Seq<char>)
    requires
        is_name(a),
        !a.contains(':'),
    ensures
        root_of(seq!['/'] + a) == Ok::<RootModel, QueueFault>(
            RootModel {
                root_url: "file:///"@ + a,
                local_root: Some(seq!['/'] + a),
            },
        ),
        root_of(a) is Err,
        root_of(Seq::empty()) is Err,
{
    reveal_strlit("/");
    reveal_strlit(":///");
    reveal_strlit("file://");
    reveal_strlit("file:///");
    reveal_strlit("..");
    let path = seq!['/'] + a;
    assert(!path.contains(':')) by {
        if path.contains(':') {
            let i = choose|i: int| 0 <= i < path.len() && path[i] == ':';
            assert(a[i - 1] == ':');
        }
    }
    lemma_no_scheme(path, 0);
    lemma_no_scheme(a, 0);
    assert(a.contains(a[0]));
    let url = "file://"@ + path;
    assert(url =~= "file:///"@ + a);
    assert(a.contains(a.last()));
    assert(url.last() == a.last());
    assert(!ends_with(url, "/"@)) by {
        if ends_with(url, "/"@) {
            assert(url.subrange(url.len() - 1, url.len() as int)[0] == '/');
        }
    }
    assert(without_slashes(url) == url);
    assert(url.subrange(0, 7) =~= "file://"@);
    assert(url.skip(7) =~= path);
    let none = Seq::<char>::empty();
    assert(path =~= none + seq!['/'] + a);
    assert(!none.contains('/'));
    lemma_two_pieces(none, a);
    reveal_with_fuel(piece_components, 3);
    assert(seq![none, a].drop_last() =~= seq![none]);
    assert(seq![none].drop_last() =~= Seq::<Seq<char>>::empty());
    let c = components(path);
    assert(c =~= seq!["/"@, a]);
    assert("/"@.len() == 1 && ".."@.len() == 2);
    assert(!climbs(c)) by {
        if climbs(c) {
            let i = choose|i: int| 0 <= i < c.len() && c[i] == ".."@;
            assert(i == 0 || i == 1);
        }
    }
}

/// A path with its root is kept where the path under the root is kept; once it
/// was kept with the root twice in it. A path under the root never was.
pub proof fn law_qualified_paths_are_kept_once(a: Seq<char>, b: Seq<char>)
    requires
        is_name(a) && is_name(b),
    ensures
        ({
            let root = RootModel {
                root_url: "file:///"@ + a,
                local_root: Some(seq!['/'] + a),
            };
            let path = seq!['/'] + a + seq!['/'] + b;
            let remote = RootModel { local_root: None, ..root };
            &&& url_of(root, path) == Ok::<Seq<char>, QueueFault>(
                "file:///"@ + a + seq!['/'] + b,
            )
            &&& url_of(root, b) == url_of(root, path)
            &&& legacy_url_of(root, path) == Ok::<Option<Seq<char>>, QueueFault>(
                Some("file:///"@ + a + seq!['/'] + a + seq!['/'] + b),
            )
            &&& legacy_url_of(root, b) == Ok::<Option<Seq<char>>, QueueFault>(None)
            &&& legacy_url_of(remote, b) == Ok::<Option<Seq<char>>, QueueFault>(None)
        }),
{
    reveal_strlit("/");
    reveal_strlit("..");
    reveal_strlit(".");
    reveal_strlit("file:///");
    assert("/"@ =~= seq!['/']);
    let url = "file:///"@ + a;
    let root = RootModel { root_url: url, local_root: Some(seq!['/'] + a) };
    let path = seq!['/'] + a + seq!['/'] + b;
    assert(a.contains(a[0]) && a.contains(a.last()) && b.contains(b[0]));
    lemma_name_components(a, b);
    lemma_name_components(b, a);
    lemma_rooted(a, b);
    let c = components(path);
    assert("/"@.len() == 1 && ".."@.len() == 2);
    assert(!climbs(c)) by {
        if climbs(c) {
            let i = choose|i: int| 0 <= i < c.len() && c[i] == ".."@;
            assert(i == 0 || i == 1 || i == 2);
        }
    }
    assert(c.take(2) =~= components(seq!['/'] + a));
    assert(c.skip(2) =~= seq![b]);
    assert(url.last() == a.last());
    if ends_with(url, "/"@) {
        assert(url.subrange(url.len() - 1, url.len() as int)[0] == '/');
    }
    assert(b != "/"@);
    assert(a != "/"@);
    reveal_with_fuel(joined, 2);
    assert(path_text(seq![b]) =~= b);
    let suffix = a + seq!['/'] + b;
    reveal_with_fuel(trim_start_char, 2);
    assert(path.drop_first() =~= suffix);
    assert(suffix[0] == a[0]);
    assert(seq![a, b].len() != seq![b].len());
    assert(child_prefix(url) + suffix =~= "file:///"@ + a + seq!['/'] + a + seq!['/'] + b);
    assert(components(b)[0] == b);
    assert(components(seq!['/'] + a)[0] == "/"@);
}

pub(crate) proof fn lemma_rooted(a: Seq<char>, b: Seq<char>)
    requires
        is_name(a) && is_name(b),
    ensures
        components(seq!['/'] + a + seq!['/'] + b) == seq![seq!['/'], a, b],
        components(seq!['/'] + a) == seq![seq!['/'], a],
{
    reveal_strlit("/");
    reveal_strlit(".");
    assert("/"@ =~= seq!['/']);
    let none = Seq::<char>::empty();
    assert(!none.contains('/'));
    let rest = a + seq!['/'] + b;
    assert(seq!['/'] + a + seq!['/'] + b =~= none + seq!['/'] + rest);
    assert(seq!['/'] + a =~= none + seq!['/'] + a);
    lemma_two_pieces(none, a);
    lemma_two_pieces(a, b);
    lemma_one_piece(none);
    lemma_pieces_of_both(none, rest, '/');
    assert(seq![none] + seq![a, b] =~= seq![none, a, b]);
    reveal_with_fuel(piece_components, 4);
    assert(seq![none, a, b].drop_last() =~= seq![none, a]);
    assert(seq![none, a].drop_last() =~= seq![none]);
    assert(seq![none].drop_last() =~= Seq::<Seq<char>>::empty());
    assert(components(seq!['/'] + a) =~= seq![seq!['/'], a]);
    assert(components(seq!['/'] + a + seq!['/'] + b) =~= seq![seq!['/'], a, b]);
}

/// A listed entry is the name under the directory that was asked for.
pub proof fn law_listed_entries_are_names(root: RootModel, dir: Seq<char>, name: Seq<char>)
    requires
        is_name(dir) && is_name(name),
        root.local_root is None,
        !ends_with(root.root_url, "/"@),
    ensures
        listed_of(root, dir, root.root_url + seq!['/'] + dir + seq!['/'] + name) == Ok::<
            Seq<char>,
            QueueFault,
        >(dir + seq!['/'] + name),
{
    reveal_strlit("/");
    reveal_strlit(".");
    assert("/"@ =~= seq!['/']);
    lemma_name_components(dir, name);
    let rest = dir + seq!['/'] + name;
    let prefix = child_prefix(root.root_url);
    let entry = root.root_url + seq!['/'] + dir + seq!['/'] + name;
    assert(prefix =~= root.root_url + seq!['/']);
    assert(entry =~= prefix + rest);
    assert(entry.subrange(0, prefix.len() as int) =~= prefix);
    assert(entry.skip(prefix.len() as int) =~= rest);
    assert(entry.len() > root.root_url.len());
    assert(dir.contains(dir[0]) && dir.contains(dir.last()));
    assert(dir != "/"@);
    let c = seq![dir, name];
    assert(c.drop_last() =~= seq![dir]);
    assert(relative_of(root, dir) == Ok::<(Seq<Seq<char>>, bool), QueueFault>((seq![dir], false)));
}

} // verus!
