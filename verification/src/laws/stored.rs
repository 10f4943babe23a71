//! The documents of the tracking store, and the roots of queues.

use vstd::prelude::*;
use vstd::string::*;
use crate::laws::paths::{
    is_name, lemma_name_components, lemma_one_piece, lemma_rooted, lemma_two_pieces,
};
use crate::mlflow::documents::{
    counter_name, dataset_doc, experiment_doc, logged_model_doc, metric_doc, model_metric_doc,
    run_doc, sample_doc, trace_doc,
};
use crate::mlflow::index::{
    FieldModel, logged_model_index, metric_index, model_metric_index, run_index, trace_index,
};
use crate::queue::adapter::{
    QueueFault, RootModel, listed_of, relative_of, root_of, without_slashes,
};
use crate::queue::path::{climbs, components, lemma_pieces_of_both, piece_components, without_dots};
use crate::text::map::TextMap;
use crate::text::number::decimal;
use crate::text::search::{ends_with, find_part, part_at, starts_with};
use crate::text::split::pieces;

verus! {

/// A document has an id that begins with its kind and goes on with what it is
/// of.
pub proof fn law_documents_are_named_by_kind(
    e: u64,
    id: Seq<char>,
    key: Seq<char>,
    n: u64,
)
    ensures
        experiment_doc(e) == seq!['e', 'x', 'p', '-'] + decimal(e as nat),
        run_doc(id) == seq!['r', 'u', 'n', '-'] + id,
        trace_doc(id) == seq!['t', 'r', 'c', '-'] + id,
        logged_model_doc(id) == seq!['l', 'm', '-'] + id,
        dataset_doc(id, n) == seq!['d', 's', '-'] + id + seq!['-'] + decimal(n as nat),
        starts_with(metric_doc(id, key, n), seq!['m', 't', 'r', '-'] + id + seq!['-', 'm', '_']),
        ends_with(metric_doc(id, key, n), seq!['-'] + decimal(n as nat)),
        starts_with(
            model_metric_doc(id, key, n),
            seq!['m', 't', 'r', 'm', '-'] + id + seq!['-', 'm', '_'],
        ),
        ends_with(model_metric_doc(id, key, n), seq!['-'] + decimal(n as nat)),
{
    reveal_strlit("exp-");
    reveal_strlit("run-");
    reveal_strlit("trc-");
    reveal_strlit("lm-");
    reveal_strlit("ds-");
    reveal_strlit("-");
    reveal_strlit("mtr-");
    reveal_strlit("mtrm-");
    reveal_strlit("m_");
    assert("exp-"@ =~= seq!['e', 'x', 'p', '-']);
    assert("run-"@ =~= seq!['r', 'u', 'n', '-']);
    assert("trc-"@ =~= seq!['t', 'r', 'c', '-']);
    assert("lm-"@ =~= seq!['l', 'm', '-']);
    assert("ds-"@ =~= seq!['d', 's', '-']);
    assert("-"@ =~= seq!['-']);
    lemma_sample_doc("mtr-"@, id, key, n);
    lemma_sample_doc("mtrm-"@, id, key, n);
    assert("mtr-"@ =~= seq!['m', 't', 'r', '-']);
    assert("mtrm-"@ =~= seq!['m', 't', 'r', 'm', '-']);
}

proof fn lemma_sample_doc(kind: Seq<char>, id: Seq<char>, key: Seq<char>, n: u64)
    ensures
        starts_with(sample_doc(kind, id, key, n), kind + id + seq!['-', 'm', '_']),
        ends_with(sample_doc(kind, id, key, n), seq!['-'] + decimal(n as nat)),
{
    reveal_strlit("-");
    reveal_strlit("m_");
    let s = sample_doc(kind, id, key, n);
    let front = kind + id + seq!['-', 'm', '_'];
    let end = seq!['-'] + decimal(n as nat);
    let name = counter_name(key);
    assert(name[0] == 'm' && name[1] == '_');
    assert(s =~= kind + id + seq!['-'] + name + end);
    assert(s.subrange(0, front.len() as int) =~= front);
    assert(s.subrange(s.len() - end.len(), s.len() as int) =~= end);
}

/// What is kept beside a record tells its kind, the experiment, run or model it
/// is of, and its state or its place in its history.
pub proof fn law_records_are_indexed(
    e: u64,
    state: Seq<char>,
    counters: TextMap<u64>,
    id: Seq<char>,
    key: Seq<char>,
    n: u64,
)
    ensures
        ({
            let kind = seq!['k', 'i', 'n', 'd'];
            let experiment = seq![
                'e',
                'x',
                'p',
                'e',
                'r',
                'i',
                'm',
                'e',
                'n',
                't',
                '_',
                'i',
                'd',
            ];
            let lifecycle = seq!['l', 'i', 'f', 'e', 'c', 'y', 'c', 'l', 'e'];
            let run = run_index(e, state, counters);
            let model = logged_model_index(e, state, counters);
            let trace = trace_index(e, state);
            let metric = metric_index(id, key, n);
            let sample = model_metric_index(id, key, n);
            &&& run[0] == (kind, FieldModel::Text(seq!['r', 'u', 'n']))
            &&& run[1] == (experiment, FieldModel::Number(e as i64))
            &&& run[2] == (lifecycle, FieldModel::Text(state))
            &&& model[0] == (
                kind,
                FieldModel::Text(seq!['l', 'o', 'g', 'g', 'e', 'd', '_', 'm', 'o', 'd', 'e', 'l']),
            )
            &&& model[1] == (experiment, FieldModel::Number(e as i64))
            &&& model[2] == (lifecycle, FieldModel::Text(state))
            &&& trace[0] == (kind, FieldModel::Text(seq!['t', 'r', 'a', 'c', 'e']))
            &&& trace[1] == (experiment, FieldModel::Number(e as i64))
            &&& trace[2] == (seq!['s', 't', 'a', 't', 'e'], FieldModel::Text(state))
            &&& metric[0] == (kind, FieldModel::Text(seq!['m', 'e', 't', 'r', 'i', 'c']))
            &&& metric[1] == (seq!['r', 'u', 'n', '_', 'i', 'd'], FieldModel::Text(id))
            &&& metric[2] == (seq!['k', 'e', 'y'], FieldModel::Text(key))
            &&& metric[3] == (seq!['s', 'e', 'q'], FieldModel::Number(n as i64))
            &&& sample[0] == (
                kind,
                FieldModel::Text(seq!['m', 'o', 'd', 'e', 'l', '_', 'm', 'e', 't', 'r', 'i', 'c']),
            )
            &&& sample[1] == (seq!['m', 'o', 'd', 'e', 'l', '_', 'i', 'd'], FieldModel::Text(id))
            &&& sample[2] == metric[2] && sample[3] == metric[3]
        }),
{
    reveal_strlit("kind");
    reveal_strlit("experiment_id");
    reveal_strlit("lifecycle");
    reveal_strlit("run");
    reveal_strlit("logged_model");
    reveal_strlit("trace");
    reveal_strlit("state");
    reveal_strlit("metric");
    reveal_strlit("run_id");
    reveal_strlit("key");
    reveal_strlit("seq");
    reveal_strlit("model_metric");
    reveal_strlit("model_id");
    assert("kind"@ =~= seq!['k', 'i', 'n', 'd']);
    assert("experiment_id"@ =~= seq![
        'e',
        'x',
        'p',
        'e',
        'r',
        'i',
        'm',
        'e',
        'n',
        't',
        '_',
        'i',
        'd',
    ]);
    assert("lifecycle"@ =~= seq!['l', 'i', 'f', 'e', 'c', 'y', 'c', 'l', 'e']);
    assert("run"@ =~= seq!['r', 'u', 'n']);
    assert("logged_model"@ =~= seq!['l', 'o', 'g', 'g', 'e', 'd', '_', 'm', 'o', 'd', 'e', 'l']);
    assert("trace"@ =~= seq!['t', 'r', 'a', 'c', 'e']);
    assert("state"@ =~= seq!['s', 't', 'a', 't', 'e']);
    assert("metric"@ =~= seq!['m', 'e', 't', 'r', 'i', 'c']);
    assert("run_id"@ =~= seq!['r', 'u', 'n', '_', 'i', 'd']);
    assert("key"@ =~= seq!['k', 'e', 'y']);
    assert("seq"@ =~= seq!['s', 'e', 'q']);
    assert("model_metric"@ =~= seq!['m', 'o', 'd', 'e', 'l', '_', 'm', 'e', 't', 'r', 'i', 'c']);
    assert("model_id"@ =~= seq!['m', 'o', 'd', 'e', 'l', '_', 'i', 'd']);
}

proof fn lemma_part_is_found(s: Seq<char>, part: Seq<char>, at: int, k: int)
    requires
        0 <= k <= at,
        part_at(s, at, part),
    ensures
        find_part(s, part, k) is Some,
    decreases at - k,
{
    if k < at && !part_at(s, k, part) {
        lemma_part_is_found(s, part, at, k + 1);
    }
}

proof fn lemma_slashes(url: Seq<char>)
    requires
        url.len() > 0 && url.last() != '/',
    ensures
        without_slashes(url) == url,
        without_slashes(url + seq!['/']) == url,
{
    reveal_strlit("/");
    reveal_strlit(":///");
    assert("/"@ =~= seq!['/']);
    if ends_with(url, "/"@) {
        assert(url.subrange(url.len() - 1, url.len() as int)[0] == '/');
    }
    let t = url + seq!['/'];
    assert(t.subrange(t.len() - 1, t.len() as int) =~= "/"@);
    if ends_with(t, ":///"@) {
        assert(t.subrange(t.len() - 4, t.len() as int)[2] == t[t.len() - 2]);
        assert(t[t.len() - 2] == url.last());
    }
    assert(t.drop_last() =~= url);
    reveal_with_fuel(without_slashes, 2);
}

/// A URL is a root as it stands, without the slashes at its end; a file URL is a
/// local one, at its path. The root directory keeps its slash.
pub proof fn law_urls_are_roots(scheme: Seq<char>, a: Seq<char>)
    requires
        is_name(a),
        scheme.len() > 0 && scheme[0] != 'f',
    ensures
        ({
            let url = scheme + seq![':', '/', '/'] + a;
            let remote = Ok::<RootModel, QueueFault>(
                RootModel { root_url: url, local_root: None },
            );
            let file = "file:///"@ + a;
            let local = Ok::<RootModel, QueueFault>(
                RootModel { root_url: file, local_root: Some(seq!['/'] + a) },
            );
            &&& root_of(url) == remote
            &&& root_of(url + seq!['/']) == remote
            &&& root_of(file) == local
            &&& root_of(file + seq!['/']) == local
            &&& root_of(file + seq!['/', '.', '.']) is Err
            &&& root_of("file:///"@) == Ok::<RootModel, QueueFault>(
                RootModel { root_url: "file:///"@, local_root: Some(seq!['/']) },
            )
        }),
{
    reveal_strlit("://");
    reveal_strlit("file://");
    reveal_strlit("file:///");
    reveal_strlit("/");
    reveal_strlit(":///");
    reveal_strlit("..");
    reveal_strlit(".");
    assert("/"@ =~= seq!['/']);
    assert(a.contains(a[0]) && a.contains(a.last()));
    let url = scheme + seq![':', '/', '/'] + a;
    let n = scheme.len() as int;
    assert(url.subrange(n, n + 3) =~= "://"@);
    lemma_part_is_found(url, "://"@, n, 0);
    let slashed = url + seq!['/'];
    assert(slashed.subrange(n, n + 3) =~= "://"@);
    lemma_part_is_found(slashed, "://"@, n, 0);
    assert(url.last() == a.last());
    lemma_slashes(url);
    if starts_with(url, "file://"@) {
        assert(url.subrange(0, 7)[0] == scheme[0]);
    }
    let file = "file:///"@ + a;
    assert(file.subrange(4, 7) =~= "://"@);
    lemma_part_is_found(file, "://"@, 4, 0);
    assert((file + seq!['/']).subrange(4, 7) =~= "://"@);
    lemma_part_is_found(file + seq!['/'], "://"@, 4, 0);
    assert(file.last() == a.last());
    lemma_slashes(file);
    assert(file.subrange(0, 7) =~= "file://"@);
    assert(file.skip(7) =~= seq!['/'] + a);
    lemma_rooted(a, a);
    let c = components(seq!['/'] + a);
    assert("/"@.len() == 1 && ".."@.len() == 2);
    assert(!climbs(c)) by {
        if climbs(c) {
            let i = choose|i: int| 0 <= i < c.len() && c[i] == ".."@;
            assert(i == 0 || i == 1);
        }
    }
    let up = file + seq!['/', '.', '.'];
    assert(up.subrange(4, 7) =~= "://"@);
    lemma_part_is_found(up, "://"@, 4, 0);
    lemma_slashes(up);
    assert(up.subrange(0, 7) =~= "file://"@);
    assert(up.skip(7) =~= seq!['/'] + a + seq!['/'] + ".."@);
    lemma_climbing(a);
    let top = "file:///"@;
    assert(top.subrange(4, 7) =~= "://"@);
    lemma_part_is_found(top, "://"@, 4, 0);
    assert(top.subrange(4, 8) =~= ":///"@);
    assert(top.subrange(0, 7) =~= "file://"@);
    assert(top.skip(7) =~= seq!['/']);
    lemma_top();
}

proof fn lemma_climbing(a: Seq<char>)
    requires
        is_name(a),
    ensures
        climbs(components(seq!['/'] + a + seq!['/'] + ".."@)),
{
    reveal_strlit("..");
    reveal_strlit(".");
    let none = Seq::<char>::empty();
    let up = ".."@;
    assert(!none.contains('/'));
    assert(!up.contains('/')) by {
        assert(up[0] == '.' && up[1] == '.');
    }
    let rest = a + seq!['/'] + up;
    let path = seq!['/'] + a + seq!['/'] + up;
    assert(path =~= none + seq!['/'] + rest);
    lemma_two_pieces(a, up);
    lemma_one_piece(none);
    lemma_pieces_of_both(none, rest, '/');
    assert(seq![none] + seq![a, up] =~= seq![none, a, up]);
    reveal_with_fuel(piece_components, 4);
    assert(seq![none, a, up].drop_last() =~= seq![none, a]);
    assert(seq![none, a].drop_last() =~= seq![none]);
    assert(seq![none].drop_last() =~= Seq::<Seq<char>>::empty());
    assert("."@.len() == 1 && up.len() == 2);
    let c = components(path);
    assert(c[c.len() - 1] == up);
}

proof fn lemma_top()
    ensures
        !climbs(components(seq!['/'])),
{
    reveal_strlit("/");
    reveal_strlit("..");
    reveal_strlit(".");
    let none = Seq::<char>::empty();
    assert(!none.contains('/'));
    assert(seq!['/'] =~= none + seq!['/'] + none);
    lemma_two_pieces(none, none);
    reveal_with_fuel(piece_components, 3);
    assert(seq![none, none].drop_last() =~= seq![none]);
    assert(seq![none].drop_last() =~= Seq::<Seq<char>>::empty());
    let c = components(seq!['/']);
    assert("/"@.len() == 1 && ".."@.len() == 2);
    if climbs(c) {
        let i = choose|i: int| 0 <= i < c.len() && c[i] == ".."@;
        assert(c[i].len() == 2);
    }
}

/// A local root lists files by their URLs, and shows each by the directory that
/// was asked for and its name; what is elsewhere is refused.
pub proof fn law_local_entries_are_names(a: Seq<char>, dir: Seq<char>, name: Seq<char>)
    requires
        is_name(a) && is_name(dir) && is_name(name),
    ensures
        ({
            let root = RootModel {
                root_url: "file:///"@ + a,
                local_root: Some(seq!['/'] + a),
            };
            &&& listed_of(root, dir, "file:///"@ + a + seq!['/'] + dir + seq!['/'] + name)
                == Ok::<Seq<char>, QueueFault>(dir + seq!['/'] + name)
            &&& listed_of(root, dir, "file:///"@ + a + seq!['/'] + name) is Err
            &&& listed_of(root, dir, seq!['/'] + a + seq!['/'] + name) is Err
        }),
{
    reveal_strlit("/");
    reveal_strlit("..");
    reveal_strlit(".");
    reveal_strlit("file://");
    reveal_strlit("file:///");
    assert("/"@ =~= seq!['/']);
    let root = RootModel { root_url: "file:///"@ + a, local_root: Some(seq!['/'] + a) };
    let entry = "file:///"@ + a + seq!['/'] + name;
    lemma_name_components(dir, name);
    lemma_rooted(a, name);
    assert(components(dir)[0] == dir);
    assert(dir.contains(dir[0]));
    assert(dir != "/"@);
    assert(components(seq!['/'] + a)[0] == "/"@);
    assert(entry.subrange(0, 7) =~= "file://"@);
    assert(entry.skip(7) =~= seq!['/'] + a + seq!['/'] + name);
    reveal_with_fuel(without_dots, 4);
    let c = seq!["/"@, a, name];
    let r = seq!["/"@, a];
    assert(c.drop_last() =~= r);
    assert(r.drop_last() =~= seq!["/"@]);
    assert(seq!["/"@].drop_last() =~= Seq::<Seq<char>>::empty());
    assert("/"@[0] == '/' && "."@[0] == '.');
    assert(without_dots(c) =~= c);
    assert(without_dots(r) =~= r);
    assert(c.skip(2) =~= seq![name]);
    assert(seq![name].drop_last() =~= Seq::<Seq<char>>::empty());
    let deep = "file:///"@ + a + seq!['/'] + dir + seq!['/'] + name;
    let d = seq!["/"@, a, dir, name];
    assert(deep.subrange(0, 7) =~= "file://"@);
    assert(deep.skip(7) =~= seq!['/'] + a + seq!['/'] + dir + seq!['/'] + name);
    lemma_deep(a, dir, name);
    reveal_with_fuel(without_dots, 5);
    assert(d.drop_last() =~= seq!["/"@, a, dir]);
    assert(seq!["/"@, a, dir].drop_last() =~= r);
    assert(without_dots(d) =~= d);
    assert(d.take(2) =~= r);
    assert(d.skip(2) =~= seq![dir, name]);
    assert(seq![dir, name].drop_last() =~= seq![dir]);
    assert(!climbs(d)) by {
        if climbs(d) {
            let i = choose|i: int| 0 <= i < d.len() && d[i] == ".."@;
            assert(i == 0 || i == 1 || i == 2 || i == 3);
            assert("/"@.len() == 1 && ".."@.len() == 2);
        }
    }
    assert(dir.contains(dir.last()));
    assert(relative_of(root, dir) == Ok::<(Seq<Seq<char>>, bool), QueueFault>((seq![dir], false)));
    let plain = seq!['/'] + a + seq!['/'] + name;
    if starts_with(plain, "file://"@) {
        assert(plain.subrange(0, 7)[0] == '/');
    }
}

proof fn lemma_deep(a: Seq<char>, b: Seq<char>, c: Seq<char>)
    requires
        is_name(a) && is_name(b) && is_name(c),
    ensures
        components(seq!['/'] + a + seq!['/'] + b + seq!['/'] + c) == seq![seq!['/'], a, b, c],
{
    reveal_strlit("/");
    reveal_strlit(".");
    assert("/"@ =~= seq!['/']);
    let none = Seq::<char>::empty();
    assert(!none.contains('/'));
    let tail = b + seq!['/'] + c;
    let rest = a + seq!['/'] + tail;
    let path = seq!['/'] + a + seq!['/'] + b + seq!['/'] + c;
    assert(path =~= none + seq!['/'] + rest);
    lemma_two_pieces(b, c);
    lemma_one_piece(a);
    lemma_one_piece(none);
    lemma_pieces_of_both(a, tail, '/');
    lemma_pieces_of_both(none, rest, '/');
    assert(pieces(path, '/') =~= seq![none, a, b, c]);
    reveal_with_fuel(piece_components, 5);
    assert(seq![none, a, b, c].drop_last() =~= seq![none, a, b]);
    assert(seq![none, a, b].drop_last() =~= seq![none, a]);
    assert(seq![none, a].drop_last() =~= seq![none]);
    assert(seq![none].drop_last() =~= Seq::<Seq<char>>::empty());
    assert(components(path) =~= seq![seq!['/'], a, b, c]);
}

} // verus!
