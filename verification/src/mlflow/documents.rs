//! The documents of the tracking store: their ids and counters.

use vstd::prelude::*;
use vstd::string::*;
use vstd::utf8::*;
use crate::mlflow::conditions::after_prefix;
use crate::text::ascii::{char_is_alphanumeric, is_alphanumeric, is_digit};
use crate::text::hex::{hex_char, hex_digit};
use crate::text::map::{TextMap, is_listing};
use crate::text::number::{decimal, decimal_text, lemma_decimal, lemma_decimal_injective};
use crate::text::search::starts_with;

verus! {

/// The encoding of one byte of a metric key.
pub open spec fn encoded_byte(b: u8) -> Seq<char> {
    if is_alphanumeric(b as char) {
        seq![b as char]
    } else {
        seq!['%', hex_digit(b as int / 16), hex_digit(b as int % 16)]
    }
}

pub open spec fn encoded_bytes(bytes: Seq<u8>) -> Seq<char>
    decreases bytes.len(),
{
    if bytes.len() == 0 {
        Seq::empty()
    } else {
        encoded_bytes(bytes.drop_last()) + encoded_byte(bytes.last())
    }
}

/// The name of the counter of a metric.
pub open spec fn counter_name(key: Seq<char>) -> Seq<char> {
    "m_"@ + encoded_bytes(encode_utf8(key))
}

/// The name of the counter of a metric: every byte that is no ASCII letter or
/// digit is written as `%` and two hexadecimal digits.
pub fn counter_key(key: &str) -> (r: String)
    ensures
        r@ == counter_name(key@),
{
    let bytes: &[u8] = key.as_bytes();
    let mut r: String = "m_".to_owned();
    let mut i: usize = 0;
    assert(r@ =~= "m_"@ + encoded_bytes(bytes@.take(0)));
    while i < bytes.len()
        invariant
            i <= bytes@.len(),
            r@ == "m_"@ + encoded_bytes(bytes@.take(i as int)),
        decreases bytes@.len() - i,
    {
        let b: u8 = bytes[i];
        let c: char = b as char;
        let ghost before = r@;
        assert(bytes@.take(i + 1).drop_last() =~= bytes@.take(i as int));
        if char_is_alphanumeric(c) {
            r.push(c);
        } else {
            r.push('%');
            r.push(hex_char(b / 16));
            r.push(hex_char(b % 16));
        }
        assert(r@ =~= before + encoded_byte(b));
        assert(r@ =~= "m_"@ + encoded_bytes(bytes@.take(i + 1)));
        i += 1;
    }
    assert(bytes@.take(i as int) =~= bytes@);
    r
}

pub open spec fn experiment_doc(experiment_id: u64) -> Seq<char> {
    "exp-"@ + decimal(experiment_id as nat)
}

pub open spec fn run_doc(run_id: Seq<char>) -> Seq<char> {
    "run-"@ + run_id
}

pub open spec fn trace_doc(trace_id: Seq<char>) -> Seq<char> {
    "trc-"@ + trace_id
}

pub open spec fn logged_model_doc(model_id: Seq<char>) -> Seq<char> {
    "lm-"@ + model_id
}

pub open spec fn dataset_doc(run_id: Seq<char>, n: u64) -> Seq<char> {
    "ds-"@ + run_id + "-"@ + decimal(n as nat)
}

/// The id of a sample: the owner, the counter of the metric and its number.
pub open spec fn sample_doc(
    kind: Seq<char>,
    owner: Seq<char>,
    key: Seq<char>,
    seq: u64,
) -> Seq<char> {
    kind + owner + "-"@ + counter_name(key) + "-"@ + decimal(seq as nat)
}

pub open spec fn metric_doc(run_id: Seq<char>, key: Seq<char>, seq: u64) -> Seq<char> {
    sample_doc("mtr-"@, run_id, key, seq)
}

pub open spec fn model_metric_doc(model_id: Seq<char>, key: Seq<char>, seq: u64) -> Seq<char> {
    sample_doc("mtrm-"@, model_id, key, seq)
}

pub fn experiment_doc_id(experiment_id: u64) -> (r: String)
    ensures
        r@ == experiment_doc(experiment_id),
{
    let id: String = decimal_text(experiment_id as u128);
    let mut r: String = "exp-".to_owned();
    r.append(id.as_str());
    r
}

fn prefixed(prefix: &str, id: &str) -> (r: String)
    ensures
        r@ == prefix@ + id@,
{
    let mut r: String = prefix.to_owned();
    r.append(id);
    r
}

pub fn run_doc_id(run_id: &str) -> (r: String)
    ensures
        r@ == run_doc(run_id@),
{
    prefixed("run-", run_id)
}

pub fn trace_doc_id(trace_id: &str) -> (r: String)
    ensures
        r@ == trace_doc(trace_id@),
{
    prefixed("trc-", trace_id)
}

pub fn logged_model_doc_id(model_id: &str) -> (r: String)
    ensures
        r@ == logged_model_doc(model_id@),
{
    prefixed("lm-", model_id)
}

pub fn dataset_doc_id(run_id: &str, n: u64) -> (r: String)
    ensures
        r@ == dataset_doc(run_id@, n),
{
    let n: String = decimal_text(n as u128);
    let mut r: String = prefixed("ds-", run_id);
    r.append("-");
    r.append(n.as_str());
    r
}

fn sample_doc_id(kind: &str, owner: &str, key: &str, seq: u64) -> (r: String)
    ensures
        r@ == sample_doc(kind@, owner@, key@, seq),
{
    let seq: String = decimal_text(seq as u128);
    let counter: String = counter_key(key);
    let mut r: String = prefixed(kind, owner);
    r.append("-");
    r.append(counter.as_str());
    r.append("-");
    r.append(seq.as_str());
    r
}

/// The id of a sample of a run.
pub fn metric_doc_id(run_id: &str, key: &str, seq: u64) -> (r: String)
    ensures
        r@ == metric_doc(run_id@, key@, seq),
{
    sample_doc_id("mtr-", run_id, key, seq)
}

/// The id of a sample of a logged model.
pub fn model_metric_doc_id(model_id: &str, key: &str, seq: u64) -> (r: String)
    ensures
        r@ == model_metric_doc(model_id@, key@, seq),
{
    sample_doc_id("mtrm-", model_id, key, seq)
}

/// The fields that keep counters, in the order of their names.
pub open spec fn counter_fields(counters: TextMap<u64>) -> Seq<(Seq<char>, i64)> {
    Seq::new(
        counters.keys().len(),
        |i: int| ("ctr_"@ + counters.keys()[i], counters@[counters.keys()[i]] as i64),
    )
}

pub open spec fn field_views(fields: Seq<(String, i64)>) -> Seq<(Seq<char>, i64)> {
    fields.map_values(|f: (String, i64)| (f.0@, f.1))
}

/// The fields that keep counters beside the record, where no tag reaches them.
pub fn fields_of_counters(counters: &TextMap<u64>) -> (r: Vec<(String, i64)>)
    ensures
        field_views(r@) == counter_fields(*counters),
{
    let n: usize = counters.len();
    let mut r: Vec<(String, i64)> = Vec::new();
    let mut i: usize = 0;
    while i < n
        invariant
            i <= n,
            n == counters.keys().len(),
            field_views(r@) == counter_fields(*counters).take(i as int),
        decreases n - i,
    {
        let name: String = prefixed("ctr_", counters.key_at(i).as_str());
        let value: u64 = *counters.value_at(i);
        let ghost before = field_views(r@);
        let ghost field = (name@, value as i64);
        r.push((name, value as i64));
        assert(field_views(r@) =~= before.push(field));
        assert(counter_fields(*counters)[i as int] == field);
        assert(field_views(r@) =~= counter_fields(*counters).take(i + 1));
        i += 1;
    }
    assert(counter_fields(*counters).take(i as int) =~= counter_fields(*counters));
    r
}

/// The counters that some integer fields keep; the other fields are none.
pub open spec fn counters_in(fields: Seq<(Seq<char>, i64)>) -> Map<Seq<char>, u64>
    decreases fields.len(),
{
    if fields.len() == 0 {
        Map::empty()
    } else {
        let rest = counters_in(fields.drop_last());
        let (name, value) = fields.last();
        if starts_with(name, "ctr_"@) {
            rest.insert(name.skip(4), value as u64)
        } else {
            rest
        }
    }
}

/// Reads the counters from the integer fields of a document.
pub fn counters_from_fields(fields: &Vec<(String, i64)>) -> (r: TextMap<u64>)
    ensures
        r@ == counters_in(field_views(fields@)),
{
    let mut r: TextMap<u64> = TextMap::new();
    let ghost all = field_views(fields@);
    let mut i: usize = 0;
    proof {
        reveal_strlit("ctr_");
    }
    assert(all.take(0) =~= Seq::empty());
    while i < fields.len()
        invariant
            i <= fields@.len(),
            all == field_views(fields@),
            "ctr_"@.len() == 4,
            r@ == counters_in(all.take(i as int)),
        decreases fields@.len() - i,
    {
        assert(all.take(i + 1).drop_last() =~= all.take(i as int));
        assert(all[i as int] == (fields@[i as int].0@, fields@[i as int].1));
        if let Some(name) = after_prefix(fields[i].0.as_str(), "ctr_") {
            let value: i64 = fields[i].1;
            r.insert(name, value as u64);
        }
        i += 1;
    }
    assert(all.take(i as int) =~= all);
    r
}

proof fn lemma_counters_read_back(counters: TextMap<u64>, n: int)
    requires
        is_listing(counters.keys(), counters@),
        0 <= n <= counters.keys().len(),
    ensures
        counters_in(counter_fields(counters).take(n)).dom() == counters.keys().take(n).to_set(),
        forall|k: Seq<char>|
            counters.keys().take(n).contains(k) ==> #[trigger] counters_in(
                counter_fields(counters).take(n),
            )[k] == counters@[k],
    decreases n,
{
    let fields = counter_fields(counters);
    let keys = counters.keys();
    if n > 0 {
        lemma_counters_read_back(counters, n - 1);
        assert(fields.take(n).drop_last() =~= fields.take(n - 1));
        let name = "ctr_"@ + keys[n - 1];
        reveal_strlit("ctr_");
        assert(name.subrange(0, 4) =~= "ctr_"@);
        assert(name.skip(4) =~= keys[n - 1]);
        let v = counters@[keys[n - 1]];
        assert((v as i64) as u64 == v) by (bit_vector);
        assert(keys.take(n) =~= keys.take(n - 1).push(keys[n - 1]));
        let read = counters_in(fields.take(n));
        assert(read == counters_in(fields.take(n - 1)).insert(keys[n - 1], v));
        assert forall|k: Seq<char>| keys.take(n).contains(k) implies #[trigger] read[k]
            == counters@[k] by {
            if k != keys[n - 1] {
                let j = choose|j: int| 0 <= j < n && #[trigger] keys[j] == k;
                assert(keys.take(n - 1)[j] == k);
            }
        }
        assert(read.dom() =~= keys.take(n).to_set()) by {
            assert forall|k: Seq<char>| #[trigger] read.dom().contains(k) == keys.take(
                n,
            ).to_set().contains(k) by {
                if keys.take(n - 1).contains(k) {
                    let j = choose|j: int| 0 <= j < n - 1 && #[trigger] keys[j] == k;
                    assert(keys.take(n)[j] == k);
                }
                if k == keys[n - 1] {
                    assert(keys.take(n)[n - 1] == k);
                }
                if keys.take(n).contains(k) && k != keys[n - 1] {
                    let j = choose|j: int| 0 <= j < n && #[trigger] keys[j] == k;
                    assert(keys.take(n - 1)[j] == k);
                }
            }
        }
    } else {
        assert(fields.take(0) =~= Seq::empty());
        assert(counters_in(fields.take(0)).dom() =~= keys.take(0).to_set());
    }
}

/// Counters survive a restart: what their fields hold reads back as the same
/// counters.
pub proof fn law_counters_read_back(counters: TextMap<u64>)
    requires
        is_listing(counters.keys(), counters@),
    ensures
        counters_in(counter_fields(counters)) == counters@,
{
    let n = counters.keys().len() as int;
    lemma_counters_read_back(counters, n);
    assert(counter_fields(counters).take(n) =~= counter_fields(counters));
    assert(counters.keys().take(n) =~= counters.keys());
    assert forall|k: Seq<char>| counters@.dom().contains(k) implies counters_in(
        counter_fields(counters),
    )[k] == #[trigger] counters@[k] by {
        assert(counters.keys().to_set().contains(k));
    }
    assert(counters_in(counter_fields(counters)) =~= counters@);
}

spec fn encoded_front(bytes: Seq<u8>) -> Seq<char>
    decreases bytes.len(),
{
    if bytes.len() == 0 {
        Seq::empty()
    } else {
        encoded_byte(bytes[0]) + encoded_front(bytes.skip(1))
    }
}

proof fn lemma_encoded_front_push(bytes: Seq<u8>, b: u8)
    ensures
        encoded_front(bytes.push(b)) == encoded_front(bytes) + encoded_byte(b),
    decreases bytes.len(),
{
    let all = bytes.push(b);
    if bytes.len() == 0 {
        assert(all.skip(1) =~= Seq::empty());
        assert(encoded_front(all.skip(1)) =~= Seq::empty());
        assert(encoded_front(all) =~= encoded_front(bytes) + encoded_byte(b));
    } else {
        lemma_encoded_front_push(bytes.skip(1), b);
        assert(all.skip(1) =~= bytes.skip(1).push(b));
        assert(encoded_front(all) =~= encoded_front(bytes) + encoded_byte(b));
    }
}

proof fn lemma_encoded_is_front(bytes: Seq<u8>)
    ensures
        encoded_bytes(bytes) == encoded_front(bytes),
    decreases bytes.len(),
{
    if bytes.len() > 0 {
        lemma_encoded_is_front(bytes.drop_last());
        lemma_encoded_front_push(bytes.drop_last(), bytes.last());
        assert(bytes.drop_last().push(bytes.last()) =~= bytes);
    }
}

proof fn lemma_front_injective(a: Seq<u8>, b: Seq<u8>)
    requires
        encoded_front(a) == encoded_front(b),
    ensures
        a == b,
    decreases a.len(),
{
    if a.len() == 0 {
        if b.len() > 0 {
            assert(encoded_front(b).len() > 0);
        }
        assert(a =~= b);
    } else if b.len() == 0 {
        assert(encoded_front(a).len() > 0);
    } else {
        let (x, y) = (encoded_front(a), encoded_front(b));
        assert(x[0] == encoded_byte(a[0])[0]);
        assert(y[0] == encoded_byte(b[0])[0]);
        if is_alphanumeric(a[0] as char) {
            assert(is_alphanumeric(b[0] as char));
        } else {
            assert(!is_alphanumeric(b[0] as char));
            assert(x[1] == encoded_byte(a[0])[1] && x[2] == encoded_byte(a[0])[2]);
            assert(y[1] == encoded_byte(b[0])[1] && y[2] == encoded_byte(b[0])[2]);
            assert(a[0] as int / 16 == b[0] as int / 16);
            assert(a[0] as int % 16 == b[0] as int % 16);
        }
        assert(a[0] == b[0]);
        let n = encoded_byte(a[0]).len() as int;
        assert(x.skip(n) =~= encoded_front(a.skip(1)));
        assert(y.skip(n) =~= encoded_front(b.skip(1)));
        lemma_front_injective(a.skip(1), b.skip(1));
        assert(a =~= seq![a[0]] + a.skip(1));
        assert(b =~= seq![b[0]] + b.skip(1));
    }
}

/// Different metrics have different counters.
pub proof fn law_counters_are_apart(a: Seq<char>, b: Seq<char>)
    requires
        counter_name(a) == counter_name(b),
    ensures
        a == b,
{
    reveal_strlit("m_");
    let (x, y) = (encode_utf8(a), encode_utf8(b));
    assert(counter_name(a).skip(2) =~= encoded_bytes(x));
    assert(counter_name(b).skip(2) =~= encoded_bytes(y));
    lemma_encoded_is_front(x);
    lemma_encoded_is_front(y);
    lemma_front_injective(x, y);
    encode_utf8_decode_utf8(a);
    encode_utf8_decode_utf8(b);
}

/// No counter of a metric is the one of the datasets.
pub proof fn law_dataset_counter_is_apart(key: Seq<char>)
    ensures
        counter_name(key) != "ds"@,
{
    reveal_strlit("m_");
    reveal_strlit("ds");
    assert(counter_name(key)[0] == 'm');
    assert("ds"@[0] == 'd');
}

proof fn lemma_split_at_dash(a: Seq<char>, t: Seq<char>, b: Seq<char>, u: Seq<char>)
    requires
        a + "-"@ + t == b + "-"@ + u,
        !t.contains('-'),
        !u.contains('-'),
    ensures
        a == b,
        t == u,
{
    reveal_strlit("-");
    let x = a + "-"@ + t;
    let y = b + "-"@ + u;
    assert("-"@.len() == 1 && "-"@[0] == '-');
    assert(x.len() == a.len() + 1 + t.len() && y.len() == b.len() + 1 + u.len());
    if a.len() < b.len() {
        assert(y[b.len() as int] == '-');
        assert(x[b.len() as int] == t[b.len() - a.len() - 1]);
        assert(t.contains('-'));
    } else if b.len() < a.len() {
        assert(x[a.len() as int] == '-');
        assert(y[a.len() as int] == u[a.len() - b.len() - 1]);
        assert(u.contains('-'));
    } else {
        assert(a =~= x.take(a.len() as int));
        assert(b =~= y.take(a.len() as int));
        assert(t =~= x.skip((a.len() + 1) as int));
        assert(u =~= y.skip((a.len() + 1) as int));
    }
}

proof fn lemma_encoded_has_no_dash(bytes: Seq<u8>)
    ensures
        !encoded_bytes(bytes).contains('-'),
    decreases bytes.len(),
{
    if bytes.len() > 0 {
        lemma_encoded_has_no_dash(bytes.drop_last());
        let rest = encoded_bytes(bytes.drop_last());
        let last = encoded_byte(bytes.last());
        assert forall|i: int| 0 <= i < encoded_bytes(bytes).len() implies encoded_bytes(bytes)[i]
            != '-' by {
            if i < rest.len() {
                assert(encoded_bytes(bytes)[i] == rest[i]);
                assert(rest.contains(rest[i]));
            } else {
                assert(encoded_bytes(bytes)[i] == last[i - rest.len()]);
            }
        }
    }
}

proof fn lemma_counter_has_no_dash(key: Seq<char>)
    ensures
        !counter_name(key).contains('-'),
{
    reveal_strlit("m_");
    lemma_encoded_has_no_dash(encode_utf8(key));
    let e = encoded_bytes(encode_utf8(key));
    assert forall|i: int| 0 <= i < counter_name(key).len() implies counter_name(key)[i] != '-' by {
        if i >= 2 {
            assert(counter_name(key)[i] == e[i - 2]);
            assert(e.contains(e[i - 2]));
        }
    }
}

proof fn lemma_decimal_has_no_dash(n: nat)
    ensures
        !decimal(n).contains('-'),
{
    lemma_decimal(n);
    assert forall|i: int| 0 <= i < decimal(n).len() implies decimal(n)[i] != '-' by {
        assert(is_digit(decimal(n)[i]));
    }
}

/// Samples never overwrite one another: the id of a sample tells the run, the
/// metric and the number of the sample.
pub proof fn law_samples_are_apart(
    owner_a: Seq<char>,
    key_a: Seq<char>,
    seq_a: u64,
    owner_b: Seq<char>,
    key_b: Seq<char>,
    seq_b: u64,
)
    ensures
        metric_doc(owner_a, key_a, seq_a) == metric_doc(owner_b, key_b, seq_b) ==> owner_a
            == owner_b && key_a == key_b && seq_a == seq_b,
        model_metric_doc(owner_a, key_a, seq_a) == model_metric_doc(owner_b, key_b, seq_b)
            ==> owner_a == owner_b && key_a == key_b && seq_a == seq_b,
{
    if metric_doc(owner_a, key_a, seq_a) == metric_doc(owner_b, key_b, seq_b) {
        lemma_samples_are_apart("mtr-"@, owner_a, key_a, seq_a, owner_b, key_b, seq_b);
    }
    if model_metric_doc(owner_a, key_a, seq_a) == model_metric_doc(owner_b, key_b, seq_b) {
        lemma_samples_are_apart("mtrm-"@, owner_a, key_a, seq_a, owner_b, key_b, seq_b);
    }
}

proof fn lemma_samples_are_apart(
    kind: Seq<char>,
    owner_a: Seq<char>,
    key_a: Seq<char>,
    seq_a: u64,
    owner_b: Seq<char>,
    key_b: Seq<char>,
    seq_b: u64,
)
    requires
        sample_doc(kind, owner_a, key_a, seq_a) == sample_doc(kind, owner_b, key_b, seq_b),
    ensures
        owner_a == owner_b,
        key_a == key_b,
        seq_a == seq_b,
{
    lemma_decimal_has_no_dash(seq_a as nat);
    lemma_decimal_has_no_dash(seq_b as nat);
    lemma_counter_has_no_dash(key_a);
    lemma_counter_has_no_dash(key_b);
    lemma_split_at_dash(
        kind + owner_a + "-"@ + counter_name(key_a),
        decimal(seq_a as nat),
        kind + owner_b + "-"@ + counter_name(key_b),
        decimal(seq_b as nat),
    );
    lemma_split_at_dash(
        kind + owner_a,
        counter_name(key_a),
        kind + owner_b,
        counter_name(key_b),
    );
    lemma_decimal_injective(seq_a as nat, seq_b as nat);
    law_counters_are_apart(key_a, key_b);
    assert((kind + owner_a).skip(kind.len() as int) =~= owner_a);
    assert((kind + owner_b).skip(kind.len() as int) =~= owner_b);
}

/// No sample of a run has the id of a sample of a model, whatever the ids.
pub proof fn law_run_and_model_samples_are_apart(
    run_id: Seq<char>,
    run_key: Seq<char>,
    run_seq: u64,
    model_id: Seq<char>,
    model_key: Seq<char>,
    model_seq: u64,
)
    ensures
        metric_doc(run_id, run_key, run_seq) != model_metric_doc(model_id, model_key, model_seq),
{
    reveal_strlit("mtr-");
    reveal_strlit("mtrm-");
    assert(metric_doc(run_id, run_key, run_seq)[3] == "mtr-"@[3]);
    assert(model_metric_doc(model_id, model_key, model_seq)[3] == "mtrm-"@[3]);
}

} // verus!
