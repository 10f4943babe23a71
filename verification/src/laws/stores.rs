//! Records, their stores, and what stores are made of.

use vstd::prelude::*;
use vstd::string::*;
use vstd::utf8::*;
use crate::records::memtable::{WalModel, deletes_in, has_room, replayed, upserts_in};
use crate::records::row::{RecordModel, ScanModel, cap_of, is_asked_for};
use crate::records::scan::picked;
use crate::records::spill::{
    SpillModel, newest_row, row_in, segment_path, ten_digits, visible, zeros,
};
use crate::storage::native::is_native_on;
use crate::storage::objects::{children_map, prefix_of, tenant_prefix_of};
use crate::storage::pax::segment_splits;
use crate::text::ascii::is_digit;
use crate::text::map::text_under;
use crate::text::number::{
    all_digits, decimal, digits_value, lemma_decimal, lemma_parse_decimal, parse_unsigned,
};
use crate::text::search::{ends_with, find_char, lemma_find_char, starts_with};
use crate::text::trim::{is_space, lemma_trimmed_part, trim, trim_end_char, trim_start_char};

verus! {

proof fn lemma_trimmed(a: Seq<char>, s: Seq<char>, b: Seq<char>)
    requires
        s.len() > 0 && !is_space(s[0]) && !is_space(s.last()),
        forall|i: int| 0 <= i < a.len() ==> is_space(#[trigger] a[i]),
        forall|i: int| 0 <= i < b.len() ==> is_space(#[trigger] b[i]),
    ensures
        trim(a + s + b) == s,
{
    let t = a + s + b;
    let n = a.len() as int;
    let m = n + s.len();
    assert forall|i: int| m <= i < t.len() implies is_space(#[trigger] t[i]) by {
        assert(t[i] == b[i - m]);
    }
    assert forall|i: int| 0 <= i < n implies is_space(#[trigger] t[i]) by {
        assert(t[i] == a[i]);
    }
    lemma_trimmed_part(t, n, m);
    assert(t.subrange(n, m) =~= s);
}

/// A setting gives the number that it holds, with any white space around it. Zero,
/// a text that is no number, and no setting at all give none.
pub proof fn law_caps_are_read(a: Seq<char>, n: nat, b: Seq<char>, other: Seq<char>)
    requires
        n <= usize::MAX,
        forall|i: int| 0 <= i < a.len() ==> is_space(#[trigger] a[i]),
        forall|i: int| 0 <= i < b.len() ==> is_space(#[trigger] b[i]),
        other.len() > 0 && 'a' <= other[0] <= 'z' && 'a' <= other.last() <= 'z',
    ensures
        n > 0 ==> cap_of(Some(a + decimal(n) + b)) == Some(n as usize),
        cap_of(Some(a + decimal(0) + b)) is None,
        cap_of(Some(other)) is None,
        cap_of(None) is None,
{
    lemma_decimal(n);
    lemma_decimal(0);
    lemma_parse_decimal(n, usize::MAX as nat);
    lemma_parse_decimal(0, usize::MAX as nat);
    assert(is_digit(decimal(n)[0]) && is_digit(decimal(n).last()));
    assert(is_digit(decimal(0)[0]) && is_digit(decimal(0).last()));
    lemma_trimmed(a, decimal(n), b);
    lemma_trimmed(a, decimal(0), b);
    let none = Seq::<char>::empty();
    lemma_trimmed(none, other, none);
    assert(none + other + none =~= other);
    assert(!is_digit(other[0]));
}

/// Native tables are on where the setting is `1`, `true` or `on`, the words in
/// small or in capital letters, with any white space around it; they are off
/// where it is `0`, `false` or `off`, and where there is none.
pub proof fn law_native_tables_are_switched(a: Seq<char>, word: Seq<char>, b: Seq<char>)
    requires
        forall|i: int| 0 <= i < a.len() ==> is_space(#[trigger] a[i]),
        forall|i: int| 0 <= i < b.len() ==> is_space(#[trigger] b[i]),
    ensures
        word == seq!['1'] || word == seq!['t', 'r', 'u', 'e'] || word == seq!['T', 'R', 'U', 'E']
            || word == seq!['o', 'n'] || word == seq!['O', 'N'] ==> is_native_on(
            Some(a + word + b),
        ),
        word == seq!['0'] || word == seq!['f', 'a', 'l', 's', 'e'] || word == seq!['o', 'f', 'f']
            || word == seq!['y', 'e', 's'] || word == seq!['T', 'r', 'u', 'e'] || word == seq![
            'O',
            'n',
        ] ==> !is_native_on(Some(a + word + b)),
        !is_native_on(None),
{
    reveal_strlit("1");
    reveal_strlit("true");
    reveal_strlit("TRUE");
    reveal_strlit("on");
    reveal_strlit("ON");
    assert("1"@ =~= seq!['1']);
    assert("true"@ =~= seq!['t', 'r', 'u', 'e']);
    assert("TRUE"@ =~= seq!['T', 'R', 'U', 'E']);
    assert("on"@ =~= seq!['o', 'n']);
    assert("ON"@ =~= seq!['O', 'N']);
    if word.len() > 0 && !is_space(word[0]) && !is_space(word.last()) {
        lemma_trimmed(a, word, b);
        assert("1"@[0] == '1' && "true"@[0] == 't' && "TRUE"@[0] == 'T' && "on"@[0] == 'o'
            && "ON"@[0] == 'O' && "TRUE"@[1] == 'R' && "ON"@[1] == 'N' && "on"@[1] == 'n');
        assert("on"@.len() == 2 && "true"@.len() == 4);
    }
}

/// A tenant has an id of 1 to 64 bytes.
pub proof fn law_tenant_ids_are_bounded(tenant: Seq<char>)
    ensures
        tenant_prefix_of(tenant) is Ok <==> 1 <= encode_utf8(tenant).len() <= 64,
        tenant_prefix_of(tenant) matches Ok(prefix) ==> starts_with(
            prefix,
            "mlflow_artifacts_v2/"@,
        ),
{
    let p = prefix_of(tenant);
    let n = "mlflow_artifacts_v2/"@.len() as int;
    assert(p.subrange(0, n) =~= "mlflow_artifacts_v2/"@);
}

/// A key with one name behind the prefix is a file of that name; one with more
/// behind the name makes it a directory, whatever else is there; a key that is
/// the prefix shows nothing. Other entries stay.
pub proof fn law_keys_are_children(
    prefix: Seq<char>,
    keys: Seq<Seq<char>>,
    name: Seq<char>,
    rest: Seq<char>,
    other: Seq<char>,
)
    requires
        name.len() > 0 && !name.contains('/'),
        other != name,
    ensures
        ({
            let before = children_map(prefix, keys);
            let file = children_map(prefix, keys.push(prefix + seq!['/'] + name));
            let dir = children_map(prefix, keys.push(prefix + seq!['/'] + name + seq!['/'] + rest));
            &&& file.dom().contains(name)
            &&& !before.dom().contains(name) ==> !file[name]
            &&& before.dom().contains(name) ==> file[name] == before[name]
            &&& dir.dom().contains(name) && dir[name]
            &&& file.dom().contains(other) == before.dom().contains(other)
            &&& dir.dom().contains(other) == before.dom().contains(other)
            &&& before.dom().contains(other) ==> file[other] == before[other] && dir[other]
                == before[other]
            &&& children_map(prefix, keys.push(prefix)) == before
            &&& children_map(prefix, keys.push(prefix + name)) == file
        }),
{
    let n = prefix.len() as int;
    let a = prefix + seq!['/'] + name;
    let b = prefix + seq!['/'] + name + seq!['/'] + rest;
    let below = name + seq!['/'] + rest;
    assert(name.contains(name[0]));
    assert(name[0] != '/');
    reveal_with_fuel(trim_start_char, 2);
    assert(a.skip(n) =~= seq!['/'] + name);
    assert((seq!['/'] + name).drop_first() =~= name);
    assert(b.skip(n) =~= seq!['/'] + below);
    assert((seq!['/'] + below).drop_first() =~= below);
    assert(below[0] == name[0]);
    assert(prefix.skip(n) =~= Seq::<char>::empty());
    assert((prefix + name).skip(n) =~= name);
    assert(keys.push(a).drop_last() =~= keys);
    assert(keys.push(b).drop_last() =~= keys);
    assert(keys.push(prefix).drop_last() =~= keys);
    assert(keys.push(prefix + name).drop_last() =~= keys);
    lemma_find_char(name, '/', 0);
    if let Some(k) = find_char(name, '/', 0) {
        assert(name.contains(name[k]));
    }
    lemma_find_char(below, '/', 0);
    let m = name.len() as int;
    assert(below[m] == '/');
    assert forall|j: int| 0 <= j < m implies below[j] != '/' by {
        assert(name.contains(name[j]));
    }
    assert(find_char(below, '/', 0) == Some(m));
    assert(below.take(m) =~= name);
}

/// A file whose name ends in `.pax` is read whole, by one reader, from its place
/// in the directory; other files are not read.
pub proof fn law_segments_are_read_whole(
    base: Seq<char>,
    entries: Seq<(Seq<char>, u64)>,
    name: Seq<char>,
    size: u64,
)
    ensures
        ({
            let before = segment_splits(base, entries);
            let segment = segment_splits(base, entries.push((name + seq!['.', 'p', 'a', 'x'], size)));
            let other = segment_splits(base, entries.push((name, size)));
            &&& segment.len() == before.len() + 1
            &&& segment.take(before.len() as int) == before
            &&& segment.last().file_path == base + seq!['/'] + name + seq!['.', 'p', 'a', 'x']
            &&& segment.last().offset == 0 && segment.last().length == size
            &&& segment.last().object_size == Some(size)
            &&& segment.last().block_id == 0 && segment.last().record_count == 0
            &&& name.len() > 0 && name.last() != 'x' ==> other == before
            &&& segment_splits(base, Seq::empty()).len() == 0
        }),
{
    reveal_strlit(".pax");
    reveal_strlit("/");
    assert(".pax"@ =~= seq!['.', 'p', 'a', 'x']);
    assert("/"@ =~= seq!['/']);
    let full = name + ".pax"@;
    let e = entries.push((full, size));
    let f = entries.push((name, size));
    assert(e.drop_last() =~= entries);
    assert(f.drop_last() =~= entries);
    assert(full.subrange(full.len() - 4, full.len() as int) =~= ".pax"@);
    let before = segment_splits(base, entries);
    assert(segment_splits(base, e).take(before.len() as int) =~= before);
    assert(base + seq!['/'] + full =~= base + seq!['/'] + name + seq!['.', 'p', 'a', 'x']);
    if ends_with(name, ".pax"@) {
        assert(name.subrange(name.len() - 4, name.len() as int)[3] == name.last());
    }
}

/// A scan asks for the records of its tenant that have every property of the
/// scan with its value.
pub proof fn law_scans_ask_for_all_of_it(
    options: ScanModel,
    key: Seq<char>,
    value: Seq<char>,
    tenant: Seq<char>,
    r: RecordModel,
)
    ensures
        ({
            let more = ScanModel {
                string_properties: options.string_properties.push((key, value)),
                ..options
            };
            let all = ScanModel {
                limit: options.limit,
                tenant_id: None,
                string_properties: Seq::empty(),
            };
            &&& is_asked_for(all, r)
            &&& is_asked_for(more, r) <==> is_asked_for(options, r) && r.props.dom().contains(key)
                && r.props[key] == value
            &&& is_asked_for(ScanModel { tenant_id: Some(tenant), ..all }, r) <==> r.tenant_id
                == tenant
        }),
{
    let wanted = options.string_properties;
    let push = wanted.push((key, value));
    assert(push[wanted.len() as int] == (key, value));
    assert(forall|i: int| 0 <= i < wanted.len() ==> push[i] == #[trigger] wanted[i]);
    let more = ScanModel { string_properties: push, ..options };
    if is_asked_for(more, r) {
        assert(text_under(r.props, push[wanted.len() as int].0) == Some(
            push[wanted.len() as int].1,
        ));
        assert forall|i: int| 0 <= i < wanted.len() implies #[trigger] text_under(
            r.props,
            wanted[i].0,
        ) == Some(wanted[i].1) by {
            assert(text_under(r.props, push[i].0) == Some(push[i].1));
        }
    }
}

/// A scan of a list gives records that it asks for, at most as many as its limit,
/// and where it gives fewer, each that it asks for.
pub proof fn law_picked_records_are_asked_for(
    all: Seq<RecordModel>,
    options: ScanModel,
    n: int,
    i: int,
)
    requires
        0 <= n <= all.len(),
    ensures
        ({
            let s = picked(all, options, n);
            &&& 0 <= i < s.len() ==> is_asked_for(options, s[i]) && all.contains(s[i])
            &&& options.limit matches Some(max) ==> s.len() <= max
            &&& 0 <= i < n && is_asked_for(options, all[i]) && (options.limit is None || s.len()
                < options.limit->0) ==> s.contains(all[i])
        }),
    decreases n,
{
    if n > 0 {
        let s = picked(all, options, n - 1);
        law_picked_records_are_asked_for(all, options, n - 1, i);
        if i < n - 1 && s.contains(all[i]) {
            let k = choose|k: int| 0 <= k < s.len() && s[k] == all[i];
            assert(picked(all, options, n)[k] == all[i]);
        }
        if i == n - 1 && is_asked_for(options, all[n - 1]) {
            let t = s.push(all[n - 1]);
            assert(t[s.len() as int] == all[n - 1]);
        }
        assert(all.contains(all[n - 1]));
    }
}

/// A full memtable takes no further record, but one in the place of another; a
/// memtable without a cap is never full.
pub proof fn law_full_memtables_replace_only(
    rows: Map<Seq<char>, RecordModel>,
    max: usize,
    oid: Seq<char>,
)
    ensures
        has_room(rows, None, oid),
        rows.dom().len() < max ==> has_room(rows, Some(max), oid),
        rows.dom().contains(oid) ==> has_room(rows, Some(max), oid),
        rows.dom().len() >= max && !rows.dom().contains(oid) ==> !has_room(rows, Some(max), oid),
{
}

/// A replay leaves the last thing that was said of each record; where there is no
/// room it stops.
pub proof fn law_replays_keep_the_last(
    rows: Map<Seq<char>, RecordModel>,
    max: Option<usize>,
    entries: Seq<WalModel>,
    r: RecordModel,
    other: Seq<char>,
)
    requires
        other != r.oid,
        replayed(rows, max, entries) is Ok,
    ensures
        ({
            let before = replayed(rows, max, entries)->Ok_0;
            let set = replayed(rows, max, entries.push(WalModel::Upsert(r)));
            let gone = replayed(rows, max, entries.push(WalModel::Delete(r.oid)));
            let same = replayed(rows, max, entries.push(WalModel::Other));
            &&& max is None || before.dom().contains(r.oid) || before.dom().len() < max->0 ==> (
            set matches Ok(m) && m.dom().contains(r.oid) && m[r.oid] == r && (m.dom().contains(
                other,
            ) <==> before.dom().contains(other)) && (m.dom().contains(other) ==> m[other]
                == before[other]))
            &&& max is Some && !before.dom().contains(r.oid) && before.dom().len() >= max->0
                ==> set == Err::<Map<Seq<char>, RecordModel>, Map<Seq<char>, RecordModel>>(before)
            &&& gone matches Ok(m) && !m.dom().contains(r.oid) && (m.dom().contains(other)
                <==> before.dom().contains(other)) && (m.dom().contains(other) ==> m[other]
                == before[other])
            &&& same == Ok::<Map<Seq<char>, RecordModel>, Map<Seq<char>, RecordModel>>(before)
        }),
{
    assert(entries.push(WalModel::Upsert(r)).drop_last() =~= entries);
    assert(entries.push(WalModel::Delete(r.oid)).drop_last() =~= entries);
    assert(entries.push(WalModel::Other).drop_last() =~= entries);
}

/// What a replay stopped at stays, and nothing replayed is nothing changed.
pub proof fn law_replays_stop(
    rows: Map<Seq<char>, RecordModel>,
    max: Option<usize>,
    entries: Seq<WalModel>,
    entry: WalModel,
)
    ensures
        replayed(rows, max, Seq::empty()) == Ok::<
            Map<Seq<char>, RecordModel>,
            Map<Seq<char>, RecordModel>,
        >(rows),
        replayed(rows, max, entries) is Err ==> replayed(rows, max, entries.push(entry))
            == replayed(rows, max, entries),
{
    assert(entries.push(entry).drop_last() =~= entries);
}

/// A replay counts each entry that sets a record and each that removes one.
pub proof fn law_replays_are_counted(entries: Seq<WalModel>, r: RecordModel, oid: Seq<char>)
    ensures
        upserts_in(Seq::empty()) == 0 && deletes_in(Seq::empty()) == 0,
        upserts_in(entries.push(WalModel::Upsert(r))) == upserts_in(entries) + 1,
        deletes_in(entries.push(WalModel::Upsert(r))) == deletes_in(entries),
        deletes_in(entries.push(WalModel::Delete(oid))) == deletes_in(entries) + 1,
        upserts_in(entries.push(WalModel::Delete(oid))) == upserts_in(entries),
        upserts_in(entries.push(WalModel::Other)) == upserts_in(entries),
        deletes_in(entries.push(WalModel::Other)) == deletes_in(entries),
{
    assert(entries.push(WalModel::Upsert(r)).drop_last() =~= entries);
    assert(entries.push(WalModel::Delete(oid)).drop_last() =~= entries);
    assert(entries.push(WalModel::Other).drop_last() =~= entries);
}

/// A reader sees the record in memory; without one, that of the newest segment;
/// and none that was removed.
pub proof fn law_readers_see_the_newest(
    store: SpillModel,
    segments: Seq<Seq<RecordModel>>,
    newest: Seq<RecordModel>,
    r: RecordModel,
)
    ensures
        store.tombstones.contains(r.oid) ==> visible(store, segments, r.oid) is None,
        !store.tombstones.contains(r.oid) && store.memtable.dom().contains(r.oid) ==> visible(
            store,
            segments,
            r.oid,
        ) == Some(store.memtable[r.oid]),
        !store.tombstones.contains(r.oid) && !store.memtable.dom().contains(r.oid) ==> {
            &&& visible(store, segments.push(seq![r] + newest), r.oid) == Some(r)
            &&& (forall|i: int| 0 <= i < newest.len() ==> (#[trigger] newest[i]).oid != r.oid)
                ==> visible(store, segments.push(newest), r.oid) == visible(store, segments, r.oid)
            &&& visible(store, Seq::empty(), r.oid) is None
        },
{
    let n = segments.len() as int;
    let a = segments.push(seq![r] + newest);
    let b = segments.push(newest);
    assert((seq![r] + newest)[0] == r);
    lemma_older_row(segments, a, r.oid, n);
    lemma_older_row(segments, b, r.oid, n);
    if forall|i: int| 0 <= i < newest.len() ==> (#[trigger] newest[i]).oid != r.oid {
        lemma_no_row(newest, r.oid, 0);
    }
}

proof fn lemma_older_row(a: Seq<Seq<RecordModel>>, b: Seq<Seq<RecordModel>>, oid: Seq<char>, n: int)
    requires
        0 <= n <= a.len() <= b.len(),
        forall|i: int| 0 <= i < n ==> #[trigger] a[i] == b[i],
    ensures
        newest_row(a, oid, n) == newest_row(b, oid, n),
    decreases n,
{
    if n > 0 {
        assert(a[n - 1] == b[n - 1]);
        lemma_older_row(a, b, oid, n - 1);
    }
}

proof fn lemma_no_row(segment: Seq<RecordModel>, oid: Seq<char>, k: int)
    requires
        0 <= k,
        forall|i: int| 0 <= i < segment.len() ==> (#[trigger] segment[i]).oid != oid,
    ensures
        row_in(segment, oid, k) is None,
    decreases segment.len() - k,
{
    if k < segment.len() {
        assert(segment[k].oid != oid);
        lemma_no_row(segment, oid, k + 1);
    }
}

/// The path of a segment is that of its directory, `spill-`, its number with ten
/// digits or more, and `.parquet`. A slash behind the directory changes nothing.
pub proof fn law_segments_have_numbered_paths(base: Seq<char>, n: u64)
    requires
        base.len() == 0 || base.last() != '/',
    ensures
        ({
            let path = segment_path(base, n);
            let front = base + seq!['/', 's', 'p', 'i', 'l', 'l', '-'];
            let end = seq!['.', 'p', 'a', 'r', 'q', 'u', 'e', 't'];
            let digits = path.subrange(front.len() as int, path.len() - 8);
            &&& path.take(front.len() as int) == front
            &&& path.skip(path.len() - 8) == end
            &&& digits.len() >= 10
            &&& n < 10_000_000_000 ==> digits.len() == 10
            &&& parse_unsigned(digits, u64::MAX as nat) == Some(n as nat)
            &&& segment_path(base + seq!['/'], n) == path
        }),
{
    reveal_strlit("/spill-");
    reveal_strlit(".parquet");
    reveal_with_fuel(trim_end_char, 2);
    assert("/spill-"@ =~= seq!['/', 's', 'p', 'i', 'l', 'l', '-']);
    assert(".parquet"@ =~= seq!['.', 'p', 'a', 'r', 'q', 'u', 'e', 't']);
    assert((base + seq!['/']).drop_last() =~= base);
    let path = segment_path(base, n);
    let front = base + "/spill-"@;
    let digits = ten_digits(n as nat);
    assert(path.take(front.len() as int) =~= front);
    assert(path.skip(path.len() - 8) =~= ".parquet"@);
    assert(path.subrange(front.len() as int, path.len() - 8) =~= digits);
    lemma_decimal(n as nat);
    lemma_short_decimal(n as nat, 10);
    if decimal(n as nat).len() < 10 {
        lemma_padded((10 - decimal(n as nat).len()) as nat, decimal(n as nat));
    }
    assert(is_digit(digits[0]));
}

proof fn lemma_short_decimal(n: nat, k: nat)
    requires
        k > 0,
    ensures
        n < vstd::arithmetic::power::pow(10, k) ==> decimal(n).len() <= k,
        k == 10 ==> vstd::arithmetic::power::pow(10, k) == 10_000_000_000,
    decreases k,
{
    reveal(vstd::arithmetic::power::pow);
    if k == 10 {
        assert(vstd::arithmetic::power::pow(10, 10) == 10_000_000_000) by {
            reveal_with_fuel(vstd::arithmetic::power::pow, 11);
        }
    }
    if k == 1 {
        assert(vstd::arithmetic::power::pow(10, 1) == 10) by {
            reveal_with_fuel(vstd::arithmetic::power::pow, 3);
        }
    } else if n >= 10 {
        lemma_short_decimal(n / 10, (k - 1) as nat);
        assert(vstd::arithmetic::power::pow(10, k) == 10 * vstd::arithmetic::power::pow(
            10,
            (k - 1) as nat,
        ));
    }
}

proof fn lemma_padded(k: nat, s: Seq<char>)
    requires
        all_digits(s),
    ensures
        all_digits(zeros(k) + s),
        digits_value(zeros(k) + s) == digits_value(s),
    decreases s.len(),
{
    let t = zeros(k) + s;
    if s.len() > 0 {
        assert(t.drop_last() =~= zeros(k) + s.drop_last());
        assert(t.last() == s.last());
        assert forall|i: int| 0 <= i < s.drop_last().len() implies is_digit(
            #[trigger] s.drop_last()[i],
        ) by {
            assert(is_digit(s[i]));
        }
        lemma_padded(k, s.drop_last());
        assert forall|i: int| 0 <= i < t.len() implies is_digit(#[trigger] t[i]) by {
            if i >= k {
                assert(is_digit(s[i - k]));
            }
        }
    } else {
        assert(t =~= zeros(k));
        lemma_zero(k);
    }
}

proof fn lemma_zero(k: nat)
    ensures
        digits_value(zeros(k)) == 0,
    decreases k,
{
    if k > 0 {
        assert(zeros(k).drop_last() =~= zeros((k - 1) as nat));
        lemma_zero((k - 1) as nat);
    }
}

} // verus!
