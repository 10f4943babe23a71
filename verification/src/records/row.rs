//! Records and scans.

use vstd::prelude::*;
use vstd::string::*;
use crate::mlflow::page::opt_view;
use crate::mlflow::wire::KeyValue;
use crate::text::chars::{chars_of, copied, lemma_views_push, opt_text, same_text, views};
use crate::text::map::{TextMap, copied_map, text_entries, text_under};
use crate::text::number::{parse_unsigned, read_unsigned};
use crate::text::trim::{trim, trimmed};

verus! {

/// A record: its id, its tenant, its properties that are texts, and all the
/// rest of it in serialized form.
#[derive(Debug)]
pub struct Record {
    pub oid: String,
    pub tenant_id: String,
    pub props: TextMap<String>,
    /// The properties of other types, the timestamps, and what else there is.
    pub rest: String,
}

pub struct RecordModel {
    pub oid: Seq<char>,
    pub tenant_id: Seq<char>,
    pub props: Map<Seq<char>, Seq<char>>,
    pub rest: Seq<char>,
}

impl View for Record {
    type V = RecordModel;

    open spec fn view(&self) -> RecordModel {
        RecordModel {
            oid: self.oid@,
            tenant_id: self.tenant_id@,
            props: text_entries(self.props),
            rest: self.rest@,
        }
    }
}

/// A copy of a record.
pub fn copied_record(r: &Record) -> (c: Record)
    ensures
        c@ == r@,
{
    Record {
        oid: copied(&r.oid),
        tenant_id: copied(&r.tenant_id),
        props: copied_map(&r.props),
        rest: copied(&r.rest),
    }
}

/// What a scan asks for: at most `limit` records, of a tenant, with properties
/// of given values.
#[derive(Debug)]
pub struct RecordScanOptions {
    pub limit: Option<usize>,
    pub tenant_id: Option<String>,
    pub string_properties: Vec<KeyValue>,
}

pub struct ScanModel {
    pub limit: Option<usize>,
    pub tenant_id: Option<Seq<char>>,
    pub string_properties: Seq<(Seq<char>, Seq<char>)>,
}

impl View for RecordScanOptions {
    type V = ScanModel;

    open spec fn view(&self) -> ScanModel {
        ScanModel {
            limit: self.limit,
            tenant_id: opt_text(self.tenant_id),
            string_properties: views(self.string_properties@),
        }
    }
}

/// The record is one that the scan asks for.
pub open spec fn is_asked_for(options: ScanModel, r: RecordModel) -> bool {
    &&& match options.tenant_id {
        Some(t) => r.tenant_id == t,
        None => true,
    }
    &&& forall|i: int|
        0 <= i < options.string_properties.len() ==> #[trigger] text_under(
            r.props,
            options.string_properties[i].0,
        ) == Some(options.string_properties[i].1)
}

impl RecordScanOptions {
    /// A scan for every record.
    pub fn unbounded() -> (r: Self)
        ensures
            r@ == (ScanModel {
                limit: None,
                tenant_id: None,
                string_properties: Seq::empty(),
            }),
    {
        let r: RecordScanOptions = RecordScanOptions {
            limit: None,
            tenant_id: None,
            string_properties: Vec::new(),
        };
        assert(r@.string_properties =~= Seq::empty());
        r
    }

    /// A scan for at most so many records.
    pub fn limit(limit: usize) -> (r: Self)
        ensures
            r@ == (ScanModel {
                limit: Some(limit),
                tenant_id: None,
                string_properties: Seq::empty(),
            }),
    {
        let r: RecordScanOptions = RecordScanOptions {
            limit: Some(limit),
            tenant_id: None,
            string_properties: Vec::new(),
        };
        assert(r@.string_properties =~= Seq::empty());
        r
    }

    /// The same scan, for a tenant.
    pub fn with_tenant_id(self, tenant_id: &str) -> (r: Self)
        ensures
            r@ == (ScanModel { tenant_id: Some(tenant_id@), ..self@ }),
    {
        RecordScanOptions {
            limit: self.limit,
            tenant_id: Some(tenant_id.to_owned()),
            string_properties: self.string_properties,
        }
    }

    /// The same scan, for records with a property of a value.
    pub fn with_string_property(self, key: &str, value: &str) -> (r: Self)
        ensures
            r@ == (ScanModel {
                string_properties: self@.string_properties.push((key@, value@)),
                ..self@
            }),
    {
        let mut options: RecordScanOptions = self;
        let pair: KeyValue = KeyValue { key: key.to_owned(), value: value.to_owned() };
        proof {
            lemma_views_push(options.string_properties@, pair);
        }
        options.string_properties.push(pair);
        options
    }

    /// Whether the scan asks for a record.
    pub fn matches_record(&self, r: &Record) -> (b: bool)
        ensures
            b == is_asked_for(self@, r@),
    {
        if let Some(t) = &self.tenant_id {
            if !same_text(r.tenant_id.as_str(), t.as_str()) {
                return false;
            }
        }
        let ghost wanted = self@.string_properties;
        let mut i: usize = 0;
        while i < self.string_properties.len()
            invariant
                i <= self.string_properties@.len(),
                wanted == views(self.string_properties@),
                forall|j: int|
                    0 <= j < i ==> #[trigger] text_under(r@.props, wanted[j].0) == Some(
                        wanted[j].1,
                    ),
            decreases self.string_properties@.len() - i,
        {
            let pair: &KeyValue = &self.string_properties[i];
            assert(wanted[i as int] == pair@);
            let holds_it: bool = match r.props.get(pair.key.as_str()) {
                Some(v) => same_text(v.as_str(), pair.value.as_str()),
                None => false,
            };
            if !holds_it {
                assert(text_under(r@.props, wanted[i as int].0) != Some(wanted[i as int].1));
                return false;
            }
            i += 1;
        }
        true
    }
}

/// The cap that the text of a setting gives: none unless it is a positive
/// number, so that a typing error never closes the store.
pub open spec fn cap_of(value: Option<Seq<char>>) -> Option<usize> {
    match value {
        None => None,
        Some(v) => match parse_unsigned(trim(v), usize::MAX as nat) {
            Some(n) => if n > 0 {
                Some(n as usize)
            } else {
                None
            },
            None => None,
        },
    }
}

/// Reads the setting of a memtable's cap.
pub fn configured_max_records(value: Option<&str>) -> (r: Option<usize>)
    ensures
        r == cap_of(opt_view(value)),
{
    configured_cap(value)
}

/// Reads the setting of a spilling store's threshold.
pub fn configured_flush_threshold(value: Option<&str>) -> (r: Option<usize>)
    ensures
        r == cap_of(opt_view(value)),
{
    configured_cap(value)
}

/// Reads the setting of a cap.
pub fn configured_cap(value: Option<&str>) -> (r: Option<usize>)
    ensures
        r == cap_of(opt_view(value)),
{
    match value {
        None => None,
        Some(v) => {
            let t: Vec<char> = chars_of(trimmed(v));
            match read_unsigned(t.as_slice(), usize::MAX as u64) {
                Some(n) => if n > 0 {
                    Some(n as usize)
                } else {
                    None
                },
                None => None,
            }
        },
    }
}

/// The records are those of the map, each once, in some order.
pub open spec fn is_roll(s: Seq<RecordModel>, rows: Map<Seq<char>, RecordModel>) -> bool {
    &&& forall|i: int|
        0 <= i < s.len() ==> rows.dom().contains((#[trigger] s[i]).oid) && rows[s[i].oid] == s[i]
    &&& forall|i: int, j: int|
        0 <= i < j < s.len() ==> (#[trigger] s[i]).oid != (#[trigger] s[j]).oid
    &&& forall|k: Seq<char>| #[trigger]
        rows.dom().contains(k) ==> exists|i: int| 0 <= i < s.len() && (#[trigger] s[i]).oid == k
}

/// Every record stands under its own id.
pub open spec fn under_own_ids(rows: Map<Seq<char>, RecordModel>) -> bool {
    forall|k: Seq<char>| #[trigger] rows.dom().contains(k) ==> rows[k].oid == k
}

/// Records that a scan gives: each of the map and asked for, none twice, at most
/// as many as the limit; and where there are fewer, every one that is asked for.
pub open spec fn is_scan(
    s: Seq<RecordModel>,
    rows: Map<Seq<char>, RecordModel>,
    options: ScanModel,
) -> bool {
    &&& forall|i: int|
        0 <= i < s.len() ==> rows.dom().contains((#[trigger] s[i]).oid) && rows[s[i].oid] == s[i]
            && is_asked_for(options, s[i])
    &&& forall|i: int, j: int|
        0 <= i < j < s.len() ==> (#[trigger] s[i]).oid != (#[trigger] s[j]).oid
    &&& match options.limit {
        Some(n) => s.len() <= n,
        None => true,
    }
    &&& (options.limit matches Some(n) && s.len() == n) || forall|k: Seq<char>| #[trigger]
        rows.dom().contains(k) && is_asked_for(options, rows[k]) ==> exists|i: int|
            0 <= i < s.len() && (#[trigger] s[i]).oid == k
}

} // verus!
