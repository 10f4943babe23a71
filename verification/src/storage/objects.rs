//! Artifacts in an object store: the keys of a tenant, and what a prefix holds.

use vstd::prelude::*;
use vstd::string::*;
use vstd::utf8::*;
use crate::text::ascii::is_digit;
use crate::text::chars::{chars_of, copied, lemma_views_push, text_of, text_of_range, texts, views};
use crate::text::hex::{hex_of, hex_text, law_hex_is_injective};
use crate::text::map::{TextMap, is_listing};
use crate::text::number::{decimal, decimal_text, lemma_decimal};
use crate::text::search::{find_char, position_of_char, starts_with};
use crate::text::trim::trim_start_char;

verus! {

/// The greatest length of a tenant's id, in bytes.
pub const MAX_ARTIFACT_TENANT_ID_BYTES: usize = 64;

/// An error of an artifact store.
#[derive(Debug)]
pub enum ArtifactBackendError {
    Invalid(String),
    Internal(String),
    UnsupportedPlatform(String),
}

pub enum ArtifactFault {
    Invalid(Seq<char>),
    Internal(Seq<char>),
    UnsupportedPlatform(Seq<char>),
}

impl View for ArtifactBackendError {
    type V = ArtifactFault;

    open spec fn view(&self) -> ArtifactFault {
        match self {
            ArtifactBackendError::Invalid(m) => ArtifactFault::Invalid(m@),
            ArtifactBackendError::Internal(m) => ArtifactFault::Internal(m@),
            ArtifactBackendError::UnsupportedPlatform(m) => ArtifactFault::UnsupportedPlatform(m@),
        }
    }
}

/// The outcome of an operation of an artifact store, over views.
pub open spec fn kept<T: View>(r: Result<T, ArtifactBackendError>) -> Result<T::V, ArtifactFault> {
    match r {
        Ok(t) => Ok(t@),
        Err(e) => Err(e@),
    }
}

/// The parts of an object path, or what is wrong with it.
pub uninterp spec fn object_path_parts(text: Seq<char>) -> Result<Seq<Seq<char>>, Seq<char>>;

/// The text of the object path with these segments, each encoded where it has to
/// be.
pub uninterp spec fn object_path_text(segments: Seq<Seq<char>>) -> Seq<char>;

/// `object_store::path::Path::parse` and `Path::parts`: the parts of a path, a
/// function of its text; the error is what its `Display` shows.
#[verifier::external_body]
fn parse_object_path(text: &str) -> (r: Result<Vec<String>, String>)
    ensures
        (match r {
            Ok(v) => Ok(texts(v@)),
            Err(e) => Err(e@),
        }) == object_path_parts(text@),
{
    let path = object_store::path::Path::parse(text).map_err(|e| e.to_string())?;
    Ok(path.parts().map(|p| p.as_ref().to_string()).collect())
}

/// `object_store::path::Path::from_iter`: the text of the path, a function of the
/// segments.
#[verifier::external_body]
fn object_path(segments: &Vec<String>) -> (r: String)
    ensures
        r@ == object_path_text(texts(segments@)),
{
    object_store::path::Path::from_iter(segments.iter().map(|s| s.as_str())).to_string()
}

/// The prefix of a tenant's keys: the length of its id, and the id in
/// hexadecimal.
pub open spec fn prefix_of(tenant: Seq<char>) -> Seq<char> {
    "mlflow_artifacts_v2/"@ + decimal(encode_utf8(tenant).len()) + "/"@ + hex_text(
        encode_utf8(tenant),
    )
}

/// The prefix of a tenant with an id of an admitted length.
pub open spec fn tenant_prefix_of(tenant: Seq<char>) -> Result<Seq<char>, ArtifactFault> {
    let n = encode_utf8(tenant).len();
    if n == 0 || n > MAX_ARTIFACT_TENANT_ID_BYTES {
        Err(ArtifactFault::Invalid("artifact tenant id must be 1..=64 UTF-8 bytes"@))
    } else {
        Ok(prefix_of(tenant))
    }
}

/// Makes artifact stores from the URL of a tracked store.
#[derive(Debug)]
pub struct S3ArtifactBackendFactory {
    url: String,
}

/// The artifacts of a tenant: the parts of the prefix of its keys.
#[derive(Debug)]
pub struct S3ArtifactBackend {
    base: Vec<String>,
}

impl S3ArtifactBackendFactory {
    pub closed spec fn location(&self) -> Seq<char> {
        self.url@
    }

    pub fn new(url: String) -> (r: Self)
        ensures
            r.location() == url@,
    {
        S3ArtifactBackendFactory { url }
    }

    /// The URL of the store.
    pub fn url(&self) -> (r: &String)
        ensures
            r@ == self.location(),
    {
        &self.url
    }

    /// The prefix of a tenant's keys.
    pub fn tenant_prefix(tenant_id: &str) -> (r: Result<String, ArtifactBackendError>)
        ensures
            kept(r) == tenant_prefix_of(tenant_id@),
    {
        let bytes: &[u8] = tenant_id.as_bytes();
        let n: usize = bytes.len();
        if n == 0 || n > MAX_ARTIFACT_TENANT_ID_BYTES {
            return Err(
                ArtifactBackendError::Invalid(
                    "artifact tenant id must be 1..=64 UTF-8 bytes".to_owned(),
                ),
            );
        }
        let len: String = decimal_text(n as u128);
        let id: String = hex_of(bytes);
        let mut r: String = "mlflow_artifacts_v2/".to_owned();
        r.append(len.as_str());
        r.append("/");
        r.append(id.as_str());
        Ok(r)
    }

    /// The artifacts of a tenant.
    pub fn backend_for(&self, tenant_id: &str) -> (r: Result<S3ArtifactBackend, ArtifactBackendError>)
        ensures
            match tenant_prefix_of(tenant_id@) {
                Err(e) => r matches Err(x) && x@ == e,
                Ok(prefix) => match object_path_parts(prefix) {
                    Err(e) => r matches Err(x) && x@ == ArtifactFault::Internal(
                        "tenant prefix: "@ + e,
                    ),
                    Ok(parts) => r matches Ok(b) && b.parts() == parts,
                },
            },
    {
        match Self::tenant_prefix(tenant_id) {
            Err(e) => Err(e),
            Ok(prefix) => S3ArtifactBackend::at(parse_object_path(prefix.as_str())),
        }
    }

    /// The error where object stores are not part of the build.
    pub fn unsupported() -> (r: ArtifactBackendError)
        ensures
            r@ == ArtifactFault::UnsupportedPlatform(
                "the MLflow S3 artifact backend requires building with --features aws (unset PROXIMADB_MLFLOW_ARTIFACTS_URL to use the hardened local backend)"@,
            ),
    {
        ArtifactBackendError::UnsupportedPlatform(
            "the MLflow S3 artifact backend requires building with --features aws (unset PROXIMADB_MLFLOW_ARTIFACTS_URL to use the hardened local backend)".to_owned(),
        )
    }
}

/// An entry of a listing.
#[derive(Debug)]
pub struct ArtifactBackendEntry {
    pub name: String,
    pub is_dir: bool,
    pub size_bytes: u64,
}

impl View for ArtifactBackendEntry {
    type V = (Seq<char>, bool, u64);

    open spec fn view(&self) -> (Seq<char>, bool, u64) {
        (self.name@, self.is_dir, self.size_bytes)
    }
}

/// The directories and files next under a prefix, after some keys: what has more
/// behind it is a directory.
pub open spec fn children_map(prefix: Seq<char>, keys: Seq<Seq<char>>) -> Map<Seq<char>, bool>
    decreases keys.len(),
{
    if keys.len() == 0 {
        Map::empty()
    } else {
        let m = children_map(prefix, keys.drop_last());
        let rest = trim_start_char(keys.last().skip(prefix.len() as int), '/');
        if rest.len() == 0 {
            m
        } else {
            match find_char(rest, '/', 0) {
                Some(k) => m.insert(rest.take(k), true),
                None => if m.dom().contains(rest) {
                    m
                } else {
                    m.insert(rest, false)
                },
            }
        }
    }
}

/// The entries are those of the map, in the order of their names.
pub open spec fn lists_children(
    entries: Seq<(Seq<char>, bool, u64)>,
    children: Map<Seq<char>, bool>,
) -> bool {
    &&& is_listing(entries.map_values(|e: (Seq<char>, bool, u64)| e.0), children)
    &&& forall|i: int|
        0 <= i < entries.len() ==> (#[trigger] entries[i]).1 == children[entries[i].0]
            && entries[i].2 == 0
}

/// The text from position `from` on, without slashes at its front.
fn rest_of_key(key: &Vec<char>, from: usize) -> (r: Vec<char>)
    requires
        from <= key@.len(),
    ensures
        r@ == trim_start_char(key@.skip(from as int), '/'),
{
    let mut i: usize = from;
    while i < key.len() && key[i] == '/'
        invariant
            from <= i <= key@.len(),
            trim_start_char(key@.skip(from as int), '/') == trim_start_char(
                key@.skip(i as int),
                '/',
            ),
        decreases key@.len() - i,
    {
        assert(key@.skip(i as int).skip(1) =~= key@.skip(i + 1));
        i += 1;
    }
    let r: String = text_of_range(key.as_slice(), i, key.len());
    assert(r@ =~= key@.skip(i as int));
    chars_of(r.as_str())
}

impl S3ArtifactBackend {
    /// The parts of the prefix of the keys.
    pub closed spec fn parts(&self) -> Seq<Seq<char>> {
        texts(self.base@)
    }

    /// The artifacts under a prefix, from what reading it gave.
    pub fn at(parsed: Result<Vec<String>, String>) -> (r: Result<Self, ArtifactBackendError>)
        ensures
            match parsed {
                Ok(parts) => r matches Ok(b) && b.parts() == texts(parts@),
                Err(e) => r matches Err(x) && x@ == ArtifactFault::Internal("tenant prefix: "@ + e@),
            },
    {
        match parsed {
            Ok(base) => Ok(S3ArtifactBackend { base }),
            Err(e) => {
                let mut m: String = "tenant prefix: ".to_owned();
                m.append(e.as_str());
                Err(ArtifactBackendError::Internal(m))
            },
        }
    }

    /// The segments of the key of an artifact.
    pub fn key_segments(&self, segments: &Vec<String>) -> (r: Vec<String>)
        ensures
            texts(r@) == self.parts() + texts(segments@),
    {
        let mut r: Vec<String> = Vec::new();
        let mut i: usize = 0;
        while i < self.base.len()
            invariant
                i <= self.base@.len(),
                texts(r@) == self.parts().take(i as int),
            decreases self.base@.len() - i,
        {
            let ghost before = texts(r@);
            let part: String = copied(&self.base[i]);
            r.push(part);
            assert(texts(r@) =~= before.push(part@));
            assert(texts(r@) =~= self.parts().take(i + 1));
            i += 1;
        }
        assert(self.parts().take(i as int) =~= self.parts());
        let mut k: usize = 0;
        assert(texts(r@) =~= self.parts() + texts(segments@).take(0));
        while k < segments.len()
            invariant
                k <= segments@.len(),
                texts(r@) == self.parts() + texts(segments@).take(k as int),
            decreases segments@.len() - k,
        {
            let ghost before = texts(r@);
            let part: String = copied(&segments[k]);
            r.push(part);
            assert(texts(r@) =~= before.push(part@));
            assert(texts(r@) =~= self.parts() + texts(segments@).take(k + 1));
            k += 1;
        }
        assert(texts(segments@).take(k as int) =~= texts(segments@));
        r
    }

    /// The key of an artifact.
    pub fn full(&self, segments: &Vec<String>) -> (r: String)
        ensures
            r@ == object_path_text(self.parts() + texts(segments@)),
    {
        let all: Vec<String> = self.key_segments(segments);
        object_path(&all)
    }

    /// What is next under a prefix, given the keys under it.
    pub fn children(prefix: &str, keys: &Vec<String>) -> (r: Vec<ArtifactBackendEntry>)
        requires
            forall|i: int|
                0 <= i < keys@.len() ==> starts_with((#[trigger] keys@[i])@, prefix@),
        ensures
            lists_children(views(r@), children_map(prefix@, texts(keys@))),
    {
        let ghost all = texts(keys@);
        let skip: usize = chars_of(prefix).len();
        let mut m: TextMap<bool> = TextMap::new();
        let mut i: usize = 0;
        assert(all.take(0) =~= Seq::empty());
        while i < keys.len()
            invariant
                i <= keys@.len(),
                all == texts(keys@),
                skip == prefix@.len(),
                forall|j: int|
                    0 <= j < keys@.len() ==> starts_with((#[trigger] keys@[j])@, prefix@),
                m@ == children_map(prefix@, all.take(i as int)),
            decreases keys@.len() - i,
        {
            assert(all.take(i + 1).drop_last() =~= all.take(i as int));
            assert(all[i as int] == keys@[i as int]@);
            assert(starts_with(keys@[i as int]@, prefix@));
            let key: Vec<char> = chars_of(keys[i].as_str());
            let rest: Vec<char> = rest_of_key(&key, skip);
            if rest.len() > 0 {
                match position_of_char(rest.as_slice(), '/', 0) {
                    Some(k) => {
                        let child: String = text_of_range(rest.as_slice(), 0, k);
                        assert(child@ =~= rest@.take(k as int));
                        m.insert(child, true);
                    },
                    None => {
                        let name: String = text_of(rest.as_slice());
                        if m.get(name.as_str()).is_none() {
                            m.insert(name, false);
                        }
                    },
                }
            }
            i += 1;
        }
        assert(all.take(i as int) =~= all);
        let n: usize = m.len();
        let mut r: Vec<ArtifactBackendEntry> = Vec::new();
        let mut j: usize = 0;
        while j < n
            invariant
                j <= n,
                n == m.keys().len(),
                is_listing(m.keys(), m@),
                r@.len() == j,
                forall|t: int|
                    0 <= t < j ==> #[trigger] views(r@)[t] == (m.keys()[t], m@[m.keys()[t]], 0u64),
            decreases n - j,
        {
            let entry: ArtifactBackendEntry = ArtifactBackendEntry {
                name: copied(m.key_at(j)),
                is_dir: *m.value_at(j),
                size_bytes: 0,
            };
            proof {
                lemma_views_push(r@, entry);
            }
            r.push(entry);
            j += 1;
        }
        assert(views(r@).map_values(|e: (Seq<char>, bool, u64)| e.0) =~= m.keys());
        r
    }

    /// What a path holds that is no object: the entries under it, or nothing.
    pub fn directory(children: Vec<ArtifactBackendEntry>) -> (r: Option<Vec<ArtifactBackendEntry>>)
        ensures
            r == if children@.len() == 0 {
                None::<Vec<ArtifactBackendEntry>>
            } else {
                Some(children)
            },
    {
        if children.len() == 0 {
            None
        } else {
            Some(children)
        }
    }
}

proof fn lemma_hex_has_no_slash(bytes: Seq<u8>)
    ensures
        !hex_text(bytes).contains('/'),
{
    assert forall|i: int| 0 <= i < hex_text(bytes).len() implies hex_text(bytes)[i] != '/' by {
        assert(0 <= bytes[i / 2] as int / 16 < 16);
        assert(0 <= bytes[i / 2] as int % 16 < 16);
    }
}

/// Two tenants never share a prefix, and neither prefix lies under the other.
pub proof fn law_tenant_prefixes_are_apart(a: Seq<char>, b: Seq<char>)
    ensures
        prefix_of(a) == prefix_of(b) ==> a == b,
        !starts_with(prefix_of(a), prefix_of(b) + "/"@),
{
    reveal_strlit("/");
    let head = "mlflow_artifacts_v2/"@;
    let (x, y) = (encode_utf8(a), encode_utf8(b));
    let (dx, dy) = (decimal(x.len()), decimal(y.len()));
    let (hx, hy) = (hex_text(x), hex_text(y));
    lemma_decimal(x.len());
    lemma_decimal(y.len());
    lemma_hex_has_no_slash(x);
    lemma_hex_has_no_slash(y);
    let (p, q) = (prefix_of(a), prefix_of(b));
    let h = head.len() as int;
    assert(forall|i: int| 0 <= i < dx.len() ==> p[h + i] == #[trigger] dx[i]);
    assert(p[h + dx.len()] == '/');
    assert(forall|i: int| 0 <= i < dy.len() ==> q[h + i] == #[trigger] dy[i]);
    assert(q[h + dy.len()] == '/');
    if p == q {
        if dx.len() < dy.len() {
            assert(q[h + dx.len()] == dy[dx.len() as int]);
            assert(is_digit(dy[dx.len() as int]));
        } else if dy.len() < dx.len() {
            assert(p[h + dy.len()] == dx[dy.len() as int]);
            assert(is_digit(dx[dy.len() as int]));
        }
        assert(hx =~= p.skip(h + dx.len() + 1));
        assert(hy =~= q.skip(h + dy.len() + 1));
        law_hex_is_injective(x, y);
        encode_utf8_decode_utf8(a);
        encode_utf8_decode_utf8(b);
    }
    if starts_with(p, q + "/"@) {
        let longer = q + "/"@;
        assert(p.subrange(0, longer.len() as int) == longer);
        assert forall|i: int| 0 <= i < longer.len() implies p[i] == longer[i] by {
            assert(p.subrange(0, longer.len() as int)[i] == p[i]);
        }
        if dx.len() < dy.len() {
            assert(p[h + dx.len()] == longer[h + dx.len()]);
            assert(longer[h + dx.len()] == dy[dx.len() as int]);
            assert(is_digit(dy[dx.len() as int]));
        } else if dy.len() < dx.len() {
            assert(p[h + dy.len()] == longer[h + dy.len()]);
            assert(p[h + dy.len()] == dx[dy.len() as int]);
            assert(is_digit(dx[dy.len() as int]));
        } else {
            let k = q.len() as int;
            assert(longer[k] == '/');
            assert(p[k] == '/');
            assert(p[k] == hx[k - h - dx.len() - 1]);
            assert(hx.contains('/'));
        }
    }
}

} // verus!
