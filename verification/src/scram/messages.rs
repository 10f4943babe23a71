//! The client's messages.

use vstd::prelude::*;
use vstd::string::*;
use crate::scram::crypto::{base64_bytes, base64_decode};
use crate::sql::lexical::same_position;
use crate::text::chars::{chars_of, opt_text, same_text, text_of, text_of_range, texts};
use crate::text::search::{
    find_char, has_part_at, part_at, position_of_char, replace_part, replaced, starts_with,
};
use crate::text::split::{pieces, split_text};

verus! {

#[derive(Clone, Copy, Debug, PartialEq, Eq, Structural)]
pub enum ScramError {
    /// The message is structurally invalid.
    Malformed,
    /// The client demands channel binding, which is never offered.
    ChannelBindingUnsupported,
    /// The message declares a mandatory extension or another feature that is
    /// not supported.
    Unsupported,
    /// The proof is wrong.
    AuthenticationFailed,
    /// The system's random number generator failed.
    Rng,
}

/// The parts of a client-first message: the GS2 header, and the rest.
pub open spec fn gs2_parts(text: Seq<char>) -> Result<(Seq<char>, Seq<char>), ScramError> {
    match find_char(text, ',', 0) {
        None => Err(ScramError::Malformed),
        Some(a) => match find_char(text, ',', a + 1) {
            None => Err(ScramError::Malformed),
            Some(b) => {
                let flag = text.take(a);
                if flag == "n"@ || flag == "y"@ {
                    if b > a + 1 {
                        Err(ScramError::Unsupported)
                    } else {
                        Ok((text.take(b + 1), text.skip(b + 1)))
                    }
                } else if starts_with(flag, "p="@) {
                    Err(ScramError::ChannelBindingUnsupported)
                } else {
                    Err(ScramError::Malformed)
                }
            },
        },
    }
}

/// Splits a client-first message behind its GS2 header: a binding flag of `n`
/// or `y`, and no authorization identity.
pub fn parse_gs2_header(text: &str) -> (r: Result<(String, String), ScramError>)
    ensures
        match r {
            Ok((header, bare)) => gs2_parts(text@) == Ok::<(Seq<char>, Seq<char>), ScramError>(
                (header@, bare@),
            ),
            Err(e) => gs2_parts(text@) == Err::<(Seq<char>, Seq<char>), ScramError>(e),
        },
{
    let s: Vec<char> = chars_of(text);
    let n: usize = s.len();
    let a: usize = match position_of_char(s.as_slice(), ',', 0) {
        Some(a) => a,
        None => {
            return Err(ScramError::Malformed);
        },
    };
    let b: usize = match position_of_char(s.as_slice(), ',', a + 1) {
        Some(b) => b,
        None => {
            return Err(ScramError::Malformed);
        },
    };
    let flag: String = text_of_range(s.as_slice(), 0, a);
    assert(flag@ =~= text@.take(a as int));
    if !same_text(flag.as_str(), "n") && !same_text(flag.as_str(), "y") {
        let chars: Vec<char> = chars_of(flag.as_str());
        let demand: Vec<char> = chars_of("p=");
        if has_part_at(chars.as_slice(), 0, demand.as_slice()) {
            return Err(ScramError::ChannelBindingUnsupported);
        }
        return Err(ScramError::Malformed);
    }
    if b > a + 1 {
        return Err(ScramError::Unsupported);
    }
    let header: String = text_of_range(s.as_slice(), 0, b + 1);
    let bare: String = text_of_range(s.as_slice(), b + 1, n);
    assert(header@ =~= text@.take(b + 1));
    assert(bare@ =~= text@.skip(b + 1));
    Ok((header, bare))
}

/// A user name with its escapes decoded: `=2C` is a comma, `=3D` an equals
/// sign.
pub open spec fn decoded_username(value: Seq<char>) -> Seq<char> {
    replaced(replaced(value, "=2C"@, ","@), "=3D"@, "="@)
}

/// Decodes the escapes in a user name.
pub fn decode_username(value: &str) -> (r: String)
    ensures
        r@ == decoded_username(value@),
{
    proof {
        reveal_strlit("=2C");
        reveal_strlit("=3D");
    }
    let s: Vec<char> = chars_of(value);
    let comma: Vec<char> = chars_of(",");
    let escaped_comma: Vec<char> = chars_of("=2C");
    let equals: Vec<char> = chars_of("=");
    let escaped_equals: Vec<char> = chars_of("=3D");
    let s: Vec<char> = replace_part(s.as_slice(), escaped_comma.as_slice(), comma.as_slice());
    let s: Vec<char> = replace_part(s.as_slice(), escaped_equals.as_slice(), equals.as_slice());
    text_of(s.as_slice())
}

/// The attributes read so far.
pub struct FirstAttributes {
    pub username: Option<Seq<char>>,
    pub nonce: Option<Seq<char>>,
}

/// The key and the value of an attribute.
pub open spec fn attribute(attr: Seq<char>) -> Option<(Seq<char>, Seq<char>)> {
    match find_char(attr, '=', 0) {
        Some(k) => Some((attr.take(k), attr.skip(k + 1))),
        None => None,
    }
}

/// The first `n` attributes of a client-first message. A mandatory extension
/// is not supported, a second nonce is malformed, and unknown attributes are
/// ignored.
pub open spec fn first_attributes(parts: Seq<Seq<char>>, n: int) -> Result<
    FirstAttributes,
    ScramError,
>
    decreases n,
{
    if n <= 0 {
        Ok(FirstAttributes { username: None, nonce: None })
    } else {
        match first_attributes(parts, n - 1) {
            Err(e) => Err(e),
            Ok(seen) => match attribute(parts[n - 1]) {
                None => Err(ScramError::Malformed),
                Some((key, value)) => if key == "m"@ {
                    Err(ScramError::Unsupported)
                } else if key == "n"@ {
                    Ok(FirstAttributes { username: Some(decoded_username(value)), ..seen })
                } else if key == "r"@ {
                    if seen.nonce is Some {
                        Err(ScramError::Malformed)
                    } else {
                        Ok(FirstAttributes { nonce: Some(value), ..seen })
                    }
                } else {
                    Ok(seen)
                },
            },
        }
    }
}

/// The user name and the nonce of a client-first message without its header.
pub open spec fn client_first(bare: Seq<char>) -> Result<(Seq<char>, Seq<char>), ScramError> {
    let parts = pieces(bare, ',');
    match first_attributes(parts, parts.len() as int) {
        Err(e) => Err(e),
        Ok(seen) => match (seen.username, seen.nonce) {
            (Some(username), Some(nonce)) => if nonce.len() == 0 {
                Err(ScramError::Malformed)
            } else {
                Ok((username, nonce))
            },
            _ => Err(ScramError::Malformed),
        },
    }
}

fn split_attribute(attr: &String) -> (r: Option<(String, String)>)
    ensures
        r is Some <==> attribute(attr@) is Some,
        r matches Some((key, value)) ==> attribute(attr@) == Some((key@, value@)),
{
    let s: Vec<char> = chars_of(attr.as_str());
    let n: usize = s.len();
    match position_of_char(s.as_slice(), '=', 0) {
        None => None,
        Some(k) => {
            let key: String = text_of_range(s.as_slice(), 0, k);
            let value: String = text_of_range(s.as_slice(), k + 1, n);
            assert(key@ =~= attr@.take(k as int));
            assert(value@ =~= attr@.skip(k + 1));
            Some((key, value))
        },
    }
}

/// An error stays.
proof fn lemma_first_error(parts: Seq<Seq<char>>, n: int, m: int)
    requires
        0 <= n <= m,
        first_attributes(parts, n) is Err,
    ensures
        first_attributes(parts, m) == first_attributes(parts, n),
    decreases m - n,
{
    if n < m {
        lemma_first_error(parts, n, m - 1);
    }
}

/// Reads `n=user,r=nonce` and possible extensions.
pub fn parse_client_first_bare(bare: &str) -> (r: Result<(String, String), ScramError>)
    ensures
        match r {
            Ok((username, nonce)) => client_first(bare@) == Ok::<
                (Seq<char>, Seq<char>),
                ScramError,
            >((username@, nonce@)),
            Err(e) => client_first(bare@) == Err::<(Seq<char>, Seq<char>), ScramError>(e),
        },
{
    let parts: Vec<String> = split_text(bare, ',');
    let ghost models = pieces(bare@, ',');
    let mut username: Option<String> = None;
    let mut nonce: Option<String> = None;
    let mut i: usize = 0;
    while i < parts.len()
        invariant
            i <= parts@.len(),
            texts(parts@) == models,
            models == pieces(bare@, ','),
            first_attributes(models, i as int) == Ok::<FirstAttributes, ScramError>(
                FirstAttributes { username: opt_text(username), nonce: opt_text(nonce) },
            ),
        decreases parts@.len() - i,
    {
        assert(models[i as int] == parts@[i as int]@);
        proof {
            if first_attributes(models, i + 1) is Err {
                lemma_first_error(models, i + 1, models.len() as int);
            }
        }
        match split_attribute(&parts[i]) {
            None => {
                return Err(ScramError::Malformed);
            },
            Some((key, value)) => {
                if same_text(key.as_str(), "m") {
                    return Err(ScramError::Unsupported);
                } else if same_text(key.as_str(), "n") {
                    username = Some(decode_username(value.as_str()));
                } else if same_text(key.as_str(), "r") {
                    if nonce.is_some() {
                        return Err(ScramError::Malformed);
                    }
                    nonce = Some(value);
                }
            },
        }
        i += 1;
    }
    match (username, nonce) {
        (Some(username), Some(nonce)) => if nonce.as_str().unicode_len() == 0 {
            Err(ScramError::Malformed)
        } else {
            Ok((username, nonce))
        },
        _ => Err(ScramError::Malformed),
    }
}

/// The last position up to `k` at which `part` stands.
pub open spec fn find_part_back(s: Seq<char>, part: Seq<char>, k: int) -> Option<int>
    decreases k + 1,
{
    if k < 0 {
        None
    } else if part_at(s, k, part) {
        Some(k)
    } else {
        find_part_back(s, part, k - 1)
    }
}

/// The attributes read so far.
pub struct FinalAttributes {
    pub channel_binding: Option<Seq<char>>,
    pub nonce: Option<Seq<char>>,
}

/// The first `n` attributes of a client-final message. Of several values of an
/// attribute the last one counts.
pub open spec fn final_attributes(parts: Seq<Seq<char>>, n: int) -> Result<
    FinalAttributes,
    ScramError,
>
    decreases n,
{
    if n <= 0 {
        Ok(FinalAttributes { channel_binding: None, nonce: None })
    } else {
        match final_attributes(parts, n - 1) {
            Err(e) => Err(e),
            Ok(seen) => match attribute(parts[n - 1]) {
                None => Err(ScramError::Malformed),
                Some((key, value)) => if key == "c"@ {
                    Ok(FinalAttributes { channel_binding: Some(value), ..seen })
                } else if key == "r"@ {
                    Ok(FinalAttributes { nonce: Some(value), ..seen })
                } else if key == "m"@ {
                    Err(ScramError::Unsupported)
                } else {
                    Ok(seen)
                },
            },
        }
    }
}

/// A client-final message.
pub struct FinalModel {
    pub channel_binding: Seq<char>,
    pub nonce: Seq<char>,
    pub proof_text: Seq<char>,
    /// The message in front of the proof.
    pub without_proof: Seq<char>,
}

/// A client-final message: its proof stands behind the last `,p=`, and is the
/// base64 text of 32 bytes.
pub open spec fn client_final(text: Seq<char>) -> Result<FinalModel, ScramError> {
    match find_part_back(text, ",p="@, text.len() as int) {
        None => Err(ScramError::Malformed),
        Some(k) => {
            let without_proof = text.take(k);
            let proof_text = text.skip(k + 3);
            let parts = pieces(without_proof, ',');
            match base64_bytes(proof_text) {
                None => Err(ScramError::Malformed),
                Some(bytes) => if bytes.len() != 32 {
                    Err(ScramError::Malformed)
                } else {
                    match final_attributes(parts, parts.len() as int) {
                        Err(e) => Err(e),
                        Ok(seen) => match (seen.channel_binding, seen.nonce) {
                            (Some(channel_binding), Some(nonce)) => Ok(
                                FinalModel {
                                    channel_binding,
                                    nonce,
                                    proof_text,
                                    without_proof,
                                },
                            ),
                            _ => Err(ScramError::Malformed),
                        },
                    }
                },
            }
        },
    }
}

/// A client-final message.
#[derive(Debug)]
pub struct ClientFinal {
    pub channel_binding: String,
    pub nonce: String,
    pub proof_bytes: Vec<u8>,
    pub without_proof: String,
}

/// The message that the parts make up.
pub open spec fn is_client_final(r: ClientFinal, m: FinalModel) -> bool {
    &&& r.channel_binding@ == m.channel_binding
    &&& r.nonce@ == m.nonce
    &&& r.without_proof@ == m.without_proof
    &&& base64_bytes(m.proof_text) == Some(r.proof_bytes@)
    &&& r.proof_bytes@.len() == 32
}

fn last_part_position(s: &[char], part: &[char]) -> (r: Option<usize>)
    ensures
        same_position(r, find_part_back(s@, part@, s@.len() as int)),
        r is Some ==> r->0 + part@.len() <= s@.len(),
{
    let mut k: usize = s.len();
    loop
        invariant
            k <= s@.len(),
            find_part_back(s@, part@, s@.len() as int) == find_part_back(s@, part@, k as int),
        decreases k,
    {
        if has_part_at(s, k, part) {
            return Some(k);
        }
        if k == 0 {
            assert(find_part_back(s@, part@, -1) is None);
            return None;
        }
        k -= 1;
    }
}

proof fn lemma_final_error(parts: Seq<Seq<char>>, n: int, m: int)
    requires
        0 <= n <= m,
        final_attributes(parts, n) is Err,
    ensures
        final_attributes(parts, m) == final_attributes(parts, n),
    decreases m - n,
{
    if n < m {
        lemma_final_error(parts, n, m - 1);
    }
}

/// Reads the channel binding and the nonce in front of the proof.
pub fn parse_final_attributes(without_proof: &str) -> (r: Result<(String, String), ScramError>)
    ensures
        ({
            let parts = pieces(without_proof@, ',');
            match r {
                Ok((channel_binding, nonce)) => final_attributes(parts, parts.len() as int)
                    == Ok::<FinalAttributes, ScramError>(
                    FinalAttributes {
                        channel_binding: Some(channel_binding@),
                        nonce: Some(nonce@),
                    },
                ),
                Err(e) => match final_attributes(parts, parts.len() as int) {
                    Err(f) => e == f,
                    Ok(seen) => e is Malformed && (seen.channel_binding is None || seen.nonce
                        is None),
                },
            }
        }),
{
    let parts: Vec<String> = split_text(without_proof, ',');
    let ghost models = pieces(without_proof@, ',');
    let mut channel_binding: Option<String> = None;
    let mut nonce: Option<String> = None;
    let mut i: usize = 0;
    while i < parts.len()
        invariant
            i <= parts@.len(),
            texts(parts@) == models,
            models == pieces(without_proof@, ','),
            final_attributes(models, i as int) == Ok::<FinalAttributes, ScramError>(
                FinalAttributes {
                    channel_binding: opt_text(channel_binding),
                    nonce: opt_text(nonce),
                },
            ),
        decreases parts@.len() - i,
    {
        assert(models[i as int] == parts@[i as int]@);
        proof {
            if final_attributes(models, i + 1) is Err {
                lemma_final_error(models, i + 1, models.len() as int);
            }
        }
        match split_attribute(&parts[i]) {
            None => {
                return Err(ScramError::Malformed);
            },
            Some((key, value)) => {
                if same_text(key.as_str(), "c") {
                    channel_binding = Some(value);
                } else if same_text(key.as_str(), "r") {
                    nonce = Some(value);
                } else if same_text(key.as_str(), "m") {
                    return Err(ScramError::Unsupported);
                }
            },
        }
        i += 1;
    }
    match (channel_binding, nonce) {
        (Some(channel_binding), Some(nonce)) => Ok((channel_binding, nonce)),
        _ => Err(ScramError::Malformed),
    }
}

/// Reads `c=binding,r=nonce,...,p=proof`.
pub fn parse_client_final(text: &str) -> (r: Result<ClientFinal, ScramError>)
    ensures
        match r {
            Ok(message) => client_final(text@) matches Ok(m) && is_client_final(message, m),
            Err(e) => client_final(text@) == Err::<FinalModel, ScramError>(e),
        },
{
    proof {
        reveal_strlit(",p=");
    }
    let s: Vec<char> = chars_of(text);
    let n: usize = s.len();
    let marker: Vec<char> = chars_of(",p=");
    let k: usize = match last_part_position(s.as_slice(), marker.as_slice()) {
        Some(k) => k,
        None => {
            return Err(ScramError::Malformed);
        },
    };
    let without_proof: String = text_of_range(s.as_slice(), 0, k);
    let proof_text: String = text_of_range(s.as_slice(), k + 3, n);
    assert(without_proof@ =~= text@.take(k as int));
    assert(proof_text@ =~= text@.skip(k + 3));
    let proof_bytes: Vec<u8> = match base64_decode(proof_text.as_str()) {
        Some(bytes) => bytes,
        None => {
            return Err(ScramError::Malformed);
        },
    };
    if proof_bytes.len() != 32 {
        return Err(ScramError::Malformed);
    }
    match parse_final_attributes(without_proof.as_str()) {
        Err(e) => Err(e),
        Ok((channel_binding, nonce)) => Ok(
            ClientFinal { channel_binding, nonce, proof_bytes, without_proof },
        ),
    }
}

} // verus!
