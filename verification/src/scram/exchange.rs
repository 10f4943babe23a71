//! One authentication attempt.

use vstd::prelude::*;
use vstd::string::*;
use vstd::utf8::*;
use crate::scram::crypto::{
    base64_bytes, base64_encode, base64_text, digestible, hmac_sha256, hmac_tag, sha256,
    sha256_digest, utf8_text,
};
use crate::scram::messages::{
    ClientFinal, FinalModel, ScramError, attribute, client_final, client_first, final_attributes,
    find_part_back, first_attributes, gs2_parts, parse_client_final, parse_client_first_bare,
    parse_gs2_header,
};
use crate::scram::password::{ScramVerifier, VerifierModel, client_key, verifier_of};
use crate::text::chars::{copied, same_text};
use crate::text::number::{decimal, decimal_text};
use crate::text::offset::{byte_len, lemma_byte_len_bounds, lemma_byte_len_concat};
use crate::text::search::{find_char, lemma_find_char, part_at, starts_with};
use crate::text::split::{pieces, pieces_from};

verus! {

/// The state behind the server's first message.
pub struct ExchangeModel {
    pub keys: VerifierModel,
    /// The client's first message without its header.
    pub client_first_bare: Seq<char>,
    pub gs2_header: Seq<char>,
    /// The client's nonce and the server's behind it.
    pub combined_nonce: Seq<char>,
    pub server_first_message: Seq<char>,
}

/// The server's first message.
pub open spec fn server_first(nonce: Seq<char>, keys: VerifierModel) -> Seq<char> {
    "r="@ + nonce + ",s="@ + base64_text(keys.salt) + ",i="@ + decimal(keys.iterations as nat)
}

/// The state that a client's first message leads to.
pub open spec fn started(keys: VerifierModel, message: Seq<u8>, server_nonce: Seq<char>) -> Result<
    ExchangeModel,
    ScramError,
> {
    if !valid_utf8(message) {
        Err(ScramError::Malformed)
    } else {
        match gs2_parts(decode_utf8(message)) {
            Err(e) => Err(e),
            Ok((header, bare)) => match client_first(bare) {
                Err(e) => Err(e),
                Ok((_, nonce)) => Ok(
                    ExchangeModel {
                        keys,
                        client_first_bare: bare,
                        gs2_header: header,
                        combined_nonce: nonce + server_nonce,
                        server_first_message: server_first(nonce + server_nonce, keys),
                    },
                ),
            },
        }
    }
}

/// The text that both sides sign.
pub open spec fn auth_message(x: ExchangeModel, without_proof: Seq<char>) -> Seq<char> {
    x.client_first_bare + ","@ + x.server_first_message + ","@ + without_proof
}

/// The bytes of two keys, combined by exclusive or.
pub open spec fn xor_bytes(a: Seq<u8>, b: Seq<u8>) -> Seq<u8> {
    Seq::new(a.len(), |i: int| a[i] ^ b[i])
}

/// The signature that a client's proof is made with.
pub open spec fn client_signature(x: ExchangeModel, without_proof: Seq<char>) -> Seq<u8> {
    hmac_tag(x.keys.stored_key, encode_utf8(auth_message(x, without_proof)))
}

/// The server's last message.
pub open spec fn server_final(x: ExchangeModel, without_proof: Seq<char>) -> Seq<char> {
    "v="@ + base64_text(
        hmac_tag(x.keys.server_key, encode_utf8(auth_message(x, without_proof))),
    )
}

/// What a client's last message is answered with. The nonce has to be the
/// combined one and the channel binding has to echo the header; the key that
/// the proof reveals has to be the one that the verifier keeps the digest of.
pub open spec fn answered(x: ExchangeModel, m: FinalModel) -> Result<Seq<char>, ScramError> {
    if m.nonce != x.combined_nonce {
        Err(ScramError::Malformed)
    } else if m.channel_binding != base64_text(encode_utf8(x.gs2_header)) {
        Err(ScramError::AuthenticationFailed)
    } else if sha256_digest(
        xor_bytes(base64_bytes(m.proof_text)->0, client_signature(x, m.without_proof)),
    ) != x.keys.stored_key {
        Err(ScramError::AuthenticationFailed)
    } else {
        Ok(server_final(x, m.without_proof))
    }
}

/// What a client's last message, as it came in, is answered with.
pub open spec fn finished(x: ExchangeModel, message: Seq<u8>) -> Result<Seq<char>, ScramError> {
    if !valid_utf8(message) {
        Err(ScramError::Malformed)
    } else {
        match client_final(decode_utf8(message)) {
            Err(e) => Err(e),
            Ok(m) => answered(x, m),
        }
    }
}

/// The length of a message that the exchange takes, far beyond what a machine
/// can hold.
pub open spec fn is_message_len(len: nat) -> bool {
    len <= 0x0010_0000_0000_0000
}

/// One authentication attempt, behind the server's first message.
pub struct ScramExchange {
    keys: ScramVerifier,
    client_first_bare: String,
    gs2_header: String,
    combined_nonce: String,
    server_first_message: String,
}

impl View for ScramExchange {
    type V = ExchangeModel;

    closed spec fn view(&self) -> ExchangeModel {
        ExchangeModel {
            keys: self.keys@,
            client_first_bare: self.client_first_bare@,
            gs2_header: self.gs2_header@,
            combined_nonce: self.combined_nonce@,
            server_first_message: self.server_first_message@,
        }
    }
}

impl ScramExchange {
    /// The messages so far are of a length that can be signed.
    #[verifier::type_invariant]
    spec fn fits(self) -> bool {
        &&& byte_len(self.client_first_bare@) <= 0x0010_0000_0000_0000
        &&& byte_len(self.gs2_header@) <= 0x0010_0000_0000_0000
        &&& byte_len(self.server_first_message@) <= 0x0080_0000_0000_0000
    }

    /// Takes the client's first message and gives the server's.
    pub fn start(verifier: ScramVerifier, client_first: &[u8], server_nonce: &str) -> (r: Result<
        (Self, String),
        ScramError,
    >)
        requires
            is_message_len(client_first@.len()),
            is_message_len(encode_utf8(server_nonce@).len()),
            is_message_len(verifier@.salt.len()),
        ensures
            match r {
                Ok((x, message)) => started(verifier@, client_first@, server_nonce@) == Ok::<
                    ExchangeModel,
                    ScramError,
                >(x@) && message@ == x@.server_first_message,
                Err(e) => started(verifier@, client_first@, server_nonce@) == Err::<
                    ExchangeModel,
                    ScramError,
                >(e),
            },
    {
        let text: String = match utf8_text(client_first) {
            Some(text) => text,
            None => {
                return Err(ScramError::Malformed);
            },
        };
        proof {
            decode_utf8_encode_utf8(client_first@);
        }
        let (header, bare) = match parse_gs2_header(text.as_str()) {
            Ok(parts) => parts,
            Err(e) => {
                return Err(e);
            },
        };
        let (_, nonce) = match parse_client_first_bare(bare.as_str()) {
            Ok(parts) => parts,
            Err(e) => {
                return Err(e);
            },
        };
        proof {
            lemma_gs2_lengths(text@);
            lemma_client_first_length(bare@);
        }
        let mut combined_nonce: String = copied(&nonce);
        combined_nonce.append(server_nonce);
        let salt: String = base64_encode(verifier.salt.as_slice());
        let iterations: String = decimal_text(verifier.iterations as u128);
        let mut message: String = "r=".to_owned();
        message.append(combined_nonce.as_str());
        message.append(",s=");
        message.append(salt.as_str());
        message.append(",i=");
        message.append(iterations.as_str());
        proof {
            lemma_server_first_length(nonce@, server_nonce@, verifier@);
        }
        let exchange: ScramExchange = ScramExchange {
            keys: verifier,
            client_first_bare: bare,
            gs2_header: header,
            combined_nonce,
            server_first_message: copied(&message),
        };
        Ok((exchange, message))
    }

    /// Takes the client's last message and gives the server's, which proves
    /// the server's knowledge in turn.
    pub fn finish(self, client_final: &[u8]) -> (r: Result<String, ScramError>)
        requires
            is_message_len(client_final@.len()),
        ensures
            match r {
                Ok(message) => finished(self@, client_final@) == Ok::<Seq<char>, ScramError>(
                    message@,
                ),
                Err(e) => finished(self@, client_final@) == Err::<Seq<char>, ScramError>(e),
            },
    {
        proof {
            use_type_invariant(&self);
        }
        let text: String = match utf8_text(client_final) {
            Some(text) => text,
            None => {
                return Err(ScramError::Malformed);
            },
        };
        proof {
            decode_utf8_encode_utf8(client_final@);
        }
        let message: ClientFinal = match parse_client_final(text.as_str()) {
            Ok(message) => message,
            Err(e) => {
                return Err(e);
            },
        };
        if !same_text(message.nonce.as_str(), self.combined_nonce.as_str()) {
            return Err(ScramError::Malformed);
        }
        let expected: String = base64_encode(self.gs2_header.as_str().as_bytes());
        if !same_text(message.channel_binding.as_str(), expected.as_str()) {
            return Err(ScramError::AuthenticationFailed);
        }
        let mut auth: String = copied(&self.client_first_bare);
        auth.append(",");
        auth.append(self.server_first_message.as_str());
        auth.append(",");
        auth.append(message.without_proof.as_str());
        proof {
            lemma_final_length(text@);
            lemma_auth_length(self@, message.without_proof@);
        }
        let signature: [u8; 32] = hmac_sha256(
            self.keys.stored_key.as_slice(),
            auth.as_str().as_bytes(),
        );
        let key: Vec<u8> = xor_keys(&message.proof_bytes, &signature);
        let computed: [u8; 32] = sha256(key.as_slice());
        if !constant_time_eq(computed.as_slice(), self.keys.stored_key.as_slice()) {
            return Err(ScramError::AuthenticationFailed);
        }
        let signature: [u8; 32] = hmac_sha256(
            self.keys.server_key.as_slice(),
            auth.as_str().as_bytes(),
        );
        let mut r: String = "v=".to_owned();
        let tag: String = base64_encode(signature.as_slice());
        r.append(tag.as_str());
        Ok(r)
    }
}

fn xor_keys(a: &Vec<u8>, b: &[u8; 32]) -> (r: Vec<u8>)
    requires
        a@.len() == 32,
    ensures
        r@ == xor_bytes(a@, b@),
{
    let mut r: Vec<u8> = Vec::new();
    let mut i: usize = 0;
    while i < 32
        invariant
            i <= 32,
            a@.len() == 32,
            r@.len() == i,
            forall|j: int| 0 <= j < i ==> r@[j] == a@[j] ^ b@[j],
        decreases 32 - i,
    {
        r.push(a[i] ^ b[i]);
        i += 1;
    }
    assert(r@ =~= xor_bytes(a@, b@));
    r
}

proof fn lemma_or_xor(d: u8, x: u8, y: u8)
    ensures
        (d | (x ^ y)) == 0 <==> d == 0 && x == y,
{
    assert((d | (x ^ y)) == 0 <==> d == 0 && x == y) by (bit_vector);
}

/// Compares two keys without branching on their bytes.
pub fn constant_time_eq(a: &[u8], b: &[u8]) -> (r: bool)
    ensures
        r == (a@ == b@),
{
    if a.len() != b.len() {
        return false;
    }
    let mut diff: u8 = 0;
    let mut i: usize = 0;
    while i < a.len()
        invariant
            i <= a@.len(),
            a@.len() == b@.len(),
            diff == 0 <==> forall|j: int| 0 <= j < i ==> a@[j] == b@[j],
        decreases a@.len() - i,
    {
        proof {
            lemma_or_xor(diff, a@[i as int], b@[i as int]);
        }
        diff = diff | (a[i] ^ b[i]);
        i += 1;
    }
    proof {
        if diff == 0 {
            assert(a@ =~= b@);
        }
    }
    diff == 0
}

proof fn lemma_part_length(s: Seq<char>, from: int, to: int)
    requires
        0 <= from <= to <= s.len(),
    ensures
        byte_len(s.subrange(from, to)) <= byte_len(s),
{
    assert(s =~= s.subrange(0, from) + (s.subrange(from, to) + s.subrange(to, s.len() as int)));
    lemma_byte_len_concat(
        s.subrange(0, from),
        s.subrange(from, to) + s.subrange(to, s.len() as int),
    );
    lemma_byte_len_concat(s.subrange(from, to), s.subrange(to, s.len() as int));
}

proof fn lemma_gs2_lengths(text: Seq<char>)
    ensures
        gs2_parts(text) matches Ok((header, bare)) ==> byte_len(header) <= byte_len(text)
            && byte_len(bare) <= byte_len(text),
{
    if gs2_parts(text) is Ok {
        let a = find_char(text, ',', 0)->0;
        lemma_find_char(text, ',', 0);
        lemma_find_char(text, ',', a + 1);
        let b = find_char(text, ',', a + 1)->0;
        lemma_part_length(text, 0, b + 1);
        lemma_part_length(text, b + 1, text.len() as int);
        assert(text.take(b + 1) =~= text.subrange(0, b + 1));
        assert(text.skip(b + 1) =~= text.subrange(b + 1, text.len() as int));
    }
}

/// A piece of a text is no longer than the text.
proof fn lemma_piece_length(s: Seq<char>, c: char, from: int, i: int)
    requires
        0 <= from <= s.len(),
        0 <= i < pieces_from(s, c, from).len(),
    ensures
        byte_len(pieces_from(s, c, from)[i]) <= byte_len(s),
    decreases s.len() - from,
{
    lemma_find_char(s, c, from);
    match find_char(s, c, from) {
        Some(k) => {
            if i == 0 {
                lemma_part_length(s, from, k);
            } else {
                lemma_piece_length(s, c, k + 1, i - 1);
            }
        },
        None => {
            lemma_part_length(s, from, s.len() as int);
            assert(s.skip(from) =~= s.subrange(from, s.len() as int));
        },
    }
}

proof fn lemma_first_nonce_length(bare: Seq<char>, n: int)
    requires
        0 <= n <= pieces(bare, ',').len(),
    ensures
        match first_attributes(pieces(bare, ','), n) {
            Ok(seen) => seen.nonce is Some ==> byte_len(seen.nonce->0) <= byte_len(bare),
            Err(_) => true,
        },
    decreases n,
{
    if n > 0 {
        lemma_first_nonce_length(bare, n - 1);
        let part = pieces(bare, ',')[n - 1];
        lemma_piece_length(bare, ',', 0, n - 1);
        match find_char(part, '=', 0) {
            Some(k) => {
                lemma_find_char(part, '=', 0);
                lemma_part_length(part, k + 1, part.len() as int);
                assert(part.skip(k + 1) =~= part.subrange(k + 1, part.len() as int));
            },
            None => {},
        }
    }
}

proof fn lemma_client_first_length(bare: Seq<char>)
    ensures
        client_first(bare) matches Ok((_, nonce)) ==> byte_len(nonce) <= byte_len(bare),
{
    lemma_first_nonce_length(bare, pieces(bare, ',').len() as int);
}

proof fn lemma_decimal_length(n: nat)
    requires
        n <= u32::MAX,
    ensures
        decimal(n).len() <= 10,
{
    reveal_with_fuel(decimal, 11);
}

proof fn lemma_server_first_length(nonce: Seq<char>, server_nonce: Seq<char>, keys: VerifierModel)
    requires
        is_message_len(byte_len(nonce)),
        is_message_len(byte_len(server_nonce)),
        is_message_len(keys.salt.len()),
        byte_len(base64_text(keys.salt)) == (keys.salt.len() + 2) / 3 * 4,
    ensures
        byte_len(server_first(nonce + server_nonce, keys)) <= 0x0080_0000_0000_0000,
{
    let all = nonce + server_nonce;
    let number = decimal(keys.iterations as nat);
    reveal_strlit("r=");
    reveal_strlit(",s=");
    reveal_strlit(",i=");
    lemma_decimal_length(keys.iterations as nat);
    lemma_byte_len_bounds("r="@);
    lemma_byte_len_bounds(",s="@);
    lemma_byte_len_bounds(",i="@);
    lemma_byte_len_bounds(number);
    lemma_byte_len_concat(nonce, server_nonce);
    lemma_byte_len_concat("r="@, all);
    lemma_byte_len_concat("r="@ + all, ",s="@);
    lemma_byte_len_concat("r="@ + all + ",s="@, base64_text(keys.salt));
    lemma_byte_len_concat("r="@ + all + ",s="@ + base64_text(keys.salt), ",i="@);
    lemma_byte_len_concat("r="@ + all + ",s="@ + base64_text(keys.salt) + ",i="@, number);
}

proof fn lemma_final_length(text: Seq<char>)
    ensures
        client_final(text) matches Ok(m) ==> byte_len(m.without_proof) <= byte_len(text),
{
    if client_final(text) is Ok {
        let k = find_part_back(text, ",p="@, text.len() as int)->0;
        lemma_find_part_back(text, ",p="@, text.len() as int);
        lemma_part_length(text, 0, k);
        assert(text.take(k) =~= text.subrange(0, k));
    }
}

proof fn lemma_find_part_back(s: Seq<char>, part: Seq<char>, k: int)
    ensures
        find_part_back(s, part, k) matches Some(j) ==> 0 <= j <= k && part_at(s, j, part),
    decreases k + 1,
{
    if k >= 0 && !part_at(s, k, part) {
        lemma_find_part_back(s, part, k - 1);
    }
}

proof fn lemma_auth_length(x: ExchangeModel, without_proof: Seq<char>)
    requires
        byte_len(x.client_first_bare) <= 0x0010_0000_0000_0000,
        byte_len(x.server_first_message) <= 0x0080_0000_0000_0000,
        byte_len(without_proof) <= 0x0010_0000_0000_0000,
    ensures
        digestible(byte_len(auth_message(x, without_proof))),
{
    reveal_strlit(",");
    lemma_byte_len_bounds(","@);
    let a = x.client_first_bare;
    let b = x.server_first_message;
    lemma_byte_len_concat(a, ","@);
    lemma_byte_len_concat(a + ","@, b);
    lemma_byte_len_concat(a + ","@ + b, ","@);
    lemma_byte_len_concat(a + ","@ + b + ","@, without_proof);
}

/// Combining with the same bytes twice changes nothing.
pub proof fn lemma_xor_twice(a: Seq<u8>, b: Seq<u8>)
    ensures
        xor_bytes(xor_bytes(a, b), b) == a,
{
    assert forall|i: int| 0 <= i < a.len() implies xor_bytes(xor_bytes(a, b), b)[i]
        == a[i] by {
        let x = a[i];
        let y = b[i];
        assert((x ^ y) ^ y == x) by (bit_vector);
    }
    assert(xor_bytes(xor_bytes(a, b), b) =~= a);
}

/// A client that knows the password is accepted, and is answered with the
/// server's signature: whoever makes the proof from the client key of the
/// password that the verifier was derived from, over the messages that were
/// exchanged.
pub proof fn law_right_password_is_accepted(
    x: ExchangeModel,
    m: FinalModel,
    password: Seq<char>,
    salt: Seq<u8>,
    iterations: u32,
)
    requires
        x.keys == verifier_of(password, salt, iterations),
        m.nonce == x.combined_nonce,
        m.channel_binding == base64_text(encode_utf8(x.gs2_header)),
        base64_bytes(m.proof_text) == Some(
            xor_bytes(
                client_key(password, salt, iterations),
                client_signature(x, m.without_proof),
            ),
        ),
    ensures
        answered(x, m) == Ok::<Seq<char>, ScramError>(server_final(x, m.without_proof)),
{
    lemma_xor_twice(
        client_key(password, salt, iterations),
        client_signature(x, m.without_proof),
    );
}

/// Nobody else is: an accepted proof reveals a key whose digest is the stored
/// one, for the combined nonce and the header of this exchange.
pub proof fn law_acceptance_needs_the_key(x: ExchangeModel, m: FinalModel)
    requires
        answered(x, m) is Ok,
    ensures
        m.nonce == x.combined_nonce,
        m.channel_binding == base64_text(encode_utf8(x.gs2_header)),
        sha256_digest(
            xor_bytes(base64_bytes(m.proof_text)->0, client_signature(x, m.without_proof)),
        ) == x.keys.stored_key,
{
}

/// Every attribute of a message without its proof has a value, and none is an
/// extension that the server has to know.
pub open spec fn has_known_attributes(parts: Seq<Seq<char>>) -> bool {
    forall|i: int|
        0 <= i < parts.len() ==> (attribute(#[trigger] parts[i]) matches Some((key, _)) && key
            != "m"@)
}

/// The last value of an attribute among the first `n`.
pub open spec fn last_value(parts: Seq<Seq<char>>, key: Seq<char>, n: int) -> Option<Seq<char>>
    decreases n,
{
    if n <= 0 {
        None
    } else {
        match attribute(parts[n - 1]) {
            Some((k, value)) => if k == key {
                Some(value)
            } else {
                last_value(parts, key, n - 1)
            },
            None => last_value(parts, key, n - 1),
        }
    }
}

proof fn lemma_final_attributes(parts: Seq<Seq<char>>, n: int)
    requires
        0 <= n <= parts.len(),
    ensures
        final_attributes(parts, n) is Ok <==> has_known_attributes(parts.take(n)),
        final_attributes(parts, n) matches Ok(seen) ==> seen.channel_binding == last_value(
            parts,
            "c"@,
            n,
        ) && seen.nonce == last_value(parts, "r"@, n),
    decreases n,
{
    reveal_strlit("c");
    reveal_strlit("r");
    reveal_strlit("m");
    assert("c"@[0] == 'c' && "r"@[0] == 'r' && "m"@[0] == 'm');
    if n > 0 {
        lemma_final_attributes(parts, n - 1);
        let (all, earlier) = (parts.take(n), parts.take(n - 1));
        assert(forall|i: int| 0 <= i < n - 1 ==> #[trigger] all[i] == earlier[i]);
        assert(all[n - 1] == parts[n - 1]);
        if has_known_attributes(all) {
            assert forall|i: int| 0 <= i < earlier.len() implies (attribute(#[trigger] earlier[i])
                matches Some((key, _)) && key != "m"@) by {
                assert(all[i] == earlier[i]);
            }
        }
    }
}

/// An exchange from its start to its end. Behind the client's first message,
/// made of a header and a bare message with the nonce `nonce`, a last message is
/// accepted exactly where it is valid UTF-8 with a proof of 32 bytes behind its
/// last `,p=`, and what stands before that has well-formed attributes, echoes
/// the header, holds the client's nonce and the server's behind it, and, with
/// the earlier messages, was signed with the key whose digest is stored. It is
/// answered with the server's signature of the same messages.
pub proof fn law_acceptance_is_exact(
    keys: VerifierModel,
    first: Seq<u8>,
    server_nonce: Seq<char>,
    x: ExchangeModel,
    last: Seq<u8>,
)
    requires
        started(keys, first, server_nonce) == Ok::<ExchangeModel, ScramError>(x),
    ensures
        ({
            let (header, bare) = gs2_parts(decode_utf8(first))->Ok_0;
            let (_, client_nonce) = client_first(bare)->Ok_0;
            let nonce = client_nonce + server_nonce;
            let text = decode_utf8(last);
            let cut = find_part_back(text, ",p="@, text.len() as int);
            let without_proof = text.take(cut->0);
            let parts = pieces(without_proof, ',');
            let proof_bytes = base64_bytes(text.skip(cut->0 + 3));
            let signed = encode_utf8(
                bare + ","@ + server_first(nonce, keys) + ","@ + without_proof,
            );
            &&& decode_utf8(first) == header + bare
            &&& finished(x, last) is Ok <==> {
                &&& valid_utf8(last)
                &&& cut is Some
                &&& proof_bytes is Some
                &&& proof_bytes->0.len() == 32
                &&& has_known_attributes(parts)
                &&& last_value(parts, "c"@, parts.len() as int) == Some(
                    base64_text(encode_utf8(header)),
                )
                &&& last_value(parts, "r"@, parts.len() as int) == Some(nonce)
                &&& sha256_digest(xor_bytes(proof_bytes->0, hmac_tag(keys.stored_key, signed)))
                    == keys.stored_key
            }
            &&& finished(x, last) matches Ok(answer) ==> answer == "v="@ + base64_text(
                hmac_tag(keys.server_key, signed),
            )
        }),
{
    let (header, bare) = gs2_parts(decode_utf8(first))->Ok_0;
    let all = decode_utf8(first);
    let a = find_char(all, ',', 0)->0;
    lemma_find_char(all, ',', 0);
    lemma_find_char(all, ',', a + 1);
    assert(all =~= header + bare);
    let text = decode_utf8(last);
    if let Some(k) = find_part_back(text, ",p="@, text.len() as int) {
        let parts = pieces(text.take(k), ',');
        lemma_final_attributes(parts, parts.len() as int);
        assert(parts.take(parts.len() as int) =~= parts);
    }
}

/// A client that demands channel binding is refused with that error.
pub proof fn law_channel_binding_is_refused(keys: VerifierModel, text: Seq<char>, nonce: Seq<char>)
    requires
        starts_with(text, "p="@),
        find_char(text, ',', 0) matches Some(a) && a >= 2 && find_char(text, ',', a + 1) is Some,
    ensures
        started(keys, encode_utf8(text), nonce) == Err::<ExchangeModel, ScramError>(
            ScramError::ChannelBindingUnsupported,
        ),
{
    encode_utf8_valid_utf8(text);
    encode_utf8_decode_utf8(text);
    reveal_strlit("p=");
    reveal_strlit("n");
    reveal_strlit("y");
    let a = find_char(text, ',', 0)->0;
    lemma_find_char(text, ',', 0);
    assert(text.take(a).subrange(0, 2) =~= text.subrange(0, 2));
    assert(text.take(a)[0] == text.subrange(0, 2)[0]);
}

} // verus!
