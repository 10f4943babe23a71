//! What is kept of a password, and random nonces.

use ring::rand::SystemRandom;
use vstd::prelude::*;
use vstd::string::*;
use vstd::utf8::*;
use crate::scram::crypto::{
    derive_key, digestible, hmac_sha256, hmac_tag, pbkdf2_key, random_bytes, sha256, sha256_digest,
};
use crate::scram::messages::ScramError;
use crate::text::offset::lemma_byte_len_bounds;

verus! {

/// The number of iterations of key derivation where none is given.
pub const DEFAULT_ITERATIONS: u32 = 4096;

/// The number of characters of a server nonce.
pub const NONCE_LEN: usize = 24;

/// The name of the mechanism.
pub const MECHANISM: &'static str = "SCRAM-SHA-256";

/// The salted and derived material that is kept instead of a password.
#[derive(Clone, Debug, PartialEq, Eq)]
pub struct ScramVerifier {
    pub salt: Vec<u8>,
    pub stored_key: [u8; 32],
    pub server_key: [u8; 32],
    pub iterations: u32,
}

pub struct VerifierModel {
    pub salt: Seq<u8>,
    pub stored_key: Seq<u8>,
    pub server_key: Seq<u8>,
    pub iterations: u32,
}

impl View for ScramVerifier {
    type V = VerifierModel;

    open spec fn view(&self) -> VerifierModel {
        VerifierModel {
            salt: self.salt@,
            stored_key: self.stored_key@,
            server_key: self.server_key@,
            iterations: self.iterations,
        }
    }
}

/// The key that proves knowledge of a password to the server.
pub open spec fn client_key(password: Seq<char>, salt: Seq<u8>, iterations: u32) -> Seq<u8> {
    hmac_tag(pbkdf2_key(encode_utf8(password), salt, iterations), encode_utf8("Client Key"@))
}

/// The material that is kept of a password.
pub open spec fn verifier_of(password: Seq<char>, salt: Seq<u8>, iterations: u32) -> VerifierModel {
    VerifierModel {
        salt,
        stored_key: sha256_digest(client_key(password, salt, iterations)),
        server_key: hmac_tag(
            pbkdf2_key(encode_utf8(password), salt, iterations),
            encode_utf8("Server Key"@),
        ),
        iterations,
    }
}

fn copy_bytes(bytes: &[u8]) -> (r: Vec<u8>)
    ensures
        r@ == bytes@,
{
    let mut r: Vec<u8> = Vec::new();
    let mut i: usize = 0;
    while i < bytes.len()
        invariant
            i <= bytes@.len(),
            r@ == bytes@.take(i as int),
        decreases bytes@.len() - i,
    {
        r.push(bytes[i]);
        assert(bytes@.take(i + 1) =~= bytes@.take(i as int).push(bytes@[i as int]));
        i += 1;
    }
    assert(bytes@.take(bytes@.len() as int) =~= bytes@);
    r
}

/// The bytes of a key.
pub fn key_bytes(bytes: &Vec<u8>) -> (r: [u8; 32])
    requires
        bytes@.len() == 32,
    ensures
        r@ == bytes@,
{
    let mut r: [u8; 32] = [0u8;32];
    let mut i: usize = 0;
    while i < 32
        invariant
            i <= 32,
            bytes@.len() == 32,
            forall|j: int| 0 <= j < i ==> r@[j] == bytes@[j],
        decreases 32 - i,
    {
        r[i] = bytes[i];
        i += 1;
    }
    assert(r@ =~= bytes@);
    r
}

impl ScramVerifier {
    /// Derives the material that is kept of a password, with a fresh salt.
    /// Whatever the salt, the material is that of the password with it.
    pub fn generate(password: &str, iterations: u32) -> (r: Result<Self, ScramError>)
        requires
            digestible(encode_utf8(password@).len()),
        ensures
            match r {
                Ok(v) => iterations > 0 && v@.salt.len() == 16 && v@ == verifier_of(
                    password@,
                    v@.salt,
                    iterations,
                ),
                Err(e) => e is Rng || (e is Unsupported && iterations == 0),
            },
    {
        let rng: SystemRandom = SystemRandom::new();
        match random_bytes(&rng, 16) {
            None => Err(ScramError::Rng),
            Some(salt) => Self::from_password(password, salt.as_slice(), iterations),
        }
    }

    /// Derives the material that is kept of a password, with a given salt. At
    /// least one iteration is needed.
    pub fn from_password(password: &str, salt: &[u8], iterations: u32) -> (r: Result<
        Self,
        ScramError,
    >)
        requires
            digestible(encode_utf8(password@).len()),
            digestible(salt@.len()),
        ensures
            match r {
                Ok(v) => iterations > 0 && v@ == verifier_of(password@, salt@, iterations),
                Err(e) => e is Unsupported && iterations == 0,
            },
    {
        if iterations == 0 {
            return Err(ScramError::Unsupported);
        }
        proof {
            lemma_short_labels();
        }
        let salted: [u8; 32] = derive_key(password.as_bytes(), salt, iterations);
        let client: [u8; 32] = hmac_sha256(salted.as_slice(), "Client Key".as_bytes());
        let stored_key: [u8; 32] = sha256(client.as_slice());
        let server_key: [u8; 32] = hmac_sha256(salted.as_slice(), "Server Key".as_bytes());
        Ok(ScramVerifier { salt: copy_bytes(salt), stored_key, server_key, iterations })
    }

    /// A verifier that no password was derived for: given bytes in place of
    /// the salt and the keys.
    pub fn mock_from_bytes(salt: Vec<u8>, stored: &Vec<u8>, server: &Vec<u8>) -> (r: Self)
        requires
            stored@.len() == 32,
            server@.len() == 32,
        ensures
            r@ == (VerifierModel {
                salt: salt@,
                stored_key: stored@,
                server_key: server@,
                iterations: DEFAULT_ITERATIONS,
            }),
    {
        ScramVerifier {
            salt,
            stored_key: key_bytes(stored),
            server_key: key_bytes(server),
            iterations: DEFAULT_ITERATIONS,
        }
    }

    /// A verifier for an unknown user: random material, so that the exchange
    /// looks like that of a wrong password. Whatever was drawn, the verifier is
    /// that of [`mock_from_bytes`](Self::mock_from_bytes) on it.
    pub fn mock(rng: &SystemRandom) -> (r: Result<Self, ScramError>)
        ensures
            match r {
                Ok(v) => v@.salt.len() == 16 && v@.iterations == DEFAULT_ITERATIONS,
                Err(e) => e is Rng,
            },
    {
        match (random_bytes(rng, 16), random_bytes(rng, 32), random_bytes(rng, 32)) {
            (Some(salt), Some(stored), Some(server)) => Ok(
                Self::mock_from_bytes(salt, &stored, &server),
            ),
            _ => Err(ScramError::Rng),
        }
    }
}

proof fn lemma_short_labels()
    ensures
        digestible(encode_utf8("Client Key"@).len()),
        digestible(encode_utf8("Server Key"@).len()),
{
    reveal_strlit("Client Key");
    reveal_strlit("Server Key");
    lemma_byte_len_bounds("Client Key"@);
    lemma_byte_len_bounds("Server Key"@);
}

/// The nonce character that a random byte stands for: printable ASCII without
/// the comma.
pub open spec fn nonce_char(b: u8) -> char {
    let code = 0x21 + b as int % 93;
    (if code < 0x2C {
        code
    } else {
        code + 1
    }) as char
}

/// The nonce that random bytes stand for.
pub fn nonce_from_bytes(bytes: &Vec<u8>) -> (r: String)
    ensures
        r@ == Seq::new(bytes@.len(), |i: int| nonce_char(bytes@[i])),
{
    let ghost model = Seq::new(bytes@.len(), |i: int| nonce_char(bytes@[i]));
    let mut r: String = String::new();
    let mut i: usize = 0;
    while i < bytes.len()
        invariant
            i <= bytes@.len(),
            model == Seq::new(bytes@.len(), |i: int| nonce_char(bytes@[i])),
            r@ == model.take(i as int),
        decreases bytes@.len() - i,
    {
        let code: u8 = 0x21 + bytes[i] % 93;
        let code: u8 = if code < 0x2C {
            code
        } else {
            code + 1
        };
        r.push(code as char);
        assert(model.take(i + 1) =~= model.take(i as int).push(model[i as int]));
        i += 1;
    }
    assert(model.take(model.len() as int) =~= model);
    r
}

/// A nonce may stand in a server message: printable ASCII without the comma.
pub open spec fn is_nonce(s: Seq<char>) -> bool {
    forall|i: int| 0 <= i < s.len() ==> '!' <= #[trigger] s[i] && s[i] <= '~' && s[i] != ','
}

/// A fresh server nonce.
pub fn generate_nonce() -> (r: Result<String, ScramError>)
    ensures
        match r {
            Ok(nonce) => nonce@.len() == NONCE_LEN && is_nonce(nonce@),
            Err(e) => e is Rng,
        },
{
    let rng: SystemRandom = SystemRandom::new();
    match random_bytes(&rng, NONCE_LEN) {
        None => Err(ScramError::Rng),
        Some(bytes) => Ok(nonce_from_bytes(&bytes)),
    }
}

} // verus!
