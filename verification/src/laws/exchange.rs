//! The messages of an authentication exchange.

use vstd::prelude::*;
use vstd::string::*;
use vstd::utf8::*;
use crate::queue::path::lemma_pieces_of_both;
use crate::scram::crypto::{base64_bytes, base64_text, hmac_tag, pbkdf2_key, sha256_digest};
use crate::scram::exchange::{ExchangeModel, answered, finished, server_first, started};
use crate::scram::messages::{
    FinalAttributes, FinalModel, FirstAttributes, ScramError, attribute, client_final, client_first,
    decoded_username, final_attributes, find_part_back, first_attributes, gs2_parts,
};
use crate::scram::password::{VerifierModel, nonce_char, verifier_of};
use crate::text::ascii::is_digit;
use crate::text::number::{decimal, lemma_decimal, lemma_parse_decimal, parse_unsigned};
use crate::text::search::{
    find_char, find_part, lemma_find_char, lemma_replaced_absent, part_at, replaced_from,
};
use crate::text::split::pieces;

verus! {

/// A text without a comma and an equals sign.
pub open spec fn is_unmarked(s: Seq<char>) -> bool {
    !s.contains(',') && !s.contains('=')
}

/// An attribute of a message: its key, an equals sign, and its value.
pub open spec fn given(key: Seq<char>, value: Seq<char>) -> Seq<char> {
    key + seq!['='] + value
}

proof fn lemma_given(key: Seq<char>, value: Seq<char>)
    requires
        is_unmarked(key),
        !value.contains(','),
    ensures
        attribute(given(key, value)) == Some((key, value)),
        pieces(given(key, value), ',') == seq![given(key, value)],
        !given(key, value).contains(','),
{
    let s = given(key, value);
    lemma_find_char(s, '=', 0);
    let n = key.len() as int;
    assert(s[n] == '=');
    assert forall|j: int| 0 <= j < n implies s[j] != '=' by {
        assert(key.contains(key[j]));
    }
    assert(find_char(s, '=', 0) == Some(n));
    assert(s.take(n) =~= key);
    assert(s.skip(n + 1) =~= value);
    if s.contains(',') {
        let i = choose|i: int| 0 <= i < s.len() && s[i] == ',';
        if i < n {
            assert(key.contains(key[i]));
        } else {
            assert(value.contains(value[i - n - 1]));
        }
    }
    lemma_piece(s);
}

proof fn lemma_piece(s: Seq<char>)
    requires
        !s.contains(','),
    ensures
        pieces(s, ',') == seq![s],
{
    lemma_find_char(s, ',', 0);
    if let Some(k) = find_char(s, ',', 0) {
        assert(s.contains(s[k]));
    }
    assert(s.skip(0) =~= s);
}

proof fn lemma_keys()
    ensures
        is_unmarked("n"@),
        is_unmarked("r"@),
        is_unmarked("m"@),
        is_unmarked("c"@),
        is_unmarked("s"@),
        is_unmarked("i"@),
        is_unmarked("p"@),
        "n"@ =~= seq!['n'],
        "r"@ =~= seq!['r'],
        "m"@ =~= seq!['m'],
        "c"@ =~= seq!['c'],
        "s"@ =~= seq!['s'],
        "i"@ =~= seq!['i'],
        "p"@ =~= seq!['p'],
        "n"@ != "r"@ && "n"@ != "m"@ && "r"@ != "m"@ && "c"@ != "r"@ && "c"@ != "m"@,
        "r"@ != "s"@ && "r"@ != "i"@ && "s"@ != "i"@,
{
    reveal_strlit("n");
    reveal_strlit("r");
    reveal_strlit("m");
    reveal_strlit("c");
    reveal_strlit("s");
    reveal_strlit("i");
    reveal_strlit("p");
    assert("n"@[0] == 'n' && "r"@[0] == 'r' && "m"@[0] == 'm' && "c"@[0] == 'c' && "s"@[0] == 's'
        && "i"@[0] == 'i');
}

/// The first position of a part begins with the first character of the part.
proof fn lemma_part_absent(s: Seq<char>, part: Seq<char>, k: int)
    requires
        0 <= k <= s.len(),
        part.len() > 0,
        forall|i: int| k <= i < s.len() ==> s[i] != part[0],
    ensures
        find_part(s, part, k) is None,
    decreases s.len() - k,
{
    if k + part.len() <= s.len() {
        assert(s.subrange(k, k + part.len())[0] == s[k]);
        lemma_part_absent(s, part, k + 1);
    }
}

proof fn lemma_replaced_once(
    a: Seq<char>,
    part: Seq<char>,
    b: Seq<char>,
    by: Seq<char>,
    k: int,
)
    requires
        0 <= k <= a.len(),
        part.len() > 0,
        !a.contains(part[0]),
        !b.contains(part[0]),
    ensures
        replaced_from(a + part + b, part, by, k) == a.skip(k) + by + b,
    decreases a.len() - k,
{
    let s = a + part + b;
    let n = a.len() as int;
    if k < n {
        assert(s[k] == a[k]);
        assert(a.contains(a[k]));
        if part_at(s, k, part) {
            assert(s.subrange(k, k + part.len())[0] == s[k]);
        }
        lemma_replaced_once(a, part, b, by, k + 1);
        assert(a.skip(k) =~= seq![a[k]] + a.skip(k + 1));
        assert(a.skip(k) + by + b =~= seq![s[k]] + (a.skip(k + 1) + by + b));
    } else {
        let m = n + part.len();
        assert(s.subrange(n, m) =~= part);
        assert forall|i: int| m <= i < s.len() implies s[i] != part[0] by {
            assert(b.contains(b[i - m]));
        }
        lemma_part_absent(s, part, m);
        lemma_replaced_absent(s, part, by, m);
        assert(s.skip(m) =~= b);
        assert(a.skip(n) =~= Seq::<char>::empty());
        assert(a.skip(n) + by + b =~= by + b);
    }
}

proof fn lemma_plain_name(s: Seq<char>)
    requires
        !s.contains('='),
    ensures
        decoded_username(s) == s,
{
    reveal_strlit("=2C");
    reveal_strlit("=3D");
    assert forall|i: int| 0 <= i < s.len() implies s[i] != '=' by {
        assert(s.contains(s[i]));
    }
    lemma_part_absent(s, "=2C"@, 0);
    lemma_part_absent(s, "=3D"@, 0);
    lemma_replaced_absent(s, "=2C"@, ","@, 0);
    lemma_replaced_absent(s, "=3D"@, "="@, 0);
    assert(s.skip(0) =~= s);
}

/// In a user name `=2C` stands for a comma and `=3D` for an equals sign;
/// everything else stands for itself.
pub proof fn law_user_names_are_decoded(a: Seq<char>, b: Seq<char>)
    requires
        !a.contains('=') && !b.contains('='),
    ensures
        decoded_username(a) == a,
        decoded_username(a + seq!['=', '2', 'C'] + b) == a + seq![','] + b,
        decoded_username(a + seq!['=', '3', 'D'] + b) == a + seq!['='] + b,
{
    reveal_strlit("=2C");
    reveal_strlit("=3D");
    reveal_strlit(",");
    reveal_strlit("=");
    assert("=2C"@ =~= seq!['=', '2', 'C']);
    assert("=3D"@ =~= seq!['=', '3', 'D']);
    assert(","@ =~= seq![',']);
    assert("="@ =~= seq!['=']);
    lemma_plain_name(a);
    assert(a.skip(0) =~= a);
    lemma_replaced_once(a, "=2C"@, b, ","@, 0);
    let t = a + seq![','] + b;
    assert forall|i: int| 0 <= i < t.len() implies t[i] != '=' by {
        if i < a.len() {
            assert(a.contains(a[i]));
        } else if i > a.len() {
            assert(b.contains(b[i - a.len() - 1]));
        }
    }
    lemma_part_absent(t, "=3D"@, 0);
    lemma_replaced_absent(t, "=3D"@, "="@, 0);
    assert(t.skip(0) =~= t);
    let s = a + "=3D"@ + b;
    lemma_other_escape(a, b, 0);
    lemma_replaced_absent(s, "=2C"@, ","@, 0);
    assert(s.skip(0) =~= s);
    lemma_replaced_once(a, "=3D"@, b, "="@, 0);
}

proof fn lemma_other_escape(a: Seq<char>, b: Seq<char>, k: int)
    requires
        !a.contains('=') && !b.contains('='),
        0 <= k <= a.len() + 3 + b.len(),
    ensures
        find_part(a + "=3D"@ + b, "=2C"@, k) is None,
    decreases a.len() + 3 + b.len() - k,
{
    reveal_strlit("=2C");
    reveal_strlit("=3D");
    let s = a + "=3D"@ + b;
    if k + 3 <= s.len() {
        if part_at(s, k, "=2C"@) {
            let p = s.subrange(k, k + 3);
            assert(p[0] == s[k] && p[1] == s[k + 1]);
            if k < a.len() {
                assert(a.contains(a[k]));
            } else if k > a.len() {
                if k < a.len() + 3 {
                    assert(s[k] == "=3D"@[k - a.len()]);
                } else {
                    assert(b.contains(b[k - a.len() - 3]));
                }
            } else {
                assert(s[k + 1] == '3');
            }
        }
        lemma_other_escape(a, b, k + 1);
    }
}

/// A first message is a flag, no authorization identity, a user name and a
/// nonce. The exchange goes on with the nonce of the client and that of the
/// server behind it.
pub proof fn law_first_messages_are_read(
    keys: VerifierModel,
    flag: Seq<char>,
    user: Seq<char>,
    nonce: Seq<char>,
    server_nonce: Seq<char>,
)
    requires
        flag == seq!['n'] || flag == seq!['y'],
        is_unmarked(user),
        !nonce.contains(','),
        nonce.len() > 0,
    ensures
        ({
            let bare = given(seq!['n'], user) + seq![','] + given(seq!['r'], nonce);
            let text = flag + seq![',', ','] + bare;
            &&& gs2_parts(text) == Ok::<(Seq<char>, Seq<char>), ScramError>(
                (flag + seq![',', ','], bare),
            )
            &&& client_first(bare) == Ok::<(Seq<char>, Seq<char>), ScramError>((user, nonce))
            &&& started(keys, encode_utf8(text), server_nonce) matches Ok(x) && x.keys == keys
                && x.combined_nonce == nonce + server_nonce && x.gs2_header == flag + seq![',', ',']
                && x.client_first_bare == bare
        }),
{
    let bare = given(seq!['n'], user) + seq![','] + given(seq!['r'], nonce);
    let text = flag + seq![',', ','] + bare;
    lemma_header(flag, bare);
    lemma_keys();
    lemma_plain_name(user);
    lemma_given("n"@, user);
    lemma_given("r"@, nonce);
    lemma_pieces_of_both(given("n"@, user), given("r"@, nonce), ',');
    let parts = pieces(bare, ',');
    assert(parts =~= seq![given("n"@, user), given("r"@, nonce)]);
    reveal_with_fuel(first_attributes, 3);
    encode_utf8_valid_utf8(text);
    encode_utf8_decode_utf8(text);
}

proof fn lemma_header(flag: Seq<char>, bare: Seq<char>)
    requires
        flag == seq!['n'] || flag == seq!['y'],
    ensures
        gs2_parts(flag + seq![',', ','] + bare) == Ok::<(Seq<char>, Seq<char>), ScramError>(
            (flag + seq![',', ','], bare),
        ),
{
    let text = flag + seq![',', ','] + bare;
    reveal_strlit("n");
    reveal_strlit("y");
    assert("n"@ =~= seq!['n'] && "y"@ =~= seq!['y']);
    assert(text[0] != ',' && text[1] == ',' && text[2] == ',');
    reveal_with_fuel(find_char, 3);
    assert(find_char(text, ',', 0) == Some(1int));
    assert(find_char(text, ',', 2) == Some(2int));
    assert(text.take(1) =~= flag);
    assert(text.take(3) =~= flag + seq![',', ',']);
    assert(text.skip(3) =~= bare);
}

/// A header is refused where it is none: an authorization identity and the
/// demand for channel binding are not supported, and other flags are no flags.
pub proof fn law_other_headers_are_refused(flag: Seq<char>, identity: Seq<char>, rest: Seq<char>)
    requires
        !flag.contains(',') && !identity.contains(','),
    ensures
        ({
            let text = flag + seq![','] + identity + seq![','] + rest;
            &&& (flag == seq!['n'] || flag == seq!['y']) && identity.len() > 0 ==> gs2_parts(text)
                == Err::<(Seq<char>, Seq<char>), ScramError>(ScramError::Unsupported)
            &&& flag.len() >= 2 && flag[0] == 'p' && flag[1] == '=' ==> gs2_parts(text) == Err::<
                (Seq<char>, Seq<char>),
                ScramError,
            >(ScramError::ChannelBindingUnsupported)
            &&& flag.len() == 0 || (flag != seq!['n'] && flag != seq!['y'] && flag[0] != 'p')
                ==> gs2_parts(text) == Err::<(Seq<char>, Seq<char>), ScramError>(
                ScramError::Malformed,
            )
            &&& gs2_parts(flag) == Err::<(Seq<char>, Seq<char>), ScramError>(ScramError::Malformed)
            &&& gs2_parts(flag + seq![','] + identity) == Err::<
                (Seq<char>, Seq<char>),
                ScramError,
            >(ScramError::Malformed)
        }),
{
    let text = flag + seq![','] + identity + seq![','] + rest;
    let short = flag + seq![','] + identity;
    let a = flag.len() as int;
    let b = a + 1 + identity.len();
    reveal_strlit("n");
    reveal_strlit("y");
    reveal_strlit("p=");
    assert("n"@ =~= seq!['n'] && "y"@ =~= seq!['y'] && "p="@ =~= seq!['p', '=']);
    assert forall|j: int| 0 <= j < a implies text[j] != ',' && short[j] != ',' && flag[j] != ',' by {
        assert(flag.contains(flag[j]));
    }
    assert forall|j: int| a < j < b implies text[j] != ',' && short[j] != ',' by {
        assert(identity.contains(identity[j - a - 1]));
    }
    assert(text[a] == ',' && text[b] == ',' && short[a] == ',');
    lemma_find_char(text, ',', 0);
    lemma_find_char(text, ',', a + 1);
    lemma_find_char(short, ',', 0);
    lemma_find_char(short, ',', a + 1);
    lemma_find_char(flag, ',', 0);
    assert(text.take(a) =~= flag);
    if flag.len() >= 2 {
        assert(flag.subrange(0, 2) =~= seq![flag[0], flag[1]]);
        assert(flag.subrange(0, 2)[0] == flag[0] && flag.subrange(0, 2)[1] == flag[1]);
        assert(flag.len() != seq!['n'].len() && flag.len() != seq!['y'].len());
    }
}

proof fn lemma_extension_first(parts: Seq<Seq<char>>, n: int)
    requires
        1 <= n <= parts.len(),
        attribute(parts[0]) matches Some((key, _)) && key == "m"@,
    ensures
        first_attributes(parts, n) == Err::<FirstAttributes, ScramError>(ScramError::Unsupported),
        final_attributes(parts, n) == Err::<FinalAttributes, ScramError>(ScramError::Unsupported),
    decreases n,
{
    lemma_keys();
    if n > 1 {
        lemma_extension_first(parts, n - 1);
    } else {
        reveal_with_fuel(first_attributes, 2);
        reveal_with_fuel(final_attributes, 2);
    }
}

/// A first message without a user name or a nonce, with an empty nonce, with two
/// nonces, or with a part that is no attribute is malformed; an extension that
/// the server has to know is not supported; others are ignored.
pub proof fn law_other_first_messages_are_refused(
    user: Seq<char>,
    nonce: Seq<char>,
    other: Seq<char>,
    key: Seq<char>,
    value: Seq<char>,
    rest: Seq<char>,
)
    requires
        is_unmarked(user) && is_unmarked(key) && is_unmarked(other),
        !nonce.contains(',') && !value.contains(','),
        key != seq!['n'] && key != seq!['r'] && key != seq!['m'],
    ensures
        ({
            let name = given(seq!['n'], user);
            let number = given(seq!['r'], nonce);
            let comma = seq![','];
            let malformed = Err::<(Seq<char>, Seq<char>), ScramError>(ScramError::Malformed);
            &&& client_first(name) == malformed
            &&& client_first(number) == malformed
            &&& client_first(name + comma + given(seq!['r'], Seq::empty())) == malformed
            &&& client_first(name + comma + number + comma + number) == malformed
            &&& client_first(name + comma + number + comma + other) == malformed
            &&& client_first(given(seq!['m'], value) + comma + rest) == Err::<
                (Seq<char>, Seq<char>),
                ScramError,
            >(ScramError::Unsupported)
            &&& nonce.len() > 0 ==> client_first(name + comma + number + comma + given(key, value))
                == Ok::<(Seq<char>, Seq<char>), ScramError>((user, nonce))
        }),
{
    lemma_keys();
    lemma_plain_name(user);
    let name = given("n"@, user);
    let number = given("r"@, nonce);
    let none = given("r"@, Seq::empty());
    let extra = given(key, value);
    let extension = given("m"@, value);
    let comma = seq![','];
    lemma_given("n"@, user);
    lemma_given("r"@, nonce);
    lemma_given("r"@, Seq::empty());
    lemma_given("m"@, value);
    lemma_given(key, value);
    lemma_piece(other);
    lemma_find_char(other, '=', 0);
    if let Some(k) = find_char(other, '=', 0) {
        assert(other.contains(other[k]));
    }
    assert(attribute(other) is None);
    lemma_pieces_of_both(name, none, ',');
    lemma_pieces_of_both(name, number, ',');
    lemma_pieces_of_both(name + comma + number, number, ',');
    lemma_pieces_of_both(name + comma + number, other, ',');
    lemma_pieces_of_both(name + comma + number, extra, ',');
    lemma_pieces_of_both(extension, rest, ',');
    assert(pieces(name + comma + none, ',') =~= seq![name, none]);
    assert(pieces(name + comma + number + comma + number, ',') =~= seq![name, number, number]);
    assert(pieces(name + comma + number + comma + other, ',') =~= seq![name, number, other]);
    assert(pieces(name + comma + number + comma + extra, ',') =~= seq![name, number, extra]);
    let parts = pieces(extension + comma + rest, ',');
    assert(parts[0] == extension);
    lemma_extension_first(parts, parts.len() as int);
    reveal_with_fuel(first_attributes, 4);
}

/// The server's first message gives the nonce, the salt and the number of
/// iterations, by their keys.
pub proof fn law_server_messages_are_attributes(nonce: Seq<char>, keys: VerifierModel)
    requires
        !nonce.contains(','),
        !base64_text(keys.salt).contains(','),
    ensures
        ({
            let parts = pieces(server_first(nonce, keys), ',');
            let n = parts.len() as int;
            &&& n == 3
            &&& attribute(parts[0]) == Some((seq!['r'], nonce))
            &&& attribute(parts[1]) == Some((seq!['s'], base64_text(keys.salt)))
            &&& attribute(parts[2]) matches Some((key, count)) && key == seq!['i']
                && parse_unsigned(count, u32::MAX as nat) == Some(keys.iterations as nat)
        }),
{
    lemma_keys();
    reveal_strlit("r=");
    reveal_strlit(",s=");
    reveal_strlit(",i=");
    let count = decimal(keys.iterations as nat);
    lemma_decimal(keys.iterations as nat);
    lemma_parse_decimal(keys.iterations as nat, u32::MAX as nat);
    if count.contains(',') {
        let i = choose|i: int| 0 <= i < count.len() && count[i] == ',';
        assert(is_digit(count[i]));
    }
    let a = given("r"@, nonce);
    let b = given("s"@, base64_text(keys.salt));
    let c = given("i"@, count);
    lemma_given("r"@, nonce);
    lemma_given("s"@, base64_text(keys.salt));
    lemma_given("i"@, count);
    assert(server_first(nonce, keys) =~= a + seq![','] + b + seq![','] + c);
    lemma_pieces_of_both(a + seq![','] + b, c, ',');
    lemma_pieces_of_both(a, b, ',');
    assert(pieces(server_first(nonce, keys), ',') =~= seq![a, b, c]);
}

proof fn lemma_last_part(s: Seq<char>, part: Seq<char>, at: int, k: int)
    requires
        0 <= at <= k <= s.len(),
        part.len() > 0,
        part_at(s, at, part),
        forall|i: int| at < i < s.len() ==> s[i] != part[0],
    ensures
        find_part_back(s, part, k) == Some(at),
    decreases k,
{
    if k > at {
        if part_at(s, k, part) {
            assert(s.subrange(k, k + part.len())[0] == s[k]);
        }
        lemma_last_part(s, part, at, k - 1);
    }
}

/// A last message is the channel binding, the nonce and a proof of 32 bytes.
/// Without one of them it is malformed, and an extension that the server has to
/// know is not supported.
pub proof fn law_last_messages_are_read(
    binding: Seq<char>,
    nonce: Seq<char>,
    value: Seq<char>,
    signed: Seq<char>,
)
    requires
        !binding.contains(',') && !nonce.contains(',') && !value.contains(',') && !signed.contains(
            ',',
        ),
    ensures
        ({
            let c = given(seq!['c'], binding);
            let r = given(seq!['r'], nonce);
            let p = seq![',', 'p', '='] + signed;
            let comma = seq![','];
            let malformed = Err::<FinalModel, ScramError>(ScramError::Malformed);
            let readable = base64_bytes(signed) matches Some(bytes) && bytes.len() == 32;
            &&& readable ==> client_final(c + comma + r + p) == Ok::<FinalModel, ScramError>(
                FinalModel {
                    channel_binding: binding,
                    nonce,
                    proof_text: signed,
                    without_proof: c + comma + r,
                },
            )
            &&& !readable ==> client_final(c + comma + r + p) == malformed
            &&& client_final(c + p) == malformed
            &&& client_final(r + p) == malformed
            &&& readable ==> client_final(given(seq!['m'], value) + comma + c + comma + r + p)
                == Err::<FinalModel, ScramError>(ScramError::Unsupported)
        }),
{
    lemma_keys();
    reveal_strlit(",p=");
    assert(",p="@ =~= seq![',', 'p', '=']);
    let c = given("c"@, binding);
    let r = given("r"@, nonce);
    let m = given("m"@, value);
    let p = ",p="@ + signed;
    let comma = seq![','];
    lemma_given("c"@, binding);
    lemma_given("r"@, nonce);
    lemma_given("m"@, value);
    lemma_pieces_of_both(c, r, ',');
    lemma_pieces_of_both(m, c + comma + r, ',');
    assert(pieces(c + comma + r, ',') =~= seq![c, r]);
    assert(m + comma + (c + comma + r) =~= m + comma + c + comma + r);
    lemma_cut(c + comma + r, signed);
    lemma_cut(c, signed);
    lemma_cut(r, signed);
    lemma_cut(m + comma + c + comma + r, signed);
    let parts = pieces(m + comma + c + comma + r, ',');
    assert(parts[0] == m);
    lemma_extension_first(parts, parts.len() as int);
    reveal_with_fuel(final_attributes, 3);
}

proof fn lemma_cut(front: Seq<char>, signed: Seq<char>)
    requires
        !signed.contains(','),
    ensures
        ({
            let text = front + (",p="@ + signed);
            let k = front.len() as int;
            &&& find_part_back(text, ",p="@, text.len() as int) == Some(k)
            &&& text.take(k) == front
            &&& text.skip(k + 3) == signed
        }),
{
    reveal_strlit(",p=");
    let text = front + (",p="@ + signed);
    let k = front.len() as int;
    assert(text.subrange(k, k + 3) =~= ",p="@);
    assert forall|i: int| k < i < text.len() implies text[i] != ',' by {
        if i >= k + 3 {
            assert(text[i] == signed[i - k - 3]);
            assert(signed.contains(signed[i - k - 3]));
        } else {
            assert(text[i] == ",p="@[i - k]);
        }
    }
    lemma_last_part(text, ",p="@, k, text.len() as int);
    assert(text.take(k) =~= front);
    assert(text.skip(k + 3) =~= signed);
}

/// A message with another nonce is malformed; one with another channel binding,
/// or with a proof that reveals another key, is a failed authentication.
pub proof fn law_failures_are_told_apart(x: ExchangeModel, m: FinalModel, bytes: Seq<u8>)
    ensures
        m.nonce != x.combined_nonce ==> answered(x, m) == Err::<Seq<char>, ScramError>(
            ScramError::Malformed,
        ),
        m.nonce == x.combined_nonce && m.channel_binding != base64_text(
            encode_utf8(x.gs2_header),
        ) ==> answered(x, m) == Err::<Seq<char>, ScramError>(ScramError::AuthenticationFailed),
        m.nonce == x.combined_nonce && answered(x, m) is Err ==> answered(x, m) == Err::<
            Seq<char>,
            ScramError,
        >(ScramError::AuthenticationFailed),
        !valid_utf8(bytes) ==> finished(x, bytes) == Err::<Seq<char>, ScramError>(
            ScramError::Malformed,
        ),
        !valid_utf8(bytes) ==> started(x.keys, bytes, x.combined_nonce) == Err::<
            ExchangeModel,
            ScramError,
        >(ScramError::Malformed),
{
}

/// What is kept of a password are the digest of its client key and its server
/// key, both made from the password, the salt and the number of iterations; the
/// labels of the two keys differ.
pub proof fn law_passwords_are_kept_as_keys(password: Seq<char>, salt: Seq<u8>, iterations: u32)
    ensures
        ({
            let kept = verifier_of(password, salt, iterations);
            let salted = pbkdf2_key(encode_utf8(password), salt, iterations);
            let client = seq!['C', 'l', 'i', 'e', 'n', 't', ' ', 'K', 'e', 'y'];
            let server = seq!['S', 'e', 'r', 'v', 'e', 'r', ' ', 'K', 'e', 'y'];
            &&& kept.salt == salt
            &&& kept.iterations == iterations
            &&& kept.stored_key == sha256_digest(hmac_tag(salted, encode_utf8(client)))
            &&& kept.server_key == hmac_tag(salted, encode_utf8(server))
        }),
{
    reveal_strlit("Client Key");
    reveal_strlit("Server Key");
    assert("Client Key"@ =~= seq!['C', 'l', 'i', 'e', 'n', 't', ' ', 'K', 'e', 'y']);
    assert("Server Key"@ =~= seq!['S', 'e', 'r', 'v', 'e', 'r', ' ', 'K', 'e', 'y']);
}

/// Random bytes become characters of a nonce: any printable character but the
/// space and the comma, each for the bytes with one remainder, in order.
pub proof fn law_nonces_are_printable(a: u8, b: u8)
    ensures
        '!' <= nonce_char(a) <= '~',
        nonce_char(a) != ',',
        a % 93 < b % 93 ==> nonce_char(a) < nonce_char(b),
        a % 93 == b % 93 ==> nonce_char(a) == nonce_char(b),
{
}

} // verus!
