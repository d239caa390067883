//! Passwords, identifiers and session tokens.

use vstd::prelude::*;
use vstd::utf8::*;

use argon2::password_hash::rand_core::OsRng;
use argon2::password_hash::{PasswordHash, PasswordHasher, PasswordVerifier, SaltString};
use argon2::Argon2;
use rand::RngCore;

use crate::pty;
use crate::reply;
use crate::reply::{ApiError, Refusal};
use crate::text;

verus! {

/// What hashing a password with a salt gives under the default Argon2 settings:
/// the hash in PHC string form, or the text of the error.
pub uninterp spec fn argon2_hash(password: Seq<char>, salt: Seq<char>) -> Result<
    Seq<char>,
    Seq<char>,
>;

/// Whether `password` matches `hash`, a PHC string, under the default Argon2 settings.
pub uninterp spec fn argon2_accepts(password: Seq<char>, hash: Seq<char>) -> bool;

/// The most bytes that a password can have.
pub const LONGEST_PASSWORD: u64 = 0xFFFF_FFFF;

/// Whether `s` is a salt of sixteen bytes: their base64 form without its padding.
pub open spec fn is_salt(s: Seq<char>) -> bool {
    exists|b: Seq<u8>| b.len() == 16 && s == (#[trigger] pty::b64_text(b)).take(22)
}

/// Whether a text has the fields of a password hash: nothing before the first dollar sign,
/// then an algorithm, perhaps a version and parameters, a salt and an output.
pub open spec fn has_fields(hash: Seq<char>) -> bool {
    let fields = text::pieces(hash, |c: char| c == '$');
    4 <= fields.len() <= 6 && fields[0].len() == 0
}

/// Whether no number of lanes in a password hash has more than eight digits. None that is
/// lawful has more.
pub open spec fn lanes_fit(hash: Seq<char>) -> bool {
    let parts = text::pieces(hash, |c: char| c == '$' || c == ',');
    forall|i: int|
        0 <= i < parts.len() && "p="@.is_prefix_of(#[trigger] parts[i]) ==> parts[i].len() <= 10
}

/// Whether `password` is the one that `hash` was made of, as far as a hash can tell. A text
/// without the form of a hash belongs to no password.
pub open spec fn opens(password: Seq<char>, hash: Seq<char>) -> bool {
    has_fields(hash) && lanes_fit(hash) && argon2_accepts(password, hash)
}

/// `SaltString::generate` draws sixteen random bytes and writes them in unpadded
/// base64. Which bytes they are is not stated.
#[verifier::external_body]
fn fresh_salt() -> (r: String)
    ensures
        is_salt(r@),
{
    SaltString::generate(&mut OsRng).to_string()
}

/// `Argon2::hash_password` with the default settings depends on the password and the
/// salt alone. With a salt of sixteen bytes it fails exactly where the password is too
/// long. A hash that it returns has all fields and one lane, and is accepted by
/// `Argon2::verify_password` for the same password. What the hash is beyond that is not
/// stated.
#[verifier::external_body]
fn hash_with_salt(password: &str, salt: &str) -> (r: Result<String, String>)
    ensures
        reply::told(r) == argon2_hash(password@, salt@),
        is_salt(salt@) ==> (r is Ok <==> encode_utf8(password@).len() <= LONGEST_PASSWORD),
        r matches Ok(h) ==> has_fields(h@) && lanes_fit(h@) && argon2_accepts(password@, h@),
{
    let salt = SaltString::from_b64(salt).map_err(|e| e.to_string())?;
    Argon2::default()
        .hash_password(password.as_bytes(), &salt)
        .map(|h| h.to_string())
        .map_err(|e| e.to_string())
}

/// `PasswordHash::new` parses the hash and `Argon2::verify_password` compares the
/// password against it. The answer depends on the two texts alone; a text that lacks
/// fields of a hash, or has too many, is accepted for no password. A number of lanes that
/// is far beyond what is lawful makes the comparison overflow. Which passwords are
/// accepted is not stated.
#[verifier::external_body]
fn argon2_verify(password: &str, hash: &str) -> (r: bool)
    requires
        lanes_fit(hash@),
    ensures
        r == argon2_accepts(password@, hash@),
        r ==> has_fields(hash@),
{
    let parsed = PasswordHash::new(hash);
    match parsed {
        Ok(p) => Argon2::default().verify_password(password.as_bytes(), &p).is_ok(),
        Err(_) => false,
    }
}

/// `Uuid::new_v4` draws a random identifier, here in its form without hyphens:
/// thirty-two lower case hexadecimal digits, with the version and the variant in place.
#[verifier::external_body]
fn random_uuid() -> (r: String)
    ensures
        is_uuid(r@),
{
    uuid::Uuid::new_v4().simple().to_string()
}

/// `fill_bytes` of the thread's generator fills all of the buffer with random bytes.
#[verifier::external_body]
fn random_bytes() -> (r: [u8; 32]) {
    let mut b = [0u8; 32];
    rand::thread_rng().fill_bytes(&mut b);
    b
}

/// `hex::encode` writes each byte as two lower case hexadecimal digits.
#[verifier::external_body]
fn hex_encode(bytes: &[u8; 32]) -> (r: String)
    ensures
        r@ == hex_text(bytes@),
{
    hex::encode(bytes)
}

/// The lower case hexadecimal digit of a number below sixteen.
pub open spec fn hex_digit(n: int) -> char {
    if n < 10 {
        (48 + n) as char
    } else {
        (87 + n) as char
    }
}

/// Bytes in hexadecimal.
pub open spec fn hex_text(bytes: Seq<u8>) -> Seq<char> {
    Seq::new(
        2 * bytes.len(),
        |i: int| hex_digit(if i % 2 == 0 { bytes[i / 2] as int / 16 } else { bytes[i / 2] as int % 16 }),
    )
}

/// Whether `c` is a lower case hexadecimal digit.
pub open spec fn is_hex_digit(c: char) -> bool {
    '0' <= c <= '9' || 'a' <= c <= 'f'
}

/// Whether `s` is a version 4 identifier without hyphens.
pub open spec fn is_uuid(s: Seq<char>) -> bool {
    &&& s.len() == 32
    &&& forall|i: int| 0 <= i < 32 ==> is_hex_digit(#[trigger] s[i])
    &&& s[12] == '4'
    &&& s[16] == '8' || s[16] == '9' || s[16] == 'a' || s[16] == 'b'
}

/// Whether `id` is an identifier with this prefix.
pub open spec fn is_id(prefix: Seq<char>, id: Seq<char>) -> bool {
    exists|u: Seq<char>| #[trigger] is_uuid(u) && id == prefix + "_"@ + u
}

/// Whether `token` could have been issued as a session token.
pub open spec fn is_token(token: Seq<char>) -> bool {
    exists|b: Seq<u8>| b.len() == 32 && token == #[trigger] hex_text(b)
}

/// A session token is sixty-four lower case hexadecimal digits.
pub proof fn token_shape(token: Seq<char>)
    requires
        is_token(token),
    ensures
        token.len() == 64,
        forall|i: int| 0 <= i < 64 ==> is_hex_digit(#[trigger] token[i]),
{
    let b = choose|b: Seq<u8>| b.len() == 32 && token == #[trigger] hex_text(b);
    assert forall|i: int| 0 <= i < 64 implies is_hex_digit(#[trigger] token[i]) by {
        assert(0 <= b[i / 2] as int / 16 < 16);
        assert(0 <= b[i / 2] as int % 16 < 16);
    }
}

/// Whether `r` is what hashing `password` with some fresh salt can give: a hash that the
/// password matches, or the text of what went wrong.
pub open spec fn salted(password: Seq<char>, r: Result<Seq<char>, Seq<char>>) -> bool {
    &&& exists|salt: Seq<char>| is_salt(salt) && r == #[trigger] argon2_hash(password, salt)
    &&& r is Ok <==> encode_utf8(password).len() <= LONGEST_PASSWORD
    &&& r matches Ok(h) ==> opens(password, h)
}

/// A hash of `password` with a fresh salt, or the text of what went wrong.
pub fn salted_hash(password: &str) -> (r: Result<String, String>)
    ensures
        salted(password@, reply::told(r)),
{
    let salt = fresh_salt();
    hash_with_salt(password, salt.as_str())
}

/// Whether `r` is what hashing `password` with some fresh salt can give: a hash that the
/// password matches, or a refusal.
pub open spec fn hashed(password: Seq<char>, r: Result<Seq<char>, Refusal>) -> bool {
    exists|x: Result<Seq<char>, Seq<char>>| #[trigger]
        salted(password, x) && r == (match x {
            Ok(h) => Ok::<Seq<char>, Refusal>(h),
            Err(_) => Err(reply::refusal(reply::INTERNAL_SERVER_ERROR, "password hash failed")),
        })
}

/// A hash of `password` with a fresh salt.
pub fn hash_password(password: &str) -> (r: Result<String, ApiError>)
    ensures
        hashed(password@, reply::shown(r)),
{
    let x = salted_hash(password);
    assert(salted(password@, reply::told(x)));
    match x {
        Ok(h) => Ok(h),
        Err(_) => Err(reply::err(reply::INTERNAL_SERVER_ERROR, "password hash failed")),
    }
}

/// Whether no number of lanes in a password hash has more than eight digits.
fn has_fitting_lanes(hash: &str) -> (r: bool)
    ensures
        r == lanes_fit(hash@),
{
    let parts = text::split(hash, '$', ',');
    let mut i: usize = 0;
    while i < parts.len()
        invariant
            i <= parts@.len(),
            text::texts(parts@) == text::pieces(hash@, |c: char| c == '$' || c == ','),
            forall|j: int|
                0 <= j < i && "p="@.is_prefix_of((#[trigger] parts@[j])@) ==> parts@[j]@.len() <= 10,
        decreases parts@.len() - i,
    {
        let part = parts[i].as_str();
        if let Some(digits) = text::after_prefix(part, "p=") {
            let n = text::chars_of(digits.as_str()).len();
            proof {
                reveal_strlit("p=");
                assert("p="@.is_prefix_of(part@));
            }
            if n > 8 {
                assert(text::texts(parts@)[i as int] == part@);
                return false;
            }
        }
        i = i + 1;
    }
    assert forall|j: int|
        0 <= j < parts@.len() && "p="@.is_prefix_of(
            #[trigger] text::texts(parts@)[j],
        ) implies text::texts(parts@)[j].len() <= 10 by {
        assert(text::texts(parts@)[j] == parts@[j]@);
    }
    true
}

/// Whether `password` matches the stored `hash`.
pub fn verify_password(password: &str, hash: &str) -> (r: bool)
    ensures
        r == opens(password@, hash@),
{
    has_fitting_lanes(hash) && argon2_verify(password, hash)
}

/// A text that does not start with a dollar sign, an empty one among them, is the hash of
/// no password.
pub proof fn plain_texts_are_no_hashes(password: Seq<char>, hash: Seq<char>)
    requires
        hash.len() == 0 || hash[0] != '$',
    ensures
        !opens(password, hash),
{
    let sep = |c: char| c == '$';
    if hash.len() > 0 {
        text::lemma_first_piece(hash, sep);
    }
}

/// A new identifier: the prefix, an underscore and a random part.
pub fn new_id(prefix: &str) -> (r: String)
    ensures
        is_id(prefix@, r@),
{
    let u = random_uuid();
    let mut s = text::concat(prefix, "_");
    s.append(u.as_str());
    assert(is_uuid(u@));
    s
}

/// A new session token.
pub fn new_token() -> (r: String)
    ensures
        is_token(r@),
{
    let b = random_bytes();
    let s = hex_encode(&b);
    assert(s@ == hex_text(b@));
    s
}

/// Which password opens a hash is for the hash to say: a password that opens it is one that
/// Argon2 accepts, and where one password opens it, so does every other that is accepted.
pub proof fn hashes_decide_which_password_opens(
    password: Seq<char>,
    other: Seq<char>,
    hash: Seq<char>,
)
    ensures
        opens(password, hash) ==> argon2_accepts(password, hash),
        opens(password, hash) ==> (opens(other, hash) <==> argon2_accepts(other, hash)),
{
}

/// A text with four to six fields between dollar signs, the first one empty, and without
/// commas in its fields is opened by every password that Argon2 accepts, unless a field is
/// a number of lanes with more than eight digits.
pub proof fn well_formed_hashes_are_opened(
    password: Seq<char>,
    a: Seq<char>,
    b: Seq<char>,
    c: Seq<char>,
)
    requires
        forall|i: int| 0 <= i < a.len() ==> #[trigger] a[i] != '$' && a[i] != ',',
        forall|i: int| 0 <= i < b.len() ==> #[trigger] b[i] != '$' && b[i] != ',',
        forall|i: int| 0 <= i < c.len() ==> #[trigger] c[i] != '$' && c[i] != ',',
        !"p="@.is_prefix_of(a) && !"p="@.is_prefix_of(b) && !"p="@.is_prefix_of(c),
    ensures
        ({
            let hash = seq!['$'] + (a.push('$') + (b.push('$') + c));
            opens(password, hash) <==> argon2_accepts(password, hash)
        }),
{
    let hash = seq!['$'] + (a.push('$') + (b.push('$') + c));
    let none = Seq::<char>::empty();
    lemma_four_fields(a, b, c, |x: char| x == '$');
    lemma_four_fields(a, b, c, |x: char| x == '$' || x == ',');
    reveal_strlit("p=");
    assert(!"p="@.is_prefix_of(none));
    let parts = text::pieces(hash, |x: char| x == '$' || x == ',');
    assert(parts[0] == none && parts[1] == a && parts[2] == b && parts[3] == c);
}

proof fn lemma_four_fields(
    a: Seq<char>,
    b: Seq<char>,
    c: Seq<char>,
    sep: spec_fn(char) -> bool,
)
    requires
        sep('$'),
        forall|i: int| 0 <= i < a.len() ==> !sep(#[trigger] a[i]),
        forall|i: int| 0 <= i < b.len() ==> !sep(#[trigger] b[i]),
        forall|i: int| 0 <= i < c.len() ==> !sep(#[trigger] c[i]),
    ensures
        text::pieces(seq!['$'] + (a.push('$') + (b.push('$') + c)), sep) == seq![
            Seq::<char>::empty(),
            a,
            b,
            c,
        ],
{
    let none = Seq::<char>::empty();
    text::unbroken_text_is_one_piece(none, sep);
    text::unbroken_text_is_one_piece(a, sep);
    text::unbroken_text_is_one_piece(b, sep);
    text::unbroken_text_is_one_piece(c, sep);
    text::separators_part_texts(b, '$', c, sep);
    text::separators_part_texts(a, '$', b.push('$') + c, sep);
    text::separators_part_texts(none, '$', a.push('$') + (b.push('$') + c), sep);
    assert(none.push('$') =~= seq!['$']);
    assert(text::pieces(seq!['$'] + (a.push('$') + (b.push('$') + c)), sep) =~= seq![
        none,
        a,
        b,
        c,
    ]);
}

/// The number that a hexadecimal digit stands for.
pub open spec fn hex_value(c: char) -> int {
    if c as int <= 57 {
        c as int - 48
    } else {
        c as int - 87
    }
}

/// Every byte can be read back from its two digits, the greater one first.
pub proof fn hexadecimal_reads_back(bytes: Seq<u8>, i: int)
    requires
        0 <= i < bytes.len(),
    ensures
        hex_text(bytes).len() == 2 * bytes.len(),
        16 * hex_value(hex_text(bytes)[2 * i]) + hex_value(hex_text(bytes)[2 * i + 1])
            == bytes[i] as int,
{
    let n = bytes[i] as int;
    assert(0 <= n / 16 < 16 && 0 <= n % 16 < 16 && n == 16 * (n / 16) + n % 16);
    assert((2 * i) / 2 == i && (2 * i + 1) / 2 == i && (2 * i) % 2 == 0 && (2 * i + 1) % 2 == 1);
}

/// An identifier is its prefix, an underscore and thirty-two hexadecimal digits.
pub proof fn identifiers_name_their_kind(prefix: Seq<char>, id: Seq<char>)
    requires
        is_id(prefix, id),
    ensures
        id.len() == prefix.len() + 33,
        id.take(prefix.len() as int) == prefix,
        id[prefix.len() as int] == '_',
        forall|i: int|
            prefix.len() < i < id.len() ==> '0' <= #[trigger] id[i] <= '9' || 'a' <= id[i] <= 'f',
{
    reveal_strlit("_");
    let u = choose|u: Seq<char>| #[trigger] is_uuid(u) && id == prefix + "_"@ + u;
    assert(id.take(prefix.len() as int) =~= prefix);
    assert forall|i: int| prefix.len() < i < id.len() implies '0' <= #[trigger] id[i] <= '9' || 'a'
        <= id[i] <= 'f' by {
        assert(id[i] == u[i - prefix.len() - 1]);
        assert(is_hex_digit(u[i - prefix.len() - 1]));
    }
}

/// Every password of at most four gibibytes is hashed, into a hash that it opens.
pub proof fn passwords_are_hashed_up_to_a_limit(password: Seq<char>, r: Result<Seq<char>, Refusal>)
    requires
        hashed(password, r),
    ensures
        r is Ok <==> encode_utf8(password).len() < 4 * 1024 * 1024 * 1024,
        r matches Ok(h) ==> opens(password, h),
        r matches Err(e) ==> e == (500u16, "password hash failed"@),
{
}

/// The number of lanes in a hash is judged by its length alone: a hash is refused for it
/// exactly where more than eight characters follow `p=` between two dollar signs or commas.
pub proof fn only_long_numbers_of_lanes_are_refused(hash: Seq<char>)
    ensures
        lanes_fit(hash) <==> !exists|a: int, b: int|
            {
                &&& "p="@.is_prefix_of(#[trigger] text::stretch(hash, a, b))
                &&& b - a > 10
                &&& 0 <= a <= b <= hash.len()
                &&& a == 0 || hash[a - 1] == '$' || hash[a - 1] == ','
                &&& b == hash.len() || hash[b] == '$' || hash[b] == ','
                &&& forall|k: int| a <= k < b ==> #[trigger] hash[k] != '$' && hash[k] != ','
            },
{
    let sep = |c: char| c == '$' || c == ',';
    let parts = text::pieces(hash, sep);
    if !lanes_fit(hash) {
        let i = choose|i: int|
            0 <= i < parts.len() && "p="@.is_prefix_of(#[trigger] parts[i]) && parts[i].len() > 10;
        text::pieces_are_runs(hash, sep, i);
        let (a, b) = choose|a: int, b: int|
            {
                &&& #[trigger] text::stretch(hash, a, b) == parts[i]
                &&& 0 <= a <= b <= hash.len()
                &&& a == 0 || sep(hash[a - 1])
                &&& b == hash.len() || sep(hash[b])
                &&& forall|k: int| a <= k < b ==> !sep(#[trigger] hash[k])
            };
        assert("p="@.is_prefix_of(text::stretch(hash, a, b)));
        assert forall|k: int| a <= k < b implies #[trigger] hash[k] != '$' && hash[k] != ',' by {
            assert(!sep(hash[k]));
        }
    }
    if exists|a: int, b: int|
        {
            &&& "p="@.is_prefix_of(#[trigger] text::stretch(hash, a, b))
            &&& b - a > 10
            &&& 0 <= a <= b <= hash.len()
            &&& a == 0 || hash[a - 1] == '$' || hash[a - 1] == ','
            &&& b == hash.len() || hash[b] == '$' || hash[b] == ','
            &&& forall|k: int| a <= k < b ==> #[trigger] hash[k] != '$' && hash[k] != ','
        } {
        let (a, b) = choose|a: int, b: int|
            {
                &&& "p="@.is_prefix_of(#[trigger] text::stretch(hash, a, b))
                &&& b - a > 10
                &&& 0 <= a <= b <= hash.len()
                &&& a == 0 || hash[a - 1] == '$' || hash[a - 1] == ','
                &&& b == hash.len() || hash[b] == '$' || hash[b] == ','
                &&& forall|k: int| a <= k < b ==> #[trigger] hash[k] != '$' && hash[k] != ','
            };
        text::lemma_piece(hash, sep, a, b);
        let i = choose|i: int| 0 <= i < parts.len() && parts[i] == text::stretch(hash, a, b);
        assert("p="@.is_prefix_of(parts[i]) && parts[i].len() > 10);
    }
}

} // verus!
