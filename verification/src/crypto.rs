//! Encryption of stored secrets: AES-256-CBC over a scrypt-derived key, with
//! the IV and ciphertext hex-encoded into an `enc:<iv>:<ciphertext>` string.
//! The password and salt are fixed by the storage scheme, so anything this
//! module encrypts, it can decrypt.
//!
//! The block cipher, the key derivation, the hex codec and the random IV come
//! from outside crates behind trusted wrappers; the framing, padding and
//! parsing around them are verified.

use vstd::prelude::*;
use vstd::string::StrSliceExecFns;
use vstd::string::StringExecFns;
use vstd::utf8::{decode_utf8, encode_utf8, valid_utf8};
use crate::text::spec_digit;
use aes::cipher::{BlockDecryptMut, BlockEncryptMut, KeyIvInit};
use rand::Rng;

verus! {

/// The character that writes one hex digit, lower case.
pub open spec fn hex_digit_char(d: int) -> char {
    if d < 10 {
        spec_digit(d)
    } else if d == 10 {
        'a'
    } else if d == 11 {
        'b'
    } else if d == 12 {
        'c'
    } else if d == 13 {
        'd'
    } else if d == 14 {
        'e'
    } else {
        'f'
    }
}

/// Lower-case hex writing of a byte string: two digits per byte, high nibble
/// first.
pub open spec fn spec_hex_encode(b: Seq<u8>) -> Seq<char>
    decreases b.len(),
{
    if b.len() == 0 {
        Seq::empty()
    } else {
        spec_hex_encode(b.drop_last()) + seq![
            hex_digit_char(b.last() as int / 16),
            hex_digit_char(b.last() as int % 16),
        ]
    }
}

/// The characters accepted as hex digits, either case.
pub open spec fn is_hex_digit(c: char) -> bool {
    ('0' <= c && c <= '9') || ('a' <= c && c <= 'f') || ('A' <= c && c <= 'F')
}

/// Numeric value of a hex digit character.
pub open spec fn hex_val(c: char) -> int {
    if '0' <= c && c <= '9' {
        c as int - '0' as int
    } else if 'a' <= c && c <= 'f' {
        c as int - 'a' as int + 10
    } else {
        c as int - 'A' as int + 10
    }
}

/// A string the hex decoder accepts: an even number of hex digits.
pub open spec fn valid_hex(s: Seq<char>) -> bool {
    s.len() % 2 == 0 && forall|i: int| 0 <= i < s.len() ==> is_hex_digit(s[i])
}

/// The bytes a hex string writes, meaningful on valid input.
pub open spec fn spec_hex_decode(s: Seq<char>) -> Seq<u8>
    decreases s.len(),
{
    if s.len() < 2 {
        Seq::empty()
    } else {
        spec_hex_decode(s.drop_last().drop_last()) + seq![
            (hex_val(s[s.len() - 2]) * 16 + hex_val(s.last())) as u8,
        ]
    }
}

/// Relies on hex::encode: two lower-case digits per byte, high nibble first.
#[verifier::external_body]
fn hex_encode(data: &Vec<u8>) -> (r: String)
    ensures
        r@ == spec_hex_encode(data@),
{
    hex::encode(data)
}

/// Relies on hex::decode: it accepts exactly an even number of hex digits of
/// either case and hands back the bytes they write; anything else is refused
/// with that crate's message.
#[verifier::external_body]
fn hex_decode(s: &str) -> (r: Result<Vec<u8>, String>)
    ensures
        r is Ok <==> valid_hex(s@),
        r matches Ok(b) ==> b@ == spec_hex_decode(s@),
{
    hex::decode(s).map_err(|e| e.to_string())
}

/// The 32-byte key scrypt derives from a password and salt with parameters
/// N=16384, r=8, p=1 — the scheme's fixed key-derivation call.
pub uninterp spec fn scrypt_key(password: Seq<u8>, salt: Seq<u8>) -> Seq<u8>;

/// Relies on scrypt::scrypt with Params::new(14, 8, 1, 32), parameters that
/// crate accepts: it fills exactly the requested 32 bytes, a function of the
/// password and salt alone.
#[verifier::external_body]
fn derive_key_bytes(password: &Vec<u8>, salt: &Vec<u8>) -> (r: Vec<u8>)
    ensures
        r@ == scrypt_key(password@, salt@),
        r@.len() == 32,
{
    let params = scrypt::Params::new(14, 8, 1, 32).unwrap();
    let mut key = vec![0u8; 32];
    scrypt::scrypt(password, salt, &params, &mut key).unwrap();
    key
}

/// AES-256-CBC encryption of a whole number of blocks.
pub uninterp spec fn aes256_cbc_encrypt(key: Seq<u8>, iv: Seq<u8>, data: Seq<u8>) -> Seq<u8>;

/// AES-256-CBC decryption of a whole number of blocks.
pub uninterp spec fn aes256_cbc_decrypt(key: Seq<u8>, iv: Seq<u8>, data: Seq<u8>) -> Seq<u8>;

/// Relies on cbc::Encryptor<aes::Aes256> without extra padding, over a whole
/// number of blocks: the output has the input's length, is a function of key,
/// IV and data alone, and the matching decryptor inverts it.
#[verifier::external_body]
fn aes_cbc_encrypt(key: &Vec<u8>, iv: &Vec<u8>, data: &Vec<u8>) -> (r: Vec<u8>)
    requires
        key@.len() == 32,
        iv@.len() == 16,
        data@.len() % 16 == 0,
    ensures
        r@ == aes256_cbc_encrypt(key@, iv@, data@),
        r@.len() == data@.len(),
        aes256_cbc_decrypt(key@, iv@, r@) == data@,
{
    let key_arr: [u8; 32] = key.as_slice().try_into().unwrap();
    let iv_arr: [u8; 16] = iv.as_slice().try_into().unwrap();
    let mut buf = data.clone();
    let len = buf.len();
    let cipher = cbc::Encryptor::<aes::Aes256>::new(&key_arr.into(), &iv_arr.into());
    cipher.encrypt_padded_mut::<aes::cipher::block_padding::NoPadding>(&mut buf, len).unwrap();
    buf
}

/// Relies on cbc::Decryptor<aes::Aes256> without padding handling, over a
/// whole number of blocks: the output has the input's length and is a
/// function of key, IV and data alone.
#[verifier::external_body]
fn aes_cbc_decrypt(key: &Vec<u8>, iv: &Vec<u8>, data: &Vec<u8>) -> (r: Vec<u8>)
    requires
        key@.len() == 32,
        iv@.len() == 16,
        data@.len() % 16 == 0,
    ensures
        r@ == aes256_cbc_decrypt(key@, iv@, data@),
        r@.len() == data@.len(),
{
    let key_arr: [u8; 32] = key.as_slice().try_into().unwrap();
    let iv_arr: [u8; 16] = iv.as_slice().try_into().unwrap();
    let mut buf = data.clone();
    let cipher = cbc::Decryptor::<aes::Aes256>::new(&key_arr.into(), &iv_arr.into());
    cipher.decrypt_padded_mut::<aes::cipher::block_padding::NoPadding>(&mut buf).unwrap();
    buf
}

/// Relies on rand::thread_rng: sixteen bytes drawn from the thread-local
/// generator. Nothing is promised of their values.
#[verifier::external_body]
fn random_iv() -> (r: Vec<u8>)
    ensures
        r@.len() == 16,
{
    let iv: [u8; 16] = rand::thread_rng().gen();
    iv.to_vec()
}

/// Relies on String::from_utf8: it accepts exactly valid UTF-8 and decodes
/// it; anything else is refused with that crate's message.
#[verifier::external_body]
fn bytes_to_string(b: Vec<u8>) -> (r: Result<String, String>)
    ensures
        r is Ok <==> valid_utf8(b@),
        r matches Ok(s) ==> s@ == decode_utf8(b@),
{
    String::from_utf8(b).map_err(|e| e.to_string())
}

/// The scheme's fixed password bytes.
pub open spec fn spec_password() -> Seq<u8> {
    encode_utf8("ccem-env-manager-secret"@)
}

/// The scheme's fixed salt bytes.
pub open spec fn spec_salt() -> Seq<u8> {
    encode_utf8("salt"@)
}

/// The scheme's one encryption key.
pub open spec fn spec_key() -> Seq<u8> {
    scrypt_key(spec_password(), spec_salt())
}

/// Derives the scheme's key.
fn derive_key() -> (r: Vec<u8>)
    ensures
        r@ == spec_key(),
        r@.len() == 32,
{
    let password = "ccem-env-manager-secret".as_bytes_vec();
    let salt = "salt".as_bytes_vec();
    derive_key_bytes(&password, &salt)
}

/// How many padding bytes PKCS#7 adds: one block is completed, and a full
/// input gets a whole extra block.
pub open spec fn pad_len(n: nat) -> nat {
    (16 - n % 16) as nat
}

/// PKCS#7 padding: the pad length, written in each added byte.
pub open spec fn pkcs7_pad(b: Seq<u8>) -> Seq<u8> {
    b + Seq::new(pad_len(b.len()), |i: int| pad_len(b.len()) as u8)
}

/// Removing PKCS#7 padding as the storage scheme does: the last byte names
/// the pad length; an impossible length leaves the data untouched.
pub open spec fn pkcs7_unpad(b: Seq<u8>) -> Seq<u8> {
    if b.len() == 0 {
        b
    } else {
        let p = b.last() as int;
        if 1 <= p <= 16 && p <= b.len() {
            b.subrange(0, b.len() - p)
        } else {
            b
        }
    }
}

/// Appends PKCS#7 padding in place.
fn pkcs7_pad_vec(data: &mut Vec<u8>)
    ensures
        final(data)@ == pkcs7_pad(old(data)@),
        final(data)@.len() % 16 == 0,
{
    let rem = data.len() % 16;
    let padlen: usize = 16 - rem;
    let padbyte: u8 = padlen as u8;
    let ghost orig = old(data)@;
    let mut i: usize = 0;
    while i < padlen
        invariant
            padlen == pad_len(orig.len()),
            padbyte == pad_len(orig.len()) as u8,
            i <= padlen,
            data@ == orig + Seq::new(i as nat, |k: int| padbyte),
        decreases padlen - i,
    {
        data.push(padbyte);
        proof {
            assert(orig + Seq::new(i as nat, |k: int| padbyte).push(padbyte) =~= orig + Seq::new(
                (i + 1) as nat,
                |k: int| padbyte,
            ));
        }
        i += 1;
    }
    proof {
        assert(data@ =~= pkcs7_pad(orig));
    }
}

/// Strips PKCS#7 padding in place, leniently: an impossible final byte leaves
/// the data untouched.
fn pkcs7_unpad_vec(data: &mut Vec<u8>)
    ensures
        final(data)@ == pkcs7_unpad(old(data)@),
{
    let n = data.len();
    if n == 0 {
        return ;
    }
    let p: usize = data[n - 1] as usize;
    if 1 <= p && p <= 16 && p <= n {
        data.truncate(n - p);
    }
}

/// The stored form an encryption with this IV produces.
pub open spec fn spec_encrypt_with(plaintext: Seq<char>, iv: Seq<u8>) -> Seq<char> {
    "enc:"@ + spec_hex_encode(iv) + ":"@ + spec_hex_encode(
        aes256_cbc_encrypt(spec_key(), iv, pkcs7_pad(encode_utf8(plaintext))),
    )
}

/// Whether a stored string is a possible encryption of this plaintext.
/// Encryption draws a fresh random IV, so its output is pinned only up to
/// the choice of IV.
pub open spec fn is_encryption_of(out: Seq<char>, plaintext: Seq<char>) -> bool {
    exists|iv: Seq<u8>| iv.len() == 16 && out == spec_encrypt_with(plaintext, iv)
}

/// Encrypts the plaintext under the scheme's key with the given IV.
pub fn encrypt_with_iv(plaintext: &str, iv: &Vec<u8>) -> (r: String)
    requires
        iv@.len() == 16,
    ensures
        r@ == spec_encrypt_with(plaintext@, iv@),
{
    let key = derive_key();
    let mut buf = plaintext.as_bytes_vec();
    pkcs7_pad_vec(&mut buf);
    let ct = aes_cbc_encrypt(&key, iv, &buf);
    let mut out = String::from_str("enc:");
    out.append(hex_encode(iv).as_str());
    out.append(":");
    out.append(hex_encode(&ct).as_str());
    proof {
        assert(out@ =~= spec_encrypt_with(plaintext@, iv@));
    }
    out
}

/// Encrypts a secret for storage under a fresh random IV, as
/// `enc:<iv hex>:<ciphertext hex>`; an empty secret is stored as itself.
pub fn encrypt(plaintext: &str) -> (r: String)
    ensures
        plaintext@.len() == 0 ==> r@ == plaintext@,
        plaintext@.len() > 0 ==> is_encryption_of(r@, plaintext@),
{
    if plaintext.is_empty() {
        return plaintext.to_owned();
    }
    let iv = random_iv();
    let r = encrypt_with_iv(plaintext, &iv);
    proof {
        assert(is_encryption_of(r@, plaintext@)) by {
            assert(iv@.len() == 16 && r@ == spec_encrypt_with(plaintext@, iv@));
        }
    }
    r
}

/// How many colons a string holds.
pub open spec fn count_colons(s: Seq<char>) -> nat
    decreases s.len(),
{
    if s.len() == 0 {
        0
    } else {
        count_colons(s.drop_last()) + if s.last() == ':' {
            1nat
        } else {
            0nat
        }
    }
}

/// Index of the first colon, or -1 when there is none.
pub open spec fn first_colon_at(s: Seq<char>) -> int
    decreases s.len(),
{
    if s.len() == 0 {
        -1
    } else if s[0] == ':' {
        0
    } else {
        let r = first_colon_at(s.drop_first());
        if r < 0 {
            -1
        } else {
            r + 1
        }
    }
}

/// A string in the stored encrypted form: the `enc:` prefix and exactly one
/// more colon, separating the IV field from the ciphertext field. Anything
/// else is not an encrypted value and is handed back as it is.
pub open spec fn spec_is_encrypted_form(s: Seq<char>) -> bool {
    s.len() >= 4 && s.subrange(0, 4) == "enc:"@ && count_colons(s.skip(4)) == 1
}

/// The IV field of a stored encrypted value.
pub open spec fn spec_iv_part(s: Seq<char>) -> Seq<char> {
    s.skip(4).take(first_colon_at(s.skip(4)))
}

/// The ciphertext field of a stored encrypted value.
pub open spec fn spec_ct_part(s: Seq<char>) -> Seq<char> {
    s.skip(4).skip(first_colon_at(s.skip(4)) + 1)
}

/// The plaintext bytes a well-formed stored value decrypts to.
pub open spec fn spec_plain_bytes(s: Seq<char>) -> Seq<u8> {
    pkcs7_unpad(
        aes256_cbc_decrypt(
            spec_key(),
            spec_hex_decode(spec_iv_part(s)),
            spec_hex_decode(spec_ct_part(s)),
        ),
    )
}

/// When decryption of a stored string fails: only a string in the encrypted
/// form can fail, with a malformed IV or ciphertext field, a wrong IV
/// length, a ciphertext that is not whole blocks, or a decryption result
/// that is not UTF-8.
pub open spec fn spec_decrypt_fails(s: Seq<char>) -> bool {
    spec_is_encrypted_form(s) && {
        ||| !valid_hex(spec_iv_part(s))
        ||| !valid_hex(spec_ct_part(s))
        ||| spec_hex_decode(spec_iv_part(s)).len() != 16
        ||| spec_hex_decode(spec_ct_part(s)).len() % 16 != 0
        ||| !valid_utf8(spec_plain_bytes(s))
    }
}

/// What a successful decryption returns: a string not in the encrypted form
/// is handed back as it is; otherwise the decrypted, unpadded plaintext.
pub open spec fn spec_decrypt_ok(s: Seq<char>) -> Seq<char> {
    if spec_is_encrypted_form(s) {
        decode_utf8(spec_plain_bytes(s))
    } else {
        s
    }
}

/// `first_colon_at` finds exactly the first colon.
proof fn lemma_first_colon_at(s: Seq<char>)
    ensures
        (forall|i: int| 0 <= i < s.len() ==> s[i] != ':') ==> first_colon_at(s) == -1,
        (exists|i: int| 0 <= i < s.len() && s[i] == ':') ==> {
            let k = first_colon_at(s);
            &&& 0 <= k < s.len()
            &&& s[k] == ':'
            &&& forall|j: int| 0 <= j < k ==> s[j] != ':'
        },
    decreases s.len(),
{
    if s.len() > 0 && s[0] != ':' {
        let rest = s.drop_first();
        lemma_first_colon_at(rest);
        assert(forall|i: int| 0 <= i < rest.len() ==> rest[i] == s[i + 1]);
        if exists|i: int| 0 <= i < s.len() && s[i] == ':' {
            let i = choose|i: int| 0 <= i < s.len() && s[i] == ':';
            assert(rest[i - 1] == ':');
            let kr = first_colon_at(rest);
            let k = first_colon_at(s);
            assert(k == kr + 1);
            assert forall|j: int| 0 <= j < k implies s[j] != ':' by {
                if j > 0 {
                    assert(rest[j - 1] == s[j]);
                }
            }
        }
    }
}

/// Stripping the padding recovers exactly what was padded.
pub proof fn lemma_pkcs7_roundtrip(b: Seq<u8>)
    ensures
        pkcs7_unpad(pkcs7_pad(b)) == b,
{
    let padded = pkcs7_pad(b);
    let p = pad_len(b.len());
    assert(1 <= p <= 16);
    assert(padded.len() == b.len() + p);
    assert(padded.last() == p as u8);
    assert(padded.subrange(0, padded.len() - p as int) =~= b);
}

/// Padding always fills out whole blocks.
pub proof fn lemma_pad_whole_blocks(b: Seq<u8>)
    ensures
        pkcs7_pad(b).len() % 16 == 0,
{
    let n = b.len() as int;
    assert((n + (16 - n % 16)) % 16 == 0) by (nonlinear_arith);
}

/// The hex writing of a byte string is valid hex of twice its length.
proof fn lemma_hex_encode_valid(b: Seq<u8>)
    ensures
        valid_hex(spec_hex_encode(b)),
        spec_hex_encode(b).len() == 2 * b.len(),
    decreases b.len(),
{
    if b.len() > 0 {
        lemma_hex_encode_valid(b.drop_last());
        let e = spec_hex_encode(b);
        let w = spec_hex_encode(b.drop_last());
        assert(is_hex_digit(hex_digit_char(b.last() as int / 16)));
        assert(is_hex_digit(hex_digit_char(b.last() as int % 16)));
        assert(forall|i: int|
            0 <= i < e.len() ==> is_hex_digit(#[trigger] e[i])) by {
            assert(forall|i: int| 0 <= i < w.len() ==> is_hex_digit(#[trigger] w[i]));
            assert(e[e.len() - 2] == hex_digit_char(b.last() as int / 16));
            assert(e[e.len() - 1] == hex_digit_char(b.last() as int % 16));
            assert(forall|i: int| 0 <= i < w.len() ==> e[i] == w[i]);
        }
    }
}

/// Reading the hex writing back gives the bytes that were written.
proof fn lemma_hex_roundtrip(b: Seq<u8>)
    ensures
        spec_hex_decode(spec_hex_encode(b)) == b,
    decreases b.len(),
{
    if b.len() == 0 {
        assert(spec_hex_decode(spec_hex_encode(b)) =~= b);
    } else {
        lemma_hex_roundtrip(b.drop_last());
        lemma_hex_encode_valid(b.drop_last());
        let e = spec_hex_encode(b);
        let w = spec_hex_encode(b.drop_last());
        assert(e.len() == w.len() + 2);
        assert(e.drop_last().drop_last() =~= w);
        let hi = b.last() as int / 16;
        let lo = b.last() as int % 16;
        assert(hex_val(hex_digit_char(hi)) == hi);
        assert(hex_val(hex_digit_char(lo)) == lo);
        assert(e[e.len() - 2] == hex_digit_char(hi));
        assert(e.last() == hex_digit_char(lo));
        assert((hi * 16 + lo) as u8 == b.last()) by {
            assert(b.last() as int == 16 * (b.last() as int / 16) + b.last() as int % 16);
        }
        assert(spec_hex_decode(e) =~= b);
    }
}

/// A string of hex digits holds no colon.
proof fn lemma_hex_has_no_colon(s: Seq<char>)
    requires
        valid_hex(s),
    ensures
        forall|i: int| 0 <= i < s.len() ==> s[i] != ':',
{
}

/// A colon-free string counts zero colons.
proof fn lemma_count_colons_zero(s: Seq<char>)
    requires
        forall|i: int| 0 <= i < s.len() ==> s[i] != ':',
    ensures
        count_colons(s) == 0,
    decreases s.len(),
{
    if s.len() > 0 {
        assert(forall|i: int| 0 <= i < s.drop_last().len() ==> s.drop_last()[i] == s[i]);
        lemma_count_colons_zero(s.drop_last());
    }
}

/// Colons are counted piece by piece.
proof fn lemma_count_colons_concat(a: Seq<char>, b: Seq<char>)
    ensures
        count_colons(a + b) == count_colons(a) + count_colons(b),
    decreases b.len(),
{
    if b.len() == 0 {
        assert(a + b =~= a);
    } else {
        lemma_count_colons_concat(a, b.drop_last());
        assert((a + b).drop_last() =~= a + b.drop_last());
        assert((a + b).last() == b.last());
    }
}

/// The first colon after a colon-free prefix stands right where the prefix
/// ends.
proof fn lemma_first_colon_after_prefix(a: Seq<char>, rest: Seq<char>)
    requires
        forall|i: int| 0 <= i < a.len() ==> a[i] != ':',
        rest.len() > 0,
        rest[0] == ':',
    ensures
        first_colon_at(a + rest) == a.len(),
    decreases a.len(),
{
    let s = a + rest;
    if a.len() == 0 {
        assert(s[0] == ':');
    } else {
        assert(s[0] == a[0]);
        lemma_first_colon_after_prefix(a.drop_first(), rest);
        assert(s.drop_first() =~= a.drop_first() + rest);
    }
}

/// Law: decryption inverts encryption. The hypotheses are exactly what the
/// encrypting wrapper promises of the block cipher — that decryption with
/// the same key and IV inverts it, keeping the length. Under them, a value
/// written by `spec_encrypt_with` never fails to decrypt, and decrypts to
/// the plaintext it was made from.
pub proof fn lemma_decrypt_inverts_encrypt(plaintext: Seq<char>, iv: Seq<u8>)
    requires
        iv.len() == 16,
        aes256_cbc_decrypt(
            spec_key(),
            iv,
            aes256_cbc_encrypt(spec_key(), iv, pkcs7_pad(encode_utf8(plaintext))),
        ) == pkcs7_pad(encode_utf8(plaintext)),
        aes256_cbc_encrypt(spec_key(), iv, pkcs7_pad(encode_utf8(plaintext))).len() == pkcs7_pad(
            encode_utf8(plaintext),
        ).len(),
    ensures
        spec_is_encrypted_form(spec_encrypt_with(plaintext, iv)),
        !spec_decrypt_fails(spec_encrypt_with(plaintext, iv)),
        spec_decrypt_ok(spec_encrypt_with(plaintext, iv)) == plaintext,
{
    reveal_strlit("enc:");
    reveal_strlit(":");
    let padded = pkcs7_pad(encode_utf8(plaintext));
    let ct = aes256_cbc_encrypt(spec_key(), iv, padded);
    let h1 = spec_hex_encode(iv);
    let h2 = spec_hex_encode(ct);
    let s = spec_encrypt_with(plaintext, iv);
    lemma_hex_encode_valid(iv);
    lemma_hex_encode_valid(ct);
    lemma_hex_has_no_colon(h1);
    lemma_hex_has_no_colon(h2);

    // the stored string splits into its three fields
    assert(s.len() >= 4);
    assert(s.subrange(0, 4) =~= "enc:"@);
    let tail = s.skip(4);
    assert(tail =~= h1 + (":"@ + h2));
    assert(count_colons(tail) == 1) by {
        lemma_count_colons_concat(h1, ":"@ + h2);
        lemma_count_colons_concat(":"@, h2);
        lemma_count_colons_zero(h1);
        lemma_count_colons_zero(h2);
        assert(count_colons(":"@) == 1) by {
            let one = ":"@;
            assert(one.len() == 1 && one.last() == ':');
            assert(one.drop_last() =~= Seq::<char>::empty());
            assert(count_colons(Seq::<char>::empty()) == 0);
            assert(count_colons(one.drop_last()) == 0);
        }
    }
    assert(spec_is_encrypted_form(s));
    assert(first_colon_at(tail) == h1.len()) by {
        assert((":"@ + h2)[0] == ':');
        lemma_first_colon_after_prefix(h1, ":"@ + h2);
    }
    assert(spec_iv_part(s) =~= h1);
    assert(spec_ct_part(s) =~= h2);

    // both fields read back as the bytes they were written from
    lemma_hex_roundtrip(iv);
    lemma_hex_roundtrip(ct);
    assert(spec_hex_decode(spec_iv_part(s)) == iv);
    assert(spec_hex_decode(spec_ct_part(s)) == ct);
    lemma_pad_whole_blocks(encode_utf8(plaintext));

    // the cipher inverts, the padding strips, and the bytes decode
    lemma_pkcs7_roundtrip(encode_utf8(plaintext));
    assert(spec_plain_bytes(s) == encode_utf8(plaintext));
    vstd::utf8::encode_utf8_valid_utf8(plaintext);
    vstd::utf8::encode_utf8_decode_utf8(plaintext);
}

/// One string opening with another.
pub open spec fn spec_starts_with(s: Seq<char>, prefix: Seq<char>) -> bool {
    s.len() >= prefix.len() && s.subrange(0, prefix.len() as int) == prefix
}

/// Reads a stored secret back. A string not in the encrypted form — no
/// `enc:` prefix, or not exactly three colon-separated fields — is handed
/// back unchanged. A string in that form is hex-decoded, block-decrypted and
/// unpadded; a malformed field, a wrong IV length, a partial block or a
/// non-UTF-8 result is an error naming what was wrong, checked in that
/// order.
pub fn decrypt(ciphertext: &str) -> (r: Result<String, String>)
    ensures
        r is Err <==> spec_decrypt_fails(ciphertext@),
        r matches Ok(p) ==> p@ == spec_decrypt_ok(ciphertext@),
        r matches Err(m) ==> ({
            let s = ciphertext@;
            let iv_hex = spec_iv_part(s);
            let ct_hex = spec_ct_part(s);
            &&& (!valid_hex(iv_hex) ==> spec_starts_with(m@, "Invalid IV: "@))
            &&& (valid_hex(iv_hex) && !valid_hex(ct_hex) ==> spec_starts_with(
                m@,
                "Invalid ciphertext: "@,
            ))
            &&& (valid_hex(iv_hex) && valid_hex(ct_hex) && spec_hex_decode(iv_hex).len() != 16
                ==> m@ == "Invalid IV length"@)
            &&& (valid_hex(iv_hex) && valid_hex(ct_hex) && spec_hex_decode(iv_hex).len() == 16
                && spec_hex_decode(ct_hex).len() % 16 != 0 ==> m@
                == "Decryption failed: partial block"@)
            &&& (valid_hex(iv_hex) && valid_hex(ct_hex) && spec_hex_decode(iv_hex).len() == 16
                && spec_hex_decode(ct_hex).len() % 16 == 0 ==> spec_starts_with(
                m@,
                "Invalid UTF-8: "@,
            ))
        }),
{
    let n = ciphertext.unicode_len();
    let has_prefix = n >= 4 && ciphertext.get_char(0) == 'e' && ciphertext.get_char(1) == 'n'
        && ciphertext.get_char(2) == 'c' && ciphertext.get_char(3) == ':';
    proof {
        reveal_strlit("enc:");
        if n >= 4 {
            let sub = ciphertext@.subrange(0, 4);
            assert(sub.len() == 4 && sub[0] == ciphertext@[0] && sub[1] == ciphertext@[1]
                && sub[2] == ciphertext@[2] && sub[3] == ciphertext@[3]);
            if ciphertext@[0] == 'e' && ciphertext@[1] == 'n' && ciphertext@[2] == 'c'
                && ciphertext@[3] == ':' {
                assert(sub =~= "enc:"@);
            }
        }
    }
    if !has_prefix {
        proof {
            assert(!spec_is_encrypted_form(ciphertext@));
        }
        return Ok(ciphertext.to_owned());
    }
    let tail = ciphertext.substring_char(4, n);
    proof {
        assert(tail@ =~= ciphertext@.skip(4));
    }
    let tail_len = n - 4;
    let mut colons: usize = 0;
    let mut first: usize = tail_len;
    let mut i: usize = 0;
    while i < tail_len
        invariant
            tail_len == tail@.len(),
            i <= tail_len,
            colons == count_colons(tail@.subrange(0, i as int)),
            colons <= i,
            first <= tail_len,
            colons == 0 ==> first == tail_len && (forall|j: int| 0 <= j < i ==> tail@[j] != ':'),
            colons > 0 ==> first < i && tail@[first as int] == ':' && (forall|j: int|
                0 <= j < first ==> tail@[j] != ':'),
        decreases tail_len - i,
    {
        let ghost prefix = tail@.subrange(0, i as int);
        if tail.get_char(i) == ':' {
            if colons == 0 {
                first = i;
            }
            colons = colons + 1;
        }
        proof {
            assert(tail@.subrange(0, i as int + 1).drop_last() =~= prefix);
        }
        i += 1;
    }
    proof {
        assert(tail@.subrange(0, tail_len as int) =~= tail@);
    }
    if colons != 1 {
        proof {
            assert(!spec_is_encrypted_form(ciphertext@));
        }
        return Ok(ciphertext.to_owned());
    }
    proof {
        assert(spec_is_encrypted_form(ciphertext@));
        lemma_first_colon_at(tail@);
        assert(exists|j: int| 0 <= j < tail@.len() && tail@[j] == ':') by {
            assert(tail@[first as int] == ':');
        }
        let k = first_colon_at(tail@);
        assert(!(k < first) && !(first < k));
        assert(spec_iv_part(ciphertext@) =~= tail@.subrange(0, first as int));
        assert(spec_ct_part(ciphertext@) =~= tail@.subrange(first as int + 1, tail_len as int));
    }
    let iv_hex = tail.substring_char(0, first);
    let ct_hex = tail.substring_char(first + 1, tail_len);
    let iv = match hex_decode(iv_hex) {
        Ok(v) => v,
        Err(e) => {
            let mut m = String::from_str("Invalid IV: ");
            m.append(e.as_str());
            proof {
                assert(m@.subrange(0, "Invalid IV: "@.len() as int) =~= "Invalid IV: "@);
            }
            return Err(m);
        },
    };
    let ct = match hex_decode(ct_hex) {
        Ok(v) => v,
        Err(e) => {
            let mut m = String::from_str("Invalid ciphertext: ");
            m.append(e.as_str());
            proof {
                assert(m@.subrange(0, "Invalid ciphertext: "@.len() as int)
                    =~= "Invalid ciphertext: "@);
            }
            return Err(m);
        },
    };
    if iv.len() != 16 {
        return Err(String::from_str("Invalid IV length"));
    }
    if ct.len() % 16 != 0 {
        return Err(String::from_str("Decryption failed: partial block"));
    }
    let key = derive_key();
    let mut plain = aes_cbc_decrypt(&key, &iv, &ct);
    pkcs7_unpad_vec(&mut plain);
    match bytes_to_string(plain) {
        Ok(s) => Ok(s),
        Err(e) => {
            let mut m = String::from_str("Invalid UTF-8: ");
            m.append(e.as_str());
            proof {
                assert(m@.subrange(0, "Invalid UTF-8: "@.len() as int) =~= "Invalid UTF-8: "@);
            }
            Err(m)
        },
    }
}

} // verus!
