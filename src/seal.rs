//! Authenticated sealing of text and integers under a 32-byte data key, and the box
//! construction that it and the session share.
use vstd::prelude::*;
use vstd::utf8::{
    decode_utf8, decode_utf8_encode_utf8, encode_utf8, encode_utf8_decode_utf8, encode_utf8_valid_utf8,
    valid_utf8,
};
use crypto_box::aead::{Aead, AeadCore};

verus! {

/// Length of a data key or a profile secret in bytes.
pub const KEY_LEN: usize = 32;

/// Length of a nonce in bytes.
pub const NONCE_LEN: usize = 24;

/// The public key that belongs to a secret key.
pub uninterp spec fn public_of(secret: Seq<u8>) -> Seq<u8>;

/// What the box construction makes of a message from `secret` to `public`.
pub uninterp spec fn boxed_of(public: Seq<u8>, secret: Seq<u8>, nonce: Seq<u8>, plain: Seq<u8>) -> Seq<u8>;

/// What opening a message to `secret` from `public` gives, if it opens.
pub uninterp spec fn unboxed_of(public: Seq<u8>, secret: Seq<u8>, nonce: Seq<u8>, cipher: Seq<u8>) -> Option<Seq<u8>>;

/// Relies on crypto_box's `SecretKey::public_key`: the 32-byte public half of a secret key.
#[verifier::external_body]
pub(crate) fn public_key(secret: &Vec<u8>) -> (r: Vec<u8>)
    requires
        secret@.len() == KEY_LEN,
    ensures
        r@ == public_of(secret@),
        r@.len() == KEY_LEN,
{
    let sk = crypto_box::SecretKey::from(<[u8; 32]>::try_from(secret.as_slice()).unwrap());
    sk.public_key().as_bytes().to_vec()
}

/// Relies on crypto_box's `SalsaBox::new(public, secret)` and its `encrypt`
/// (X25519 key agreement, then XSalsa20-Poly1305). With no associated data the encryption
/// cannot fail: it copies the message into a buffer and encrypts it in place.
#[verifier::external_body]
pub(crate) fn box_to(public: &Vec<u8>, secret: &Vec<u8>, nonce: &Vec<u8>, plain: &Vec<u8>) -> (r: Option<Vec<u8>>)
    requires
        public@.len() == KEY_LEN,
        secret@.len() == KEY_LEN,
        nonce@.len() == NONCE_LEN,
    ensures
        r is Some && r->0@ == boxed_of(public@, secret@, nonce@, plain@),
{
    let pk = crypto_box::PublicKey::from(<[u8; 32]>::try_from(public.as_slice()).unwrap());
    let sk = crypto_box::SecretKey::from(<[u8; 32]>::try_from(secret.as_slice()).unwrap());
    crypto_box::SalsaBox::new(&pk, &sk).encrypt(crypto_box::Nonce::from_slice(nonce.as_slice()), plain.as_slice()).ok()
}

/// Relies on crypto_box's `SalsaBox::new(public, secret)` and its `decrypt`: both sides of a
/// key agreement share one key, so a message that the owner of `other` boxed to
/// `public_of(secret)` opens here, from `public_of(other)`, to its plaintext.
#[verifier::external_body]
pub(crate) fn unbox_from(public: &Vec<u8>, secret: &Vec<u8>, nonce: &Vec<u8>, cipher: &Vec<u8>) -> (r: Option<Vec<u8>>)
    requires
        public@.len() == KEY_LEN,
        secret@.len() == KEY_LEN,
        nonce@.len() == NONCE_LEN,
    ensures
        match r {
            Some(p) => unboxed_of(public@, secret@, nonce@, cipher@) == Some(p@),
            None => unboxed_of(public@, secret@, nonce@, cipher@) is None,
        },
        forall|p: Seq<u8>, other: Seq<u8>|
            public@ == public_of(other) && cipher@ == #[trigger] boxed_of(public_of(secret@), other, nonce@, p)
                ==> r is Some && r->0@ == p,
{
    let pk = crypto_box::PublicKey::from(<[u8; 32]>::try_from(public.as_slice()).unwrap());
    let sk = crypto_box::SecretKey::from(<[u8; 32]>::try_from(secret.as_slice()).unwrap());
    crypto_box::SalsaBox::new(&pk, &sk).decrypt(crypto_box::Nonce::from_slice(nonce.as_slice()), cipher.as_slice()).ok()
}

/// Relies on crypto_box's `SalsaBox::generate_nonce` with the operating system's generator:
/// a nonce of 24 random bytes.
#[verifier::external_body]
pub(crate) fn fresh_nonce() -> (r: Vec<u8>)
    ensures
        r@.len() == NONCE_LEN,
{
    crypto_box::SalsaBox::generate_nonce(&mut crypto_box::aead::OsRng).to_vec()
}

/// Relies on crypto_box's `SecretKey::generate` with the operating system's generator:
/// a key of 32 random bytes.
#[verifier::external_body]
pub(crate) fn fresh_key() -> (r: Vec<u8>)
    ensures
        r@.len() == KEY_LEN,
{
    crypto_box::SecretKey::generate(&mut crypto_box::aead::OsRng).to_bytes().to_vec()
}

/// Relies on `String::from_utf8`: it succeeds exactly on valid UTF-8 and keeps the text.
#[verifier::external_body]
fn utf8_text(bytes: Vec<u8>) -> (r: Option<String>)
    ensures
        r is Some <==> valid_utf8(bytes@),
        r matches Some(s) ==> s@ == decode_utf8(bytes@),
{
    String::from_utf8(bytes).ok()
}

/// A nonce together with the ciphertext made with it.
#[derive(Clone, Debug)]
pub struct Blob {
    pub nonce: Vec<u8>,
    pub data: Vec<u8>,
}

/// `b` is `plain` sealed under `key`: boxed from `key` to its own public key.
pub open spec fn blob_holds(b: Blob, key: Seq<u8>, plain: Seq<u8>) -> bool {
    &&& b.nonce@.len() == NONCE_LEN
    &&& b.data@ == boxed_of(public_of(key), key, b.nonce@, plain)
}

/// Opening `b` under `key` gives `plain`.
pub open spec fn blob_opens(b: Blob, key: Seq<u8>, plain: Seq<u8>) -> bool {
    &&& b.nonce@.len() == NONCE_LEN
    &&& unboxed_of(public_of(key), key, b.nonce@, b.data@) == Some(plain)
}

/// Seals `plain` under `key` with a fresh nonce.
pub fn seal_bytes(key: &Vec<u8>, plain: &Vec<u8>) -> (r: Blob)
    requires
        key@.len() == KEY_LEN,
    ensures
        blob_holds(r, key@, plain@),
{
    let nonce = fresh_nonce();
    let own = public_key(key);
    let data = box_to(&own, key, &nonce, plain).unwrap();
    Blob { nonce, data }
}

/// Opens a blob under `key`; a blob sealed under `key` gives back its plaintext.
pub fn open_bytes(key: &Vec<u8>, b: &Blob) -> (r: Option<Vec<u8>>)
    requires
        key@.len() == KEY_LEN,
    ensures
        forall|p: Seq<u8>| blob_holds(*b, key@, p) ==> (r matches Some(q) && q@ == p),
        r matches Some(q) ==> blob_opens(*b, key@, q@),
{
    if b.nonce.len() != NONCE_LEN {
        return None;
    }
    let own = public_key(key);
    let r = unbox_from(&own, key, &b.nonce, &b.data);
    assert forall|p: Seq<u8>| blob_holds(*b, key@, p) implies (r matches Some(q) && q@ == p) by {
        assert(boxed_of(public_of(key@), key@, b.nonce@, p) == b.data@);
    }
    r
}

/// Seals the UTF-8 bytes of `s`.
pub fn seal_text(key: &Vec<u8>, s: &String) -> (r: Blob)
    requires
        key@.len() == KEY_LEN,
    ensures
        blob_holds(r, key@, encode_utf8(s@)),
{
    let bytes = s.as_str().as_bytes_vec();
    seal_bytes(key, &bytes)
}

/// Opens a blob made by `seal_text` under `key` back into its text.
pub fn open_text(key: &Vec<u8>, b: &Blob) -> (r: Option<String>)
    requires
        key@.len() == KEY_LEN,
    ensures
        forall|t: Seq<char>| blob_holds(*b, key@, encode_utf8(t)) ==> (r matches Some(s) && s@ == t),
        r matches Some(s) ==> blob_opens(*b, key@, encode_utf8(s@)),
{
    let opened = open_bytes(key, b);
    match opened {
        Some(bytes) => {
            let ghost bv = bytes@;
            let r = utf8_text(bytes);
            assert forall|t: Seq<char>| blob_holds(*b, key@, encode_utf8(t)) implies (r matches Some(
                s,
            ) && s@ == t) by {
                broadcast use encode_utf8_valid_utf8, encode_utf8_decode_utf8;

                assert(bv == encode_utf8(t));
            }
            proof {
                if r is Some {
                    decode_utf8_encode_utf8(bv);
                }
            }
            r
        },
        None => None,
    }
}

/// Little-endian bytes of a 32-bit integer.
pub open spec fn le_bytes(x: u32) -> Seq<u8> {
    seq![
        (x & 0xff) as u8,
        ((x >> 8u32) & 0xff) as u8,
        ((x >> 16u32) & 0xff) as u8,
        ((x >> 24u32) & 0xff) as u8,
    ]
}

/// The little-endian bytes of `x`.
pub fn to_le(x: u32) -> (r: Vec<u8>)
    ensures
        r@ == le_bytes(x),
{
    let mut v: Vec<u8> = Vec::new();
    v.push((x & 0xff) as u8);
    v.push(((x >> 8u32) & 0xff) as u8);
    v.push(((x >> 16u32) & 0xff) as u8);
    v.push(((x >> 24u32) & 0xff) as u8);
    assert(v@ =~= le_bytes(x));
    v
}

/// The integer whose little-endian bytes stand at `at`.
pub fn from_le(b: &Vec<u8>, at: usize) -> (r: u32)
    requires
        at + 4 <= b@.len(),
    ensures
        b@.subrange(at as int, at + 4) == le_bytes(r),
        forall|x: u32| b@.subrange(at as int, at + 4) == le_bytes(x) ==> r == x,
{
    let _n = b.len();
    let b0 = b[at] as u32;
    let b1 = b[at + 1] as u32;
    let b2 = b[at + 2] as u32;
    let b3 = b[at + 3] as u32;
    let r = b0 | (b1 << 8u32) | (b2 << 16u32) | (b3 << 24u32);
    assert(b0 < 256 && b1 < 256 && b2 < 256 && b3 < 256);
    assert((r & 0xff) == b0 && ((r >> 8u32) & 0xff) == b1 && ((r >> 16u32) & 0xff) == b2 && ((r
        >> 24u32) & 0xff) == b3) by (bit_vector)
        requires
            b0 < 256 && b1 < 256 && b2 < 256 && b3 < 256,
            r == b0 | (b1 << 8u32) | (b2 << 16u32) | (b3 << 24u32),
    ;
    assert(b@.subrange(at as int, at + 4) =~= le_bytes(r));
    assert forall|x: u32| b@.subrange(at as int, at + 4) == le_bytes(x) implies r == x by {
        assert(b@.subrange(at as int, at + 4)[0] == le_bytes(x)[0]);
        assert(b@.subrange(at as int, at + 4)[1] == le_bytes(x)[1]);
        assert(b@.subrange(at as int, at + 4)[2] == le_bytes(x)[2]);
        assert(b@.subrange(at as int, at + 4)[3] == le_bytes(x)[3]);
        assert(r == x) by (bit_vector)
            requires
                (r & 0xff) as u8 == (x & 0xff) as u8,
                ((r >> 8u32) & 0xff) as u8 == ((x >> 8u32) & 0xff) as u8,
                ((r >> 16u32) & 0xff) as u8 == ((x >> 16u32) & 0xff) as u8,
                ((r >> 24u32) & 0xff) as u8 == ((x >> 24u32) & 0xff) as u8,
        ;
    }
    r
}

} // verus!
