//! Encryption of snippet payloads at rest: AES-256-GCM with a fresh nonce, bound
//! to the row that the payload belongs to.
use crate::config::MasterKey;
use crate::decimal::i64_text;
use crate::text::chars_of;
use aes_gcm::aead::{Aead, AeadCore, KeyInit, OsRng, Payload};
use aes_gcm::{Aes256Gcm, Key, Nonce};
use vstd::prelude::*;
use vstd::utf8::encode_utf8;

verus! {

use crate::decimal::{decimal_int, law_decimal_int_injective};

/// The plaintext shape of a personal snippet.
#[derive(Debug, Clone)]
pub struct SnippetPayload {
    pub title: String,
    pub body: String,
    pub tags: Vec<String>,
    pub folder_path: Option<String>,
}

/// What can go wrong with a payload.
#[derive(Debug)]
pub enum CryptoError {
    Encrypt,
    Decrypt,
    /// The payload is not valid JSON, for this reason.
    Json(String),
}

impl CryptoError {
    /// What an error is told as.
    pub open spec fn told(self) -> Seq<char> {
        match self {
            CryptoError::Encrypt => "encryption failed"@,
            CryptoError::Decrypt => "decryption failed (tampered ciphertext or wrong context)"@,
            CryptoError::Json(e) => "payload not valid JSON: "@ + e@,
        }
    }

    /// The error as a line of text.
    pub fn message(&self) -> (r: String)
        ensures
            r@ == self.told(),
    {
        match self {
            CryptoError::Encrypt => "encryption failed".to_owned(),
            CryptoError::Decrypt => {
                "decryption failed (tampered ciphertext or wrong context)".to_owned()
            },
            CryptoError::Json(e) => {
                let mut m: String = "payload not valid JSON: ".to_owned();
                m.push_str(e.as_str());
                m
            },
        }
    }
}

/// What is stored of a payload.
#[derive(Debug, Clone)]
pub struct EncryptedBlob {
    pub ciphertext: Vec<u8>,
    pub nonce: Vec<u8>,
}

/// Length of a nonce in bytes.
pub const NONCE_LEN: usize = 12;

/// The most bytes that one call encrypts.
pub const PLAINTEXT_MAX: u64 = 0x10_0000_0000;

#[verifier::external_type_specification]
#[verifier::external_body]
pub struct ExAeadError(aes_gcm::Error);

/// What AES-256-GCM opens a ciphertext as; none where the tag does not match.
pub uninterp spec fn gcm_opened(
    key: Seq<u8>,
    nonce: Seq<u8>,
    ciphertext: Seq<u8>,
    aad: Seq<u8>,
) -> Option<Seq<u8>>;

/// aes-gcm's `generate_nonce`: twelve random bytes.
#[verifier::external_body]
fn fresh_nonce() -> (r: Vec<u8>)
    ensures
        r@.len() == NONCE_LEN,
{
    Aes256Gcm::generate_nonce(&mut OsRng).to_vec()
}

/// aes-gcm's `encrypt`. It fails only on more than 2^36 bytes of text or of
/// associated data; what it gives is opened, with the same key, nonce and
/// associated data, as the text.
#[verifier::external_body]
fn gcm_encrypt(key: &[u8; 32], nonce: &Vec<u8>, msg: &[u8], aad: &[u8]) -> (r: Result<
    Vec<u8>,
    aes_gcm::Error,
>)
    requires
        nonce@.len() == NONCE_LEN,
    ensures
        msg@.len() <= PLAINTEXT_MAX && aad@.len() <= PLAINTEXT_MAX ==> r is Ok,
        r matches Ok(c) ==> gcm_opened(key@, nonce@, c@, aad@) == Some(msg@),
{
    let cipher = Aes256Gcm::new(Key::<Aes256Gcm>::from_slice(key));
    cipher.encrypt(Nonce::from_slice(nonce), Payload { msg, aad })
}

/// aes-gcm's `decrypt`: the outcome is named. Another nonce length would panic.
#[verifier::external_body]
fn gcm_decrypt(key: &[u8; 32], nonce: &Vec<u8>, msg: &[u8], aad: &[u8]) -> (r: Result<
    Vec<u8>,
    aes_gcm::Error,
>)
    requires
        nonce@.len() == NONCE_LEN,
    ensures
        match r {
            Ok(p) => gcm_opened(key@, nonce@, msg@, aad@) == Some(p@),
            Err(_) => gcm_opened(key@, nonce@, msg@, aad@) is None,
        },
{
    let cipher = Aes256Gcm::new(Key::<Aes256Gcm>::from_slice(key));
    cipher.decrypt(Nonce::from_slice(nonce), Payload { msg, aad })
}

/// An id with a backslash before each bar and each backslash in it, so that a bar alone
/// ends it.
pub open spec fn barred(s: Seq<char>) -> Seq<char>
    decreases s.len(),
{
    if s.len() == 0 {
        Seq::empty()
    } else if s[0] == '|' || s[0] == '\\' {
        seq!['\\', s[0]] + barred(s.skip(1))
    } else {
        seq![s[0]] + barred(s.skip(1))
    }
}

proof fn lemma_barred_push(s: Seq<char>, c: char)
    ensures
        barred(s.push(c)) == (if c == '|' || c == '\\' {
            barred(s).push('\\').push(c)
        } else {
            barred(s).push(c)
        }),
    decreases s.len(),
{
    let t = s.push(c);
    if s.len() == 0 {
        assert(t.skip(1) =~= Seq::<char>::empty());
        assert(barred(t.skip(1)) =~= Seq::<char>::empty());
        assert(barred(t) =~= if c == '|' || c == '\\' {
            barred(s).push('\\').push(c)
        } else {
            barred(s).push(c)
        });
    } else {
        lemma_barred_push(s.skip(1), c);
        assert(t.skip(1) =~= s.skip(1).push(c));
        assert(barred(t) =~= if c == '|' || c == '\\' {
            barred(s).push('\\').push(c)
        } else {
            barred(s).push(c)
        });
    }
}

fn push_barred(out: &mut String, id: &str)
    ensures
        final(out)@ == old(out)@ + barred(id@),
{
    let v: Vec<char> = chars_of(id);
    let n: usize = v.len();
    let ghost before = out@;
    assert(barred(v@.take(0)) =~= Seq::<char>::empty());
    assert(out@ =~= before + barred(v@.take(0)));
    for i in 0..n
        invariant
            n == v@.len(),
            out@ == before + barred(v@.take(i as int)),
    {
        proof {
            lemma_barred_push(v@.take(i as int), v@[i as int]);
            assert(v@.take(i + 1) =~= v@.take(i as int).push(v@[i as int]));
        }
        let c: char = v[i];
        if c == '|' || c == '\\' {
            out.push('\\');
        }
        out.push(c);
        assert(out@ =~= before + barred(v@.take(i + 1)));
    }
    assert(v@.take(n as int) =~= v@);
}

/// The row that a payload is bound to, as text.
pub open spec fn context_text(
    snippet_id: Seq<char>,
    owner_id: Seq<char>,
    version: int,
) -> Seq<char> {
    barred(snippet_id) + seq!['|'] + barred(owner_id) + seq!['|'] + decimal_int(version)
}

/// The associated data of a payload.
pub open spec fn context_bytes(
    snippet_id: Seq<char>,
    owner_id: Seq<char>,
    version: int,
) -> Seq<u8> {
    encode_utf8(context_text(snippet_id, owner_id, version))
}

/// The associated data that binds a payload to its snippet, owner and version.
pub fn associated_data(snippet_id: &str, owner_id: &str, version: i64) -> (r: Vec<u8>)
    ensures
        r@ == context_bytes(snippet_id@, owner_id@, version as int),
{
    let mut s: String = String::new();
    push_barred(&mut s, snippet_id);
    s.push('|');
    push_barred(&mut s, owner_id);
    s.push('|');
    let v = i64_text(version);
    s.push_str(v.as_str());
    assert(s@ =~= context_text(snippet_id@, owner_id@, version as int));
    s.as_str().as_bytes_vec()
}

/// Rows that differ in snippet, owner or version have different associated data: no
/// payload passes for that of another row.
pub proof fn law_context_tells_rows_apart(
    id1: Seq<char>,
    owner1: Seq<char>,
    version1: int,
    id2: Seq<char>,
    owner2: Seq<char>,
    version2: int,
)
    requires
        context_bytes(id1, owner1, version1) == context_bytes(id2, owner2, version2),
    ensures
        id1 == id2,
        owner1 == owner2,
        version1 == version2,
{
    let a = context_text(id1, owner1, version1);
    let b = context_text(id2, owner2, version2);
    vstd::utf8::encode_utf8_decode_utf8(a);
    vstd::utf8::encode_utf8_decode_utf8(b);
    assert(a == b);
    let ra = barred(owner1) + seq!['|'] + decimal_int(version1);
    let rb = barred(owner2) + seq!['|'] + decimal_int(version2);
    assert(a =~= barred(id1) + seq!['|'] + ra);
    assert(b =~= barred(id2) + seq!['|'] + rb);
    lemma_bar_splits(id1, ra, id2, rb);
    lemma_bar_splits(owner1, decimal_int(version1), owner2, decimal_int(version2));
    law_decimal_int_injective(version1, version2);
}

/// The first bar without a backslash ends an id.
proof fn lemma_bar_splits(x1: Seq<char>, y1: Seq<char>, x2: Seq<char>, y2: Seq<char>)
    requires
        barred(x1) + seq!['|'] + y1 == barred(x2) + seq!['|'] + y2,
    ensures
        x1 == x2,
        y1 == y2,
    decreases x1.len(),
{
    let a = barred(x1) + seq!['|'] + y1;
    let b = barred(x2) + seq!['|'] + y2;
    if x1.len() == 0 || x2.len() == 0 {
        if x1.len() > 0 {
            assert(a[0] == barred(x1)[0]);
        }
        if x2.len() > 0 {
            assert(b[0] == barred(x2)[0]);
        }
        assert(x1 =~= x2);
        assert(y1 =~= a.skip(1));
        assert(y2 =~= b.skip(1));
    } else {
        let r1 = x1.skip(1);
        let r2 = x2.skip(1);
        assert(a[0] == barred(x1)[0]);
        assert(b[0] == barred(x2)[0]);
        if a[0] == '\\' {
            assert(a[1] == x1[0]);
            assert(b[1] == x2[0]);
            assert(a.skip(2) =~= barred(r1) + seq!['|'] + y1);
            assert(b.skip(2) =~= barred(r2) + seq!['|'] + y2);
        } else {
            assert(a.skip(1) =~= barred(r1) + seq!['|'] + y1);
            assert(b.skip(1) =~= barred(r2) + seq!['|'] + y2);
        }
        lemma_bar_splits(r1, y1, r2, y2);
        assert(x1 =~= seq![x1[0]] + r1);
        assert(x2 =~= seq![x2[0]] + r2);
    }
}

/// Whether this comes of encrypting a payload for its row: a blob that opens there as
/// the payload. It fails on payloads beyond `PLAINTEXT_MAX` only.
pub open spec fn seals(
    r: Result<EncryptedBlob, CryptoError>,
    key: Seq<u8>,
    plaintext: Seq<u8>,
    aad: Seq<u8>,
) -> bool {
    &&& plaintext.len() <= PLAINTEXT_MAX && aad.len() <= PLAINTEXT_MAX ==> r is Ok
    &&& match r {
        Ok(b) => b.nonce@.len() == NONCE_LEN && gcm_opened(key, b.nonce@, b.ciphertext@, aad)
            == Some(plaintext),
        Err(e) => e is Encrypt,
    }
}

/// Whether this comes of opening a blob for its row.
pub open spec fn opens(
    r: Result<Vec<u8>, CryptoError>,
    key: Seq<u8>,
    blob: EncryptedBlob,
    aad: Seq<u8>,
) -> bool {
    match r {
        Ok(p) => gcm_opened(key, blob.nonce@, blob.ciphertext@, aad) == Some(p@),
        Err(e) => e is Decrypt && gcm_opened(key, blob.nonce@, blob.ciphertext@, aad) is None,
    }
}

/// Encrypts a payload for its row, with a fresh nonce. With the same key and row
/// the blob opens as the payload.
pub fn encrypt_payload(
    key: &MasterKey,
    plaintext: &[u8],
    snippet_id: &str,
    owner_id: &str,
    version: i64,
) -> (r: Result<EncryptedBlob, CryptoError>)
    ensures
        seals(
            r,
            key.bytes(),
            plaintext@,
            context_bytes(snippet_id@, owner_id@, version as int),
        ),
{
    let nonce: Vec<u8> = fresh_nonce();
    let aad: Vec<u8> = associated_data(snippet_id, owner_id, version);
    match gcm_encrypt(key.as_bytes(), &nonce, plaintext, aad.as_slice()) {
        Ok(ciphertext) => Ok(EncryptedBlob { ciphertext, nonce }),
        Err(_) => Err(CryptoError::Encrypt),
    }
}

/// Opens a blob for its row. That a blob of another row or another key, or with a
/// changed byte, does not open is the strength of the cipher, and is not stated.
pub fn decrypt_payload(
    key: &MasterKey,
    blob: &EncryptedBlob,
    snippet_id: &str,
    owner_id: &str,
    version: i64,
) -> (r: Result<Vec<u8>, CryptoError>)
    requires
        blob.nonce@.len() == NONCE_LEN,
    ensures
        opens(r, key.bytes(), *blob, context_bytes(snippet_id@, owner_id@, version as int)),
{
    let aad: Vec<u8> = associated_data(snippet_id, owner_id, version);
    match gcm_decrypt(
        key.as_bytes(),
        &blob.nonce,
        blob.ciphertext.as_slice(),
        aad.as_slice(),
    ) {
        Ok(p) => Ok(p),
        Err(_) => Err(CryptoError::Decrypt),
    }
}

/// What was encrypted for a row comes back: with the same key and row the blob can be
/// opened, and opening it gives the payload.
pub proof fn law_sealed_payloads_open(
    blob: EncryptedBlob,
    opened: Result<Vec<u8>, CryptoError>,
    key: Seq<u8>,
    plaintext: Seq<u8>,
    snippet_id: Seq<char>,
    owner_id: Seq<char>,
    version: int,
)
    requires
        seals(Ok(blob), key, plaintext, context_bytes(snippet_id, owner_id, version)),
        opens(opened, key, blob, context_bytes(snippet_id, owner_id, version)),
    ensures
        blob.nonce@.len() == NONCE_LEN,
        opened matches Ok(p) && p@ == plaintext,
{
}

} // verus!
