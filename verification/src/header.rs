//! The archive header: the first 256 bytes.
//!
//! Signature (30 bytes), version (4), encryption flag (1), verification
//! field (16), then reserved bytes. Only the signature is checked.

use crate::error::Pk2Error;
use vstd::prelude::*;

verus! {

/// Bytes in the header.
pub const HEADER_LEN: usize = 256;

/// The signature of a PK2 archive: the bytes of `JoyMax File Manager!`.
pub open spec fn signature() -> Seq<u8> {
    seq![
        0x4Au8, 0x6Fu8, 0x79u8, 0x4Du8, 0x61u8, 0x78u8, 0x20u8, 0x46u8, 0x69u8, 0x6Cu8,
        0x65u8, 0x20u8, 0x4Du8, 0x61u8, 0x6Eu8, 0x61u8, 0x67u8, 0x65u8, 0x72u8, 0x21u8,
    ]
}

/// Whether `byte` is trimmed from the end of the signature field: NUL or
/// newline.
pub open spec fn is_filler(byte: u8) -> bool {
    byte == 0 || byte == 10
}

/// `field` without the filler bytes at its end.
pub open spec fn trimmed(field: Seq<u8>) -> Seq<u8>
    decreases field.len(),
{
    if field.len() > 0 && is_filler(field.last()) {
        trimmed(field.drop_last())
    } else {
        field
    }
}

/// Whether a signature field holds the signature.
pub open spec fn signature_matches(field: Seq<u8>) -> bool {
    trimmed(field) == signature()
}

/// The header of an archive.
#[derive(Debug)]
pub struct Pk2Header {
    /// The signature field as stored.
    pub name: [u8; 30],
    /// Version of the format.
    pub version: [u8; 4],
    /// Whether the directory is encrypted. Not consulted: every archive is
    /// read as encrypted.
    pub encryption: u8,
    /// Verification field. Not consulted.
    pub verify: [u8; 16],
}

/// Trimming removes filler only: what is left is a prefix, and the rest is
/// filler.
pub proof fn lemma_trimmed(field: Seq<u8>)
    ensures
        trimmed(field).len() <= field.len(),
        trimmed(field) == field.take(trimmed(field).len() as int),
        forall|i: int| trimmed(field).len() <= i < field.len() ==> is_filler(field[i]),
        trimmed(field).len() > 0 ==> !is_filler(trimmed(field).last()),
    decreases field.len(),
{
    if field.len() > 0 && is_filler(field.last()) {
        let shorter = field.drop_last();
        lemma_trimmed(shorter);
        assert forall|i: int| trimmed(shorter).len() <= i < field.len() implies is_filler(
            field[i],
        ) by {
            if i < shorter.len() {
                assert(field[i] == shorter[i]);
            }
        }
    }
}

/// Any prefix that ends in a byte that is no filler, with only filler after
/// it, is what trimming leaves.
pub proof fn lemma_trimmed_unique(field: Seq<u8>, n: int)
    requires
        0 <= n <= field.len(),
        n > 0 ==> !is_filler(field[n - 1]),
        forall|i: int| n <= i < field.len() ==> is_filler(field[i]),
    ensures
        trimmed(field) == field.take(n),
    decreases field.len(),
{
    if field.len() > n {
        lemma_trimmed_unique(field.drop_last(), n);
    }
}

/// A field holds the signature exactly when it starts with the twenty bytes
/// of the signature and every byte after them is NUL or newline.
pub proof fn lemma_signature_matches(field: Seq<u8>)
    ensures
        signature_matches(field) <==> (field.len() >= 20 && field.take(20) == signature()
            && forall|i: int| 20 <= i < field.len() ==> is_filler(field[i])),
{
    lemma_trimmed(field);
    if field.len() >= 20 && field.take(20) == signature() && forall|i: int|
        20 <= i < field.len() ==> is_filler(field[i]) {
        lemma_trimmed_unique(field, 20);
    }
}

/// The signature is the text `JoyMax File Manager!` in ASCII.
pub proof fn lemma_signature_text()
    ensures
        signature() == vstd::utf8::encode_utf8("JoyMax File Manager!"@),
{
    reveal_strlit("JoyMax File Manager!");
    vstd::utf8::is_ascii_chars_encode_utf8("JoyMax File Manager!"@);
}

/// Copies the `N` bytes at `at` into an array.
fn copy_bytes<const N: usize>(bytes: &[u8], at: usize) -> (copy: [u8; N])
    requires
        at + N <= bytes.len(),
    ensures
        copy@ == bytes@.subrange(at as int, at + N),
{
    let mut copy = [0u8;N];
    for i in 0..N
        invariant
            at + N <= bytes.len(),
            forall|j: int| 0 <= j < i ==> copy[j] == bytes@[at + j],
    {
        copy[i] = bytes[at + i];
    }
    copy
}

/// Whether the signature field `field` holds the signature.
pub fn check_signature(field: &[u8]) -> (ok: bool)
    ensures
        ok == signature_matches(field@),
{
    let expected: [u8; 20] = [
        0x4A, 0x6F, 0x79, 0x4D, 0x61, 0x78, 0x20, 0x46, 0x69, 0x6C,
        0x65, 0x20, 0x4D, 0x61, 0x6E, 0x61, 0x67, 0x65, 0x72, 0x21,
    ];
    proof {
        lemma_signature_matches(field@);
    }
    if field.len() < 20 {
        return false;
    }
    for i in 0..20
        invariant
            field.len() >= 20,
            expected@ == signature(),
            forall|j: int| 0 <= j < i ==> field@[j] == expected@[j],
    {
        if field[i] != expected[i] {
            proof {
                lemma_signature_matches(field@);
            }
            return false;
        }
    }
    let mut at: usize = 20;
    while at < field.len()
        invariant
            20 <= at <= field.len(),
            field@.take(20) == signature(),
            forall|j: int| 20 <= j < at ==> is_filler(field@[j]),
        decreases field.len() - at,
    {
        if field[at] != 0 && field[at] != 10 {
            proof {
                lemma_signature_matches(field@);
            }
            return false;
        }
        at += 1;
    }
    proof {
        lemma_signature_matches(field@);
    }
    true
}

impl Pk2Header {
    /// Decodes and checks the header at the start of `bytes`.
    ///
    /// Fails with a format error if `bytes` is shorter than 256 bytes or the
    /// signature field does not hold the signature. Bytes after the first 256
    /// are ignored.
    pub fn parse(bytes: &[u8]) -> (header: Result<Pk2Header, Pk2Error>)
        ensures
            header is Ok <==> bytes@.len() >= 256 && signature_matches(bytes@.subrange(0, 30)),
            header matches Ok(h) ==> {
                &&& h.name@ == bytes@.subrange(0, 30)
                &&& h.version@ == bytes@.subrange(30, 34)
                &&& h.encryption == bytes@[34]
                &&& h.verify@ == bytes@.subrange(35, 51)
            },
            header matches Err(e) ==> e == Pk2Error::Format,
    {
        if bytes.len() < HEADER_LEN {
            return Err(Pk2Error::Format);
        }
        let name: [u8; 30] = copy_bytes(bytes, 0);
        if !check_signature(&name) {
            return Err(Pk2Error::Format);
        }
        Ok(
            Pk2Header {
                name,
                version: copy_bytes(bytes, 30),
                encryption: bytes[34],
                verify: copy_bytes(bytes, 35),
            },
        )
    }
}

} // verus!
