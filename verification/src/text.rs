//! Names as text.
//!
//! A record stores its name in a fixed field of bytes that a NUL ends. The
//! index is keyed by the text those bytes spell.

use vstd::prelude::*;

verus! {

/// The text that `bytes` spell as UTF-8, with U+FFFD in place of each
/// sequence that is not valid UTF-8.
pub uninterp spec fn lossy_text(bytes: Seq<u8>) -> Seq<char>;

/// Decodes `bytes` with `String::from_utf8_lossy`.
///
/// Trusted: the contract only names the result. It claims that the text is a
/// function of the bytes alone, which is how the standard library documents
/// the conversion.
#[verifier::external_body]
pub(crate) fn text_of(bytes: &[u8]) -> (text: String)
    ensures
        text@ == lossy_text(bytes@),
{
    String::from_utf8_lossy(bytes).into_owned()
}

/// How many bytes of `field` come before its first NUL; all of them if it
/// holds none.
pub open spec fn name_len(field: Seq<u8>) -> nat
    decreases field.len(),
{
    if field.len() == 0 || field[0] == 0 {
        0
    } else {
        1 + name_len(field.drop_first())
    }
}

/// The bytes of `field` up to its first NUL.
pub open spec fn name_bytes(field: Seq<u8>) -> Seq<u8> {
    field.take(name_len(field) as int)
}

/// `name_len` is the position of the first NUL: no byte before it is NUL, and
/// it is either the end of the field or the place of a NUL.
pub proof fn lemma_name_len(field: Seq<u8>)
    ensures
        name_len(field) <= field.len(),
        forall|i: int| 0 <= i < name_len(field) ==> field[i] != 0,
        name_len(field) < field.len() ==> field[name_len(field) as int] == 0,
    decreases field.len(),
{
    if field.len() > 0 && field[0] != 0 {
        let rest = field.drop_first();
        lemma_name_len(rest);
        assert forall|i: int| 0 <= i < name_len(field) implies field[i] != 0 by {
            if i > 0 {
                assert(field[i] == rest[i - 1]);
            }
        }
    }
}

/// Any position with the properties of `lemma_name_len` is `name_len`.
pub proof fn lemma_name_len_unique(field: Seq<u8>, n: int)
    requires
        0 <= n <= field.len(),
        forall|i: int| 0 <= i < n ==> field[i] != 0,
        n < field.len() ==> field[n] == 0,
    ensures
        name_len(field) == n,
{
    lemma_name_len(field);
}

/// The place of the first NUL in `field`, or its length.
pub fn find_name_len(field: &[u8]) -> (n: usize)
    ensures
        n == name_len(field@),
{
    let mut n: usize = 0;
    while n < field.len() && field[n] != 0
        invariant
            n <= field.len(),
            forall|i: int| 0 <= i < n ==> field@[i] != 0,
        decreases field.len() - n,
    {
        n += 1;
    }
    proof {
        lemma_name_len_unique(field@, n as int);
    }
    n
}

/// The text of the name that `field` holds.
pub fn name_text(field: &[u8]) -> (text: String)
    ensures
        text@ == lossy_text(name_bytes(field@)),
{
    let n = find_name_len(field);
    proof {
        lemma_name_len(field@);
    }
    text_of(vstd::slice::slice_subrange(field, 0, n))
}

} // verus!
