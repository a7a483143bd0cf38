//! UTF-8 as the framing needs it: the check that bytes are text, and the
//! facts that plain ASCII is UTF-8 and that no byte of a UTF-8 text is one of
//! the three reserved bytes.

use vstd::prelude::*;
use vstd::string::StringSliceAdditionalSpecFns;
use vstd::utf8::{length_of_first_scalar, pop_first_scalar, valid_first_scalar, valid_utf8};
use crate::utils::{NULL_BYTE, ROW_TERM_BYTE, VALUE_TERM_BYTE};

verus! {

/// The error of `core::str::from_utf8`, carried as a value that is not looked into.
#[verifier::external_type_specification]
#[verifier::external_body]
pub struct ExUtf8Error(core::str::Utf8Error);

/// `core::str::from_utf8`, taken on trust: it succeeds on exactly the byte
/// strings that are well-formed UTF-8, and the string slice that it returns
/// has those bytes.
pub assume_specification<'a>[ core::str::from_utf8 ](v: &'a [u8]) -> (r: Result<
    &'a str,
    core::str::Utf8Error,
>)
    ensures
        r is Ok <==> valid_utf8(v@),
        r matches Ok(s) ==> s.spec_bytes() == v@,
;

/// Whether every byte of `bytes` is below `0x80`.
pub open spec fn is_ascii_bytes(bytes: Seq<u8>) -> bool {
    forall|i: int| 0 <= i < bytes.len() ==> #[trigger] bytes[i] < 0x80
}

/// Whether `bytes` holds none of the three reserved bytes.
pub open spec fn has_no_reserved_byte(bytes: Seq<u8>) -> bool {
    forall|i: int|
        0 <= i < bytes.len() ==> {
            let b = #[trigger] bytes[i];
            b != NULL_BYTE && b != ROW_TERM_BYTE && b != VALUE_TERM_BYTE
        }
}

/// Bytes below `0x80` alone are well-formed UTF-8.
pub proof fn lemma_ascii_is_utf8(bytes: Seq<u8>)
    requires
        is_ascii_bytes(bytes),
    ensures
        valid_utf8(bytes),
    decreases bytes.len(),
{
    if bytes.len() > 0 {
        let b = bytes[0];
        assert(b < 0x80);
        assert(b & 0x7F <= 0x7F) by (bit_vector);
        let rest = pop_first_scalar(bytes);
        assert forall|i: int| 0 <= i < rest.len() implies #[trigger] rest[i] < 0x80 by {
            assert(rest[i] == bytes[i + 1]);
        }
        lemma_ascii_is_utf8(rest);
    }
}

/// Every byte of well-formed UTF-8 is at most `0xF7`.
pub proof fn lemma_utf8_byte_bound(bytes: Seq<u8>, i: int)
    requires
        valid_utf8(bytes),
        0 <= i < bytes.len(),
    ensures
        bytes[i] <= 0xF7,
    decreases bytes.len(),
{
    let width = length_of_first_scalar(bytes);
    assert(valid_first_scalar(bytes));
    if i >= width {
        let rest = pop_first_scalar(bytes);
        assert(rest[i - width] == bytes[i]);
        lemma_utf8_byte_bound(rest, i - width);
    }
}

/// Well-formed UTF-8 holds none of the three reserved bytes, so text can be
/// framed by them without escaping.
pub proof fn lemma_utf8_has_no_reserved_byte(bytes: Seq<u8>)
    requires
        valid_utf8(bytes),
    ensures
        has_no_reserved_byte(bytes),
{
    assert forall|i: int| 0 <= i < bytes.len() implies {
        let b = #[trigger] bytes[i];
        b != NULL_BYTE && b != ROW_TERM_BYTE && b != VALUE_TERM_BYTE
    } by {
        lemma_utf8_byte_bound(bytes, i);
    }
}

} // verus!
