//! The one error type of the codec, with the three kinds of failure.

use vstd::prelude::*;
use vstd::string::StringExecFns;
use vstd::utf8::{decode_utf8, encode_utf8_decode_utf8};
use crate::decimal::{decimal, lemma_digits_of, is_digit, unsigned_text};
use crate::text::lemma_ascii_is_utf8;

verus! {

/// A failure of the codec; the kind says which side produced it.
#[derive(Debug)]
pub struct Error(pub ErrorKind);

/// The kinds of failure, each with a message for people.
#[derive(Debug)]
pub enum ErrorKind {
    /// A value had a shape that cannot be written as a row.
    Serialize(String),
    /// The bytes of a row are malformed, or do not read as the type asked for.
    Deserialize(String),
    /// The byte sink or source failed.
    IO(String),
}

impl Error {
    /// An encode failure with the given message.
    pub fn serialize(msg: &str) -> (e: Error)
        ensures
            e.0 matches ErrorKind::Serialize(m) && m@ == msg@,
    {
        Error(ErrorKind::Serialize(msg.to_owned()))
    }

    /// A decode failure with the given message.
    pub fn deserialize(msg: &str) -> (e: Error)
        ensures
            e.0 matches ErrorKind::Deserialize(m) && m@ == msg@,
    {
        Error(ErrorKind::Deserialize(msg.to_owned()))
    }

    /// A decode failure whose message is `msg` followed by the number `n` in decimal.
    pub fn deserialize_with(msg: &str, n: u64) -> (e: Error)
        ensures
            e.0 matches ErrorKind::Deserialize(m) && m@ == msg@ + decode_utf8(decimal(n as int)),
    {
        let digits = unsigned_text(n);
        proof {
            lemma_digits_of(n as nat);
            assert forall|i: int| 0 <= i < digits@.len() implies #[trigger] digits@[i] < 0x80 by {
                assert(is_digit(digits@[i]));
            }
            lemma_ascii_is_utf8(digits@);
        }
        let mut text = msg.to_owned();
        match core::str::from_utf8(digits.as_slice()) {
            Ok(number) => {
                proof {
                    encode_utf8_decode_utf8(number@);
                }
                text.append(number);
            },
            Err(_) => {},
        }
        Error(ErrorKind::Deserialize(text))
    }

    /// A sink or source failure with the given message.
    pub fn io(msg: &str) -> (e: Error)
        ensures
            e.0 matches ErrorKind::IO(m) && m@ == msg@,
    {
        Error(ErrorKind::IO(msg.to_owned()))
    }
}

} // verus!
