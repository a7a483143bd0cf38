//! A cursor over the bytes of one row, which hands out its fields in order.

use vstd::prelude::*;
use vstd::slice::slice_subrange;
use vstd::string::{StrSliceExecFns, StringSliceAdditionalSpecFns};
use vstd::utf8::{decode_utf8_encode_utf8, encode_utf8_decode_utf8};
use crate::decimal::{lemma_number_text_is_ascii, parse_decimal, parse_in_range};
use crate::error::{Error, ErrorKind};
use crate::format::{
    at_row_end, bool_text, field_len, fields_len, lemma_field_len_bounds, optional_texts,
    parse_fields, lemma_find, parse_bool,
    parse_char, parse_field, parse_number, parse_payload, parse_str, parse_strings, parse_text,
    strings_len, texts, Framed,
};
use crate::text::lemma_ascii_is_utf8;
use crate::utils::{NULL_BYTE, ROW_TERM_BYTE, VALUE_TERM_BYTE};

verus! {

/// Where a field reads as text, its payload is the UTF-8 encoding of that text.
proof fn lemma_text_payload(buf: Seq<u8>, text: &str)
    requires
        parse_str(buf) == Some(text@),
    ensures
        parse_payload(buf) == Some(text.spec_bytes()),
{
    decode_utf8_encode_utf8(parse_payload(buf).unwrap());
}

/// A field whose payload is not UTF-8 holds neither a boolean nor a number.
proof fn lemma_scalars_are_text(buf: Seq<u8>, lo: int, hi: int)
    requires
        parse_str(buf) is None,
    ensures
        parse_bool(buf) is None,
        parse_number(buf, lo, hi) is None,
{
    if let Some(payload) = parse_payload(buf) {
        if parse_in_range(payload, lo, hi) is Some {
            lemma_number_text_is_ascii(payload, lo < 0);
            lemma_ascii_is_utf8(payload);
        }
        lemma_ascii_is_utf8(bool_text(true));
        lemma_ascii_is_utf8(bool_text(false));
    }
}

/// The decoder's cursor: the bytes of the current row that are still unread,
/// its row terminator included.
pub struct DeRecord<'de> {
    buf: &'de [u8],
}

impl<'de> DeRecord<'de> {
    /// The bytes not yet consumed.
    pub closed spec fn view(&self) -> Seq<u8> {
        self.buf@
    }

    /// A cursor at the start of `buf`.
    pub fn from_ref(buf: &'de [u8]) -> (de: Self)
        ensures
            de@ == buf@,
    {
        DeRecord { buf }
    }

    /// The error for a null marker that the value terminator does not follow:
    /// its message names the byte that stands there, where there is one.
    fn null_marker_error(buf: &[u8]) -> (e: Error)
        ensures
            e.0 is Deserialize,
    {
        if buf.len() >= 2 {
            Error::deserialize_with("Expected TERM_BYTE after NULL_BYTE, got ", buf[1] as u64)
        } else {
            Error::deserialize("Expected TERM_BYTE after NULL_BYTE, got the end of the record")
        }
    }

    /// Reads the next field as optional text and moves past it.
    ///
    /// The null field gives `Ok(None)`, a UTF-8 payload gives its text, an
    /// empty payload the empty text. Malformed framing is an error that leaves
    /// the cursor where it was; a payload that is not UTF-8 is an error after
    /// the cursor has moved past the field.
    pub fn next_value(&mut self) -> (r: Result<Option<&'de str>, Error>)
        ensures
            final(self)@ == old(self)@.skip(field_len(old(self)@)),
            match r {
                Ok(Some(text)) => parse_text(old(self)@) == Some(Some(text@)),
                Ok(None) => parse_text(old(self)@) == Some(None::<Seq<char>>),
                Err(e) => parse_text(old(self)@) is None && e.0 is Deserialize,
            },
    {
        let buf = self.buf;
        let n = buf.len();
        if n == 0 {
            return Err(Error::deserialize("Unable to find VALUE_TERM_BYTE in record"));
        }
        if buf[0] == NULL_BYTE {
            if n >= 2 && buf[1] == VALUE_TERM_BYTE {
                self.buf = slice_subrange(buf, 2, n);
                return Ok(None);
            }
            return Err(Self::null_marker_error(buf));
        }
        let mut i: usize = 0;
        while i < n && buf[i] != VALUE_TERM_BYTE
            invariant
                i <= n,
                n == buf@.len(),
                forall|j: int| 0 <= j < i ==> buf@[j] != VALUE_TERM_BYTE,
            decreases n - i,
        {
            i += 1;
        }
        proof {
            lemma_find(buf@, VALUE_TERM_BYTE, i as int);
        }
        if i == n {
            return Err(Error::deserialize("Unable to find VALUE_TERM_BYTE in record"));
        }
        let value = slice_subrange(buf, 0, i);
        self.buf = slice_subrange(buf, i + 1, n);
        match core::str::from_utf8(value) {
            Ok(text) => {
                proof {
                    encode_utf8_decode_utf8(text@);
                }
                Ok(Some(text))
            },
            Err(e) => Err(Error(ErrorKind::Deserialize(e.to_string()))),
        }
    }

    /// Tells whether the next field is the null field, and moves past it if so.
    ///
    /// Any other field is left unread. A null marker that the value terminator
    /// does not follow at once is an error, and the cursor stays.
    pub fn next_is_null(&mut self) -> (r: Result<bool, Error>)
        ensures
            match r {
                Ok(true) => parse_field(old(self)@) == Some(Framed { payload: None, len: 2 })
                    && final(self)@ == old(self)@.skip(2),
                Ok(false) => !(old(self)@.len() > 0 && old(self)@[0] == NULL_BYTE) && final(self)@
                    == old(self)@,
                Err(e) => old(self)@.len() > 0 && old(self)@[0] == NULL_BYTE && parse_field(
                    old(self)@,
                ) is None && final(self)@ == old(self)@ && e.0 is Deserialize,
            },
    {
        let buf = self.buf;
        let n = buf.len();
        if n > 0 && buf[0] == NULL_BYTE {
            if n >= 2 && buf[1] == VALUE_TERM_BYTE {
                self.buf = slice_subrange(buf, 2, n);
                Ok(true)
            } else {
                Err(Self::null_marker_error(buf))
            }
        } else {
            Ok(false)
        }
    }

    /// Reads the next field as text and moves past it. The null field is an
    /// error too, after the cursor has moved past it.
    pub fn next_str_value(&mut self) -> (r: Result<&'de str, Error>)
        ensures
            final(self)@ == old(self)@.skip(field_len(old(self)@)),
            match r {
                Ok(text) => parse_str(old(self)@) == Some(text@),
                Err(e) => parse_str(old(self)@) is None && e.0 is Deserialize,
            },
    {
        match self.next_value() {
            Ok(Some(text)) => Ok(text),
            Ok(None) => Err(Error::deserialize("Got None but expected string")),
            Err(e) => Err(e),
        }
    }

    /// Reads the next field as a number of an integer type with the values
    /// `lo..=hi`, and moves past it.
    fn next_number(&mut self, lo: i128, hi: i128) -> (r: Result<i128, Error>)
        requires
            -0x1_0000_0000_0000_0000 <= lo <= 0 <= hi <= 0x1_0000_0000_0000_0000,
        ensures
            final(self)@ == old(self)@.skip(field_len(old(self)@)),
            match r {
                Ok(v) => parse_number(old(self)@, lo as int, hi as int) == Some(v as int),
                Err(e) => parse_number(old(self)@, lo as int, hi as int) is None
                    && e.0 is Deserialize,
            },
    {
        match self.next_str_value() {
            Ok(text) => {
                proof {
                    lemma_text_payload(old(self)@, text);
                }
                match parse_decimal(text.as_bytes(), lo, hi) {
                    Some(v) => Ok(v),
                    None => Err(Error::deserialize("Failed to deserialize integer")),
                }
            },
            Err(e) => {
                proof {
                    lemma_scalars_are_text(old(self)@, lo as int, hi as int);
                }
                Err(e)
            },
        }
    }

    /// Reads the next field as a boolean, written `true` or `false`, and moves past it.
    pub fn deserialize_bool(&mut self) -> (r: Result<bool, Error>)
        ensures
            final(self)@ == old(self)@.skip(field_len(old(self)@)),
            match r {
                Ok(v) => parse_bool(old(self)@) == Some(v),
                Err(e) => parse_bool(old(self)@) is None && e.0 is Deserialize,
            },
    {
        match self.next_str_value() {
            Ok(text) => {
                proof {
                    lemma_text_payload(old(self)@, text);
                }
                let b = text.as_bytes();
                if b.len() == 4 && b[0] == 0x74 && b[1] == 0x72 && b[2] == 0x75 && b[3] == 0x65 {
                    assert(b@ =~= bool_text(true));
                    Ok(true)
                } else if b.len() == 5 && b[0] == 0x66 && b[1] == 0x61 && b[2] == 0x6C && b[3]
                    == 0x73 && b[4] == 0x65 {
                    assert(b@ =~= bool_text(false));
                    Ok(false)
                } else {
                    Err(Error::deserialize("Failed to deserialize bool"))
                }
            },
            Err(e) => {
                proof {
                    lemma_scalars_are_text(old(self)@, 0, 0);
                }
                Err(e)
            },
        }
    }

    /// Reads the next field as an `i8` in decimal and moves past it.
    pub fn deserialize_i8(&mut self) -> (r: Result<i8, Error>)
        ensures
            final(self)@ == old(self)@.skip(field_len(old(self)@)),
            match r {
                Ok(v) => parse_number(old(self)@, i8::MIN as int, i8::MAX as int) == Some(v as int),
                Err(e) => parse_number(old(self)@, i8::MIN as int, i8::MAX as int) is None
                    && e.0 is Deserialize,
            },
    {
        match self.next_number(i8::MIN as i128, i8::MAX as i128) {
            Ok(v) => Ok(v as i8),
            Err(e) => Err(e),
        }
    }

    /// Reads the next field as an `i16` in decimal and moves past it.
    pub fn deserialize_i16(&mut self) -> (r: Result<i16, Error>)
        ensures
            final(self)@ == old(self)@.skip(field_len(old(self)@)),
            match r {
                Ok(v) => parse_number(old(self)@, i16::MIN as int, i16::MAX as int) == Some(
                    v as int,
                ),
                Err(e) => parse_number(old(self)@, i16::MIN as int, i16::MAX as int) is None
                    && e.0 is Deserialize,
            },
    {
        match self.next_number(i16::MIN as i128, i16::MAX as i128) {
            Ok(v) => Ok(v as i16),
            Err(e) => Err(e),
        }
    }

    /// Reads the next field as an `i32` in decimal and moves past it.
    pub fn deserialize_i32(&mut self) -> (r: Result<i32, Error>)
        ensures
            final(self)@ == old(self)@.skip(field_len(old(self)@)),
            match r {
                Ok(v) => parse_number(old(self)@, i32::MIN as int, i32::MAX as int) == Some(
                    v as int,
                ),
                Err(e) => parse_number(old(self)@, i32::MIN as int, i32::MAX as int) is None
                    && e.0 is Deserialize,
            },
    {
        match self.next_number(i32::MIN as i128, i32::MAX as i128) {
            Ok(v) => Ok(v as i32),
            Err(e) => Err(e),
        }
    }

    /// Reads the next field as an `i64` in decimal and moves past it.
    pub fn deserialize_i64(&mut self) -> (r: Result<i64, Error>)
        ensures
            final(self)@ == old(self)@.skip(field_len(old(self)@)),
            match r {
                Ok(v) => parse_number(old(self)@, i64::MIN as int, i64::MAX as int) == Some(
                    v as int,
                ),
                Err(e) => parse_number(old(self)@, i64::MIN as int, i64::MAX as int) is None
                    && e.0 is Deserialize,
            },
    {
        match self.next_number(i64::MIN as i128, i64::MAX as i128) {
            Ok(v) => Ok(v as i64),
            Err(e) => Err(e),
        }
    }

    /// Reads the next field as a `u8` in decimal and moves past it.
    pub fn deserialize_u8(&mut self) -> (r: Result<u8, Error>)
        ensures
            final(self)@ == old(self)@.skip(field_len(old(self)@)),
            match r {
                Ok(v) => parse_number(old(self)@, u8::MIN as int, u8::MAX as int) == Some(
                    v as int,
                ),
                Err(e) => parse_number(old(self)@, u8::MIN as int, u8::MAX as int) is None
                    && e.0 is Deserialize,
            },
    {
        match self.next_number(u8::MIN as i128, u8::MAX as i128) {
            Ok(v) => Ok(v as u8),
            Err(e) => Err(e),
        }
    }

    /// Reads the next field as a `u16` in decimal and moves past it.
    pub fn deserialize_u16(&mut self) -> (r: Result<u16, Error>)
        ensures
            final(self)@ == old(self)@.skip(field_len(old(self)@)),
            match r {
                Ok(v) => parse_number(old(self)@, u16::MIN as int, u16::MAX as int) == Some(
                    v as int,
                ),
                Err(e) => parse_number(old(self)@, u16::MIN as int, u16::MAX as int) is None
                    && e.0 is Deserialize,
            },
    {
        match self.next_number(u16::MIN as i128, u16::MAX as i128) {
            Ok(v) => Ok(v as u16),
            Err(e) => Err(e),
        }
    }

    /// Reads the next field as a `u32` in decimal and moves past it.
    pub fn deserialize_u32(&mut self) -> (r: Result<u32, Error>)
        ensures
            final(self)@ == old(self)@.skip(field_len(old(self)@)),
            match r {
                Ok(v) => parse_number(old(self)@, u32::MIN as int, u32::MAX as int) == Some(
                    v as int,
                ),
                Err(e) => parse_number(old(self)@, u32::MIN as int, u32::MAX as int) is None
                    && e.0 is Deserialize,
            },
    {
        match self.next_number(u32::MIN as i128, u32::MAX as i128) {
            Ok(v) => Ok(v as u32),
            Err(e) => Err(e),
        }
    }

    /// Reads the next field as a `u64` in decimal and moves past it.
    pub fn deserialize_u64(&mut self) -> (r: Result<u64, Error>)
        ensures
            final(self)@ == old(self)@.skip(field_len(old(self)@)),
            match r {
                Ok(v) => parse_number(old(self)@, u64::MIN as int, u64::MAX as int) == Some(
                    v as int,
                ),
                Err(e) => parse_number(old(self)@, u64::MIN as int, u64::MAX as int) is None
                    && e.0 is Deserialize,
            },
    {
        match self.next_number(u64::MIN as i128, u64::MAX as i128) {
            Ok(v) => Ok(v as u64),
            Err(e) => Err(e),
        }
    }

    /// Reads the next field as a character and moves past it. The text of the
    /// field has to be that one character: an empty text is refused, and so is
    /// a text of two characters or more, of which none is dropped in silence.
    pub fn deserialize_char(&mut self) -> (r: Result<char, Error>)
        ensures
            final(self)@ == old(self)@.skip(field_len(old(self)@)),
            match r {
                Ok(v) => parse_char(old(self)@) == Some(v),
                Err(e) => parse_char(old(self)@) is None && e.0 is Deserialize,
            },
    {
        match self.next_str_value() {
            Ok(text) => {
                let count = text.unicode_len();
                if count == 1 {
                    Ok(text.get_char(0))
                } else {
                    Err(Error::deserialize_with("Expected 1 character, got ", count as u64))
                }
            },
            Err(e) => Err(e),
        }
    }

    /// Reads the next field as text that borrows from the row, and moves past it.
    pub fn deserialize_str(&mut self) -> (r: Result<&'de str, Error>)
        ensures
            final(self)@ == old(self)@.skip(field_len(old(self)@)),
            match r {
                Ok(text) => parse_str(old(self)@) == Some(text@),
                Err(e) => parse_str(old(self)@) is None && e.0 is Deserialize,
            },
    {
        self.next_str_value()
    }

    /// Reads the next field as text of its own, and moves past it.
    pub fn deserialize_string(&mut self) -> (r: Result<String, Error>)
        ensures
            final(self)@ == old(self)@.skip(field_len(old(self)@)),
            match r {
                Ok(text) => parse_str(old(self)@) == Some(text@),
                Err(e) => parse_str(old(self)@) is None && e.0 is Deserialize,
            },
    {
        match self.next_str_value() {
            Ok(text) => Ok(text.to_owned()),
            Err(e) => Err(e),
        }
    }

    /// Whether the row has a further element: the cursor does not sit on the
    /// row terminator. At the end of a buffer that lacks its row terminator
    /// this still answers yes, and reading that element then fails.
    pub fn has_next_element(&self) -> (r: bool)
        ensures
            r == !at_row_end(self@),
    {
        !(self.buf.len() > 0 && self.buf[0] == ROW_TERM_BYTE)
    }

    /// Reads the rest of the row as a sequence of texts, one for each field up
    /// to the row terminator, which is left unread.
    ///
    /// The first field that is malformed, null or not UTF-8 ends the reading
    /// with an error, and so does a buffer that ends before a row terminator.
    pub fn deserialize_seq(&mut self) -> (r: Result<Vec<String>, Error>)
        ensures
            final(self)@ == old(self)@.skip(strings_len(old(self)@)),
            match r {
                Ok(row) => parse_strings(old(self)@) == Some(texts(row@)),
                Err(e) => parse_strings(old(self)@) is None && e.0 is Deserialize,
            },
    {
        let mut row: Vec<String> = Vec::new();
        let ghost start = self@;
        let ghost done: int = 0;
        assert(start.skip(0) =~= start);
        assert(texts(row@) =~= Seq::<Seq<char>>::empty());
        while self.has_next_element()
            invariant
                start == old(self)@,
                0 <= done <= start.len(),
                self@ == start.skip(done),
                strings_len(start) == done + strings_len(self@),
                parse_strings(start) == match parse_strings(self@) {
                    Some(rest) => Some(texts(row@) + rest),
                    None => None,
                },
            decreases self@.len(),
        {
            let ghost before = self@;
            let ghost n = field_len(before);
            proof {
                lemma_field_len_bounds(before);
                assert(start.skip(done).skip(n) =~= start.skip(done + n));
            }
            match self.deserialize_string() {
                Ok(text) => {
                    let ghost seen = texts(row@);
                    row.push(text);
                    proof {
                        done = done + n;
                        assert(texts(row@) =~= seen.push(text@));
                        if let Some(rest) = parse_strings(before.skip(n)) {
                            assert(seen + (seq![text@] + rest) =~= texts(row@) + rest);
                        }
                    }
                },
                Err(e) => {
                    return Err(e);
                },
            }
        }
        proof {
            assert(texts(row@) + Seq::<Seq<char>>::empty() =~= texts(row@));
        }
        Ok(row)
    }

    /// Reads the rest of the row as a sequence of optional texts, one for each
    /// field up to the row terminator, which is left unread. A null field gives
    /// `None` in its place.
    ///
    /// The first field that is malformed or not UTF-8 ends the reading with an
    /// error, and so does a buffer that ends before a row terminator.
    pub fn deserialize_fields(&mut self) -> (r: Result<Vec<Option<String>>, Error>)
        ensures
            final(self)@ == old(self)@.skip(fields_len(old(self)@)),
            match r {
                Ok(row) => parse_fields(old(self)@) == Some(optional_texts(row@)),
                Err(e) => parse_fields(old(self)@) is None && e.0 is Deserialize,
            },
    {
        let mut row: Vec<Option<String>> = Vec::new();
        let ghost start = self@;
        let ghost done: int = 0;
        assert(start.skip(0) =~= start);
        assert(optional_texts(row@) =~= Seq::<Option<Seq<char>>>::empty());
        while self.has_next_element()
            invariant
                start == old(self)@,
                0 <= done <= start.len(),
                self@ == start.skip(done),
                fields_len(start) == done + fields_len(self@),
                parse_fields(start) == match parse_fields(self@) {
                    Some(rest) => Some(optional_texts(row@) + rest),
                    None => None,
                },
            decreases self@.len(),
        {
            let ghost before = self@;
            let ghost n = field_len(before);
            proof {
                lemma_field_len_bounds(before);
                assert(start.skip(done).skip(n) =~= start.skip(done + n));
            }
            match self.next_value() {
                Ok(value) => {
                    let ghost seen = optional_texts(row@);
                    let field: Option<String> = match value {
                        Some(text) => Some(text.to_owned()),
                        None => None,
                    };
                    let ghost first = parse_text(before).unwrap();
                    row.push(field);
                    proof {
                        done = done + n;
                        assert(optional_texts(row@) =~= seen.push(first));
                        if let Some(rest) = parse_fields(before.skip(n)) {
                            assert(seen + (seq![first] + rest) =~= optional_texts(row@) + rest);
                        }
                    }
                },
                Err(e) => {
                    return Err(e);
                },
            }
        }
        proof {
            assert(optional_texts(row@) + Seq::<Option<Seq<char>>>::empty() =~= optional_texts(
                row@,
            ));
        }
        Ok(row)
    }

    /// A field cannot be read as borrowed bytes: this is a decode error, and the cursor stays.
    pub fn deserialize_bytes(&mut self) -> (r: Result<&'de [u8], Error>)
        ensures
            r matches Err(e) && e.0 is Deserialize,
            final(self)@ == old(self)@,
    {
        Err(Error::deserialize("bytes is not supported"))
    }

    /// A field cannot be read as a byte buffer: this is a decode error, and the cursor stays.
    pub fn deserialize_byte_buf(&mut self) -> (r: Result<Vec<u8>, Error>)
        ensures
            r matches Err(e) && e.0 is Deserialize,
            final(self)@ == old(self)@,
    {
        Err(Error::deserialize("byte buffer is not supported"))
    }

    /// A row holds no unit value: this is a decode error, and the cursor stays.
    pub fn deserialize_unit(&mut self) -> (r: Result<(), Error>)
        ensures
            r matches Err(e) && e.0 is Deserialize,
            final(self)@ == old(self)@,
    {
        Err(Error::deserialize("unit is not supported"))
    }

    /// A row holds no struct without fields: this is a decode error, and the cursor stays.
    pub fn deserialize_unit_struct(&mut self, name: &str) -> (r: Result<(), Error>)
        ensures
            r matches Err(e) && e.0 is Deserialize,
            final(self)@ == old(self)@,
    {
        Err(Error::deserialize("unit struct is not supported"))
    }

    /// A row holds no newtype struct: this is a decode error, and the cursor stays.
    pub fn deserialize_newtype_struct(&mut self, name: &str) -> (r: Result<(), Error>)
        ensures
            r matches Err(e) && e.0 is Deserialize,
            final(self)@ == old(self)@,
    {
        Err(Error::deserialize("newtype struct is not supported"))
    }

    /// A row holds no tuple struct: this is a decode error, and the cursor stays.
    pub fn deserialize_tuple_struct(&mut self, name: &str, len: usize) -> (r: Result<(), Error>)
        ensures
            r matches Err(e) && e.0 is Deserialize,
            final(self)@ == old(self)@,
    {
        Err(Error::deserialize("tuple struct is not supported"))
    }

    /// A row holds no enum: this is a decode error, and the cursor stays.
    pub fn deserialize_enum(&mut self, name: &str) -> (r: Result<(), Error>)
        ensures
            r matches Err(e) && e.0 is Deserialize,
            final(self)@ == old(self)@,
    {
        Err(Error::deserialize("enum is not supported"))
    }

    /// A row holds no identifier: this is a decode error, and the cursor stays.
    pub fn deserialize_identifier(&mut self) -> (r: Result<(), Error>)
        ensures
            r matches Err(e) && e.0 is Deserialize,
            final(self)@ == old(self)@,
    {
        Err(Error::deserialize("identifier is not supported"))
    }

    /// A field cannot be read as a 128-bit integer: this is a decode error, and the cursor stays.
    pub fn deserialize_i128(&mut self) -> (r: Result<i128, Error>)
        ensures
            r matches Err(e) && e.0 is Deserialize,
            final(self)@ == old(self)@,
    {
        Err(Error::deserialize("i128 is not supported"))
    }

    /// A field cannot be read as a 128-bit integer: this is a decode error, and the cursor stays.
    pub fn deserialize_u128(&mut self) -> (r: Result<u128, Error>)
        ensures
            r matches Err(e) && e.0 is Deserialize,
            final(self)@ == old(self)@,
    {
        Err(Error::deserialize("u128 is not supported"))
    }
}

} // verus!
