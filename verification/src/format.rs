//! The wire grammar as mathematics: what a field and a row look like as
//! bytes, and how bytes are read back as fields and rows.

use vstd::prelude::*;
use vstd::utf8::{decode_utf8, encode_utf8, valid_utf8};
use crate::decimal::parse_in_range;
use crate::utils::{NULL_BYTE, ROW_TERM_BYTE, VALUE_TERM_BYTE};

verus! {

/// The bytes of one field: the null marker or the payload, then the value terminator.
pub open spec fn field_bytes(field: Option<Seq<u8>>) -> Seq<u8> {
    match field {
        None => seq![NULL_BYTE, VALUE_TERM_BYTE],
        Some(payload) => payload.push(VALUE_TERM_BYTE),
    }
}

/// The bytes of a run of fields, in order.
pub open spec fn fields_bytes(fields: Seq<Option<Seq<u8>>>) -> Seq<u8>
    decreases fields.len(),
{
    if fields.len() == 0 {
        Seq::empty()
    } else {
        fields_bytes(fields.drop_last()) + field_bytes(fields.last())
    }
}

/// The bytes of one row: its fields, then the row terminator.
pub open spec fn row_bytes(fields: Seq<Option<Seq<u8>>>) -> Seq<u8> {
    fields_bytes(fields).push(ROW_TERM_BYTE)
}

/// The fields that are written for a row of texts: each text as its UTF-8 bytes.
pub open spec fn text_fields(row: Seq<Seq<char>>) -> Seq<Option<Seq<u8>>> {
    Seq::new(row.len(), |i: int| Some(encode_utf8(row[i])))
}

/// The bytes of a stream of rows of texts: the rows one after the other.
pub open spec fn stream_bytes(rows: Seq<Seq<Seq<char>>>) -> Seq<u8>
    decreases rows.len(),
{
    if rows.len() == 0 {
        Seq::empty()
    } else {
        row_bytes(text_fields(rows[0])) + stream_bytes(rows.drop_first())
    }
}

/// The position of the first `byte` in `buf`, or `buf.len()` where there is none.
pub open spec fn find(buf: Seq<u8>, byte: u8) -> int
    decreases buf.len(),
{
    if buf.len() == 0 || buf[0] == byte {
        0
    } else {
        1 + find(buf.drop_first(), byte)
    }
}

/// `find` is characterised by what it skips and where it stops.
pub proof fn lemma_find(buf: Seq<u8>, byte: u8, i: int)
    requires
        0 <= i <= buf.len(),
        forall|j: int| 0 <= j < i ==> buf[j] != byte,
        i < buf.len() ==> buf[i] == byte,
    ensures
        find(buf, byte) == i,
    decreases buf.len(),
{
    if i > 0 {
        let tail = buf.drop_first();
        assert forall|j: int| 0 <= j < i - 1 implies tail[j] != byte by {
            assert(tail[j] == buf[j + 1]);
        }
        lemma_find(tail, byte, i - 1);
    }
}

/// `find` stops inside the buffer or at its end, at a `byte` where inside.
pub proof fn lemma_find_bounds(buf: Seq<u8>, byte: u8)
    ensures
        0 <= find(buf, byte) <= buf.len(),
        find(buf, byte) < buf.len() ==> buf[find(buf, byte)] == byte,
        forall|j: int| 0 <= j < find(buf, byte) ==> buf[j] != byte,
    decreases buf.len(),
{
    if buf.len() > 0 && buf[0] != byte {
        let tail = buf.drop_first();
        lemma_find_bounds(tail, byte);
        assert forall|j: int| 0 <= j < find(buf, byte) implies buf[j] != byte by {
            if j > 0 {
                assert(buf[j] == tail[j - 1]);
            }
        }
    }
}

/// A field framed at the start of a buffer: its payload (`None` for the null
/// field) and the number of bytes it takes up, terminator included.
pub struct Framed {
    pub payload: Option<Seq<u8>>,
    pub len: int,
}

/// The field that starts `buf`, or `None` where the framing is malformed: the
/// buffer is empty, a null marker is not followed at once by the value
/// terminator, or no value terminator is left.
pub open spec fn parse_field(buf: Seq<u8>) -> Option<Framed> {
    if buf.len() == 0 {
        None
    } else if buf[0] == NULL_BYTE {
        if buf.len() >= 2 && buf[1] == VALUE_TERM_BYTE {
            Some(Framed { payload: None, len: 2 })
        } else {
            None
        }
    } else {
        let end = find(buf, VALUE_TERM_BYTE);
        if end < buf.len() {
            Some(Framed { payload: Some(buf.take(end)), len: end + 1 })
        } else {
            None
        }
    }
}

/// How far reading one field moves a cursor over `buf`: past the field where
/// one is framed, and not at all where the framing is malformed.
pub open spec fn field_len(buf: Seq<u8>) -> int {
    match parse_field(buf) {
        Some(framed) => framed.len,
        None => 0,
    }
}

/// The field that starts `buf`, read as optional text: `Some(None)` for the
/// null field, `Some(Some(text))` for a payload that is valid UTF-8, and
/// `None` where the framing is malformed or the payload is not UTF-8.
pub open spec fn parse_text(buf: Seq<u8>) -> Option<Option<Seq<char>>> {
    match parse_field(buf) {
        None => None,
        Some(framed) => match framed.payload {
            None => Some(None),
            Some(payload) => if valid_utf8(payload) {
                Some(Some(decode_utf8(payload)))
            } else {
                None
            },
        },
    }
}

/// A framed field takes up at least one byte and no more than the buffer holds.
pub proof fn lemma_field_len_bounds(buf: Seq<u8>)
    ensures
        0 <= field_len(buf) <= buf.len(),
        parse_field(buf) is Some ==> field_len(buf) >= 1,
{
    lemma_find_bounds(buf, VALUE_TERM_BYTE);
}

/// The payload of the field that starts `buf`, where one is framed there and
/// it is not the null field.
pub open spec fn parse_payload(buf: Seq<u8>) -> Option<Seq<u8>> {
    match parse_field(buf) {
        Some(framed) => framed.payload,
        None => None,
    }
}

/// The text of the field that starts `buf`, where its payload is valid UTF-8.
pub open spec fn parse_str(buf: Seq<u8>) -> Option<Seq<char>> {
    match parse_payload(buf) {
        Some(payload) => if valid_utf8(payload) {
            Some(decode_utf8(payload))
        } else {
            None
        },
        None => None,
    }
}

/// The text that is written for a boolean: `true` or `false`.
pub open spec fn bool_text(v: bool) -> Seq<u8> {
    if v {
        seq![0x74u8, 0x72u8, 0x75u8, 0x65u8]
    } else {
        seq![0x66u8, 0x61u8, 0x6Cu8, 0x73u8, 0x65u8]
    }
}

/// The boolean that a text is read as; only the two texts of `bool_text` are one.
pub open spec fn read_bool(text: Seq<u8>) -> Option<bool> {
    if text == bool_text(true) {
        Some(true)
    } else if text == bool_text(false) {
        Some(false)
    } else {
        None
    }
}

/// The boolean held by the field that starts `buf`.
pub open spec fn parse_bool(buf: Seq<u8>) -> Option<bool> {
    match parse_payload(buf) {
        Some(payload) => read_bool(payload),
        None => None,
    }
}

/// The number held by the field that starts `buf`, read as an integer type
/// with the values `lo..=hi`.
pub open spec fn parse_number(buf: Seq<u8>, lo: int, hi: int) -> Option<int> {
    match parse_payload(buf) {
        Some(payload) => parse_in_range(payload, lo, hi),
        None => None,
    }
}

/// The character held by the field that starts `buf`: the one character of
/// its text. An empty text holds none, and neither does a longer one.
pub open spec fn parse_char(buf: Seq<u8>) -> Option<char> {
    match parse_payload(buf) {
        Some(payload) => if valid_utf8(payload) && decode_utf8(payload).len() == 1 {
            Some(decode_utf8(payload)[0])
        } else {
            None
        },
        None => None,
    }
}

/// Whether a cursor over `buf` sits on the row terminator, so that the row
/// has no further field.
pub open spec fn at_row_end(buf: Seq<u8>) -> bool {
    buf.len() > 0 && buf[0] == ROW_TERM_BYTE
}

/// The fields from the start of `buf` up to the row terminator, each read as
/// text. `None` where one of them is malformed, null or not UTF-8, or where
/// the buffer ends before a row terminator.
pub open spec fn parse_strings(buf: Seq<u8>) -> Option<Seq<Seq<char>>>
    decreases buf.len(),
{
    let n = field_len(buf);
    if at_row_end(buf) {
        Some(Seq::empty())
    } else if 0 < n <= buf.len() {
        match (parse_str(buf), parse_strings(buf.skip(n))) {
            (Some(first), Some(rest)) => Some(seq![first] + rest),
            _ => None,
        }
    } else {
        None
    }
}

/// How far reading the fields of a row as text moves a cursor over `buf`: up
/// to the row terminator where all are read, and otherwise as far as the
/// field that fails moves it.
pub open spec fn strings_len(buf: Seq<u8>) -> int
    decreases buf.len(),
{
    let n = field_len(buf);
    if at_row_end(buf) {
        0
    } else if 0 < n <= buf.len() && parse_str(buf) is Some {
        n + strings_len(buf.skip(n))
    } else {
        n
    }
}

/// The fields from the start of `buf` up to the row terminator, each read as
/// optional text, `None` for a null field. `None` as a whole where one of them
/// is malformed or not UTF-8, or where the buffer ends before a row terminator.
pub open spec fn parse_fields(buf: Seq<u8>) -> Option<Seq<Option<Seq<char>>>>
    decreases buf.len(),
{
    let n = field_len(buf);
    if at_row_end(buf) {
        Some(Seq::empty())
    } else if 0 < n <= buf.len() {
        match (parse_text(buf), parse_fields(buf.skip(n))) {
            (Some(first), Some(rest)) => Some(seq![first] + rest),
            _ => None,
        }
    } else {
        None
    }
}

/// How far reading the fields of a row as optional text moves a cursor over
/// `buf`: up to the row terminator where all are read, and otherwise as far
/// as the field that fails moves it.
pub open spec fn fields_len(buf: Seq<u8>) -> int
    decreases buf.len(),
{
    let n = field_len(buf);
    if at_row_end(buf) {
        0
    } else if 0 < n <= buf.len() && parse_text(buf) is Some {
        n + fields_len(buf.skip(n))
    } else {
        n
    }
}

/// The optional texts that a vector of optional strings holds, in order.
pub open spec fn optional_texts(strings: Seq<Option<String>>) -> Seq<Option<Seq<char>>> {
    Seq::new(
        strings.len(),
        |i: int|
            match strings[i] {
                Some(s) => Some(s@),
                None => None,
            },
    )
}

/// The fields that are written for a row of optional texts: the null field
/// for an absent one, and the UTF-8 bytes of one that is present.
pub open spec fn optional_text_fields(row: Seq<Option<Seq<char>>>) -> Seq<Option<Seq<u8>>> {
    Seq::new(
        row.len(),
        |i: int|
            match row[i] {
                Some(text) => Some(encode_utf8(text)),
                None => None,
            },
    )
}

/// The texts that a vector of strings holds, in order.
pub open spec fn texts(strings: Seq<String>) -> Seq<Seq<char>> {
    Seq::new(strings.len(), |i: int| strings[i]@)
}

} // verus!
