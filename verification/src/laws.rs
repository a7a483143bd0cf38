//! What holds of the codec as a whole: values that are written read back as
//! themselves, sources split into the rows that were written, and rows that
//! are cut short are refused.

use vstd::prelude::*;
use vstd::utf8::{encode_utf8, encode_utf8_decode_utf8, encode_utf8_valid_utf8};
use crate::decimal::{decimal, lemma_decimal_round_trip, lemma_digits_of, lemma_number_text_is_ascii};
use crate::format::{
    at_row_end, bool_text, field_bytes, field_len, fields_bytes, lemma_find, lemma_find_bounds,
    optional_text_fields, parse_bool, parse_char, parse_field, parse_fields, parse_number,
    parse_str,
    parse_strings, parse_text, row_bytes,
    stream_bytes, strings_len, text_fields, Framed,
};
use crate::reader::{lemma_row_len_bounds, raw_rows, row_len};
use crate::serializer::char_byte;
use crate::text::lemma_utf8_has_no_reserved_byte;
use crate::utils::{NULL_BYTE, ROW_TERM_BYTE, VALUE_TERM_BYTE};

verus! {

/// A field with a payload reads back as that payload, whatever follows it,
/// provided the payload holds no value terminator and does not start with the
/// null marker.
pub proof fn lemma_field_round_trip(payload: Seq<u8>, rest: Seq<u8>)
    requires
        forall|i: int| 0 <= i < payload.len() ==> payload[i] != VALUE_TERM_BYTE,
        payload.len() > 0 ==> payload[0] != NULL_BYTE,
    ensures
        parse_field(field_bytes(Some(payload)) + rest) == Some(
            Framed { payload: Some(payload), len: payload.len() as int + 1 },
        ),
{
    let buf = field_bytes(Some(payload)) + rest;
    let n = payload.len() as int;
    assert(buf[n] == VALUE_TERM_BYTE);
    assert forall|j: int| 0 <= j < n implies buf[j] != VALUE_TERM_BYTE by {
        assert(buf[j] == payload[j]);
    }
    lemma_find(buf, VALUE_TERM_BYTE, n);
    assert(buf.take(n) =~= payload);
    if n > 0 {
        assert(buf[0] == payload[0]);
    }
}

/// The null field reads back as the null field, whatever follows it.
pub proof fn lemma_null_round_trip(rest: Seq<u8>)
    ensures
        parse_field(field_bytes(None) + rest) == Some(Framed { payload: None, len: 2 }),
{
    let buf = field_bytes(None) + rest;
    assert(buf[0] == NULL_BYTE);
    assert(buf[1] == VALUE_TERM_BYTE);
}

/// A boolean that is written reads back as itself.
pub proof fn law_bool_round_trip(v: bool, rest: Seq<u8>)
    ensures
        parse_bool(field_bytes(Some(bool_text(v))) + rest) == Some(v),
        field_len(field_bytes(Some(bool_text(v))) + rest) == bool_text(v).len() + 1,
{
    lemma_field_round_trip(bool_text(v), rest);
    assert(bool_text(true)[0] != bool_text(false)[0]);
}

/// A number of an integer type with the values `lo..=hi` that is written in
/// decimal reads back as itself. This holds of every integer width, signed
/// and unsigned.
pub proof fn law_number_round_trip(v: int, lo: int, hi: int, rest: Seq<u8>)
    requires
        lo <= 0 <= hi,
        lo <= v <= hi,
    ensures
        parse_number(field_bytes(Some(decimal(v))) + rest, lo, hi) == Some(v),
        field_len(field_bytes(Some(decimal(v))) + rest) == decimal(v).len() + 1,
{
    let text = decimal(v);
    lemma_decimal_round_trip(v, lo < 0);
    lemma_number_text_is_ascii(text, lo < 0);
    if v < 0 {
        lemma_digits_of((-v) as nat);
    } else {
        lemma_digits_of(v as nat);
    }
    lemma_field_round_trip(text, rest);
}

/// A text that is written as its UTF-8 bytes reads back as itself: UTF-8
/// holds none of the reserved bytes, so the framing finds its end.
pub proof fn law_str_round_trip(text: Seq<char>, rest: Seq<u8>)
    ensures
        parse_str(field_bytes(Some(encode_utf8(text))) + rest) == Some(text),
        field_len(field_bytes(Some(encode_utf8(text))) + rest) == encode_utf8(text).len() + 1,
{
    let payload = encode_utf8(text);
    encode_utf8_valid_utf8(text);
    encode_utf8_decode_utf8(text);
    lemma_utf8_has_no_reserved_byte(payload);
    lemma_field_round_trip(payload, rest);
}

/// A character below `0x80` that is written reads back as itself. Of the
/// others only the low byte is written, which is not their text.
pub proof fn law_ascii_char_round_trip(v: char, rest: Seq<u8>)
    requires
        (v as u32) < 0x80,
    ensures
        parse_char(field_bytes(Some(seq![char_byte(v)])) + rest) == Some(v),
        field_len(field_bytes(Some(seq![char_byte(v)])) + rest) == 2,
{
    let text = seq![v];
    let payload = seq![char_byte(v)];
    let code = v as u32;
    assert(code & 0x7F == code) by (bit_vector)
        requires
            code < 0x80,
    ;
    assert(text.drop_first() =~= Seq::<char>::empty());
    assert(encode_utf8(text.drop_first()) =~= Seq::<u8>::empty());
    assert(encode_utf8(text) =~= payload);
    law_str_round_trip(text, rest);
}

/// The field that is written for an optional text: the null field for an
/// absent one, its UTF-8 bytes for one that is present.
pub open spec fn optional_text_bytes(text: Option<Seq<char>>) -> Seq<u8> {
    match text {
        Some(t) => field_bytes(Some(encode_utf8(t))),
        None => field_bytes(None),
    }
}

/// An optional text that is written reads back as itself. An absent one reads
/// back as absent, and the empty text as the empty text, which is not absent.
pub proof fn law_optional_text_round_trip(text: Option<Seq<char>>, rest: Seq<u8>)
    ensures
        parse_text(optional_text_bytes(text) + rest) == Some(text),
        parse_text(optional_text_bytes(None) + rest) == Some(None::<Seq<char>>),
        parse_text(optional_text_bytes(Some(Seq::empty())) + rest) == Some(
            Some(Seq::<char>::empty()),
        ),
{
    lemma_null_round_trip(rest);
    law_str_round_trip(Seq::empty(), rest);
    if let Some(t) = text {
        law_str_round_trip(t, rest);
    }
}

/// A source without bytes has no rows.
pub proof fn law_empty_source_has_no_rows()
    ensures
        raw_rows(Seq::<u8>::empty()) == Seq::<Seq<u8>>::empty(),
{
    lemma_row_len_bounds(Seq::<u8>::empty());
}

/// A source of row terminators alone.
pub open spec fn bare_terminators(k: nat) -> Seq<u8> {
    Seq::new(k, |i: int| ROW_TERM_BYTE)
}

/// A source of `k` row terminators and nothing else has `k` rows, and each
/// decodes as a sequence without elements.
pub proof fn law_bare_terminators(k: nat)
    ensures
        raw_rows(bare_terminators(k)).len() == k,
        forall|i: int|
            0 <= i < k ==> parse_strings(#[trigger] raw_rows(bare_terminators(k))[i]) == Some(
                Seq::<Seq<char>>::empty(),
            ),
    decreases k,
{
    let src = bare_terminators(k);
    if k == 0 {
        lemma_row_len_bounds(src);
    } else {
        lemma_find(src, ROW_TERM_BYTE, 0);
        assert(src.skip(1) =~= bare_terminators((k - 1) as nat));
        law_bare_terminators((k - 1) as nat);
        let first = src.take(1);
        let tail = raw_rows(bare_terminators((k - 1) as nat));
        assert(raw_rows(src) == seq![first] + tail);
        assert(at_row_end(first));
        assert forall|i: int| 0 <= i < k implies parse_strings(#[trigger] raw_rows(src)[i])
            == Some(Seq::<Seq<char>>::empty()) by {
            if i > 0 {
                assert(raw_rows(src)[i] == tail[i - 1]);
            }
        }
    }
}

/// Where the fields of a row read as text, the cursor ends on a row
/// terminator, and what stands before it, if anything, is a value terminator.
pub proof fn lemma_strings_end(buf: Seq<u8>)
    requires
        parse_strings(buf) is Some,
    ensures
        0 <= strings_len(buf) < buf.len(),
        buf[strings_len(buf)] == ROW_TERM_BYTE,
        strings_len(buf) > 0 ==> buf[strings_len(buf) - 1] == VALUE_TERM_BYTE,
    decreases buf.len(),
{
    if !at_row_end(buf) {
        let n = field_len(buf);
        let rest = buf.skip(n);
        lemma_find_bounds(buf, VALUE_TERM_BYTE);
        lemma_strings_end(rest);
        let m = strings_len(rest);
        assert(rest[m] == buf[n + m]);
        if m > 0 {
            assert(rest[m - 1] == buf[n + m - 1]);
        }
    }
}

/// A row whose last field lacks its value terminator does not decode: where
/// the byte before the row terminator is not a value terminator, reading the
/// row as a sequence of text is a decode error.
pub proof fn law_unterminated_field(body: Seq<u8>)
    requires
        body.len() > 0,
        body.last() != VALUE_TERM_BYTE,
        forall|i: int| 0 <= i < body.len() ==> body[i] != ROW_TERM_BYTE,
    ensures
        parse_strings(body.push(ROW_TERM_BYTE)) is None,
{
    let row = body.push(ROW_TERM_BYTE);
    if parse_strings(row) is Some {
        lemma_strings_end(row);
        let n = strings_len(row);
        if n < body.len() {
            assert(row[n] == body[n]);
        } else {
            assert(row[n - 1] == body.last());
        }
    }
}

/// The bytes of a run of fields are those of its first field, then those of the others.
pub proof fn lemma_fields_bytes_front(first: Option<Seq<u8>>, others: Seq<Option<Seq<u8>>>)
    ensures
        fields_bytes(seq![first] + others) == field_bytes(first) + fields_bytes(others),
    decreases others.len(),
{
    let all = seq![first] + others;
    if others.len() == 0 {
        assert(all.drop_last() =~= Seq::<Option<Seq<u8>>>::empty());
        assert(fields_bytes(all.drop_last()) =~= Seq::<u8>::empty());
        assert(fields_bytes(all) =~= field_bytes(first) + fields_bytes(others));
    } else {
        assert(all.drop_last() =~= seq![first] + others.drop_last());
        lemma_fields_bytes_front(first, others.drop_last());
        assert(fields_bytes(all) =~= field_bytes(first) + fields_bytes(others));
    }
}

/// The fields of a row of texts hold no row terminator.
pub proof fn lemma_text_fields_hold_no_row_terminator(row: Seq<Seq<char>>)
    ensures
        forall|i: int|
            0 <= i < fields_bytes(text_fields(row)).len() ==> fields_bytes(text_fields(row))[i]
                != ROW_TERM_BYTE,
    decreases row.len(),
{
    if row.len() > 0 {
        let fields = text_fields(row);
        let front = row.drop_last();
        assert(fields.drop_last() =~= text_fields(front));
        lemma_text_fields_hold_no_row_terminator(front);
        let payload = encode_utf8(row.last());
        encode_utf8_valid_utf8(row.last());
        lemma_utf8_has_no_reserved_byte(payload);
        let head = fields_bytes(text_fields(front));
        let bytes = fields_bytes(fields);
        assert(bytes == head + payload.push(VALUE_TERM_BYTE));
        assert forall|i: int| 0 <= i < bytes.len() implies bytes[i] != ROW_TERM_BYTE by {
            if i < head.len() {
                assert(bytes[i] == head[i]);
            } else if i < head.len() + payload.len() {
                assert(bytes[i] == payload[i - head.len()]);
            }
        }
    }
}

/// A row of texts that is written decodes as the same texts: a sequence of
/// strings goes through the wire unchanged.
pub proof fn law_row_round_trip(row: Seq<Seq<char>>)
    ensures
        parse_strings(row_bytes(text_fields(row))) == Some(row),
    decreases row.len(),
{
    let fields = text_fields(row);
    let buf = row_bytes(fields);
    if row.len() == 0 {
        assert(buf =~= seq![ROW_TERM_BYTE]);
        assert(row =~= Seq::<Seq<char>>::empty());
    } else {
        let first = row[0];
        let others = row.drop_first();
        let payload = encode_utf8(first);
        assert(fields =~= seq![Some(payload)] + text_fields(others));
        lemma_fields_bytes_front(Some(payload), text_fields(others));
        let tail = row_bytes(text_fields(others));
        assert(buf =~= field_bytes(Some(payload)) + tail);
        law_str_round_trip(first, tail);
        encode_utf8_valid_utf8(first);
        lemma_utf8_has_no_reserved_byte(payload);
        if payload.len() > 0 {
            assert(buf[0] == payload[0]);
        } else {
            assert(buf[0] == VALUE_TERM_BYTE);
        }
        assert(buf.skip(payload.len() as int + 1) =~= tail);
        law_row_round_trip(others);
        assert(seq![first] + others =~= row);
    }
}

/// A row of optional texts that is written decodes as the same optional
/// texts: absent ones stay absent, and present ones keep their text.
pub proof fn law_fields_round_trip(row: Seq<Option<Seq<char>>>)
    ensures
        parse_fields(row_bytes(optional_text_fields(row))) == Some(row),
    decreases row.len(),
{
    let fields = optional_text_fields(row);
    let buf = row_bytes(fields);
    if row.len() == 0 {
        assert(buf =~= seq![ROW_TERM_BYTE]);
        assert(row =~= Seq::<Option<Seq<char>>>::empty());
    } else {
        let first = row[0];
        let others = row.drop_first();
        let field = fields[0];
        assert(fields =~= seq![field] + optional_text_fields(others));
        lemma_fields_bytes_front(field, optional_text_fields(others));
        let tail = row_bytes(optional_text_fields(others));
        assert(buf =~= field_bytes(field) + tail);
        assert(field_bytes(field) == optional_text_bytes(first));
        law_optional_text_round_trip(first, tail);
        match first {
            Some(text) => {
                law_str_round_trip(text, tail);
                let payload = encode_utf8(text);
                encode_utf8_valid_utf8(text);
                lemma_utf8_has_no_reserved_byte(payload);
                if payload.len() > 0 {
                    assert(buf[0] == payload[0]);
                } else {
                    assert(buf[0] == VALUE_TERM_BYTE);
                }
            },
            None => {
                lemma_null_round_trip(tail);
                assert(buf[0] == NULL_BYTE);
            },
        }
        assert(buf.skip(field_bytes(field).len() as int) =~= tail);
        law_fields_round_trip(others);
        assert(seq![first] + others =~= row);
    }
}

/// A row of texts that is written is read back from a source as one raw row,
/// whatever was written after it.
pub proof fn law_written_row_is_one_raw_row(row: Seq<Seq<char>>, rest: Seq<u8>)
    ensures
        row_len(row_bytes(text_fields(row)) + rest) == row_bytes(text_fields(row)).len(),
        (row_bytes(text_fields(row)) + rest).take(row_len(row_bytes(text_fields(row)) + rest))
            == row_bytes(text_fields(row)),
{
    let body = fields_bytes(text_fields(row));
    let written = row_bytes(text_fields(row));
    let src = written + rest;
    lemma_text_fields_hold_no_row_terminator(row);
    assert forall|j: int| 0 <= j < body.len() implies src[j] != ROW_TERM_BYTE by {
        assert(src[j] == body[j]);
    }
    assert(src[body.len() as int] == ROW_TERM_BYTE);
    lemma_find(src, ROW_TERM_BYTE, body.len() as int);
    assert(src.take(written.len() as int) =~= written);
}

/// Writing one more row to a stream appends the bytes of that row.
pub proof fn lemma_stream_bytes_push(rows: Seq<Seq<Seq<char>>>, row: Seq<Seq<char>>)
    ensures
        stream_bytes(rows.push(row)) == stream_bytes(rows) + row_bytes(text_fields(row)),
    decreases rows.len(),
{
    let all = rows.push(row);
    if rows.len() == 0 {
        assert(all.drop_first() =~= Seq::<Seq<Seq<char>>>::empty());
        assert(all[0] == row);
        assert(stream_bytes(all.drop_first()) =~= Seq::<u8>::empty());
        assert(stream_bytes(rows) =~= Seq::<u8>::empty());
        assert(stream_bytes(all) =~= stream_bytes(rows) + row_bytes(text_fields(row)));
    } else {
        assert(all.drop_first() =~= rows.drop_first().push(row));
        assert(all[0] == rows[0]);
        lemma_stream_bytes_push(rows.drop_first(), row);
        assert(stream_bytes(all) =~= stream_bytes(rows) + row_bytes(text_fields(row)));
    }
}

/// A stream of rows of texts that is written is read back as the same rows:
/// as many raw rows as were written, each of which decodes as the texts that
/// went in, in order.
pub proof fn law_stream_round_trip(rows: Seq<Seq<Seq<char>>>)
    ensures
        raw_rows(stream_bytes(rows)).len() == rows.len(),
        forall|i: int|
            0 <= i < rows.len() ==> parse_strings(#[trigger] raw_rows(stream_bytes(rows))[i])
                == Some(rows[i]),
    decreases rows.len(),
{
    let src = stream_bytes(rows);
    if rows.len() == 0 {
        lemma_row_len_bounds(src);
    } else {
        let first = row_bytes(text_fields(rows[0]));
        let others = rows.drop_first();
        let rest = stream_bytes(others);
        law_written_row_is_one_raw_row(rows[0], rest);
        law_row_round_trip(rows[0]);
        law_stream_round_trip(others);
        assert(src.skip(first.len() as int) =~= rest);
        let tail = raw_rows(rest);
        assert(raw_rows(src) == seq![first] + tail);
        assert forall|i: int| 0 <= i < rows.len() implies parse_strings(
            #[trigger] raw_rows(src)[i],
        ) == Some(rows[i]) by {
            if i > 0 {
                assert(raw_rows(src)[i] == tail[i - 1]);
                assert(rows[i] == others[i - 1]);
            }
        }
    }
}

} // verus!
