//! The encoder: one method for each kind of value, each of which writes the
//! value as a field of the row that the writer is in the middle of, or
//! refuses a kind that rows cannot hold.

use vstd::prelude::*;
use vstd::string::StringSliceAdditionalSpecFns;
use crate::decimal::{decimal, signed_text, unsigned_text};
use crate::error::Error;
use crate::format::{bool_text, field_bytes};
use crate::writer::Writer;

verus! {

/// The byte that is written for a character: the low eight bits of its code.
pub open spec fn char_byte(v: char) -> u8 {
    ((v as u32) % 256) as u8
}

impl Writer {
    /// Writes `v` as a field: `true` or `false`.
    pub fn serialize_bool(&mut self, v: bool) -> (r: Result<(), Error>)
        ensures
            r is Ok,
            final(self)@ == old(self)@ + field_bytes(Some(bool_text(v))),
    {
        let text: Vec<u8> = if v {
            vec![0x74u8, 0x72u8, 0x75u8, 0x65u8]
        } else {
            vec![0x66u8, 0x61u8, 0x6Cu8, 0x73u8, 0x65u8]
        };
        assert(text@ =~= bool_text(v));
        self.write_value(text.as_slice())
    }

    /// Writes `v` as a field, in decimal.
    pub fn serialize_i8(&mut self, v: i8) -> (r: Result<(), Error>)
        ensures
            r is Ok,
            final(self)@ == old(self)@ + field_bytes(Some(decimal(v as int))),
    {
        let text = signed_text(v as i64);
        self.write_value(text.as_slice())
    }

    /// Writes `v` as a field, in decimal.
    pub fn serialize_i16(&mut self, v: i16) -> (r: Result<(), Error>)
        ensures
            r is Ok,
            final(self)@ == old(self)@ + field_bytes(Some(decimal(v as int))),
    {
        let text = signed_text(v as i64);
        self.write_value(text.as_slice())
    }

    /// Writes `v` as a field, in decimal.
    pub fn serialize_i32(&mut self, v: i32) -> (r: Result<(), Error>)
        ensures
            r is Ok,
            final(self)@ == old(self)@ + field_bytes(Some(decimal(v as int))),
    {
        let text = signed_text(v as i64);
        self.write_value(text.as_slice())
    }

    /// Writes `v` as a field, in decimal.
    pub fn serialize_i64(&mut self, v: i64) -> (r: Result<(), Error>)
        ensures
            r is Ok,
            final(self)@ == old(self)@ + field_bytes(Some(decimal(v as int))),
    {
        let text = signed_text(v as i64);
        self.write_value(text.as_slice())
    }

    /// Writes `v` as a field, in decimal.
    pub fn serialize_u8(&mut self, v: u8) -> (r: Result<(), Error>)
        ensures
            r is Ok,
            final(self)@ == old(self)@ + field_bytes(Some(decimal(v as int))),
    {
        let text = unsigned_text(v as u64);
        self.write_value(text.as_slice())
    }

    /// Writes `v` as a field, in decimal.
    pub fn serialize_u16(&mut self, v: u16) -> (r: Result<(), Error>)
        ensures
            r is Ok,
            final(self)@ == old(self)@ + field_bytes(Some(decimal(v as int))),
    {
        let text = unsigned_text(v as u64);
        self.write_value(text.as_slice())
    }

    /// Writes `v` as a field, in decimal.
    pub fn serialize_u32(&mut self, v: u32) -> (r: Result<(), Error>)
        ensures
            r is Ok,
            final(self)@ == old(self)@ + field_bytes(Some(decimal(v as int))),
    {
        let text = unsigned_text(v as u64);
        self.write_value(text.as_slice())
    }

    /// Writes `v` as a field, in decimal.
    pub fn serialize_u64(&mut self, v: u64) -> (r: Result<(), Error>)
        ensures
            r is Ok,
            final(self)@ == old(self)@ + field_bytes(Some(decimal(v as int))),
    {
        let text = unsigned_text(v as u64);
        self.write_value(text.as_slice())
    }

    /// Writes `v` as a field of one byte, the low eight bits of its code. Only
    /// a character below `0x80` is written as its own UTF-8 text.
    pub fn serialize_char(&mut self, v: char) -> (r: Result<(), Error>)
        ensures
            r is Ok,
            final(self)@ == old(self)@ + field_bytes(Some(seq![char_byte(v)])),
    {
        let code = v as u32;
        assert(code & 0xff == code % 256) by (bit_vector);
        let text: Vec<u8> = vec![(code & 0xff) as u8];
        assert(text@ =~= seq![char_byte(v)]);
        self.write_value(text.as_slice())
    }

    /// Writes the UTF-8 bytes of `v` as a field.
    pub fn serialize_str(&mut self, v: &str) -> (r: Result<(), Error>)
        ensures
            r is Ok,
            final(self)@ == old(self)@ + field_bytes(Some(v.spec_bytes())),
    {
        self.write_value(v.as_bytes())
    }

    /// Writes `v` as a field, byte for byte.
    pub fn serialize_bytes(&mut self, v: &[u8]) -> (r: Result<(), Error>)
        ensures
            r is Ok,
            final(self)@ == old(self)@ + field_bytes(Some(v@)),
    {
        self.write_value(v)
    }

    /// Writes an absent optional value: the null field.
    pub fn serialize_none(&mut self) -> (r: Result<(), Error>)
        ensures
            r is Ok,
            final(self)@ == old(self)@ + field_bytes(None),
    {
        self.write_null()
    }

    /// Announces an optional value that is present. Nothing marks it on the
    /// wire: the value itself is written next.
    pub fn serialize_some(&mut self) -> (r: Result<(), Error>)
        ensures
            r is Ok,
            final(self)@ == old(self)@,
    {
        Ok(())
    }

    /// Writes a struct without fields as a field that holds its name.
    pub fn serialize_unit_struct(&mut self, name: &str) -> (r: Result<(), Error>)
        ensures
            r is Ok,
            final(self)@ == old(self)@ + field_bytes(Some(name.spec_bytes())),
    {
        self.write_value(name.as_bytes())
    }

    /// Announces a sequence. Nothing marks it on the wire: its elements follow
    /// as fields of the same row, in order.
    pub fn serialize_seq(&mut self, len: Option<usize>) -> (r: Result<(), Error>)
        ensures
            r is Ok,
            final(self)@ == old(self)@,
    {
        Ok(())
    }

    /// Announces a tuple. Nothing marks it on the wire: its elements follow
    /// as fields of the same row, in order.
    pub fn serialize_tuple(&mut self, len: usize) -> (r: Result<(), Error>)
        ensures
            r is Ok,
            final(self)@ == old(self)@,
    {
        Ok(())
    }

    /// Announces a tuple struct. Nothing marks it on the wire: its elements follow
    /// as fields of the same row, in order.
    pub fn serialize_tuple_struct(&mut self, name: &str, len: usize) -> (r: Result<(), Error>)
        ensures
            r is Ok,
            final(self)@ == old(self)@,
    {
        Ok(())
    }

    /// Announces a struct. Nothing marks it on the wire: its elements follow
    /// as fields of the same row, in order.
    pub fn serialize_struct(&mut self, name: &str, len: usize) -> (r: Result<(), Error>)
        ensures
            r is Ok,
            final(self)@ == old(self)@,
    {
        Ok(())
    }

    /// Ends a sequence, tuple or struct. Nothing marks the end on the wire.
    pub fn end(&mut self) -> (r: Result<(), Error>)
        ensures
            r is Ok,
            final(self)@ == old(self)@,
    {
        Ok(())
    }

    /// A 128-bit integer has no place in a row: this is an encode error, and nothing is written.
    pub fn serialize_i128(&mut self, v: i128) -> (r: Result<(), Error>)
        ensures
            r matches Err(e) && e.0 is Serialize,
            final(self)@ == old(self)@,
    {
        Err(Error::serialize("i128 is not supported"))
    }

    /// A 128-bit integer has no place in a row: this is an encode error, and nothing is written.
    pub fn serialize_u128(&mut self, v: u128) -> (r: Result<(), Error>)
        ensures
            r matches Err(e) && e.0 is Serialize,
            final(self)@ == old(self)@,
    {
        Err(Error::serialize("u128 is not supported"))
    }

    /// The unit value has no place in a row: this is an encode error, and nothing is written.
    pub fn serialize_unit(&mut self) -> (r: Result<(), Error>)
        ensures
            r matches Err(e) && e.0 is Serialize,
            final(self)@ == old(self)@,
    {
        Err(Error::serialize("unit is not supported"))
    }

    /// An enum variant without fields has no place in a row: this is an encode error, and nothing is written.
    pub fn serialize_unit_variant(&mut self, name: &str, variant_index: u32, variant: &str) -> (r: Result<(), Error>)
        ensures
            r matches Err(e) && e.0 is Serialize,
            final(self)@ == old(self)@,
    {
        Err(Error::serialize("unit variant is not supported"))
    }

    /// A newtype struct has no place in a row: this is an encode error, and nothing is written.
    pub fn serialize_newtype_struct(&mut self, name: &str) -> (r: Result<(), Error>)
        ensures
            r matches Err(e) && e.0 is Serialize,
            final(self)@ == old(self)@,
    {
        Err(Error::serialize("newtype struct is not supported"))
    }

    /// A newtype variant of an enum has no place in a row: this is an encode error, and nothing is written.
    pub fn serialize_newtype_variant(&mut self, name: &str, variant_index: u32, variant: &str) -> (r: Result<(), Error>)
        ensures
            r matches Err(e) && e.0 is Serialize,
            final(self)@ == old(self)@,
    {
        Err(Error::serialize("newtype variant is not supported"))
    }

    /// A tuple variant of an enum has no place in a row: this is an encode error, and nothing is written.
    pub fn serialize_tuple_variant(&mut self, name: &str, variant_index: u32, variant: &str, len: usize) -> (r: Result<(), Error>)
        ensures
            r matches Err(e) && e.0 is Serialize,
            final(self)@ == old(self)@,
    {
        Err(Error::serialize("tuple variant is not supported"))
    }

    /// A map has no place in a row: this is an encode error, and nothing is written.
    pub fn serialize_map(&mut self, len: Option<usize>) -> (r: Result<(), Error>)
        ensures
            r matches Err(e) && e.0 is Serialize,
            final(self)@ == old(self)@,
    {
        Err(Error::serialize("map is not supported"))
    }

    /// A struct variant of an enum has no place in a row: this is an encode error, and nothing is written.
    pub fn serialize_struct_variant(&mut self, name: &str, variant_index: u32, variant: &str, len: usize) -> (r: Result<(), Error>)
        ensures
            r matches Err(e) && e.0 is Serialize,
            final(self)@ == old(self)@,
    {
        Err(Error::serialize("struct variant is not supported"))
    }
}

} // verus!
