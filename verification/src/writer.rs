//! The row writer: fields and rows appended to a byte sink held in memory.

use vstd::prelude::*;
use crate::error::Error;
use crate::format::{field_bytes, fields_bytes, row_bytes, stream_bytes, text_fields, texts};
use crate::laws::lemma_stream_bytes_push;
use crate::utils::{NULL_BYTE, ROW_TERM_BYTE, VALUE_TERM_BYTE};

verus! {

/// The payloads of a list of optional byte strings, `None` for an absent one.
pub open spec fn payloads(rec: Seq<Option<&[u8]>>) -> Seq<Option<Seq<u8>>> {
    Seq::new(
        rec.len(),
        |i: int|
            match rec[i] {
                Some(value) => Some(value@),
                None => None,
            },
    )
}

/// The rows of texts that a list of vectors of strings holds, in order.
pub open spec fn rows_of(records: Seq<Vec<String>>) -> Seq<Seq<Seq<char>>> {
    Seq::new(records.len(), |i: int| texts(records[i]@))
}

/// Writes rows to a byte sink that it owns. Nothing is held back: every byte
/// is in the sink when the call that wrote it returns.
pub struct Writer {
    wtr: Vec<u8>,
}

impl Writer {
    /// The bytes in the sink.
    pub closed spec fn view(&self) -> Seq<u8> {
        self.wtr@
    }

    /// A writer that appends to `wtr`, with no buffer of its own in between.
    pub fn from_writer_unbuffered(wtr: Vec<u8>) -> (w: Self)
        ensures
            w@ == wtr@,
    {
        Writer { wtr }
    }

    /// Hands every byte written so far to the sink. The sink already holds
    /// them all, so this changes nothing and cannot fail.
    pub fn flush(&mut self) -> (r: Result<(), Error>)
        ensures
            r is Ok,
            final(self)@ == old(self)@,
    {
        Ok(())
    }

    /// The sink.
    pub fn get_ref(&self) -> (wtr: &Vec<u8>)
        ensures
            wtr@ == self@,
    {
        &self.wtr
    }

    /// Writes one field with the payload `value`.
    pub fn write_value(&mut self, value: &[u8]) -> (r: Result<(), Error>)
        ensures
            r is Ok,
            final(self)@ == old(self)@ + field_bytes(Some(value@)),
    {
        self.wtr.extend_from_slice(value);
        self.wtr.push(VALUE_TERM_BYTE);
        assert(self.wtr@ =~= old(self)@ + value@.push(VALUE_TERM_BYTE));
        Ok(())
    }

    /// Writes the null field.
    pub fn write_null(&mut self) -> (r: Result<(), Error>)
        ensures
            r is Ok,
            final(self)@ == old(self)@ + field_bytes(None),
    {
        self.wtr.push(NULL_BYTE);
        self.wtr.push(VALUE_TERM_BYTE);
        assert(self.wtr@ =~= old(self)@ + seq![NULL_BYTE, VALUE_TERM_BYTE]);
        Ok(())
    }

    /// Ends the current row.
    pub fn write_row_term(&mut self) -> (r: Result<(), Error>)
        ensures
            r is Ok,
            final(self)@ == old(self)@.push(ROW_TERM_BYTE),
    {
        self.wtr.push(ROW_TERM_BYTE);
        Ok(())
    }

    /// Writes one row: each item of `rec` as a field, in order, the null field
    /// for an absent one, and then the row terminator.
    pub fn write_record(&mut self, rec: &[Option<&[u8]>]) -> (r: Result<(), Error>)
        ensures
            r is Ok,
            final(self)@ == old(self)@ + row_bytes(payloads(rec@)),
    {
        let ghost fields = payloads(rec@);
        let mut i: usize = 0;
        assert(fields.take(0) =~= Seq::<Option<Seq<u8>>>::empty());
        while i < rec.len()
            invariant
                i <= rec.len(),
                fields == payloads(rec@),
                self@ == old(self)@ + fields_bytes(fields.take(i as int)),
            decreases rec.len() - i,
        {
            let ghost before = self@;
            match rec[i] {
                Some(value) => self.write_value(value)?,
                None => self.write_null()?,
            };
            proof {
                let upto = fields.take(i + 1);
                assert(upto.drop_last() =~= fields.take(i as int));
                assert(upto.last() == fields[i as int]);
                assert(self@ =~= old(self)@ + fields_bytes(upto));
            }
            i += 1;
        }
        assert(fields.take(i as int) =~= fields);
        self.write_row_term()?;
        assert(self@ =~= old(self)@ + row_bytes(fields));
        Ok(())
    }

    /// Writes one row from a sequence of strings: each string as a field, in
    /// order, and then the row terminator.
    pub fn serialize(&mut self, record: &[String]) -> (r: Result<(), Error>)
        ensures
            r is Ok,
            final(self)@ == old(self)@ + row_bytes(text_fields(texts(record@))),
    {
        let ghost fields = text_fields(texts(record@));
        self.serialize_seq(Some(record.len()))?;
        let mut i: usize = 0;
        assert(fields.take(0) =~= Seq::<Option<Seq<u8>>>::empty());
        while i < record.len()
            invariant
                i <= record.len(),
                fields == text_fields(texts(record@)),
                self@ == old(self)@ + fields_bytes(fields.take(i as int)),
            decreases record.len() - i,
        {
            self.serialize_str(record[i].as_str())?;
            proof {
                let upto = fields.take(i + 1);
                assert(upto.drop_last() =~= fields.take(i as int));
                assert(upto.last() == fields[i as int]);
                assert(self@ =~= old(self)@ + fields_bytes(upto));
            }
            i += 1;
        }
        assert(fields.take(i as int) =~= fields);
        self.end()?;
        self.write_row_term()?;
        assert(self@ =~= old(self)@ + row_bytes(fields));
        Ok(())
    }

    /// Writes one row for each item of `records`, in order, each as
    /// [`Writer::serialize`] writes it.
    pub fn serialize_all(&mut self, records: &[Vec<String>]) -> (r: Result<(), Error>)
        ensures
            r is Ok,
            final(self)@ == old(self)@ + stream_bytes(rows_of(records@)),
    {
        let ghost rows = rows_of(records@);
        let mut i: usize = 0;
        assert(rows.take(0) =~= Seq::<Seq<Seq<char>>>::empty());
        assert(self@ =~= old(self)@ + stream_bytes(rows.take(0)));
        while i < records.len()
            invariant
                i <= records.len(),
                rows == rows_of(records@),
                self@ == old(self)@ + stream_bytes(rows.take(i as int)),
            decreases records.len() - i,
        {
            self.serialize(records[i].as_slice())?;
            proof {
                lemma_stream_bytes_push(rows.take(i as int), rows[i as int]);
                assert(rows.take(i + 1) =~= rows.take(i as int).push(rows[i as int]));
                assert(self@ =~= old(self)@ + stream_bytes(rows.take(i + 1)));
            }
            i += 1;
        }
        assert(rows.take(i as int) =~= rows);
        Ok(())
    }
}

} // verus!
