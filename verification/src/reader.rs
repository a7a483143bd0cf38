//! The row reader: raw rows pulled one at a time from a byte source held in
//! memory, and the rows decoded as sequences of text.

use vstd::prelude::*;
use vstd::slice::slice_subrange;
use crate::deserializer::DeRecord;
use crate::error::Error;
use crate::format::{find, lemma_find, lemma_find_bounds, parse_strings, texts};
use crate::utils::ROW_TERM_BYTE;

verus! {

/// The length of the raw row that starts `src`: up to and including the first
/// row terminator, or all of `src` where it holds none.
pub open spec fn row_len(src: Seq<u8>) -> int {
    let end = find(src, ROW_TERM_BYTE);
    if end < src.len() {
        end + 1
    } else {
        src.len() as int
    }
}

/// A raw row is never empty and never longer than what is left of the source.
pub proof fn lemma_row_len_bounds(src: Seq<u8>)
    ensures
        0 <= row_len(src) <= src.len(),
        src.len() > 0 ==> row_len(src) >= 1,
{
    lemma_find_bounds(src, ROW_TERM_BYTE);
}

/// The raw rows of a source, in order: each runs up to and including the next
/// row terminator, and a last one without terminator is a row too.
pub open spec fn raw_rows(src: Seq<u8>) -> Seq<Seq<u8>>
    decreases src.len(),
{
    let n = row_len(src);
    if 0 < n <= src.len() {
        seq![src.take(n)] + raw_rows(src.skip(n))
    } else {
        Seq::empty()
    }
}

/// Whether `outcome` is what decoding the raw row `row` as a sequence of text
/// gives: the texts of its fields, or a decode error where there are none.
pub open spec fn decodes(row: Seq<u8>, outcome: Result<Vec<String>, Error>) -> bool {
    match outcome {
        Ok(fields) => parse_strings(row) == Some(texts(fields@)),
        Err(e) => parse_strings(row) is None && e.0 is Deserialize,
    }
}

/// What a read of one raw row amounts to, from what the source answered: the
/// end of the source where it gave no byte, a row where it gave some, and
/// its failure where it failed.
pub fn read_outcome(read: Result<usize, Error>) -> (r: Option<Result<(), Error>>)
    ensures
        r == match read {
            Ok(n) => if n == 0 {
                None
            } else {
                Some(Ok::<(), Error>(()))
            },
            Err(e) => Some(Err::<(), Error>(e)),
        },
{
    match read {
        Ok(n) => if n == 0 {
            None
        } else {
            Some(Ok(()))
        },
        Err(e) => Some(Err(e)),
    }
}

/// Pulls raw rows from a byte source, front to back.
pub struct Reader<'r> {
    rdr: &'r [u8],
}

impl<'r> Reader<'r> {
    /// The bytes of the source that are not yet read.
    pub closed spec fn view(&self) -> Seq<u8> {
        self.rdr@
    }

    /// A reader at the start of `rdr`.
    pub fn from_reader(rdr: &'r [u8]) -> (reader: Self)
        ensures
            reader@ == rdr@,
    {
        Reader { rdr }
    }

    /// Reads the next raw row and appends it to `buf`, row terminator included.
    ///
    /// At the end of the source this returns `None` and changes nothing.
    /// Otherwise it returns `Some(Ok(()))`; a last row that lacks its
    /// terminator is handed out as it is. A source in memory never fails.
    pub fn read_record(&mut self, buf: &mut Vec<u8>) -> (r: Option<Result<(), Error>>)
        ensures
            old(self)@.len() == 0 ==> r is None && final(self)@ == old(self)@ && final(buf)@
                == old(buf)@,
            old(self)@.len() > 0 ==> r == Some(Ok::<(), Error>(())) && final(buf)@ == old(buf)@
                + old(self)@.take(row_len(old(self)@)) && final(self)@ == old(self)@.skip(
                row_len(old(self)@),
            ),
    {
        let src = self.rdr;
        let n = src.len();
        let mut i: usize = 0;
        while i < n && src[i] != ROW_TERM_BYTE
            invariant
                i <= n,
                n == src@.len(),
                forall|j: int| 0 <= j < i ==> src@[j] != ROW_TERM_BYTE,
            decreases n - i,
        {
            i += 1;
        }
        proof {
            lemma_find(src@, ROW_TERM_BYTE, i as int);
        }
        let end: usize = if i < n {
            i + 1
        } else {
            n
        };
        buf.extend_from_slice(slice_subrange(src, 0, end));
        self.rdr = slice_subrange(src, end, n);
        proof {
            if n == 0 {
                assert(buf@ =~= old(buf)@);
                assert(self.rdr@ =~= old(self)@);
            }
        }
        read_outcome(Ok(end))
    }

    /// The rows of the source from here on, each decoded as a sequence of text.
    pub fn deserialize<'a>(&'a mut self) -> (rows: DesRecordIter<'a, 'r>)
        ensures
            rows.rdr@ == old(self)@,
            *final(self) == *final(rows.rdr),
    {
        DesRecordIter { rdr: self }
    }
}

/// The decoded rows of a source, handed out one at a time. It cannot be rewound.
pub struct DesRecordIter<'a, 'r> {
    /// The reader that the rows are pulled from; it moves on with every row.
    pub rdr: &'a mut Reader<'r>,
}

impl<'a, 'r> DesRecordIter<'a, 'r> {
    /// Decodes the next row.
    ///
    /// At the end of the source this returns `None`. Otherwise the reader
    /// moves past one raw row, and the result is what that row decodes to: its
    /// texts, or a decode error. An error does not end the sequence: the next
    /// call goes on with the row after.
    pub fn next(&mut self) -> (r: Option<Result<Vec<String>, Error>>)
        ensures
            final(self).rdr@ == old(self).rdr@.skip(row_len(old(self).rdr@)),
            *final(final(self).rdr) == *final(old(self).rdr),
            match r {
                None => old(self).rdr@.len() == 0,
                Some(outcome) => old(self).rdr@.len() > 0 && decodes(
                    old(self).rdr@.take(row_len(old(self).rdr@)),
                    outcome,
                ),
            },
    {
        let mut buf: Vec<u8> = Vec::new();
        match self.rdr.read_record(&mut buf) {
            None => {
                assert(old(self).rdr@.skip(0) =~= old(self).rdr@);
                None
            },
            Some(Ok(())) => {
                let mut d = DeRecord::from_ref(buf.as_slice());
                Some(d.deserialize_seq())
            },
            Some(Err(e)) => Some(Err(e)),
        }
    }

    /// Decodes all rows that are left, in order.
    pub fn collect(&mut self) -> (rows: Vec<Result<Vec<String>, Error>>)
        ensures
            final(self).rdr@.len() == 0,
            *final(final(self).rdr) == *final(old(self).rdr),
            rows@.len() == raw_rows(old(self).rdr@).len(),
            forall|i: int|
                0 <= i < rows@.len() ==> decodes(raw_rows(old(self).rdr@)[i], #[trigger] rows@[i]),
    {
        let mut rows: Vec<Result<Vec<String>, Error>> = Vec::new();
        let ghost start = self.rdr@;
        let ghost done: Seq<Seq<u8>> = Seq::empty();
        assert(done + raw_rows(start) =~= raw_rows(start));
        loop
            invariant
                start == old(self).rdr@,
                *final(self.rdr) == *final(old(self).rdr),
                raw_rows(start) == done + raw_rows(self.rdr@),
                rows@.len() == done.len(),
                forall|i: int| 0 <= i < rows@.len() ==> decodes(done[i], #[trigger] rows@[i]),
            ensures
                self.rdr@.len() == 0,
                raw_rows(start) == done,
            decreases self.rdr@.len(),
        {
            let ghost before = self.rdr@;
            proof {
                lemma_row_len_bounds(before);
            }
            match self.next() {
                None => {
                    assert(done + Seq::<Seq<u8>>::empty() =~= done);
                    break ;
                },
                Some(outcome) => {
                    rows.push(outcome);
                    proof {
                        let row = before.take(row_len(before));
                        assert(done + (seq![row] + raw_rows(self.rdr@)) =~= done.push(row)
                            + raw_rows(self.rdr@));
                        done = done.push(row);
                    }
                },
            }
        }
        rows
    }
}

} // verus!
