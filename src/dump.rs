use vstd::prelude::*;
use crate::line::{line_value, parse_line, position_of, CanDumpRecord, ParseError, RecordView};

verus! {

pub const NEWLINE: u8 = 0x0a;

/// The text of the next line of `rem`, without its terminator.
pub open spec fn line_text(rem: Seq<u8>) -> Seq<u8> {
    rem.take(position_of(rem, NEWLINE) as int)
}

/// How many bytes of `rem` the next line takes, terminator included.
pub open spec fn line_len(rem: Seq<u8>) -> nat {
    let p = position_of(rem, NEWLINE);
    if p < rem.len() {
        p + 1
    } else {
        rem.len()
    }
}

/// Reads candump lines, one record at a time, from a byte source held in
/// memory. The current line is copied into one buffer that every read reuses.
pub struct Reader {
    src: Vec<u8>,
    pos: usize,
    line_buf: Vec<u8>,
}

impl View for Reader {
    type V = Seq<u8>;

    /// The input not read yet.
    closed spec fn view(&self) -> Seq<u8> {
        self.src@.skip(self.pos as int)
    }
}

impl Reader {
    /// The read position lies within the source.
    pub closed spec fn wf(&self) -> bool {
        self.pos <= self.src@.len()
    }

    /// A reader over the given bytes, positioned at their start.
    pub fn from_bytes(src: Vec<u8>) -> (r: Reader)
        ensures
            r.wf(),
            r@ == src@,
    {
        let r = Reader { src, pos: 0, line_buf: Vec::new() };
        assert(r.src@.skip(0) =~= r.src@);
        r
    }

    /// Reads the next line and decodes it. Gives `Ok(None)` once the input
    /// is used up; a line that fails to decode is consumed all the same, so
    /// the following call reads the line after it.
    pub fn next_record(&mut self) -> (r: Result<Option<CanDumpRecord>, ParseError>)
        requires
            old(self).wf(),
        ensures
            final(self).wf(),
            old(self)@.len() == 0 ==> (r matches Ok(None)) && final(self)@ == old(self)@,
            old(self)@.len() > 0 ==> {
                &&& final(self)@ == old(self)@.skip(line_len(old(self)@) as int)
                &&& r matches Ok(Some(rec)) ==> line_value(line_text(old(self)@)) == Ok::<
                    RecordView,
                    ParseError,
                >(rec@)
                &&& r matches Err(e) ==> line_value(line_text(old(self)@)) == Err::<
                    RecordView,
                    ParseError,
                >(e)
                &&& !(r matches Ok(None))
            },
    {
        let ghost rem = self@;
        self.line_buf.clear();
        if self.pos >= self.src.len() {
            return Ok(None);
        }
        let start = self.pos;
        let mut i = start;
        while i < self.src.len() && self.src[i] != NEWLINE
            invariant
                start <= i <= self.src@.len(),
                start == self.pos,
                rem == self.src@.skip(start as int),
                self.line_buf@ == self.src@.subrange(start as int, i as int),
                forall|j: int| start <= j < i ==> self.src@[j] != NEWLINE,
            decreases self.src@.len() - i,
        {
            self.line_buf.push(self.src[i]);
            i = i + 1;
            assert(self.line_buf@ =~= self.src@.subrange(start as int, i as int));
        }
        proof {
            let p = i - start;
            assert forall|j: int| 0 <= j < p implies rem[j] != NEWLINE by {
                assert(rem[j] == self.src@[start + j]);
            }
            crate::line::lemma_position_of(rem, NEWLINE, p);
            assert(self.line_buf@ =~= line_text(rem));
        }
        if i < self.src.len() {
            self.pos = i + 1;
        } else {
            self.pos = i;
        }
        assert(self.src@.skip(self.pos as int) =~= rem.skip(line_len(rem) as int));
        match parse_line(self.line_buf.as_slice()) {
            Ok(rec) => Ok(Some(rec)),
            Err(e) => Err(e),
        }
    }

    /// The records of the remaining input, read one at a time.
    pub fn records(&mut self) -> (r: CanDumpRecords<'_>)
        requires
            old(self).wf(),
        ensures
            r.wf(),
            r@ == (old(self)@, false),
    {
        CanDumpRecords { src: self, done: false }
    }
}

/// The records of a reader, in order, ending at the end of the input or
/// after the first error.
pub struct CanDumpRecords<'a> {
    src: &'a mut Reader,
    done: bool,
}

impl<'a> View for CanDumpRecords<'a> {
    /// The input not read yet, and whether the sequence has ended.
    type V = (Seq<u8>, bool);

    closed spec fn view(&self) -> (Seq<u8>, bool) {
        ((*self.src)@, self.done)
    }
}

impl<'a> CanDumpRecords<'a> {
    /// The underlying reader is well formed.
    pub closed spec fn wf(&self) -> bool {
        self.src.wf()
    }

    /// The next record, or the error that ends the sequence; `None` once the
    /// input is used up or an error has been handed out.
    pub fn next(&mut self) -> (r: Option<Result<CanDumpRecord, ParseError>>)
        requires
            old(self).wf(),
        ensures
            final(self).wf(),
            old(self)@.1 ==> r is None && final(self)@ == old(self)@,
            !old(self)@.1 && old(self)@.0.len() == 0 ==> r is None && final(self)@ == (
                old(self)@.0,
                true,
            ),
            !old(self)@.1 && old(self)@.0.len() > 0 ==> {
                let rem = old(self)@.0;
                &&& final(self)@.0 == rem.skip(line_len(rem) as int)
                &&& r is Some
                &&& r matches Some(Ok(rec)) ==> line_value(line_text(rem)) == Ok::<
                    RecordView,
                    ParseError,
                >(rec@) && !final(self)@.1
                &&& r matches Some(Err(e)) ==> line_value(line_text(rem)) == Err::<
                    RecordView,
                    ParseError,
                >(e) && final(self)@.1
            },
    {
        if self.done {
            return None;
        }
        match self.src.next_record() {
            Ok(Some(rec)) => Some(Ok(rec)),
            Ok(None) => {
                self.done = true;
                None
            },
            Err(e) => {
                self.done = true;
                Some(Err(e))
            },
        }
    }
}

} // verus!
