use vstd::prelude::*;
use vstd::utf8::{decode_utf8, valid_utf8};
use crate::frame::{frame_of, CanFrame, ConstructionError, FrameView};
use crate::hexdata::{decode_hex, hex_bytes, is_hex_text};
use crate::numeral::{numeral_within, parse_digits};

verus! {

pub const SPACE: u8 = 0x20;

pub const DOT: u8 = 0x2e;

pub const HASH: u8 = 0x23;

pub const OPEN_PAREN: u8 = 0x28;

pub const CLOSE_PAREN: u8 = 0x29;

/// The marker that stands for the data of a remote-request frame.
pub const REMOTE_MARK: u8 = 0x52;

pub const MICROS_PER_SECOND: u64 = 1_000_000;

#[verifier::external_type_specification]
#[verifier::external_body]
pub struct ExIoError(std::io::Error);

/// Why a line could not be decoded.
#[derive(Debug)]
pub enum ParseError {
    /// Reading the source failed.
    Io(std::io::Error),
    /// The line has fewer than three fields.
    UnexpectedEndOfLine,
    /// The first field is not `(seconds.micros)`.
    InvalidTimestamp,
    /// The second field is not UTF-8 text.
    InvalidDeviceName,
    /// The third field is not `id#data`.
    InvalidCanFrame,
    /// The frame's fields were refused by `CanFrame::new`.
    ConstructionError(ConstructionError),
}

impl From<ConstructionError> for ParseError {
    fn from(e: ConstructionError) -> (r: ParseError)
        ensures
            r == ParseError::ConstructionError(e),
    {
        ParseError::ConstructionError(e)
    }
}

impl vstd::std_specs::convert::FromSpecImpl<ConstructionError> for ParseError {
    open spec fn obeys_from_spec() -> bool {
        true
    }

    open spec fn from_spec(e: ConstructionError) -> ParseError {
        ParseError::ConstructionError(e)
    }
}

impl From<std::io::Error> for ParseError {
    fn from(e: std::io::Error) -> (r: ParseError)
        ensures
            r == ParseError::Io(e),
    {
        ParseError::Io(e)
    }
}

impl vstd::std_specs::convert::FromSpecImpl<std::io::Error> for ParseError {
    open spec fn obeys_from_spec() -> bool {
        true
    }

    open spec fn from_spec(e: std::io::Error) -> ParseError {
        ParseError::Io(e)
    }
}

/// One decoded line, as plain values.
pub struct RecordView {
    pub t_us: u64,
    pub device: Seq<char>,
    pub frame: FrameView,
}

/// One decoded line: when it was captured, on which device, and the frame.
#[derive(Debug)]
pub struct CanDumpRecord {
    /// Capture time in microseconds.
    pub t_us: u64,
    /// Name of the capturing interface.
    pub device: String,
    pub frame: CanFrame,
}

impl View for CanDumpRecord {
    type V = RecordView;

    open spec fn view(&self) -> RecordView {
        RecordView { t_us: self.t_us, device: self.device@, frame: self.frame@ }
    }
}

/// Index of the first `b` in `s`, or the length of `s` where there is none.
pub open spec fn position_of(s: Seq<u8>, b: u8) -> nat
    decreases s.len(),
{
    if s.len() == 0 {
        0
    } else if s[0] == b {
        0
    } else {
        1 + position_of(s.drop_first(), b)
    }
}

/// `p` is the first place where `b` stands in `s` (or its length, where `b` is absent).
pub proof fn lemma_position_of(s: Seq<u8>, b: u8, p: int)
    requires
        0 <= p <= s.len(),
        forall|j: int| 0 <= j < p ==> s[j] != b,
        p < s.len() ==> s[p] == b,
    ensures
        position_of(s, b) == p,
    decreases p,
{
    if p > 0 {
        let t = s.drop_first();
        assert forall|j: int| 0 <= j < p - 1 implies t[j] != b by {
            assert(t[j] == s[j + 1]);
        }
        lemma_position_of(t, b, p - 1);
    }
}

/// Splits off the first field at the first space: the field, and what follows
/// the space if there is one.
pub open spec fn split_field(s: Seq<u8>) -> (Seq<u8>, Option<Seq<u8>>) {
    let p = position_of(s, SPACE);
    if p < s.len() {
        (s.take(p as int), Some(s.skip(p as int + 1)))
    } else {
        (s, None)
    }
}

/// `S * 1_000_000 + M` microseconds, capped at the largest `u64`.
pub open spec fn scaled_timestamp(secs: nat, micros: nat) -> u64 {
    if secs * 1_000_000 + micros > u64::MAX {
        u64::MAX
    } else {
        (secs * 1_000_000 + micros) as u64
    }
}

/// The microsecond count that a field `(S.M)` writes; `None` where the field
/// is not of that shape or `S` or `M` is not a `u64` numeral.
pub open spec fn timestamp_value(f: Seq<u8>) -> Option<u64> {
    if f.len() >= 2 && f[0] == OPEN_PAREN && f.last() == CLOSE_PAREN {
        let inner = f.subrange(1, f.len() - 1);
        let d = position_of(inner, DOT);
        if d < inner.len() {
            let secs = numeral_within(inner.take(d as int), 10, u64::MAX as nat);
            let micros = numeral_within(inner.skip(d as int + 1), 10, u64::MAX as nat);
            if secs is Some && micros is Some {
                Some(scaled_timestamp(secs->0, micros->0))
            } else {
                None
            }
        } else {
            None
        }
    } else {
        None
    }
}

/// What decoding a frame field `id#data` gives.
pub open spec fn payload_value(p: Seq<u8>) -> Result<FrameView, ParseError> {
    let h = position_of(p, HASH);
    if h >= p.len() {
        Err(ParseError::InvalidCanFrame)
    } else {
        let id_text = p.take(h as int);
        let data_text = p.skip(h as int + 1);
        let rtr = data_text == seq![REMOTE_MARK];
        let id = numeral_within(id_text, 16, u32::MAX as nat);
        if !rtr && !is_hex_text(data_text) {
            Err(ParseError::InvalidCanFrame)
        } else if id is None {
            Err(ParseError::InvalidCanFrame)
        } else {
            let data = if rtr {
                Seq::empty()
            } else {
                hex_bytes(data_text)
            };
            match frame_of(id->0 as u32, data, rtr, false) {
                Ok(f) => Ok(f),
                Err(e) => Err(ParseError::ConstructionError(e)),
            }
        }
    }
}

/// What decoding one line (without its terminator) gives.
pub open spec fn line_value(line: Seq<u8>) -> Result<RecordView, ParseError> {
    let (ts, rest) = split_field(line);
    if timestamp_value(ts) is None {
        Err(ParseError::InvalidTimestamp)
    } else if rest is None {
        Err(ParseError::UnexpectedEndOfLine)
    } else {
        let (dev, rest2) = split_field(rest->0);
        if !valid_utf8(dev) {
            Err(ParseError::InvalidDeviceName)
        } else if rest2 is None {
            Err(ParseError::UnexpectedEndOfLine)
        } else {
            match payload_value(split_field(rest2->0).0) {
                Ok(frame) => Ok(
                    RecordView { t_us: timestamp_value(ts)->0, device: decode_utf8(dev), frame },
                ),
                Err(e) => Err(e),
            }
        }
    }
}

/// Relies on std::str::from_utf8: it accepts exactly the well-formed UTF-8
/// byte sequences, and the text it gives is what those bytes encode.
#[verifier::external_body]
fn utf8_text(b: &[u8]) -> (r: Option<String>)
    ensures
        r is Some <==> valid_utf8(b@),
        r matches Some(s) ==> s@ == decode_utf8(b@),
{
    match std::str::from_utf8(b) {
        Ok(s) => Some(s.to_owned()),
        Err(_) => None,
    }
}

/// Index of the first `b` in `s`, or the length of `s` where there is none.
pub fn find_byte(s: &[u8], b: u8) -> (r: usize)
    ensures
        r == position_of(s@, b),
{
    let mut i: usize = 0;
    while i < s.len()
        invariant
            0 <= i <= s@.len(),
            forall|j: int| 0 <= j < i ==> s@[j] != b,
        decreases s@.len() - i,
    {
        if s[i] == b {
            proof {
                lemma_position_of(s@, b, i as int);
            }
            return i;
        }
        i = i + 1;
    }
    proof {
        lemma_position_of(s@, b, i as int);
    }
    i
}

/// Splits off the first field at the first space.
pub fn next_field(s: &[u8]) -> (r: (&[u8], Option<&[u8]>))
    ensures
        r.0@ == split_field(s@).0,
        r.1 is Some <==> split_field(s@).1 is Some,
        r.1 matches Some(t) ==> t@ == split_field(s@).1->0,
{
    let p = find_byte(s, SPACE);
    if p < s.len() {
        (vstd::slice::slice_subrange(s, 0, p), Some(vstd::slice::slice_subrange(s, p + 1, s.len())))
    } else {
        (s, None)
    }
}

/// Decodes a timestamp field `(S.M)` into `S * 1_000_000 + M` microseconds,
/// capped at the largest `u64`.
pub fn parse_timestamp(f: &[u8]) -> (r: Option<u64>)
    ensures
        r == timestamp_value(f@),
{
    let n = f.len();
    if n < 2 || f[0] != OPEN_PAREN || f[n - 1] != CLOSE_PAREN {
        return None;
    }
    let inner = vstd::slice::slice_subrange(f, 1, n - 1);
    let d = find_byte(inner, DOT);
    if d >= inner.len() {
        return None;
    }
    let secs = parse_digits(vstd::slice::slice_subrange(inner, 0, d), 10, u64::MAX);
    let micros = parse_digits(vstd::slice::slice_subrange(inner, d + 1, inner.len()), 10, u64::MAX);
    match (secs, micros) {
        (Some(s), Some(m)) => {
            let whole = if s > u64::MAX / MICROS_PER_SECOND {
                u64::MAX
            } else {
                s * MICROS_PER_SECOND
            };
            proof {
                if s > u64::MAX / MICROS_PER_SECOND {
                    assert(s * 1_000_000 > u64::MAX) by (nonlinear_arith)
                        requires
                            s > u64::MAX / 1_000_000,
                    ;
                }
            }
            Some(whole.saturating_add(m))
        },
        _ => None,
    }
}

/// Decodes a frame field `id#data`: a hex identifier, then either `R` for a
/// remote request or the data bytes as hex text.
pub fn parse_payload(p: &[u8]) -> (r: Result<CanFrame, ParseError>)
    ensures
        r matches Ok(f) ==> payload_value(p@) == Ok::<FrameView, ParseError>(f@),
        r matches Err(e) ==> payload_value(p@) == Err::<FrameView, ParseError>(e),
{
    let h = find_byte(p, HASH);
    if h >= p.len() {
        return Err(ParseError::InvalidCanFrame);
    }
    let id_text = vstd::slice::slice_subrange(p, 0, h);
    let data_text = vstd::slice::slice_subrange(p, h + 1, p.len());
    let rtr = data_text.len() == 1 && data_text[0] == REMOTE_MARK;
    assert(rtr == (data_text@ == seq![REMOTE_MARK])) by {
        if data_text@.len() == 1 {
            assert(data_text@ == seq![REMOTE_MARK] <==> data_text@[0] == REMOTE_MARK) by {
                if data_text@[0] == REMOTE_MARK {
                    assert(data_text@ =~= seq![REMOTE_MARK]);
                }
            }
        }
    }
    let data = if rtr {
        Vec::new()
    } else {
        match decode_hex(data_text) {
            Ok(v) => v,
            Err(_) => {
                return Err(ParseError::InvalidCanFrame);
            },
        }
    };
    let id = match parse_digits(id_text, 16, u32::MAX as u64) {
        Some(v) => v as u32,
        None => {
            return Err(ParseError::InvalidCanFrame);
        },
    };
    match CanFrame::new(id, data.as_slice(), rtr, false) {
        Ok(f) => Ok(f),
        Err(e) => Err(ParseError::from(e)),
    }
}

/// Decodes one line (without its terminator) into a record.
pub fn parse_line(line: &[u8]) -> (r: Result<CanDumpRecord, ParseError>)
    ensures
        r matches Ok(rec) ==> line_value(line@) == Ok::<RecordView, ParseError>(rec@),
        r matches Err(e) ==> line_value(line@) == Err::<RecordView, ParseError>(e),
{
    let (ts, rest) = next_field(line);
    let t_us = match parse_timestamp(ts) {
        Some(t) => t,
        None => {
            return Err(ParseError::InvalidTimestamp);
        },
    };
    let rest = match rest {
        Some(r) => r,
        None => {
            return Err(ParseError::UnexpectedEndOfLine);
        },
    };
    let (dev, rest) = next_field(rest);
    let device = match utf8_text(dev) {
        Some(d) => d,
        None => {
            return Err(ParseError::InvalidDeviceName);
        },
    };
    let rest = match rest {
        Some(r) => r,
        None => {
            return Err(ParseError::UnexpectedEndOfLine);
        },
    };
    let (payload, _) = next_field(rest);
    let frame = match parse_payload(payload) {
        Ok(f) => f,
        Err(e) => {
            return Err(e);
        },
    };
    Ok(CanDumpRecord { t_us, device, frame })
}

} // verus!
