use vstd::prelude::*;
use vstd::utf8::valid_utf8;
use crate::frame::{FrameView, EFF_MASK, MAX_DATA_LEN};
use crate::hexdata::{hex_text_of, is_hex_text, lemma_hex_round_trip};
use crate::line::{
    lemma_position_of, line_value, payload_value, position_of, scaled_timestamp, split_field,
    timestamp_value, ParseError, RecordView, CLOSE_PAREN, DOT, HASH, OPEN_PAREN, REMOTE_MARK,
    SPACE,
};
use crate::numeral::{is_numeral, numeral_value};

verus! {

/// The timestamp field `(S.M)`.
pub open spec fn timestamp_field(secs: Seq<u8>, micros: Seq<u8>) -> Seq<u8> {
    seq![OPEN_PAREN] + secs + seq![DOT] + micros + seq![CLOSE_PAREN]
}

/// The frame field `id#data`.
pub open spec fn payload_field(id: Seq<u8>, data: Seq<u8>) -> Seq<u8> {
    id + seq![HASH] + data
}

/// A decimal numeral whose value fits in a `u64`.
pub open spec fn is_u64_numeral(s: Seq<u8>) -> bool {
    is_numeral(s, 10) && numeral_value(s, 10) <= u64::MAX
}

proof fn lemma_split_at_first(a: Seq<u8>, b: u8, c: Seq<u8>)
    requires
        forall|j: int| 0 <= j < a.len() ==> a[j] != b,
    ensures
        position_of(a + seq![b] + c, b) == a.len(),
        (a + seq![b] + c).take(a.len() as int) == a,
        (a + seq![b] + c).skip(a.len() as int + 1) == c,
{
    let s = a + seq![b] + c;
    lemma_position_of(s, b, a.len() as int);
    assert(s.take(a.len() as int) =~= a);
    assert(s.skip(a.len() as int + 1) =~= c);
}

proof fn lemma_timestamp_field_value(secs: Seq<u8>, micros: Seq<u8>)
    requires
        is_u64_numeral(secs),
        is_u64_numeral(micros),
    ensures
        timestamp_value(timestamp_field(secs, micros)) == Some(
            scaled_timestamp(numeral_value(secs, 10), numeral_value(micros, 10)),
        ),
        forall|j: int|
            0 <= j < timestamp_field(secs, micros).len() ==> #[trigger] timestamp_field(
                secs,
                micros,
            )[j] != SPACE,
{
    let f = timestamp_field(secs, micros);
    let inner = secs + seq![DOT] + micros;
    assert(f.subrange(1, f.len() - 1) =~= inner);
    assert forall|j: int| 0 <= j < secs.len() implies secs[j] != DOT by {
        assert(is_numeral(secs, 10) ==> crate::numeral::is_digit_of(secs[j], 10));
    }
    lemma_split_at_first(secs, DOT, micros);
    assert forall|j: int| 0 <= j < f.len() implies #[trigger] f[j] != SPACE by {
        if 1 <= j < 1 + secs.len() {
            assert(f[j] == secs[j - 1]);
            assert(crate::numeral::is_digit_of(secs[j - 1], 10));
        } else if 1 + secs.len() < j < f.len() - 1 {
            assert(f[j] == micros[j - secs.len() - 2]);
            assert(crate::numeral::is_digit_of(micros[j - secs.len() - 2], 10));
        }
    }
}

/// A well-formed line `(S.M) dev id#data` carries `S * 1_000_000 + M`
/// microseconds exactly, where that sum fits in a `u64`.
pub proof fn lemma_timestamp_exact(secs: Seq<u8>, micros: Seq<u8>, rest: Seq<u8>)
    requires
        is_u64_numeral(secs),
        is_u64_numeral(micros),
        numeral_value(secs, 10) * 1_000_000 + numeral_value(micros, 10) <= u64::MAX,
        line_value(timestamp_field(secs, micros) + seq![SPACE] + rest) is Ok,
    ensures
        line_value(timestamp_field(secs, micros) + seq![SPACE] + rest)->Ok_0.t_us
            == numeral_value(secs, 10) * 1_000_000 + numeral_value(micros, 10),
{
    lemma_timestamp_field_value(secs, micros);
    lemma_split_at_first(timestamp_field(secs, micros), SPACE, rest);
}

/// Where `S * 1_000_000 + M` exceeds the largest `u64`, the line carries
/// that largest value: the count saturates and never wraps.
pub proof fn lemma_timestamp_saturates(secs: Seq<u8>, micros: Seq<u8>, rest: Seq<u8>)
    requires
        is_u64_numeral(secs),
        is_u64_numeral(micros),
        numeral_value(secs, 10) * 1_000_000 + numeral_value(micros, 10) > u64::MAX,
        line_value(timestamp_field(secs, micros) + seq![SPACE] + rest) is Ok,
    ensures
        line_value(timestamp_field(secs, micros) + seq![SPACE] + rest)->Ok_0.t_us == u64::MAX,
{
    lemma_timestamp_field_value(secs, micros);
    lemma_split_at_first(timestamp_field(secs, micros), SPACE, rest);
}

/// A hex identifier that `CanFrame::new` accepts.
pub open spec fn is_frame_id(id: Seq<u8>) -> bool {
    is_numeral(id, 16) && numeral_value(id, 16) <= EFF_MASK
}

proof fn lemma_id_has_no_hash(id: Seq<u8>)
    requires
        is_numeral(id, 16),
    ensures
        forall|j: int| 0 <= j < id.len() ==> id[j] != HASH,
{
    assert forall|j: int| 0 <= j < id.len() implies id[j] != HASH by {
        assert(crate::numeral::is_digit_of(id[j], 16));
    }
}

/// Only the exact data `R` marks a remote request: `id#R` gives a remote
/// frame with no data, while `id#RR` and `id#r` are invalid frames.
pub proof fn lemma_remote_request_exact(id: Seq<u8>)
    requires
        is_frame_id(id),
    ensures
        payload_value(payload_field(id, seq![REMOTE_MARK])) == Ok::<FrameView, ParseError>(
            FrameView { id: numeral_value(id, 16) as u32, data: Seq::empty(), rtr: true, err: false },
        ),
        payload_value(payload_field(id, seq![REMOTE_MARK, REMOTE_MARK])) == Err::<
            FrameView,
            ParseError,
        >(ParseError::InvalidCanFrame),
        payload_value(payload_field(id, seq![0x72u8])) == Err::<FrameView, ParseError>(
            ParseError::InvalidCanFrame,
        ),
{
    lemma_id_has_no_hash(id);
    lemma_split_at_first(id, HASH, seq![REMOTE_MARK]);
    lemma_split_at_first(id, HASH, seq![REMOTE_MARK, REMOTE_MARK]);
    lemma_split_at_first(id, HASH, seq![0x72u8]);
    assert(seq![REMOTE_MARK, REMOTE_MARK] != seq![REMOTE_MARK]) by {
        assert(seq![REMOTE_MARK, REMOTE_MARK].len() != seq![REMOTE_MARK].len());
    }
    assert(seq![0x72u8] != seq![REMOTE_MARK]) by {
        assert(seq![0x72u8][0] != seq![REMOTE_MARK][0]);
    }
    assert(!is_hex_text(seq![REMOTE_MARK, REMOTE_MARK])) by {
        assert(!crate::numeral::is_hex_digit(seq![REMOTE_MARK, REMOTE_MARK][0]));
    }
    assert(!is_hex_text(seq![0x72u8])) by {
        assert(!crate::numeral::is_hex_digit(seq![0x72u8][0]));
    }
}

/// Up to eight bytes written as hex after `id#` decode to exactly those bytes.
pub proof fn lemma_payload_hex_round_trip(id: Seq<u8>, data: Seq<u8>)
    requires
        is_frame_id(id),
        data.len() <= MAX_DATA_LEN,
    ensures
        payload_value(payload_field(id, hex_text_of(data))) == Ok::<FrameView, ParseError>(
            FrameView { id: numeral_value(id, 16) as u32, data, rtr: false, err: false },
        ),
{
    lemma_id_has_no_hash(id);
    lemma_hex_round_trip(data);
    lemma_split_at_first(id, HASH, hex_text_of(data));
    assert(hex_text_of(data) != seq![REMOTE_MARK]) by {
        assert(hex_text_of(data).len() % 2 == 0);
    }
}

/// Data that is neither `R` nor even-length hex text (odd length, or a
/// non-hex digit) makes the frame field invalid, whatever the identifier.
pub proof fn lemma_bad_hex_is_invalid(id: Seq<u8>, data: Seq<u8>)
    requires
        forall|j: int| 0 <= j < id.len() ==> id[j] != HASH,
        data != seq![REMOTE_MARK],
        !is_hex_text(data),
    ensures
        payload_value(payload_field(id, data)) == Err::<FrameView, ParseError>(
            ParseError::InvalidCanFrame,
        ),
{
    lemma_split_at_first(id, HASH, data);
}

/// A line of only two fields, a valid timestamp and a device name, ends too
/// early.
pub proof fn lemma_two_fields_end_early(ts: Seq<u8>, dev: Seq<u8>)
    requires
        forall|j: int| 0 <= j < ts.len() ==> ts[j] != SPACE,
        forall|j: int| 0 <= j < dev.len() ==> dev[j] != SPACE,
        timestamp_value(ts) is Some,
        valid_utf8(dev),
    ensures
        line_value(ts + seq![SPACE] + dev) == Err::<RecordView, ParseError>(
            ParseError::UnexpectedEndOfLine,
        ),
{
    lemma_split_at_first(ts, SPACE, dev);
    lemma_position_of(dev, SPACE, dev.len() as int);
}

/// A first field without a dot, or not wrapped in parentheses, is an invalid
/// timestamp, whatever follows it.
pub proof fn lemma_timestamp_shape(line: Seq<u8>)
    requires
        ({
            let f = split_field(line).0;
            ||| forall|j: int| 0 <= j < f.len() ==> f[j] != DOT
            ||| f.len() < 2
            ||| f[0] != OPEN_PAREN
            ||| f.last() != CLOSE_PAREN
        }),
    ensures
        line_value(line) == Err::<RecordView, ParseError>(ParseError::InvalidTimestamp),
{
    let f = split_field(line).0;
    if f.len() >= 2 {
        let inner = f.subrange(1, f.len() - 1);
        if forall|j: int| 0 <= j < f.len() ==> f[j] != DOT {
            assert forall|j: int| 0 <= j < inner.len() implies inner[j] != DOT by {
                assert(inner[j] == f[j + 1]);
            }
            lemma_position_of(inner, DOT, inner.len() as int);
        }
    }
}

} // verus!
