//! The incremental frame decoder.
//!
//! `spec_parse` is the mathematical model of decoding: given the buffer
//! contents and a position it yields either a fatal error, "incomplete"
//! (`Ok(None)`: more bytes are needed), or the decoded frame with the
//! position just past it.  The executable functions mirror the model
//! exactly, reading the buffer through the trusted slice view.  Decoding
//! never copies payload bytes: frames come back as offset ranges.
use vstd::prelude::*;
use vstd::slice::{slice_index_get, slice_subrange};
use crate::bufview::{buf_view, buf_as_slice};
use crate::num::spec_parse_i64;
use crate::types::{BufSplit, RedisBufSplit, RESPError, FrameSpec, frame_wf, models_of};

verus! {

pub type RedisResult = Result<Option<(usize, RedisBufSplit)>, RESPError>;

/// The first carriage-return byte at or after `pos`, if any.
pub open spec fn find_cr(s: Seq<u8>, pos: int) -> Option<int>
    decreases s.len() - pos,
{
    if pos < 0 || pos >= s.len() {
        None
    } else if s[pos] == 13u8 {
        Some(pos)
    } else {
        find_cr(s, pos + 1)
    }
}

/// One scanned word: the byte range from `pos` up to the first carriage
/// return, provided at least one byte follows the carriage return.  The
/// result is `(next, lo, hi)`: the position past the two-byte terminator
/// and the half-open range of the word.  `None` means incomplete.
pub open spec fn spec_word(s: Seq<u8>, pos: int) -> Option<(int, int, int)> {
    if pos >= s.len() {
        None
    } else {
        match find_cr(s, pos) {
            Option::None => None,
            Option::Some(end) => if end + 1 < s.len() {
                Some((end + 2, pos, end))
            } else {
                None
            },
        }
    }
}

/// A scanned word parsed as a signed decimal integer.
pub open spec fn spec_integer(s: Seq<u8>, pos: int) -> Result<Option<(int, i64)>, RESPError> {
    match spec_word(s, pos) {
        Option::None => Ok(None),
        Option::Some((next, lo, hi)) => match spec_parse_i64(s.subrange(lo, hi)) {
            Option::Some(i) => Ok(Some((next, i))),
            Option::None => Err(RESPError::IntParseFailure),
        },
    }
}

/// A simple string frame: one word, wrapped as a string range.
pub open spec fn spec_simple(s: Seq<u8>, pos: int) -> Result<Option<(int, FrameSpec)>, RESPError> {
    match spec_word(s, pos) {
        Option::None => Ok(None),
        Option::Some((next, lo, hi)) => Ok(Some((next, FrameSpec::Str { lo, hi }))),
    }
}

/// An integer frame: one word parsed as a decimal integer.
pub open spec fn spec_int_frame(s: Seq<u8>, pos: int) -> Result<Option<(int, FrameSpec)>, RESPError> {
    match spec_integer(s, pos) {
        Err(e) => Err(e),
        Ok(Option::None) => Ok(None),
        Ok(Option::Some((next, i))) => Ok(Some((next, FrameSpec::Int(i)))),
    }
}

/// A bulk string frame: a length word, then that many payload bytes and
/// a two-byte terminator.  Length -1 and other negative lengths are
/// fatal; a payload not yet fully buffered is incomplete.
pub open spec fn spec_bulk(s: Seq<u8>, pos: int) -> Result<Option<(int, FrameSpec)>, RESPError> {
    match spec_integer(s, pos) {
        Err(e) => Err(e),
        Ok(Option::None) => Ok(None),
        Ok(Option::Some((next, size))) => if size == -1 {
            Err(RESPError::NullBulkString)
        } else if size < 0 {
            Err(RESPError::BadBulkStringSize)
        } else if s.len() < next + size + 2 {
            Ok(None)
        } else {
            Ok(Some((next + size + 2, FrameSpec::Str { lo: next, hi: next + size })))
        },
    }
}

/// One frame, dispatched on its marker byte.  An empty buffer or an
/// out-of-range position is incomplete; an unknown marker (the error
/// marker `-` included, which this decoder does not support) is fatal.
pub open spec fn spec_parse(s: Seq<u8>, pos: int) -> Result<Option<(int, FrameSpec)>, RESPError>
    decreases s.len() - pos, 0int, 0int,
{
    if s.len() == 0 {
        Ok(None)
    } else if pos < 0 || pos >= s.len() {
        Ok(None)
    } else if s[pos] == 43u8 {
        spec_simple(s, pos + 1)
    } else if s[pos] == 36u8 {
        spec_bulk(s, pos + 1)
    } else if s[pos] == 58u8 {
        spec_int_frame(s, pos + 1)
    } else if s[pos] == 42u8 {
        spec_array(s, pos + 1)
    } else {
        Err(RESPError::UnknownStartingByte)
    }
}

/// An array frame: a count word, then exactly that many nested frames.
/// Count -1 is the null array; other negative counts are fatal.
pub open spec fn spec_array(s: Seq<u8>, pos: int) -> Result<Option<(int, FrameSpec)>, RESPError>
    decreases s.len() - pos, 0int, 0int,
{
    match spec_integer(s, pos) {
        Err(e) => Err(e),
        Ok(Option::None) => Ok(None),
        Ok(Option::Some((next, count))) => if count == -1 {
            Ok(Some((next, FrameSpec::NullArr)))
        } else if count < 0 {
            Err(RESPError::BadArraySize(count))
        } else if !(pos < next <= s.len()) {
            // a completed word always stands past its position and inside
            // the buffer (lemma_word_next_bounds); this branch is never taken
            Ok(None)
        } else {
            match spec_parse_n(s, next, count as int) {
                Err(e) => Err(e),
                Ok(Option::None) => Ok(None),
                Ok(Option::Some((end, elems))) => Ok(Some((end, FrameSpec::Arr(elems)))),
            }
        },
    }
}

/// Exactly `n` frames in sequence.  If any of them is incomplete the
/// whole sequence is incomplete: no partial element list is surfaced.
pub open spec fn spec_parse_n(s: Seq<u8>, pos: int, n: int) -> Result<
    Option<(int, Seq<FrameSpec>)>,
    RESPError,
>
    decreases s.len() - pos, 1int, n,
{
    if n <= 0 {
        Ok(Some((pos, Seq::empty())))
    } else {
        match spec_parse(s, pos) {
            Err(e) => Err(e),
            Ok(Option::None) => Ok(None),
            Ok(Option::Some((np, f))) => if !(pos < np <= s.len()) {
                // a parsed frame always advances (lemma_parse_next_bounds);
                // this branch is never taken
                Ok(None)
            } else {
                match spec_parse_n(s, np, n - 1) {
                    Err(e) => Err(e),
                    Ok(Option::None) => Ok(None),
                    Ok(Option::Some((end, rest))) => Ok(Some((end, seq![f] + rest))),
                }
            },
        }
    }
}

/// Prepends already-decoded element models to the outcome of decoding
/// the remaining elements.
pub open spec fn prepend_frames(pre: Seq<FrameSpec>, r: Result<Option<(int, Seq<FrameSpec>)>, RESPError>) -> Result<
    Option<(int, Seq<FrameSpec>)>,
    RESPError,
> {
    match r {
        Err(e) => Err(e),
        Ok(Option::None) => Ok(None),
        Ok(Option::Some((end, elems))) => Ok(Some((end, pre + elems))),
    }
}

/// The exec word result agrees with the spec outcome.
pub open spec fn word_matches(
    r: Result<Option<(usize, BufSplit)>, RESPError>,
    m: Option<(int, int, int)>,
) -> bool {
    match (r, m) {
        (Ok(Option::None), Option::None) => true,
        (Ok(Option::Some((next, b))), Option::Some((sn, lo, hi))) => next as int == sn
            && b.0 as int == lo
            && b.1 as int == hi,
        _ => false,
    }
}

/// The exec integer result agrees with the spec outcome.
pub open spec fn int_matches(
    r: Result<Option<(usize, i64)>, RESPError>,
    m: Result<Option<(int, i64)>, RESPError>,
) -> bool {
    match (r, m) {
        (Ok(Option::None), Ok(Option::None)) => true,
        (Ok(Option::Some((next, i))), Ok(Option::Some((sn, si)))) => next as int == sn && i == si,
        (Err(e1), Err(e2)) => e1 == e2,
        _ => false,
    }
}

/// The exec decode result agrees with the spec outcome, position and
/// frame model included.
pub open spec fn decode_matches(
    r: RedisResult,
    m: Result<Option<(int, FrameSpec)>, RESPError>,
) -> bool {
    match (r, m) {
        (Ok(Option::None), Ok(Option::None)) => true,
        (Ok(Option::Some((p, f))), Ok(Option::Some((q, g)))) => p as int == q && f.model() == g,
        (Err(e1), Err(e2)) => e1 == e2,
        _ => false,
    }
}

/// Scans from `pos` for a carriage return with one byte following it.
/// Never fails: a missing terminator only means more bytes are needed.
#[verifier::loop_isolation(false)]
pub fn word(buf: &bytes::BytesMut, pos: usize) -> (r: Result<Option<(usize, BufSplit)>, RESPError>)
    ensures
        word_matches(r, spec_word(buf_view(*buf), pos as int)),
        r matches Ok(Some((next, b))) ==> pos <= b.0 <= b.1 && b.1 + 2 == next
            && next <= buf_view(*buf).len(),
{
    let s = buf_as_slice(buf);
    let n = s.len();
    if n <= pos {
        return Ok(None);
    }
    let mut end: usize = pos;
    while *slice_index_get(s, end) != 13u8
        invariant
            pos <= end < n,
            find_cr(s@, pos as int) == find_cr(s@, end as int),
        decreases n - end,
    {
        if n <= end + 1 {
            proof {
                assert(find_cr(s@, end as int) == find_cr(s@, end + 1));
            }
            return Ok(None);
        }
        end = end + 1;
        proof {
            assert(find_cr(s@, end - 1) == find_cr(s@, end as int));
        }
    }
    proof {
        assert(find_cr(s@, pos as int) == Some(end as int));
    }
    if end + 1 < n {
        Ok(Some((end + 2, BufSplit(pos, end))))
    } else {
        Ok(None)
    }
}

/// Scans one word and parses it as a signed decimal integer.
pub fn integer(buf: &bytes::BytesMut, pos: usize) -> (r: Result<
    Option<(usize, i64)>,
    RESPError,
>)
    ensures
        int_matches(r, spec_integer(buf_view(*buf), pos as int)),
        r matches Ok(Some((next, _))) ==> pos < next <= buf_view(*buf).len(),
{
    match word(buf, pos)? {
        Some((next, w)) => {
            let s = buf_as_slice(buf);
            let digits = slice_subrange(s, w.0, w.1);
            match crate::num::parse_i64_bytes(digits) {
                Some(i) => Ok(Some((next, i))),
                None => Err(RESPError::IntParseFailure),
            }
        },
        None => Ok(None),
    }
}

/// Decodes a bulk string body: length word, payload bytes, terminator.
pub fn bulk_string(buf: &bytes::BytesMut, pos: usize) -> (r: RedisResult)
    ensures
        decode_matches(r, spec_bulk(buf_view(*buf), pos as int)),
        r matches Ok(Some((next, f))) ==> pos < next <= buf_view(*buf).len()
            && frame_wf(f.model(), buf_view(*buf).len() as int),
{
    match integer(buf, pos)? {
        Some((next, size)) => {
            if size == -1 {
                Err(RESPError::NullBulkString)
            } else if size < 0 {
                Err(RESPError::BadBulkStringSize)
            } else {
                let n = buf_as_slice(buf).len();
                let avail: usize = n - next;
                if (avail as u64) < (size as u64) + 2 {
                    Ok(None)
                } else {
                    let sz: usize = size as usize;
                    Ok(Some((next + sz + 2, RedisBufSplit::String(BufSplit(next, next + sz)))))
                }
            }
        },
        None => Ok(None),
    }
}

/// Decodes a simple string body: one word.
pub fn simple_string(buf: &bytes::BytesMut, pos: usize) -> (r: RedisResult)
    ensures
        decode_matches(r, spec_simple(buf_view(*buf), pos as int)),
        r matches Ok(Some((next, f))) ==> pos < next <= buf_view(*buf).len()
            && frame_wf(f.model(), buf_view(*buf).len() as int),
{
    match word(buf, pos)? {
        Some((next, w)) => Ok(Some((next, RedisBufSplit::String(w)))),
        None => Ok(None),
    }
}

/// Decodes an integer frame body: one word as a decimal integer.
pub fn resp_int(buf: &bytes::BytesMut, pos: usize) -> (r: RedisResult)
    ensures
        decode_matches(r, spec_int_frame(buf_view(*buf), pos as int)),
        r matches Ok(Some((next, f))) ==> pos < next <= buf_view(*buf).len()
            && frame_wf(f.model(), buf_view(*buf).len() as int),
{
    match integer(buf, pos)? {
        Some((next, number)) => Ok(Some((next, RedisBufSplit::Int(number)))),
        None => Ok(None),
    }
}

/// Decodes an array body: a count word, then exactly `count` nested
/// frames.  If any nested frame is incomplete, the whole array decode
/// reports incomplete and no partial element list escapes.
#[verifier::loop_isolation(false)]
pub fn array(buf: &bytes::BytesMut, pos: usize) -> (r: RedisResult)
    ensures
        decode_matches(r, spec_array(buf_view(*buf), pos as int)),
        r matches Ok(Some((next, f))) ==> pos < next <= buf_view(*buf).len()
            && frame_wf(f.model(), buf_view(*buf).len() as int),
    decreases buf_view(*buf).len() - pos,
{
    let ghost s = buf_view(*buf);
    match integer(buf, pos)? {
        None => Ok(None),
        Some((next, count)) => {
            if count == -1 {
                Ok(Some((next, RedisBufSplit::NullArray)))
            } else if count < 0 {
                Err(RESPError::BadArraySize(count))
            } else {
                let cnt: u64 = count as u64;
                let mut values: Vec<RedisBufSplit> = Vec::new();
                let mut curr_pos: usize = next;
                let mut i: u64 = 0;
                proof {
                    let r0 = spec_parse_n(s, next as int, cnt as int);
                    if let Ok(Option::Some((end, elems))) = r0 {
                        assert(models_of(Seq::<RedisBufSplit>::empty()) + elems =~= elems);
                    }
                    assert(models_of(values@) =~= models_of(Seq::<RedisBufSplit>::empty()));
                }
                while i < cnt
                    invariant
                        0 <= i <= cnt,
                        next <= curr_pos <= s.len(),
                        values@.len() == i,
                        forall|j: int|
                            0 <= j < values@.len() ==> frame_wf(
                                (#[trigger] values@[j]).model(),
                                s.len() as int,
                            ),
                        spec_parse_n(s, next as int, cnt as int) == prepend_frames(
                            models_of(values@),
                            spec_parse_n(s, curr_pos as int, cnt - i),
                        ),
                    decreases cnt - i,
                {
                    match parse(buf, curr_pos)? {
                        Some((new_pos, val)) => {
                            proof {
                                let pre = models_of(values@);
                                let tail = spec_parse_n(s, new_pos as int, cnt - i - 1);
                                assert(spec_parse_n(s, curr_pos as int, cnt - i)
                                    == prepend_frames(seq![val.model()], tail));
                                assert(models_of(values@.push(val)) =~= pre + seq![val.model()]);
                                if let Ok(Option::Some((end, elems))) = tail {
                                    assert(pre + (seq![val.model()] + elems) =~= (pre + seq![
                                        val.model(),
                                    ]) + elems);
                                }
                                assert(spec_parse_n(s, next as int, cnt as int) == prepend_frames(
                                    models_of(values@.push(val)),
                                    tail,
                                ));
                            }
                            curr_pos = new_pos;
                            values.push(val);
                            i = i + 1;
                        },
                        None => {
                            return Ok(None);
                        },
                    }
                }
                proof {
                    let pre = models_of(values@);
                    assert(spec_parse_n(s, curr_pos as int, 0) == Ok::<
                        Option<(int, Seq<FrameSpec>)>,
                        RESPError,
                    >(Some((curr_pos as int, Seq::empty()))));
                    assert(pre + Seq::<FrameSpec>::empty() =~= pre);
                    assert(spec_parse_n(s, next as int, cnt as int) == Ok::<
                        Option<(int, Seq<FrameSpec>)>,
                        RESPError,
                    >(Some((curr_pos as int, pre))));
                }
                let rv = RedisBufSplit::Array(values);
                proof {
                    let fs = rv.model()->Arr_0;
                    assert(fs =~= models_of(values@));
                    assert forall|j: int| 0 <= j < fs.len() implies frame_wf(
                        #[trigger] fs[j],
                        s.len() as int,
                    ) by {
                        assert(fs[j] == values@[j].model());
                    }
                }
                Ok(Some((curr_pos, rv)))
            }
        },
    }
}

/// Decodes one frame at `pos`, dispatching on the marker byte.  `+` is a
/// simple string, `$` a bulk string, `:` an integer, `*` an array; any
/// other marker, the unsupported error marker `-` included, is fatal.
pub fn parse(buf: &bytes::BytesMut, pos: usize) -> (r: RedisResult)
    ensures
        decode_matches(r, spec_parse(buf_view(*buf), pos as int)),
        r matches Ok(Some((next, f))) ==> pos < next <= buf_view(*buf).len()
            && frame_wf(f.model(), buf_view(*buf).len() as int),
    decreases buf_view(*buf).len() - pos,
{
    let s = buf_as_slice(buf);
    if s.len() == 0 {
        return Ok(None);
    }
    if pos >= s.len() {
        return Ok(None);
    }
    let b = *slice_index_get(s, pos);
    if b == 43u8 {
        simple_string(buf, pos + 1)
    } else if b == 36u8 {
        bulk_string(buf, pos + 1)
    } else if b == 58u8 {
        resp_int(buf, pos + 1)
    } else if b == 42u8 {
        array(buf, pos + 1)
    } else {
        Err(RESPError::UnknownStartingByte)
    }
}

} // verus!
