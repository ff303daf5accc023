//! The value model of the protocol.
//!
//! A decoded frame first exists in offset form (`RedisBufSplit`): scalar
//! payloads are `(start, end)` byte ranges into the buffer that produced
//! them.  Materialization resolves every range into an owned byte handle
//! (`RedisValue`).  Both forms have a mathematical model (`FrameSpec`,
//! `ValueSpec`) that the contracts speak about, and the encoders that turn
//! results back into wire bytes live here as well.
use vstd::prelude::*;
use vstd::slice::slice_index_get;
use crate::bufview::{bytes_view, buf_view, bytes_as_slice, bytes_from_vec, buf_as_slice};
use crate::num::dec_rep;

verus! {

broadcast use
    vstd::seq::axiom_seq_index_decreases,
    vstd::std_specs::vec::axiom_vec_index_decreases,
    vstd::std_specs::vec::axiom_vec_decreases_to_view;

/// Errors that end a decode attempt: no extension of the input can turn
/// it into a frame this decoder accepts.
#[derive(Debug, Clone, Copy, PartialEq, Eq, Structural)]
pub enum RESPError {
    UnexpectedEnd,
    UnknownStartingByte,
    IntParseFailure,
    NullBulkString,
    BadBulkStringSize,
    BadArraySize(i64),
}

/// Errors from interpreting a materialized frame as a command.
#[derive(Debug, Clone, Copy, PartialEq, Eq, Structural)]
pub enum ReturnError {
    UnknownType,
    UnknownCommand,
    ArityError,
}

/// A half-open byte range `[start, end)` into an externally owned buffer.
#[derive(Debug, Clone, Copy, PartialEq, Eq, Structural)]
pub struct BufSplit(pub usize, pub usize);

/// A decoded frame in offset form: scalar payloads point into the buffer
/// that was decoded, so nothing is copied during decoding.
#[derive(Debug, PartialEq)]
pub enum RedisBufSplit {
    String(BufSplit),
    Error(BufSplit),
    Int(i64),
    Array(Vec<RedisBufSplit>),
    NullArray,
    NullBulkString,
}

/// The model of an offset-form frame.
pub enum FrameSpec {
    Str { lo: int, hi: int },
    ErrStr { lo: int, hi: int },
    Int(i64),
    Arr(Seq<FrameSpec>),
    NullArr,
    NullBulk,
}

impl RedisBufSplit {
    pub open spec fn model(self) -> FrameSpec
        decreases self,
    {
        match self {
            RedisBufSplit::String(b) => FrameSpec::Str { lo: b.0 as int, hi: b.1 as int },
            RedisBufSplit::Error(b) => FrameSpec::ErrStr { lo: b.0 as int, hi: b.1 as int },
            RedisBufSplit::Int(i) => FrameSpec::Int(i),
            RedisBufSplit::Array(vs) => FrameSpec::Arr(
                Seq::new(vs@.len(), |i: int| if 0 <= i < vs@.len() {
                    vs@[i].model()
                } else {
                    FrameSpec::NullArr
                }),
            ),
            RedisBufSplit::NullArray => FrameSpec::NullArr,
            RedisBufSplit::NullBulkString => FrameSpec::NullBulk,
        }
    }
}

/// The models of a sequence of offset-form frames.
pub open spec fn models_of(vs: Seq<RedisBufSplit>) -> Seq<FrameSpec> {
    Seq::new(vs.len(), |i: int| vs[i].model())
}

/// All byte ranges of the frame lie inside a buffer of length `n`.
pub open spec fn frame_wf(f: FrameSpec, n: int) -> bool
    decreases f,
{
    match f {
        FrameSpec::Str { lo, hi } => 0 <= lo <= hi <= n,
        FrameSpec::ErrStr { lo, hi } => 0 <= lo <= hi <= n,
        FrameSpec::Int(_) => true,
        FrameSpec::Arr(fs) => forall|i: int| 0 <= i < fs.len() ==> frame_wf(#[trigger] fs[i], n),
        FrameSpec::NullArr => true,
        FrameSpec::NullBulk => true,
    }
}

/// A materialized frame: the same shape, but scalar payloads own their
/// bytes and no longer refer to the decode buffer.
#[derive(Debug, PartialEq)]
pub enum RedisValue {
    String(bytes::Bytes),
    Error(bytes::Bytes),
    Int(i64),
    Array(Vec<RedisValue>),
    NullArray,
    NullBulkString,
    ErrorMsg(Vec<u8>),
}

/// The model of a materialized frame.
pub enum ValueSpec {
    Str(Seq<u8>),
    ErrStr(Seq<u8>),
    Int(i64),
    Arr(Seq<ValueSpec>),
    NullArr,
    NullBulk,
    ErrMsg(Seq<u8>),
}

impl RedisValue {
    pub open spec fn model(self) -> ValueSpec
        decreases self,
    {
        match self {
            RedisValue::String(b) => ValueSpec::Str(bytes_view(b)),
            RedisValue::Error(b) => ValueSpec::ErrStr(bytes_view(b)),
            RedisValue::Int(i) => ValueSpec::Int(i),
            RedisValue::Array(vs) => ValueSpec::Arr(
                Seq::new(vs@.len(), |i: int| if 0 <= i < vs@.len() {
                    vs@[i].model()
                } else {
                    ValueSpec::NullArr
                }),
            ),
            RedisValue::NullArray => ValueSpec::NullArr,
            RedisValue::NullBulkString => ValueSpec::NullBulk,
            RedisValue::ErrorMsg(v) => ValueSpec::ErrMsg(v@),
        }
    }
}

/// What materializing a frame against buffer contents `s` yields: every
/// byte range is resolved to the bytes it points at.
pub open spec fn frame_mat(f: FrameSpec, s: Seq<u8>) -> ValueSpec
    decreases f,
{
    match f {
        FrameSpec::Str { lo, hi } => ValueSpec::Str(s.subrange(lo, hi)),
        FrameSpec::ErrStr { lo, hi } => ValueSpec::ErrStr(s.subrange(lo, hi)),
        FrameSpec::Int(i) => ValueSpec::Int(i),
        FrameSpec::Arr(fs) => ValueSpec::Arr(
            Seq::new(fs.len(), |i: int| if 0 <= i < fs.len() {
                frame_mat(fs[i], s)
            } else {
                ValueSpec::NullArr
            }),
        ),
        FrameSpec::NullArr => ValueSpec::NullArr,
        FrameSpec::NullBulk => ValueSpec::NullBulk,
    }
}

impl BufSplit {
    /// The addressed bytes, as a borrowed slice of the decode buffer.
    pub fn as_slice<'a>(&self, buf: &'a bytes::BytesMut) -> (r: &'a [u8])
        requires
            self.0 <= self.1 <= buf_view(*buf).len(),
        ensures
            r@ == buf_view(*buf).subrange(self.0 as int, self.1 as int),
    {
        vstd::slice::slice_subrange(buf_as_slice(buf), self.0, self.1)
    }

    /// The addressed bytes, as an owned handle sharing the buffer's storage.
    ///
    /// Relies on `Bytes::slice`: an O(1) handle to the given subrange.
    #[verifier::external_body]
    pub fn as_bytes(&self, buf: &bytes::Bytes) -> (r: bytes::Bytes)
        requires
            self.0 <= self.1 <= bytes_view(*buf).len(),
        ensures
            bytes_view(r) == bytes_view(*buf).subrange(self.0 as int, self.1 as int),
    {
        buf.slice(self.0..self.1)
    }
}

impl RedisBufSplit {
    /// Checks that every byte range of the frame lies inside a buffer of
    /// length `len`; materialization demands this.
    #[verifier::loop_isolation(false)]
    pub fn fits_within(&self, len: usize) -> (r: bool)
        ensures
            r == frame_wf(self.model(), len as int),
        decreases *self,
    {
        match self {
            RedisBufSplit::String(b) => b.0 <= b.1 && b.1 <= len,
            RedisBufSplit::Error(b) => b.0 <= b.1 && b.1 <= len,
            RedisBufSplit::Int(_) => true,
            RedisBufSplit::NullArray => true,
            RedisBufSplit::NullBulkString => true,
            RedisBufSplit::Array(vs) => {
                let n = vs.len();
                let mut ok = true;
                let mut k: usize = 0;
                while k < n
                    invariant
                        0 <= k <= n,
                        ok == (forall|j: int|
                            0 <= j < k ==> frame_wf(#[trigger] vs@[j].model(), len as int)),
                    decreases n - k,
                {
                    let fits = slice_index_get(vs.as_slice(), k).fits_within(len);
                    ok = ok && fits;
                    k = k + 1;
                }
                proof {
                    let fs = self.model()->Arr_0;
                    assert(fs.len() == vs@.len());
                    if ok {
                        assert forall|i: int| 0 <= i < fs.len() implies frame_wf(
                            #[trigger] fs[i],
                            len as int,
                        ) by {
                            assert(fs[i] == vs@[i].model());
                            assert(frame_wf(vs@[i].model(), len as int));
                        }
                        assert(frame_wf(self.model(), len as int));
                    } else {
                        let j = choose|j: int|
                            0 <= j < vs@.len() && !frame_wf(#[trigger] vs@[j].model(), len as int);
                        assert(fs[j] == vs@[j].model());
                        assert(!frame_wf(self.model(), len as int));
                    }
                }
                ok
            },
        }
    }

    /// Materializes the frame against the buffer it was decoded from.
    pub fn redis_value(self, buf: &bytes::Bytes) -> (r: RedisValue)
        requires
            frame_wf(self.model(), bytes_view(*buf).len() as int),
        ensures
            r.model() == frame_mat(self.model(), bytes_view(*buf)),
    {
        materialize_ref(&self, buf)
    }
}

/// Materializes one frame; recursion worker for `RedisBufSplit::redis_value`.
#[verifier::loop_isolation(false)]
fn materialize_ref(f: &RedisBufSplit, buf: &bytes::Bytes) -> (r: RedisValue)
    requires
        frame_wf(f.model(), bytes_view(*buf).len() as int),
    ensures
        r.model() == frame_mat(f.model(), bytes_view(*buf)),
    decreases *f,
{
    match f {
        RedisBufSplit::String(bfs) => RedisValue::String(bfs.as_bytes(buf)),
        RedisBufSplit::Error(bfs) => RedisValue::Error(bfs.as_bytes(buf)),
        RedisBufSplit::Int(i) => RedisValue::Int(*i),
        RedisBufSplit::NullArray => RedisValue::NullArray,
        RedisBufSplit::NullBulkString => RedisValue::NullBulkString,
        RedisBufSplit::Array(vs) => {
            let n = vs.len();
            let mut out: Vec<RedisValue> = Vec::new();
            let mut k: usize = 0;
            while k < n
                invariant
                    0 <= k <= n,
                    out@.len() == k,
                    forall|j: int|
                        0 <= j < k ==> #[trigger] out@[j].model() == frame_mat(
                            vs@[j].model(),
                            bytes_view(*buf),
                        ),
                decreases n - k,
            {
                let e = slice_index_get(vs.as_slice(), k);
                proof {
                    let fs = f.model()->Arr_0;
                    assert(fs[k as int] == vs@[k as int].model());
                }
                out.push(materialize_ref(e, buf));
                k = k + 1;
            }
            let rv = RedisValue::Array(out);
            proof {
                let a = rv.model()->Arr_0;
                let b = frame_mat(f.model(), bytes_view(*buf))->Arr_0;
                let fs = f.model()->Arr_0;
                assert(a.len() == b.len());
                assert forall|i: int| 0 <= i < a.len() implies a[i] == b[i] by {
                    assert(fs[i] == vs@[i].model());
                    assert(out@[i].model() == frame_mat(vs@[i].model(), bytes_view(*buf)));
                }
                assert(a =~= b);
            }
            rv
        },
    }
}

/// Appends a copy of `s` to `out`.
#[verifier::loop_isolation(false)]
pub fn extend_from(out: &mut Vec<u8>, s: &[u8])
    ensures
        final(out)@ == old(out)@ + s@,
{
    let n = s.len();
    let mut k: usize = 0;
    while k < n
        invariant
            0 <= k <= n,
            out@ == old(out)@ + s@.subrange(0, k as int),
        decreases n - k,
    {
        out.push(*slice_index_get(s, k));
        k = k + 1;
        proof {
            assert(out@ =~= old(out)@ + s@.subrange(0, k as int));
        }
    }
    proof {
        assert(s@.subrange(0, n as int) =~= s@);
    }
}

/// The wire encoding of a simple string: `+<payload>\r\n`.
pub open spec fn spec_encode_simple(p: Seq<u8>) -> Seq<u8> {
    seq![43u8] + p + seq![13u8, 10u8]
}

/// The wire encoding of a bulk string: `$<len>\r\n<payload>\r\n`.
pub open spec fn spec_encode_bulk(p: Seq<u8>) -> Seq<u8> {
    seq![36u8] + dec_rep(p.len()) + seq![13u8, 10u8] + p + seq![13u8, 10u8]
}

/// The wire encoding of the null bulk string: `$-1\r\n`.
pub open spec fn spec_encode_nil() -> Seq<u8> {
    seq![36u8, 45u8, 49u8, 13u8, 10u8]
}

/// Serializes a payload as a simple string frame.
pub fn write_simple_string(b: bytes::Bytes) -> (r: bytes::Bytes)
    ensures
        bytes_view(r) == spec_encode_simple(bytes_view(b)),
{
    let s = bytes_as_slice(&b);
    let mut out: Vec<u8> = Vec::new();
    out.push(43u8);
    extend_from(&mut out, s);
    out.push(13u8);
    out.push(10u8);
    proof {
        assert(out@ =~= spec_encode_simple(bytes_view(b)));
    }
    bytes_from_vec(out)
}

/// Serializes a payload as a bulk string frame, length prefix included.
pub fn write_bulk_string(b: bytes::Bytes) -> (r: bytes::Bytes)
    ensures
        bytes_view(r) == spec_encode_bulk(bytes_view(b)),
{
    let s = bytes_as_slice(&b);
    let mut out: Vec<u8> = Vec::new();
    out.push(36u8);
    crate::num::push_dec(s.len() as u64, &mut out);
    out.push(13u8);
    out.push(10u8);
    extend_from(&mut out, s);
    out.push(13u8);
    out.push(10u8);
    proof {
        assert(out@ =~= spec_encode_bulk(bytes_view(b)));
    }
    bytes_from_vec(out)
}

/// Serializes the null bulk string reply.
pub fn write_bulk_string_nil() -> (r: bytes::Bytes)
    ensures
        bytes_view(r) == spec_encode_nil(),
{
    let mut out: Vec<u8> = Vec::new();
    out.push(36u8);
    out.push(45u8);
    out.push(49u8);
    out.push(13u8);
    out.push(10u8);
    proof {
        assert(out@ =~= spec_encode_nil());
    }
    bytes_from_vec(out)
}

/// The result of one dispatched command, consumed by the encoders.
#[derive(Debug, PartialEq)]
pub enum ReturnValue {
    Okay,
    StringRes(bytes::Bytes),
    MultiStringRes(Vec<bytes::Bytes>),
    Array(Vec<ReturnValue>),
    IntRes(i64),
    Nil,
}

/// The model of a command result.
pub enum RetSpec {
    OkRes,
    StringRes(Seq<u8>),
    MultiStringRes(Seq<Seq<u8>>),
    ArrayRes(Seq<RetSpec>),
    IntRes(i64),
    NilRes,
}

impl ReturnValue {
    pub open spec fn model(self) -> RetSpec
        decreases self,
    {
        match self {
            ReturnValue::Okay => RetSpec::OkRes,
            ReturnValue::StringRes(b) => RetSpec::StringRes(bytes_view(b)),
            ReturnValue::MultiStringRes(bs) => RetSpec::MultiStringRes(
                Seq::new(bs@.len(), |i: int| bytes_view(bs@[i])),
            ),
            ReturnValue::Array(vs) => RetSpec::ArrayRes(
                Seq::new(vs@.len(), |i: int| if 0 <= i < vs@.len() {
                    vs@[i].model()
                } else {
                    RetSpec::NilRes
                }),
            ),
            ReturnValue::IntRes(i) => RetSpec::IntRes(i),
            ReturnValue::Nil => RetSpec::NilRes,
        }
    }
}

} // verus!
