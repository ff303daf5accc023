//! Command dispatch.
//!
//! A materialized frame is interpreted as a command against the table:
//! only string and array frames are commands, the head is matched
//! case-insensitively (ASCII), and `spec_dispatch` states exactly which
//! reply each command produces and how the table changes.  Replies carry
//! their wire encoding, as the encoders produce it.
use vstd::prelude::*;
use vstd::slice::slice_index_get;
use crate::bufview::{bytes_view, bytes_as_slice, bytes_from_vec, bytes_clone};
use crate::table::Table;
use crate::types::{
    RedisValue, ValueSpec, ReturnValue, RetSpec, ReturnError, spec_encode_simple,
    spec_encode_bulk, write_simple_string, write_bulk_string,
};

verus! {

/// ASCII lowercasing of one byte.
pub open spec fn lower_byte(b: u8) -> u8 {
    if 65 <= b && b <= 90 {
        (b + 32) as u8
    } else {
        b
    }
}

/// ASCII lowercasing of a byte string; command names match through it.
pub open spec fn lower(s: Seq<u8>) -> Seq<u8> {
    Seq::new(s.len(), |i: int| lower_byte(s[i]))
}

pub open spec fn kw_echo() -> Seq<u8> {
    seq![101u8, 99u8, 104u8, 111u8]
}

pub open spec fn kw_ping() -> Seq<u8> {
    seq![112u8, 105u8, 110u8, 103u8]
}

pub open spec fn kw_set() -> Seq<u8> {
    seq![115u8, 101u8, 116u8]
}

pub open spec fn kw_get() -> Seq<u8> {
    seq![103u8, 101u8, 116u8]
}

/// The `PONG` reply payload.
pub open spec fn pong() -> Seq<u8> {
    seq![80u8, 79u8, 78u8, 71u8]
}

/// Which command a head byte string names, after ASCII lowercasing.
#[derive(Debug, Clone, Copy, PartialEq, Eq, Structural)]
pub enum Cmd {
    Echo,
    Ping,
    SetCmd,
    GetCmd,
    Other,
}

pub open spec fn spec_cmd(s: Seq<u8>) -> Cmd {
    if lower(s) == kw_echo() {
        Cmd::Echo
    } else if lower(s) == kw_ping() {
        Cmd::Ping
    } else if lower(s) == kw_set() {
        Cmd::SetCmd
    } else if lower(s) == kw_get() {
        Cmd::GetCmd
    } else {
        Cmd::Other
    }
}

/// A materialized value coerced to its byte string; command heads and
/// arguments must be byte strings.
pub open spec fn spec_coerce(v: ValueSpec) -> Result<Seq<u8>, ReturnError> {
    match v {
        ValueSpec::Str(s) => Ok(s),
        _ => Err(ReturnError::UnknownType),
    }
}

/// A string frame as a command: `echo` echoes the command name itself as
/// a simple string; `ping` answers `PONG`.
pub open spec fn spec_handle_string(s: Seq<u8>) -> Result<RetSpec, ReturnError> {
    match spec_cmd(s) {
        Cmd::Echo => Ok(RetSpec::StringRes(spec_encode_simple(s))),
        Cmd::Ping => Ok(RetSpec::StringRes(spec_encode_simple(pong()))),
        _ => Err(ReturnError::UnknownCommand),
    }
}

/// An array frame as a command: the head names the command, the rest are
/// its arguments.  `echo` answers its argument as a bulk string; `ping`
/// answers `PONG` and ignores extra elements; `set` stores its third
/// element under its second and answers the previous value, if any, as a
/// bulk string; `get` answers the stored value as a bulk string or nil.
pub open spec fn spec_handle_array(elems: Seq<ValueSpec>, m: Map<Seq<u8>, Seq<u8>>) -> (Result<
    RetSpec,
    ReturnError,
>, Map<Seq<u8>, Seq<u8>>) {
    if elems.len() < 1 {
        (Err(ReturnError::ArityError), m)
    } else {
        match spec_coerce(elems[0]) {
            Err(e) => (Err(e), m),
            Ok(head) => match spec_cmd(head) {
                Cmd::Echo => if elems.len() < 2 {
                    (Err(ReturnError::ArityError), m)
                } else {
                    match spec_coerce(elems[1]) {
                        Err(e) => (Err(e), m),
                        Ok(arg) => (Ok(RetSpec::StringRes(spec_encode_bulk(arg))), m),
                    }
                },
                Cmd::Ping => (Ok(RetSpec::StringRes(spec_encode_simple(pong()))), m),
                Cmd::SetCmd => if elems.len() < 3 {
                    (Err(ReturnError::ArityError), m)
                } else {
                    match spec_coerce(elems[1]) {
                        Err(e) => (Err(e), m),
                        Ok(key) => match spec_coerce(elems[2]) {
                            Err(e) => (Err(e), m),
                            Ok(value) => (
                                if m.contains_key(key) {
                                    Ok(RetSpec::StringRes(spec_encode_bulk(m[key])))
                                } else {
                                    Ok(RetSpec::OkRes)
                                },
                                m.insert(key, value),
                            ),
                        },
                    }
                },
                Cmd::GetCmd => if elems.len() < 2 {
                    (Err(ReturnError::ArityError), m)
                } else {
                    match spec_coerce(elems[1]) {
                        Err(e) => (Err(e), m),
                        Ok(key) => (
                            if m.contains_key(key) {
                                Ok(RetSpec::StringRes(spec_encode_bulk(m[key])))
                            } else {
                                Ok(RetSpec::NilRes)
                            },
                            m,
                        ),
                    }
                },
                Cmd::Other => (Err(ReturnError::UnknownCommand), m),
            },
        }
    }
}

/// One command against the table: the reply and the table afterwards.
/// Only string and array frames are commands; `get` is the one reader
/// and `set` the one writer of the table.
pub open spec fn spec_dispatch(v: ValueSpec, m: Map<Seq<u8>, Seq<u8>>) -> (Result<
    RetSpec,
    ReturnError,
>, Map<Seq<u8>, Seq<u8>>) {
    match v {
        ValueSpec::Str(s) => (spec_handle_string(s), m),
        ValueSpec::Arr(elems) => spec_handle_array(elems, m),
        _ => (Err(ReturnError::UnknownType), m),
    }
}

/// The models of a sequence of materialized values.
pub open spec fn value_models(vs: Seq<RedisValue>) -> Seq<ValueSpec> {
    Seq::new(vs.len(), |i: int| vs[i].model())
}

/// The exec dispatch result agrees with the spec reply.
pub open spec fn ret_matches(r: Result<ReturnValue, ReturnError>, m: Result<
    RetSpec,
    ReturnError,
>) -> bool {
    match (r, m) {
        (Ok(v), Ok(sv)) => v.model() == sv,
        (Err(e1), Err(e2)) => e1 == e2,
        _ => false,
    }
}

/// ASCII lowercasing of one byte.
fn lower_byte_ex(b: u8) -> (r: u8)
    ensures
        r == lower_byte(b),
{
    if 65u8 <= b && b <= 90u8 {
        b + 32
    } else {
        b
    }
}

/// Names the command that a head byte string denotes.
#[verifier::loop_isolation(false)]
pub fn cmd_of(s: &[u8]) -> (r: Cmd)
    ensures
        r == spec_cmd(s@),
{
    let n = s.len();
    let mut low: Vec<u8> = Vec::new();
    let mut k: usize = 0;
    while k < n
        invariant
            0 <= k <= n,
            low@.len() == k,
            forall|j: int| 0 <= j < k ==> low@[j] == lower_byte(s@[j]),
        decreases n - k,
    {
        low.push(lower_byte_ex(*slice_index_get(s, k)));
        k = k + 1;
    }
    proof {
        assert(low@ =~= lower(s@));
    }
    let r: Cmd = if n == 4 && low[0] == 101u8 && low[1] == 99u8 && low[2] == 104u8 && low[3]
        == 111u8 {
        Cmd::Echo
    } else if n == 4 && low[0] == 112u8 && low[1] == 105u8 && low[2] == 110u8 && low[3] == 103u8 {
        Cmd::Ping
    } else if n == 3 && low[0] == 115u8 && low[1] == 101u8 && low[2] == 116u8 {
        Cmd::SetCmd
    } else if n == 3 && low[0] == 103u8 && low[1] == 101u8 && low[2] == 116u8 {
        Cmd::GetCmd
    } else {
        Cmd::Other
    };
    proof {
        if r == Cmd::Echo {
            assert(lower(s@) =~= kw_echo());
        } else if r == Cmd::Ping {
            assert(lower(s@) =~= kw_ping());
        } else if r == Cmd::SetCmd {
            assert(lower(s@) =~= kw_set());
        } else if r == Cmd::GetCmd {
            assert(lower(s@) =~= kw_get());
        } else {
            assert(lower(s@) != kw_echo() && lower(s@) != kw_ping() && lower(s@) != kw_set()
                && lower(s@) != kw_get()) by {
                assert(kw_echo().len() == 4 && kw_ping().len() == 4 && kw_set().len() == 3
                    && kw_get().len() == 3);
            }
        }
    }
    r
}

/// The `PONG` payload as an owned byte handle.
fn pong_bytes() -> (r: bytes::Bytes)
    ensures
        bytes_view(r) == pong(),
{
    let mut v: Vec<u8> = Vec::new();
    v.push(80u8);
    v.push(79u8);
    v.push(78u8);
    v.push(71u8);
    proof {
        assert(v@ =~= pong());
    }
    bytes_from_vec(v)
}

/// Coerces a materialized value to its byte string, as `spec_coerce`
/// describes.
fn coerce_bytes(v: &RedisValue) -> (r: Result<bytes::Bytes, ReturnError>)
    ensures
        match r {
            Ok(b) => spec_coerce(v.model()) == Ok::<Seq<u8>, ReturnError>(bytes_view(b)),
            Err(e) => spec_coerce(v.model()) == Err::<Seq<u8>, ReturnError>(e),
        },
{
    match v {
        RedisValue::String(b) => Ok(bytes_clone(b)),
        _ => Err(ReturnError::UnknownType),
    }
}

/// The bytes of a handle as an owned vector.
fn vec_of_bytes(b: &bytes::Bytes) -> (r: Vec<u8>)
    ensures
        r@ == bytes_view(*b),
{
    let mut out: Vec<u8> = Vec::new();
    crate::types::extend_from(&mut out, bytes_as_slice(b));
    proof {
        assert(out@ =~= bytes_view(*b));
    }
    out
}

impl ReturnValue {
    /// A string frame as a command, as `spec_handle_string` describes.
    pub fn handle_string(b: bytes::Bytes) -> (r: Result<ReturnValue, ReturnError>)
        ensures
            ret_matches(r, spec_handle_string(bytes_view(b))),
    {
        let cmd = cmd_of(bytes_as_slice(&b));
        match cmd {
            Cmd::Echo => Ok(ReturnValue::StringRes(write_simple_string(b))),
            Cmd::Ping => Ok(ReturnValue::StringRes(write_simple_string(pong_bytes()))),
            _ => Err(ReturnError::UnknownCommand),
        }
    }

    /// An array frame as a command against the table, as
    /// `spec_handle_array` describes.
    pub fn handle_array(a: Vec<RedisValue>, state: &mut Table) -> (r: Result<
        ReturnValue,
        ReturnError,
    >)
        ensures
            ret_matches(r, spec_handle_array(value_models(a@), old(state)@).0),
            final(state)@ == spec_handle_array(value_models(a@), old(state)@).1,
    {
        if a.len() < 1 {
            return Err(ReturnError::ArityError);
        }
        let head = match coerce_bytes(slice_index_get(a.as_slice(), 0)) {
            Ok(b) => b,
            Err(e) => {
                return Err(e);
            },
        };
        let cmd = cmd_of(bytes_as_slice(&head));
        match cmd {
            Cmd::Echo => {
                if a.len() < 2 {
                    return Err(ReturnError::ArityError);
                }
                match coerce_bytes(slice_index_get(a.as_slice(), 1)) {
                    Ok(arg) => Ok(ReturnValue::StringRes(write_bulk_string(arg))),
                    Err(e) => Err(e),
                }
            },
            Cmd::Ping => Ok(ReturnValue::StringRes(write_simple_string(pong_bytes()))),
            Cmd::SetCmd => {
                if a.len() < 3 {
                    return Err(ReturnError::ArityError);
                }
                let key = match coerce_bytes(slice_index_get(a.as_slice(), 1)) {
                    Ok(b) => b,
                    Err(e) => {
                        return Err(e);
                    },
                };
                let value = match coerce_bytes(slice_index_get(a.as_slice(), 2)) {
                    Ok(b) => b,
                    Err(e) => {
                        return Err(e);
                    },
                };
                let kv = vec_of_bytes(&key);
                let vv = vec_of_bytes(&value);
                match state.insert(kv, vv) {
                    Some(old_value) => Ok(
                        ReturnValue::StringRes(write_bulk_string(bytes_from_vec(old_value))),
                    ),
                    None => Ok(ReturnValue::Okay),
                }
            },
            Cmd::GetCmd => {
                if a.len() < 2 {
                    return Err(ReturnError::ArityError);
                }
                let key = match coerce_bytes(slice_index_get(a.as_slice(), 1)) {
                    Ok(b) => b,
                    Err(e) => {
                        return Err(e);
                    },
                };
                match state.get(bytes_as_slice(&key)) {
                    Some(value) => Ok(
                        ReturnValue::StringRes(write_bulk_string(bytes_from_vec(value))),
                    ),
                    None => Ok(ReturnValue::Nil),
                }
            },
            Cmd::Other => Err(ReturnError::UnknownCommand),
        }
    }

    /// Interprets one materialized frame as a command against the table,
    /// as `spec_dispatch` describes.
    pub fn parse_redis_value(value: RedisValue, state: &mut Table) -> (r: Result<
        ReturnValue,
        ReturnError,
    >)
        ensures
            ret_matches(r, spec_dispatch(value.model(), old(state)@).0),
            final(state)@ == spec_dispatch(value.model(), old(state)@).1,
    {
        match value {
            RedisValue::String(cmd) => ReturnValue::handle_string(cmd),
            RedisValue::Array(cmd) => {
                proof {
                    assert(RedisValue::Array(cmd).model()->Arr_0 =~= value_models(cmd@));
                }
                ReturnValue::handle_array(cmd, state)
            },
            _ => Err(ReturnError::UnknownType),
        }
    }
}

} // verus!
