//! Laws of the decoder, the encoders and the table.
//!
//! These proof functions state the crate-level guarantees that relate
//! several functions: decoding a strict prefix of a frame is always
//! "incomplete" and never an error, array decoding is all-or-nothing,
//! encoding a bulk string and decoding it invert each other, and the
//! `set`/`get` commands behave as a mapping under serialized access.
use vstd::prelude::*;
use crate::num::{
    spec_parse_i64, dec_rep, digits_val, is_ascii_digit, lemma_dec_rep_digits, lemma_dec_rep_val,
};
use crate::redis::{
    find_cr, spec_word, spec_integer, spec_bulk, spec_parse, spec_array, spec_parse_n,
};
use crate::types::{FrameSpec, RESPError, RetSpec, ReturnError, ValueSpec, frame_mat, spec_encode_bulk};
use crate::command::{spec_dispatch, lower, kw_set, kw_get, kw_echo, kw_ping};

verus! {

/// The decode outcome is a completed frame.
pub open spec fn is_done(r: Result<Option<(int, FrameSpec)>, RESPError>) -> bool {
    match r {
        Ok(Option::Some(_)) => true,
        _ => false,
    }
}

/// The position just past a completed frame.
pub open spec fn done_next(r: Result<Option<(int, FrameSpec)>, RESPError>) -> int {
    match r {
        Ok(Option::Some((np, _))) => np,
        _ => 0,
    }
}

/// The element-sequence outcome is complete.
pub open spec fn is_done_n(r: Result<Option<(int, Seq<FrameSpec>)>, RESPError>) -> bool {
    match r {
        Ok(Option::Some(_)) => true,
        _ => false,
    }
}

/// The position just past a completed element sequence.
pub open spec fn done_n_next(r: Result<Option<(int, Seq<FrameSpec>)>, RESPError>) -> int {
    match r {
        Ok(Option::Some((np, _))) => np,
        _ => 0,
    }
}

/// Where the carriage-return scan lands: at the first one in range.
proof fn lemma_find_cr(s: Seq<u8>, pos: int)
    requires
        0 <= pos,
    ensures
        match find_cr(s, pos) {
            Option::Some(e) => pos <= e < s.len() && s[e] == 13u8 && (forall|j: int|
                pos <= j < e ==> s[j] != 13u8),
            Option::None => forall|j: int| pos <= j < s.len() ==> s[j] != 13u8,
        },
    decreases s.len() - pos,
{
    if pos < s.len() && s[pos] != 13u8 {
        lemma_find_cr(s, pos + 1);
    }
}

/// The scan finds exactly the carriage return that ends a region free of
/// them.
proof fn lemma_find_cr_region(s: Seq<u8>, pos: int, e: int)
    requires
        0 <= pos <= e < s.len(),
        s[e] == 13u8,
        forall|j: int| pos <= j < e ==> s[j] != 13u8,
    ensures
        find_cr(s, pos) == Some(e),
    decreases e - pos,
{
    if pos < e {
        lemma_find_cr_region(s, pos + 1, e);
    }
}

/// A completed word lies between its position and the buffer end.
proof fn lemma_word_bounds(s: Seq<u8>, pos: int)
    requires
        0 <= pos,
    ensures
        spec_word(s, pos) matches Some((next, lo, hi)) ==> lo == pos <= hi && hi + 2 == next
            && pos < next <= s.len(),
{
    lemma_find_cr(s, pos);
}

/// A completed frame ends past its position and inside the buffer.
pub proof fn lemma_parse_bounds(s: Seq<u8>, pos: int)
    requires
        0 <= pos,
    ensures
        spec_parse(s, pos) matches Ok(Some((np, f))) ==> pos < np <= s.len(),
    decreases s.len() - pos, 0int, 0int,
{
    if s.len() > 0 && 0 <= pos < s.len() {
        lemma_word_bounds(s, pos + 1);
        if s[pos] == 42u8 {
            lemma_array_bounds(s, pos + 1);
        }
    }
}

/// A completed array ends past its position and inside the buffer.
pub proof fn lemma_array_bounds(s: Seq<u8>, pos: int)
    requires
        0 <= pos,
    ensures
        spec_array(s, pos) matches Ok(Some((np, f))) ==> pos < np <= s.len(),
    decreases s.len() - pos, 0int, 0int,
{
    lemma_word_bounds(s, pos);
    if let Ok(Option::Some((next, count))) = spec_integer(s, pos) {
        if count >= 0 && pos < next <= s.len() {
            lemma_parse_n_bounds(s, next, count as int);
        }
    }
}

/// A completed element sequence ends inside the buffer and holds exactly
/// the demanded number of elements.
pub proof fn lemma_parse_n_bounds(s: Seq<u8>, pos: int, n: int)
    requires
        0 <= pos <= s.len(),
    ensures
        spec_parse_n(s, pos, n) matches Ok(Some((end, elems))) ==> pos <= end <= s.len()
            && elems.len() == (if n <= 0 { 0int } else { n }),
    decreases s.len() - pos, 1int, n,
{
    if n > 0 {
        lemma_parse_bounds(s, pos);
        if let Ok(Option::Some((np, f))) = spec_parse(s, pos) {
            if pos < np <= s.len() {
                lemma_parse_n_bounds(s, np, n - 1);
            }
        }
    }
}

/// Truncating the buffer at or past a completed word keeps the word;
/// truncating it anywhere earlier (but at or past the scan position)
/// makes the word incomplete.
proof fn lemma_word_take(s: Seq<u8>, pos: int, m: int)
    requires
        0 <= pos,
        0 <= m <= s.len(),
    ensures
        spec_word(s, pos) matches Some((next, lo, hi)) ==> {
            &&& next <= m ==> spec_word(s.take(m), pos) == spec_word(s, pos)
            &&& pos <= m < next ==> spec_word(s.take(m), pos) is None
        },
{
    lemma_find_cr(s, pos);
    let t = s.take(m);
    if let Some((next, lo, hi)) = spec_word(s, pos) {
        lemma_find_cr(t, pos);
        if next <= m {
            lemma_find_cr_region(t, pos, hi);
        } else if pos <= m {
            if m == hi + 1 {
                lemma_find_cr_region(t, pos, hi);
            } else {
                if pos < t.len() {
                    if let Some(e2) = find_cr(t, pos) {
                        assert(s[e2] == 13u8 && pos <= e2 < m);
                        assert(false);
                    }
                }
            }
        }
    }
}

/// As `lemma_word_take`, for the scanned integer.
proof fn lemma_integer_take(s: Seq<u8>, pos: int, m: int)
    requires
        0 <= pos,
        0 <= m <= s.len(),
    ensures
        spec_integer(s, pos) matches Ok(Some((next, i))) ==> {
            &&& next <= m ==> spec_integer(s.take(m), pos) == spec_integer(s, pos)
            &&& pos <= m < next ==> spec_integer(s.take(m), pos) == Ok::<
                Option<(int, i64)>,
                RESPError,
            >(None)
        },
{
    lemma_word_bounds(s, pos);
    lemma_word_take(s, pos, m);
    if let Some((next, lo, hi)) = spec_word(s, pos) {
        if next <= m {
            assert(s.take(m).subrange(lo, hi) =~= s.subrange(lo, hi));
        }
    }
}

/// Bytes past a completed frame play no part in it, and a truncation
/// short of its end makes decoding incomplete, never an error.
pub proof fn lemma_parse_take(s: Seq<u8>, pos: int, m: int)
    requires
        0 <= pos,
        0 <= m <= s.len(),
        is_done(spec_parse(s, pos)),
    ensures
        done_next(spec_parse(s, pos)) <= m ==> spec_parse(s.take(m), pos) == spec_parse(s, pos),
        pos <= m < done_next(spec_parse(s, pos)) ==> spec_parse(s.take(m), pos) == Ok::<
            Option<(int, FrameSpec)>,
            RESPError,
        >(None),
    decreases s.len() - pos, 0int, 0int,
{
    let t = s.take(m);
    lemma_parse_bounds(s, pos);
    if m <= pos {
    } else {
        assert(t[pos] == s[pos]);
        if s[pos] == 43u8 {
            lemma_word_take(s, pos + 1, m);
        } else if s[pos] == 36u8 {
            lemma_integer_take(s, pos + 1, m);
            lemma_word_bounds(s, pos + 1);
        } else if s[pos] == 58u8 {
            lemma_integer_take(s, pos + 1, m);
        } else if s[pos] == 42u8 {
            lemma_array_take(s, pos + 1, m);
        }
    }
}

/// As `lemma_parse_take`, for the array body.
proof fn lemma_array_take(s: Seq<u8>, pos: int, m: int)
    requires
        0 <= pos,
        0 <= m <= s.len(),
        is_done(spec_array(s, pos)),
    ensures
        done_next(spec_array(s, pos)) <= m ==> spec_array(s.take(m), pos) == spec_array(s, pos),
        pos <= m < done_next(spec_array(s, pos)) ==> spec_array(s.take(m), pos) == Ok::<
            Option<(int, FrameSpec)>,
            RESPError,
        >(None),
    decreases s.len() - pos, 0int, 0int,
{
    lemma_word_bounds(s, pos);
    lemma_integer_take(s, pos, m);
    if let Ok(Option::Some((next, count))) = spec_integer(s, pos) {
        if count >= 0 {
            lemma_parse_n_bounds(s, next, count as int);
            if next <= m {
                lemma_parse_n_take(s, next, count as int, m);
            }
        }
    }
}

/// As `lemma_parse_take`, for a fixed number of frames in sequence.
proof fn lemma_parse_n_take(s: Seq<u8>, pos: int, n: int, m: int)
    requires
        0 <= pos <= s.len(),
        0 <= m <= s.len(),
        is_done_n(spec_parse_n(s, pos, n)),
    ensures
        done_n_next(spec_parse_n(s, pos, n)) <= m ==> spec_parse_n(s.take(m), pos, n)
            == spec_parse_n(s, pos, n),
        pos <= m < done_n_next(spec_parse_n(s, pos, n)) ==> spec_parse_n(s.take(m), pos, n)
            == Ok::<Option<(int, Seq<FrameSpec>)>, RESPError>(None),
    decreases s.len() - pos, 1int, n,
{
    if n <= 0 {
    } else {
        lemma_parse_bounds(s, pos);
        if let Ok(Option::Some((np, f))) = spec_parse(s, pos) {
            lemma_parse_take(s, pos, m);
            lemma_parse_n_bounds(s, np, n - 1);
            if np <= m {
                lemma_parse_n_take(s, np, n - 1, m);
            }
        }
    }
}

/// Decoding any strict prefix of a completed frame reports "incomplete"
/// (`Ok(None)`): never an error and never a frame.
pub proof fn lemma_prefix_incomplete(s: Seq<u8>, pos: int, m: int)
    requires
        0 <= pos <= m <= s.len(),
        is_done(spec_parse(s, pos)),
        m < done_next(spec_parse(s, pos)),
    ensures
        spec_parse(s.take(m), pos) == Ok::<Option<(int, FrameSpec)>, RESPError>(None),
{
    lemma_parse_take(s, pos, m);
}

/// Array decoding is all-or-nothing: when the first `k` elements decode
/// completely but the next element is incomplete, decoding any demanded
/// count above `k` reports incomplete, and no partial element list is
/// ever surfaced.
pub proof fn lemma_array_all_or_nothing(s: Seq<u8>, pos: int, n: int, k: int)
    requires
        0 <= pos <= s.len(),
        0 <= k < n,
        is_done_n(spec_parse_n(s, pos, k)),
        spec_parse(s, done_n_next(spec_parse_n(s, pos, k))) == Ok::<
            Option<(int, FrameSpec)>,
            RESPError,
        >(None),
    ensures
        spec_parse_n(s, pos, n) == Ok::<Option<(int, Seq<FrameSpec>)>, RESPError>(None),
    decreases k,
{
    if k == 0 {
    } else {
        lemma_parse_bounds(s, pos);
        if let Ok(Option::Some((np, f))) = spec_parse(s, pos) {
            if pos < np <= s.len() {
                lemma_array_all_or_nothing(s, np, n - 1, k - 1);
            }
        }
    }
}

/// Encoding a payload as a bulk string and decoding the encoding from
/// position 0 yields exactly one frame covering the whole encoding, and
/// materializing that frame gives the payload back: the decoder inverts
/// the encoder.
pub proof fn lemma_bulk_round_trip(b: Seq<u8>)
    requires
        b.len() <= 0x7fff_ffff_ffff_ffff,
    ensures
        ({
            let enc = spec_encode_bulk(b);
            spec_parse(enc, 0) matches Ok(Some((np, f))) && np == enc.len() && frame_mat(f, enc)
                == ValueSpec::Str(b)
        }),
{
    let enc = spec_encode_bulk(b);
    let d = dec_rep(b.len());
    lemma_dec_rep_digits(b.len());
    lemma_dec_rep_val(b.len());
    let dlen = d.len() as int;
    assert(enc.len() == 1 + dlen + 2 + b.len() + 2);
    assert(enc[0] == 36u8);
    assert forall|j: int| 1 <= j < 1 + dlen implies enc[j] == d[j - 1] && enc[j] != 13u8 by {
        assert(is_ascii_digit(d[j - 1]));
    }
    assert(enc[1 + dlen] == 13u8);
    lemma_find_cr_region(enc, 1, 1 + dlen);
    assert(spec_word(enc, 1) == Some((3 + dlen, 1int, 1 + dlen)));
    let w = enc.subrange(1, 1 + dlen);
    assert(w =~= d);
    assert(spec_parse_i64(d) == Some(b.len() as i64)) by {
        assert(is_ascii_digit(d[0]));
        assert(d[0] != 43u8 && d[0] != 45u8);
        assert(digits_val(d) == b.len());
    }
    assert(spec_integer(enc, 1) == Ok::<Option<(int, i64)>, RESPError>(
        Some((3 + dlen, b.len() as i64)),
    ));
    let lo = 3 + dlen;
    let hi = lo + b.len() as int;
    assert(spec_bulk(enc, 1) == Ok::<Option<(int, FrameSpec)>, RESPError>(
        Some((enc.len() as int, FrameSpec::Str { lo, hi })),
    ));
    assert(spec_parse(enc, 0) == spec_bulk(enc, 1));
    assert(enc.subrange(lo, hi) =~= b);
}

/// A serialized `set` followed by a `get` on the same key — from this or
/// any other connection, since all commands go through the same table —
/// answers exactly the stored value as a bulk string, and the `set`
/// itself answers the previous value as a bulk string when one existed,
/// else plain OK.
pub proof fn lemma_set_then_get(
    m: Map<Seq<u8>, Seq<u8>>,
    k: Seq<u8>,
    v: Seq<u8>,
    hset: Seq<u8>,
    hget: Seq<u8>,
)
    requires
        lower(hset) == kw_set(),
        lower(hget) == kw_get(),
    ensures
        ({
            let set_cmd = ValueSpec::Arr(seq![ValueSpec::Str(hset), ValueSpec::Str(k), ValueSpec::Str(v)]);
            let get_cmd = ValueSpec::Arr(seq![ValueSpec::Str(hget), ValueSpec::Str(k)]);
            let (r1, m1) = spec_dispatch(set_cmd, m);
            let (r2, m2) = spec_dispatch(get_cmd, m1);
            &&& m1 == m.insert(k, v)
            &&& r1 == if m.contains_key(k) {
                Ok::<RetSpec, ReturnError>(RetSpec::StringRes(spec_encode_bulk(m[k])))
            } else {
                Ok::<RetSpec, ReturnError>(RetSpec::OkRes)
            }
            &&& r2 == Ok::<RetSpec, ReturnError>(RetSpec::StringRes(spec_encode_bulk(v)))
            &&& m2 == m1
        }),
{
    lemma_keywords_distinct();
}

/// A `get` on a key the table does not hold answers nil (which the
/// driver writes as the null bulk string), and leaves the table alone.
pub proof fn lemma_get_absent(m: Map<Seq<u8>, Seq<u8>>, k: Seq<u8>, hget: Seq<u8>)
    requires
        lower(hget) == kw_get(),
        !m.contains_key(k),
    ensures
        ({
            let get_cmd = ValueSpec::Arr(seq![ValueSpec::Str(hget), ValueSpec::Str(k)]);
            let (r, m2) = spec_dispatch(get_cmd, m);
            r == Ok::<RetSpec, ReturnError>(RetSpec::NilRes) && m2 == m
        }),
{
    lemma_keywords_distinct();
}

/// A second `set` on a key already stored answers the first value as a
/// bulk string — never plain OK — and leaves the second value stored.
pub proof fn lemma_set_overwrite(
    m: Map<Seq<u8>, Seq<u8>>,
    k: Seq<u8>,
    v1: Seq<u8>,
    v2: Seq<u8>,
    hset: Seq<u8>,
)
    requires
        lower(hset) == kw_set(),
    ensures
        ({
            let set1 = ValueSpec::Arr(seq![ValueSpec::Str(hset), ValueSpec::Str(k), ValueSpec::Str(v1)]);
            let set2 = ValueSpec::Arr(seq![ValueSpec::Str(hset), ValueSpec::Str(k), ValueSpec::Str(v2)]);
            let (r1, m1) = spec_dispatch(set1, m);
            let (r2, m2) = spec_dispatch(set2, m1);
            &&& r2 == Ok::<RetSpec, ReturnError>(RetSpec::StringRes(spec_encode_bulk(v1)))
            &&& m2 == m.insert(k, v1).insert(k, v2)
            &&& m2[k] == v2
        }),
{
    lemma_keywords_distinct();
}

/// Two serialized `set` commands on one key — the driver's lock admits
/// no other interleaving — leave exactly the later command's value in
/// the table: in either order the stored value is one of the two written
/// values in full, never a mixture of their bytes.
pub proof fn lemma_serialized_sets_last_wins(
    m: Map<Seq<u8>, Seq<u8>>,
    k: Seq<u8>,
    v1: Seq<u8>,
    v2: Seq<u8>,
    hset: Seq<u8>,
)
    requires
        lower(hset) == kw_set(),
    ensures
        ({
            let set1 = ValueSpec::Arr(seq![ValueSpec::Str(hset), ValueSpec::Str(k), ValueSpec::Str(v1)]);
            let set2 = ValueSpec::Arr(seq![ValueSpec::Str(hset), ValueSpec::Str(k), ValueSpec::Str(v2)]);
            let first_then_second = spec_dispatch(set2, spec_dispatch(set1, m).1).1;
            let second_then_first = spec_dispatch(set1, spec_dispatch(set2, m).1).1;
            &&& first_then_second[k] == v2
            &&& second_then_first[k] == v1
            &&& (first_then_second[k] == v1 || first_then_second[k] == v2)
            &&& (second_then_first[k] == v1 || second_then_first[k] == v2)
        }),
{
    lemma_keywords_distinct();
}

/// The four command keywords are pairwise distinct byte strings.
proof fn lemma_keywords_distinct()
    ensures
        kw_echo() != kw_ping(),
        kw_echo() != kw_set(),
        kw_echo() != kw_get(),
        kw_ping() != kw_set(),
        kw_ping() != kw_get(),
        kw_set() != kw_get(),
{
    assert(kw_echo()[0] == 101u8 && kw_ping()[0] == 112u8);
    assert(kw_set()[0] == 115u8 && kw_get()[0] == 103u8);
    assert(kw_echo().len() == 4 && kw_ping().len() == 4);
    assert(kw_set().len() == 3 && kw_get().len() == 3);
}

} // verus!
