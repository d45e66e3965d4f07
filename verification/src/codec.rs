//! The wire-format codec: recursive descent over a byte buffer, producing one
//! frame and the exact number of bytes it occupies.

use vstd::prelude::*;
use crate::frame::CR;
use crate::frame::LF;
use crate::frame::FrameModel;
use crate::frame::dec_repr;
use crate::frame::Value;
use crate::frame::frames_of;

verus! {

/// A malformed frame: the reason parsing stopped.
#[derive(Clone, Copy, Debug, PartialEq, Eq, Structural)]
pub enum ProtocolError {
    /// The buffer is empty where a frame was expected.
    Empty,
    /// The leading byte names no known frame type.
    UnknownType,
    /// An expected CRLF terminator is missing or misplaced.
    MissingCrlf,
    /// A length or count header is not a decimal integer in range.
    InvalidInteger,
    /// A bulk string declares a negative byte length.
    NegativeLength,
    /// A bulk string declares more bytes than the buffer holds.
    Truncated,
    /// A text payload is not well-formed UTF-8.
    InvalidUtf8,
    /// Arrays nest deeper than the parser admits.
    DepthExceeded,
}

/// How deep arrays may nest.
pub const MAX_DEPTH: u32 = 32;

/// The position of the first CRLF pair at or after `i`, if any.
pub open spec fn find_crlf(b: Seq<u8>, i: int) -> Option<int>
    decreases b.len() - i,
{
    if i < 0 || i + 2 > b.len() {
        None
    } else if b[i] == CR && b[i + 1] == LF {
        Some(i)
    } else {
        find_crlf(b, i + 1)
    }
}

pub open spec fn is_digit(c: u8) -> bool {
    48 <= c <= 57
}

/// A UTF-8 continuation byte.
pub open spec fn is_cont(c: u8) -> bool {
    0x80 <= c <= 0xBF
}

/// Whether `s` is well-formed UTF-8: each scalar value in its shortest
/// encoding, surrogates and values past U+10FFFF excluded.
pub open spec fn is_utf8(s: Seq<u8>) -> bool
    decreases s.len(),
{
    if s.len() == 0 {
        true
    } else {
        let b0 = s[0];
        if b0 < 0x80 {
            is_utf8(s.skip(1))
        } else if 0xC2 <= b0 && b0 <= 0xDF {
            s.len() >= 2 && is_cont(s[1]) && is_utf8(s.skip(2))
        } else if b0 == 0xE0 {
            s.len() >= 3 && 0xA0 <= s[1] && s[1] <= 0xBF && is_cont(s[2]) && is_utf8(s.skip(3))
        } else if 0xE1 <= b0 && b0 <= 0xEF && b0 != 0xED {
            s.len() >= 3 && is_cont(s[1]) && is_cont(s[2]) && is_utf8(s.skip(3))
        } else if b0 == 0xED {
            s.len() >= 3 && 0x80 <= s[1] && s[1] <= 0x9F && is_cont(s[2]) && is_utf8(s.skip(3))
        } else if b0 == 0xF0 {
            s.len() >= 4 && 0x90 <= s[1] && s[1] <= 0xBF && is_cont(s[2]) && is_cont(s[3])
                && is_utf8(s.skip(4))
        } else if 0xF1 <= b0 && b0 <= 0xF3 {
            s.len() >= 4 && is_cont(s[1]) && is_cont(s[2]) && is_cont(s[3]) && is_utf8(s.skip(4))
        } else if b0 == 0xF4 {
            s.len() >= 4 && 0x80 <= s[1] && s[1] <= 0x8F && is_cont(s[2]) && is_cont(s[3])
                && is_utf8(s.skip(4))
        } else {
            false
        }
    }
}

pub open spec fn all_digits(s: Seq<u8>) -> bool {
    forall|k: int| 0 <= k < s.len() ==> is_digit(#[trigger] s[k])
}

/// The value of a digit string, most significant digit first.
pub open spec fn digits_val(s: Seq<u8>) -> int
    decreases s.len(),
{
    if s.len() == 0 {
        0
    } else {
        digits_val(s.drop_last()) * 10 + (s.last() - 48)
    }
}

/// The signed decimal integer a header field holds: an optional `+` or `-`
/// sign, then at least one digit, valued within `i64`.
pub open spec fn spec_parse_int(s: Seq<u8>) -> Option<int> {
    if s.len() > 0 && (s[0] == 43 || s[0] == 45) {
        let digits = s.subrange(1, s.len() as int);
        if digits.len() > 0 && all_digits(digits) && digits_val(digits) <= i64::MAX {
            Some(if s[0] == 45 { -digits_val(digits) } else { digits_val(digits) })
        } else {
            None
        }
    } else if s.len() > 0 && all_digits(s) && digits_val(s) <= i64::MAX {
        Some(digits_val(s))
    } else {
        None
    }
}

/// One frame read at position `i`, with the count of bytes it occupies,
/// or the error that position holds.
pub open spec fn spec_parse_at(b: Seq<u8>, i: int, depth: nat) -> Result<(FrameModel, int), ProtocolError>
    decreases depth, 0int, 0int,
{
    if i < 0 || i >= b.len() {
        Err(ProtocolError::Empty)
    } else if b[i] == 43 {
        match find_crlf(b, i + 1) {
            Some(j) => if !is_utf8(b.subrange(i + 1, j)) {
                Err(ProtocolError::InvalidUtf8)
            } else {
                Ok((FrameModel::SimpleString(b.subrange(i + 1, j)), j + 2 - i))
            },
            None => Err(ProtocolError::MissingCrlf),
        }
    } else if b[i] == 36 {
        match find_crlf(b, i + 1) {
            Some(j) => match spec_parse_int(b.subrange(i + 1, j)) {
                Some(len) => if len < 0 {
                    Err(ProtocolError::NegativeLength)
                } else if j + 2 + len + 2 > b.len() {
                    Err(ProtocolError::Truncated)
                } else if !(b[j + 2 + len] == CR && b[j + 2 + len + 1] == LF) {
                    Err(ProtocolError::MissingCrlf)
                } else if !is_utf8(b.subrange(j + 2, j + 2 + len)) {
                    Err(ProtocolError::InvalidUtf8)
                } else {
                    Ok((FrameModel::BulkString(b.subrange(j + 2, j + 2 + len)), j + 2 + len + 2 - i))
                },
                None => Err(ProtocolError::InvalidInteger),
            },
            None => Err(ProtocolError::MissingCrlf),
        }
    } else if b[i] == 42 {
        match find_crlf(b, i + 1) {
            Some(j) => match spec_parse_int(b.subrange(i + 1, j)) {
                Some(n) => if depth == 0 {
                    Err(ProtocolError::DepthExceeded)
                } else {
                    let cnt: nat = if n > 0 { n as nat } else { 0 };
                    match spec_parse_elems(b, j + 2, cnt, (depth - 1) as nat) {
                        Ok((elems, c)) => Ok((FrameModel::Array(elems), (j + 2 - i) + c)),
                        Err(e) => Err(e),
                    }
                },
                None => Err(ProtocolError::InvalidInteger),
            },
            None => Err(ProtocolError::MissingCrlf),
        }
    } else {
        Err(ProtocolError::UnknownType)
    }
}

/// `n` frames read one after another from position `i`: their models and
/// the total count of bytes they occupy.
pub open spec fn spec_parse_elems(b: Seq<u8>, i: int, n: nat, depth: nat) -> Result<(Seq<FrameModel>, int), ProtocolError>
    decreases depth, 1int, n,
{
    if n == 0 {
        Ok((Seq::empty(), 0))
    } else {
        match spec_parse_elems(b, i, (n - 1) as nat, depth) {
            Ok((fs, c)) => match spec_parse_at(b, i + c, depth) {
                Ok((f, c2)) => Ok((fs.push(f), c + c2)),
                Err(e) => Err(e),
            },
            Err(e) => Err(e),
        }
    }
}

/// Once a prefix of the elements fails to parse, asking for more elements
/// reports the same error.
proof fn lemma_elems_err_mono(b: Seq<u8>, i: int, m: nat, n: nat, depth: nat)
    requires
        m <= n,
        spec_parse_elems(b, i, m, depth) is Err,
    ensures
        spec_parse_elems(b, i, n, depth) == spec_parse_elems(b, i, m, depth),
    decreases n,
{
    if n > m {
        lemma_elems_err_mono(b, i, m, (n - 1) as nat, depth);
    }
}

/// A digit string is worth at least any of its prefixes, and nothing less
/// than zero.
proof fn lemma_digits_val_mono(s: Seq<u8>, k: int)
    requires
        all_digits(s),
        0 <= k <= s.len(),
    ensures
        0 <= digits_val(s.subrange(0, k)) <= digits_val(s),
    decreases s.len(),
{
    if s.len() == 0 {
        assert(s.subrange(0, k) =~= s);
    } else if k == s.len() {
        assert(s.subrange(0, k) =~= s);
        lemma_digits_val_mono(s.drop_last(), s.len() - 1);
        assert(s.drop_last().subrange(0, s.len() - 1) =~= s.drop_last());
    } else {
        assert(s.drop_last().subrange(0, k) =~= s.subrange(0, k));
        lemma_digits_val_mono(s.drop_last(), k);
    }
}

/// Scans for the first CRLF pair at or after `start`, reporting the position
/// of its `\r`.
pub fn read_until_crlf(b: &Vec<u8>, start: usize) -> (r: Option<usize>)
    ensures
        match r {
            Some(j) => find_crlf(b@, start as int) == Some(j as int)
                && start <= j && j + 2 <= b.len(),
            None => find_crlf(b@, start as int) is None,
        },
{
    if b.len() < 2 || start > b.len() - 2 {
        return None;
    }
    let mut j: usize = start;
    while j <= b.len() - 2
        invariant
            start <= j,
            j <= b.len() - 1,
            b.len() >= 2,
            find_crlf(b@, start as int) == find_crlf(b@, j as int),
        decreases b.len() - j,
    {
        if b[j] == CR && b[j + 1] == LF {
            return Some(j);
        }
        j = j + 1;
    }
    None
}

/// Reads the signed decimal integer held in `b[start..end)`.
#[verifier::loop_isolation(false)]
pub fn parse_int(b: &Vec<u8>, start: usize, end: usize) -> (r: Result<i64, ProtocolError>)
    requires
        start <= end <= b.len(),
    ensures
        match r {
            Ok(v) => spec_parse_int(b@.subrange(start as int, end as int)) == Some(v as int),
            Err(e) => spec_parse_int(b@.subrange(start as int, end as int)) is None
                && e == ProtocolError::InvalidInteger,
        },
{
    let ghost whole = b@.subrange(start as int, end as int);
    let mut i: usize = start;
    let mut neg: bool = false;
    if end - start >= 1 && (b[start] == 43 || b[start] == 45) {
        neg = b[start] == 45;
        i = start + 1;
    }
    proof {
        assert(whole.subrange(i - start, whole.len() as int) =~= b@.subrange(i as int, end as int));
    }
    if i == end {
        return Err(ProtocolError::InvalidInteger);
    }
    let ghost digits = b@.subrange(i as int, end as int);
    let mut acc: u128 = 0;
    let mut j: usize = i;
    while j < end
        invariant
            start <= i <= j <= end <= b.len(),
            digits == b@.subrange(i as int, end as int),
            all_digits(b@.subrange(i as int, j as int)),
            acc == digits_val(b@.subrange(i as int, j as int)),
            acc <= i64::MAX,
        decreases end - j,
    {
        let c = b[j];
        if c < 48 || c > 57 {
            proof {
                assert(!is_digit(digits[j - i]));
            }
            return Err(ProtocolError::InvalidInteger);
        }
        acc = acc * 10 + ((c - 48) as u128);
        j = j + 1;
        proof {
            let pref = b@.subrange(i as int, j as int);
            assert(pref.drop_last() =~= b@.subrange(i as int, j - 1));
            assert(pref.last() == c);
        }
        if acc > i64::MAX as u128 {
            proof {
                if all_digits(digits) {
                    lemma_digits_val_mono(digits, j - i);
                    assert(digits.subrange(0, j - i) =~= b@.subrange(i as int, j as int));
                }
            }
            return Err(ProtocolError::InvalidInteger);
        }
    }
    proof {
        assert(b@.subrange(i as int, j as int) =~= digits);
    }
    let v: i64 = if neg {
        -(acc as i64)
    } else {
        acc as i64
    };
    Ok(v)
}

/// Copies `b[from..to)` into a fresh vector.
fn copy_range(b: &Vec<u8>, from: usize, to: usize) -> (r: Vec<u8>)
    requires
        from <= to <= b.len(),
    ensures
        r@ == b@.subrange(from as int, to as int),
{
    let mut out: Vec<u8> = Vec::new();
    let mut i: usize = from;
    while i < to
        invariant
            from <= i <= to <= b.len(),
            out@ == b@.subrange(from as int, i as int),
        decreases to - i,
    {
        out.push(b[i]);
        i = i + 1;
        proof {
            assert(out@ =~= b@.subrange(from as int, i as int));
        }
    }
    out
}

/// Checks that `b[from..to)` is well-formed UTF-8.
#[verifier::loop_isolation(false)]
fn validate_utf8(b: &Vec<u8>, from: usize, to: usize) -> (r: bool)
    requires
        from <= to <= b.len(),
    ensures
        r == is_utf8(b@.subrange(from as int, to as int)),
{
    let mut pos: usize = from;
    while pos < to
        invariant
            from <= pos <= to,
            is_utf8(b@.subrange(from as int, to as int))
                == is_utf8(b@.subrange(pos as int, to as int)),
        decreases to - pos,
    {
        let ghost rem = b@.subrange(pos as int, to as int);
        let b0 = b[pos];
        let n: usize = if b0 < 0x80 {
            1
        } else if 0xC2 <= b0 && b0 <= 0xDF {
            2
        } else if 0xE0 <= b0 && b0 <= 0xEF {
            3
        } else if 0xF0 <= b0 && b0 <= 0xF4 {
            4
        } else {
            return false;
        };
        if to - pos < n {
            return false;
        }
        if n >= 2 {
            let b1 = b[pos + 1];
            let lo: u8 = if b0 == 0xE0 {
                0xA0
            } else if b0 == 0xF0 {
                0x90
            } else {
                0x80
            };
            let hi: u8 = if b0 == 0xED {
                0x9F
            } else if b0 == 0xF4 {
                0x8F
            } else {
                0xBF
            };
            if b1 < lo || b1 > hi {
                return false;
            }
        }
        if n >= 3 {
            let b2 = b[pos + 2];
            if b2 < 0x80 || b2 > 0xBF {
                return false;
            }
        }
        if n >= 4 {
            let b3 = b[pos + 3];
            if b3 < 0x80 || b3 > 0xBF {
                return false;
            }
        }
        proof {
            assert(rem.skip(n as int) =~= b@.subrange(pos + n, to as int));
        }
        pos = pos + n;
    }
    proof {
        assert(b@.subrange(pos as int, to as int) =~= Seq::<u8>::empty());
    }
    true
}

/// Reads one frame at position `i`, `depth` levels of array nesting allowed.
#[verifier::loop_isolation(false)]
fn parse_at(b: &Vec<u8>, i: usize, depth: u32) -> (r: Result<(Value, usize), ProtocolError>)
    requires
        i <= b.len(),
    ensures
        match r {
            Ok((v, c)) => spec_parse_at(b@, i as int, depth as nat)
                == Ok::<(FrameModel, int), ProtocolError>((v@, c as int))
                && 1 <= c && i + c <= b.len(),
            Err(e) => spec_parse_at(b@, i as int, depth as nat)
                == Err::<(FrameModel, int), ProtocolError>(e),
        },
    decreases depth,
{
    if i >= b.len() {
        return Err(ProtocolError::Empty);
    }
    let tag = b[i];
    if tag == 43 {
        match read_until_crlf(b, i + 1) {
            Some(j) => {
                if !validate_utf8(b, i + 1, j) {
                    return Err(ProtocolError::InvalidUtf8);
                }
                let payload = copy_range(b, i + 1, j);
                Ok((Value::SimpleString(payload), j + 2 - i))
            }
            None => Err(ProtocolError::MissingCrlf),
        }
    } else if tag == 36 {
        match read_until_crlf(b, i + 1) {
            Some(j) => {
                let len = match parse_int(b, i + 1, j) {
                    Ok(v) => v,
                    Err(e) => {
                        return Err(e);
                    }
                };
                if len < 0 {
                    return Err(ProtocolError::NegativeLength);
                }
                let need: u128 = (j as u128) + 4 + (len as u128);
                if need > b.len() as u128 {
                    return Err(ProtocolError::Truncated);
                }
                let payload_end: usize = j + 2 + (len as usize);
                if !(b[payload_end] == CR && b[payload_end + 1] == LF) {
                    return Err(ProtocolError::MissingCrlf);
                }
                if !validate_utf8(b, j + 2, payload_end) {
                    return Err(ProtocolError::InvalidUtf8);
                }
                let payload = copy_range(b, j + 2, payload_end);
                Ok((Value::BulkString(payload), payload_end + 2 - i))
            }
            None => Err(ProtocolError::MissingCrlf),
        }
    } else if tag == 42 {
        match read_until_crlf(b, i + 1) {
            Some(j) => {
                let n = match parse_int(b, i + 1, j) {
                    Ok(v) => v,
                    Err(e) => {
                        return Err(e);
                    }
                };
                if depth == 0 {
                    return Err(ProtocolError::DepthExceeded);
                }
                let cnt: u64 = if n > 0 {
                    n as u64
                } else {
                    0
                };
                let ghost d2 = (depth - 1) as nat;
                let mut items: Vec<Value> = Vec::new();
                let mut pos: usize = j + 2;
                let mut k: u64 = 0;
                proof {
                    assert(frames_of(items@) =~= Seq::<FrameModel>::empty());
                }
                while k < cnt
                    invariant
                        j + 2 <= pos <= b.len(),
                        k <= cnt,
                        items@.len() == k,
                        d2 == depth - 1,
                        i <= j,
                        spec_parse_elems(b@, j + 2, k as nat, d2)
                            == Ok::<(Seq<FrameModel>, int), ProtocolError>(
                                (frames_of(items@), pos - (j + 2))),
                    decreases cnt - k,
                {
                    match parse_at(b, pos, (depth - 1) as u32) {
                        Ok((f, c)) => {
                            let ghost old_items = items@;
                            items.push(f);
                            proof {
                                assert(frames_of(items@) =~= frames_of(old_items).push(f@));
                            }
                            pos = pos + c;
                            k = k + 1;
                        }
                        Err(e) => {
                            proof {
                                assert(spec_parse_elems(b@, j + 2, (k + 1) as nat, d2)
                                    == Err::<(Seq<FrameModel>, int), ProtocolError>(e));
                                lemma_elems_err_mono(b@, j + 2, (k + 1) as nat, cnt as nat, d2);
                            }
                            return Err(e);
                        }
                    }
                }
                proof {
                    crate::frame::lemma_array_view(items);
                }
                Ok((Value::Array(items), pos - i))
            }
            None => Err(ProtocolError::MissingCrlf),
        }
    } else {
        Err(ProtocolError::UnknownType)
    }
}

/// Whether `s` holds no CRLF pair, so that a simple string carrying it
/// stays self-delimiting on the wire.
pub open spec fn no_crlf(s: Seq<u8>) -> bool {
    forall|k: int| 0 <= k && k + 1 < s.len() ==> !((#[trigger] s[k]) == CR && s[k + 1] == LF)
}

proof fn lemma_find_crlf_at(b: Seq<u8>, i: int, j: int)
    requires
        0 <= i <= j,
        j + 2 <= b.len(),
        b[j] == CR,
        b[j + 1] == LF,
        forall|k: int| i <= k < j ==> !((#[trigger] b[k]) == CR && b[k + 1] == LF),
    ensures
        find_crlf(b, i) == Some(j),
    decreases j - i,
{
    if i < j {
        lemma_find_crlf_at(b, i + 1, j);
    }
}

proof fn lemma_dec_repr_props(n: nat)
    ensures
        dec_repr(n).len() >= 1,
        all_digits(dec_repr(n)),
        digits_val(dec_repr(n)) == n,
    decreases n,
{
    if n < 10 {
        let s = dec_repr(n);
        assert(s.drop_last() =~= Seq::<u8>::empty());
        assert(s.last() == (48 + n) as u8);
        assert((48 + n) as u8 == 48 + n);
        assert(digits_val(s) == digits_val(Seq::<u8>::empty()) * 10 + ((48 + n) - 48));
    } else {
        lemma_dec_repr_props(n / 10);
        let s = dec_repr(n);
        let p = dec_repr(n / 10);
        assert(s.drop_last() =~= p);
        assert(s.last() == (48 + n % 10) as u8);
        assert forall|k: int| 0 <= k < s.len() implies is_digit(s[k]) by {
            if k < s.len() - 1 {
                assert(s[k] == p[k]);
            }
        }
    }
}

proof fn lemma_parse_int_dec_repr(n: nat)
    requires
        n <= i64::MAX,
    ensures
        spec_parse_int(dec_repr(n)) == Some(n as int),
{
    lemma_dec_repr_props(n);
    assert(is_digit(dec_repr(n)[0]));
}

/// Round trip for simple strings: the wire encoding of `SimpleString(s)`
/// parses back to exactly that frame, consuming the whole encoding — so
/// re-serializing what was parsed reproduces the bytes.
pub proof fn lemma_round_trip_simple(s: Seq<u8>, depth: nat)
    requires
        no_crlf(s),
        is_utf8(s),
    ensures
        ({
            let b = crate::frame::spec_serialize(FrameModel::SimpleString(s));
            spec_parse_at(b, 0, depth)
                == Ok::<(FrameModel, int), ProtocolError>((FrameModel::SimpleString(s), b.len() as int))
        }),
{
    let b = crate::frame::spec_serialize(FrameModel::SimpleString(s));
    let n = s.len() as int;
    assert(b.len() == n + 3);
    assert(b[0] == 43);
    assert(b[n + 1] == CR);
    assert(b[n + 2] == LF);
    assert forall|k: int| 1 <= k < n + 1 implies !((#[trigger] b[k]) == CR && b[k + 1] == LF) by {
        assert(b[k] == s[k - 1]);
        if k < n {
            assert(b[k + 1] == s[k]);
        } else {
            assert(b[k + 1] == CR);
        }
    }
    lemma_find_crlf_at(b, 1, n + 1);
    assert(b.subrange(1, n + 1) =~= s);
}

/// Round trip for bulk strings: the wire encoding of `BulkString(s)` parses
/// back to exactly that frame, consuming the whole encoding — so
/// re-serializing what was parsed reproduces the bytes.
pub proof fn lemma_round_trip_bulk(s: Seq<u8>, depth: nat)
    requires
        s.len() <= i64::MAX,
        is_utf8(s),
    ensures
        ({
            let b = crate::frame::spec_serialize(FrameModel::BulkString(s));
            spec_parse_at(b, 0, depth)
                == Ok::<(FrameModel, int), ProtocolError>((FrameModel::BulkString(s), b.len() as int))
        }),
{
    let b = crate::frame::spec_serialize(FrameModel::BulkString(s));
    let hdr = dec_repr(s.len());
    lemma_dec_repr_props(s.len());
    let d = hdr.len() as int;
    let n = s.len() as int;
    assert(b.len() == n + d + 5);
    assert(b[0] == 36);
    assert forall|k: int| 1 <= k < 1 + d implies is_digit(#[trigger] b[k]) by {
        assert(b[k] == hdr[k - 1]);
    }
    assert(b[d + 1] == CR);
    assert(b[d + 2] == LF);
    assert forall|k: int| 1 <= k < d + 1 implies !((#[trigger] b[k]) == CR && b[k + 1] == LF) by {
        assert(is_digit(b[k]));
    }
    lemma_find_crlf_at(b, 1, d + 1);
    assert(b.subrange(1, d + 1) =~= hdr);
    lemma_parse_int_dec_repr(s.len());
    assert(b[d + 3 + n] == CR);
    assert(b[d + 3 + n + 1] == LF);
    assert(b.subrange(d + 3, d + 3 + n) =~= s);
}

/// Whether `b` is the wire encoding of some simple string.
pub open spec fn is_valid_simple_encoding(b: Seq<u8>) -> bool {
    exists|s: Seq<u8>| no_crlf(s) && is_utf8(s)
        && b == crate::frame::spec_serialize(FrameModel::SimpleString(s))
}

/// Whether `b` is the wire encoding of some bulk string.
pub open spec fn is_valid_bulk_encoding(b: Seq<u8>) -> bool {
    exists|s: Seq<u8>| s.len() <= i64::MAX && is_utf8(s)
        && b == crate::frame::spec_serialize(FrameModel::BulkString(s))
}

/// Round trip: parsing a valid simple-string or bulk-string encoding
/// consumes it whole, and serializing the parsed frame reproduces the
/// bytes exactly.
pub proof fn lemma_round_trip(b: Seq<u8>, depth: nat)
    requires
        is_valid_simple_encoding(b) || is_valid_bulk_encoding(b),
    ensures
        ({
            let r = spec_parse_at(b, 0, depth);
            r is Ok && r->Ok_0.1 == b.len()
                && crate::frame::spec_serialize(r->Ok_0.0) == b
        }),
{
    if is_valid_simple_encoding(b) {
        let s = choose|s: Seq<u8>| no_crlf(s) && is_utf8(s)
            && b == crate::frame::spec_serialize(FrameModel::SimpleString(s));
        lemma_round_trip_simple(s, depth);
    } else {
        let s = choose|s: Seq<u8>| s.len() <= i64::MAX && is_utf8(s)
            && b == crate::frame::spec_serialize(FrameModel::BulkString(s));
        lemma_round_trip_bulk(s, depth);
    }
}

/// A bulk string that declares more bytes than the buffer holds is a
/// `Truncated` protocol error — the parser never reads past the buffer.
pub proof fn lemma_bulk_truncated(b: Seq<u8>, j: int, len: int, depth: nat)
    requires
        b.len() > 0,
        b[0] == 36,
        find_crlf(b, 1) == Some(j),
        spec_parse_int(b.subrange(1, j)) == Some(len),
        0 <= len,
        j + 2 + len + 2 > b.len(),
    ensures
        spec_parse_at(b, 0, depth) == Err::<(FrameModel, int), ProtocolError>(ProtocolError::Truncated),
{
}

/// Parses one frame from the head of `buffer`, yielding the frame and the
/// exact number of bytes it occupies, or the error the buffer holds.
pub fn parse_message(buffer: &Vec<u8>) -> (r: Result<(Value, usize), ProtocolError>)
    ensures
        match r {
            Ok((v, c)) => spec_parse_at(buffer@, 0, MAX_DEPTH as nat)
                == Ok::<(FrameModel, int), ProtocolError>((v@, c as int))
                && 1 <= c && c <= buffer.len(),
            Err(e) => spec_parse_at(buffer@, 0, MAX_DEPTH as nat)
                == Err::<(FrameModel, int), ProtocolError>(e),
        },
{
    parse_at(buffer, 0, MAX_DEPTH)
}

} // verus!
