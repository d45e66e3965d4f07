//! The frame model of the wire protocol: a tagged value for the four wire
//! types, its mathematical model, and the serializer for the reply subset.

use vstd::prelude::*;

verus! {

/// One self-delimiting unit of the wire protocol. Payloads are raw bytes:
/// a bulk string is binary-safe, so the byte sequence is the value.
#[derive(Debug, PartialEq, Eq)]
pub enum Value {
    SimpleString(Vec<u8>),
    BulkString(Vec<u8>),
    Array(Vec<Value>),
    NullBulkString,
}

/// The mathematical model of a `Value`: the same tree over `Seq<u8>`.
pub enum FrameModel {
    SimpleString(Seq<u8>),
    BulkString(Seq<u8>),
    Array(Seq<FrameModel>),
    NullBulkString,
}

impl View for Value {
    type V = FrameModel;

    open spec fn view(&self) -> FrameModel
        decreases self,
    {
        match self {
            Value::SimpleString(s) => FrameModel::SimpleString(s@),
            Value::BulkString(s) => FrameModel::BulkString(s@),
            Value::Array(items) => FrameModel::Array(
                Seq::new(items@.len(), |k: int| if 0 <= k < items@.len() {
                    items@[k]@
                } else {
                    FrameModel::NullBulkString
                }),
            ),
            Value::NullBulkString => FrameModel::NullBulkString,
        }
    }
}

/// The models of the frames of `s`, in order.
pub open spec fn frames_of(s: Seq<Value>) -> Seq<FrameModel> {
    Seq::new(s.len(), |k: int| if 0 <= k < s.len() {
        s[k]@
    } else {
        FrameModel::NullBulkString
    })
}

/// An array frame's model is the array over its elements' models.
pub proof fn lemma_array_view(items: Vec<Value>)
    ensures
        (Value::Array(items))@ == FrameModel::Array(frames_of(items@)),
{
    let m = (Value::Array(items))@;
    assert(m->Array_0 =~= frames_of(items@));
}

pub const CR: u8 = 13;
pub const LF: u8 = 10;

/// The canonical decimal digits of `n`, most significant first, no sign and
/// no leading zero (a single `0` for zero).
pub open spec fn dec_repr(n: nat) -> Seq<u8>
    decreases n,
{
    if n < 10 {
        seq![(48 + n) as u8]
    } else {
        dec_repr(n / 10) + seq![(48 + n % 10) as u8]
    }
}

/// The wire bytes of a frame of the reply subset. An array is never emitted,
/// so its image here is empty and callers keep arrays out.
pub open spec fn spec_serialize(f: FrameModel) -> Seq<u8>
    recommends !(f is Array),
{
    match f {
        FrameModel::SimpleString(s) => seq![43u8] + s + seq![CR, LF],
        FrameModel::BulkString(s) => seq![36u8] + dec_repr(s.len()) + seq![CR, LF] + s + seq![CR, LF],
        FrameModel::NullBulkString => seq![36u8, 45u8, 49u8, CR, LF],
        FrameModel::Array(_) => seq![],
    }
}

/// Appends the decimal digits of `n` to `out`.
fn push_decimal(n: u64, out: &mut Vec<u8>)
    ensures
        final(out)@ == old(out)@ + dec_repr(n as nat),
    decreases n,
{
    if n < 10 {
        out.push((48 + n) as u8);
    } else {
        push_decimal(n / 10, out);
        out.push((48 + (n % 10)) as u8);
    }
}

/// Appends every byte of `src` to `out`.
fn push_bytes(src: &Vec<u8>, out: &mut Vec<u8>)
    ensures
        final(out)@ == old(out)@ + src@,
{
    let mut i: usize = 0;
    while i < src.len()
        invariant
            i <= src.len(),
            out@ == old(out)@ + src@.subrange(0, i as int),
        decreases src.len() - i,
    {
        out.push(src[i]);
        i = i + 1;
        proof {
            assert(out@ =~= old(out)@ + src@.subrange(0, i as int));
        }
    }
    proof {
        assert(src@.subrange(0, src.len() as int) =~= src@);
    }
}

/// Whether two byte strings hold the same bytes.
pub fn bytes_eq(a: &Vec<u8>, b: &Vec<u8>) -> (r: bool)
    ensures
        r == (a@ == b@),
{
    if a.len() != b.len() {
        return false;
    }
    let mut i: usize = 0;
    while i < a.len()
        invariant
            i <= a.len(),
            a.len() == b.len(),
            forall|k: int| 0 <= k < i ==> a@[k] == b@[k],
        decreases a.len() - i,
    {
        if a[i] != b[i] {
            return false;
        }
        i = i + 1;
    }
    proof {
        assert(a@ =~= b@);
    }
    true
}

impl Value {
    /// Serializes a frame of the reply subset into its wire bytes. The
    /// server never emits an array, so arrays are excluded up front.
    pub fn serialize(&self) -> (r: Vec<u8>)
        requires
            !(self@ is Array),
        ensures
            r@ == spec_serialize(self@),
    {
        let mut out: Vec<u8> = Vec::new();
        match self {
            Value::SimpleString(s) => {
                out.push(43);
                push_bytes(s, &mut out);
                out.push(CR);
                out.push(LF);
            }
            Value::BulkString(s) => {
                out.push(36);
                push_decimal(s.len() as u64, &mut out);
                out.push(CR);
                out.push(LF);
                push_bytes(s, &mut out);
                out.push(CR);
                out.push(LF);
            }
            Value::NullBulkString => {
                out.push(36);
                out.push(45);
                out.push(49);
                out.push(CR);
                out.push(LF);
            }
            Value::Array(_) => {
                return unreached();
            }
        }
        proof {
            assert(out@ =~= spec_serialize(self@));
        }
        out
    }

    /// Serializes any frame the reply subset covers; `None` on an array.
    pub fn try_serialize(&self) -> (r: Option<Vec<u8>>)
        ensures
            match r {
                Some(bytes) => !(self@ is Array) && bytes@ == spec_serialize(self@),
                None => self@ is Array,
            },
    {
        match self {
            Value::Array(_) => None,
            _ => Some(self.serialize()),
        }
    }
}

} // verus!
