use vstd::prelude::*;
use vstd::slice::slice_subrange;

use crate::error::{ErrorKind, ObjParseError};

verus! {

/// Which attribute channels each corner of a face record refers to.
#[derive(Debug, Clone, Copy, PartialEq, Eq, Hash, Structural)]
pub enum ElementDataType {
    /// One vertex index per corner.
    VertexOnly,
    /// A vertex index and a normal index per corner.
    VertexAndNormal,
    /// A vertex, a texture-coordinate and a normal index per corner.
    All,
}

/// The tag that stands for a channel signature in the element buffer.
pub open spec fn tag_of(t: ElementDataType) -> u16 {
    match t {
        ElementDataType::VertexOnly => 0,
        ElementDataType::VertexAndNormal => 1,
        ElementDataType::All => 2,
    }
}

/// The channel signature that a tag below 3 stands for.
pub open spec fn kind_of_tag(tag: u16) -> ElementDataType {
    if tag == 0 {
        ElementDataType::VertexOnly
    } else if tag == 1 {
        ElementDataType::VertexAndNormal
    } else {
        ElementDataType::All
    }
}

/// How many index values one corner takes under a channel signature.
pub open spec fn width(t: ElementDataType) -> nat {
    match t {
        ElementDataType::VertexOnly => 1,
        ElementDataType::VertexAndNormal => 2,
        ElementDataType::All => 3,
    }
}

impl ElementDataType {
    /// The tag written into the element buffer for this signature.
    pub fn into_element_data(self) -> (r: u16)
        ensures
            r == tag_of(self),
            r < 3,
    {
        match self {
            ElementDataType::VertexOnly => 0,
            ElementDataType::VertexAndNormal => 1,
            ElementDataType::All => 2,
        }
    }

    /// The signature that a tag of the element buffer stands for.
    pub fn from_element_data(num: u16) -> (r: Self)
        requires
            num < 3,
        ensures
            r == kind_of_tag(num),
            tag_of(r) == num,
    {
        if num == 0 {
            ElementDataType::VertexOnly
        } else if num == 1 {
            ElementDataType::VertexAndNormal
        } else {
            ElementDataType::All
        }
    }
}

/// One decoded face record: its signature and its index values, `width`
/// values per corner in the order vertex, texture coordinate, normal.
pub type Record = (ElementDataType, Seq<u16>);

/// A record that the buffer can hold: whole corners, and a corner count
/// that fits the length field.
pub open spec fn record_fits(r: Record) -> bool {
    &&& r.1.len() % width(r.0) == 0
    &&& r.1.len() / width(r.0) <= u16::MAX
}

/// The buffer form of one record: tag, corner count, then the index values.
pub open spec fn encode_record(r: Record) -> Seq<u16> {
    seq![tag_of(r.0), (r.1.len() / width(r.0)) as u16] + r.1
}

/// The buffer form of a sequence of records, in order.
pub open spec fn encode_all(rs: Seq<Record>) -> Seq<u16>
    decreases rs.len(),
{
    if rs.len() == 0 {
        Seq::empty()
    } else {
        encode_record(rs[0]) + encode_all(rs.drop_first())
    }
}

/// Whether the record at the start of a non-empty buffer can be read whole.
pub open spec fn head_readable(buf: Seq<u16>) -> bool {
    &&& buf.len() >= 2
    &&& buf[0] < 3
    &&& buf.len() >= 2 + buf[1] * width(kind_of_tag(buf[0]))
}

/// How many values the record at the start of the buffer takes.
pub open spec fn head_len(buf: Seq<u16>) -> int {
    2 + buf[1] * width(kind_of_tag(buf[0]))
}

/// The record at the start of a buffer whose head is readable.
pub open spec fn head_record(buf: Seq<u16>) -> Record {
    (kind_of_tag(buf[0]), buf.subrange(2, head_len(buf)))
}

/// The records of a buffer, front to back, or `None` where some record
/// runs past the end or carries an unknown tag.
pub open spec fn decode(buf: Seq<u16>) -> Option<Seq<Record>>
    decreases buf.len(),
{
    if buf.len() == 0 {
        Some(Seq::empty())
    } else if !head_readable(buf) {
        None
    } else {
        match decode(buf.skip(head_len(buf))) {
            Some(rest) => Some(seq![head_record(buf)] + rest),
            None => None,
        }
    }
}

/// Decoding a buffer of encoded records gives those records back, in order.
pub proof fn lemma_decode_encode(rs: Seq<Record>)
    requires
        forall|i: int| 0 <= i < rs.len() ==> record_fits(#[trigger] rs[i]),
    ensures
        decode(encode_all(rs)) == Some(rs),
    decreases rs.len(),
{
    if rs.len() > 0 {
        let r = rs[0];
        let tail = rs.drop_first();
        assert forall|i: int| 0 <= i < tail.len() implies record_fits(#[trigger] tail[i]) by {
            assert(tail[i] == rs[i + 1]);
        }
        lemma_decode_encode(tail);
        let buf = encode_all(rs);
        let n = r.1.len() / width(r.0);
        assert(record_fits(rs[0]));
        assert(r.1.len() == n * width(r.0)) by (nonlinear_arith)
            requires
                r.1.len() % width(r.0) == 0,
                n == r.1.len() / width(r.0),
                width(r.0) > 0,
        ;
        assert(kind_of_tag(tag_of(r.0)) == r.0);
        assert(buf[0] == tag_of(r.0));
        assert(buf[1] == n as u16);
        assert(head_len(buf) == 2 + r.1.len());
        assert(buf.subrange(2, head_len(buf)) =~= r.1);
        assert(buf.skip(head_len(buf)) =~= encode_all(tail));
        assert(seq![r] + tail =~= rs);
    }
}

/// One decoding step: a buffer decodes to no records exactly when it is
/// empty, and otherwise its head record is the first record decoded and the
/// rest of the buffer decodes to the remaining records. Each step of
/// `ElementIter::next` is such a step.
pub proof fn lemma_decode_step(buf: Seq<u16>)
    requires
        decode(buf) is Some,
    ensures
        buf.len() == 0 <==> decode(buf)->Some_0.len() == 0,
        buf.len() > 0 ==> {
            &&& head_readable(buf)
            &&& decode(buf)->Some_0[0] == head_record(buf)
            &&& decode(buf.skip(head_len(buf))) == Some(decode(buf)->Some_0.drop_first())
        },
{
    if buf.len() > 0 {
        let rest = decode(buf.skip(head_len(buf)))->Some_0;
        assert((seq![head_record(buf)] + rest).drop_first() =~= rest);
    }
}

/// The buffer left after `j` decoding steps from the front; `ElementIter`
/// holds it after `j` calls of `next` that returned a record.
pub open spec fn after_steps(buf: Seq<u16>, j: nat) -> Seq<u16>
    decreases j,
{
    if j == 0 {
        buf
    } else {
        let prev = after_steps(buf, (j - 1) as nat);
        prev.skip(head_len(prev))
    }
}

/// Decoding step by step: after `j` steps over a buffer that decodes to
/// `rs`, the next step reads record `j` of `rs`, and after all of them the
/// buffer is used up exactly.
pub proof fn lemma_decode_nth(buf: Seq<u16>, j: nat)
    requires
        decode(buf) is Some,
        j <= decode(buf)->Some_0.len(),
    ensures
        decode(after_steps(buf, j)) == Some(decode(buf)->Some_0.skip(j as int)),
        j < decode(buf)->Some_0.len() ==> {
            &&& after_steps(buf, j).len() > 0
            &&& head_readable(after_steps(buf, j))
            &&& head_record(after_steps(buf, j)) == decode(buf)->Some_0[j as int]
        },
        j == decode(buf)->Some_0.len() ==> after_steps(buf, j).len() == 0,
    decreases j,
{
    let rs = decode(buf)->Some_0;
    if j == 0 {
        assert(rs.skip(0) =~= rs);
    } else {
        lemma_decode_nth(buf, (j - 1) as nat);
        let prev = after_steps(buf, (j - 1) as nat);
        lemma_decode_step(prev);
        assert(rs.skip(j - 1).drop_first() =~= rs.skip(j as int));
    }
    let now = after_steps(buf, j);
    lemma_decode_step(now);
    if j < rs.len() {
        assert(rs.skip(j as int)[0] == rs[j as int]);
    }
}

/// Appending a record to a sequence appends its buffer form.
pub proof fn lemma_encode_push(rs: Seq<Record>, r: Record)
    ensures
        encode_all(rs.push(r)) == encode_all(rs) + encode_record(r),
    decreases rs.len(),
{
    if rs.len() == 0 {
        assert(rs.push(r).drop_first() =~= Seq::<Record>::empty());
        assert(encode_all(rs.push(r).drop_first()) =~= Seq::<u16>::empty());
        assert(encode_all(rs.push(r)) =~= encode_record(r));
    } else {
        assert(rs.push(r).drop_first() =~= rs.drop_first().push(r));
        lemma_encode_push(rs.drop_first(), r);
        assert(encode_all(rs.push(r)) =~= encode_all(rs) + encode_record(r));
    }
}

/// A cursor over the records of an element buffer. Decoding reads the
/// buffer in place and allocates nothing.
#[derive(Debug, Clone, PartialEq)]
pub struct ElementIter<'a> {
    elements: &'a [u16],
}

impl<'a> ElementIter<'a> {
    /// The part of the buffer that has not been decoded yet.
    pub closed spec fn remaining(&self) -> Seq<u16> {
        self.elements@
    }

    /// A cursor at the start of `elements`.
    pub fn new(elements: &'a [u16]) -> (r: Self)
        ensures
            r.remaining() == elements@,
    {
        ElementIter { elements }
    }

    /// Decodes the next record: its index values and its signature.
    ///
    /// Returns `None` once the buffer is used up, and `Some(Err(..))` with
    /// `CorruptElementBuffer` where the next record runs past the end or
    /// carries an unknown tag; the cursor is then used up.
    pub fn next(&mut self) -> (r: Option<Result<(&'a [u16], ElementDataType), ObjParseError>>)
        ensures
            old(self).remaining().len() == 0 ==> r is None && final(self).remaining().len() == 0,
            old(self).remaining().len() > 0 && !head_readable(old(self).remaining()) ==> {
                &&& r matches Some(Err(e))
                &&& e.kind == (ErrorKind::CorruptElementBuffer)
                &&& final(self).remaining().len() == 0
            },
            old(self).remaining().len() > 0 && head_readable(old(self).remaining()) ==> {
                &&& r matches Some(Ok(item))
                &&& (item.1, item.0@) == head_record(old(self).remaining())
                &&& final(self).remaining() == old(self).remaining().skip(
                    head_len(old(self).remaining()),
                )
            },
    {
        let buf = self.elements;
        if buf.len() == 0 {
            return None;
        }
        if buf.len() < 2 || buf[0] >= 3 {
            self.elements = slice_subrange(buf, buf.len(), buf.len());
            return Some(Err(ObjParseError::corrupt()));
        }
        let kind = ElementDataType::from_element_data(buf[0]);
        let corners = buf[1] as usize;
        let values = match kind {
            ElementDataType::VertexOnly => corners,
            ElementDataType::VertexAndNormal => corners * 2,
            ElementDataType::All => corners * 3,
        };
        assert(values as int == head_len(buf@) - 2) by {
            assert(kind == kind_of_tag(buf@[0]));
        }
        if buf.len() - 2 < values {
            self.elements = slice_subrange(buf, buf.len(), buf.len());
            return Some(Err(ObjParseError::corrupt()));
        }
        let items = slice_subrange(buf, 2, 2 + values);
        self.elements = slice_subrange(buf, 2 + values, buf.len());
        proof {
            assert(self.elements@ =~= buf@.skip(head_len(buf@)));
        }
        Some(Ok((items, kind)))
    }
}

} // verus!
