//! Messages: how fields merge into a message and how a message is written, for any message type.
use super::wire::{
    encode_varint, field_at, key, lemma_field_at_len, lemma_field_at_more, lemma_key_round_trip,
    lemma_varint_bound,
    lemma_varint_round_trip, read_field, varint_bytes, Field, FieldView, ValueView,
};
use crate::util::append;
use vstd::prelude::*;

verus! {

/// A message of the schema.
///
/// A field that is absent has its type's default value. A field that occurs again replaces a
/// scalar and merges into a message; an unknown field is ignored; a known field of another wire
/// type is an error.
pub trait Message: View + Sized {
    /// The message without any field.
    spec fn blank() -> Self::V;

    /// The message `m` after the field `f`, or nothing if the field is in error. `depth` bounds how
    /// deep what is nested in the message may be nested.
    spec fn merged(m: Self::V, f: FieldView, depth: nat) -> Option<Self::V>;

    /// The bytes of the message `m`: its fields in the order of their tags, without those that have
    /// their default value.
    spec fn encoded(m: Self::V) -> Seq<u8>;

    /// A message without any field.
    fn empty() -> (m: Self)
        ensures
            m@ == Self::blank(),
    ;

    /// The message after one more field, or nothing if the field is in error.
    fn merge_field(self, f: &Field, depth: u32) -> (merged: Option<Self>)
        ensures
            view_of(merged) == Self::merged(self@, f@, depth as nat),
    ;

    /// The bytes of the message.
    fn encode(&self) -> (bytes: Vec<u8>)
        ensures
            bytes@ == Self::encoded(self@),
    ;
}

/// The message `m` after all fields of `b`, in order, or nothing if one is in error.
pub open spec fn parsed<M: Message>(m: M::V, b: Seq<u8>, depth: nat) -> Option<M::V>
    decreases b.len(),
{
    if b.len() == 0 {
        Some(m)
    } else {
        match field_at(b, depth) {
            None => None,
            Some((f, rest)) => match M::merged(m, f, depth) {
                None => None,
                Some(next) => if rest.len() < b.len() {
                    parsed::<M>(next, rest, depth)
                } else {
                    None
                },
            },
        }
    }
}

/// A length-delimited field.
pub open spec fn delimited(tag: u32, content: Seq<u8>) -> Seq<u8> {
    varint_bytes(key(tag, 2)) + (varint_bytes(content.len()) + content)
}

/// A number, written unless it is zero.
pub open spec fn varint_field(tag: u32, v: u64) -> Seq<u8> {
    if v == 0 {
        Seq::empty()
    } else {
        varint_bytes(key(tag, 0)) + varint_bytes(v as nat)
    }
}

/// A byte string, written unless it is empty.
pub open spec fn bytes_field(tag: u32, content: Seq<u8>) -> Seq<u8> {
    if content.len() == 0 {
        Seq::empty()
    } else {
        delimited(tag, content)
    }
}

/// A message within a message, written if it is there, even without any field.
pub open spec fn message_field<M: Message>(tag: u32, m: Option<M::V>) -> Seq<u8> {
    match m {
        None => Seq::empty(),
        Some(m) => delimited(tag, M::encoded(m)),
    }
}

/// The contents of a message that may be absent.
pub open spec fn view_of<M: View>(m: Option<M>) -> Option<M::V> {
    match m {
        None => None,
        Some(m) => Some(m@),
    }
}

/// A nested message after one more occurrence of its field.
pub open spec fn merged_message<M: Message>(
    m: Option<M::V>,
    content: Seq<u8>,
    depth: nat,
) -> Option<M::V> {
    let before = match m {
        None => M::blank(),
        Some(m) => m,
    };
    if depth == 0 {
        None
    } else {
        parsed::<M>(before, content, (depth - 1) as nat)
    }
}

/// Reading `written` takes the message `start` to `after`, whatever is read next.
#[verifier::opaque]
pub open spec fn reads<M: Message>(start: M::V, written: Seq<u8>, after: M::V, depth: nat) -> bool {
    forall|rest: Seq<u8>| #[trigger]
        parsed::<M>(start, written + rest, depth) == parsed::<M>(after, rest, depth)
}

pub proof fn lemma_reads_nothing<M: Message>(start: M::V, depth: nat)
    ensures
        reads::<M>(start, Seq::empty(), start, depth),
{
    reveal(reads);
    assert forall|rest: Seq<u8>| #[trigger]
        parsed::<M>(start, Seq::empty() + rest, depth) == parsed::<M>(start, rest, depth) by {
        assert(Seq::<u8>::empty() + rest =~= rest);
    }
}

pub proof fn lemma_reads_whole<M: Message>(start: M::V, written: Seq<u8>, after: M::V, depth: nat)
    requires
        reads::<M>(start, written, after, depth),
    ensures
        parsed::<M>(start, written, depth) == Some(after),
{
    reveal(reads);
    assert(written + Seq::empty() =~= written);
}

/// A number that is written as a field is merged as it was.
pub proof fn lemma_reads_varint<M: Message>(
    start: M::V,
    written: Seq<u8>,
    before: M::V,
    tag: u32,
    v: u64,
    after: M::V,
    depth: nat,
)
    requires
        reads::<M>(start, written, before, depth),
        1 <= tag < 0x2000_0000,
        depth > 0,
        if v == 0 {
            after == before
        } else {
            M::merged(before, FieldView { tag, value: ValueView::Varint(v) }, depth) == Some(after)
        },
    ensures
        reads::<M>(start, written + varint_field(tag, v), after, depth),
{
    reveal(reads);
    let field = varint_field(tag, v);
    assert forall|rest: Seq<u8>| #[trigger]
        parsed::<M>(start, written + field + rest, depth) == parsed::<M>(after, rest, depth) by {
        let b = field + rest;
        assert(written + field + rest =~= written + b);
        if v == 0 {
            assert(b =~= rest);
        } else {
            let content = varint_bytes(v as nat) + rest;
            assert(b =~= varint_bytes(key(tag, 0)) + content);
            lemma_key_round_trip(tag, 0, content);
            lemma_varint_bound();
            lemma_varint_round_trip(v as nat, rest, 0);
            lemma_field_at_len(b, depth);
        }
    }
}

/// A delimited field is merged with its content.
pub proof fn lemma_reads_delimited<M: Message>(
    start: M::V,
    written: Seq<u8>,
    before: M::V,
    tag: u32,
    content: Seq<u8>,
    after: M::V,
    depth: nat,
)
    requires
        reads::<M>(start, written, before, depth),
        1 <= tag < 0x2000_0000,
        depth > 0,
        content.len() <= u64::MAX,
        M::merged(before, FieldView { tag, value: ValueView::Bytes(content) }, depth) == Some(
            after,
        ),
    ensures
        reads::<M>(start, written + delimited(tag, content), after, depth),
{
    reveal(reads);
    let field = delimited(tag, content);
    assert forall|rest: Seq<u8>| #[trigger]
        parsed::<M>(start, written + field + rest, depth) == parsed::<M>(after, rest, depth) by {
        let b = field + rest;
        assert(written + field + rest =~= written + b);
        let value = varint_bytes(content.len()) + (content + rest);
        assert(b =~= varint_bytes(key(tag, 2)) + value);
        lemma_key_round_trip(tag, 2, value);
        lemma_varint_bound();
        lemma_varint_round_trip(content.len(), content + rest, 0);
        assert((content + rest).take(content.len() as int) =~= content);
        assert((content + rest).skip(content.len() as int) =~= rest);
        lemma_field_at_len(b, depth);
    }
}

/// A byte string that is written as a field is merged as it was.
pub proof fn lemma_reads_bytes<M: Message>(
    start: M::V,
    written: Seq<u8>,
    before: M::V,
    tag: u32,
    content: Seq<u8>,
    after: M::V,
    depth: nat,
)
    requires
        reads::<M>(start, written, before, depth),
        1 <= tag < 0x2000_0000,
        depth > 0,
        (written + bytes_field(tag, content)).len() <= u64::MAX,
        if content.len() == 0 {
            after == before
        } else {
            M::merged(before, FieldView { tag, value: ValueView::Bytes(content) }, depth) == Some(
                after,
            )
        },
    ensures
        reads::<M>(start, written + bytes_field(tag, content), after, depth),
{
    if content.len() == 0 {
        assert(written + bytes_field(tag, content) =~= written);
    } else {
        lemma_reads_delimited::<M>(start, written, before, tag, content, after, depth);
    }
}

/// A nested message that is written as a field is merged as it was.
pub proof fn lemma_reads_message<M: Message, N: Message>(
    start: M::V,
    written: Seq<u8>,
    before: M::V,
    tag: u32,
    inner: Option<N::V>,
    after: M::V,
    depth: nat,
)
    requires
        reads::<M>(start, written, before, depth),
        1 <= tag < 0x2000_0000,
        depth > 0,
        (written + message_field::<N>(tag, inner)).len() <= u64::MAX,
        match inner {
            None => after == before,
            Some(inner) => M::merged(
                before,
                FieldView { tag, value: ValueView::Bytes(N::encoded(inner)) },
                depth,
            ) == Some(after),
        },
    ensures
        reads::<M>(start, written + message_field::<N>(tag, inner), after, depth),
{
    match inner {
        None => {
            assert(written + message_field::<N>(tag, inner) =~= written);
        },
        Some(inner) => {
            lemma_reads_delimited::<M>(
                start,
                written,
                before,
                tag,
                N::encoded(inner),
                after,
                depth,
            );
        },
    }
}

/// The message `m` after all fields of `b`, or nothing if one is in error.
pub fn merge_all<M: Message>(m: M, b: &[u8], depth: u32) -> (merged: Option<M>)
    ensures
        view_of(merged) == parsed::<M>(m@, b@, depth as nat),
{
    let mut current: M = m;
    let mut rest: &[u8] = b;
    while rest.len() > 0
        invariant
            parsed::<M>(m@, b@, depth as nat) == parsed::<M>(current@, rest@, depth as nat),
        decreases rest@.len(),
    {
        proof {
            lemma_field_at_len(rest@, depth as nat);
        }
        match read_field(rest, depth) {
            None => {
                return None;
            },
            Some((f, after)) => {
                current = match current.merge_field(&f, depth) {
                    None => {
                        return None;
                    },
                    Some(next) => next,
                };
                rest = after;
            },
        }
    }
    Some(current)
}

/// A nested message after one more occurrence of its field, or nothing if that is in error.
pub fn merge_message<M: Message>(m: Option<M>, content: &[u8], depth: u32) -> (merged: Option<M>)
    ensures
        view_of(merged) == merged_message::<M>(view_of(m), content@, depth as nat),
{
    if depth == 0 {
        return None;
    }
    let before: M = match m {
        None => M::empty(),
        Some(before) => before,
    };
    merge_all(before, content, depth - 1)
}

/// Appends a length-delimited field.
pub fn push_delimited(buf: &mut Vec<u8>, tag: u32, content: &[u8])
    requires
        tag < 0x2000_0000,
    ensures
        final(buf)@ == old(buf)@ + delimited(tag, content@),
{
    encode_varint(8 * tag as u64 + 2, buf);
    encode_varint(content.len() as u64, buf);
    append(buf, content);
    assert(buf@ =~= old(buf)@ + delimited(tag, content@));
}

/// Appends a number, unless it is zero.
pub fn push_varint(buf: &mut Vec<u8>, tag: u32, v: u64)
    requires
        tag < 0x2000_0000,
    ensures
        final(buf)@ == old(buf)@ + varint_field(tag, v),
{
    if v != 0 {
        encode_varint(8 * tag as u64, buf);
        encode_varint(v, buf);
    }
    assert(buf@ =~= old(buf)@ + varint_field(tag, v));
}

/// Appends a byte string, unless it is empty.
pub fn push_bytes(buf: &mut Vec<u8>, tag: u32, content: &[u8])
    requires
        tag < 0x2000_0000,
    ensures
        final(buf)@ == old(buf)@ + bytes_field(tag, content@),
{
    if content.len() > 0 {
        push_delimited(buf, tag, content);
    }
    assert(buf@ =~= old(buf)@ + bytes_field(tag, content@));
}

/// Appends a nested message, if it is there.
pub fn push_message<M: Message>(buf: &mut Vec<u8>, tag: u32, m: &Option<M>)
    requires
        tag < 0x2000_0000,
    ensures
        final(buf)@ == old(buf)@ + message_field::<M>(tag, view_of(*m)),
{
    if let Some(inner) = m {
        let content: Vec<u8> = inner.encode();
        push_delimited(buf, tag, content.as_slice());
    }
    assert(buf@ =~= old(buf)@ + message_field::<M>(tag, view_of(*m)));
}

/// Bytes are read field by field from the front: bytes that follow a message merge into it, field
/// by field, as if they had been read alone into what was there.
pub proof fn lemma_parsed_appended<M: Message>(m: M::V, a: Seq<u8>, b: Seq<u8>, depth: nat)
    ensures
        parsed::<M>(m, a, depth) matches Some(n) ==> parsed::<M>(m, a + b, depth) == parsed::<M>(
            n,
            b,
            depth,
        ),
    decreases a.len(),
{
    if a.len() == 0 {
        assert(a + b =~= b);
    } else {
        lemma_field_at_len(a, depth);
        lemma_field_at_more(a, depth, b);
        if let Some((f, rest)) = field_at(a, depth) {
            if let Some(next) = M::merged(m, f, depth) {
                lemma_parsed_appended::<M>(next, rest, b, depth);
            }
        }
    }
}

/// Nothing is a message without a field, and a field in front is merged first.
pub proof fn lemma_parsed_from_the_front<M: Message>(m: M::V, b: Seq<u8>, depth: nat)
    ensures
        parsed::<M>(m, Seq::empty(), depth) == Some(m),
        b.len() > 0 && field_at(b, depth) is None ==> parsed::<M>(m, b, depth) is None,
        b.len() > 0 ==> (field_at(b, depth) matches Some((f, rest)) ==> match M::merged(
            m,
            f,
            depth,
        ) {
            Some(n) => parsed::<M>(m, b, depth) == parsed::<M>(n, rest, depth),
            None => parsed::<M>(m, b, depth) is None,
        }),
{
    lemma_field_at_len(b, depth);
}

} // verus!
