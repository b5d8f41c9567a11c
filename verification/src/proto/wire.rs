//! The protobuf wire format: varints, keys, fields, and the skipping of unknown fields.
//!
//! A message is a run of fields, each a key (tag and wire type) followed by a value. The reading
//! side is stated on byte strings: each reader takes what it reads off the front and hands back
//! the rest.
use vstd::prelude::*;
use vstd::slice::slice_subrange;

verus! {

/// How deep groups and messages may be nested.
pub const RECURSION_LIMIT: u32 = 100;

/// The bytes of a varint: seven bits each, least significant first, the high bit set on all but
/// the last.
pub open spec fn varint_bytes(v: nat) -> Seq<u8>
    decreases v,
{
    if v < 128 {
        seq![v as u8]
    } else {
        seq![(v % 128 + 128) as u8] + varint_bytes(v / 128)
    }
}

/// The varint at the front of `b`, of which `k` bytes have been read already, and the bytes behind
/// it. A varint has ten bytes at most, and the tenth holds one bit.
pub open spec fn varint_at(b: Seq<u8>, k: nat) -> Option<(nat, Seq<u8>)>
    decreases b.len(),
{
    if b.len() == 0 || k >= 10 {
        None
    } else if b[0] < 128 {
        if k == 9 && b[0] > 1 {
            None
        } else {
            Some((b[0] as nat, b.skip(1)))
        }
    } else {
        match varint_at(b.skip(1), k + 1) {
            None => None,
            Some((v, rest)) => Some(((b[0] - 128 + 128 * v) as nat, rest)),
        }
    }
}

/// One more than the largest value that the bytes of a varint from the `k`-th on can hold.
pub open spec fn varint_bound(k: nat) -> nat
    decreases 9 - k,
{
    if k >= 9 {
        2
    } else {
        128 * varint_bound(k + 1)
    }
}

pub proof fn lemma_varint_bound()
    ensures
        varint_bound(0) == 0x1_0000_0000_0000_0000,
{
    reveal_with_fuel(varint_bound, 10);
}

proof fn lemma_varint_bound_positive(k: nat)
    ensures
        varint_bound(k) >= 2,
    decreases 9 - k,
{
    if k < 9 {
        lemma_varint_bound_positive(k + 1);
    }
}

/// Reading takes bytes off the front, and the value is in range.
pub proof fn lemma_varint_at(b: Seq<u8>, k: nat)
    ensures
        varint_at(b, k) matches Some((v, rest)) ==> {
            &&& v < varint_bound(k)
            &&& rest.len() < b.len()
            &&& rest == b.skip(b.len() - rest.len())
        },
    decreases b.len(),
{
    lemma_varint_bound_positive(k + 1);
    if b.len() > 0 && k < 10 && b[0] >= 128 {
        lemma_varint_at(b.skip(1), k + 1);
        if let Some((v, rest)) = varint_at(b.skip(1), k + 1) {
            assert(rest =~= b.skip(b.len() - rest.len()));
        }
    }
}

/// What is written as a varint is read back, whatever follows it.
pub proof fn lemma_varint_round_trip(v: nat, rest: Seq<u8>, k: nat)
    requires
        v < varint_bound(k),
        k < 10,
    ensures
        varint_at(varint_bytes(v) + rest, k) == Some((v, rest)),
    decreases v,
{
    let b = varint_bytes(v) + rest;
    if v < 128 {
        assert(b.skip(1) =~= rest);
    } else {
        lemma_varint_round_trip(v / 128, rest, k + 1);
        assert(b.skip(1) =~= varint_bytes(v / 128) + rest);
    }
}

/// The key of a field: the tag above the three bits of the wire type.
pub open spec fn key(tag: u32, wire_type: u8) -> nat {
    (8 * tag + wire_type) as nat
}

/// The key at the front of `b`, and the bytes behind it. Tags start at one, and there are six wire
/// types.
pub open spec fn key_at(b: Seq<u8>) -> Option<(u32, u8, Seq<u8>)> {
    match varint_at(b, 0) {
        None => None,
        Some((k, rest)) => if k > u32::MAX || k % 8 > 5 || k / 8 == 0 {
            None
        } else {
            Some(((k / 8) as u32, (k % 8) as u8, rest))
        },
    }
}

/// The key that is written for a field is read back, whatever follows it.
pub proof fn lemma_key_round_trip(tag: u32, wire_type: u8, rest: Seq<u8>)
    requires
        1 <= tag < 0x2000_0000,
        wire_type <= 5,
    ensures
        key_at(varint_bytes(key(tag, wire_type)) + rest) == Some((tag, wire_type, rest)),
{
    lemma_varint_bound();
    lemma_varint_round_trip(key(tag, wire_type), rest, 0);
}

/// A field's value, as far as a message can want it.
#[verifier::ext_equal]
pub enum ValueView {
    Varint(u64),
    Bytes(Seq<u8>),
    /// A fixed-width value or a group, which no message of this schema has.
    Other,
}

/// One field of a message.
#[verifier::ext_equal]
pub struct FieldView {
    pub tag: u32,
    pub value: ValueView,
}

/// The bytes behind the first `n` of `b`, if there are so many.
pub open spec fn behind(b: Seq<u8>, n: nat) -> Option<Seq<u8>> {
    if n <= b.len() {
        Some(b.skip(n as int))
    } else {
        None
    }
}

/// The value of a field at the front of `b`, and the bytes behind it.
pub open spec fn value_at(tag: u32, wire_type: u8, b: Seq<u8>, depth: nat) -> Option<
    (ValueView, Seq<u8>),
>
    decreases depth, b.len(), 1nat,
{
    if depth == 0 {
        None
    } else if wire_type == 0 {
        match varint_at(b, 0) {
            None => None,
            Some((v, rest)) => Some((ValueView::Varint(v as u64), rest)),
        }
    } else if wire_type == 2 {
        match varint_at(b, 0) {
            None => None,
            Some((n, rest)) => match behind(rest, n) {
                None => None,
                Some(after) => Some((ValueView::Bytes(rest.take(n as int)), after)),
            },
        }
    } else {
        let after = if wire_type == 1 {
            behind(b, 8)
        } else if wire_type == 5 {
            behind(b, 4)
        } else if wire_type == 3 {
            group_end(tag, b, depth)
        } else {
            None
        };
        match after {
            None => None,
            Some(after) => Some((ValueView::Other, after)),
        }
    }
}

/// The bytes behind the end of the group `tag` whose contents stand at the front of `b`.
pub open spec fn group_end(tag: u32, b: Seq<u8>, depth: nat) -> Option<Seq<u8>>
    decreases depth, b.len(), 0nat,
{
    match key_at(b) {
        None => None,
        Some((inner, wire_type, rest)) => if wire_type == 4 {
            if inner == tag {
                Some(rest)
            } else {
                None
            }
        } else if depth == 0 {
            None
        } else {
            match value_at(inner, wire_type, rest, (depth - 1) as nat) {
                None => None,
                Some((_, after)) => if after.len() < b.len() {
                    group_end(tag, after, depth)
                } else {
                    None
                },
            }
        },
    }
}

/// The field at the front of `b`, and the bytes behind it.
pub open spec fn field_at(b: Seq<u8>, depth: nat) -> Option<(FieldView, Seq<u8>)> {
    match key_at(b) {
        None => None,
        Some((tag, wire_type, rest)) => match value_at(tag, wire_type, rest, depth) {
            None => None,
            Some((value, after)) => Some((FieldView { tag, value }, after)),
        },
    }
}

/// Reading a value takes nothing but bytes off the front.
pub proof fn lemma_value_at_len(tag: u32, wire_type: u8, b: Seq<u8>, depth: nat)
    ensures
        value_at(tag, wire_type, b, depth) matches Some((_, after)) ==> after.len() <= b.len(),
    decreases depth, b.len(), 1nat,
{
    lemma_varint_at(b, 0);
    if depth > 0 && wire_type == 3 {
        lemma_group_end_len(tag, b, depth);
    }
}

/// A group ends behind at least one key.
pub proof fn lemma_group_end_len(tag: u32, b: Seq<u8>, depth: nat)
    ensures
        group_end(tag, b, depth) matches Some(after) ==> after.len() < b.len(),
    decreases depth, b.len(), 0nat,
{
    lemma_varint_at(b, 0);
    if let Some((inner, wire_type, rest)) = key_at(b) {
        if wire_type != 4 && depth > 0 {
            lemma_value_at_len(inner, wire_type, rest, (depth - 1) as nat);
            if let Some((_, after)) = value_at(inner, wire_type, rest, (depth - 1) as nat) {
                lemma_group_end_len(tag, after, depth);
            }
        }
    }
}

/// Reading a field takes at least one byte off the front.
pub proof fn lemma_field_at_len(b: Seq<u8>, depth: nat)
    ensures
        field_at(b, depth) matches Some((_, after)) ==> after.len() < b.len(),
{
    lemma_varint_at(b, 0);
    if let Some((tag, wire_type, rest)) = key_at(b) {
        lemma_value_at_len(tag, wire_type, rest, depth);
    }
}

/// A field's value, borrowed from the message.
pub enum Value<'a> {
    Varint(u64),
    Bytes(&'a [u8]),
    Other,
}

impl<'a> View for Value<'a> {
    type V = ValueView;

    open spec fn view(&self) -> ValueView {
        match self {
            Value::Varint(v) => ValueView::Varint(*v),
            Value::Bytes(b) => ValueView::Bytes(b@),
            Value::Other => ValueView::Other,
        }
    }
}

/// One field, borrowed from the message.
pub struct Field<'a> {
    pub tag: u32,
    pub value: Value<'a>,
}

impl<'a> View for Field<'a> {
    type V = FieldView;

    open spec fn view(&self) -> FieldView {
        FieldView { tag: self.tag, value: self.value@ }
    }
}

/// `prost::encoding::decode_varint`: the varint at the front of `b` and the bytes behind it, or
/// nothing if the bytes end within it or it does not fit in 64 bits.
#[verifier::external_body]
fn decode_varint<'a>(b: &'a [u8]) -> (read: Option<(u64, &'a [u8])>)
    ensures
        match read {
            None => varint_at(b@, 0) is None,
            Some((v, rest)) => varint_at(b@, 0) == Some((v as nat, rest@)),
        },
{
    let mut buf: &[u8] = b;
    match prost::encoding::decode_varint(&mut buf) {
        Ok(v) => Some((v, buf)),
        Err(_) => None,
    }
}

/// `prost::encoding::encode_varint`: appends the bytes of a varint.
#[verifier::external_body]
pub(crate) fn encode_varint(v: u64, buf: &mut Vec<u8>)
    ensures
        final(buf)@ == old(buf)@ + varint_bytes(v as nat),
{
    prost::encoding::encode_varint(v, buf)
}

/// Takes a key off the front of `b`.
pub fn read_key<'a>(b: &'a [u8]) -> (read: Option<(u32, u8, &'a [u8])>)
    ensures
        match read {
            None => key_at(b@) is None,
            Some((tag, wire_type, rest)) => key_at(b@) == Some((tag, wire_type, rest@)),
        },
{
    match decode_varint(b) {
        None => None,
        Some((k, rest)) => {
            if k > u32::MAX as u64 || k % 8 > 5 || k / 8 == 0 {
                None
            } else {
                Some(((k / 8) as u32, (k % 8) as u8, rest))
            }
        },
    }
}

/// Takes `n` bytes off the front of `b`.
fn read_bytes<'a>(b: &'a [u8], n: u64) -> (read: Option<(&'a [u8], &'a [u8])>)
    ensures
        match read {
            None => behind(b@, n as nat) is None,
            Some((front, after)) => behind(b@, n as nat) == Some(after@) && front@ == b@.take(
                n as int,
            ),
        },
{
    if n > b.len() as u64 {
        None
    } else {
        let front: &'a [u8] = slice_subrange(b, 0, n as usize);
        let after: &'a [u8] = slice_subrange(b, n as usize, b.len());
        assert(front@ =~= b@.take(n as int));
        assert(after@ =~= b@.skip(n as int));
        Some((front, after))
    }
}

/// Takes the value of a field off the front of `b`.
pub fn read_value<'a>(tag: u32, wire_type: u8, b: &'a [u8], depth: u32) -> (read: Option<
    (Value<'a>, &'a [u8]),
>)
    ensures
        match read {
            None => value_at(tag, wire_type, b@, depth as nat) is None,
            Some((value, after)) => value_at(tag, wire_type, b@, depth as nat) == Some(
                (value@, after@),
            ),
        },
    decreases depth, b@.len(), 1nat,
{
    if depth == 0 {
        return None;
    }
    if wire_type == 0 {
        match decode_varint(b) {
            None => None,
            Some((v, rest)) => Some((Value::Varint(v), rest)),
        }
    } else if wire_type == 2 {
        match decode_varint(b) {
            None => None,
            Some((n, rest)) => match read_bytes(rest, n) {
                None => None,
                Some((content, after)) => Some((Value::Bytes(content), after)),
            },
        }
    } else {
        let after: Option<&'a [u8]> = if wire_type == 1 || wire_type == 5 {
            let width: u64 = if wire_type == 1 {
                8
            } else {
                4
            };
            match read_bytes(b, width) {
                None => None,
                Some((_, after)) => Some(after),
            }
        } else if wire_type == 3 {
            skip_group(tag, b, depth)
        } else {
            None
        };
        match after {
            None => None,
            Some(after) => Some((Value::Other, after)),
        }
    }
}

/// Takes the contents and the end of the group `tag` off the front of `b`.
pub fn skip_group<'a>(tag: u32, b: &'a [u8], depth: u32) -> (after: Option<&'a [u8]>)
    requires
        depth > 0,
    ensures
        match after {
            None => group_end(tag, b@, depth as nat) is None,
            Some(after) => group_end(tag, b@, depth as nat) == Some(after@),
        },
    decreases depth, b@.len(), 0nat,
{
    let mut rest: &'a [u8] = b;
    loop
        invariant
            depth > 0,
            group_end(tag, b@, depth as nat) == group_end(tag, rest@, depth as nat),
            rest@.len() <= b@.len(),
        decreases rest@.len(),
    {
        match read_key(rest) {
            None => {
                return None;
            },
            Some((inner, wire_type, content)) => {
                if wire_type == 4 {
                    return if inner == tag {
                        Some(content)
                    } else {
                        None
                    };
                }
                proof {
                    lemma_varint_at(rest@, 0);
                    lemma_value_at_len(inner, wire_type, content@, (depth - 1) as nat);
                }
                match read_value(inner, wire_type, content, depth - 1) {
                    None => {
                        return None;
                    },
                    Some((_, after)) => {
                        rest = after;
                    },
                }
            },
        }
    }
}

/// Takes a field off the front of `b`.
pub fn read_field<'a>(b: &'a [u8], depth: u32) -> (read: Option<(Field<'a>, &'a [u8])>)
    ensures
        match read {
            None => field_at(b@, depth as nat) is None,
            Some((field, after)) => field_at(b@, depth as nat) == Some((field@, after@)),
        },
{
    match read_key(b) {
        None => None,
        Some((tag, wire_type, rest)) => match read_value(tag, wire_type, rest, depth) {
            None => None,
            Some((value, after)) => Some((Field { tag, value }, after)),
        },
    }
}

/// A varint cannot be read exactly if none of its first ten bytes ends it, or the tenth holds more
/// than one bit.
pub proof fn lemma_varint_refusals(b: Seq<u8>, k: nat)
    requires
        k < 10,
    ensures
        varint_at(b, k) is None <==> {
            ||| forall|i: int| 0 <= i < b.len() && i < 10 - k ==> b[i] >= 128
            ||| {
                &&& b.len() >= 10 - k
                &&& forall|i: int| 0 <= i < 9 - k ==> b[i] >= 128
                &&& 1 < b[9 - k] < 128
            }
        },
    decreases b.len(),
{
    if b.len() > 0 && b[0] >= 128 {
        let tail = b.skip(1);
        if k < 9 {
            lemma_varint_refusals(tail, k + 1);
            assert forall|i: int| 0 <= i < b.len() - 1 implies #[trigger] tail[i] == b[i + 1] by {}
            assert forall|i: int| 0 < i < b.len() implies #[trigger] b[i] == tail[i - 1] by {}
        } else {
            assert(varint_at(tail, 10) is None);
        }
    }
}

/// The digits of a varint: a byte that ends it is a digit itself, any other is a digit and 128, and
/// digits count by powers of 128, the first least.
pub proof fn lemma_varint_digits(first: u8, tail: Seq<u8>, v: nat)
    ensures
        first < 128 ==> varint_at(seq![first] + tail, 0) == Some((first as nat, tail)),
        first >= 128 ==> (varint_at(tail, 1) matches Some((w, rest)) ==> varint_at(
            seq![first] + tail,
            0,
        ) == Some(((first - 128 + 128 * w) as nat, rest))),
        v < 128 ==> varint_bytes(v) == seq![v as u8],
        v >= 128 ==> varint_bytes(v).first() == v % 128 + 128 && varint_bytes(v).skip(1)
            == varint_bytes(v / 128),
{
    assert((seq![first] + tail).skip(1) =~= tail);
    if v >= 128 {
        assert(varint_bytes(v).skip(1) =~= varint_bytes(v / 128));
    }
}

/// A key is a varint of 32 bits: eight times the tag, which is not zero, and the wire type, which
/// is at most five.
pub proof fn lemma_key_in_full(b: Seq<u8>)
    ensures
        key_at(b) is Some <==> (varint_at(b, 0) matches Some((k, _)) && 8 <= k <= u32::MAX && k % 8
            <= 5),
        key_at(b) matches Some((tag, wire_type, rest)) ==> varint_at(b, 0) == Some(
            ((8 * tag + wire_type) as nat, rest),
        ),
{
}

/// What each wire type is: 0 a varint; 1 and 5 eight and four bytes, which are passed over; 2 as
/// many bytes as a varint says; 3 a group, which is passed over up to its end. An end of a group
/// where none is open is no value, and nothing is read at the bottom of the nesting.
pub proof fn lemma_values_in_full(tag: u32, b: Seq<u8>, depth: nat)
    requires
        depth > 0,
    ensures
        value_at(tag, 0, b, depth) == match varint_at(b, 0) {
            Some((v, rest)) => Some((ValueView::Varint(v as u64), rest)),
            None => None,
        },
        value_at(tag, 1, b, depth) == if b.len() >= 8 {
            Some((ValueView::Other, b.skip(8)))
        } else {
            None
        },
        value_at(tag, 2, b, depth) == match varint_at(b, 0) {
            Some((n, rest)) => if rest.len() >= n {
                Some((ValueView::Bytes(rest.take(n as int)), rest.skip(n as int)))
            } else {
                None
            },
            None => None,
        },
        value_at(tag, 3, b, depth) == match group_end(tag, b, depth) {
            Some(rest) => Some((ValueView::Other, rest)),
            None => None,
        },
        value_at(tag, 4, b, depth) is None,
        value_at(tag, 5, b, depth) == if b.len() >= 4 {
            Some((ValueView::Other, b.skip(4)))
        } else {
            None
        },
        forall|wire_type: u8| value_at(tag, wire_type, b, 0) is None,
{
}

/// A group ends at the end key of its own tag, behind any fields, each of which is passed over one
/// level deeper. The end key of another tag is an error.
pub proof fn lemma_groups_in_full(tag: u32, other: u32, rest: Seq<u8>, b: Seq<u8>, depth: nat)
    requires
        1 <= tag < 0x2000_0000,
        1 <= other < 0x2000_0000,
    ensures
        group_end(tag, varint_bytes((8 * tag + 4) as nat) + rest, depth) == Some(rest),
        other != tag ==> group_end(tag, varint_bytes((8 * other + 4) as nat) + rest, depth) is None,
        depth > 0 ==> (field_at(b, (depth - 1) as nat) matches Some((_, after)) ==> group_end(
            tag,
            b,
            depth,
        ) == group_end(tag, after, depth)),
{
    assert(key(tag, 4) == (8 * tag + 4) as nat);
    assert(key(other, 4) == (8 * other + 4) as nat);
    lemma_key_round_trip(tag, 4, rest);
    lemma_key_round_trip(other, 4, rest);
    if depth > 0 {
        lemma_field_at_len(b, (depth - 1) as nat);
    }
}

/// What was read does not depend on what follows.
pub proof fn lemma_varint_at_more(b: Seq<u8>, k: nat, more: Seq<u8>)
    ensures
        varint_at(b, k) matches Some((v, rest)) ==> varint_at(b + more, k) == Some(
            (v, rest + more),
        ),
    decreases b.len(),
{
    if b.len() > 0 && k < 10 {
        assert((b + more).skip(1) =~= b.skip(1) + more);
        if b[0] >= 128 {
            lemma_varint_at_more(b.skip(1), k + 1, more);
        }
    }
}

proof fn lemma_value_at_more(tag: u32, wire_type: u8, b: Seq<u8>, depth: nat, more: Seq<u8>)
    ensures
        value_at(tag, wire_type, b, depth) matches Some((value, after)) ==> value_at(
            tag,
            wire_type,
            b + more,
            depth,
        ) == Some((value, after + more)),
    decreases depth, b.len(), 1nat,
{
    if depth > 0 {
        lemma_varint_at_more(b, 0, more);
        if wire_type == 2 {
            if let Some((n, rest)) = varint_at(b, 0) {
                if n <= rest.len() {
                    assert((rest + more).take(n as int) =~= rest.take(n as int));
                    assert((rest + more).skip(n as int) =~= rest.skip(n as int) + more);
                }
            }
        } else if wire_type == 1 && b.len() >= 8 {
            assert((b + more).skip(8) =~= b.skip(8) + more);
        } else if wire_type == 5 && b.len() >= 4 {
            assert((b + more).skip(4) =~= b.skip(4) + more);
        } else if wire_type == 3 {
            lemma_group_end_more(tag, b, depth, more);
        }
    }
}

proof fn lemma_group_end_more(tag: u32, b: Seq<u8>, depth: nat, more: Seq<u8>)
    ensures
        group_end(tag, b, depth) matches Some(after) ==> group_end(tag, b + more, depth) == Some(
            after + more,
        ),
    decreases depth, b.len(), 0nat,
{
    lemma_varint_at(b, 0);
    lemma_varint_at_more(b, 0, more);
    if let Some((inner, wire_type, rest)) = key_at(b) {
        if wire_type != 4 && depth > 0 {
            lemma_value_at_more(inner, wire_type, rest, (depth - 1) as nat, more);
            if let Some((_, after)) = value_at(inner, wire_type, rest, (depth - 1) as nat) {
                if after.len() < b.len() {
                    lemma_group_end_more(tag, after, depth, more);
                }
            }
        }
    }
}

/// A field that was read is read the same way whatever follows it.
pub proof fn lemma_field_at_more(b: Seq<u8>, depth: nat, more: Seq<u8>)
    ensures
        field_at(b, depth) matches Some((f, after)) ==> field_at(b + more, depth) == Some(
            (f, after + more),
        ),
{
    lemma_varint_at_more(b, 0, more);
    if let Some((tag, wire_type, rest)) = key_at(b) {
        lemma_value_at_more(tag, wire_type, rest, depth, more);
    }
}

/// A varint of 64 bits has ten bytes at most.
pub proof fn lemma_varint_bytes_len(v: nat, k: nat)
    requires
        v < varint_bound(k),
        k < 10,
    ensures
        1 <= varint_bytes(v).len() <= 10 - k,
    decreases v,
{
    if v >= 128 {
        lemma_varint_bytes_len(v / 128, k + 1);
    }
}

} // verus!
