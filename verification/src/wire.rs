//! The protobuf wire format: varints, field keys, length-delimited payloads, and the way a
//! message is put together out of the fields of its encoding.
use crate::model::{optional_view, views};
use crate::text::{lemma_same_bytes, utf8_text};
use vstd::prelude::*;
use vstd::slice::{slice_subrange, slice_to_vec};
use vstd::utf8::{
    decode_utf8, encode_utf8, encode_utf8_decode_utf8, encode_utf8_valid_utf8, valid_utf8,
};

verus! {

/// The deepest nesting of messages and groups that decoding follows.
pub const RECURSION_LIMIT: u32 = 100;

/// Wire type of a varint field.
pub const VARINT: u32 = 0;

/// Wire type of a field of eight bytes.
pub const SIXTY_FOUR_BIT: u32 = 1;

/// Wire type of a field that starts with its length.
pub const LENGTH_DELIMITED: u32 = 2;

/// Wire type that opens a group.
pub const START_GROUP: u32 = 3;

/// Wire type that closes a group.
pub const END_GROUP: u32 = 4;

/// Wire type of a field of four bytes.
pub const THIRTY_TWO_BIT: u32 = 5;

/// The LEB128 encoding of `value`: seven bits to a byte, the low ones first, the high bit set on
/// every byte but the last.
pub open spec fn varint_bytes(value: u64) -> Seq<u8>
    decreases value,
{
    if value < 128 {
        seq![value as u8]
    } else {
        seq![(value % 128 + 128) as u8] + varint_bytes(value / 128)
    }
}

/// The varint that `bytes` starts with, when at most `left` bytes may be used: its value and the
/// bytes behind it. A tenth byte can only add one bit.
pub open spec fn varint_within(bytes: Seq<u8>, left: nat) -> Option<(nat, Seq<u8>)>
    decreases left,
{
    if left == 0 || bytes.len() == 0 {
        None
    } else if bytes[0] < 128 {
        if left == 1 && bytes[0] >= 2 {
            None
        } else {
            Some((bytes[0] as nat, bytes.skip(1)))
        }
    } else {
        match varint_within(bytes.skip(1), (left - 1) as nat) {
            Some((high, rest)) => Some(((bytes[0] - 128 + 128 * high) as nat, rest)),
            None => None,
        }
    }
}

/// The varint that `bytes` starts with: its value and the bytes behind it.
pub open spec fn varint_read(bytes: Seq<u8>) -> Option<(nat, Seq<u8>)> {
    varint_within(bytes, 10)
}

/// `prost::encoding::encode_varint`, writing to a `Vec`. It appends the LEB128 encoding of the
/// value and leaves what the buffer held in place.
#[verifier::external_body]
fn encode_varint(value: u64, buf: &mut Vec<u8>)
    ensures
        final(buf)@ == old(buf)@ + varint_bytes(value),
{
    prost::encoding::encode_varint(value, buf)
}

/// `prost::encoding::decode_varint`, reading from a slice. It gives the value of the varint at
/// the front and moves past it; it fails where the input ends first, where ten bytes hold no
/// last one, and where the tenth byte overflows 64 bits.
#[verifier::external_body]
fn decode_varint<'a>(bytes: &'a [u8]) -> (read: Option<(u64, &'a [u8])>)
    ensures
        match read {
            Some((value, rest)) => varint_read(bytes@) == Some((value as nat, rest@)),
            None => varint_read(bytes@) is None,
        },
{
    let mut rest = bytes;
    match prost::encoding::decode_varint(&mut rest) {
        Ok(value) => Some((value, rest)),
        Err(_) => None,
    }
}

/// One more than the largest value that a varint of at most `left` bytes can hold.
spec fn varint_limit(left: nat) -> nat
    decreases left,
{
    if left <= 1 {
        2
    } else {
        128 * varint_limit((left - 1) as nat)
    }
}

proof fn lemma_varint_within(value: u64, rest: Seq<u8>, left: nat)
    requires
        0 < left,
        value < varint_limit(left),
    ensures
        varint_within(varint_bytes(value) + rest, left) == Some((value as nat, rest)),
    decreases left,
{
    let all = varint_bytes(value) + rest;
    if value < 128 {
        assert(all.skip(1) =~= rest);
    } else {
        let tail = varint_bytes(value / 128);
        assert(all.skip(1) =~= tail + rest);
        assert(left > 1);
        lemma_varint_within(value / 128, rest, (left - 1) as nat);
        assert((value % 128 + 128) as u8 == value % 128 + 128);
    }
}

/// A varint that was written is read back, with whatever stands behind it left over.
pub proof fn law_varint_round_trip(value: u64, rest: Seq<u8>)
    ensures
        varint_read(varint_bytes(value) + rest) == Some((value as nat, rest)),
{
    assert(varint_limit(10) == 0x1_0000_0000_0000_0000) by {
        reveal_with_fuel(varint_limit, 11);
    }
    lemma_varint_within(value, rest, 10);
}

proof fn lemma_varint_within_shrinks(bytes: Seq<u8>, left: nat)
    ensures
        varint_within(bytes, left) matches Some((_, rest)) ==> rest.len() < bytes.len(),
    decreases left,
{
    if left > 0 && bytes.len() > 0 && bytes[0] >= 128 {
        lemma_varint_within_shrinks(bytes.skip(1), (left - 1) as nat);
    }
}

proof fn lemma_varint_shrinks(bytes: Seq<u8>)
    ensures
        varint_read(bytes) matches Some((_, rest)) ==> rest.len() < bytes.len(),
{
    lemma_varint_within_shrinks(bytes, 10);
}

/// The field key that `bytes` starts with: the field's tag, its wire type, and the bytes behind
/// the key.
pub open spec fn key_read(bytes: Seq<u8>) -> Option<(u32, u32, Seq<u8>)> {
    match varint_read(bytes) {
        Some((key, rest)) => if key > u32::MAX || key % 8 > 5 || key / 8 < 1 {
            None
        } else {
            Some(((key / 8) as u32, (key % 8) as u32, rest))
        },
        None => None,
    }
}

/// The length-delimited payload that `bytes` starts with, and the bytes behind it.
pub open spec fn delimited_read(bytes: Seq<u8>) -> Option<(Seq<u8>, Seq<u8>)> {
    match varint_read(bytes) {
        Some((len, rest)) => if len > rest.len() {
            None
        } else {
            Some((rest.take(len as int), rest.skip(len as int)))
        },
        None => None,
    }
}

/// What is left of `bytes` behind a value of the given wire type, where up to `budget` levels
/// of groups may be entered. `tag` is the tag under which the value stands.
pub open spec fn value_skipped(wire_type: u32, tag: u32, bytes: Seq<u8>, budget: nat) -> Option<
    Seq<u8>,
>
    decreases budget, bytes.len(), 1nat,
{
    if budget == 0 {
        None
    } else if wire_type == VARINT {
        match varint_read(bytes) {
            Some((_, rest)) => Some(rest),
            None => None,
        }
    } else if wire_type == SIXTY_FOUR_BIT {
        if bytes.len() < 8 {
            None
        } else {
            Some(bytes.skip(8))
        }
    } else if wire_type == LENGTH_DELIMITED {
        match delimited_read(bytes) {
            Some((_, rest)) => Some(rest),
            None => None,
        }
    } else if wire_type == START_GROUP {
        group_skipped(tag, bytes, budget)
    } else if wire_type == THIRTY_TWO_BIT {
        if bytes.len() < 4 {
            None
        } else {
            Some(bytes.skip(4))
        }
    } else {
        None
    }
}

/// What is left of `bytes` behind the end of the group `tag`, whose content they start with.
pub open spec fn group_skipped(tag: u32, bytes: Seq<u8>, budget: nat) -> Option<Seq<u8>>
    decreases budget, bytes.len(), 0nat,
{
    match key_read(bytes) {
        Some((inner, wire_type, rest)) => if wire_type == END_GROUP {
            if inner == tag {
                Some(rest)
            } else {
                None
            }
        } else if budget == 0 {
            None
        } else {
            match value_skipped(wire_type, inner, rest, (budget - 1) as nat) {
                Some(behind) => if behind.len() < bytes.len() {
                    group_skipped(tag, behind, budget)
                } else {
                    None
                },
                None => None,
            }
        },
        None => None,
    }
}

proof fn lemma_value_skipped_shrinks(wire_type: u32, tag: u32, bytes: Seq<u8>, budget: nat)
    ensures
        value_skipped(wire_type, tag, bytes, budget) matches Some(rest) ==> rest.len()
            <= bytes.len(),
    decreases budget, bytes.len(), 1nat,
{
    lemma_varint_shrinks(bytes);
    if wire_type == START_GROUP && budget > 0 {
        lemma_group_skipped_shrinks(tag, bytes, budget);
    }
}

proof fn lemma_group_skipped_shrinks(tag: u32, bytes: Seq<u8>, budget: nat)
    ensures
        group_skipped(tag, bytes, budget) matches Some(rest) ==> rest.len() <= bytes.len(),
    decreases budget, bytes.len(), 0nat,
{
    lemma_varint_shrinks(bytes);
    match key_read(bytes) {
        Some((inner, wire_type, rest)) => {
            if wire_type != END_GROUP && budget > 0 {
                match value_skipped(wire_type, inner, rest, (budget - 1) as nat) {
                    Some(behind) => {
                        if behind.len() < bytes.len() {
                            lemma_group_skipped_shrinks(tag, behind, budget);
                        }
                    },
                    None => {},
                }
            }
        },
        None => {},
    }
}

/// What a field of an encoded message holds.
pub enum Payload {
    /// A varint.
    Varint(u64),
    /// A length-delimited run of bytes.
    Bytes(Seq<u8>),
    /// A value of another wire type; no message here has a field of one.
    Other,
}

/// The field of a message `M` that `bytes` starts with: its tag, what it holds, and the bytes
/// behind it. The entries of a map are length-delimited whatever wire type their key gives.
pub open spec fn field_read<M: WireMessage>(bytes: Seq<u8>, budget: nat) -> Option<
    (u32, Payload, Seq<u8>),
> {
    match key_read(bytes) {
        Some((tag, wire_type, rest)) => if M::is_map(tag) || wire_type == LENGTH_DELIMITED {
            match delimited_read(rest) {
                Some((content, behind)) => Some((tag, Payload::Bytes(content), behind)),
                None => None,
            }
        } else if wire_type == VARINT {
            match varint_read(rest) {
                Some((value, behind)) => Some((tag, Payload::Varint(value as u64), behind)),
                None => None,
            }
        } else {
            match value_skipped(wire_type, tag, rest, budget) {
                Some(behind) => Some((tag, Payload::Other, behind)),
                None => None,
            }
        },
        None => None,
    }
}

proof fn lemma_field_shrinks<M: WireMessage>(bytes: Seq<u8>, budget: nat)
    ensures
        field_read::<M>(bytes, budget) matches Some((_, _, rest)) ==> rest.len() < bytes.len(),
{
    lemma_varint_shrinks(bytes);
    match key_read(bytes) {
        Some((tag, wire_type, rest)) => {
            lemma_varint_shrinks(rest);
            lemma_value_skipped_shrinks(wire_type, tag, rest, budget);
        },
        None => {},
    }
}

/// What a field holds, in the buffer it was read from.
#[derive(Clone, Copy)]
pub enum FieldValue<'a> {
    /// A varint.
    Varint(u64),
    /// A length-delimited run of bytes.
    Bytes(&'a [u8]),
    /// A value of another wire type.
    Other,
}

impl<'a> View for FieldValue<'a> {
    type V = Payload;

    open spec fn view(&self) -> Payload {
        match *self {
            FieldValue::Varint(value) => Payload::Varint(value),
            FieldValue::Bytes(bytes) => Payload::Bytes(bytes@),
            FieldValue::Other => Payload::Other,
        }
    }
}

fn behind<'a>(bytes: &'a [u8], count: usize) -> (rest: &'a [u8])
    requires
        count <= bytes@.len(),
    ensures
        rest@ == bytes@.skip(count as int),
{
    slice_subrange(bytes, count, bytes.len())
}

fn read_key<'a>(bytes: &'a [u8]) -> (read: Option<(u32, u32, &'a [u8])>)
    ensures
        match read {
            Some((tag, wire_type, rest)) => key_read(bytes@) == Some((tag, wire_type, rest@)),
            None => key_read(bytes@) is None,
        },
{
    match decode_varint(bytes) {
        Some((key, rest)) => if key > 0xffff_ffff || key % 8 > 5 || key / 8 < 1 {
            None
        } else {
            Some(((key / 8) as u32, (key % 8) as u32, rest))
        },
        None => None,
    }
}

fn read_delimited<'a>(bytes: &'a [u8]) -> (read: Option<(&'a [u8], &'a [u8])>)
    ensures
        match read {
            Some((content, rest)) => delimited_read(bytes@) == Some((content@, rest@)),
            None => delimited_read(bytes@) is None,
        },
{
    match decode_varint(bytes) {
        Some((len, rest)) => if len > rest.len() as u64 {
            None
        } else {
            Some((slice_subrange(rest, 0, len as usize), behind(rest, len as usize)))
        },
        None => None,
    }
}

fn skip_value<'a>(wire_type: u32, tag: u32, bytes: &'a [u8], budget: u32) -> (read: Option<
    &'a [u8],
>)
    ensures
        match read {
            Some(rest) => value_skipped(wire_type, tag, bytes@, budget as nat) == Some(rest@),
            None => value_skipped(wire_type, tag, bytes@, budget as nat) is None,
        },
    decreases budget, bytes@.len(), 1nat,
{
    if budget == 0 {
        None
    } else if wire_type == VARINT {
        match decode_varint(bytes) {
            Some((_, rest)) => Some(rest),
            None => None,
        }
    } else if wire_type == SIXTY_FOUR_BIT {
        if bytes.len() < 8 {
            None
        } else {
            Some(behind(bytes, 8))
        }
    } else if wire_type == LENGTH_DELIMITED {
        match read_delimited(bytes) {
            Some((_, rest)) => Some(rest),
            None => None,
        }
    } else if wire_type == START_GROUP {
        skip_group(tag, bytes, budget)
    } else if wire_type == THIRTY_TWO_BIT {
        if bytes.len() < 4 {
            None
        } else {
            Some(behind(bytes, 4))
        }
    } else {
        None
    }
}

fn skip_group<'a>(tag: u32, bytes: &'a [u8], budget: u32) -> (read: Option<&'a [u8]>)
    ensures
        match read {
            Some(rest) => group_skipped(tag, bytes@, budget as nat) == Some(rest@),
            None => group_skipped(tag, bytes@, budget as nat) is None,
        },
    decreases budget, bytes@.len(), 0nat,
{
    let mut rest = bytes;
    loop
        invariant
            group_skipped(tag, bytes@, budget as nat) == group_skipped(tag, rest@, budget as nat),
            rest@.len() <= bytes@.len(),
        decreases rest@.len(),
    {
        match read_key(rest) {
            Some((inner, wire_type, value)) => {
                if wire_type == END_GROUP {
                    return if inner == tag {
                        Some(value)
                    } else {
                        None
                    };
                }
                if budget == 0 {
                    return None;
                }
                match skip_value(wire_type, inner, value, budget - 1) {
                    Some(next) => {
                        proof {
                            lemma_varint_shrinks(rest@);
                            lemma_value_skipped_shrinks(
                                wire_type,
                                inner,
                                value@,
                                (budget - 1) as nat,
                            );
                        }
                        rest = next;
                    },
                    None => {
                        return None;
                    },
                }
            },
            None => {
                return None;
            },
        }
    }
}

fn read_field<'a, M: WireMessage>(bytes: &'a [u8], budget: u32) -> (read: Option<
    (u32, FieldValue<'a>, &'a [u8]),
>)
    ensures
        match read {
            Some((tag, value, rest)) => field_read::<M>(bytes@, budget as nat) == Some(
                (tag, value@, rest@),
            ),
            None => field_read::<M>(bytes@, budget as nat) is None,
        },
{
    match read_key(bytes) {
        Some((tag, wire_type, rest)) => if M::holds_map(tag) || wire_type == LENGTH_DELIMITED {
            match read_delimited(rest) {
                Some((content, next)) => Some((tag, FieldValue::Bytes(content), next)),
                None => None,
            }
        } else if wire_type == VARINT {
            match decode_varint(rest) {
                Some((value, next)) => Some((tag, FieldValue::Varint(value), next)),
                None => None,
            }
        } else {
            match skip_value(wire_type, tag, rest, budget) {
                Some(next) => Some((tag, FieldValue::Other, next)),
                None => None,
            }
        },
        None => None,
    }
}

/// A message that is read field by field. Its view is the mathematical message.
pub trait WireMessage: View + Sized {
    /// The message without any field.
    spec fn initial() -> Self::V;

    /// The message without any field.
    fn empty() -> (message: Self)
        ensures
            message@ == Self::initial(),
    ;

    /// Whether the field with the given tag holds the entries of a map.
    spec fn is_map(tag: u32) -> bool;

    /// Whether the field with the given tag holds the entries of a map.
    fn holds_map(tag: u32) -> (map: bool)
        ensures
            map == Self::is_map(tag),
    ;

    /// The message after a field with the given tag and content has been read into `model`;
    /// `None` where the field makes the encoding invalid.
    spec fn field_merged(model: Self::V, tag: u32, payload: Payload, budget: nat) -> Option<
        Self::V,
    >;

    /// Reads one field into the message. Where it returns `false` the encoding is invalid and
    /// the message is of no use any more.
    fn merge_field(&mut self, tag: u32, value: FieldValue<'_>, budget: u32) -> (valid: bool)
        ensures
            valid == (Self::field_merged(old(self)@, tag, value@, budget as nat) is Some),
            valid ==> Self::field_merged(old(self)@, tag, value@, budget as nat) == Some(
                final(self)@,
            ),
    ;
}

/// The message after all the fields in `bytes` have been read into `model`.
pub open spec fn merged<M: WireMessage>(model: M::V, bytes: Seq<u8>, budget: nat) -> Option<M::V>
    decreases bytes.len(),
{
    if bytes.len() == 0 {
        Some(model)
    } else {
        match field_read::<M>(bytes, budget) {
            Some((tag, payload, rest)) => if rest.len() < bytes.len() {
                match M::field_merged(model, tag, payload, budget) {
                    Some(next) => merged::<M>(next, rest, budget),
                    None => None,
                }
            } else {
                None
            },
            None => None,
        }
    }
}

/// The message after `payload`, the content of a message field, has been read into `model`.
pub open spec fn nested_merged<M: WireMessage>(
    model: M::V,
    payload: Payload,
    budget: nat,
) -> Option<M::V> {
    match payload {
        Payload::Bytes(bytes) => if budget == 0 {
            None
        } else {
            merged::<M>(model, bytes, (budget - 1) as nat)
        },
        _ => None,
    }
}

/// Reads all the fields in `bytes` into `message`; says whether they were valid.
pub fn merge<M: WireMessage>(message: &mut M, bytes: &[u8], budget: u32) -> (valid: bool)
    ensures
        valid == (merged::<M>(old(message)@, bytes@, budget as nat) is Some),
        valid ==> merged::<M>(old(message)@, bytes@, budget as nat) == Some(final(message)@),
{
    let mut rest = bytes;
    while rest.len() > 0
        invariant
            merged::<M>(old(message)@, bytes@, budget as nat) == merged::<M>(
                message@,
                rest@,
                budget as nat,
            ),
        decreases rest@.len(),
    {
        match read_field::<M>(rest, budget) {
            Some((tag, value, next)) => {
                proof {
                    lemma_field_shrinks::<M>(rest@, budget as nat);
                }
                if !message.merge_field(tag, value, budget) {
                    return false;
                }
                rest = next;
            },
            None => {
                return false;
            },
        }
    }
    true
}

/// Reads the content of a message field into `message`; says whether it was valid.
pub fn merge_nested<M: WireMessage>(message: &mut M, value: FieldValue<'_>, budget: u32) -> (valid:
    bool)
    ensures
        valid == (nested_merged::<M>(old(message)@, value@, budget as nat) is Some),
        valid ==> nested_merged::<M>(old(message)@, value@, budget as nat) == Some(
            final(message)@,
        ),
{
    match value {
        FieldValue::Bytes(bytes) => if budget == 0 {
            false
        } else {
            merge(message, bytes, budget - 1)
        },
        _ => false,
    }
}

/// What an optional message field holds after `payload` has been read into it.
pub open spec fn optional_merged<M: WireMessage>(
    model: Option<M::V>,
    payload: Payload,
    budget: nat,
) -> Option<M::V> {
    let start = match model {
        Some(model) => model,
        None => M::initial(),
    };
    nested_merged::<M>(start, payload, budget)
}

/// Reads the content of an optional message field; says whether it was valid.
pub fn merge_optional<M: WireMessage>(
    slot: &mut Option<M>,
    value: FieldValue<'_>,
    budget: u32,
) -> (valid: bool)
    ensures
        valid == (optional_merged::<M>(optional_view(*old(slot)), value@, budget as nat) is Some),
        valid ==> optional_merged::<M>(optional_view(*old(slot)), value@, budget as nat)
            == optional_view(*final(slot)),
{
    let mut message = match slot.take() {
        Some(message) => message,
        None => M::empty(),
    };
    if !merge_nested(&mut message, value, budget) {
        return false;
    }
    *slot = Some(message);
    true
}

/// Reads one more element of a repeated message field; says whether it was valid.
pub fn merge_repeated<M: WireMessage>(
    items: &mut Vec<M>,
    value: FieldValue<'_>,
    budget: u32,
) -> (valid: bool)
    ensures
        valid == (nested_merged::<M>(M::initial(), value@, budget as nat) is Some),
        valid ==> (nested_merged::<M>(M::initial(), value@, budget as nat) matches Some(item)
            && views(final(items)@) == views(old(items)@).push(item)),
{
    let mut message = M::empty();
    if !merge_nested(&mut message, value, budget) {
        return false;
    }
    items.push(message);
    proof {
        assert(views(items@) =~= views(old(items)@).push(message@));
    }
    true
}

/// The message that `bytes` encode.
pub open spec fn decoded<M: WireMessage>(bytes: Seq<u8>) -> Option<M::V> {
    merged::<M>(M::initial(), bytes, RECURSION_LIMIT as nat)
}

/// Reads a message from its encoding; `None` where that is invalid.
pub fn decode<M: WireMessage>(bytes: &[u8]) -> (message: Option<M>)
    ensures
        optional_view(message) == decoded::<M>(bytes@),
{
    let mut message = M::empty();
    if merge(&mut message, bytes, RECURSION_LIMIT) {
        Some(message)
    } else {
        None
    }
}

/// The number that a varint field holds.
pub open spec fn payload_number(payload: Payload) -> Option<u64> {
    match payload {
        Payload::Varint(value) => Some(value),
        _ => None,
    }
}

/// The number that a varint field holds.
pub fn read_varint(value: FieldValue<'_>) -> (number: Option<u64>)
    ensures
        number == payload_number(value@),
{
    match value {
        FieldValue::Varint(number) => Some(number),
        _ => None,
    }
}

/// The text that a string field holds.
pub open spec fn payload_text(payload: Payload) -> Option<Seq<char>> {
    match payload {
        Payload::Bytes(bytes) => if valid_utf8(bytes) {
            Some(decode_utf8(bytes))
        } else {
            None
        },
        _ => None,
    }
}

/// The text that a string field holds.
pub fn read_text(value: FieldValue<'_>) -> (text: Option<String>)
    ensures
        match text {
            Some(text) => payload_text(value@) == Some(text@),
            None => payload_text(value@) is None,
        },
{
    match value {
        FieldValue::Bytes(bytes) => utf8_text(slice_to_vec(bytes)),
        _ => None,
    }
}

/// The key of the field `tag` with the given wire type.
pub open spec fn key_bytes(tag: u32, wire_type: u32) -> Seq<u8> {
    varint_bytes((tag * 8 + wire_type) as u64)
}

/// The encoding of the field `tag` that holds a varint.
pub open spec fn varint_field(tag: u32, value: u64) -> Seq<u8> {
    key_bytes(tag, VARINT) + varint_bytes(value)
}

/// The encoding of the field `tag` that holds `content`, behind its length.
pub open spec fn delimited_field(tag: u32, content: Seq<u8>) -> Seq<u8> {
    key_bytes(tag, LENGTH_DELIMITED) + varint_bytes(content.len() as u64) + content
}

/// The encoding of a number: nothing where it is zero, which is what the reader starts from.
pub open spec fn number_field(tag: u32, value: u64) -> Seq<u8> {
    if value == 0 {
        seq![]
    } else {
        varint_field(tag, value)
    }
}

/// The encoding of a run of bytes: nothing where it is empty.
pub open spec fn bytes_field(tag: u32, content: Seq<u8>) -> Seq<u8> {
    if content.len() == 0 {
        seq![]
    } else {
        delimited_field(tag, content)
    }
}

/// The encoding of a text: nothing where it is empty.
pub open spec fn text_field(tag: u32, text: Seq<char>) -> Seq<u8> {
    bytes_field(tag, encode_utf8(text))
}

/// A tag that a field can have.
pub open spec fn is_tag(tag: u32) -> bool {
    1 <= tag < 0x2000_0000
}

proof fn lemma_key_round_trip(tag: u32, wire_type: u32, rest: Seq<u8>)
    requires
        is_tag(tag),
        wire_type <= 5,
    ensures
        key_read(key_bytes(tag, wire_type) + rest) == Some((tag, wire_type, rest)),
{
    law_varint_round_trip((tag * 8 + wire_type) as u64, rest);
}

/// A varint field that was written is the field that is read back.
pub proof fn lemma_varint_field_round_trip<M: WireMessage>(
    tag: u32,
    value: u64,
    rest: Seq<u8>,
    budget: nat,
)
    requires
        is_tag(tag),
        !M::is_map(tag),
    ensures
        field_read::<M>(varint_field(tag, value) + rest, budget) == Some(
            (tag, Payload::Varint(value), rest),
        ),
{
    let behind = varint_bytes(value) + rest;
    assert(varint_field(tag, value) + rest =~= key_bytes(tag, VARINT) + behind);
    lemma_key_round_trip(tag, VARINT, behind);
    law_varint_round_trip(value, rest);
}

/// A length-delimited field that was written is the field that is read back.
pub proof fn lemma_delimited_field_round_trip<M: WireMessage>(
    tag: u32,
    content: Seq<u8>,
    rest: Seq<u8>,
    budget: nat,
)
    requires
        is_tag(tag),
        content.len() <= u64::MAX,
    ensures
        field_read::<M>(delimited_field(tag, content) + rest, budget) == Some(
            (tag, Payload::Bytes(content), rest),
        ),
{
    let behind = varint_bytes(content.len() as u64) + (content + rest);
    assert(delimited_field(tag, content) + rest =~= key_bytes(tag, LENGTH_DELIMITED) + behind);
    lemma_key_round_trip(tag, LENGTH_DELIMITED, behind);
    law_varint_round_trip(content.len() as u64, content + rest);
    assert((content + rest).take(content.len() as int) =~= content);
    assert((content + rest).skip(content.len() as int) =~= rest);
}

/// Reading a varint field and what stands behind it is reading the field first.
pub proof fn lemma_merged_varint<M: WireMessage>(
    model: M::V,
    tag: u32,
    value: u64,
    rest: Seq<u8>,
    budget: nat,
)
    requires
        is_tag(tag),
        !M::is_map(tag),
    ensures
        merged::<M>(model, varint_field(tag, value) + rest, budget) == (match M::field_merged(
            model,
            tag,
            Payload::Varint(value),
            budget,
        ) {
            Some(next) => merged::<M>(next, rest, budget),
            None => None,
        }),
{
    lemma_varint_field_round_trip::<M>(tag, value, rest, budget);
    lemma_field_shrinks::<M>(varint_field(tag, value) + rest, budget);
}

/// Reading a length-delimited field and what stands behind it is reading the field first.
pub proof fn lemma_merged_delimited<M: WireMessage>(
    model: M::V,
    tag: u32,
    content: Seq<u8>,
    rest: Seq<u8>,
    budget: nat,
)
    requires
        is_tag(tag),
        content.len() <= u64::MAX,
    ensures
        merged::<M>(model, delimited_field(tag, content) + rest, budget) == (
        match M::field_merged(model, tag, Payload::Bytes(content), budget) {
            Some(next) => merged::<M>(next, rest, budget),
            None => None,
        }),
{
    lemma_delimited_field_round_trip::<M>(tag, content, rest, budget);
    lemma_field_shrinks::<M>(delimited_field(tag, content) + rest, budget);
}

/// Reading a number and what stands behind it; a zero is not there to be read.
pub proof fn lemma_merged_number<M: WireMessage>(
    model: M::V,
    tag: u32,
    value: u64,
    rest: Seq<u8>,
    budget: nat,
)
    requires
        is_tag(tag),
        !M::is_map(tag),
    ensures
        merged::<M>(model, number_field(tag, value) + rest, budget) == (if value == 0 {
            merged::<M>(model, rest, budget)
        } else {
            match M::field_merged(model, tag, Payload::Varint(value), budget) {
                Some(next) => merged::<M>(next, rest, budget),
                None => None,
            }
        }),
{
    if value == 0 {
        assert(number_field(tag, value) + rest =~= rest);
    } else {
        lemma_merged_varint::<M>(model, tag, value, rest, budget);
    }
}

/// Reading a text and what stands behind it; an empty text is not there to be read.
pub proof fn lemma_merged_text<M: WireMessage>(
    model: M::V,
    tag: u32,
    text: Seq<char>,
    rest: Seq<u8>,
    budget: nat,
)
    requires
        is_tag(tag),
        encode_utf8(text).len() <= u64::MAX,
    ensures
        payload_text(Payload::Bytes(encode_utf8(text))) == Some(text),
        merged::<M>(model, text_field(tag, text) + rest, budget) == (if text.len() == 0 {
            merged::<M>(model, rest, budget)
        } else {
            match M::field_merged(model, tag, Payload::Bytes(encode_utf8(text)), budget) {
                Some(next) => merged::<M>(next, rest, budget),
                None => None,
            }
        }),
{
    encode_utf8_valid_utf8(text);
    encode_utf8_decode_utf8(text);
    if encode_utf8(text).len() == 0 {
        assert(encode_utf8(text) =~= encode_utf8(seq![]));
        lemma_same_bytes(text, seq![]);
        assert(text_field(tag, text) + rest =~= rest);
    } else {
        assert(text.len() > 0);
        lemma_merged_delimited::<M>(model, tag, encode_utf8(text), rest, budget);
    }
}

fn put_key(tag: u32, wire_type: u32, buf: &mut Vec<u8>)
    requires
        is_tag(tag),
        wire_type <= 5,
    ensures
        final(buf)@ == old(buf)@ + key_bytes(tag, wire_type),
{
    encode_varint((tag * 8 + wire_type) as u64, buf);
}

/// Appends a number, unless it is zero.
pub fn put_number(tag: u32, value: u64, buf: &mut Vec<u8>)
    requires
        is_tag(tag),
    ensures
        final(buf)@ == old(buf)@ + number_field(tag, value),
{
    if value != 0 {
        put_key(tag, VARINT, buf);
        encode_varint(value, buf);
    }
}

/// Appends a length-delimited field.
pub fn put_delimited(tag: u32, content: &[u8], buf: &mut Vec<u8>)
    requires
        is_tag(tag),
    ensures
        final(buf)@ == old(buf)@ + delimited_field(tag, content@),
{
    put_key(tag, LENGTH_DELIMITED, buf);
    encode_varint(content.len() as u64, buf);
    buf.extend_from_slice(content);
}

/// Appends a run of bytes, unless it is empty.
pub fn put_bytes(tag: u32, content: &[u8], buf: &mut Vec<u8>)
    requires
        is_tag(tag),
    ensures
        final(buf)@ == old(buf)@ + bytes_field(tag, content@),
{
    if content.len() > 0 {
        put_delimited(tag, content, buf);
    }
}

/// Appends a text, unless it is empty.
pub fn put_text(tag: u32, text: &str, buf: &mut Vec<u8>)
    requires
        is_tag(tag),
    ensures
        final(buf)@ == old(buf)@ + text_field(tag, text@),
{
    put_bytes(tag, text.as_bytes(), buf);
}

} // verus!
