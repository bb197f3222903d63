//! The bytes in which the options of a `CASE` are stored.
//!
//! They are a protobuf message of two fields: the number of pairs under the number 1, and whether
//! there is an `ELSE` under the number 2. A field that is zero or false is left out.

use crate::expr::expression::CaseWhenOptions;
use prost::encoding::{DecodeContext, WireType};
use vstd::prelude::*;

verus! {

/// A number in groups of seven bits, the lowest group first. All bytes but the last have the high
/// bit set.
pub open spec fn varint(n: nat) -> Seq<u8>
    decreases n,
{
    if n < 128 {
        seq![n as u8]
    } else {
        seq![(n % 128 + 128) as u8] + varint(n / 128)
    }
}

/// The number at the start of the bytes, in groups of seven bits, with the number of its bytes.
pub open spec fn groups_at_start(bytes: Seq<u8>) -> Option<(nat, nat)>
    decreases bytes.len(),
{
    if bytes.len() == 0 {
        None
    } else if bytes[0] < 128 {
        Some((bytes[0] as nat, 1))
    } else {
        match groups_at_start(bytes.skip(1)) {
            Some((v, n)) => Some(((bytes[0] - 128 + 128 * v) as nat, n + 1)),
            None => None,
        }
    }
}

/// The number at the start of the bytes, with the number of its bytes, if it has at most ten bytes
/// and fits in 64 bits.
pub open spec fn varint_at_start(bytes: Seq<u8>) -> Option<(nat, nat)> {
    match groups_at_start(bytes) {
        Some((v, n)) => if n <= 10 && v <= u64::MAX {
            Some((v, n))
        } else {
            None
        },
        None => None,
    }
}

/// The number of a field and how its value is stored, as they stand at the start of the bytes, with
/// the number of their bytes.
pub open spec fn key_at_start(bytes: Seq<u8>) -> Option<(nat, nat, nat)> {
    match varint_at_start(bytes) {
        Some((key, n)) => if key <= u32::MAX && key % 8 <= 5 && key / 8 >= 1 {
            Some((key / 8, key % 8, n))
        } else {
            None
        },
        None => None,
    }
}

/// How many bytes the value of a field takes that is passed over, or nothing if there is no such
/// value at the start of the bytes.
pub uninterp spec fn passed_over(wire_type: u8, tag: u32, bytes: Seq<u8>) -> Option<nat>;

/// Appends a field that is a number.
///
/// Calls `prost::encoding::uint32::encode`. The claim: it appends the number of the field, times
/// eight for a value in groups of seven bits, and the value, both in groups of seven bits.
#[verifier::external_body]
fn put_uint32(tag: u32, value: u32, buf: &mut Vec<u8>)
    requires
        1 <= tag < 0x2000_0000,
    ensures
        final(buf)@ == old(buf)@ + varint((8 * tag) as nat) + varint(value as nat),
{
    prost::encoding::uint32::encode(tag, &value, buf)
}

/// Appends a field that is true or false.
///
/// Calls `prost::encoding::bool::encode`. The claim: it appends the number of the field, times
/// eight for a value in groups of seven bits, and 1 for true or 0 for false.
#[verifier::external_body]
fn put_bool(tag: u32, value: bool, buf: &mut Vec<u8>)
    requires
        1 <= tag < 0x2000_0000,
    ensures
        final(buf)@ == old(buf)@ + varint((8 * tag) as nat) + varint(
            if value {
                1
            } else {
                0
            },
        ),
{
    prost::encoding::bool::encode(tag, &value, buf)
}

/// Reads the number of a field and how its value is stored, and returns what follows too.
///
/// Calls `prost::encoding::decode_key`. The claim: the key is a number in groups of seven bits, of
/// at most 32 bits, whose lowest three bits are one of the six ways to store a value and whose
/// other bits are the number of the field, which is not zero; all else is refused.
#[verifier::external_body]
fn take_key(bytes: &[u8]) -> (r: Option<(u32, u8, &[u8])>)
    ensures
        r is Some <==> key_at_start(bytes@) is Some,
        r matches Some((tag, wire_type, rest)) ==> (key_at_start(bytes@) matches Some((t, w, n))
            && tag == t && wire_type == w && n <= bytes@.len() && rest@ == bytes@.skip(n as int)),
{
    let mut buf = bytes;
    match prost::encoding::decode_key(&mut buf) {
        Ok((tag, wire_type)) => Some((tag, wire_type as u8, buf)),
        Err(_) => None,
    }
}

/// Reads a number, and returns what follows too.
///
/// Calls `prost::encoding::decode_varint`. The claim: the number is in groups of seven bits, with
/// at most ten bytes and 64 bits; all else is refused.
#[verifier::external_body]
fn take_varint(bytes: &[u8]) -> (r: Option<(u64, &[u8])>)
    ensures
        r is Some <==> varint_at_start(bytes@) is Some,
        r matches Some((value, rest)) ==> (varint_at_start(bytes@) matches Some((v, n)) && value
            == v && n <= bytes@.len() && rest@ == bytes@.skip(n as int)),
{
    let mut buf = bytes;
    match prost::encoding::decode_varint(&mut buf) {
        Ok(value) => Some((value, buf)),
        Err(_) => None,
    }
}

/// Passes over the value of a field, and returns what follows.
///
/// Calls `prost::encoding::skip_field`. How far it goes is named, not stated: that takes the whole
/// grammar of stored values, with groups inside groups. It goes no farther than the bytes.
#[verifier::external_body]
fn pass_over(wire_type: u8, tag: u32, bytes: &[u8]) -> (r: Option<&[u8]>)
    requires
        wire_type <= 5,
    ensures
        r is Some <==> passed_over(wire_type, tag, bytes@) is Some,
        r matches Some(rest) ==> (passed_over(wire_type, tag, bytes@) matches Some(n) && n
            <= bytes@.len() && rest@ == bytes@.skip(n as int)),
{
    let mut buf = bytes;
    let wire_type = WireType::try_from(u64::from(wire_type)).ok()?;
    match prost::encoding::skip_field(wire_type, tag, &mut buf, DecodeContext::default()) {
        Ok(()) => Some(buf),
        Err(_) => None,
    }
}

/// The bytes of the options.
pub open spec fn encoded(options: CaseWhenOptions) -> Seq<u8> {
    (if options.num_when_then_pairs != 0 {
        varint(8) + varint(options.num_when_then_pairs as nat)
    } else {
        Seq::empty()
    }) + (if options.has_else {
        varint(16) + varint(1)
    } else {
        Seq::empty()
    })
}

/// The options that the bytes are, where those read before them gave `options`. The last of two
/// fields with the same number counts, and a field with another number is passed over.
pub open spec fn decoded_from(bytes: Seq<u8>, options: CaseWhenOptions) -> Option<CaseWhenOptions>
    decreases bytes.len(),
{
    if bytes.len() == 0 {
        Some(options)
    } else {
        match key_at_start(bytes) {
            None => None,
            Some((tag, wire_type, n)) => {
                let rest = bytes.skip(n as int);
                if n == 0 || n > bytes.len() {
                    None
                } else if tag == 1 || tag == 2 {
                    match varint_at_start(rest) {
                        Some((v, k)) => if wire_type != 0 || k > rest.len() {
                            None
                        } else if tag == 1 {
                            decoded_from(
                                rest.skip(k as int),
                                CaseWhenOptions {
                                    num_when_then_pairs: (v % 0x1_0000_0000) as u32,
                                    ..options
                                },
                            )
                        } else {
                            decoded_from(
                                rest.skip(k as int),
                                CaseWhenOptions { has_else: v != 0, ..options },
                            )
                        },
                        None => None,
                    }
                } else {
                    match passed_over(wire_type as u8, tag as u32, rest) {
                        Some(k) => if k > rest.len() {
                            None
                        } else {
                            decoded_from(rest.skip(k as int), options)
                        },
                        None => None,
                    }
                }
            },
        }
    }
}

/// The options that the bytes are, or nothing if they are none. A field that is left out is zero or
/// false.
pub open spec fn decoded(bytes: Seq<u8>) -> Option<CaseWhenOptions> {
    decoded_from(bytes, CaseWhenOptions { num_when_then_pairs: 0, has_else: false })
}

/// Returns the bytes of the options.
pub fn encode(options: &CaseWhenOptions) -> (r: Vec<u8>)
    ensures
        r@ == encoded(*options),
{
    let mut buf: Vec<u8> = Vec::new();
    if options.num_when_then_pairs != 0 {
        put_uint32(1, options.num_when_then_pairs, &mut buf);
    }
    if options.has_else {
        put_bool(2, true, &mut buf);
    }
    assert(buf@ =~= encoded(*options));
    buf
}

proof fn lemma_groups_have_bytes(bytes: Seq<u8>)
    ensures
        groups_at_start(bytes) matches Some((v, n)) ==> 1 <= n <= bytes.len(),
    decreases bytes.len(),
{
    if bytes.len() > 0 && bytes[0] >= 128 {
        lemma_groups_have_bytes(bytes.skip(1));
    }
}

/// Returns the options that the bytes are, or nothing if they are none.
pub fn decode(bytes: &[u8]) -> (r: Option<CaseWhenOptions>)
    ensures
        r == decoded(bytes@),
{
    let mut options = CaseWhenOptions { num_when_then_pairs: 0, has_else: false };
    let mut rest = bytes;
    while rest.len() > 0
        invariant
            decoded(bytes@) == decoded_from(rest@, options),
        decreases rest@.len(),
    {
        proof {
            lemma_groups_have_bytes(rest@);
        }
        let (tag, wire_type, value_bytes) = match take_key(rest) {
            Some(key) => key,
            None => {
                return None;
            },
        };
        if tag == 1 || tag == 2 {
            proof {
                lemma_groups_have_bytes(value_bytes@);
            }
            if wire_type != 0 {
                return None;
            }
            match take_varint(value_bytes) {
                Some((value, following)) => {
                    if tag == 1 {
                        options =
                        CaseWhenOptions {
                            num_when_then_pairs: (value % 0x1_0000_0000) as u32,
                            has_else: options.has_else,
                        };
                    } else {
                        options =
                        CaseWhenOptions {
                            num_when_then_pairs: options.num_when_then_pairs,
                            has_else: value != 0,
                        };
                    }
                    rest = following;
                },
                None => {
                    return None;
                },
            }
        } else {
            match pass_over(wire_type, tag, value_bytes) {
                Some(following) => {
                    rest = following;
                },
                None => {
                    return None;
                },
            }
        }
    }
    Some(options)
}

proof fn lemma_varint_is_read_back(n: nat, rest: Seq<u8>)
    ensures
        groups_at_start(varint(n) + rest) == Some((n, varint(n).len())),
        (varint(n) + rest).skip(varint(n).len() as int) == rest,
    decreases n,
{
    let all = varint(n) + rest;
    assert(all.skip(varint(n).len() as int) =~= rest);
    if n >= 128 {
        lemma_varint_is_read_back(n / 128, rest);
        assert(all.skip(1) =~= varint(n / 128) + rest);
    }
}

proof fn lemma_varint_is_short(n: nat)
    requires
        n <= u32::MAX,
    ensures
        1 <= varint(n).len() <= 5,
{
    reveal_with_fuel(varint, 5);
}

/// What is stored is read back: the bytes of any options are those options.
pub proof fn law_options_are_read_back(options: CaseWhenOptions)
    ensures
        decoded(encoded(options)) == Some(options),
{
    let pairs = options.num_when_then_pairs as nat;
    let none = CaseWhenOptions { num_when_then_pairs: 0, has_else: false };
    let tail: Seq<u8> = if options.has_else {
        varint(16) + varint(1)
    } else {
        Seq::empty()
    };
    let some = CaseWhenOptions { num_when_then_pairs: options.num_when_then_pairs, has_else: false };
    lemma_varint_is_short(8);
    lemma_varint_is_short(16);
    lemma_varint_is_short(1);
    lemma_varint_is_short(pairs);
    assert(decoded_from(tail, some) == Some(options)) by {
        if options.has_else {
            lemma_varint_is_read_back(16, varint(1));
            lemma_varint_is_read_back(1, Seq::empty());
            assert(varint(1) + Seq::<u8>::empty() =~= varint(1));
            assert(varint(1).skip(varint(1).len() as int) =~= Seq::<u8>::empty());
            assert(decoded_from(Seq::empty(), options) == Some(options));
        }
    }
    if pairs != 0 {
        let value = varint(pairs) + tail;
        lemma_varint_is_read_back(8, value);
        lemma_varint_is_read_back(pairs, tail);
        assert(encoded(options) =~= varint(8) + value);
        assert(pairs % 0x1_0000_0000 == pairs);
    } else {
        assert(encoded(options) =~= tail);
    }
}

/// The options are stored as a message: the number of pairs as field 1 and whether there is an
/// `ELSE` as field 2, each in groups of seven bits behind its key, and what is zero or false not at
/// all.
pub proof fn law_the_options_are_a_message_of_two_fields(options: CaseWhenOptions)
    ensures
        ({
            let bytes = encoded(options);
            let n = bytes.len() as int;
            &&& options.num_when_then_pairs == 0 && !options.has_else <==> n == 0
            &&& options.num_when_then_pairs != 0 ==> bytes[0] == 8 && (groups_at_start(
                bytes.skip(1),
            ) matches Some((v, k)) && v == options.num_when_then_pairs && (!options.has_else ==> k
                == n - 1) && (options.has_else ==> k == n - 3))
            &&& options.has_else ==> n >= 2 && bytes[n - 2] == 16 && bytes[n - 1] == 1
        }),
{
    let pairs = options.num_when_then_pairs as nat;
    let bytes = encoded(options);
    let tail: Seq<u8> = if options.has_else {
        varint(16) + varint(1)
    } else {
        Seq::empty()
    };
    lemma_varint_is_short(pairs);
    if pairs != 0 {
        assert(bytes =~= varint(8) + (varint(pairs) + tail));
        assert(bytes.skip(1) =~= varint(pairs) + tail);
        lemma_varint_is_read_back(pairs, tail);
    } else {
        assert(bytes =~= tail);
    }
}

/// Each number of 64 bits is read back from the groups of seven bits that it is stored in, whatever
/// follows it.
pub proof fn law_a_number_in_groups_is_read_back(n: u64, rest: Seq<u8>)
    ensures
        varint_at_start(varint(n as nat) + rest) == Some((n as nat, varint(n as nat).len())),
        (varint(n as nat) + rest).skip(varint(n as nat).len() as int) == rest,
{
    lemma_varint_is_read_back(n as nat, rest);
    reveal_with_fuel(varint, 10);
}

/// The key of a field is its number and how its value is stored, in one number.
pub proof fn law_a_key_is_read_back(tag: u32, wire_type: u8, rest: Seq<u8>)
    requires
        1 <= tag < 0x2000_0000,
        wire_type <= 5,
    ensures
        ({
            let key = (8 * tag + wire_type) as nat;
            key_at_start(varint(key) + rest) == Some(
                (tag as nat, wire_type as nat, varint(key).len()),
            )
        }),
{
    let key = (8 * tag + wire_type) as nat;
    law_a_number_in_groups_is_read_back(key as u64, rest);
}

/// What is read as a key has a number of a field that is not zero and one of the six ways to store a
/// value; a number is no key that has none of these, or that does not fit in 32 bits.
pub proof fn law_what_is_no_key(bytes: Seq<u8>, key: u64, rest: Seq<u8>)
    ensures
        key_at_start(bytes) matches Some((tag, wire_type, n)) ==> 1 <= tag < 0x2000_0000
            && wire_type < 6 && varint_at_start(bytes) == Some(((8 * tag + wire_type) as nat, n)),
        key < 8 || key % 8 == 6 || key % 8 == 7 || key > u32::MAX ==> key_at_start(
            varint(key as nat) + rest,
        ) is None,
{
    law_a_number_in_groups_is_read_back(key, rest);
}

} // verus!
