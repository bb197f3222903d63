//! One pass over the rows of an array.

use arrow_buffer::bit_iterator::BitIndexIterator;
use vstd::prelude::*;

verus! {

/// Which rows are to be looked at.
#[derive(Debug)]
pub enum Mask {
    AllTrue(usize),
    AllFalse(usize),
    Values(Vec<bool>),
}

impl Mask {
    /// The number of rows.
    pub open spec fn len_spec(self) -> nat {
        match self {
            Mask::AllTrue(len) => len as nat,
            Mask::AllFalse(len) => len as nat,
            Mask::Values(bits) => bits@.len(),
        }
    }

    /// Whether the row at `i` is to be looked at.
    pub open spec fn value(self, i: int) -> bool {
        match self {
            Mask::AllTrue(_) => true,
            Mask::AllFalse(_) => false,
            Mask::Values(bits) => bits@[i],
        }
    }
}

/// Returns, for each row, whether it is valid and a hit. `hit` is asked about a row only when that
/// row is valid.
pub fn probe_rows<F: Fn(usize) -> bool>(len: usize, validity: &Mask, hit: F) -> (r: Vec<bool>)
    requires
        validity.len_spec() == len,
        forall|i: usize| i < len && validity.value(i as int) ==> #[trigger] hit.requires((i,)),
    ensures
        r@.len() == len,
        forall|i: usize|
            #![trigger r@[i as int]]
            i < len && !validity.value(i as int) ==> !r@[i as int],
        forall|i: usize|
            #![trigger r@[i as int]]
            i < len && validity.value(i as int) ==> hit.ensures((i,), r@[i as int]),
{
    let mut bits: Vec<bool> = Vec::new();
    let mut i: usize = 0;
    while i < len
        invariant
            0 <= i <= len,
            validity.len_spec() == len,
            forall|i: usize| i < len && validity.value(i as int) ==> #[trigger] hit.requires((i,)),
            bits@.len() == i,
            forall|j: usize|
                #![trigger bits@[j as int]]
                j < i && !validity.value(j as int) ==> !bits@[j as int],
            forall|j: usize|
                #![trigger bits@[j as int]]
                j < i && validity.value(j as int) ==> hit.ensures((j,), bits@[j as int]),
        decreases len - i,
    {
        let bit: bool = match validity {
            Mask::AllTrue(_) => hit(i),
            Mask::AllFalse(_) => false,
            Mask::Values(valid) => if valid[i] {
                hit(i)
            } else {
                false
            },
        };
        bits.push(bit);
        i += 1;
    }
    bits
}

/// Whether the bit at `i` is set, the lowest bit of each byte first.
pub open spec fn bit_set(bytes: Seq<u8>, i: int) -> bool {
    bytes[i / 8] & (1u8 << ((i % 8) as u8)) != 0
}

/// Whether any of `len` bits from `offset` on is set.
pub open spec fn any_bit_set(bytes: Seq<u8>, offset: int, len: int) -> bool {
    exists|i: int| offset <= i < offset + len && #[trigger] bit_set(bytes, i)
}

/// Returns whether any of `len` bits from `offset` on is set.
///
/// Asks `arrow_buffer::bit_iterator::BitIndexIterator` for its first index. The claim: the iterator
/// over a window of bits, the lowest bit of each byte first, yields an index exactly when some bit
/// of the window is set. It slices the bytes by the window and adds up to 63 bits of padding to
/// the length, so the window has to lie inside the bytes, with that much room in `usize`.
#[verifier::external_body]
fn any_set(bytes: &[u8], offset: usize, len: usize) -> (r: bool)
    requires
        offset + len <= 8 * bytes@.len(),
        offset + len + 64 <= usize::MAX,
    ensures
        r == any_bit_set(bytes@, offset as int, len as int),
{
    BitIndexIterator::new(bytes, offset, len).next().is_some()
}

/// Returns the bits in bytes, the lowest bit of each byte first.
pub fn pack_bits(bits: &Vec<bool>) -> (r: Vec<u8>)
    ensures
        8 * r@.len() >= bits@.len(),
        forall|i: int| 0 <= i < bits@.len() ==> #[trigger] bit_set(r@, i) == bits@[i],
{
    let mut bytes: Vec<u8> = Vec::new();
    let mut i: usize = 0;
    while i < bits.len()
        invariant
            0 <= i <= bits.len(),
            8 * bytes@.len() >= i,
            8 * bytes@.len() < i + 8,
            forall|j: int| 0 <= j < i ==> #[trigger] bit_set(bytes@, j) == bits@[j],
            forall|j: int| i <= j < 8 * bytes@.len() ==> !#[trigger] bit_set(bytes@, j),
        decreases bits.len() - i,
    {
        let k: u8 = (i % 8) as u8;
        let ghost before = bytes@;
        if k == 0 {
            bytes.push(0);
            proof {
                assert forall|j: int| i <= j < 8 * bytes@.len() implies !#[trigger] bit_set(
                    bytes@,
                    j,
                ) by {
                    let s = (j % 8) as u8;
                    assert(0u8 & (1u8 << s) == 0) by (bit_vector);
                    assert(j / 8 == before.len());
                }
                assert forall|j: int| 0 <= j < i implies #[trigger] bit_set(bytes@, j)
                    == bits@[j] by {
                    assert(bit_set(before, j) == bits@[j]);
                }
            }
        }
        let last: usize = bytes.len() - 1;
        assert(last == i as int / 8);
        if bits[i] {
            let ghost old_bytes = bytes@;
            let b: u8 = bytes[last];
            bytes.set(last, b | (1u8 << k));
            proof {
                assert forall|j: int| 0 <= j < 8 * bytes@.len() implies #[trigger] bit_set(
                    bytes@,
                    j,
                ) == (bit_set(old_bytes, j) || j == i) by {
                    if j / 8 == last {
                        let s = (j % 8) as u8;
                        assert((b | (1u8 << k)) & (1u8 << s) != 0 <==> (b & (1u8 << s) != 0 || s
                            == k)) by (bit_vector)
                            requires
                                s < 8,
                                k < 8,
                        ;
                    }
                }
            }
        }
        i += 1;
    }
    bytes
}

/// Whether each of the lists that lie at `offsets`, with `sizes`, holds a match.
pub open spec fn list_matches(
    matches: Seq<bool>,
    offsets: Seq<usize>,
    sizes: Seq<usize>,
) -> Seq<bool> {
    Seq::new(
        offsets.len(),
        |i: int|
            exists|j: int| offsets[i] <= j < offsets[i] + sizes[i] && #[trigger] matches[j],
    )
}

/// Returns, for each list, whether any of its elements matches.
pub fn process_matches(matches: &Vec<bool>, offsets: &Vec<usize>, sizes: &Vec<usize>) -> (r: Vec<
    bool,
>)
    requires
        offsets@.len() == sizes@.len(),
        matches@.len() + 64 <= usize::MAX,
        forall|i: int|
            0 <= i < offsets@.len() ==> (#[trigger] offsets@[i]) + sizes@[i] <= matches@.len(),
    ensures
        r@ == list_matches(matches@, offsets@, sizes@),
{
    let bytes = pack_bits(matches);
    let mut found: Vec<bool> = Vec::new();
    let mut i: usize = 0;
    while i < offsets.len()
        invariant
            0 <= i <= offsets.len(),
            offsets@.len() == sizes@.len(),
            matches@.len() + 64 <= usize::MAX,
            forall|i: int|
                0 <= i < offsets@.len() ==> (#[trigger] offsets@[i]) + sizes@[i] <= matches@.len(),
            8 * bytes@.len() >= matches@.len(),
            forall|i: int|
                0 <= i < matches@.len() ==> #[trigger] bit_set(bytes@, i) == matches@[i],
            found@.len() == i,
            forall|j: int|
                0 <= j < i ==> #[trigger] found@[j] == list_matches(
                    matches@,
                    offsets@,
                    sizes@,
                )[j],
        decreases offsets.len() - i,
    {
        let any = any_set(bytes.as_slice(), offsets[i], sizes[i]);
        proof {
            let (o, s) = (offsets@[i as int], sizes@[i as int]);
            if any {
                let j = choose|j: int| o <= j < o + s && #[trigger] bit_set(bytes@, j);
                assert(matches@[j]);
            } else {
                assert forall|j: int| o <= j < o + s implies !#[trigger] matches@[j] by {
                    assert(!bit_set(bytes@, j));
                }
            }
        }
        found.push(any);
        i += 1;
    }
    assert(found@ =~= list_matches(matches@, offsets@, sizes@));
    found
}

/// A list matches through its elements: none does without one, one element matches by itself, and a
/// list matches exactly if one of the two parts does that it is cut into.
pub proof fn law_a_list_matches_in_one_of_its_parts(
    matches: Seq<bool>,
    offset: usize,
    first: usize,
    second: usize,
)
    requires
        offset + first + second <= usize::MAX,
    ensures
        list_matches(matches, seq![offset], seq![0]) == seq![false],
        list_matches(matches, seq![offset], seq![1]) == seq![matches[offset as int]],
        list_matches(matches, seq![offset], seq![(first + second) as usize])[0] == (list_matches(
            matches,
            seq![offset],
            seq![first],
        )[0] || list_matches(matches, seq![(offset + first) as usize], seq![second])[0]),
{
    let m = offset + first;
    let whole = list_matches(matches, seq![offset], seq![(first + second) as usize])[0];
    let left = list_matches(matches, seq![offset], seq![first])[0];
    let right = list_matches(matches, seq![(offset + first) as usize], seq![second])[0];
    if whole {
        let j = choose|j: int|
            offset <= j < offset + (first + second) && #[trigger] matches[j];
        if j < m {
            assert(left);
        } else {
            assert(right);
        }
    }
    if left {
        let j = choose|j: int| offset <= j < offset + first && #[trigger] matches[j];
        assert(whole);
    }
    if right {
        let j = choose|j: int| m <= j < m + second && #[trigger] matches[j];
        assert(whole);
    }
    assert(matches[offset as int] == matches[offset as int]);
}

/// Each list is answered by itself, in its place.
pub proof fn law_lists_match_each_by_itself(
    matches: Seq<bool>,
    offsets: Seq<usize>,
    sizes: Seq<usize>,
    i: int,
)
    requires
        offsets.len() == sizes.len(),
        0 <= i < offsets.len(),
    ensures
        list_matches(matches, offsets, sizes).len() == offsets.len(),
        list_matches(matches, offsets, sizes)[i] == list_matches(
            matches,
            seq![offsets[i]],
            seq![sizes[i]],
        )[0],
{
}

/// The bits of a byte are packed from the lowest on, and what was packed can be told from the bytes.
pub proof fn law_packed_bits_are_told(a: Vec<bool>, b: Vec<bool>, bytes: Vec<u8>, k: int)
    requires
        call_ensures(pack_bits, (&a,), bytes),
        call_ensures(pack_bits, (&b,), bytes),
        a@.len() == b@.len(),
    ensures
        a@ == b@,
        bit_set(bytes@, 8 * k) <==> bytes@[k] % 2 == 1,
        bit_set(bytes@, 8 * k + 7) <==> bytes@[k] >= 128,
{
    assert forall|i: int| 0 <= i < a@.len() implies a@[i] == b@[i] by {
        assert(bit_set(bytes@, i) == a@[i]);
        assert(bit_set(bytes@, i) == b@[i]);
    }
    let byte = bytes@[k];
    assert((8 * k) / 8 == k && (8 * k) % 8 == 0);
    assert((8 * k + 7) / 8 == k && (8 * k + 7) % 8 == 7);
    assert((byte & (1u8 << 0u8) != 0) == (byte % 2 == 1)) by (bit_vector);
    assert((byte & (1u8 << 7u8) != 0) == (byte >= 128)) by (bit_vector);
}

} // verus!
