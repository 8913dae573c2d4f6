//! Worst-case wire sizes of payload types, so that frame buffers can be
//! sized from the type alone.
pub mod prelude;

use vstd::prelude::*;

verus! {

/// The largest number of bytes the postcard encoding of a value of this type can take.
pub trait MaxSize {
    const MAX_SIZE: usize;
}

/// A payload type whose encrypted frames have a known worst-case size:
/// header, encoded payload and tag.
pub trait MaxPayloadSize: MaxSize {
    const FRAME_SIZE: usize;
}

/// A type that can travel as the payload of a packet.
pub trait Payload: MaxPayloadSize {}

/// What the worst-case size of a payload type is computed from: the
/// worst-case sizes of its fields.
pub enum PayloadShape {
    /// A struct (named, tuple or unit) with the worst-case sizes of its fields.
    Struct(Vec<usize>),
    /// An enum with, for each variant, the worst-case sizes of its fields.
    Enum(Vec<Vec<usize>>),
    /// A union, which payloads do not support.
    Union,
}

/// Why no worst-case size can be given for a payload type.
#[derive(Debug, Clone, Copy, PartialEq, Eq)]
pub enum SizeError {
    /// The kind of type is not supported as a payload.
    Unsupported,
    /// The size does not fit in a `usize`.
    Overflow,
}

/// The sum of the field sizes.
pub open spec fn sum_sizes(sizes: Seq<usize>) -> int
    decreases sizes.len(),
{
    if sizes.len() == 0 {
        0
    } else {
        sum_sizes(sizes.drop_last()) + sizes.last()
    }
}

/// The largest sum of field sizes over the variants (0 for no variant).
pub open spec fn largest_variant(variants: Seq<Seq<usize>>) -> int
    decreases variants.len(),
{
    if variants.len() == 0 {
        0
    } else {
        let rest = largest_variant(variants.drop_last());
        let last = sum_sizes(variants.last());
        if rest > last {
            rest
        } else {
            last
        }
    }
}

/// The worst-case encoded size of a payload type of the given shape: the
/// sum of a struct's field sizes, or the largest variant of an enum plus
/// 5 bytes for the varint discriminant.
pub open spec fn shape_max_size(shape: PayloadShape) -> Option<int> {
    match shape {
        PayloadShape::Struct(fields) => Some(sum_sizes(fields@)),
        PayloadShape::Enum(variants) => Some(largest_variant(variants.deep_view()) + 5),
        PayloadShape::Union => None,
    }
}

/// A struct with no fields encodes to nothing, and appending a field adds
/// exactly its size.
pub proof fn lemma_sum_sizes_push(s: Seq<usize>, x: usize)
    ensures
        sum_sizes(Seq::<usize>::empty()) == 0,
        sum_sizes(s.push(x)) == sum_sizes(s) + x,
{
    assert(s.push(x).drop_last() =~= s);
}

/// The size of two field lists one after the other is the sum of their sizes.
pub proof fn lemma_sum_sizes_concat(a: Seq<usize>, b: Seq<usize>)
    ensures
        sum_sizes(a + b) == sum_sizes(a) + sum_sizes(b),
    decreases b.len(),
{
    if b.len() == 0 {
        assert(a + b =~= a);
    } else {
        lemma_sum_sizes_concat(a, b.drop_last());
        assert((a + b).drop_last() =~= a + b.drop_last());
    }
}

/// An enum with no variants has no largest variant (0), and adding a
/// variant gives the larger of the previous largest and the new variant's
/// size.
pub proof fn lemma_largest_variant_push(vs: Seq<Seq<usize>>, v: Seq<usize>)
    ensures
        largest_variant(Seq::<Seq<usize>>::empty()) == 0,
        largest_variant(vs.push(v)) == if largest_variant(vs) > sum_sizes(v) {
            largest_variant(vs)
        } else {
            sum_sizes(v)
        },
{
    assert(vs.push(v).drop_last() =~= vs);
}

proof fn lemma_sum_sizes_prefix_mono(s: Seq<usize>, i: int, j: int)
    requires
        0 <= i <= j <= s.len(),
    ensures
        sum_sizes(s.subrange(0, i)) <= sum_sizes(s.subrange(0, j)),
    decreases j - i,
{
    if i < j {
        lemma_sum_sizes_prefix_mono(s, i, j - 1);
        assert(s.subrange(0, j).drop_last() =~= s.subrange(0, j - 1));
    }
}

proof fn lemma_largest_variant_prefix_mono(s: Seq<Seq<usize>>, i: int, j: int)
    requires
        0 <= i <= j <= s.len(),
    ensures
        largest_variant(s.subrange(0, i)) <= largest_variant(s.subrange(0, j)),
    decreases j - i,
{
    if i < j {
        lemma_largest_variant_prefix_mono(s, i, j - 1);
        assert(s.subrange(0, j).drop_last() =~= s.subrange(0, j - 1));
    }
}

/// The sum of the field sizes, or `None` when it does not fit in a `usize`.
pub fn sum_field_sizes(sizes: &[usize]) -> (r: Option<usize>)
    ensures
        match r {
            Some(n) => n == sum_sizes(sizes@),
            None => sum_sizes(sizes@) > usize::MAX,
        },
{
    let mut total: usize = 0;
    let mut i: usize = 0;
    while i < sizes.len()
        invariant
            0 <= i <= sizes@.len(),
            total == sum_sizes(sizes@.subrange(0, i as int)),
        decreases sizes@.len() - i,
    {
        assert(sizes@.subrange(0, i + 1).drop_last() =~= sizes@.subrange(0, i as int));
        if sizes[i] > usize::MAX - total {
            proof {
                lemma_sum_sizes_prefix_mono(sizes@, i + 1, sizes@.len() as int);
                assert(sizes@.subrange(0, sizes@.len() as int) =~= sizes@);
            }
            return None;
        }
        total = total + sizes[i];
        i = i + 1;
    }
    assert(sizes@.subrange(0, sizes@.len() as int) =~= sizes@);
    Some(total)
}

/// The worst-case encoded size of a payload type of the given shape.
pub fn max_size(shape: &PayloadShape) -> (r: Result<usize, SizeError>)
    ensures
        match shape_max_size(*shape) {
            None => r == Err::<usize, SizeError>(SizeError::Unsupported),
            Some(n) => match r {
                Ok(m) => m == n,
                Err(e) => e == SizeError::Overflow && n > usize::MAX,
            },
        },
{
    match shape {
        PayloadShape::Struct(fields) => match sum_field_sizes(fields.as_slice()) {
            Some(n) => Ok(n),
            None => Err(SizeError::Overflow),
        },
        PayloadShape::Enum(variants) => {
            let ghost vs = variants.deep_view();
            let mut largest: usize = 0;
            let mut i: usize = 0;
            while i < variants.len()
                invariant
                    0 <= i <= variants@.len(),
                    vs == variants.deep_view(),
                    shape_max_size(*shape) == Some(largest_variant(vs) + 5),
                    largest == largest_variant(vs.subrange(0, i as int)),
                decreases variants@.len() - i,
            {
                assert(vs.subrange(0, i + 1).drop_last() =~= vs.subrange(0, i as int));
                assert(vs[i as int] =~= variants@[i as int]@);
                let size = match sum_field_sizes(variants[i].as_slice()) {
                    Some(n) => n,
                    None => {
                        proof {
                            assert(largest_variant(vs.subrange(0, i + 1)) > usize::MAX);
                            lemma_largest_variant_prefix_mono(vs, i + 1, vs.len() as int);
                            assert(vs.subrange(0, vs.len() as int) =~= vs);
                        }
                        return Err(SizeError::Overflow);
                    },
                };
                if size > largest {
                    largest = size;
                }
                i = i + 1;
            }
            assert(vs.subrange(0, vs.len() as int) =~= vs);
            if largest > usize::MAX - 5 {
                return Err(SizeError::Overflow);
            }
            Ok(largest + 5)
        },
        PayloadShape::Union => Err(SizeError::Unsupported),
    }
}

/// The frame size of a payload type: its worst-case encoded size plus the
/// 16-byte header and the 16-byte tag, or `None` when that does not fit in a `usize`.
pub fn frame_size(max_size: usize) -> (r: Option<usize>)
    ensures
        match r {
            Some(n) => n == max_size + 32,
            None => max_size + 32 > usize::MAX,
        },
{
    max_size.checked_add(32)
}

/// Whether a field type named `name` (the last segment of its path) is a
/// pointer-width integer, whose encoded size differs between platforms and
/// which payload types therefore reject.
pub fn is_pointer_width_type(name: &[u8]) -> (r: bool)
    ensures
        r == (name@ == seq![117u8, 115, 105, 122, 101] || name@ == seq![105u8, 115, 105, 122, 101]),
{
    let usize_name: [u8; 5] = [117, 115, 105, 122, 101];
    let isize_name: [u8; 5] = [105, 115, 105, 122, 101];
    crate::bytes::bytes_eq(name, usize_name.as_slice()) || crate::bytes::bytes_eq(
        name,
        isize_name.as_slice(),
    )
}

/// Whether `c` can be part of a Rust identifier.
pub open spec fn is_ident_byte(c: u8) -> bool {
    (97 <= c <= 122) || (65 <= c <= 90) || (48 <= c <= 57) || c == 95
}

/// Whether the identifier `word` stands as a whole word at position `i` of `ty`.
pub open spec fn word_at(ty: Seq<u8>, i: int, word: Seq<u8>) -> bool {
    &&& 0 <= i
    &&& i + word.len() <= ty.len()
    &&& ty.subrange(i, i + word.len()) == word
    &&& (i == 0 || !is_ident_byte(ty[i - 1]))
    &&& (i + word.len() == ty.len() || !is_ident_byte(ty[i + word.len()]))
}

/// Whether the written type `ty` names `usize` or `isize` anywhere, as a
/// whole word: directly, or inside an array, a tuple or a generic argument.
pub open spec fn mentions_pointer_width(ty: Seq<u8>) -> bool {
    exists|i: int|
        word_at(ty, i, seq![117u8, 115, 105, 122, 101]) || word_at(
            ty,
            i,
            seq![105u8, 115, 105, 122, 101],
        )
}

/// `usize` or `isize` written as a whole word anywhere in a type, that is
/// not preceded or followed by a letter, a digit or `_`, is found.
pub proof fn lemma_pointer_width_found(pre: Seq<u8>, word: Seq<u8>, suf: Seq<u8>)
    requires
        word == seq![117u8, 115, 105, 122, 101] || word == seq![105u8, 115, 105, 122, 101],
        pre.len() == 0 || !(97 <= pre.last() <= 122 || 65 <= pre.last() <= 90 || 48 <= pre.last()
            <= 57 || pre.last() == 95),
        suf.len() == 0 || !(97 <= suf[0] <= 122 || 65 <= suf[0] <= 90 || 48 <= suf[0] <= 57
            || suf[0] == 95),
    ensures
        mentions_pointer_width(pre + word + suf),
{
    let ty = pre + word + suf;
    let i = pre.len() as int;
    assert(ty.subrange(i, i + 5) =~= word);
    if i > 0 {
        assert(ty[i - 1] == pre.last());
    }
    if suf.len() > 0 {
        assert(ty[i + 5] == suf[0]);
    }
    assert(word_at(ty, i, word));
}

fn is_ident_char(c: u8) -> (r: bool)
    ensures
        r == is_ident_byte(c),
{
    (97 <= c && c <= 122) || (65 <= c && c <= 90) || (48 <= c && c <= 57) || c == 95
}

/// Whether the word `word` of five bytes stands at position `i` of `ty`.
fn is_word_at(ty: &[u8], i: usize, word: &[u8; 5]) -> (r: bool)
    ensures
        r == word_at(ty@, i as int, word@),
{
    let n = ty.len();
    if i > n || n - i < 5 {
        return false;
    }
    let mut k: usize = 0;
    while k < 5
        invariant
            0 <= k <= 5,
            i + 5 <= n,
            n == ty@.len(),
            forall|j: int| 0 <= j < k ==> ty@[i + j] == word@[j],
        decreases 5 - k,
    {
        if ty[i + k] != word[k] {
            assert(ty@.subrange(i as int, i + 5)[k as int] != word@[k as int]);
            return false;
        }
        k = k + 1;
    }
    assert(ty@.subrange(i as int, i + 5) =~= word@);
    let before_ok = i == 0 || !is_ident_char(ty[i - 1]);
    let after_ok = i + 5 == n || !is_ident_char(ty[i + 5]);
    before_ok && after_ok
}

/// Whether a field's written type names `usize` or `isize` anywhere, as in
/// `usize`, `[usize; 2]` or `(u8, isize)`: their encoded size differs
/// between platforms, so payload types reject them.
pub fn mentions_pointer_width_type(ty: &[u8]) -> (r: bool)
    ensures
        r == mentions_pointer_width(ty@),
{
    let usize_name: [u8; 5] = [117, 115, 105, 122, 101];
    let isize_name: [u8; 5] = [105, 115, 105, 122, 101];
    assert(usize_name@ =~= seq![117u8, 115, 105, 122, 101]);
    assert(isize_name@ =~= seq![105u8, 115, 105, 122, 101]);
    let mut i: usize = 0;
    while i < ty.len()
        invariant
            0 <= i <= ty@.len(),
            usize_name@ == seq![117u8, 115, 105, 122, 101],
            isize_name@ == seq![105u8, 115, 105, 122, 101],
            forall|j: int|
                0 <= j < i ==> !word_at(ty@, j, usize_name@) && !word_at(ty@, j, isize_name@),
        decreases ty@.len() - i,
    {
        if is_word_at(ty, i, &usize_name) || is_word_at(ty, i, &isize_name) {
            return true;
        }
        i = i + 1;
    }
    assert forall|j: int|
        !(word_at(ty@, j, usize_name@) || word_at(ty@, j, isize_name@)) by {
        if j >= i {
            assert(!(j + 5 <= ty@.len()));
        }
    }
    false
}

/// The empty payload carried by control packets (such as resync frames); it encodes to no bytes.
#[derive(Debug, Clone, Copy, PartialEq, Eq)]
pub struct Empty;

impl MaxSize for Empty {
    const MAX_SIZE: usize = 0;
}

impl MaxPayloadSize for Empty {
    const FRAME_SIZE: usize = 32;
}

impl Payload for Empty {}

impl MaxSize for bool {
    const MAX_SIZE: usize = 1;
}

impl MaxSize for u8 {
    const MAX_SIZE: usize = 1;
}

impl MaxSize for u16 {
    const MAX_SIZE: usize = 3;
}

impl MaxSize for u32 {
    const MAX_SIZE: usize = 5;
}

impl MaxSize for u64 {
    const MAX_SIZE: usize = 10;
}

impl MaxSize for u128 {
    const MAX_SIZE: usize = 19;
}

impl MaxSize for i8 {
    const MAX_SIZE: usize = 1;
}

impl MaxSize for i16 {
    const MAX_SIZE: usize = 3;
}

impl MaxSize for i32 {
    const MAX_SIZE: usize = 5;
}

impl MaxSize for i64 {
    const MAX_SIZE: usize = 10;
}

impl MaxSize for i128 {
    const MAX_SIZE: usize = 19;
}

impl MaxSize for char {
    const MAX_SIZE: usize = 5;
}

impl MaxSize for () {
    const MAX_SIZE: usize = 0;
}

/// A pointer-width integer takes at most one varint byte per 7 bits.
impl MaxSize for usize {
    const MAX_SIZE: usize = (usize::BITS as usize + 6) / 7;
}

/// A pointer-width integer takes at most one varint byte per 7 bits.
impl MaxSize for isize {
    const MAX_SIZE: usize = (usize::BITS as usize + 6) / 7;
}

impl<T: MaxSize, const N: usize> MaxSize for [T; N] {
    const MAX_SIZE: usize = T::MAX_SIZE * N;
}

impl<T: MaxSize, E: MaxSize> MaxSize for Result<T, E> {
    const MAX_SIZE: usize = 1 + T::MAX_SIZE + E::MAX_SIZE;
}

impl<A: MaxSize> MaxSize for (A,) {
    const MAX_SIZE: usize = A::MAX_SIZE;
}

impl<A: MaxSize, B: MaxSize> MaxSize for (A, B) {
    const MAX_SIZE: usize = A::MAX_SIZE + B::MAX_SIZE;
}

impl<A: MaxSize, B: MaxSize, C: MaxSize> MaxSize for (A, B, C) {
    const MAX_SIZE: usize = A::MAX_SIZE + B::MAX_SIZE + C::MAX_SIZE;
}

impl<A: MaxSize, B: MaxSize, C: MaxSize, D: MaxSize> MaxSize for (A, B, C, D) {
    const MAX_SIZE: usize = A::MAX_SIZE + B::MAX_SIZE + C::MAX_SIZE + D::MAX_SIZE;
}

} // verus!
