//! What a device buffer holds: words, and the bytes they are sent as.

use crate::number;
use crate::number::{Scalar, F32};
use vstd::prelude::*;

verus! {

/// The word at `at` with its lowest byte first.
pub open spec fn little_word(bytes: Seq<u8>, at: int) -> int {
    bytes[at] + 0x100 * bytes[at + 1] + 0x1_0000 * bytes[at + 2] + 0x100_0000 * bytes[at + 3]
}

/// The word at `at` with its highest byte first.
pub open spec fn big_word(bytes: Seq<u8>, at: int) -> int {
    bytes[at + 3] + 0x100 * bytes[at + 2] + 0x1_0000 * bytes[at + 1] + 0x100_0000 * bytes[at]
}

/// Whether `bytes` holds `words`, all of them in one byte order.
pub open spec fn holds_words(bytes: Seq<u8>, words: Seq<u32>, little: bool) -> bool {
    &&& bytes.len() == 4 * words.len()
    &&& forall|i: int|
        0 <= i < words.len() ==> #[trigger] words[i] == if little {
            little_word(bytes, 4 * i)
        } else {
            big_word(bytes, 4 * i)
        }
}

/// Whether `bytes` holds `words`, in one byte order or the other.
pub open spec fn spells(bytes: Seq<u8>, words: Seq<u32>) -> bool {
    holds_words(bytes, words, true) || holds_words(bytes, words, false)
}

/// `bytemuck::cast_slice` from words to bytes, copied. The bytes are those of the
/// words one after the other, in the byte order of the machine; which order that
/// is stays open.
#[verifier::external_body]
fn cast_to_bytes(words: &[u32]) -> (r: Vec<u8>)
    ensures
        spells(r@, words@),
{
    bytemuck::cast_slice::<u32, u8>(words).to_vec()
}

/// `bytemuck::pod_collect_to_vec` from bytes to words, for a whole number of
/// words. It copies, so the bytes need no alignment. The words are read in the
/// byte order of the machine; which order that is stays open.
#[verifier::external_body]
fn collect_words(bytes: &[u8]) -> (r: Vec<u32>)
    requires
        bytes@.len() % 4 == 0,
    ensures
        spells(bytes@, r@),
{
    bytemuck::pod_collect_to_vec::<u8, u32>(bytes)
}

/// The bytes to upload for a run of words.
pub fn word_bytes(words: &[u32]) -> (r: Vec<u8>)
    ensures
        spells(r@, words@),
{
    cast_to_bytes(words)
}

/// The words of a run of bytes that was read back, if they are whole words.
pub fn byte_words(bytes: &[u8]) -> (r: Option<Vec<u32>>)
    ensures
        r is Some <==> bytes@.len() % 4 == 0,
        r matches Some(words) ==> spells(bytes@, words@),
{
    if bytes.len() % 4 == 0 {
        Some(collect_words(bytes))
    } else {
        None
    }
}

/// One 32-bit word of a device buffer, before the host has worked out its number.
#[derive(Clone, Copy, Debug, PartialEq)]
pub enum Word {
    Count(u32),
    Number(Scalar),
}

/// Whether `bits` is what a word comes to on a host.
pub open spec fn word_comes_to<E: Fn(Scalar) -> F32>(eval: E, word: Word, bits: u32) -> bool {
    match word {
        Word::Count(n) => bits == n,
        Word::Number(s) => number::resolves(eval, s, F32 { bits }),
    }
}

/// Whether `bits` is what a run of words comes to on a host.
pub open spec fn words_come_to<E: Fn(Scalar) -> F32>(
    eval: E,
    words: Seq<Word>,
    bits: Seq<u32>,
) -> bool {
    &&& bits.len() == words.len()
    &&& forall|i: int|
        0 <= i < words.len() ==> #[trigger] word_comes_to(eval, words[i], bits[i])
}

/// Whether `bytes` is what a host sends for a run of words.
pub open spec fn sent_for<E: Fn(Scalar) -> F32>(eval: E, words: Seq<Word>, bytes: Seq<u8>) -> bool {
    exists|bits: Seq<u32>| #[trigger] words_come_to(eval, words, bits) && spells(bytes, bits)
}

/// The bytes that a host sends for a run of words.
pub fn send<E: Fn(Scalar) -> F32>(eval: &E, words: &Vec<Word>) -> (r: Vec<u8>)
    requires
        number::total(*eval),
    ensures
        sent_for(*eval, words@, r@),
{
    let mut bits: Vec<u32> = Vec::with_capacity(words.len());
    let mut i: usize = 0;
    while i < words.len()
        invariant
            i <= words@.len(),
            number::total(*eval),
            bits@.len() == i,
            forall|j: int| 0 <= j < i ==> #[trigger] word_comes_to(*eval, words@[j], bits@[j]),
        decreases words@.len() - i,
    {
        let ghost before = bits@;
        let word: u32 = match words[i] {
            Word::Count(n) => n,
            Word::Number(s) => number::resolve(eval, s).bits,
        };
        bits.push(word);
        i += 1;
        assert forall|j: int| 0 <= j < i implies #[trigger] word_comes_to(
            *eval,
            words@[j],
            bits@[j],
        ) by {
            if j < i - 1 {
                assert(word_comes_to(*eval, words@[j], before[j]));
            }
        }
    }
    assert(words_come_to(*eval, words@, bits@));
    word_bytes(&bits)
}

/// The words of a run of formulas.
pub open spec fn number_words(numbers: Seq<Scalar>) -> Seq<Word> {
    Seq::new(numbers.len(), |i: int| Word::Number(numbers[i]))
}

/// The bytes that a host sends for a run of formulas.
pub fn send_numbers<E: Fn(Scalar) -> F32>(eval: &E, numbers: &Vec<Scalar>) -> (r: Vec<u8>)
    requires
        number::total(*eval),
    ensures
        sent_for(*eval, number_words(numbers@), r@),
{
    let mut words: Vec<Word> = Vec::with_capacity(numbers.len());
    let mut i: usize = 0;
    while i < numbers.len()
        invariant
            i <= numbers@.len(),
            words@ =~= Seq::new(i as nat, |j: int| Word::Number(numbers@[j])),
        decreases numbers@.len() - i,
    {
        words.push(Word::Number(numbers[i]));
        i += 1;
    }
    assert(words@ =~= number_words(numbers@));
    send(eval, &words)
}

/// The bits of a run of numbers.
pub open spec fn bits_of(numbers: Seq<F32>) -> Seq<u32> {
    Seq::new(numbers.len(), |i: int| numbers[i].bits)
}

/// The bytes to upload for a run of numbers.
pub fn value_bytes(numbers: &Vec<F32>) -> (r: Vec<u8>)
    ensures
        spells(r@, bits_of(numbers@)),
{
    let mut bits: Vec<u32> = Vec::with_capacity(numbers.len());
    let mut i: usize = 0;
    while i < numbers.len()
        invariant
            i <= numbers@.len(),
            bits@ =~= Seq::new(i as nat, |j: int| numbers@[j].bits),
        decreases numbers@.len() - i,
    {
        bits.push(numbers[i].bits);
        i += 1;
    }
    assert(bits@ =~= bits_of(numbers@));
    word_bytes(&bits)
}

/// Bytes determine their words and words their bytes: within one byte order,
/// what was written as words is read back as the same words.
pub proof fn law_words_read_back(
    bytes: Seq<u8>,
    words: Seq<u32>,
    other_bytes: Seq<u8>,
    other_words: Seq<u32>,
    little: bool,
)
    requires
        holds_words(bytes, words, little),
        holds_words(other_bytes, other_words, little),
    ensures
        bytes == other_bytes <==> words == other_words,
{
    if bytes == other_bytes {
        assert(words =~= other_words);
    }
    if words == other_words {
        assert forall|k: int| 0 <= k < bytes.len() implies bytes[k] == other_bytes[k] by {
            let i = k / 4;
            assert(words[i] == other_words[i]);
        }
        assert(bytes =~= other_bytes);
    }
}

} // verus!
