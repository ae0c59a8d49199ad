//! Words as the bytes of a device buffer.
use vstd::prelude::*;

verus! {

/// Order of the bytes of a word.
#[derive(Clone, Copy, Debug, PartialEq, Eq, Structural)]
pub enum ByteOrder {
    Little,
    Big,
}

/// The byte of `word` that counts `256^place`.
pub open spec fn place_byte(word: u32, place: nat) -> u8 {
    if place == 0 {
        (word % 0x100) as u8
    } else if place == 1 {
        (word / 0x100 % 0x100) as u8
    } else if place == 2 {
        (word / 0x1_0000 % 0x100) as u8
    } else {
        (word / 0x100_0000) as u8
    }
}

/// The bytes of a word.
pub open spec fn word_bytes(order: ByteOrder, word: u32) -> Seq<u8> {
    match order {
        ByteOrder::Little => seq![
            place_byte(word, 0),
            place_byte(word, 1),
            place_byte(word, 2),
            place_byte(word, 3),
        ],
        ByteOrder::Big => seq![
            place_byte(word, 3),
            place_byte(word, 2),
            place_byte(word, 1),
            place_byte(word, 0),
        ],
    }
}

/// The bytes of a sequence of words, one word after the other.
pub open spec fn words_bytes(order: ByteOrder, words: Seq<u32>) -> Seq<u8> {
    Seq::new(4 * words.len(), |i: int| word_bytes(order, words[i / 4])[i % 4])
}

/// The words whose bytes a buffer holds; an incomplete word at the end is left out.
pub open spec fn bytes_words(order: ByteOrder, bytes: Seq<u8>) -> Seq<u32> {
    Seq::new(bytes.len() / 4, |i: int| bytes_word(order, bytes.subrange(4 * i, 4 * i + 4)))
}

/// The word that four bytes make.
pub open spec fn bytes_word(order: ByteOrder, four: Seq<u8>) -> u32 {
    match order {
        ByteOrder::Little => join(four[0], four[1], four[2], four[3]),
        ByteOrder::Big => join(four[3], four[2], four[1], four[0]),
    }
}

/// The word with these bytes, from the least significant one up.
pub open spec fn join(b0: u8, b1: u8, b2: u8, b3: u8) -> u32 {
    (b0 + 0x100 * b1 + 0x1_0000 * b2 + 0x100_0000 * b3) as u32
}

/// The order in which this machine keeps the bytes of a word.
pub open spec fn machine_order() -> ByteOrder {
    match vstd::endian::endianness() {
        vstd::endian::Endian::Little => ByteOrder::Little,
        vstd::endian::Endian::Big => ByteOrder::Big,
    }
}

/// `u32::to_ne_bytes`: the four bytes of the word in the byte order of the machine, which
/// `vstd::endian::endianness` stands for. Which of the two orders that is stays open.
#[verifier::external_body]
fn native_word_bytes(word: u32) -> (r: [u8; 4])
    ensures
        r@ == word_bytes(machine_order(), word),
{
    word.to_ne_bytes()
}

/// The order in which this machine keeps the bytes of a word.
pub fn native_byte_order() -> (r: ByteOrder)
    ensures
        r == machine_order(),
{
    let probe = native_word_bytes(1);
    if probe[0] == 1 {
        ByteOrder::Little
    } else {
        ByteOrder::Big
    }
}

/// The bytes of a sequence of words in a given order.
pub fn encode_words(order: ByteOrder, words: &[u32]) -> (r: Vec<u8>)
    ensures
        r@ == words_bytes(order, words@),
{
    let mut encoded: Vec<u8> = Vec::new();
    let mut i: usize = 0;
    while i < words.len()
        invariant
            i <= words.len(),
            encoded@ == words_bytes(order, words@.take(i as int)),
        decreases words.len() - i,
    {
        let word = words[i];
        let b0: u8 = (word % 0x100) as u8;
        let b1: u8 = (word / 0x100 % 0x100) as u8;
        let b2: u8 = (word / 0x1_0000 % 0x100) as u8;
        let b3: u8 = (word / 0x100_0000) as u8;
        match order {
            ByteOrder::Little => {
                encoded.push(b0);
                encoded.push(b1);
                encoded.push(b2);
                encoded.push(b3);
            },
            ByteOrder::Big => {
                encoded.push(b3);
                encoded.push(b2);
                encoded.push(b1);
                encoded.push(b0);
            },
        }
        i = i + 1;
        assert(encoded@ =~= words_bytes(order, words@.take(i as int)));
    }
    assert(words@.take(i as int) =~= words@);
    encoded
}

/// The words that a buffer holds in a given order.
pub fn decode_words(order: ByteOrder, bytes: &[u8]) -> (r: Vec<u32>)
    ensures
        r@ == bytes_words(order, bytes@),
{
    let count: usize = bytes.len() / 4;
    let mut words: Vec<u32> = Vec::new();
    let mut i: usize = 0;
    while i < count
        invariant
            count == bytes.len() / 4,
            i <= count,
            words@.len() == i,
            forall|j: int|
                0 <= j < i ==> words@[j] == bytes_word(
                    order,
                    bytes@.subrange(4 * j, 4 * j + 4),
                ),
        decreases count - i,
    {
        let first = bytes[4 * i] as u32;
        let second = bytes[4 * i + 1] as u32;
        let third = bytes[4 * i + 2] as u32;
        let fourth = bytes[4 * i + 3] as u32;
        let word: u32 = match order {
            ByteOrder::Little => first + 0x100 * second + 0x1_0000 * third + 0x100_0000 * fourth,
            ByteOrder::Big => fourth + 0x100 * third + 0x1_0000 * second + 0x100_0000 * first,
        };
        words.push(word);
        i = i + 1;
    }
    assert(words@ =~= bytes_words(order, bytes@));
    words
}

/// The bytes of a sequence of words, in the order of this machine.
pub fn encode_u32(words: &[u32]) -> (r: Vec<u8>)
    ensures
        r@ == words_bytes(machine_order(), words@),
{
    encode_words(native_byte_order(), words)
}

/// Decoding what was encoded in the same order gives the words back.
pub proof fn law_decode_undoes_encode(order: ByteOrder, words: Seq<u32>)
    ensures
        bytes_words(order, words_bytes(order, words)) == words,
{
    let bytes = words_bytes(order, words);
    assert forall|i: int| 0 <= i < words.len() implies #[trigger] bytes_words(order, bytes)[i]
        == words[i] by {
        let four = bytes.subrange(4 * i, 4 * i + 4);
        assert(four =~= word_bytes(order, words[i]));
        lemma_join_places(words[i]);
    }
    assert(bytes_words(order, bytes) =~= words);
}

proof fn lemma_join_places(word: u32)
    ensures
        join(place_byte(word, 0), place_byte(word, 1), place_byte(word, 2), place_byte(word, 3))
            == word,
{
}

/// Where the bytes of words stand: word `i` takes the bytes from `4 i` on, from the least
/// significant one up in little order and down in big order, and their place values make the word.
pub proof fn law_bytes_of_words(words: Seq<u32>, i: int)
    requires
        0 <= i < words.len(),
    ensures
        ({
            let little = words_bytes(ByteOrder::Little, words);
            let big = words_bytes(ByteOrder::Big, words);
            let first = 4 * i;
            &&& little.len() == 4 * words.len()
            &&& big.len() == 4 * words.len()
            &&& words[i] == little[first] + 0x100 * little[first + 1] + 0x1_0000 * little[first + 2]
                + 0x100_0000 * little[first + 3]
            &&& words[i] == big[first + 3] + 0x100 * big[first + 2] + 0x1_0000 * big[first + 1]
                + 0x100_0000 * big[first]
        }),
{
    assert((4 * i) / 4 == i && (4 * i) % 4 == 0);
    assert((4 * i + 1) / 4 == i && (4 * i + 1) % 4 == 1);
    assert((4 * i + 2) / 4 == i && (4 * i + 2) % 4 == 2);
    assert((4 * i + 3) / 4 == i && (4 * i + 3) % 4 == 3);
}

/// Which words bytes make: as many as there are groups of four, each by the place values of its
/// bytes.
pub proof fn law_words_of_bytes(bytes: Seq<u8>, i: int)
    requires
        0 <= i < bytes.len() / 4,
    ensures
        bytes_words(ByteOrder::Little, bytes).len() == bytes.len() / 4,
        bytes_words(ByteOrder::Big, bytes).len() == bytes.len() / 4,
        bytes_words(ByteOrder::Little, bytes)[i] == bytes[4 * i] + 0x100 * bytes[4 * i + 1]
            + 0x1_0000 * bytes[4 * i + 2] + 0x100_0000 * bytes[4 * i + 3],
        bytes_words(ByteOrder::Big, bytes)[i] == bytes[4 * i + 3] + 0x100 * bytes[4 * i + 2]
            + 0x1_0000 * bytes[4 * i + 1] + 0x100_0000 * bytes[4 * i],
{
    let four = bytes.subrange(4 * i, 4 * i + 4);
    assert(four[0] == bytes[4 * i] && four[1] == bytes[4 * i + 1]);
    assert(four[2] == bytes[4 * i + 2] && four[3] == bytes[4 * i + 3]);
}

} // verus!
