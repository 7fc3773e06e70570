//! Base58 text, by way of the `base58` crate.
//!
//! What the crate computes from digits is not restated here. Its results have
//! names, [`base58_text`] and [`base58_decoded`], and the two wrappers below
//! are believed to return them. What the library adds is the part that a few
//! lines state: each leading `1` of a text stands for one leading zero byte.

use base58::{FromBase58, FromBase58Error, ToBase58};
use vstd::prelude::*;
use vstd::std_specs::iter::IteratorSpec;
use vstd::string::StrSliceExecFns;

verus! {

broadcast use vstd::string::group_string_axioms;

/// The number of bytes in the decoder's buffer. The encoder is handed no
/// more than that.
pub const DECODER_WIDTH: usize = 132;

/// Why a text is not base58.
#[derive(Clone, Copy, Debug, PartialEq, Eq, Structural)]
pub enum Base58Error {
    /// The byte at this place of the text is no base58 digit. It is given as
    /// the character with that byte's number, which for a character outside
    /// ASCII is not the text's character but its first byte.
    InvalidCharacter(char, usize),
    /// The digits stand for more bytes than the decoder holds.
    InvalidLength,
}

/// The base58 text of bytes, as `to_base58` of the `base58` crate gives it.
pub uninterp spec fn base58_text(bytes: Seq<u8>) -> Seq<char>;

/// The bytes of a base58 text, or why it has none, as `from_base58` of the
/// `base58` crate gives it.
pub uninterp spec fn base58_decoded(text: Seq<char>) -> Result<Seq<u8>, Base58Error>;

/// Whether a text may be handed to the decoder: it does not start with `1`.
///
/// The decoder counts the text's leading `1`s and cuts its result out of a
/// buffer of [`DECODER_WIDTH`] bytes, that many bytes before the first byte
/// that is not zero. Where there are more leading `1`s than leading zero
/// bytes, the cut fails and the decoder panics. Without a leading `1` it
/// cannot.
pub open spec fn decodable(text: Seq<char>) -> bool {
    text.len() == 0 || text[0] != '1'
}

/// How many `1`s a text starts with.
pub open spec fn leading_ones(text: Seq<char>) -> nat
    decreases text.len(),
{
    if text.len() > 0 && text[0] == '1' {
        1 + leading_ones(text.drop_first())
    } else {
        0
    }
}

/// That many zero bytes.
pub open spec fn zeros(count: nat) -> Seq<u8> {
    Seq::new(count, |i: int| 0u8)
}

/// The bytes that a text stands for, or why it stands for none.
///
/// Each leading `1` stands for a zero byte, and the digits after them for
/// what the decoder makes of them. An error of the decoder is reported at
/// its place in the whole text.
///
/// This is what the decoder gives for the whole text wherever it returns.
/// It does not return where the zero bytes and the bytes of the digits
/// together exceed its buffer; this function is defined there too.
pub open spec fn text_bytes(text: Seq<char>) -> Result<Seq<u8>, Base58Error> {
    let ones = leading_ones(text);
    match base58_decoded(text.skip(ones as int)) {
        Ok(tail) => Ok(zeros(ones) + tail),
        Err(Base58Error::InvalidCharacter(c, at)) => Err(
            Base58Error::InvalidCharacter(c, (at + ones) as usize),
        ),
        Err(Base58Error::InvalidLength) => Err(Base58Error::InvalidLength),
    }
}

/// A text starts with exactly `count` `1`s if its first `count` characters
/// are `1`s and the next one, if there is one, is not.
pub proof fn lemma_leading_ones(text: Seq<char>, count: int)
    requires
        0 <= count <= text.len(),
        forall|k: int| 0 <= k < count ==> text[k] == '1',
        count == text.len() || text[count] != '1',
    ensures
        leading_ones(text) == count,
        decodable(text.skip(count)),
    decreases count,
{
    if count > 0 {
        let rest = text.drop_first();
        assert forall|k: int| 0 <= k < count - 1 implies rest[k] == '1' by {
            assert(rest[k] == text[k + 1]);
        }
        lemma_leading_ones(rest, count - 1);
    }
    if count < text.len() {
        assert(text.skip(count)[0] == text[count]);
    }
}

/// Encodes bytes as base58 text.
///
/// Calls `ToBase58::to_base58` on the bytes. The contract names the result
/// and claims nothing else of it. The bound keeps the size that the encoder
/// computes for its buffer far from overflow.
#[verifier::external_body]
pub(crate) fn encode_base58(bytes: &[u8]) -> (text: String)
    requires
        bytes@.len() <= DECODER_WIDTH,
    ensures
        text@ == base58_text(bytes@),
{
    bytes.to_base58()
}

/// Decodes base58 text that does not start with `1`.
///
/// Calls `FromBase58::from_base58` on the text and hands its result on, the
/// error's two variants one for one. The contract names the result, and says
/// of it that a character is reported at a place inside the text: the
/// decoder reports the first byte that is no digit, and every byte before
/// it, being a digit, is one character. The precondition leaves out the
/// texts on which the decoder can panic; see [`decodable`].
#[verifier::external_body]
pub(crate) fn decode_base58(text: &str) -> (decoded: Result<Vec<u8>, Base58Error>)
    requires
        decodable(text@),
    ensures
        match decoded {
            Ok(bytes) => base58_decoded(text@) == Ok::<Seq<u8>, Base58Error>(bytes@),
            Err(error) => base58_decoded(text@) == Err::<Seq<u8>, Base58Error>(error),
        },
        decoded matches Err(Base58Error::InvalidCharacter(_, at)) ==> at < text@.len(),
{
    match text.from_base58() {
        Ok(bytes) => Ok(bytes),
        Err(FromBase58Error::InvalidBase58Character(c, at)) => Err(
            Base58Error::InvalidCharacter(c, at),
        ),
        Err(FromBase58Error::InvalidBase58Length) => Err(Base58Error::InvalidLength),
    }
}

/// Decodes a text into the bytes that it stands for; see [`text_bytes`].
///
/// The leading `1`s are counted here and become zero bytes; only the digits
/// after them go to the decoder, which therefore always returns.
pub fn decode(text: &str) -> (result: Result<Vec<u8>, Base58Error>)
    ensures
        match result {
            Ok(bytes) => text_bytes(text@) == Ok::<Seq<u8>, Base58Error>(bytes@),
            Err(error) => text_bytes(text@) == Err::<Seq<u8>, Base58Error>(error),
        },
{
    let length: usize = text.unicode_len();
    let mut characters = text.chars();
    let mut ones: usize = 0;
    let mut counting = true;
    while counting
        invariant
            ones <= length == text@.len(),
            counting ==> characters.remaining() == text@.skip(ones as int),
            forall|k: int| 0 <= k < ones ==> text@[k] == '1',
            !counting ==> ones == length || text@[ones as int] != '1',
        decreases length - ones + if counting { 1int } else { 0int },
    {
        let ghost before = characters.remaining();
        match characters.next() {
            Some(c) => {
                assert(c == before[0]);
                assert(before[0] == text@[ones as int]);
                if c == '1' {
                    assert(before.drop_first() =~= text@.skip(ones + 1));
                    ones += 1;
                } else {
                    counting = false;
                }
            },
            None => {
                counting = false;
            },
        }
    }
    proof {
        lemma_leading_ones(text@, ones as int);
    }
    let digits = text.substring_char(ones, length);
    assert(digits@ =~= text@.skip(ones as int));
    match decode_base58(digits) {
        Ok(tail) => {
            let mut bytes: Vec<u8> = Vec::new();
            let mut i: usize = 0;
            while i < ones
                invariant
                    i <= ones,
                    bytes@ == zeros(i as nat),
                decreases ones - i,
            {
                bytes.push(0);
                i += 1;
                assert(bytes@ =~= zeros(i as nat));
            }
            let mut tail = tail;
            bytes.append(&mut tail);
            Ok(bytes)
        },
        Err(Base58Error::InvalidCharacter(c, at)) => Err(
            Base58Error::InvalidCharacter(c, at + ones),
        ),
        Err(Base58Error::InvalidLength) => Err(Base58Error::InvalidLength),
    }
}

} // verus!
