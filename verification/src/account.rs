//! The private key of an account in its fixed-width form, and its text.
//!
//! A key is four values of 32 bytes each. Its text is the base58 encoding of
//! 132 bytes: a prefix of four bytes and the four values, in the order
//! signature key, PRF seed, commitment randomness, metadata. Reading undoes
//! writing.

use crate::base58::{base58_text, decode, encode_base58, text_bytes, Base58Error};
use crate::bytes::{copy_range, push_bytes};
use vstd::prelude::*;

verus! {

/// The number of bytes that a key's text stands for.
pub const PRIVATE_KEY_LEN: usize = 132;

/// The number of bytes of each of a key's values.
pub const FIELD_LEN: usize = 32;

/// The four bytes that every key's text starts with, before encoding.
pub const PRIVATE_KEY_PREFIX: [u8; 4] = [127, 134, 189, 116];

/// The prefix as a sequence.
pub open spec fn prefix() -> Seq<u8> {
    seq![127u8, 134u8, 189u8, 116u8]
}

/// Why a text is not a key.
#[derive(Debug, PartialEq, Eq)]
pub enum AccountError {
    /// The text is not base58.
    Base58(Base58Error),
    /// The text stands for this many bytes, which is not the length of a key.
    InvalidByteLength(usize),
    /// The text has the length of a key and starts with these four bytes,
    /// which are not the prefix.
    InvalidPrefixBytes(Vec<u8>),
}

/// What an [`AccountError`] holds.
pub enum AccountErrorView {
    Base58(Base58Error),
    InvalidByteLength(usize),
    InvalidPrefixBytes(Seq<u8>),
}

impl View for AccountError {
    type V = AccountErrorView;

    open spec fn view(&self) -> AccountErrorView {
        match self {
            AccountError::Base58(error) => AccountErrorView::Base58(*error),
            AccountError::InvalidByteLength(len) => AccountErrorView::InvalidByteLength(*len),
            AccountError::InvalidPrefixBytes(bytes) => AccountErrorView::InvalidPrefixBytes(
                bytes@,
            ),
        }
    }
}

/// Why bytes are not a key's; `None` for the bytes of a key, which are 132
/// and start with the prefix. The length is judged before the prefix.
pub open spec fn framing_error(data: Seq<u8>) -> Option<AccountErrorView> {
    if data.len() != 132 {
        Some(AccountErrorView::InvalidByteLength(data.len() as usize))
    } else if data.subrange(0, 4) != prefix() {
        Some(AccountErrorView::InvalidPrefixBytes(data.subrange(0, 4)))
    } else {
        None
    }
}

/// Why a text is not a key; `None` for the text of a key.
///
/// A text that is not base58 is rejected as such. Any other text is a key's
/// if the bytes that it stands for are.
pub open spec fn rejection(text: Seq<char>) -> Option<AccountErrorView> {
    match text_bytes(text) {
        Err(error) => Some(AccountErrorView::Base58(error)),
        Ok(data) => framing_error(data),
    }
}

/// The bytes that an account commitment is taken of: the signature public
/// key, then the PRF seed, then the metadata.
pub open spec fn commitment_bytes(pk_sig: Seq<u8>, sk_prf: Seq<u8>, metadata: Seq<u8>) -> Seq<u8> {
    pk_sig + sk_prf + metadata
}

/// Lays out the bytes that an account commitment is taken of.
pub fn commitment_input(pk_sig: &[u8], sk_prf: &[u8], metadata: &[u8]) -> (input: Vec<u8>)
    ensures
        input@ == commitment_bytes(pk_sig@, sk_prf@, metadata@),
{
    let mut input: Vec<u8> = Vec::new();
    push_bytes(&mut input, pk_sig);
    assert(input@ =~= pk_sig@);
    push_bytes(&mut input, sk_prf);
    push_bytes(&mut input, metadata);
    input
}

/// The private key of an account, each value in its 32 bytes.
#[derive(Clone, Copy, Debug, PartialEq, Eq)]
pub struct AccountPrivateKey {
    /// The signature private key.
    pub sk_sig: [u8; 32],
    /// The seed of the pseudorandom function.
    pub sk_prf: [u8; 32],
    /// The randomness of the account commitment.
    pub r_pk: [u8; 32],
    pub metadata: [u8; 32],
}

impl AccountPrivateKey {
    /// The 132 bytes that the key's text encodes: the prefix, the signature
    /// key, the PRF seed, the commitment randomness, the metadata.
    pub open spec fn written(self) -> Seq<u8> {
        prefix() + self.sk_sig@ + self.sk_prf@ + self.r_pk@ + self.metadata@
    }

    /// A key's bytes are a key's: 132 of them, with the prefix in front and
    /// each value at its place.
    pub proof fn lemma_written(self)
        ensures
            self.written().len() == 132,
            framing_error(self.written()) is None,
            self.written().subrange(0, 4) == prefix(),
            self.written().subrange(4, 36) == self.sk_sig@,
            self.written().subrange(36, 68) == self.sk_prf@,
            self.written().subrange(68, 100) == self.r_pk@,
            self.written().subrange(100, 132) == self.metadata@,
    {
        let written = self.written();
        assert(written.subrange(0, 4) =~= prefix());
        assert(written.subrange(4, 36) =~= self.sk_sig@);
        assert(written.subrange(36, 68) =~= self.sk_prf@);
        assert(written.subrange(68, 100) =~= self.r_pk@);
        assert(written.subrange(100, 132) =~= self.metadata@);
    }

    /// Reading undoes writing: no two keys have the same bytes, so the key
    /// whose bytes are read is the key that was written.
    pub proof fn lemma_reading_undoes_writing(self, read: AccountPrivateKey)
        requires
            read.written() == self.written(),
        ensures
            read == self,
    {
        self.lemma_written();
        read.lemma_written();
        assert(read.sk_sig@ == self.sk_sig@);
        assert(read.sk_prf@ == self.sk_prf@);
        assert(read.r_pk@ == self.r_pk@);
        assert(read.metadata@ == self.metadata@);
        assert(read.sk_sig == self.sk_sig);
        assert(read.sk_prf == self.sk_prf);
        assert(read.r_pk == self.r_pk);
        assert(read.metadata == self.metadata);
    }

    /// Reads a key from the bytes that its text stands for.
    ///
    /// Succeeds exactly on 132 bytes that start with the prefix, and gives
    /// the key whose bytes they are: the key that [`Self::to_bytes`] was
    /// called on, if they came from there. Otherwise the error says whether
    /// the length or the prefix is wrong, the length first.
    pub fn from_bytes(data: &[u8]) -> (result: Result<AccountPrivateKey, AccountError>)
        ensures
            match result {
                Ok(key) => framing_error(data@) is None && key.written() == data@,
                Err(error) => framing_error(data@) == Some(error@),
            },
            forall|key: AccountPrivateKey| #[trigger]
                key.written() == data@ ==> result == Ok::<AccountPrivateKey, AccountError>(key),
    {
        proof {
            assert forall|key: AccountPrivateKey| #[trigger] key.written() == data@ implies framing_error(
                data@,
            ) is None by {
                key.lemma_written();
            }
        }
        if data.len() != PRIVATE_KEY_LEN {
            return Err(AccountError::InvalidByteLength(data.len()));
        }
        let head = copy_range(data, 0, 4);
        if head[0] != PRIVATE_KEY_PREFIX[0] || head[1] != PRIVATE_KEY_PREFIX[1] || head[2]
            != PRIVATE_KEY_PREFIX[2] || head[3] != PRIVATE_KEY_PREFIX[3] {
            assert(head@[0] == data@.subrange(0, 4)[0]);
            assert(head@[1] == data@.subrange(0, 4)[1]);
            assert(head@[2] == data@.subrange(0, 4)[2]);
            assert(head@[3] == data@.subrange(0, 4)[3]);
            return Err(AccountError::InvalidPrefixBytes(head));
        }
        assert(head@ =~= prefix());
        let sk_sig = field(data, 4);
        let sk_prf = field(data, 36);
        let r_pk = field(data, 68);
        let metadata = field(data, 100);
        let key = AccountPrivateKey { sk_sig, sk_prf, r_pk, metadata };
        proof {
            assert(key.written() =~= data@);
            assert forall|other: AccountPrivateKey| #[trigger]
                other.written() == data@ implies other == key by {
                key.lemma_reading_undoes_writing(other);
            }
        }
        Ok(key)
    }

    /// Reads a key from its text.
    ///
    /// Succeeds exactly on the texts that [`rejection`] passes, and gives
    /// the key whose bytes the text stands for. Otherwise the error is the
    /// one that [`rejection`] names.
    pub fn from_str(text: &str) -> (result: Result<AccountPrivateKey, AccountError>)
        ensures
            match result {
                Ok(key) => rejection(text@) is None && text_bytes(text@) == Ok::<
                    Seq<u8>,
                    Base58Error,
                >(key.written()),
                Err(error) => rejection(text@) == Some(error@),
            },
    {
        match decode(text) {
            Ok(data) => AccountPrivateKey::from_bytes(data.as_slice()),
            Err(error) => Err(AccountError::Base58(error)),
        }
    }

    /// Lays the key out as the 132 bytes of [`Self::written`].
    pub fn to_bytes(&self) -> (bytes: Vec<u8>)
        ensures
            bytes@ == self.written(),
            bytes@.len() == 132,
    {
        let mut bytes: Vec<u8> = Vec::new();
        bytes.push(PRIVATE_KEY_PREFIX[0]);
        bytes.push(PRIVATE_KEY_PREFIX[1]);
        bytes.push(PRIVATE_KEY_PREFIX[2]);
        bytes.push(PRIVATE_KEY_PREFIX[3]);
        assert(bytes@ =~= prefix());
        push_bytes(&mut bytes, self.sk_sig.as_slice());
        push_bytes(&mut bytes, self.sk_prf.as_slice());
        push_bytes(&mut bytes, self.r_pk.as_slice());
        push_bytes(&mut bytes, self.metadata.as_slice());
        bytes
    }

    /// Writes the key as text: the base58 encoding of [`Self::written`].
    pub fn to_string(&self) -> (text: String)
        ensures
            text@ == base58_text(self.written()),
    {
        let bytes = self.to_bytes();
        encode_base58(bytes.as_slice())
    }

    /// Lays out the bytes that the account commitment is taken of, given
    /// the bytes of the signature public key.
    pub fn commitment_input(&self, pk_sig: &[u8]) -> (input: Vec<u8>)
        ensures
            input@ == commitment_bytes(pk_sig@, self.sk_prf@, self.metadata@),
    {
        commitment_input(pk_sig, self.sk_prf.as_slice(), self.metadata.as_slice())
    }
}

/// The 32 bytes of `data` that start at `from`.
fn field(data: &[u8], from: usize) -> (value: [u8; 32])
    requires
        from + 32 <= data@.len(),
    ensures
        value@ == data@.subrange(from as int, from + 32),
{
    let len: usize = data.len();
    let mut value: [u8; 32] = [0u8; 32];
    let mut i: usize = 0;
    while i < FIELD_LEN
        invariant
            i <= 32,
            from + 32 <= data@.len() == len,
            forall|k: int| 0 <= k < i ==> value@[k] == data@[from + k],
        decreases 32 - i,
    {
        value[i] = data[from + i];
        i += 1;
    }
    assert(value@ =~= data@.subrange(from as int, from + 32));
    value
}

} // verus!
