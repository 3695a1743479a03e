use vstd::prelude::*;
use crate::crypto::{calc_hash, sha256, Hash32Type};

verus! {

#[verifier::external_type_specification]
#[verifier::external_body]
pub struct ExPostcardError(postcard::Error);

/// The varint postcard writes for an unsigned integer (LEB128): seven bits
/// per byte, least significant first, the high bit set on every byte but
/// the last.
pub open spec fn varint(n: nat) -> Seq<u8>
    decreases n,
{
    if n < 128 {
        seq![n as u8]
    } else {
        seq![((n % 128) + 128) as u8] + varint(n / 128)
    }
}

/// The postcard encoding of a transaction: its fields `id`, `from`, `to`
/// and `text`, in that order, each integer as a varint and the text as the
/// varint of its UTF-8 length followed by its UTF-8 bytes.
pub open spec fn postcard_transaction(id: u64, from: u64, to: u64, text: Seq<char>) -> Seq<u8> {
    let bytes = vstd::utf8::encode_utf8(text);
    varint(id as nat) + varint(from as nat) + varint(to as nat) + varint(bytes.len()) + bytes
}

/// Serialises the four fields of a transaction with `postcard::to_stdvec`.
/// A struct and the tuple of its fields in declaration order have the same
/// postcard encoding, so this is the encoding of the transaction itself.
/// Trusted: the result is `Ok` (postcard's vector-backed output flavour never
/// reports an error, and integers and strings raise none) and its bytes are
/// `postcard_transaction` of the fields: varints for the integers
/// (`try_push_varint_u64`) and a varint length before the text's bytes
/// (`serialize_str`).
#[verifier::external_body]
fn postcard_transaction_bytes(id: u64, from: u64, to: u64, text: &str) -> (res: Result<
    Vec<u8>,
    postcard::Error,
>)
    ensures
        res is Ok,
        res matches Ok(bytes) ==> bytes@ == postcard_transaction(id, from, to, text@),
{
    postcard::to_stdvec(&(id, from, to, text))
}

/// A transaction carried in a block.
#[derive(Debug)]
pub struct Transaction {
    pub id: u64,
    pub from: u64,
    pub to: u64,
    pub text: String,
}

/// The bytes a transaction is hashed over.
pub open spec fn tx_bytes(t: Transaction) -> Seq<u8> {
    postcard_transaction(t.id, t.from, t.to, t.text@)
}

/// The hash that identifies a transaction.
pub open spec fn tx_hash(t: Transaction) -> Seq<u8> {
    sha256(tx_bytes(t))
}

impl Clone for Transaction {
    fn clone(&self) -> (res: Self)
        ensures
            res == *self,
    {
        Transaction { id: self.id, from: self.from, to: self.to, text: self.text.clone() }
    }
}

impl Transaction {
    pub fn new(id: u64, from: u64, to: u64, text: String) -> (res: Transaction)
        ensures
            res == (Transaction { id, from, to, text }),
    {
        Transaction { id, from, to, text }
    }

    /// SHA-256 of the postcard encoding of the transaction.
    pub fn hash(&self) -> (res: Hash32Type)
        ensures
            res@ == tx_hash(*self),
    {
        let bytes = self.to_bytes();
        calc_hash(bytes.as_slice())
    }

    fn to_bytes(&self) -> (res: Vec<u8>)
        ensures
            res@ == tx_bytes(*self),
    {
        match postcard_transaction_bytes(self.id, self.from, self.to, self.text.as_str()) {
            Ok(bytes) => bytes,
            Err(_) => Vec::new(),
        }
    }
}

} // verus!
