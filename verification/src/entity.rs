//! The capability set the adapter asks of calling code: an identifier with a
//! stable string form, and a textual encoding with a decoding that inverts it.

use crate::model::nul_free;
use vstd::prelude::*;

verus! {

/// Why an encoding or a decoding failed: the codec's own diagnostic.
#[derive(Debug, Clone, PartialEq, Eq, Structural)]
pub enum CodecFault {
    /// The text does not have the shape the codec produces.
    Malformed,
    /// A numeric field does not fit its machine type.
    OutOfRange,
}

/// An identifier with a stable string form; rows are keyed by that form.
pub trait Key {
    /// The string form of this identifier.
    spec fn key_spec(&self) -> Seq<char>;

    /// Renders the identifier as its string form.
    fn to_key(&self) -> (r: String)
        ensures
            r@ == self.key_spec(),
    ;
}

/// A storable record: it names its identifier and encodes to (and decodes
/// from) the text that the store keeps in the `value` column.
pub trait Entity: Sized {
    /// The string form of this entity's identifier.
    spec fn id_spec(&self) -> Seq<char>;

    /// The textual encoding of this entity.
    spec fn enc_spec(&self) -> Seq<char>;

    /// Whether this entity has an encoding at all.
    spec fn encodable(&self) -> bool;

    /// What a stored text decodes to, if anything.
    spec fn dec_spec(s: Seq<char>) -> Option<Self>;

    /// Decoding inverts encoding.
    proof fn lemma_round_trip(&self)
        requires
            self.encodable(),
        ensures
            Self::dec_spec(self.enc_spec()) == Some(*self),
    ;

    /// The encoding is storable text: the engine's read path hands a value
    /// back whole only when it holds no NUL byte, so an encoding never does.
    proof fn lemma_enc_nul_free(&self)
        requires
            self.encodable(),
        ensures
            nul_free(self.enc_spec()),
    ;

    /// The string form of the identifier, used as the row key.
    fn get_key(&self) -> (r: String)
        ensures
            r@ == self.id_spec(),
    ;

    /// Serializes the entity to the text the store keeps.
    fn encode(&self) -> (r: Result<String, CodecFault>)
        ensures
            r is Ok <==> self.encodable(),
            r matches Ok(s) ==> s@ == self.enc_spec(),
    ;

    /// Parses a stored text; a malformed one is rejected, never defaulted.
    fn decode(s: &str) -> (r: Result<Self, CodecFault>)
        ensures
            match Self::dec_spec(s@) {
                Some(e) => r matches Ok(v) && v == e,
                None => r is Err,
            },
    ;
}

/// `u32` identifiers are keyed by their decimal numeral.
impl Key for u32 {
    open spec fn key_spec(&self) -> Seq<char> {
        crate::numeral::dec_digits(*self as nat)
    }

    fn to_key(&self) -> (r: String) {
        crate::numeral::u32_to_dec(*self)
    }
}

} // verus!
