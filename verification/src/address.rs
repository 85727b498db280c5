//! Routing keys.

use vstd::prelude::*;
use vstd::std_specs::cmp::PartialEqSpecImpl;

verus! {

/// The text that a lossy reading of `bytes` as UTF-8 gives: what is valid
/// is kept, what is not is replaced by U+FFFD.
pub uninterp spec fn utf8_lossy(bytes: Seq<u8>) -> Seq<char>;

/// Calls `String::from_utf8_lossy` of std. Trusted: the text depends on
/// the bytes alone.
#[verifier::external_body]
fn lossy_text(bytes: &[u8]) -> (text: String)
    ensures
        text@ == utf8_lossy(bytes@),
{
    String::from_utf8_lossy(bytes).into_owned()
}

/// The routing key of one agent: an opaque byte string chosen by the
/// application. Two addresses are the same address exactly when their
/// bytes are the same; the bus reads nothing else into them.
#[derive(Debug, Hash)]
pub struct Address {
    bytes: Vec<u8>,
}

impl View for Address {
    type V = Seq<u8>;

    closed spec fn view(&self) -> Seq<u8> {
        self.bytes@
    }
}

impl Address {
    /// The address that `bytes` names.
    pub fn from_bytes(bytes: &[u8]) -> (address: Address)
        ensures
            address@ == bytes@,
    {
        let mut copy: Vec<u8> = Vec::new();
        let mut i: usize = 0;
        while i < bytes.len()
            invariant
                i <= bytes@.len(),
                copy@ == bytes@.subrange(0, i as int),
            decreases bytes@.len() - i,
        {
            copy.push(bytes[i]);
            i += 1;
            assert(copy@ =~= bytes@.subrange(0, i as int));
        }
        assert(bytes@.subrange(0, bytes@.len() as int) =~= bytes@);
        Address { bytes: copy }
    }

    /// The address as text for people to read: its bytes read as UTF-8,
    /// with U+FFFD where they are not.
    pub fn to_string(&self) -> (text: String)
        ensures
            text@ == utf8_lossy(self@),
    {
        lossy_text(self.bytes.as_slice())
    }

    /// The bytes that name this address.
    pub fn as_bytes(&self) -> (bytes: &[u8])
        ensures
            bytes@ == self@,
    {
        self.bytes.as_slice()
    }
}

impl Clone for Address {
    fn clone(&self) -> (copy: Self)
        ensures
            copy@ == self@,
    {
        Address::from_bytes(self.bytes.as_slice())
    }
}

impl PartialEq for Address {
    fn eq(&self, other: &Self) -> (same: bool) {
        if self.bytes.len() != other.bytes.len() {
            assert(self@ != other@);
            return false;
        }
        let mut i: usize = 0;
        while i < self.bytes.len()
            invariant
                i <= self.bytes@.len(),
                self.bytes@.len() == other.bytes@.len(),
                self.bytes@.subrange(0, i as int) == other.bytes@.subrange(0, i as int),
            decreases self.bytes@.len() - i,
        {
            if self.bytes[i] != other.bytes[i] {
                return false;
            }
            i += 1;
            assert(self.bytes@.subrange(0, i as int) =~= self.bytes@.subrange(0, i - 1).push(
                self.bytes@[i - 1],
            ));
            assert(other.bytes@.subrange(0, i as int) =~= other.bytes@.subrange(0, i - 1).push(
                other.bytes@[i - 1],
            ));
        }
        assert(self.bytes@.subrange(0, i as int) =~= self.bytes@);
        assert(other.bytes@.subrange(0, i as int) =~= other.bytes@);
        true
    }
}

impl PartialEqSpecImpl for Address {
    open spec fn obeys_eq_spec() -> bool {
        true
    }

    open spec fn eq_spec(&self, other: &Self) -> bool {
        self@ == other@
    }
}

impl Eq for Address {

}

} // verus!
