//! Identities: the fixed-width names of users and messages.

use crate::hexcode::{from_hex, hex_upper, read_hex, to_hex};
use vstd::prelude::*;
use vstd::std_specs::cmp::PartialEqSpec;
use vstd::utf8::encode_utf8;

verus! {

/// How many bytes an identity has.
pub const ID_LEN: usize = 32;

/// An opaque identifier of fixed width. Two identities are equal when
/// their bytes are.
#[derive(Clone, Copy, Debug, Eq, PartialOrd, Ord, Hash)]
pub struct Identity {
    bytes: [u8; 32],
}

impl View for Identity {
    type V = Seq<u8>;

    closed spec fn view(&self) -> Seq<u8> {
        self.bytes@
    }
}

impl PartialEq for Identity {
    fn eq(&self, other: &Self) -> (r: bool) {
        let mut i: usize = 0;
        while i < 32
            invariant
                i <= 32,
                forall|j: int| 0 <= j < i ==> self.bytes@[j] == other.bytes@[j],
            decreases 32 - i,
        {
            if self.bytes[i] != other.bytes[i] {
                return false;
            }
            i += 1;
        }
        assert(self.bytes@ =~= other.bytes@);
        true
    }
}

impl vstd::std_specs::cmp::PartialEqSpecImpl for Identity {
    open spec fn obeys_eq_spec() -> bool {
        true
    }

    open spec fn eq_spec(&self, other: &Self) -> bool {
        self@ == other@
    }
}

impl Identity {
    /// Every identity has `ID_LEN` bytes, and identities with the same
    /// bytes are the same.
    pub broadcast proof fn lemma_view(self, other: Identity)
        ensures
            #![trigger self@, other@]
            self@.len() == ID_LEN,
            self@ == other@ ==> self == other,
    {
        if self@ == other@ {
            assert(self.bytes =~= other.bytes);
        }
    }

    /// The identity with the given bytes, if they are `ID_LEN` many.
    pub fn from_bytes(buf: &[u8]) -> (r: Option<Self>)
        ensures
            r is Some <==> buf@.len() == ID_LEN,
            r matches Some(id) ==> id@ == buf@,
    {
        if buf.len() != ID_LEN {
            return None;
        }
        let mut bytes: [u8; 32] = [0u8; 32];
        let mut i: usize = 0;
        while i < 32
            invariant
                i <= 32,
                buf@.len() == 32,
                forall|j: int| 0 <= j < i ==> bytes@[j] == buf@[j],
            decreases 32 - i,
        {
            bytes[i] = buf[i];
            i += 1;
        }
        assert(bytes@ =~= buf@);
        Some(Identity { bytes })
    }

    /// The bytes of the identity.
    pub fn as_bytes(&self) -> (r: &[u8])
        ensures
            r@ == self@,
    {
        self.bytes.as_slice()
    }

    /// The bytes of the identity as a vector.
    pub fn to_vec(&self) -> (r: Vec<u8>)
        ensures
            r@ == self@,
    {
        vstd::slice::slice_to_vec(self.bytes.as_slice())
    }

    /// The identity as text: its bytes in upper-case hexadecimal.
    pub fn to_string(&self) -> (r: String)
        ensures
            r@ == hex_upper(self@),
    {
        to_hex(self.bytes.as_slice())
    }

    /// Reads an identity from hexadecimal text: `None` unless the text
    /// stands for exactly `ID_LEN` bytes.
    pub fn from_string(text: &str) -> (r: Option<Self>)
        ensures
            match read_hex(encode_utf8(text@)) {
                Ok(bytes) => if bytes.len() == ID_LEN {
                    r matches Some(id) && id@ == bytes
                } else {
                    r is None
                },
                Err(_) => r is None,
            },
    {
        match from_hex(text) {
            Ok(bytes) => Identity::from_bytes(bytes.as_slice()),
            Err(_) => None,
        }
    }
}

} // verus!
