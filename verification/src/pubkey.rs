//! Account addresses and key pairs, held as plain bytes.

use crate::assoc_map::MapKey;
use vstd::prelude::*;

verus! {

/// A 32-byte account address.
#[derive(Clone, Copy, Debug, Hash)]
pub struct Pubkey {
    pub bytes: [u8; 32],
}

/// Byte-wise lexicographic "strictly less than" on two sequences of equal length.
pub open spec fn bytes_lt(a: Seq<u8>, b: Seq<u8>) -> bool {
    exists|i: int|
        0 <= i < a.len() && i < b.len() && a[i] < b[i] && (forall|j: int|
            0 <= j < i ==> a[j] == b[j])
}

impl View for Pubkey {
    type V = Seq<u8>;

    open spec fn view(&self) -> Seq<u8> {
        self.bytes@
    }
}

impl Pubkey {
    /// Builds an address from its 32 bytes.
    pub fn new_from_array(bytes: [u8; 32]) -> (k: Pubkey)
        ensures
            k.bytes == bytes,
    {
        Pubkey { bytes }
    }

    /// The 32 bytes of the address.
    pub fn to_bytes(&self) -> (b: [u8; 32])
        ensures
            b == self.bytes,
    {
        self.bytes
    }

    /// Whether two addresses hold the same bytes.
    pub fn same_key(&self, other: &Pubkey) -> (b: bool)
        ensures
            b == (*self == *other),
            b == (self@ == other@),
    {
        let mut i: usize = 0;
        while i < 32
            invariant
                i <= 32,
                forall|j: int| 0 <= j < i ==> self.bytes[j] == other.bytes[j],
            decreases 32 - i,
        {
            if self.bytes[i] != other.bytes[i] {
                assert(self@[i as int] != other@[i as int]);
                return false;
            }
            i = i + 1;
        }
        proof {
            broadcast use vstd::array::group_array_axioms;
            assert(self.bytes =~= other.bytes);
            assert(self@ =~= other@);
        }
        true
    }

    /// Whether this address sorts strictly before `other` (byte-wise order).
    pub fn precedes(&self, other: &Pubkey) -> (b: bool)
        ensures
            b == bytes_lt(self@, other@),
    {
        let mut i: usize = 0;
        while i < 32
            invariant
                i <= 32,
                self@.len() == 32,
                other@.len() == 32,
                forall|j: int| 0 <= j < i ==> self@[j] == other@[j],
            decreases 32 - i,
        {
            if self.bytes[i] < other.bytes[i] {
                assert(bytes_lt(self@, other@)) by {
                    assert(0 <= i < self@.len() && self@[i as int] < other@[i as int]);
                }
                return true;
            }
            if self.bytes[i] > other.bytes[i] {
                assert(!bytes_lt(self@, other@)) by {
                    if bytes_lt(self@, other@) {
                        let k = choose|k: int|
                            0 <= k < self@.len() && k < other@.len() && self@[k] < other@[k]
                                && (forall|j: int| 0 <= j < k ==> self@[j] == other@[j]);
                        if k < i {
                        } else if k > i {
                            assert(self@[i as int] == other@[i as int]);
                        }
                    }
                }
                return false;
            }
            i = i + 1;
        }
        assert(!bytes_lt(self@, other@)) by {
            if bytes_lt(self@, other@) {
                let k = choose|k: int|
                    0 <= k < self@.len() && k < other@.len() && self@[k] < other@[k] && (forall|
                        j: int,
                    | 0 <= j < k ==> self@[j] == other@[j]);
                assert(self@[k] == other@[k]);
            }
        }
        false
    }
}

/// A signing key pair: the 32 secret bytes and the address they sign for.
#[derive(Debug)]
pub struct Keypair {
    pub secret: [u8; 32],
    pub public: Pubkey,
}

/// Generates a fresh random key pair with `solana_sdk::signature::Keypair::new`.
///
/// Nothing is claimed of the bytes: they come from the operating system's
/// random source.
#[verifier::external_body]
fn random_keypair() -> (k: Keypair) {
    let kp = solana_sdk::signature::Keypair::new();
    let bytes = kp.to_bytes();
    let mut secret = [0u8; 32];
    secret.copy_from_slice(&bytes[..32]);
    let mut public = [0u8; 32];
    public.copy_from_slice(&bytes[32..]);
    Keypair { secret, public: Pubkey { bytes: public } }
}

impl Keypair {
    /// A fresh random key pair.
    pub fn new() -> (k: Keypair) {
        random_keypair()
    }

    /// The address this key pair signs for.
    pub fn pubkey(&self) -> (k: Pubkey)
        ensures
            k == self.public,
    {
        self.public
    }

    /// A second copy of the key pair, secret included.
    pub fn insecure_clone(&self) -> (k: Keypair)
        ensures
            k == *self,
    {
        Keypair { secret: self.secret, public: self.public }
    }
}

impl PartialEq for Pubkey {
    fn eq(&self, other: &Pubkey) -> (b: bool) {
        self.same_key(other)
    }
}

impl vstd::std_specs::cmp::PartialEqSpecImpl for Pubkey {
    open spec fn obeys_eq_spec() -> bool {
        true
    }

    open spec fn eq_spec(&self, other: &Pubkey) -> bool {
        self@ == other@
    }
}

impl Eq for Pubkey {
}

impl MapKey for Pubkey {
    fn key_eq(&self, other: &Pubkey) -> (b: bool) {
        self.same_key(other)
    }
}

} // verus!
