use vstd::prelude::*;

verus! {

/// Number of bytes in an account identity.
pub const ACCOUNT_ID_LEN: usize = 32;

/// An opaque account identity, compared only for equality.
#[derive(Clone, Copy, Debug)]
pub struct AccountId {
    pub bytes: [u8; 32],
}

impl View for AccountId {
    type V = Seq<u8>;

    open spec fn view(&self) -> Seq<u8> {
        self.bytes@
    }
}

impl AccountId {
    /// Wraps the 32 bytes of an identity.
    pub fn new(bytes: [u8; 32]) -> (r: AccountId)
        ensures
            r@ == bytes@,
    {
        AccountId { bytes }
    }

    /// The 32 bytes of this identity.
    pub fn to_bytes(&self) -> (r: [u8; 32])
        ensures
            r@ == self@,
    {
        self.bytes
    }

    /// Whether two identities name the same account.
    pub fn same_as(&self, other: &AccountId) -> (r: bool)
        ensures
            r == (self@ == other@),
    {
        let mut i: usize = 0;
        while i < ACCOUNT_ID_LEN
            invariant
                0 <= i <= ACCOUNT_ID_LEN,
                self@.len() == ACCOUNT_ID_LEN,
                other@.len() == ACCOUNT_ID_LEN,
                forall|j: int| 0 <= j < i ==> self@[j] == other@[j],
            decreases ACCOUNT_ID_LEN - i,
        {
            if self.bytes[i] != other.bytes[i] {
                return false;
            }
            i = i + 1;
        }
        assert(self@ =~= other@);
        true
    }
}

} // verus!
