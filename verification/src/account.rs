//! Account identifiers.

use vstd::prelude::*;

verus! {

/// The identifier of an account or contract on the ledger: the 56 bytes of
/// its textual key. Two identifiers name the same account exactly when their
/// keys agree byte for byte.
#[derive(Clone, Copy, Debug, Eq)]
pub struct AccountId {
    pub key: [u8; 56],
}

impl AccountId {
    /// An identifier made of the given key bytes.
    pub fn new(key: [u8; 56]) -> (id: AccountId)
        ensures
            id.key == key,
    {
        AccountId { key }
    }

    /// Whether two identifiers name the same account.
    pub fn same(&self, other: &AccountId) -> (b: bool)
        ensures
            b == (*self == *other),
    {
        let mut i: usize = 0;
        while i < 56
            invariant
                i <= 56,
                forall|j: int| 0 <= j < i ==> self.key[j] == other.key[j],
            decreases 56 - i,
        {
            if self.key[i] != other.key[i] {
                return false;
            }
            i += 1;
        }
        assert(self.key =~= other.key);
        true
    }
}

impl PartialEq for AccountId {
    fn eq(&self, other: &AccountId) -> (b: bool) {
        self.same(other)
    }
}

impl vstd::std_specs::cmp::PartialEqSpecImpl for AccountId {
    open spec fn obeys_eq_spec() -> bool {
        true
    }

    open spec fn eq_spec(&self, other: &AccountId) -> bool {
        *self == *other
    }
}

} // verus!
