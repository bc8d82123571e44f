//! Account addresses.
use vstd::prelude::*;

verus! {

/// A 32-byte account address: an asset, a pool, an owner or a token account.
#[derive(Clone, Copy, Debug)]
pub struct AccountKey {
    pub bytes: [u8; 32],
}

impl View for AccountKey {
    type V = Seq<u8>;

    open spec fn view(&self) -> Seq<u8> {
        self.bytes@
    }
}

impl PartialEq for AccountKey {
    fn eq(&self, other: &AccountKey) -> (r: bool) {
        let mut i: usize = 0;
        while i < 32
            invariant
                i <= 32,
                self@.len() == 32,
                other@.len() == 32,
                forall|j: int| 0 <= j < i ==> #[trigger] self@[j] == other@[j],
            decreases 32 - i,
        {
            if self.bytes[i] != other.bytes[i] {
                return false;
            }
            i = i + 1;
        }
        assert(self@ =~= other@);
        true
    }
}

impl vstd::std_specs::cmp::PartialEqSpecImpl for AccountKey {
    open spec fn obeys_eq_spec() -> bool {
        true
    }

    open spec fn eq_spec(&self, other: &AccountKey) -> bool {
        self@ == other@
    }
}

impl Eq for AccountKey {

}

impl AccountKey {
    /// The key with the given bytes.
    pub fn new(bytes: [u8; 32]) -> (r: Self)
        ensures
            r.bytes == bytes,
    {
        AccountKey { bytes }
    }

    /// Whether every byte is zero: the address of an account never written.
    pub open spec fn is_unset(&self) -> bool {
        forall|i: int| 0 <= i < 32 ==> #[trigger] self@[i] == 0
    }

    /// The all-zero key.
    pub fn unset() -> (r: Self)
        ensures
            r.is_unset(),
    {
        AccountKey { bytes: [0u8; 32] }
    }

    /// Whether every byte is zero.
    pub fn is_default(&self) -> (r: bool)
        ensures
            r == self.is_unset(),
    {
        let mut i: usize = 0;
        while i < 32
            invariant
                i <= 32,
                forall|j: int| 0 <= j < i ==> #[trigger] self.bytes@[j] == 0,
            decreases 32 - i,
        {
            if self.bytes[i] != 0 {
                assert(self@[i as int] != 0);
                return false;
            }
            i = i + 1;
        }
        true
    }
}

} // verus!
