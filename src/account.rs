//! Account identities supplied by the host environment.
use vstd::prelude::*;

verus! {

/// An opaque 32-byte account handle.
#[derive(Clone, Copy, Debug, Eq)]
pub struct AccountId(pub [u8; 32]);

impl PartialEq for AccountId {
    fn eq(&self, other: &AccountId) -> (r: bool) {
        let mut i: usize = 0;
        while i < 32
            invariant
                0 <= i <= 32,
                forall|j: int| 0 <= j < i ==> self.0@[j] == other.0@[j],
            decreases 32 - i,
        {
            if self.0[i] != other.0[i] {
                return false;
            }
            i = i + 1;
        }
        assert(self.0@ =~= other.0@);
        true
    }
}

impl vstd::std_specs::cmp::PartialEqSpecImpl for AccountId {
    open spec fn obeys_eq_spec() -> bool {
        true
    }

    open spec fn eq_spec(&self, other: &AccountId) -> bool {
        self.0@ == other.0@
    }
}

/// Whether `who` occurs in `list`.
pub fn contains_account(list: &Vec<AccountId>, who: AccountId) -> (r: bool)
    ensures
        r == list@.contains(who),
{
    let mut i: usize = 0;
    while i < list.len()
        invariant
            0 <= i <= list.len(),
            forall|j: int| 0 <= j < i ==> list@[j] != who,
        decreases list.len() - i,
    {
        if list[i] == who {
            assert(list@[i as int].0 =~= who.0);
            assert(list@[i as int] == who);
            return true;
        }
        i = i + 1;
    }
    false
}

} // verus!
