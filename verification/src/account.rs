//! What the ledger keeps under a key: an owner, a balance and some bytes.

use crate::pubkey::Pubkey;
use vstd::prelude::*;

verus! {

/// A record of the ledger, as an operation is handed it.
#[derive(Clone, Debug, PartialEq, Eq)]
pub struct Account {
    /// The key under which the ledger keeps the record.
    pub key: Pubkey,
    /// The service that administers the record.
    pub owner: Pubkey,
    /// Whether the holder of the key has signed the request.
    pub is_signer: bool,
    /// The value that the record holds.
    pub lamports: u64,
    /// The bytes that the record holds.
    pub data: Vec<u8>,
}

/// A record of the ledger, as the rules speak of it.
pub struct AccountState {
    /// The key under which the ledger keeps the record.
    pub key: Seq<u8>,
    /// The service that administers the record.
    pub owner: Seq<u8>,
    /// Whether the holder of the key has signed the request.
    pub is_signer: bool,
    /// The value that the record holds.
    pub lamports: nat,
    /// The bytes that the record holds.
    pub data: Seq<u8>,
}

impl View for Account {
    type V = AccountState;

    open spec fn view(&self) -> AccountState {
        AccountState {
            key: self.key@,
            owner: self.owner@,
            is_signer: self.is_signer,
            lamports: self.lamports as nat,
            data: self.data@,
        }
    }
}

/// The bytes of a record once `image` has been written over their front.
pub open spec fn stored(data: Seq<u8>, image: Seq<u8>) -> Seq<u8> {
    image + data.skip(image.len() as int)
}

impl AccountState {
    /// What holds of every record that the ledger can hand over.
    pub open spec fn valid(self) -> bool {
        &&& self.key.len() == 32
        &&& self.owner.len() == 32
        &&& self.lamports <= u64::MAX
    }

    /// The record with `image` written over the front of its bytes.
    pub open spec fn holding(self, image: Seq<u8>) -> AccountState {
        AccountState { data: stored(self.data, image), ..self }
    }

    /// The record with another balance.
    pub open spec fn with_lamports(self, lamports: nat) -> AccountState {
        AccountState { lamports, ..self }
    }

    /// The record with `amount` added to its balance.
    pub open spec fn credited(self, amount: nat) -> AccountState {
        self.with_lamports(self.lamports + amount)
    }

    /// The record with `amount` taken from its balance, which holds as much.
    pub open spec fn debited(self, amount: nat) -> AccountState
        recommends
            amount <= self.lamports,
    {
        self.with_lamports((self.lamports - amount) as nat)
    }
}

impl Account {
    /// Writes `image` over the front of the bytes of the record. The bytes
    /// behind it stay as they are.
    pub fn store(&mut self, image: &Vec<u8>)
        requires
            image@.len() <= old(self).data@.len(),
        ensures
            final(self)@ == old(self)@.holding(image@),
    {
        let mut i: usize = 0;
        while i < image.len()
            invariant
                i <= image@.len() <= self.data@.len(),
                self.data@.len() == old(self).data@.len(),
                self.key == old(self).key,
                self.owner == old(self).owner,
                self.is_signer == old(self).is_signer,
                self.lamports == old(self).lamports,
                forall|j: int| 0 <= j < i ==> self.data@[j] == image@[j],
                forall|j: int| i <= j < self.data@.len() ==> self.data@[j] == old(self).data@[j],
            decreases image@.len() - i,
        {
            self.data[i] = image[i];
            i = i + 1;
        }
        assert(self.data@ =~= stored(old(self).data@, image@));
    }
}

} // verus!
