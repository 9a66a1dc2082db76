//! A validator's stake: a wallet and the integer amount it has staked, at
//! least the minimum.

use crate::codec::push_bytes;
use crate::codec::utf8;
use crate::crypto::sha256;
use crate::crypto::sha256_digest;
use crate::numeric::integer_add;
use crate::numeric::integer_from_u64;
use crate::numeric::integer_less;
use crate::numeric::integer_of;
use crate::numeric::integer_text;
use crate::numeric::integer_zero;
use crate::numeric::is_integer;
use crate::numeric::prints;
use vstd::prelude::*;

verus! {

/// The least stake that makes a wallet a validator.
pub const MINIMUM_STAKE: u64 = 10;

/// A wallet and its stake, kept as the stake's numeral.
#[derive(Debug)]
pub struct Stake {
    wallet: String,
    stake: String,
}

/// A stake as plain values.
pub struct StakeView {
    pub wallet: Seq<char>,
    pub stake: int,
}

/// Whether an amount counts as a stake: it is not below the minimum.
pub open spec fn is_stake(amount: int) -> bool {
    amount >= MINIMUM_STAKE
}

impl StakeView {
    /// The SHA-256 digest of the wallet followed by the stake's numeral: the
    /// stake's leaf in the election's Merkle tree.
    pub open spec fn digest(self) -> Seq<u8> {
        sha256_digest(utf8(self.wallet) + utf8(integer_text(self.stake)))@
    }
}

impl View for Stake {
    type V = StakeView;

    closed spec fn view(&self) -> StakeView {
        StakeView { wallet: self.wallet@, stake: integer_of(self.stake@) }
    }
}

impl Clone for Stake {
    fn clone(&self) -> (stake: Stake)
        ensures
            stake@ == self@,
    {
        proof {
            use_type_invariant(self);
        }
        Stake { wallet: self.wallet.clone(), stake: self.stake.clone() }
    }
}

impl Stake {
    /// The numeral is the one of the amount, and the amount is at least the
    /// minimum.
    #[verifier::type_invariant]
    spec fn well_formed(self) -> bool {
        &&& prints(self.stake@, integer_of(self.stake@))
        &&& is_stake(integer_of(self.stake@))
    }

    /// The stake of a wallet, where the amount is the numeral of an integer
    /// of at least the minimum; nothing otherwise.
    pub fn new(wallet: String, stake: String) -> (result: Option<Stake>)
        ensures
            result.is_some() == (is_integer(stake@) && is_stake(integer_of(stake@))),
            result.is_some() ==> result.unwrap()@ == (StakeView {
                wallet: wallet@,
                stake: integer_of(stake@),
            }),
    {
        let zero = integer_zero();
        let amount = match integer_add(stake.as_str(), zero.as_str()) {
            Some(amount) => amount,
            None => { return None; },
        };
        let minimum = integer_from_u64(MINIMUM_STAKE);
        match integer_less(amount.as_str(), minimum.as_str()) {
            Some(below) => {
                if below {
                    None
                } else {
                    Some(Stake { wallet, stake: amount })
                }
            },
            None => None,
        }
    }

    /// The wallet.
    pub fn wallet(&self) -> (wallet: String)
        ensures
            wallet@ == self@.wallet,
    {
        self.wallet.clone()
    }

    /// The staked amount as its numeral; it is at least the minimum.
    pub fn stake(&self) -> (stake: String)
        ensures
            prints(stake@, self@.stake),
            is_stake(self@.stake),
    {
        proof {
            use_type_invariant(self);
        }
        self.stake.clone()
    }

    /// The SHA-256 digest of the wallet followed by the stake's numeral.
    pub fn hash(&self) -> (digest: [u8; 32])
        ensures
            digest@ == self@.digest(),
    {
        proof {
            use_type_invariant(self);
        }
        let mut preimage: Vec<u8> = Vec::new();
        push_bytes(&mut preimage, self.wallet.as_str().as_bytes());
        push_bytes(&mut preimage, self.stake.as_str().as_bytes());
        sha256(preimage.as_slice())
    }
}

} // verus!
