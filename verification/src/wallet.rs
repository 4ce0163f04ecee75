//! An account identifier for billing: an opaque address string.

use vstd::prelude::*;

verus! {

use vstd::string::StringExecFns;

#[derive(Debug, PartialEq, Eq, Hash)]
pub struct Wallet {
    pub address: String,
}

impl View for Wallet {
    type V = Seq<char>;

    open spec fn view(&self) -> Seq<char> {
        self.address@
    }
}

impl Clone for Wallet {
    fn clone(&self) -> (r: Self)
        ensures
            r@ == self@,
    {
        Wallet { address: self.address.clone() }
    }
}

impl Wallet {
    pub fn new(address: &str) -> (r: Wallet)
        ensures
            r@ == address@,
    {
        Wallet { address: String::from_str(address) }
    }
}

/// The earning wallet a node falls back on when none is configured.
pub fn default_earning_wallet() -> (r: Wallet)
    ensures
        r@ == "0x0000000000000000000000000000000000000000"@,
{
    Wallet::new("0x0000000000000000000000000000000000000000")
}

/// The consuming wallet used until real wallet management arrives.
pub fn temporary_consuming_wallet() -> (r: Wallet)
    ensures
        r@ == "0xbDfeFf9A1f4A1bdF483d680046344316019C58CF"@,
{
    Wallet::new("0xbDfeFf9A1f4A1bdF483d680046344316019C58CF")
}

} // verus!
