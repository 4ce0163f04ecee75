//! What the routing side tells the accountant: who consumed routing or exit
//! service and how much of it. The receivable book itself lives behind these
//! messages.

use vstd::prelude::*;

use crate::wallet::Wallet;

verus! {

pub const TEMPORARY_PER_ROUTING_RATE: u64 = 1;

pub const TEMPORARY_PER_ROUTING_BYTE_RATE: u64 = 1;

/// A relay served this package; bill its consuming wallet.
#[derive(Debug, PartialEq, Eq)]
pub struct ReportRoutingServiceProvidedMessage {
    pub consuming_wallet: Wallet,
    pub payload_size: usize,
    pub service_rate: u64,
    pub byte_rate: u64,
}

/// An exit served this response; bill its consuming wallet.
#[derive(Debug, PartialEq, Eq)]
pub struct ReportExitServiceProvidedMessage {
    pub consuming_wallet: Wallet,
    pub payload_size: usize,
    pub service_rate: u64,
    pub byte_rate: u64,
}

impl Clone for ReportExitServiceProvidedMessage {
    fn clone(&self) -> (r: Self)
        ensures
            r.consuming_wallet@ == self.consuming_wallet@,
            r.payload_size == self.payload_size,
            r.service_rate == self.service_rate,
            r.byte_rate == self.byte_rate,
    {
        ReportExitServiceProvidedMessage {
            consuming_wallet: self.consuming_wallet.clone(),
            payload_size: self.payload_size,
            service_rate: self.service_rate,
            byte_rate: self.byte_rate,
        }
    }
}

/// This node consumed routing service from a relay; expect a bill.
#[derive(Debug, PartialEq, Eq)]
pub struct ReportRoutingServiceConsumedMessage {
    pub earning_wallet: Wallet,
    pub payload_size: usize,
    pub service_rate: u64,
    pub byte_rate: u64,
}

/// This node consumed exit service from an exit; expect a bill.
#[derive(Debug, PartialEq, Eq)]
pub struct ReportExitServiceConsumedMessage {
    pub earning_wallet: Wallet,
    pub payload_size: usize,
    pub service_rate: u64,
    pub byte_rate: u64,
}

/// One row of the receivable book.
#[derive(Debug, PartialEq, Eq)]
pub struct ReceivableAccount {
    pub wallet_address: Wallet,
    pub balance: i64,
    pub last_received_timestamp: i64,
}

} // verus!
