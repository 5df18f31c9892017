use vstd::prelude::*;

use crate::store::{bytes_eq, copy_bytes};

verus! {

/// Number of nanoseconds in one millisecond.
pub const NANOS_PER_MILLI: u64 = 1_000_000;

/// Number of nanoseconds in one second.
pub const NANOS_PER_SEC: u64 = 1_000_000_000;

/// A point in time, as nanoseconds since the Unix epoch.
pub struct Timestamp(pub u64);

impl Timestamp {
    pub fn new(ns: u64) -> (r: Self)
        ensures
            r.0 == ns,
    {
        Timestamp(ns)
    }

    pub fn nanos(&self) -> (r: u64)
        ensures
            r == self.0,
    {
        self.0
    }

    pub fn millis(&self) -> (r: u64)
        ensures
            r == self.0 / NANOS_PER_MILLI,
    {
        self.0 / NANOS_PER_MILLI
    }

    pub fn secs(&self) -> (r: u64)
        ensures
            r == self.0 / NANOS_PER_SEC,
    {
        self.0 / NANOS_PER_SEC
    }
}

/// The invocation was not made by the contract itself.
#[derive(Clone, Copy, Debug, PartialEq, Eq, Structural)]
pub struct PrivateCallError;

/// The invocation did not carry exactly one unit of deposit.
#[derive(Clone, Copy, Debug, PartialEq, Eq, Structural)]
pub struct OneYoctoAttachError;

/// What the host tells an invocation about the context it runs in.
pub trait Env {
    /// Account that signed the transaction.
    fn signer_account_id(&self) -> Vec<u8>;

    /// Account of the currently executing contract.
    fn current_account_id(&self) -> Vec<u8>;

    /// Account that called the current contract.
    fn predecessor_account_id(&self) -> Vec<u8>;

    /// Height of the current block.
    fn block_height(&self) -> u64;

    /// Timestamp of the current block.
    fn block_timestamp(&self) -> Timestamp;

    /// Deposit attached to the current call.
    fn attached_deposit(&self) -> u128;
}

/// A snapshot of the host context of one invocation.
pub struct HostContext {
    pub signer_account_id: Vec<u8>,
    pub current_account_id: Vec<u8>,
    pub predecessor_account_id: Vec<u8>,
    pub block_height: u64,
    pub block_timestamp_ns: u64,
    pub attached_deposit: u128,
}

impl Env for HostContext {
    fn signer_account_id(&self) -> Vec<u8> {
        copy_bytes(self.signer_account_id.as_slice())
    }

    fn current_account_id(&self) -> Vec<u8> {
        copy_bytes(self.current_account_id.as_slice())
    }

    fn predecessor_account_id(&self) -> Vec<u8> {
        copy_bytes(self.predecessor_account_id.as_slice())
    }

    fn block_height(&self) -> u64 {
        self.block_height
    }

    fn block_timestamp(&self) -> Timestamp {
        Timestamp::new(self.block_timestamp_ns)
    }

    fn attached_deposit(&self) -> u128 {
        self.attached_deposit
    }
}

impl HostContext {
    /// Succeeds only where the contract called itself.
    pub fn assert_private_call(&self) -> (r: Result<(), PrivateCallError>)
        ensures
            r.is_ok() == (self.predecessor_account_id@ == self.current_account_id@),
    {
        if bytes_eq(self.predecessor_account_id.as_slice(), self.current_account_id.as_slice()) {
            Ok(())
        } else {
            Err(PrivateCallError)
        }
    }

    /// Succeeds only where exactly one unit of deposit is attached.
    pub fn assert_one_yocto(&self) -> (r: Result<(), OneYoctoAttachError>)
        ensures
            r.is_ok() == (self.attached_deposit == 1),
    {
        if self.attached_deposit == 1 {
            Ok(())
        } else {
            Err(OneYoctoAttachError)
        }
    }
}

} // verus!
