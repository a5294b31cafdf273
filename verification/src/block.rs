//! Blocks as the pipeline receives them: plain values, with a failure in the
//! place of whatever could not be fetched or decoded.

use vstd::prelude::*;

verus! {

/// One event that an extrinsic emitted.
#[derive(Debug, PartialEq, Eq)]
pub struct Event {
    /// The pallet that defines the event.
    pub pallet: String,
    /// The name of the event within the pallet.
    pub variant: String,
    /// The decoded field values, in order, or why they could not be decoded.
    pub fields: Result<Vec<String>, String>,
}

/// One extrinsic of a block.
#[derive(Debug, PartialEq, Eq)]
pub struct Extrinsic {
    /// The position of the extrinsic in its block, counted from zero.
    pub index: u32,
    /// The pallet that defines the call, or why it could not be decoded.
    pub pallet: Result<String, String>,
    /// The name of the call within the pallet, or why it could not be decoded.
    pub variant: Result<String, String>,
    /// The events of the extrinsic in the order of emission, each one decoded
    /// or not, or why they could not be fetched at all.
    pub events: Result<Vec<Result<Event, String>>, String>,
}

impl Extrinsic {
    /// Both names of the extrinsic were decoded.
    pub open spec fn decoded(self) -> bool {
        self.pallet is Ok && self.variant is Ok
    }
}

/// One finalized block.
#[derive(Debug, PartialEq, Eq)]
pub struct Block {
    /// The hash that identifies the block.
    pub hash: Vec<u8>,
    /// The height of the block in its chain.
    pub height: u64,
    /// The extrinsics of the block in on-chain order, or why they could not be
    /// fetched.
    pub extrinsics: Result<Vec<Extrinsic>, String>,
}

/// What a source yields: a block, or why the source could not produce one.
pub type Arrival = Result<Block, String>;

} // verus!
