//! Types shared by the runtime and its pallets.

use vstd::prelude::*;

verus! {

/// The result of dispatching a call: nothing on success, a static message on failure.
pub type DispatchResult = Result<(), &'static str>;

/// A block: a header and the extrinsics it carries.
pub struct Block<Header, Extrinsic> {
    pub header: Header,
    pub extrinsics: Vec<Extrinsic>,
}

/// A block header.
pub struct Header<BlockNumber> {
    pub block_number: BlockNumber,
}

/// A call made by a caller.
pub struct Extrinsic<Caller, Call> {
    pub caller: Caller,
    pub call: Call,
}

/// A module that can carry out calls on behalf of callers.
pub trait Dispatch {
    /// Who makes a call.
    type Caller;
    /// The calls the module accepts.
    type Call;

    /// Carries out `call` on behalf of `caller`.
    fn dispatch(&mut self, caller: Self::Caller, call: Self::Call) -> DispatchResult;
}

} // verus!
