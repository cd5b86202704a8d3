//! Core data model of the bridge: address spaces, call frame parameters,
//! and the bridge's error taxonomy.
use vstd::prelude::*;

verus! {

/// One of the two parallel account namespaces of the ledger.
#[derive(Clone, Copy, PartialEq, Eq, Structural, Debug)]
pub enum Space {
    Native,
    Ethereum,
}

/// An address tagged with the space it lives in; addresses are only
/// comparable within one space.
pub struct AddressWithSpace {
    pub address: Vec<u8>,
    pub space: Space,
}

/// The kind of a message call.
#[derive(Clone, Copy, PartialEq, Eq, Structural, Debug)]
pub enum CallKind {
    Call,
    StaticCall,
    CallCode,
    DelegateCall,
}

/// The kind of a contract creation.
#[derive(Clone, Copy, PartialEq, Eq, Structural, Debug)]
pub enum CreateKind {
    Create,
    Create2,
}

/// How a sub-frame receives its input: embedded in the code or separate.
#[derive(Clone, Copy, PartialEq, Eq, Structural, Debug)]
pub enum ParamsKind {
    Embedded,
    Separate,
}

/// Immutable parameters of one call frame.
pub struct ActionParams {
    pub space: Space,
    pub sender: Vec<u8>,
    pub address: Vec<u8>,
    pub code_address: Vec<u8>,
    pub original_sender: Vec<u8>,
    pub storage_owner: Vec<u8>,
    pub value: u128,
    pub gas: u128,
    pub gas_price: u128,
    pub code: Option<Vec<u8>>,
    pub code_hash: Option<Vec<u8>>,
    pub data: Option<Vec<u8>>,
    pub call_kind: Option<CallKind>,
    pub create_kind: Option<CreateKind>,
    pub params_kind: ParamsKind,
}

/// Mathematical image of `ActionParams`.
pub struct ParamsV {
    pub space: Space,
    pub sender: Seq<u8>,
    pub address: Seq<u8>,
    pub code_address: Seq<u8>,
    pub original_sender: Seq<u8>,
    pub storage_owner: Seq<u8>,
    pub value: u128,
    pub gas: u128,
    pub gas_price: u128,
    pub code: Option<Seq<u8>>,
    pub code_hash: Option<Seq<u8>>,
    pub data: Option<Seq<u8>>,
    pub call_kind: Option<CallKind>,
    pub create_kind: Option<CreateKind>,
    pub params_kind: ParamsKind,
}

pub open spec fn opt_view(o: Option<Vec<u8>>) -> Option<Seq<u8>> {
    match o {
        Option::None => Option::None,
        Option::Some(v) => Option::Some(v@),
    }
}

impl View for ActionParams {
    type V = ParamsV;

    open spec fn view(&self) -> ParamsV {
        ParamsV {
            space: self.space,
            sender: self.sender@,
            address: self.address@,
            code_address: self.code_address@,
            original_sender: self.original_sender@,
            storage_owner: self.storage_owner@,
            value: self.value,
            gas: self.gas,
            gas_price: self.gas_price,
            code: opt_view(self.code),
            code_hash: opt_view(self.code_hash),
            data: opt_view(self.data),
            call_kind: self.call_kind,
            create_kind: self.create_kind,
            params_kind: self.params_kind,
        }
    }
}

impl ActionParams {
    /// Addresses carried by a frame are 20 bytes each.
    pub open spec fn wf(self) -> bool {
        &&& self.sender@.len() == 20
        &&& self.address@.len() == 20
        &&& self.original_sender@.len() == 20
    }
}

/// Errors the bridge itself can raise. Sub-execution failures are not
/// bridge errors: they are ordinary completion outcomes.
#[derive(Clone, Copy, PartialEq, Eq, Structural, Debug)]
pub enum BridgeError {
    /// The call depth limit was reached before the sub-frame was built.
    DepthExceeded,
    /// A withdraw asked for more than the pseudo-account holds.
    InsufficientBalance,
    /// Finalization found too little gas for the return payload.
    OutOfGas,
    /// An error of the nested execution, passed through the continuation.
    SubExecution,
}

} // verus!
