//! Value types shared by the ledger, the registry and the matching engine.

use vstd::prelude::*;

verus! {

/// The chain an asset lives on.
#[derive(Clone, Copy, PartialEq, Eq, Structural, Debug, Hash)]
pub enum Chain {
    ICP,
    Bitcoin,
    Ethereum,
}

/// The lifecycle state of a swap request. `Pending` is the only state from
/// which a transition is permitted; the other three are terminal.
#[derive(Clone, Copy, PartialEq, Eq, Structural, Debug)]
pub enum SwapStatus {
    Pending,
    Matched,
    Expired,
    Cancelled,
}

/// Why an operation was refused. Every failure leaves the engine unchanged,
/// with the one documented exception of the refund-on-expiry side effect of
/// `execute_swap`.
#[derive(Clone, Copy, PartialEq, Eq, Structural, Debug)]
pub enum SwapError {
    Unauthenticated,
    Unauthorized,
    InvalidInput,
    InsufficientFunds,
    NotFound,
    Incompatible,
    Expired,
    Overflow,
    AlreadyProcessed,
}

/// A caller identity: opaque bytes, verified and handed in by the host.
/// The single byte 4 denotes the anonymous caller, which every mutating
/// operation rejects.
#[derive(Debug)]
pub struct Identity {
    pub bytes: Vec<u8>,
}

impl View for Identity {
    type V = Seq<u8>;

    open spec fn view(&self) -> Seq<u8> {
        self.bytes@
    }
}

/// The byte form of the anonymous identity.
pub open spec fn anonymous_id() -> Seq<u8> {
    seq![4u8]
}

impl Identity {
    pub open spec fn is_anonymous(&self) -> bool {
        self@ == anonymous_id()
    }

    /// The well-known anonymous identity.
    pub fn anonymous() -> (r: Identity)
        ensures
            r@ == anonymous_id(),
    {
        let mut bytes: Vec<u8> = Vec::new();
        bytes.push(4u8);
        proof {
            assert(bytes@ =~= anonymous_id());
        }
        Identity { bytes }
    }

    /// Byte-for-byte equality of two identities.
    pub fn same_as(&self, other: &Identity) -> (r: bool)
        ensures
            r == (self@ == other@),
    {
        if self.bytes.len() != other.bytes.len() {
            return false;
        }
        let n = self.bytes.len();
        let mut i: usize = 0;
        while i < n
            invariant
                i <= n,
                n == self.bytes.len(),
                self.bytes.len() == other.bytes.len(),
                forall|j: int| 0 <= j < i ==> self.bytes@[j] == other.bytes@[j],
            decreases n - i,
        {
            if self.bytes[i] != other.bytes[i] {
                return false;
            }
            i += 1;
        }
        proof {
            assert(self.bytes@ =~= other.bytes@);
        }
        true
    }
}

impl Clone for Identity {
    fn clone(&self) -> (r: Self)
        ensures
            r@ == self@,
    {
        let n = self.bytes.len();
        let mut bytes: Vec<u8> = Vec::new();
        let mut i: usize = 0;
        while i < n
            invariant
                i <= n,
                n == self.bytes.len(),
                bytes@ =~= self.bytes@.take(i as int),
            decreases n - i,
        {
            bytes.push(self.bytes[i]);
            i += 1;
        }
        proof {
            assert(bytes@ =~= self.bytes@);
        }
        Identity { bytes }
    }
}

/// The mathematical value of an `Asset`.
pub struct AssetView {
    pub chain: Chain,
    pub symbol: Seq<char>,
    pub amount: u64,
}

/// An amount of one asset: the chain it lives on, its ticker symbol, and a
/// quantity in the asset's smallest indivisible unit.
#[derive(Debug)]
pub struct Asset {
    pub chain: Chain,
    pub symbol: String,
    pub amount: u64,
}

impl View for Asset {
    type V = AssetView;

    open spec fn view(&self) -> AssetView {
        AssetView { chain: self.chain, symbol: self.symbol@, amount: self.amount }
    }
}

impl Clone for Asset {
    fn clone(&self) -> (r: Self)
        ensures
            r@ == self@,
    {
        Asset { chain: self.chain, symbol: self.symbol.clone(), amount: self.amount }
    }
}

/// The mathematical value of a `SwapRequest`.
pub struct SwapRequestView {
    pub id: u64,
    pub user: Seq<u8>,
    pub from_asset: AssetView,
    pub to_asset_symbol: Seq<char>,
    pub to_chain: Chain,
    pub deadline: u64,
    pub status: SwapStatus,
}

/// One side of a bilateral trade: the asset its owner escrowed and the asset
/// the owner wants in return, with an absolute expiry deadline.
#[derive(Debug)]
pub struct SwapRequest {
    pub id: u64,
    pub user: Identity,
    pub from_asset: Asset,
    pub to_asset_symbol: String,
    pub to_chain: Chain,
    pub deadline: u64,
    pub status: SwapStatus,
}

impl View for SwapRequest {
    type V = SwapRequestView;

    open spec fn view(&self) -> SwapRequestView {
        SwapRequestView {
            id: self.id,
            user: self.user@,
            from_asset: self.from_asset@,
            to_asset_symbol: self.to_asset_symbol@,
            to_chain: self.to_chain,
            deadline: self.deadline,
            status: self.status,
        }
    }
}

impl Clone for SwapRequest {
    fn clone(&self) -> (r: Self)
        ensures
            r@ == self@,
    {
        SwapRequest {
            id: self.id,
            user: self.user.clone(),
            from_asset: self.from_asset.clone(),
            to_asset_symbol: self.to_asset_symbol.clone(),
            to_chain: self.to_chain,
            deadline: self.deadline,
            status: self.status,
        }
    }
}

/// The message a caller sees for each kind of failure.
pub open spec fn error_text(e: SwapError) -> Seq<char> {
    match e {
        SwapError::Unauthenticated => "Authentication required"@,
        SwapError::Unauthorized => "Only the owner may cancel a swap request"@,
        SwapError::InvalidInput => "Invalid input"@,
        SwapError::InsufficientFunds => "Insufficient balance"@,
        SwapError::NotFound => "Swap request not found"@,
        SwapError::Incompatible => "Incompatible swap requests"@,
        SwapError::Expired => "Swap request has expired"@,
        SwapError::Overflow => "Amount out of range"@,
        SwapError::AlreadyProcessed => "Swap request already processed"@,
    }
}

impl SwapError {
    /// Render the error for a caller.
    pub fn message(&self) -> (r: String)
        ensures
            r@ == error_text(*self),
    {
        match self {
            SwapError::Unauthenticated => String::from_str("Authentication required"),
            SwapError::Unauthorized => String::from_str("Only the owner may cancel a swap request"),
            SwapError::InvalidInput => String::from_str("Invalid input"),
            SwapError::InsufficientFunds => String::from_str("Insufficient balance"),
            SwapError::NotFound => String::from_str("Swap request not found"),
            SwapError::Incompatible => String::from_str("Incompatible swap requests"),
            SwapError::Expired => String::from_str("Swap request has expired"),
            SwapError::Overflow => String::from_str("Amount out of range"),
            SwapError::AlreadyProcessed => String::from_str("Swap request already processed"),
        }
    }
}

/// The reply shape of the swap endpoints: a success flag, a message for the
/// caller, and the allocated id when one was allocated.
#[derive(Debug)]
pub struct SwapResponse {
    pub success: bool,
    pub message: String,
    pub swap_id: Option<u64>,
}

impl SwapResponse {
    /// Fold an engine result into the reply shape.
    pub fn from_swap_result(r: &Result<u64, SwapError>) -> (resp: SwapResponse)
        ensures
            resp.success == r.is_ok(),
            r is Ok ==> resp.swap_id == Some(r->Ok_0)
                && resp.message@ == "Swap request created successfully"@,
            r is Err ==> resp.swap_id is None && resp.message@ == error_text(r->Err_0),
    {
        match r {
            Ok(id) => SwapResponse {
                success: true,
                message: String::from_str("Swap request created successfully"),
                swap_id: Some(*id),
            },
            Err(e) => SwapResponse { success: false, message: e.message(), swap_id: None },
        }
    }
}

/// The reply shape of the balance queries: each held symbol with its amount.
#[derive(Debug)]
pub struct BalanceResponse {
    pub balances: Vec<(String, u64)>,
}

} // verus!
