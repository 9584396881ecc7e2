//! Typed requests and responses of the downstream node's RPC API, and the
//! pure shaping around them: the URL of each call, the normalisation of
//! outputs and balances, and the classification of a reply once the
//! surrounding HTTP client has read and parsed it.

use vstd::prelude::*;
use vstd::string::StringExecFns;

verus! {

/// Identifier of the chain's native asset, used when an output names none.
pub open spec fn spec_iron_native_asset() -> Seq<char> {
    "51f33a2f14f92735e562dc658a5639279ddca3d5079a6d1242b2a588a9cbf44c"@
}

/// Identifier of the chain's native asset, as a fresh string.
pub fn iron_native_asset() -> (r: String)
    ensures
        r@ == spec_iron_native_asset(),
{
    String::from_str("51f33a2f14f92735e562dc658a5639279ddca3d5079a6d1242b2a588a9cbf44c")
}

/// A successful RPC envelope: transport status and the typed body.
pub struct RpcResponse<T> {
    pub status: u16,
    pub data: T,
}

/// An RPC error body, or the stand-in built for an unreadable reply.
#[derive(Debug)]
pub struct RpcError {
    pub code: String,
    pub status: u16,
    pub message: String,
}

/// The block at which an imported account starts scanning.
pub struct CreateAccountOpt {
    pub hash: String,
    pub sequence: u64,
}

/// Request body of the wallet's account-import call.
pub struct ImportAccountReq {
    pub version: u8,
    pub name: String,
    pub view_key: String,
    pub incoming_view_key: String,
    pub outgoing_view_key: String,
    pub public_address: String,
    pub created_at: Option<CreateAccountOpt>,
}

/// Response body of the wallet's account-import call.
pub struct ImportAccountRep {
    pub name: String,
}

/// Request body of the wallet's balance call.
pub struct GetBalancesReq {
    pub account: String,
    pub confirmations: Option<u32>,
}

/// One asset's balance as the wallet reports it.
pub struct AssetBalance {
    pub asset_id: String,
    pub confirmed: String,
    pub unconfirmed: String,
    pub pending: String,
    pub available: String,
    pub sequence: Option<u64>,
    pub asset_verification: String,
}

impl Clone for AssetBalance {
    fn clone(&self) -> (r: Self)
        ensures
            r == *self,
    {
        AssetBalance {
            asset_id: self.asset_id.clone(),
            confirmed: self.confirmed.clone(),
            unconfirmed: self.unconfirmed.clone(),
            pending: self.pending.clone(),
            available: self.available.clone(),
            sequence: self.sequence,
            asset_verification: self.asset_verification.clone(),
        }
    }
}

/// Response body of the wallet's balance call.
pub struct GetBalancesRep {
    pub account: String,
    pub balances: Vec<AssetBalance>,
}

/// Whether the wallet marked this asset's verification as `verified`.
pub open spec fn spec_is_verified(b: AssetBalance) -> bool {
    b.asset_verification@ == "verified"@
}

impl GetBalancesRep {
    /// Keeps only the balances of verified assets, in their given order.
    pub fn verified_asset(base: Self) -> (r: Self)
        ensures
            r.account == base.account,
            r.balances@ == base.balances@.filter(|b: AssetBalance| spec_is_verified(b)),
    {
        let verified = String::from_str("verified");
        let mut kept: Vec<AssetBalance> = Vec::new();
        let mut i: usize = 0;
        proof {
            reveal(Seq::filter);
        }
        while i < base.balances.len()
            invariant
                i <= base.balances@.len(),
                kept@ == base.balances@.take(i as int).filter(
                    |b: AssetBalance| spec_is_verified(b),
                ),
                verified@ == "verified"@,
            decreases base.balances@.len() - i,
        {
            if base.balances[i].asset_verification == verified {
                kept.push(base.balances[i].clone());
            }
            proof {
                reveal(Seq::filter);
                assert(base.balances@.take(i + 1).drop_last() =~= base.balances@.take(i as int));
                assert(base.balances@.take(i + 1).last() == base.balances@[i as int]);
            }
            i = i + 1;
        }
        proof {
            assert(base.balances@.take(base.balances@.len() as int) =~= base.balances@);
        }
        GetBalancesRep { account: base.account, balances: kept }
    }
}

/// One transaction output as a caller submits it.
pub struct OutPut {
    pub public_address: String,
    pub amount: String,
    pub memo: Option<String>,
    pub asset_id: Option<String>,
}

impl Clone for OutPut {
    fn clone(&self) -> (r: Self)
        ensures
            r == *self,
    {
        let memo = match &self.memo {
            Some(m) => Some(m.clone()),
            None => None,
        };
        let asset_id = match &self.asset_id {
            Some(a) => Some(a.clone()),
            None => None,
        };
        OutPut {
            public_address: self.public_address.clone(),
            amount: self.amount.clone(),
            memo,
            asset_id,
        }
    }
}

/// How a normalised output relates to the one it came from: address and
/// amount are kept, an absent memo becomes empty, an absent asset id
/// becomes the native asset.
pub open spec fn spec_output_normalized(base: OutPut, r: OutPut) -> bool {
    &&& r.public_address == base.public_address
    &&& r.amount == base.amount
    &&& (r.memo matches Some(m) && m@ == (match base.memo {
        Some(b) => b@,
        None => ""@,
    }))
    &&& (r.asset_id matches Some(a) && a@ == (match base.asset_id {
        Some(b) => b@,
        None => spec_iron_native_asset(),
    }))
}

impl OutPut {
    /// Fills an output's optional fields with their defaults.
    pub fn from(base: OutPut) -> (r: Self)
        ensures
            spec_output_normalized(base, r),
    {
        proof {
            reveal_strlit("");
            assert(""@ =~= Seq::<char>::empty());
        }
        let memo = match base.memo {
            Some(m) => Some(m),
            None => Some(String::new()),
        };
        let asset_id = match base.asset_id {
            Some(a) => Some(a),
            None => Some(iron_native_asset()),
        };
        OutPut { memo, asset_id, public_address: base.public_address, amount: base.amount }
    }
}

/// One asset mint of a transaction request.
pub struct MintAsset {
    pub asset_id: Option<String>,
    pub name: Option<String>,
    pub metadata: Option<String>,
    pub value: String,
}

/// One asset burn of a transaction request.
pub struct BurnAsset {
    pub asset_id: String,
    pub value: String,
}

/// Request body of the wallet's transaction-creation call.
pub struct CreateTxReq {
    pub account: String,
    pub fee: Option<String>,
    pub expiration_delta: Option<u32>,
    pub outputs: Option<Vec<OutPut>>,
    pub mints: Option<Vec<MintAsset>>,
    pub burns: Option<Vec<BurnAsset>>,
}

/// Response body of the wallet's transaction-creation call.
pub struct CreateTxRep {
    pub transaction: String,
}

/// Request body of the chain's transaction-broadcast call.
pub struct BroadcastTxReq {
    pub transaction: String,
}

/// Response body of the chain's transaction-broadcast call.
pub struct BroadcastTxRep {
    pub hash: String,
    pub accepted: bool,
    pub broadcasted: bool,
}

/// Request body of the wallet's transaction-listing call.
pub struct GetTransactionsReq {
    pub account: String,
    pub limit: Option<u32>,
    pub reverse: Option<bool>,
}

/// One transaction as the wallet reports it.
pub struct TransactionStatus {
    pub hash: String,
    pub fee: String,
    pub tx_type: String,
    pub status: String,
    pub block_sequence: Option<u64>,
    pub timestamp: u64,
    pub asset_balance_deltas: Vec<AssetBalanceDelta>,
}

/// Response body of the wallet's transaction-listing call.
pub struct GetTransactionsRep {
    pub transactions: Vec<TransactionStatus>,
}

/// Request body of the account-transaction lookup.
pub struct GetAccountTransactionReq {
    pub account: String,
    pub hash: String,
}

/// One asset's balance change within a transaction.
pub struct AssetBalanceDelta {
    pub asset_id: String,
    pub delta: String,
    pub asset_name: String,
}

/// Response body of the account-transaction lookup.
pub struct GetAccountTransactionRep {
    pub account: String,
    pub transaction: Option<TransactionStatus>,
}

/// One asset as the chain describes it.
pub struct RpcAsset {
    pub id: String,
    pub name: String,
    pub metadata: String,
    pub verification: String,
}

/// The full URL of an RPC route on the node at `endpoint`.
pub fn rpc_url(endpoint: &String, route: &str) -> (r: String)
    ensures
        r@ == "http://"@ + endpoint@ + route@,
{
    let mut s = String::from_str("http://");
    s.append(endpoint.as_str());
    s.append(route);
    s
}

/// An RPC exchange once the transport and parsing have settled, as the
/// surrounding HTTP client reports it: a parsed success body, an error
/// body the node sent, or a reply that could not be read, with its text.
pub enum RpcReply<T> {
    /// The node answered and the body parsed.
    Body(RpcResponse<T>),
    /// The node answered success but the body did not parse.
    BodyUnparsable(String),
    /// The node answered an error status with a parsable error body.
    StatusError(RpcError),
    /// The node answered an error status whose body did not parse.
    StatusUnparsable(String),
    /// The call itself failed before any reply.
    Transport(String),
}

/// Status code given to replies that carried no readable error body.
pub const UNKNOWN_RPC_STATUS: u16 = 606;

/// Classifies a settled RPC exchange: a parsed body passes through as
/// success, a parsed error body passes through as that error, and every
/// unreadable reply becomes the `Unknown` error carrying its text.
pub fn resolve_rpc_reply<T>(reply: RpcReply<T>) -> (r: Result<RpcResponse<T>, RpcError>)
    ensures
        match reply {
            RpcReply::Body(resp) => r matches Ok(x) && x == resp,
            RpcReply::BodyUnparsable(msg) => r matches Err(e) && e.code@ == "Unknown"@ && e.status
                == UNKNOWN_RPC_STATUS && e.message == msg,
            RpcReply::StatusError(err) => r matches Err(e) && e == err,
            RpcReply::StatusUnparsable(msg) => r matches Err(e) && e.code@ == "Unknown"@
                && e.status == UNKNOWN_RPC_STATUS && e.message == msg,
            RpcReply::Transport(msg) => r matches Err(e) && e.code@ == "Unknown"@ && e.status
                == UNKNOWN_RPC_STATUS && e.message == msg,
        },
{
    match reply {
        RpcReply::Body(resp) => Ok(resp),
        RpcReply::BodyUnparsable(msg) => Err(unknown_rpc_error(msg)),
        RpcReply::StatusError(err) => Err(err),
        RpcReply::StatusUnparsable(msg) => Err(unknown_rpc_error(msg)),
        RpcReply::Transport(msg) => Err(unknown_rpc_error(msg)),
    }
}

/// The stand-in error for a reply that could not be read.
fn unknown_rpc_error(message: String) -> (e: RpcError)
    ensures
        e.code@ == "Unknown"@,
        e.status == UNKNOWN_RPC_STATUS,
        e.message == message,
{
    RpcError { code: String::from_str("Unknown"), status: UNKNOWN_RPC_STATUS, message }
}

} // verus!
