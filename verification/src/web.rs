//! Request shaping for the public HTTP endpoints.
//!
//! The HTTP layer itself — routing, JSON, status codes — lives outside the
//! library. What it delegates here is every decision: which account name
//! and defaults go into the downstream RPC request, and when a
//! transaction-creation request is rejected outright.

use vstd::prelude::*;
use vstd::string::StringExecFns;

use crate::rpc::{
    BurnAsset, CreateAccountOpt, CreateTxReq, GetBalancesReq, GetTransactionsReq, MintAsset,
    OutPut, spec_output_normalized,
};

verus! {

/// Version written into every account imported through the wallet API.
pub const ACCOUNT_VERSION: u8 = 2;

/// Default confirmation depth of a balance query.
pub const DEFAULT_CONFIRMATIONS: u32 = 10;

/// Default number of transactions a listing returns.
pub const DEFAULT_TX_LIMIT: u32 = 6;

/// Default expiration delta of a created transaction.
pub const DEFAULT_EXPIRATION_DELTA: u32 = 30;

/// Body of the view-key import endpoint.
pub struct ImportAccountReq {
    pub view_key: String,
    pub incoming_view_key: String,
    pub outgoing_view_key: String,
    pub public_address: String,
}

/// Reply of the view-key import endpoint.
pub struct ImportAccountRep {
    pub name: String,
}

/// Body of the proof-generation endpoint: raw circuits to prove.
pub struct GenerateProofReq {
    pub spend_circuits: Vec<Vec<u8>>,
    pub output_circuits: Vec<Vec<u8>>,
    pub mint_asset_circuits: Vec<Vec<u8>>,
}

/// Reply of the proof-generation endpoint.
pub struct GenerateProofRep {
    pub spend_proofs: Vec<Vec<u8>>,
    pub output_proofs: Vec<Vec<u8>>,
    pub mint_asset_proofs: Vec<Vec<u8>>,
}

/// Rejection of a transaction-creation request before any downstream call.
#[derive(Debug)]
pub enum TxError {
    /// A mint names neither an existing asset id nor a new asset name.
    BadMintRequest,
}

/// Builds the downstream account-import request: the caller's keys pass
/// through untouched, under the stored account name and current version.
pub fn build_import_account_req(
    import: ImportAccountReq,
    name: String,
    created_at: Option<CreateAccountOpt>,
) -> (r: crate::rpc::ImportAccountReq)
    ensures
        r.version == ACCOUNT_VERSION,
        r.name == name,
        r.view_key == import.view_key,
        r.incoming_view_key == import.incoming_view_key,
        r.outgoing_view_key == import.outgoing_view_key,
        r.public_address == import.public_address,
        r.created_at == created_at,
{
    crate::rpc::ImportAccountReq {
        version: ACCOUNT_VERSION,
        name,
        view_key: import.view_key,
        incoming_view_key: import.incoming_view_key,
        outgoing_view_key: import.outgoing_view_key,
        public_address: import.public_address,
        created_at,
    }
}

/// Builds the downstream balance request for the stored account name,
/// defaulting the confirmation depth.
pub fn prepare_get_balances(account: String, confirmations: Option<u32>) -> (r: GetBalancesReq)
    ensures
        r.account == account,
        r.confirmations matches Some(c) && c == (match confirmations {
            Some(given) => given,
            None => DEFAULT_CONFIRMATIONS,
        }),
{
    let c = match confirmations {
        Some(given) => given,
        None => DEFAULT_CONFIRMATIONS,
    };
    GetBalancesReq { account, confirmations: Some(c) }
}

/// Builds the downstream transaction listing for the stored account name:
/// the limit defaults, and the listing is always newest first.
pub fn prepare_get_transactions(account: String, limit: Option<u32>) -> (r: GetTransactionsReq)
    ensures
        r.account == account,
        r.limit matches Some(l) && l == (match limit {
            Some(given) => given,
            None => DEFAULT_TX_LIMIT,
        }),
        r.reverse == Some(true),
{
    let l = match limit {
        Some(given) => given,
        None => DEFAULT_TX_LIMIT,
    };
    GetTransactionsReq { account, limit: Some(l), reverse: Some(true) }
}

/// A mint that names neither an asset id nor a new asset name.
pub open spec fn spec_bad_mint(m: MintAsset) -> bool {
    m.asset_id is None && m.name is None
}

/// Builds the downstream transaction-creation request, rejected exactly
/// when some mint names neither an asset id nor an asset name.
///
/// On success: the stored account name replaces the caller's, fee and
/// expiration delta get their defaults, every output is normalised, and
/// mints and burns pass through (absent lists become empty).
#[verifier::loop_isolation(false)]
pub fn prepare_create_transaction(account_name: String, req: CreateTxReq) -> (r: Result<
    CreateTxReq,
    TxError,
>)
    ensures
        (match req.mints {
            Some(ms) => exists|i: int| 0 <= i < ms@.len() && spec_bad_mint(ms@[i]),
            None => false,
        }) <==> r is Err,
        r matches Ok(out) ==> {
            &&& out.account == account_name
            &&& (out.fee matches Some(f) && f@ == (match req.fee {
                Some(given) => given@,
                None => "1"@,
            }))
            &&& (out.expiration_delta matches Some(d) && d == (match req.expiration_delta {
                Some(given) => given,
                None => DEFAULT_EXPIRATION_DELTA,
            }))
            &&& (out.outputs matches Some(os) && {
                let base = (match req.outputs {
                    Some(v) => v@,
                    None => Seq::<OutPut>::empty(),
                });
                os@.len() == base.len() && (forall|i: int|
                    0 <= i < base.len() ==> spec_output_normalized(base[i], #[trigger] os@[i]))
            })
            &&& (out.mints matches Some(ms) && ms@ == (match req.mints {
                Some(v) => v@,
                None => Seq::<MintAsset>::empty(),
            }))
            &&& (out.burns matches Some(bs) && bs@ == (match req.burns {
                Some(v) => v@,
                None => Seq::<BurnAsset>::empty(),
            }))
        },
{
    let CreateTxReq { account: _, fee, expiration_delta, outputs, mints, burns } = req;
    let mints = match mints {
        Some(v) => {
            let mut i: usize = 0;
            while i < v.len()
                invariant
                    i <= v@.len(),
                    forall|k: int| 0 <= k < i ==> !spec_bad_mint(v@[k]),
                decreases v@.len() - i,
            {
                if v[i].asset_id.is_none() && v[i].name.is_none() {
                    proof {
                        assert(spec_bad_mint(v@[i as int]));
                    }
                    return Err(TxError::BadMintRequest);
                }
                i = i + 1;
            }
            v
        },
        None => Vec::new(),
    };
    let outs = match outputs {
        Some(v) => {
            let mut outs: Vec<OutPut> = Vec::new();
            let mut j: usize = 0;
            while j < v.len()
                invariant
                    j <= v@.len(),
                    outs@.len() == j,
                    forall|k: int|
                        0 <= k < j ==> spec_output_normalized(v@[k], #[trigger] outs@[k]),
                decreases v@.len() - j,
            {
                outs.push(OutPut::from(v[j].clone()));
                j = j + 1;
            }
            outs
        },
        None => Vec::new(),
    };
    let fee = match fee {
        Some(given) => given,
        None => String::from_str("1"),
    };
    let expiration_delta = match expiration_delta {
        Some(given) => given,
        None => DEFAULT_EXPIRATION_DELTA,
    };
    let burns = match burns {
        Some(v) => v,
        None => Vec::new(),
    };
    Ok(
        CreateTxReq {
            account: account_name,
            fee: Some(fee),
            expiration_delta: Some(expiration_delta),
            outputs: Some(outs),
            mints: Some(mints),
            burns: Some(burns),
        },
    )
}

} // verus!
