use oreo_pool::rpc::{
    iron_native_asset, resolve_rpc_reply, rpc_url, AssetBalance, BurnAsset, CreateTxReq,
    GetBalancesRep, MintAsset, OutPut, RpcError, RpcReply, RpcResponse, UNKNOWN_RPC_STATUS,
};
use oreo_pool::web::{
    build_import_account_req, prepare_create_transaction, prepare_get_balances,
    prepare_get_transactions, ImportAccountReq, TxError, ACCOUNT_VERSION,
};

fn balance(asset_id: &str, verification: &str) -> AssetBalance {
    AssetBalance {
        asset_id: asset_id.to_string(),
        confirmed: "1".to_string(),
        unconfirmed: "0".to_string(),
        pending: "0".to_string(),
        available: "1".to_string(),
        sequence: None,
        asset_verification: verification.to_string(),
    }
}

#[test]
fn verified_asset_keeps_only_verified_balances() {
    let rep = GetBalancesRep {
        account: "acc".to_string(),
        balances: vec![
            balance("a", "verified"),
            balance("b", "unverified"),
            balance("c", "verified"),
            balance("d", "unknown"),
        ],
    };
    let filtered = GetBalancesRep::verified_asset(rep);
    assert_eq!(filtered.account, "acc");
    let kept: Vec<&str> = filtered.balances.iter().map(|b| b.asset_id.as_str()).collect();
    assert_eq!(kept, vec!["a", "c"]);
}

#[test]
fn output_defaults_fill_memo_and_asset() {
    let out = OutPut::from(OutPut {
        public_address: "pk1".to_string(),
        amount: "10".to_string(),
        memo: None,
        asset_id: None,
    });
    assert_eq!(out.public_address, "pk1");
    assert_eq!(out.amount, "10");
    assert_eq!(out.memo.as_deref(), Some(""));
    assert_eq!(
        out.asset_id.as_deref(),
        Some("51f33a2f14f92735e562dc658a5639279ddca3d5079a6d1242b2a588a9cbf44c")
    );
    assert_eq!(
        iron_native_asset(),
        "51f33a2f14f92735e562dc658a5639279ddca3d5079a6d1242b2a588a9cbf44c"
    );
}

#[test]
fn output_keeps_given_memo_and_asset() {
    let out = OutPut::from(OutPut {
        public_address: "pk1".to_string(),
        amount: "10".to_string(),
        memo: Some("note".to_string()),
        asset_id: Some("asset9".to_string()),
    });
    assert_eq!(out.memo.as_deref(), Some("note"));
    assert_eq!(out.asset_id.as_deref(), Some("asset9"));
}

#[test]
fn rpc_url_joins_endpoint_and_route() {
    assert_eq!(
        rpc_url(&"127.0.0.1:9092".to_string(), "/wallet/getBalances"),
        "http://127.0.0.1:9092/wallet/getBalances"
    );
}

#[test]
fn rpc_reply_body_passes_through() {
    let r = resolve_rpc_reply(RpcReply::Body(RpcResponse { status: 200, data: 5u32 }));
    let ok = r.expect("a parsed body is success");
    assert_eq!(ok.status, 200);
    assert_eq!(ok.data, 5);
}

#[test]
fn rpc_reply_error_body_passes_through() {
    let e = RpcError { code: "missing".to_string(), status: 400, message: "no account".to_string() };
    match resolve_rpc_reply::<u32>(RpcReply::StatusError(e)) {
        Err(err) => {
            assert_eq!(err.code, "missing");
            assert_eq!(err.status, 400);
            assert_eq!(err.message, "no account");
        }
        Ok(_) => panic!("an error body stays an error"),
    }
}

#[test]
fn unreadable_replies_become_unknown_errors() {
    for reply in [
        RpcReply::<u32>::BodyUnparsable("bad json".to_string()),
        RpcReply::<u32>::StatusUnparsable("bad error json".to_string()),
        RpcReply::<u32>::Transport("connection refused".to_string()),
    ] {
        match resolve_rpc_reply(reply) {
            Err(err) => {
                assert_eq!(err.code, "Unknown");
                assert_eq!(err.status, UNKNOWN_RPC_STATUS);
                assert_eq!(err.status, 606);
            }
            Ok(_) => panic!("an unreadable reply is an error"),
        }
    }
}

#[test]
fn import_request_carries_version_and_name() {
    let req = build_import_account_req(
        ImportAccountReq {
            view_key: "vk".to_string(),
            incoming_view_key: "ivk".to_string(),
            outgoing_view_key: "ovk".to_string(),
            public_address: "pk1".to_string(),
        },
        "stored-name".to_string(),
        None,
    );
    assert_eq!(req.version, ACCOUNT_VERSION);
    assert_eq!(req.version, 2);
    assert_eq!(req.name, "stored-name");
    assert_eq!(req.view_key, "vk");
    assert_eq!(req.incoming_view_key, "ivk");
    assert_eq!(req.outgoing_view_key, "ovk");
    assert_eq!(req.public_address, "pk1");
    assert!(req.created_at.is_none());
}

#[test]
fn balance_request_defaults_confirmations() {
    let r = prepare_get_balances("acc".to_string(), None);
    assert_eq!(r.confirmations, Some(10));
    let r2 = prepare_get_balances("acc".to_string(), Some(3));
    assert_eq!(r2.confirmations, Some(3));
    assert_eq!(r2.account, "acc");
}

#[test]
fn transaction_listing_defaults_limit_and_reverses() {
    let r = prepare_get_transactions("acc".to_string(), None);
    assert_eq!(r.limit, Some(6));
    assert_eq!(r.reverse, Some(true));
    let r2 = prepare_get_transactions("acc".to_string(), Some(20));
    assert_eq!(r2.limit, Some(20));
}

#[test]
fn create_transaction_rejects_anonymous_mint() {
    let req = CreateTxReq {
        account: "caller".to_string(),
        fee: None,
        expiration_delta: None,
        outputs: None,
        mints: Some(vec![MintAsset {
            asset_id: None,
            name: None,
            metadata: None,
            value: "1".to_string(),
        }]),
        burns: None,
    };
    match prepare_create_transaction("stored".to_string(), req) {
        Err(TxError::BadMintRequest) => {}
        Ok(_) => panic!("a mint without asset id or name is rejected"),
    }
}

#[test]
fn create_transaction_fills_defaults() {
    let req = CreateTxReq {
        account: "caller".to_string(),
        fee: None,
        expiration_delta: None,
        outputs: Some(vec![OutPut {
            public_address: "pk1".to_string(),
            amount: "10".to_string(),
            memo: None,
            asset_id: None,
        }]),
        mints: Some(vec![MintAsset {
            asset_id: Some("asset9".to_string()),
            name: None,
            metadata: None,
            value: "1".to_string(),
        }]),
        burns: Some(vec![BurnAsset { asset_id: "asset9".to_string(), value: "1".to_string() }]),
    };
    let out = prepare_create_transaction("stored".to_string(), req)
        .expect("a well-formed request passes");
    assert_eq!(out.account, "stored");
    assert_eq!(out.fee.as_deref(), Some("1"));
    assert_eq!(out.expiration_delta, Some(30));
    let outputs = out.outputs.expect("outputs are always present");
    assert_eq!(outputs.len(), 1);
    assert_eq!(outputs[0].memo.as_deref(), Some(""));
    assert_eq!(out.mints.map(|m| m.len()), Some(1));
    assert_eq!(out.burns.map(|b| b.len()), Some(1));
}

#[test]
fn create_transaction_defaults_absent_lists_to_empty() {
    let req = CreateTxReq {
        account: "caller".to_string(),
        fee: Some("7".to_string()),
        expiration_delta: Some(99),
        outputs: None,
        mints: None,
        burns: None,
    };
    let out = prepare_create_transaction("stored".to_string(), req).expect("nothing to reject");
    assert_eq!(out.fee.as_deref(), Some("7"));
    assert_eq!(out.expiration_delta, Some(99));
    assert_eq!(out.outputs.map(|o| o.len()), Some(0));
    assert_eq!(out.mints.map(|m| m.len()), Some(0));
    assert_eq!(out.burns.map(|b| b.len()), Some(0));
}
