use blockchain_tree::rpc::{RethRpcModule, RpcModuleBuilder, RpcModuleConfig, RpcServerHandle};

#[test]
fn test_rpc_module_str() {
    let val: RethRpcModule = "admin".parse().unwrap();
    assert_eq!(val, RethRpcModule::Admin);
    assert_eq!(val.to_string().as_str(), "admin");

    let val: RethRpcModule = "debug".parse().unwrap();
    assert_eq!(val, RethRpcModule::Debug);
    assert_eq!(val.to_string().as_str(), "debug");

    let val: RethRpcModule = "eth".parse().unwrap();
    assert_eq!(val, RethRpcModule::Eth);
    assert_eq!(val.to_string().as_str(), "eth");

    let val: RethRpcModule = "net".parse().unwrap();
    assert_eq!(val, RethRpcModule::Net);
    assert_eq!(val.to_string().as_str(), "net");

    let val: RethRpcModule = "trace".parse().unwrap();
    assert_eq!(val, RethRpcModule::Trace);
    assert_eq!(val.to_string().as_str(), "trace");

    let val: RethRpcModule = "web3".parse().unwrap();
    assert_eq!(val, RethRpcModule::Web3);
    assert_eq!(val.to_string().as_str(), "web3");
}

#[test]
fn unknown_module_name_is_refused() {
    assert!(RethRpcModule::from_name("ipfs").is_none());
    assert!("".parse::<RethRpcModule>().is_err());
}

#[test]
fn builder_keeps_parts_and_config() {
    let b = RpcModuleBuilder::new(1u32, "pool", 7i64);
    assert!(matches!(b.config, RpcModuleConfig::All));
    let b = b.with_config(RpcModuleConfig::Selection(vec![RethRpcModule::Eth]));
    match &b.config {
        RpcModuleConfig::Selection(mods) => assert_eq!(mods, &vec![RethRpcModule::Eth]),
        RpcModuleConfig::All => panic!("selection expected"),
    }
    assert_eq!(b.client, 1u32);
    assert_eq!(b.pool, "pool");
    assert_eq!(b.network, 7i64);
    let b = b.with_client(9u8).with_pool(vec![0u8]).with_network(());
    assert_eq!(b.client, 9u8);
    assert_eq!(b.pool, vec![0u8]);
    assert!(matches!(b.config, RpcModuleConfig::Selection(_)));
}

#[test]
fn server_handle_stops() {
    let handle = RpcServerHandle {};
    assert!(handle.stop().is_ok());
}
