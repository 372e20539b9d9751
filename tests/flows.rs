use testflow::autobahn::{encode_transaction, AutobahnArgs};
use testflow::config::{Adapter, Arg, ArgValue, Config, NamedTemplate, Round, RoundTemplate};
use testflow::ctx::Context;
use testflow::hotshot::parse_endpoints;
use testflow::runner::{dry_run_round, run_dry};

#[test]
fn test_autobahn_args_parsing() {
    let args = vec![Arg {
        key: "nodes_config_file".to_string(),
        value: ArgValue::Str("autobahn-nodes.json".to_string()),
    }];
    let parsed_args = AutobahnArgs::from_args(&args).unwrap();
    assert_eq!(parsed_args.nodes_config_file, "autobahn-nodes.json");
}

#[test]
fn test_autobahn_transaction_format() {
    let tx = encode_transaction(0u8, 12345, 100);
    assert_eq!(tx[0], 0u8);
    assert_eq!(tx.len(), 100);

    let tx2 = encode_transaction(1u8, 67890, 50);
    assert_eq!(tx2[0], 1u8);
    assert_eq!(tx2.len(), 50);
}

#[test]
fn test_context() {
    let mut ctx = Context::new();
    let mut recv = ctx.recv();
    let mut recv2 = ctx.recv();
    ctx.stop();
    assert!(recv2.poll(&ctx));
    assert!(recv.poll(&ctx));
}

fn one_round_template(txs: usize, tx_size: usize) -> Round {
    Round {
        rpcs: vec![0],
        repeat: Some(1),
        template: Some(RoundTemplate { txs, tx_size, latency: None }),
        use_template: None,
    }
}

#[test]
fn hotshot_test_process_round() {
    let round = one_round_template(1, 1);
    let rpc_urls = vec!["http://localhost:5000".to_string()];
    let round_templates = Vec::new();
    let results = dry_run_round(Adapter::Hotshot, &round, 0, &rpc_urls, &round_templates).unwrap();
    assert_eq!(results.sent, 1);
    assert_eq!(results.failed, 0);
}

#[test]
fn runner_test_process_round() {
    let round = one_round_template(1, 1);
    let rpc_urls = vec!["http://localhost:5000".to_string()];
    let round_templates = Vec::new();
    let results = dry_run_round(Adapter::Hotshot, &round, 0, &rpc_urls, &round_templates).unwrap();
    assert_eq!(results.sent, 1);
    assert_eq!(results.failed, 0);
}

#[test]
fn test_e2e_dry_run() {
    let cfg = Config {
        interval: 1,
        iterations: Some(4),
        num_of_nodes: Some(4),
        adapter: Adapter::Hotshot,
        timeout: None,
        round_templates: vec![NamedTemplate {
            name: "10_txs".to_string(),
            template: RoundTemplate { txs: 10, tx_size: 100, latency: None },
        }],
        args: vec![Arg {
            key: "coordinator_url".to_string(),
            value: ArgValue::Str("http://127.0.0.1:3030".to_string()),
        }],
        rpcs: Some(vec![
            "http://localhost:5000".to_string(),
            "http://localhost:5001".to_string(),
            "http://localhost:5002".to_string(),
            "http://localhost:5003".to_string(),
        ]),
        rounds: vec![
            Round { rpcs: vec![3, 0], repeat: None, template: None, use_template: Some("10_txs".to_string()) },
            Round {
                rpcs: vec![1, 2],
                repeat: None,
                template: Some(RoundTemplate { txs: 10, tx_size: 1000, latency: None }),
                use_template: None,
            },
        ],
    };
    let rpc_urls = cfg.rpcs.clone().unwrap();
    let results = run_dry(&cfg, &rpc_urls);
    assert_eq!(results.len(), 4);
    for result in results {
        assert_eq!(result.sent, 20);
        assert_eq!(result.failed, 0);
    }
}

#[test]
fn hotshot_test_parse_endpoints() {
    let resp = r#"/ip4/192.168.104.3/udp/3000/quic-v1/p2p/12D3KooWPnJybf5PYvQBYeVrFPRR4BfzPzHohdtBp5R4372CPcNp
/ip4/192.168.104.4/udp/3000/quic-v1/p2p/12D3KooWSe24subEEphVfaCzuQhZtmKRpAqbNm12BNFkCPe2fauF
/ip4/192.168.104.5/udp/3000/quic-v1/p2p/12D3KooWMhCH2B3bWm9TVzvtntPVMyctNgiNb2GKKWFjxBxqD1md"#;
    let known_ips = parse_endpoints(resp).unwrap();
    assert_eq!(known_ips.len(), 3);
    assert_eq!(known_ips[0], "192.168.104.3");
    assert_eq!(known_ips[1], "192.168.104.4");
    assert_eq!(known_ips[2], "192.168.104.5");
}
