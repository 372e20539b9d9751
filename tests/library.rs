use std::time::Duration;
use testflow::adapters::{endpoint_source, new_adapter, AdapterImpl, EndpointSource};
use testflow::autobahn::{
    AutobahnAdapter, AutobahnArgs, BurstAction, BurstSender, Delivery, MIN_TX_SIZE, PRECISION, SAMPLE_TAG,
    STANDARD_TAG,
};
use testflow::common::{retries_exhausted, FlowResults, RetryPolicy, RoundResults, TestrpcError};
use testflow::config::{
    check_node_count, Adapter, Arg, ArgValue, Config, NamedTemplate, Round, RoundTemplate,
};
use testflow::ctx::Context;
use testflow::discovery::{nodes_from_config_text, transaction_endpoints, JsonValue};
use testflow::hotshot::{host, parse_endpoints, split_lines, p2p_info_url_of, rpc_urls_from_ips, HotshotAdapter, HotshotArgs};
use testflow::runner::{aggregate, mock_endpoints, prepare_round, run_dry, Scheduler};
use testflow::report::{parse_report, render_report, ReportTotals};
use testflow::text::with_decimal;

/// Drives a burst delivery with every write succeeding, returning what was
/// written and the final result.
fn drive(num_txs: usize, tx_size: usize, seed: u64) -> (Vec<Vec<u8>>, RoundResults, usize) {
    let mut s = BurstSender::new(num_txs, tx_size, seed).unwrap();
    let mut written = Vec::new();
    let mut ticks = 0;
    loop {
        match s.next_action() {
            BurstAction::WaitTick => {
                ticks += 1;
                s.tick();
            }
            BurstAction::Send(tx) => {
                written.push(tx);
                s.record_send(true);
            }
            BurstAction::Done(r) => return (written, r, ticks),
        }
    }
}

fn id_of(tx: &[u8]) -> u64 {
    let mut b = [0u8; 8];
    b.copy_from_slice(&tx[1..9]);
    u64::from_be_bytes(b)
}

fn template(txs: usize, tx_size: usize) -> Option<RoundTemplate> {
    Some(RoundTemplate { txs, tx_size, latency: None })
}

fn config(rounds: Vec<Round>, iterations: usize) -> Config {
    Config {
        interval: 0,
        iterations: Some(iterations),
        num_of_nodes: None,
        adapter: Adapter::Autobahn,
        timeout: None,
        round_templates: vec![],
        args: vec![],
        rpcs: None,
        rounds,
    }
}

fn four_endpoints() -> Vec<String> {
    (0..4).map(|i| format!("10.0.0.{i}:4000")).collect()
}

#[test]
fn empty_delivery_reports_nothing() {
    let (written, r, ticks) = drive(0, 100, 7);
    assert!(written.is_empty());
    assert_eq!(r, RoundResults { sent: 0, failed: 0 });
    assert_eq!(ticks, 1);
}

#[test]
fn encoding_has_tag_identifier_and_padding() {
    let tx = testflow::autobahn::encode_transaction(1, 0x0102030405060708, 12);
    assert_eq!(tx, vec![1, 1, 2, 3, 4, 5, 6, 7, 8, 0, 0, 0]);
    let min = testflow::autobahn::encode_transaction(0, u64::MAX, MIN_TX_SIZE);
    assert_eq!(min, vec![0, 255, 255, 255, 255, 255, 255, 255, 255]);
}

#[test]
fn every_written_transaction_has_the_size_and_a_valid_tag() {
    let (written, r, _) = drive(45, 20, 1000);
    assert_eq!(r, RoundResults { sent: 45, failed: 0 });
    assert_eq!(written.len(), 45);
    for tx in &written {
        assert_eq!(tx.len(), 20);
        assert!(tx[0] == SAMPLE_TAG || tx[0] == STANDARD_TAG);
        assert!(tx[9..].iter().all(|b| *b == 0));
    }
}

#[test]
fn one_sample_per_burst() {
    let (written, _, ticks) = drive(45, 20, 1000);
    assert_eq!(ticks, PRECISION as usize);
    let samples: Vec<u64> = written.iter().filter(|t| t[0] == SAMPLE_TAG).map(|t| id_of(t)).collect();
    assert_eq!(samples.len(), 20);
    assert_eq!(samples, (0..20).collect::<Vec<u64>>());
    let standard: Vec<u64> = written.iter().filter(|t| t[0] == STANDARD_TAG).map(|t| id_of(t)).collect();
    assert_eq!(standard, (1001..1026).collect::<Vec<u64>>());
    // Burst 3 of size 2 has its sample at position 3 % 2 = 1.
    assert_eq!(written[6][0], STANDARD_TAG);
    assert_eq!(written[7][0], SAMPLE_TAG);
}

#[test]
fn small_delivery_has_no_sample() {
    let (written, r, ticks) = drive(5, 9, u64::MAX);
    assert_eq!(r.sent, 5);
    assert_eq!(ticks, PRECISION as usize);
    assert!(written.iter().all(|t| t[0] == STANDARD_TAG));
    assert_eq!(id_of(&written[0]), 0);
    assert_eq!(id_of(&written[4]), 4);
}

#[test]
fn failed_write_ends_the_delivery() {
    let mut s = BurstSender::new(40, 10, 0).unwrap();
    s.tick();
    assert!(matches!(s.next_action(), BurstAction::Send(_)));
    s.record_send(true);
    s.record_send(false);
    match s.next_action() {
        BurstAction::Done(r) => assert_eq!(r, RoundResults { sent: 1, failed: 1 }),
        _ => panic!("delivery should be over"),
    }
}

#[test]
fn dry_run_counts_everything_as_sent() {
    match AutobahnAdapter::plan_delivery(true, 7, 3, 0).unwrap() {
        Delivery::Immediate(r) => assert_eq!(r, RoundResults { sent: 7, failed: 0 }),
        Delivery::Stream(_) => panic!("dry run opens nothing"),
    }
    let a = AutobahnAdapter::new();
    match a.start_delivery(true, 12, 100).unwrap() {
        Delivery::Immediate(r) => assert_eq!(r, RoundResults { sent: 12, failed: 0 }),
        Delivery::Stream(_) => panic!("dry run opens nothing"),
    }
}

#[test]
fn small_transaction_size_is_rejected() {
    match AutobahnAdapter::plan_delivery(false, 10, 8, 0) {
        Err(TestrpcError::RpcError(m)) => assert!(m.contains("at least 9 bytes")),
        _ => panic!("size 8 must be rejected"),
    }
    assert!(matches!(
        AutobahnAdapter::new().start_delivery(false, 10, 9),
        Ok(Delivery::Stream(_))
    ));
}

#[test]
fn stop_is_idempotent_and_notifies_once() {
    let mut ctx = Context::new();
    let mut before = ctx.recv();
    assert!(!before.poll(&ctx));
    ctx.stop();
    ctx.stop();
    assert!(ctx.is_stopped());
    let mut after = ctx.recv();
    assert!(before.poll(&ctx));
    assert!(!before.poll(&ctx));
    assert!(after.poll(&ctx));
    assert!(!after.poll(&ctx));
}

#[test]
fn out_of_range_round_is_skipped() {
    let rounds = vec![
        Round { rpcs: vec![0], repeat: None, template: template(3, 10), use_template: None },
        Round { rpcs: vec![1, 9], repeat: None, template: template(5, 10), use_template: None },
        Round { rpcs: vec![2, 3], repeat: None, template: template(4, 10), use_template: None },
    ];
    let cfg = config(rounds, 3);
    let results = run_dry(&cfg, &four_endpoints());
    assert_eq!(
        results,
        vec![RoundResults { sent: 3, failed: 0 }, RoundResults { sent: 8, failed: 0 }]
    );
    match prepare_round(&cfg.rounds[1], 2, &four_endpoints(), &vec![]) {
        Err(TestrpcError::LoadEndpointsError(m)) => assert_eq!(m, "RPC index out of bounds: 9"),
        _ => panic!("index 9 is out of range"),
    }
}

#[test]
fn single_round_dry_run_scenario() {
    let rounds = vec![Round { rpcs: vec![0, 1], repeat: None, template: template(10, 100), use_template: None }];
    let cfg = config(rounds, 1);
    let results = run_dry(&cfg, &four_endpoints());
    assert_eq!(results, vec![RoundResults { sent: 20, failed: 0 }]);
}

#[test]
fn rounds_repeat_in_order_until_the_bound() {
    let rounds = vec![
        Round { rpcs: vec![0], repeat: None, template: template(1, 10), use_template: None },
        Round { rpcs: vec![0, 1, 2], repeat: None, template: template(2, 10), use_template: None },
    ];
    let results = run_dry(&config(rounds, 5), &four_endpoints());
    let sent: Vec<usize> = results.iter().map(|r| r.sent).collect();
    assert_eq!(sent, vec![1, 6, 1, 6, 1]);
    assert!(run_dry(&config(vec![], 5), &four_endpoints()).is_empty());
}

#[test]
fn libp2p_runs_record_nothing() {
    let rounds = vec![Round { rpcs: vec![0], repeat: None, template: template(1, 10), use_template: None }];
    let mut cfg = config(rounds, 2);
    cfg.adapter = Adapter::Libp2p;
    assert!(run_dry(&cfg, &four_endpoints()).is_empty());
}

#[test]
fn request_ids_follow_the_iteration() {
    let round = Round { rpcs: vec![2, 0], repeat: None, template: None, use_template: Some("t".to_string()) };
    let ts = vec![NamedTemplate { name: "t".to_string(), template: RoundTemplate { txs: 3, tx_size: 50, latency: None } }];
    let reqs = prepare_round(&round, 7, &four_endpoints(), &ts).unwrap();
    assert_eq!(reqs.len(), 2);
    assert_eq!(reqs[0].endpoint, "10.0.0.2:4000");
    assert_eq!(reqs[0].req_id, 7);
    assert_eq!(reqs[1].endpoint, "10.0.0.0:4000");
    assert_eq!(reqs[1].req_id, 8);
    assert_eq!(reqs[1].num_txs, 3);
    assert_eq!(reqs[1].tx_size, 50);
    match prepare_round(&round, 7, &four_endpoints(), &vec![]) {
        Err(TestrpcError::LoadRoundTemplateError(m)) => assert_eq!(m, "No template found"),
        _ => panic!("template is missing"),
    }
}

#[test]
fn template_resolution() {
    let ts = vec![
        NamedTemplate { name: "a".to_string(), template: RoundTemplate { txs: 1, tx_size: 9, latency: None } },
        NamedTemplate { name: "b".to_string(), template: RoundTemplate { txs: 2, tx_size: 9, latency: Some("5ms".to_string()) } },
    ];
    let named = Round { rpcs: vec![], repeat: None, template: None, use_template: Some("b".to_string()) };
    let t = named.get_template(&ts).unwrap();
    assert_eq!(t.txs, 2);
    assert_eq!(t.latency.as_deref(), Some("5ms"));
    let inline = Round { rpcs: vec![], repeat: None, template: template(7, 9), use_template: Some("a".to_string()) };
    assert_eq!(inline.get_template(&ts).unwrap().txs, 7);
    let missing = Round { rpcs: vec![], repeat: None, template: None, use_template: Some("c".to_string()) };
    assert!(missing.get_template(&ts).is_none());
    let neither = Round { rpcs: vec![], repeat: None, template: None, use_template: None };
    assert!(neither.get_template(&ts).is_none());
}

#[test]
fn round_aggregation() {
    let ok = vec![Ok(RoundResults { sent: 3, failed: 1 }), Ok(RoundResults { sent: 4, failed: 0 })];
    assert_eq!(aggregate(ok).unwrap(), RoundResults { sent: 7, failed: 1 });
    let bad = vec![
        Ok(RoundResults { sent: 3, failed: 0 }),
        Err(TestrpcError::RpcError("first".to_string())),
        Err(TestrpcError::RpcError("second".to_string())),
    ];
    assert_eq!(aggregate(bad), Err(TestrpcError::RpcError("first".to_string())));
    assert_eq!(aggregate(vec![]).unwrap(), RoundResults { sent: 0, failed: 0 });
    let big = vec![Ok(RoundResults { sent: usize::MAX, failed: 0 }), Ok(RoundResults { sent: 1, failed: 0 })];
    assert!(matches!(aggregate(big), Err(TestrpcError::ExecutionError(_))));
}

#[test]
fn cancelled_round_is_not_recorded() {
    let mut s = Scheduler::new(2, None);
    assert_eq!(s.start_round(), Some((0, 1)));
    s.finish_round(Some(RoundResults { sent: 5, failed: 0 }));
    assert_eq!(s.start_round(), Some((1, 2)));
    s.finish_round(None);
    assert_eq!(s.start_round(), Some((0, 3)));
    s.stop();
    assert!(s.is_finished());
    assert_eq!(s.start_round(), None);
    assert_eq!(s.into_results(), vec![RoundResults { sent: 5, failed: 0 }]);
}

#[test]
fn zero_iterations_run_nothing() {
    let mut s = Scheduler::new(3, Some(0));
    assert!(s.is_finished());
    assert_eq!(s.start_round(), None);
}

#[test]
fn run_totals() {
    let rounds = vec![RoundResults { sent: 20, failed: 1 }, RoundResults { sent: 5, failed: 2 }];
    let r = FlowResults::new_from_round_results(rounds.clone(), Duration::from_millis(1500));
    assert_eq!(r.total, RoundResults { sent: 25, failed: 3 });
    assert_eq!(r.total_iterations, 2);
    assert_eq!(r.rounds, rounds);
    assert_eq!(r.total_time, Duration::from_millis(1500));
}

#[test]
fn retry_backoff() {
    let mut p = RetryPolicy::new(3, 100, true);
    assert!(p.may_attempt());
    assert_eq!(p.on_failure(), 100);
    assert_eq!(p.on_failure(), 200);
    assert_eq!(p.on_failure(), 400);
    assert!(!p.may_attempt());
    let mut q = RetryPolicy::new(2, u64::MAX - 1, true);
    q.on_failure();
    assert_eq!(q.delay_ms, u64::MAX);
    let mut f = RetryPolicy::new(2, 100, false);
    f.on_failure();
    assert_eq!(f.delay_ms, 100);
    assert_eq!(retries_exhausted(), TestrpcError::ExecutionError("Max retries reached".to_string()));
}

#[test]
fn node_count_check() {
    assert!(check_node_count(None, 3).is_ok());
    assert!(check_node_count(Some(3), 3).is_ok());
    assert_eq!(check_node_count(Some(4), 3), Err(TestrpcError::WrongNumberOfNodes(4, 3)));
}

#[test]
fn adapter_names() {
    assert_eq!(Adapter::from_name("hotshot").unwrap(), Adapter::Hotshot);
    assert_eq!(Adapter::from_name("autobahn").unwrap(), Adapter::Autobahn);
    assert_eq!(Adapter::from_name("libp2p").unwrap(), Adapter::Libp2p);
    assert_eq!(Adapter::from_name("tcp"), Err(TestrpcError::UnsupportedAdapter("tcp".to_string())));
    assert_eq!(Adapter::Libp2p.name(), "libp2p");
    assert!(matches!(new_adapter(Adapter::Autobahn), Ok(AdapterImpl::Autobahn(_))));
    assert!(matches!(new_adapter(Adapter::Hotshot), Ok(AdapterImpl::Hotshot(_))));
    assert_eq!(
        new_adapter(Adapter::Libp2p).err(),
        Some(TestrpcError::UnsupportedAdapter("libp2p".to_string()))
    );
}

#[test]
fn discovery_without_workers_fails() {
    let text = r#"{"authorities": {"a1": {"workers": {}}, "a2": {}}}"#;
    match nodes_from_config_text("nodes.json", text) {
        Err(TestrpcError::LoadEndpointsError(m)) => {
            assert_eq!(m, "No transaction endpoints found in config file")
        }
        other => panic!("unexpected {other:?}"),
    }
}

#[test]
fn discovery_errors_are_distinct() {
    match nodes_from_config_text("nodes.json", r#"{"nodes": []}"#) {
        Err(TestrpcError::LoadEndpointsError(m)) => {
            assert_eq!(m, "Config file must contain 'authorities' object")
        }
        other => panic!("unexpected {other:?}"),
    }
    match nodes_from_config_text("nodes.json", r#"{"authorities": [1, 2]}"#) {
        Err(TestrpcError::LoadEndpointsError(m)) => assert_eq!(m, "Expected 'authorities' to be an object"),
        other => panic!("unexpected {other:?}"),
    }
    match nodes_from_config_text("nodes.json", "{not json") {
        Err(TestrpcError::LoadEndpointsError(m)) => {
            assert!(m.starts_with("Failed to parse config file nodes.json: "))
        }
        other => panic!("unexpected {other:?}"),
    }
}

#[test]
fn discovery_collects_trimmed_endpoints() {
    let text = r#"{"authorities": {
        "a": {"workers": {"0": {"transactions": " 10.0.0.1:4001 \n"}, "1": {"transactions": 7}}},
        "b": {"workers": {"0": {"transactions": "10.0.0.2:4001"}}, "other": 1}
    }}"#;
    let v = nodes_from_config_text("nodes.json", text).unwrap();
    assert_eq!(v, vec!["10.0.0.1:4001".to_string(), "10.0.0.2:4001".to_string()]);
}

#[test]
fn discovery_on_a_built_document() {
    let worker = JsonValue::Object(vec![("transactions".to_string(), JsonValue::Str("h:1".to_string()))]);
    let auth = JsonValue::Object(vec![("workers".to_string(), JsonValue::Object(vec![("w".to_string(), worker)]))]);
    let doc = JsonValue::Object(vec![("authorities".to_string(), JsonValue::Object(vec![("x".to_string(), auth)]))]);
    assert_eq!(transaction_endpoints(&doc).unwrap(), vec!["h:1".to_string()]);
    assert!(transaction_endpoints(&JsonValue::Null).is_err());
}

#[test]
fn hotshot_arguments() {
    let args = vec![
        Arg { key: "coordinator_url".to_string(), value: ArgValue::Str("10.0.0.9:3030".to_string()) },
        Arg { key: "rpc_port".to_string(), value: ArgValue::Unsigned(70000) },
    ];
    let a = HotshotArgs::from_args(&args).unwrap();
    assert_eq!(a.coordinator_url, "10.0.0.9:3030");
    assert_eq!(a.rpc_port, 4464);
    let b = HotshotArgs::from_args(&args[..1].to_vec()).unwrap();
    assert_eq!(b.rpc_port, 5000);
    match HotshotArgs::from_args(&vec![]) {
        Err(TestrpcError::MissingArgs(m)) => assert_eq!(m, "coordinator_url"),
        _ => panic!("coordinator_url is required"),
    }
    assert_eq!(p2p_info_url_of(&a.coordinator_url), "http://10.0.0.9:3030/libp2p-info");
}

#[test]
fn hotshot_endpoints() {
    let ips = vec!["192.168.104.3".to_string(), "192.168.104.4".to_string()];
    let urls = rpc_urls_from_ips(&ips, 5000).unwrap();
    assert_eq!(urls, vec!["http://192.168.104.3:5000", "http://192.168.104.4:5000"]);
    assert_eq!(
        rpc_urls_from_ips(&vec![], 5000),
        Err(TestrpcError::LoadEndpointsError("No RPC endpoints found".to_string()))
    );
}

#[test]
fn hotshot_transactions_are_hex() {
    let txs = HotshotAdapter::new().transactions(3, 4);
    assert_eq!(txs.len(), 3);
    for t in &txs {
        assert_eq!(t.len(), 8);
        assert!(t.chars().all(|c| c.is_ascii_hexdigit() && !c.is_ascii_uppercase()));
    }
}

#[test]
fn decimal_text() {
    assert_eq!(with_decimal("n=", 0), "n=0");
    assert_eq!(with_decimal("", 1234567890), "1234567890");
    assert_eq!(with_decimal("x", u64::MAX), "x18446744073709551615");
}

#[test]
fn line_splitting() {
    assert_eq!(split_lines("a\nbc\n"), vec!["a".to_string(), "bc".to_string(), String::new()]);
    assert_eq!(split_lines(""), vec![String::new()]);
}

#[test]
fn endpoint_parsing_edge_cases() {
    assert!(matches!(parse_endpoints("not an address"), Err(TestrpcError::LoadEndpointsError(_))));
    // A single component keeps the whole address.
    assert_eq!(parse_endpoints("/ip4/10.1.2.3").unwrap(), vec!["/ip4/10.1.2.3".to_string()]);
    // A trailing newline leaves an empty address, which is dropped.
    assert_eq!(parse_endpoints("/ip4/10.1.2.3/tcp/1\n").unwrap(), vec!["10.1.2.3".to_string()]);
}

#[test]
fn report_round_trip() {
    let rounds = vec![RoundResults { sent: 20, failed: 0 }, RoundResults { sent: 17, failed: 3 }];
    let r = FlowResults::new_from_round_results(rounds, Duration::from_secs(2));
    let text = r.report();
    assert_eq!(
        text,
        "---RESULTS--\ntotal_sent: 37\ntotal_failed: 3\ntotal_iterations: 2\n---END RESULTS--\n"
    );
    let back = parse_report(&text).unwrap();
    assert_eq!(back, ReportTotals { sent: 37, failed: 3, iterations: 2 });
    let edge = ReportTotals { sent: usize::MAX, failed: 0, iterations: u32::MAX };
    assert_eq!(parse_report(&render_report(edge)), Some(edge));
}

#[test]
fn report_parsing_is_strict() {
    let ok = "---RESULTS--\ntotal_sent: 5\ntotal_failed: 0\ntotal_iterations: 1\n---END RESULTS--\n";
    assert!(parse_report(ok).is_some());
    assert_eq!(parse_report(&ok.replace("5", "005")), None);
    assert_eq!(parse_report(&ok.replace("---END RESULTS--\n", "")), None);
    assert_eq!(parse_report(&format!("{ok}extra")), None);
    assert_eq!(parse_report(&ok.replace("1\n", "99999999999\n")), None);
    assert_eq!(parse_report(""), None);
}

#[test]
fn stand_in_endpoints() {
    assert_eq!(mock_endpoints(2), vec!["http://dummy:5000".to_string(), "http://dummy:5001".to_string()]);
    assert!(mock_endpoints(0).is_empty());
}

#[test]
fn host_selection() {
    let comps = vec!["/ip4/10.0.0.7".to_string(), "/tcp/80".to_string()];
    assert_eq!(host("/ip4/10.0.0.7/tcp/80".to_string(), &comps), "10.0.0.7");
    let short = vec!["/dns".to_string(), "/tcp/80".to_string()];
    assert_eq!(host("/dns/tcp/80".to_string(), &short), "/dns/tcp/80");
    assert_eq!(host("/ip4/1.2.3.4".to_string(), &comps[..1].to_vec()), "/ip4/1.2.3.4");
}

#[test]
fn endpoint_sources() {
    let mut cfg = config(vec![], 1);
    cfg.rpcs = Some(vec!["http://a:1".to_string()]);
    assert!(matches!(endpoint_source(&cfg, true, true), Ok(EndpointSource::Explicit(v)) if v == vec!["http://a:1".to_string()]));
    cfg.rpcs = None;
    cfg.num_of_nodes = Some(2);
    match endpoint_source(&cfg, true, true) {
        Ok(EndpointSource::Mock(v)) => assert_eq!(v, vec!["http://dummy:5000", "http://dummy:5001"]),
        _ => panic!("stand-ins expected"),
    }
    cfg.num_of_nodes = None;
    match endpoint_source(&cfg, true, true) {
        Ok(EndpointSource::Mock(v)) => assert_eq!(v.len(), 4),
        _ => panic!("stand-ins expected"),
    }
    assert!(matches!(endpoint_source(&cfg, true, false), Ok(EndpointSource::Discover(AdapterImpl::Autobahn(_)))));
    cfg.adapter = Adapter::Libp2p;
    assert!(matches!(endpoint_source(&cfg, false, true), Err(TestrpcError::UnsupportedAdapter(_))));
}

#[test]
fn burst_adapter_arguments() {
    let wrong_type = vec![Arg { key: "nodes_config_file".to_string(), value: ArgValue::Unsigned(3) }];
    match AutobahnArgs::from_args(&wrong_type) {
        Err(TestrpcError::MissingArgs(m)) => assert_eq!(m, "nodes_config_file"),
        _ => panic!("a string is required"),
    }
    let later = vec![
        Arg { key: "other".to_string(), value: ArgValue::Other },
        Arg { key: "nodes_config_file".to_string(), value: ArgValue::Str("n.json".to_string()) },
    ];
    assert_eq!(AutobahnArgs::from_args(&later).unwrap().nodes_config_file, "n.json");
}
