//! The status service, request by request, without sockets: what the
//! service decides, and what it answers once the rest of the node has done
//! its part.

use std::io::Read;

use cdc_core::status::cached_regions::{cached_regions, validate_data_key, RegionSnapshot};
use cdc_core::status::cert::{after_tls_error, check_cert, AfterTlsError, SecurityConfig};
use cdc_core::status::config::{
    change_log_level, decode_json, get_config, update_config, update_config_from_toml_file,
    update_config_response, DecodeError, UpdateOutcome,
};
use cdc_core::status::fail_points::{handle_fail_points_request, plan_fail_points, FailPointPlan};
use cdc_core::status::handlers::{
    handle_pause_grpc, handle_ready_request, handle_resume_grpc, into_debug_request_group,
    ResourceGroup,
};
use cdc_core::status::metrics::{client_accept_gzip, metrics_to_resp};
use cdc_core::status::number::{parse_hex, parse_i32, parse_u64, IntError};
use cdc_core::status::profile::{dump_heap_prof_to_resp, plan_cpu_profile, uses_jeprof, CpuProfilePlan};
use cdc_core::status::query::{flag, wants_full_config, wants_persist};
use cdc_core::status::region::{plan_region_meta, RegionPlan, RegionQuery};
use cdc_core::status::response::{Attachment, ContentType, Response};
use cdc_core::status::route::{path_label, route, should_check_cert, Method, Route};
use cdc_core::status::server::{Handling, StatusServer, Transport};
use cdc_core::status::symbol::{
    get_cmdline, get_engine_type, get_symbol, get_symbol_count, hex, symbol_addresses, Resolved,
};
use cdc_core::status::text::decimal;

fn security(allowed_cn: &[&str]) -> SecurityConfig {
    SecurityConfig {
        ca_path: Vec::new(),
        cert_path: Vec::new(),
        key_path: Vec::new(),
        cert_allowed_cn: allowed_cn.iter().map(|s| s.as_bytes().to_vec()).collect(),
    }
}

fn tls_security(allowed_cn: &[&str]) -> SecurityConfig {
    SecurityConfig {
        ca_path: b"ca.pem".to_vec(),
        cert_path: b"server.pem".to_vec(),
        key_path: b"key.pem".to_vec(),
        cert_allowed_cn: allowed_cn.iter().map(|s| s.as_bytes().to_vec()).collect(),
    }
}

fn started(security: SecurityConfig, fail_points: bool) -> StatusServer {
    let mut server = StatusServer::new(security, fail_points);
    server.start(b"127.0.0.1:20180".to_vec());
    server
}

fn serve(h: Handling) -> Route {
    match h {
        Handling::Serve(route) => route,
        Handling::Respond(r) => panic!("answered at once: {:?}", r),
    }
}

fn respond(h: Handling) -> Response {
    match h {
        Handling::Respond(r) => r,
        Handling::Serve(route) => panic!("handed to {:?}", route),
    }
}

fn body(r: &Response) -> String {
    String::from_utf8(r.body.clone()).unwrap()
}

#[test]
fn test_status_service() {
    let mut status_server = StatusServer::new(security(&[]), false);
    assert!(!status_server.is_started());
    assert_eq!(status_server.start(b"127.0.0.1:0".to_vec()), Transport::Plain);
    assert_eq!(status_server.listening_addr(), b"127.0.0.1:0");

    let route = serve(status_server.dispatch(Method::Get, b"/metrics", None));
    assert_eq!(route, Route::Metrics);
    let res = metrics_to_resp(None, b"tikv_up 1\n".to_vec());
    assert_eq!(res.status, 200);
    assert_eq!(status_server.stop(), Some(b"127.0.0.1:0".to_vec()));
}

#[test]
fn test_security_status_service_without_cn() {
    do_test_security_status_service(&[], true);
}

#[test]
fn test_security_status_service_with_cn() {
    do_test_security_status_service(&["tikv-server"], true);
}

#[test]
fn test_security_status_service_with_cn_fail() {
    do_test_security_status_service(&["invaild-cn"], false);
}

fn do_test_security_status_service(allowed_cn: &[&str], expected: bool) {
    let mut status_server = StatusServer::new(tls_security(allowed_cn), false);
    assert_eq!(status_server.start(b"127.0.0.1:0".to_vec()), Transport::Tls);
    assert_eq!(status_server.security().wants_peer_cert(), !allowed_cn.is_empty());

    // The client's certificate bears the name of the test server.
    let handling = status_server.dispatch(Method::Get, b"/region", Some(b"tikv-server"));
    if expected {
        assert_eq!(serve(handling), Route::RegionMeta);
        match plan_region_meta("/region") {
            RegionPlan::Respond(res) => {
                assert_eq!(res.status, 404);
                assert_eq!(body(&res), "path /region not found");
            }
            other => panic!("{:?}", other),
        }
    } else {
        let res = respond(handling);
        assert_eq!(res.status, 403);
        assert_eq!(body(&res), "certificate role error");
    }
    status_server.stop();
}

#[test]
fn test_config_endpoint() {
    let status_server = started(security(&[]), false);
    assert_eq!(serve(status_server.dispatch(Method::Get, b"/config", None)), Route::GetConfig);
    assert_eq!(wants_full_config(None).unwrap(), false);
    let cfg_json = "{\"log-level\":\"info\"}".to_owned();
    let resp = get_config(Some(cfg_json.clone().into_bytes()));
    assert_eq!(resp.status, 200);
    assert_eq!(resp.content_type, ContentType::Json);
    let resp_json = String::from_utf8_lossy(&resp.body).to_string();
    assert_eq!(resp_json, cfg_json);
    // Could not convert the configuration to a string.
    let resp = get_config(None);
    assert_eq!(resp.status, 500);
    assert_eq!(body(&resp), "Internal Server Error");
}

#[test]
fn test_update_config_endpoint() {
    let test_config = |persist: bool| {
        let status_server = started(security(&[]), false);
        let query: Option<&[u8]> = if persist { None } else { Some(b"persist=false") };
        assert_eq!(serve(status_server.dispatch(Method::Post, b"/config", None)), Route::UpdateConfig);
        let change = update_config(query, b"{\"coprocessor.region-split-size\": \"1GB\"}").unwrap();
        assert_eq!(change.persist, persist);
        assert_eq!(change.change.len(), 1);
        assert_eq!(change.change[0].name, b"coprocessor.region-split-size");
        assert_eq!(change.change[0].value, b"1GB");
        let resp = update_config_response(UpdateOutcome::Done);
        assert_eq!(resp.status, 200);
        assert!(resp.body.is_empty());
    };
    test_config(true);
    test_config(false);
}

#[test]
fn test_status_service_fail_endpoints() {
    let _guard = fail::FailScenario::setup();
    let status_server = started(security(&[]), true);

    // test add fail point
    let path = b"/fail/test_fail_point_name";
    assert_eq!(serve(status_server.dispatch(Method::Put, path, None)), Route::FailPoints);
    let res = handle_fail_points_request(Method::Put, path, b"panic");
    assert_eq!(res.status, 200);
    assert_eq!(body(&res), "Added fail point with name: test_fail_point_name, actions: panic");
    let list: Vec<String> =
        fail::list().into_iter().map(move |(name, actions)| format!("{}={}", name, actions)).collect();
    assert_eq!(list.len(), 1);
    let list = list.join(";");
    assert_eq!("test_fail_point_name=panic", list);

    // test add another fail point
    let res = handle_fail_points_request(Method::Put, b"/fail/and_another_name", b"panic");
    assert_eq!(res.status, 200);

    let list: Vec<String> =
        fail::list().into_iter().map(move |(name, actions)| format!("{}={}", name, actions)).collect();
    assert_eq!(2, list.len());
    let list = list.join(";");
    assert!(list.contains("test_fail_point_name=panic"));
    assert!(list.contains("and_another_name=panic"));

    // test list fail points
    let res = handle_fail_points_request(Method::Get, b"/fail", b"");
    assert_eq!(res.status, 200);
    let text = body(&res);
    assert!(text.contains("test_fail_point_name=panic"));
    assert!(text.contains("and_another_name=panic"));
    assert_eq!(text.lines().count(), 2);

    // test delete fail point
    let res = handle_fail_points_request(Method::Delete, b"/fail/test_fail_point_name", b"");
    assert_eq!(res.status, 200);
    assert_eq!(body(&res), "Deleted fail point with name: test_fail_point_name");

    let list: Vec<String> =
        fail::list().into_iter().map(move |(name, actions)| format!("{}={}", name, actions)).collect();
    assert_eq!(1, list.len());
    let list = list.join(";");
    assert_eq!("and_another_name=panic", list);
}

#[test]
fn test_status_service_fail_endpoints_can_trigger_fails() {
    let _guard = fail::FailScenario::setup();
    let status_server = started(security(&[]), true);

    // test add fail point
    let path = b"/fail/a_test_fail_name_nobody_else_is_using";
    assert_eq!(serve(status_server.dispatch(Method::Put, path, None)), Route::FailPoints);
    let res = handle_fail_points_request(Method::Put, path, b"return");
    assert_eq!(res.status, 200);
    status_server.stop();

    let true_only_if_fail_point_triggered =
        || fail::eval("a_test_fail_name_nobody_else_is_using", |_| true).unwrap_or(false);
    assert!(true_only_if_fail_point_triggered());
}

#[test]
fn test_status_service_fail_endpoints_should_give_404_when_failpoints_are_disable() {
    let status_server = started(security(&[]), false);
    // without fail points, this PUT endpoint should return 404
    let res = respond(status_server.dispatch(
        Method::Put,
        b"/fail/a_test_fail_name_nobody_else_is_using",
        None,
    ));
    assert_eq!(res.status, 404);
    assert_eq!(body(&res), "path not found");
}

#[test]
fn test_pprof_heap_service() {
    let status_server = started(security(&[]), false);
    assert_eq!(serve(status_server.dispatch(Method::Get, b"/debug/pprof/heap", None)), Route::HeapProfile);
    let jeprof = uses_jeprof(b"seconds=1");
    assert!(!jeprof);
    let resp = dump_heap_prof_to_resp(jeprof, Ok(b"heap profile".to_vec()));
    assert_eq!(resp.status, 200);
    assert_eq!(resp.content_type, ContentType::OctetStream);
    assert_eq!(resp.attachment, Attachment::Profile);
    assert!(resp.nosniff && resp.content_length);

    assert!(uses_jeprof(b"jeprof=true"));
    assert!(!uses_jeprof(b"jeprof=1"));
    let resp = dump_heap_prof_to_resp(true, Ok(b"<svg/>".to_vec()));
    assert_eq!(resp.content_type, ContentType::Svg);
    let resp = dump_heap_prof_to_resp(true, Err(b"no profile".to_vec()));
    assert_eq!(resp.status, 500);
    assert_eq!(body(&resp), "no profile");
}

#[test]
fn test_pprof_profile_service() {
    let status_server = started(security(&[]), false);
    assert_eq!(
        serve(status_server.dispatch(Method::Get, b"/debug/pprof/profile", None)),
        Route::CpuProfile
    );
    let plan = plan_cpu_profile(b"seconds=1&frequency=99", None).unwrap();
    assert_eq!(plan, CpuProfilePlan { seconds: 1, frequency: 99, protobuf: false });
    let resp = StatusServer::dump_cpu_prof_to_resp(plan, Ok(b"<svg/>".to_vec()));
    assert_eq!(resp.status, 200);
    assert_eq!(resp.content_type, ContentType::Svg);
    assert_eq!(resp.attachment, Attachment::CpuProfile);
}

#[test]
fn test_pprof_symbol_service() {
    let status_server = started(security(&[]), false);
    assert_eq!(
        serve(status_server.dispatch(Method::Post, b"/debug/pprof/symbol", None)),
        Route::Symbol
    );
    let addr: usize = 0x55d0_1234_abcd;
    let addresses = symbol_addresses(format!("{:#x}", addr).as_bytes());
    assert_eq!(addresses, vec![addr]);
    let resolved = vec![Resolved { address: addr, names: vec![b"backtrace::backtrace::trace".to_vec()] }];
    let resp = get_symbol(&resolved);
    assert_eq!(resp.status, 200);
    assert!(body(&resp).split(' ').next_back().unwrap().starts_with("backtrace::backtrace"));
    assert_eq!(body(&resp), "0x55d01234abcd backtrace::backtrace::trace\n");
}

#[test]
fn test_metrics() {
    let status_server = started(security(&[]), false);
    let metrics = b"# HELP tikv_up up\ntikv_up 1\n".to_vec();

    // test plain text
    assert_eq!(serve(status_server.dispatch(Method::Get, b"/metrics", None)), Route::Metrics);
    let resp = metrics_to_resp(None, metrics.clone());
    assert_eq!(resp.status, 200);
    assert_eq!(resp.content_type, ContentType::Metrics);
    assert!(!resp.gzip);
    assert_eq!(resp.body, metrics);

    // test gzip
    let resp = metrics_to_resp(Some(b"gzip"), metrics.clone());
    assert_eq!(resp.status, 200);
    assert!(resp.gzip);
    assert_ne!(resp.body, metrics);
    let mut decoded_bytes = vec![];
    flate2::read::GzDecoder::new(resp.body.as_slice()).read_to_end(&mut decoded_bytes).unwrap();
    assert_eq!(decoded_bytes, metrics);
}

#[test]
fn test_change_log_level() {
    let status_server = started(security(&[]), false);
    assert_eq!(serve(status_server.dispatch(Method::Put, b"/log-level", None)), Route::LogLevel);
    let res = change_log_level(Ok(()));
    assert_eq!(res.status, 200);
    assert!(res.body.is_empty());
    let res = change_log_level(Err(b"unknown variant `loud`".to_vec()));
    assert_eq!(res.status, 400);
    assert_eq!(body(&res), "unknown variant `loud`");
}

#[test]
fn test_get_engine_type() {
    let resp_strs = ["raft-kv", "partitioned-raft-kv"];
    for resp_str in resp_strs {
        let status_server = started(security(&[]), false);
        assert_eq!(serve(status_server.dispatch(Method::Get, b"/engine_type", None)), Route::EngineType);
        let res = get_engine_type(resp_str.as_bytes());
        assert_eq!(res.status, 200);
        assert_eq!(res.content_type, ContentType::TextPlain);
        let engine_type = String::from_utf8(res.body).unwrap();
        assert_eq!(engine_type, resp_str);
    }
}

#[test]
fn test_control_grpc_service() {
    let status_server = started(security(&[]), false);
    for (req, expected) in [("/pause_grpc", Route::PauseGrpc), ("/resume_grpc", Route::ResumeGrpc)] {
        assert_eq!(serve(status_server.dispatch(Method::Put, req.as_bytes(), None)), expected);
        // Dummy grpc service manager, should return error.
        let res = if expected == Route::PauseGrpc {
            handle_pause_grpc(Err(b"dummy".to_vec()))
        } else {
            handle_resume_grpc(Err(b"dummy".to_vec()))
        };
        assert_eq!(res.status, 500);
    }
    assert_eq!(body(&handle_pause_grpc(Err(b"dummy".to_vec()))), "fails to pause grpc: dummy");
    assert_eq!(body(&handle_resume_grpc(Err(b"dummy".to_vec()))), "fails to resume grpc: dummy");
    assert_eq!(body(&handle_pause_grpc(Ok(()))), "Successfully pause grpc service");
    assert_eq!(body(&handle_resume_grpc(Ok(()))), "Successfully resume grpc service");
}

#[test]
fn test_ready_endpoint() {
    let status_server = started(security(&[]), false);
    assert_eq!(serve(status_server.dispatch(Method::Get, b"/ready", None)), Route::Ready);
    // One readiness condition is true.
    let details = b"{\"connected_to_pd\":true,\"raft_peers_caught_up\":false}".to_vec();
    let resp = handle_ready_request(Some(b"verbose"), false, details.clone());
    assert_eq!(resp.status, 500);
    let json: serde_json::Value = serde_json::from_slice(&resp.body).unwrap();
    assert_eq!(json["connected_to_pd"], true, "connected_to_pd should be false");
    assert_eq!(json["raft_peers_caught_up"], false, "raft_peers_caught_up should be false");

    // The remaining readiness conditions are true.
    let resp = handle_ready_request(Some(b"verbose"), true, details.clone());
    assert_eq!(resp.status, 200);
    // Without `verbose` the body is empty.
    let resp = handle_ready_request(None, true, details.clone());
    assert_eq!(resp.status, 200);
    assert!(resp.body.is_empty());
    let resp = handle_ready_request(Some(b"v=1"), false, details);
    assert_eq!(resp.status, 500);
    assert!(resp.body.is_empty());
}

#[test]
fn every_route_is_reached_by_its_method_and_path() {
    let cases: Vec<(Method, &str, Route)> = vec![
        (Method::Get, "/metrics", Route::Metrics),
        (Method::Get, "/status", Route::Status),
        (Method::Get, "/ready", Route::Ready),
        (Method::Get, "/debug/pprof/heap_list", Route::HeapList),
        (Method::Get, "/debug/pprof/heap_activate", Route::HeapActivate),
        (Method::Get, "/debug/pprof/heap_deactivate", Route::HeapDeactivate),
        (Method::Get, "/debug/pprof/heap", Route::HeapProfile),
        (Method::Get, "/debug/pprof/cmdline", Route::Cmdline),
        (Method::Get, "/debug/pprof/symbol", Route::SymbolCount),
        (Method::Post, "/debug/pprof/symbol", Route::Symbol),
        (Method::Get, "/config", Route::GetConfig),
        (Method::Post, "/config", Route::UpdateConfig),
        (Method::Get, "/engine_type", Route::EngineType),
        (Method::Put, "/config/reload", Route::ReloadConfig),
        (Method::Get, "/debug/pprof/profile", Route::CpuProfile),
        (Method::Get, "/debug/fail_point", Route::DebugFailPoint),
        (Method::Get, "/region/7", Route::RegionMeta),
        (Method::Get, "/regions", Route::RegionMeta),
        (Method::Put, "/log-level", Route::LogLevel),
        (Method::Put, "/log-level/x", Route::LogLevel),
        (Method::Get, "/resource_groups", Route::ResourceGroups),
        (Method::Put, "/pause_grpc", Route::PauseGrpc),
        (Method::Put, "/resume_grpc", Route::ResumeGrpc),
        (Method::Get, "/async_tasks", Route::AsyncTasks),
        (Method::Get, "debug/ime/cached_regions", Route::CachedRegions),
        (Method::Get, "/debug/ime/cached_regions", Route::Unknown),
        (Method::Post, "/metrics", Route::Unknown),
        (Method::Delete, "/config", Route::Unknown),
        (Method::Other, "/status", Route::Unknown),
        (Method::Get, "/", Route::Unknown),
        (Method::Get, "/fail", Route::Unknown),
    ];
    for (method, path, expected) in cases {
        assert_eq!(route(method, path.as_bytes(), false), expected, "{:?} {}", method, path);
    }
    assert_eq!(route(Method::Get, b"/fail", true), Route::FailPoints);
    assert_eq!(route(Method::Other, b"/failure", true), Route::FailPoints);
    assert_eq!(route(Method::Get, b"/fai", true), Route::Unknown);
}

#[test]
fn only_four_reads_need_no_certificate() {
    for path in ["/metrics", "/status", "/config", "/debug/pprof/profile"] {
        assert!(!should_check_cert(Method::Get, path.as_bytes()));
        assert!(should_check_cert(Method::Post, path.as_bytes()));
    }
    assert!(should_check_cert(Method::Get, b"/region/1"));
    assert!(should_check_cert(Method::Get, b"/debug/pprof/heap"));
    assert!(should_check_cert(Method::Put, b"/log-level"));
}

#[test]
fn unknown_paths_are_counted_together() {
    assert_eq!(path_label(Route::Unknown, b"/nowhere/123"), b"unknown");
    assert_eq!(path_label(Route::Metrics, b"/metrics"), b"/metrics");
}

#[test]
fn dispatch_answers_what_needs_no_handler() {
    let server = started(security(&["tikv-server"]), true);
    // The status needs no certificate.
    let r = respond(server.dispatch(Method::Get, b"/status", None));
    assert_eq!((r.status, r.body.len()), (200, 0));
    // Handlers that are gone, for a client that is allowed.
    let r = respond(server.dispatch(Method::Get, b"/debug/pprof/heap_list", Some(b"tikv-server")));
    assert_eq!(r.status, 410);
    assert_eq!(
        body(&r),
        "Deprecated, heap profiling is always enabled by default, just use /debug/pprof/heap to get the heap profile when needed"
    );
    for path in ["/debug/pprof/heap_activate", "/debug/pprof/heap_deactivate"] {
        let r = respond(server.dispatch(Method::Get, path.as_bytes(), Some(b"tikv-server")));
        assert_eq!(r.status, 410);
        assert_eq!(body(&r), "Deprecated, use config `memory.enable_heap_profiling` to toggle");
    }
    // A client without a name is refused before the path is looked at.
    let r = respond(server.dispatch(Method::Get, b"/nowhere", None));
    assert_eq!(r.status, 403);
    let r = respond(server.dispatch(Method::Get, b"/nowhere", Some(b"tikv-server")));
    assert_eq!(r.status, 404);
    // Fail point requests are not checked.
    assert_eq!(serve(server.dispatch(Method::Put, b"/fail/x", None)), Route::FailPoints);
}

#[test]
fn check_cert_wants_an_allowed_name_only_where_names_are_set() {
    assert!(check_cert(&security(&[]), None));
    assert!(check_cert(&security(&[]), Some(b"anyone")));
    assert!(!check_cert(&security(&["a", "b"]), None));
    assert!(check_cert(&security(&["a", "b"]), Some(b"b")));
    assert!(!check_cert(&security(&["a", "b"]), Some(b"c")));
    assert!(!check_cert(&security(&["a", "b"]), Some(b"")));
}

#[test]
fn tls_is_spoken_only_with_certificate_key_and_authority() {
    assert!(tls_security(&[]).uses_tls());
    let mut s = tls_security(&[]);
    s.key_path = Vec::new();
    assert!(!s.uses_tls());
    assert!(!security(&[]).uses_tls());
    assert_eq!(after_tls_error(Some(true)), AfterTlsError::Reload);
    assert_eq!(after_tls_error(Some(false)), AfterTlsError::Keep);
    assert_eq!(after_tls_error(None), AfterTlsError::Keep);
}

#[test]
fn fail_point_requests_are_planned_from_method_path_and_body() {
    match plan_fail_points(Method::Put, b"/fail/", b"panic") {
        FailPointPlan::Respond(r) => {
            assert_eq!(r.status, 422);
            assert_eq!(body(&r), "Missing param name");
        }
        other => panic!("{:?}", other),
    }
    match plan_fail_points(Method::Put, b"/fail/x", b"") {
        FailPointPlan::Respond(r) => {
            assert_eq!(r.status, 422);
            assert_eq!(body(&r), "Missing param actions");
        }
        other => panic!("{:?}", other),
    }
    // A body that is no text counts as no actions.
    match plan_fail_points(Method::Put, b"/fail/x", &[0xff, 0xfe]) {
        FailPointPlan::Respond(r) => assert_eq!(body(&r), "Missing param actions"),
        other => panic!("{:?}", other),
    }
    match plan_fail_points(Method::Put, b"/fail/x", "caf\u{e9}".as_bytes()) {
        FailPointPlan::Configure { name, actions } => {
            assert_eq!(name, b"x");
            assert_eq!(actions, "caf\u{e9}".as_bytes());
        }
        other => panic!("{:?}", other),
    }
    match plan_fail_points(Method::Delete, b"/fail/", b"") {
        FailPointPlan::Respond(r) => assert_eq!(r.status, 422),
        other => panic!("{:?}", other),
    }
    match plan_fail_points(Method::Delete, b"/fail/a/b", b"") {
        FailPointPlan::Remove { name } => assert_eq!(name, b"a/b"),
        other => panic!("{:?}", other),
    }
    assert!(matches!(plan_fail_points(Method::Get, b"/fail", b""), FailPointPlan::List));
    assert!(matches!(plan_fail_points(Method::Get, b"/fail/", b""), FailPointPlan::List));
    match plan_fail_points(Method::Get, b"/fail/x", b"") {
        FailPointPlan::Respond(r) => assert_eq!((r.status, r.body.len()), (404, 0)),
        other => panic!("{:?}", other),
    }
    match plan_fail_points(Method::Post, b"/fail/x", b"panic") {
        FailPointPlan::Respond(r) => assert_eq!((r.status, r.body.len()), (405, 0)),
        other => panic!("{:?}", other),
    }
    // PUT and DELETE on `/fail` itself name no fail point.
    match plan_fail_points(Method::Put, b"/fail", b"panic") {
        FailPointPlan::Respond(r) => assert_eq!(r.status, 405),
        other => panic!("{:?}", other),
    }
}

#[test]
fn actions_that_cannot_be_read_are_refused() {
    let _guard = fail::FailScenario::setup();
    let res = handle_fail_points_request(Method::Put, b"/fail/some_point", b"no-such-action");
    assert_eq!(res.status, 400);
    assert!(!res.body.is_empty());
    assert!(fail::list().is_empty());
}

#[test]
fn switches_in_the_query_are_truth_values() {
    assert_eq!(wants_persist(None).unwrap(), true);
    assert_eq!(wants_persist(Some(b"")).unwrap(), true);
    assert_eq!(wants_persist(Some(b"persist=false")).unwrap(), false);
    assert_eq!(wants_persist(Some(b"x=1&persist=true")).unwrap(), true);
    // The last occurrence counts.
    assert_eq!(wants_persist(Some(b"persist=true&persist=false")).unwrap(), false);
    // Escapes are decoded before the value is read.
    assert_eq!(wants_persist(Some(b"persist=%66alse")).unwrap(), false);
    assert_eq!(wants_persist(Some(b"per%73ist=false")).unwrap(), false);
    let refused = wants_persist(Some(b"persist=no")).unwrap_err();
    assert_eq!(refused.status, 400);
    assert_eq!(body(&refused), "provided string was not `true` or `false`");
    assert_eq!(body(&wants_full_config(Some(b"full=")).unwrap_err()), "provided string was not `true` or `false`");
    assert_eq!(wants_full_config(Some(b"full=true")).unwrap(), true);
    assert_eq!(flag(Some(b"a+b=true"), b"a b", false).unwrap(), true);
}

#[test]
fn a_cpu_profile_is_planned_from_query_and_content_type() {
    assert_eq!(
        plan_cpu_profile(b"", None).unwrap(),
        CpuProfilePlan { seconds: 10, frequency: 99, protobuf: false }
    );
    assert_eq!(
        plan_cpu_profile(b"seconds=%2B3&frequency=-5", Some(b"application/protobuf")).unwrap(),
        CpuProfilePlan { seconds: 3, frequency: -5, protobuf: true }
    );
    assert_eq!(plan_cpu_profile(b"", Some(b"application/json")).unwrap().protobuf, false);
    // A `+` in a query stands for a space.
    let e = plan_cpu_profile(b"seconds=+3", None).unwrap_err();
    assert_eq!(body(&e), "invalid digit found in string");
    let e = plan_cpu_profile(b"seconds=abc", None).unwrap_err();
    assert_eq!((e.status, body(&e)), (400, "invalid digit found in string".to_owned()));
    let e = plan_cpu_profile(b"seconds=", None).unwrap_err();
    assert_eq!(body(&e), "cannot parse integer from empty string");
    let e = plan_cpu_profile(b"seconds=18446744073709551616", None).unwrap_err();
    assert_eq!(body(&e), "number too large to fit in target type");
    assert_eq!(plan_cpu_profile(b"seconds=18446744073709551615", None).unwrap().seconds, u64::MAX);
    let e = plan_cpu_profile(b"frequency=2147483648", None).unwrap_err();
    assert_eq!(body(&e), "number too large to fit in target type");
    let e = plan_cpu_profile(b"frequency=-2147483649", None).unwrap_err();
    assert_eq!(body(&e), "number too small to fit in target type");
    assert_eq!(plan_cpu_profile(b"frequency=-2147483648", None).unwrap().frequency, i32::MIN);
    // A bad `seconds` is reported before a bad `frequency`.
    let e = plan_cpu_profile(b"frequency=x&seconds=", None).unwrap_err();
    assert_eq!(body(&e), "cannot parse integer from empty string");
    let resp = StatusServer::dump_cpu_prof_to_resp(
        CpuProfilePlan { seconds: 1, frequency: 1, protobuf: true },
        Ok(vec![1, 2, 3]),
    );
    assert_eq!(resp.content_type, ContentType::OctetStream);
    let resp = StatusServer::dump_cpu_prof_to_resp(
        CpuProfilePlan { seconds: 1, frequency: 1, protobuf: true },
        Err(b"tokio timer canceled".to_vec()),
    );
    assert_eq!((resp.status, body(&resp)), (500, "tokio timer canceled".to_owned()));
}

#[test]
fn the_region_id_is_read_from_the_path() {
    assert!(matches!(plan_region_meta("/region/42"), RegionPlan::Query(42)));
    assert!(matches!(plan_region_meta("/region/007/extra"), RegionPlan::Query(7)));
    assert!(matches!(plan_region_meta("/x/region/5"), RegionPlan::Query(5)));
    match plan_region_meta("/region/abc") {
        RegionPlan::Respond(r) => {
            assert_eq!(r.status, 404);
            assert_eq!(body(&r), "path /region/abc not found");
        }
        other => panic!("{:?}", other),
    }
    match plan_region_meta("/region/18446744073709551616") {
        RegionPlan::Respond(r) => {
            assert_eq!(r.status, 400);
            assert_eq!(body(&r), "invalid region id: number too large to fit in target type");
        }
        other => panic!("{:?}", other),
    }
    assert!(matches!(
        plan_region_meta("/region/18446744073709551615"),
        RegionPlan::Query(u64::MAX)
    ));
}

#[test]
fn region_metadata_are_answered_from_the_lookup() {
    let r = StatusServer::dump_region_meta(3, RegionQuery::Found(Ok(b"{\"id\":3}".to_vec())));
    assert_eq!((r.status, r.content_type), (200, ContentType::Json));
    assert_eq!(body(&r), "{\"id\":3}");
    let r = StatusServer::dump_region_meta(3, RegionQuery::Found(Err(b"bad".to_vec())));
    assert_eq!((r.status, body(&r)), (500, "fails to json: bad".to_owned()));
    let r = StatusServer::dump_region_meta(1234567890, RegionQuery::NotFound);
    assert_eq!((r.status, body(&r)), (404, "region(1234567890) not found".to_owned()));
    let r = StatusServer::dump_region_meta(0, RegionQuery::NotFound);
    assert_eq!(body(&r), "region(0) not found");
    let r = StatusServer::dump_region_meta(u64::MAX, RegionQuery::Failed(b"timeout".to_vec()));
    assert_eq!((r.status, body(&r)), (500, "query failed: timeout".to_owned()));
}

#[test]
fn numbers_are_written_in_decimal_and_hexadecimal() {
    assert_eq!(decimal(0), b"0");
    assert_eq!(decimal(9), b"9");
    assert_eq!(decimal(10), b"10");
    assert_eq!(decimal(u64::MAX), b"18446744073709551615");
    assert_eq!(hex(0), b"0");
    assert_eq!(hex(15), b"f");
    assert_eq!(hex(16), b"10");
    assert_eq!(hex(0xdead_beef), b"deadbeef");
}

#[test]
fn a_change_of_the_configuration_is_read_from_json() {
    let change = decode_json(b"{\"b\": true, \"a\": 1.5, \"c\": \"x\", \"d\": false, \"e\": -3}").unwrap();
    let pairs: Vec<(String, String)> = change
        .iter()
        .map(|p| (String::from_utf8(p.name.clone()).unwrap(), String::from_utf8(p.value.clone()).unwrap()))
        .collect();
    let mut sorted = pairs.clone();
    sorted.sort();
    assert_eq!(
        sorted,
        vec![
            ("a".to_owned(), "1.5".to_owned()),
            ("b".to_owned(), "true".to_owned()),
            ("c".to_owned(), "x".to_owned()),
            ("d".to_owned(), "false".to_owned()),
            ("e".to_owned(), "-3".to_owned()),
        ]
    );
    assert!(decode_json(b"{}").unwrap().is_empty());
    assert!(matches!(decode_json(b"{\"a\": [1]}"), Err(DecodeError::ArrayNotSupported)));
    assert!(matches!(decode_json(b"{\"a\": null}"), Err(DecodeError::WrongFormat)));
    assert!(matches!(decode_json(b"{\"a\": {}}"), Err(DecodeError::WrongFormat)));
    assert!(matches!(decode_json(b"[1, 2]"), Err(DecodeError::WrongFormat)));
    assert!(matches!(decode_json(b"\"text\""), Err(DecodeError::WrongFormat)));
    match decode_json(b"{not json") {
        Err(DecodeError::Invalid(e)) => {
            assert_eq!(String::from_utf8(e).unwrap(), "Error(\"key must be a string\", line: 1, column: 2)")
        }
        other => panic!("{:?}", other),
    }
}

#[test]
fn a_change_that_cannot_be_read_is_answered_with_the_reason() {
    let e = update_config(None, b"{\"a\": [1]}").unwrap_err();
    assert_eq!(e.status, 500);
    assert_eq!(body(&e), "failed to decode, error: \"array type are not supported\"");
    let e = update_config(None, b"7").unwrap_err();
    assert_eq!(body(&e), "failed to decode, error: \"wrong format\"");
    let e = update_config(None, b"").unwrap_err();
    assert_eq!(
        body(&e),
        "failed to decode, error: Error(\"EOF while parsing a value\", line: 1, column: 0)"
    );
    // A switch that is no truth value is refused before the body is read.
    let e = update_config(Some(b"persist=2"), b"{not json").unwrap_err();
    assert_eq!(e.status, 400);
    let r = update_config_response(UpdateOutcome::NotPersisted(b"Os { code: 13 }".to_vec()));
    assert_eq!(
        (r.status, body(&r)),
        (500, "config changed, but failed to persist change due to err: Os { code: 13 }".to_owned())
    );
    let r = update_config_response(UpdateOutcome::Failed(b"\"bad\"".to_vec()));
    assert_eq!((r.status, body(&r)), (500, "failed to update, error: \"bad\"".to_owned()));
    let r = update_config_from_toml_file(Ok(()));
    assert_eq!((r.status, r.body.len()), (200, 0));
    let r = update_config_from_toml_file(Err(b"\"bad\"".to_vec()));
    assert_eq!((r.status, body(&r)), (500, "failed to update, error: \"bad\"".to_owned()));
}

#[test]
fn gzip_is_taken_where_the_header_names_it() {
    assert!(!client_accept_gzip(None));
    assert!(!client_accept_gzip(Some(b"")));
    assert!(client_accept_gzip(Some(b"gzip")));
    assert!(client_accept_gzip(Some(b"deflate, gzip")));
    assert!(client_accept_gzip(Some(b"deflate,\tgzip ;q=0.5")) == false);
    assert!(client_accept_gzip(Some(b"deflate, gzip;q=0.5 , br")));
    assert!(client_accept_gzip(Some(b"  gzip  ")));
    assert!(!client_accept_gzip(Some(b"gzipped")));
    assert!(!client_accept_gzip(Some(b"x-gzip")));
    assert!(!client_accept_gzip(Some(b"deflate")));
    assert!(!client_accept_gzip(Some(b"GZIP")));
    assert!(client_accept_gzip(Some(b",,gzip")));
    // A header that is no text names nothing.
    assert!(!client_accept_gzip(Some(&[b'g', b'z', b'i', b'p', b',', 0xff])));
    assert!(!client_accept_gzip(Some(b"gzip\n")));
}

#[test]
fn symbol_requests_name_addresses_in_hexadecimal() {
    assert_eq!(symbol_addresses(b"0x10+0x20"), vec![0x10, 0x20]);
    assert_eq!(symbol_addresses(b"10+zz+0x0+ff"), vec![0x10, 0xff]);
    assert_eq!(symbol_addresses(b"0x0x1f"), vec![0x1f]);
    assert_eq!(symbol_addresses(b""), Vec::<usize>::new());
    assert_eq!(symbol_addresses(b"+"), Vec::<usize>::new());
    assert_eq!(symbol_addresses(b"0x"), Vec::<usize>::new());
    assert_eq!(symbol_addresses(b" 0x10"), Vec::<usize>::new());
    assert_eq!(symbol_addresses(b"ABC"), vec![0xabc]);
    let lines = get_symbol(&vec![
        Resolved { address: 0x10, names: vec![b"outer".to_vec(), b"inner".to_vec()] },
        Resolved { address: 0xff, names: vec![] },
    ]);
    assert_eq!(body(&lines), "0x10 outer--inner\n0xff ??\n");
    assert_eq!(lines.content_type, ContentType::TextPlain);
    assert!(lines.nosniff && lines.content_length);
    assert_eq!(body(&get_symbol_count()), "num_symbols: 1\n");
    let cmd = get_cmdline(&vec![b"tikv-server".to_vec(), b"--config".to_vec(), b"x".to_vec()]);
    assert_eq!(cmd.body, b"tikv-server\0--config\0x\0");
    assert!(get_cmdline(&vec![]).body.is_empty());
}

#[test]
fn cached_regions_are_shown_in_hexadecimal_and_in_order() {
    let snapshot = |id: u64, start: &[u8], end: &[u8]| RegionSnapshot {
        id,
        epoch_version: 1,
        start: [b"z", start].concat(),
        end: [b"z", end].concat(),
        in_gc: false,
        safe_point: 0,
        state: b"Active".to_vec(),
        is_written: true,
    };
    let shown = cached_regions(&vec![
        snapshot(3, b"key", b"kez"),
        snapshot(1, b"", b"a"),
        snapshot(2, b"a", b"key"),
        snapshot(4, b"a", b"key"),
        snapshot(5, &[0x00, 0xab, 0xff], b""),
    ]);
    let ids: Vec<u64> = shown.iter().map(|r| r.id).collect();
    assert_eq!(ids, vec![1, 5, 2, 4, 3]);
    assert_eq!(shown[4].start, b"6B6579");
    assert_eq!(shown[4].end, b"6B657A");
    assert_eq!(shown[0].start, b"");
    assert_eq!(shown[1].start, b"00ABFF");
    assert_eq!(shown[2].state, b"Active");
    assert!(validate_data_key(b"zkey"));
    assert!(validate_data_key(b"z"));
    assert!(!validate_data_key(b""));
    assert!(!validate_data_key(b"key"));
}

#[test]
fn a_resource_group_shows_its_settings() {
    let shown = into_debug_request_group(ResourceGroup {
        name: b"default".to_vec(),
        fill_rate: 1000,
        priority: 8,
        burst_limit: -1,
        job_types: Some(vec![b"br".to_vec(), b"ddl".to_vec()]),
    });
    assert_eq!(shown.name, b"default");
    assert_eq!((shown.ru, shown.priority, shown.burst_limit), (1000, 8, -1));
    assert_eq!(shown.background.task_types, vec![b"br".to_vec(), b"ddl".to_vec()]);
    let shown = into_debug_request_group(ResourceGroup {
        name: b"g".to_vec(),
        fill_rate: 0,
        priority: 0,
        burst_limit: 0,
        job_types: None,
    });
    assert!(shown.background.task_types.is_empty());
    let r = StatusServer::handle_get_all_resource_groups(Ok(b"[]".to_vec()));
    assert_eq!((r.status, r.content_type, body(&r)), (200, ContentType::Json, "[]".to_owned()));
    let r = StatusServer::handle_get_all_resource_groups(Err(b"bad".to_vec()));
    assert_eq!((r.status, body(&r)), (500, "fails to json: bad".to_owned()));
    let r = StatusServer::dump_async_trace(b"task tree".to_vec());
    assert_eq!((r.status, body(&r)), (200, "task tree".to_owned()));
}

#[test]
fn numbers_are_read_as_the_standard_library_reads_them() {
    let texts = [
        "",
        "0",
        "7",
        "007",
        "+",
        "-",
        "+7",
        "-7",
        "++7",
        "+-7",
        "-+7",
        "--7",
        "7+",
        " 7",
        "7 ",
        "1_000",
        "12a",
        "a12",
        "ff",
        "FF",
        "0x10",
        "g",
        "2147483647",
        "2147483648",
        "-2147483648",
        "-2147483649",
        "4294967295",
        "4294967296",
        "18446744073709551615",
        "18446744073709551616",
        "99999999999999999999x",
        "-99999999999999999999x",
        "9999999999999999999x9",
        "x99999999999999999999",
        "00000000000000000000000000000000000000001",
        "-00000000000000000000000000000000000000001",
        "ffffffffffffffff",
        "10000000000000000",
        "+ffffffffffffffff",
        "-ff",
        "\u{e9}",
        "1\u{e9}",
    ];
    for t in texts {
        let expected = t.parse::<u64>().map_err(|e| e.to_string().into_bytes());
        assert_eq!(parse_u64(t.as_bytes()).map_err(|e| e.text()), expected, "u64 from {:?}", t);
        let expected = t.parse::<i32>().map_err(|e| e.to_string().into_bytes());
        assert_eq!(parse_i32(t.as_bytes()).map_err(|e| e.text()), expected, "i32 from {:?}", t);
        let expected = usize::from_str_radix(t, 16).map_err(|e| e.to_string().into_bytes());
        assert_eq!(parse_hex(t.as_bytes()).map_err(|e| e.text()), expected, "hex from {:?}", t);
    }
    assert_eq!(parse_u64(b""), Err(IntError::Empty));
    assert_eq!(parse_u64(b"-1"), Err(IntError::InvalidDigit));
    assert_eq!(parse_u64(b"18446744073709551616"), Err(IntError::PosOverflow));
    assert_eq!(parse_i32(b"-2147483649"), Err(IntError::NegOverflow));
    assert_eq!(parse_i32(b"-2147483648"), Ok(i32::MIN));
    assert_eq!(parse_hex(b"+Ab"), Ok(0xab));
    // Bytes that are no text are no digits.
    assert_eq!(parse_u64(&[b'1', 0xff]), Err(IntError::InvalidDigit));
}
