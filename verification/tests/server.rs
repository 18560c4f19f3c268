use dynamo::tcp::instance::EndpointInstanceId;
use dynamo::tcp::options::ServerOptions;
use dynamo::tcp::resolve::{
    answered_address, interface_address, DefaultIpResolver, IpResolver, PipelineError,
    ResolveError,
};
use dynamo::tcp::server::{listener_error, TcpStreamServer};
use dynamo::tcp::stream::{StreamOptions, StreamType};
use dynamo::tcp::table::Table;
use dynamo::tcp::tracking::TOMBSTONE_TTL;
use tokio::sync::oneshot;

const SECOND: u64 = 1_000_000_000;

struct FailingIpResolver;

impl IpResolver for FailingIpResolver {
    fn local_ip(&self) -> Result<String, ResolveError> {
        Err(ResolveError::LocalIpAddressNotFound)
    }

    fn local_ipv6(&self) -> Result<String, ResolveError> {
        Err(ResolveError::LocalIpAddressNotFound)
    }
}

struct FixedIpResolver(Result<&'static str, &'static str>, Result<&'static str, &'static str>);

fn answer(a: Result<&'static str, &'static str>) -> Result<String, ResolveError> {
    match a {
        Ok(ip) => Ok(ip.to_string()),
        Err("none") => Err(ResolveError::LocalIpAddressNotFound),
        Err(e) => Err(ResolveError::StrategyError(e.to_string())),
    }
}

impl IpResolver for FixedIpResolver {
    fn local_ip(&self) -> Result<String, ResolveError> {
        answer(self.0)
    }

    fn local_ipv6(&self) -> Result<String, ResolveError> {
        answer(self.1)
    }
}

type Server = TcpStreamServer<oneshot::Sender<u8>, oneshot::Sender<u8>>;

fn test_server() -> Server {
    let mut server: Server = TcpStreamServer::<oneshot::Sender<u8>, oneshot::Sender<u8>>::new_with_resolver(
        ServerOptions::builder().port(0).build().unwrap(),
        FailingIpResolver,
    )
    .unwrap();
    assert!(!server.is_started());
    assert_eq!(server.start(), "127.0.0.1:0");
    assert!(server.is_started());
    assert_eq!(server.bound(Ok(4321)).unwrap(), 4321);
    server
}

fn response_options() -> StreamOptions {
    StreamOptions {
        context: "ctx".to_string(),
        enable_request_stream: false,
        enable_response_stream: true,
    }
}

fn register_and_get_subject(server: &mut Server) -> (String, oneshot::Receiver<u8>) {
    let (send, _) = oneshot::channel();
    let (recv, provider) = oneshot::channel();
    let pending = server.register(&response_options(), send, recv);
    assert!(pending.send_stream.is_none());
    (pending.recv_stream.unwrap().subject, provider)
}

fn is_let_go(provider: &mut oneshot::Receiver<u8>) -> bool {
    matches!(provider.try_recv(), Err(oneshot::error::TryRecvError::Closed))
}

fn make_eid(
    namespace: &str,
    component: &str,
    endpoint: &str,
    instance_id: u64,
) -> EndpointInstanceId {
    EndpointInstanceId {
        namespace: namespace.to_string(),
        component: component.to_string(),
        endpoint: endpoint.to_string(),
        instance_id,
    }
}

#[test]
fn a_server_by_default_follows_the_answer_of_the_system() {
    let answer = match DefaultIpResolver.local_ip() {
        Err(ResolveError::LocalIpAddressNotFound) => DefaultIpResolver.local_ipv6(),
        other => other,
    };
    let result = TcpStreamServer::<oneshot::Sender<u8>, oneshot::Sender<u8>>::new(
        ServerOptions::default(),
    );
    match (answered_address(answer), result) {
        (Ok(ip), Ok(mut server)) => {
            server.bound(Ok(4321)).unwrap();
            let (send, _) = oneshot::channel();
            let (recv, _provider) = oneshot::channel();
            let pending = server.register(&response_options(), send, recv);
            let info = pending.recv_stream.unwrap();
            assert_eq!(info.address, format!("{ip}:4321"));
            assert_eq!(info.context, "ctx");
            assert_eq!(info.stream_type, StreamType::Response);
        }
        (Err(PipelineError::Generic(expected)), Err(PipelineError::Generic(text))) => {
            assert_eq!(text, expected)
        }
        (answer, result) => panic!("{answer:?} {}", result.is_ok()),
    }
}

#[test]
fn a_server_on_an_address_that_was_found() {
    let result = TcpStreamServer::<oneshot::Sender<u8>, oneshot::Sender<u8>>::new_with_resolver(
        ServerOptions::default(),
        FixedIpResolver(Ok("192.168.7.9"), Err("none")),
    );
    let mut server = result.ok().expect("an address was found");
    server.bound(Ok(4321)).unwrap();
    let (send, _) = oneshot::channel();
    let (recv, _provider) = oneshot::channel();
    let pending = server.register(&response_options(), send, recv);
    assert_eq!(pending.recv_stream.unwrap().address, "192.168.7.9:4321");
}

#[test]
fn test_tcp_stream_server_fallback_to_loopback() {
    let options = ServerOptions::builder().port(0).build().unwrap();
    let result = TcpStreamServer::<oneshot::Sender<u8>, oneshot::Sender<u8>>::new_with_resolver(
        options,
        FailingIpResolver,
    );
    assert!(
        result.is_ok(),
        "Server creation should succeed with fallback even when IP detection fails"
    );
    let mut server = result.unwrap();
    server.bound(Ok(4321)).unwrap();
    let (send, _) = oneshot::channel();
    let (recv, _provider) = oneshot::channel();
    let pending = server.register(&response_options(), send, recv);
    let address = pending.recv_stream.unwrap().address;
    assert_eq!(address, "127.0.0.1:4321", "Fallback should use exactly 127.0.0.1");
}

#[test]
fn test_cancel_instance_streams_unblocks_receiver() {
    let mut server = test_server();
    let (subject, mut provider) = register_and_get_subject(&mut server);
    let id = make_eid("ns", "comp", "generate", 42);
    assert!(server.associate_instance(&subject, &id));
    assert!(!is_let_go(&mut provider));
    let cancelled = server.cancel_instance_streams(&id);
    assert_eq!(cancelled, 1);
    assert!(is_let_go(&mut provider), "Expected RecvError after cancellation");
}

#[test]
fn test_cancel_instance_streams_multiple_subjects() {
    let mut server = test_server();
    let (subj1, mut prov1) = register_and_get_subject(&mut server);
    let (subj2, mut prov2) = register_and_get_subject(&mut server);
    let (subj3, mut prov3) = register_and_get_subject(&mut server);
    let id10 = make_eid("ns", "comp", "generate", 10);
    let id20 = make_eid("ns", "comp", "generate", 20);
    assert!(server.associate_instance(&subj1, &id10));
    assert!(server.associate_instance(&subj2, &id10));
    assert!(server.associate_instance(&subj3, &id20));
    let cancelled = server.cancel_instance_streams(&id10);
    assert_eq!(cancelled, 2);
    assert!(is_let_go(&mut prov1));
    assert!(is_let_go(&mut prov2));
    assert!(!is_let_go(&mut prov3));
    let cancelled = server.cancel_instance_streams(&id20);
    assert_eq!(cancelled, 1);
    assert!(is_let_go(&mut prov3));
}

#[test]
fn test_cancel_instance_streams_nonexistent_instance() {
    let mut server = test_server();
    let id = make_eid("ns", "comp", "generate", 999);
    let cancelled = server.cancel_instance_streams(&id);
    assert_eq!(cancelled, 0);
}

#[test]
fn test_cancel_recv_stream_cleans_up_instance_tracking() {
    let mut server = test_server();
    let (subject, mut provider) = register_and_get_subject(&mut server);
    let id = make_eid("ns", "comp", "generate", 42);
    assert!(server.associate_instance(&subject, &id));
    server.cancel_recv_stream(&subject);
    assert!(is_let_go(&mut provider));
    let cancelled = server.cancel_instance_streams(&id);
    assert_eq!(cancelled, 0, "Instance tracking should have been cleaned up");
}

#[test]
fn test_registered_stream_drop_runs_cleanup() {
    let mut server = test_server();
    let (send, _) = oneshot::channel();
    let (recv, mut provider) = oneshot::channel();
    let info = server.register(&response_options(), send, recv).recv_stream.unwrap();
    assert!(server.awaits_recv_stream(&info.subject));
    server.deregister(&info);
    assert!(
        !server.awaits_recv_stream(&info.subject),
        "RAII cleanup should have removed the rx_subjects entry"
    );
    assert!(is_let_go(&mut provider));
}

#[test]
fn a_request_stream_is_deregistered_by_its_kind() {
    let mut server = test_server();
    let (send, mut provider) = oneshot::channel();
    let (recv, _) = oneshot::channel();
    let options = StreamOptions {
        context: "ctx".to_string(),
        enable_request_stream: true,
        enable_response_stream: false,
    };
    let info = server.register(&options, send, recv).send_stream.unwrap();
    assert!(server.awaits_send_stream(&info.subject));
    server.deregister(&info);
    assert!(!server.awaits_send_stream(&info.subject));
    assert!(is_let_go(&mut provider));
}

#[test]
fn test_associate_after_cancel_is_immediately_cancelled() {
    let mut server = test_server();
    let id = make_eid("ns", "comp", "generate", 42);
    let cancelled = server.cancel_instance_streams(&id);
    assert_eq!(cancelled, 0);
    let (subject, mut provider) = register_and_get_subject(&mut server);
    let associated = server.associate_instance(&subject, &id);
    assert!(
        !associated,
        "associate_instance on a tombstoned instance should return false"
    );
    assert!(
        is_let_go(&mut provider),
        "Late associate_instance on a tombstoned instance should immediately cancel"
    );
}

#[test]
fn test_clear_tombstone_allows_new_associations() {
    let mut server = test_server();
    let id = make_eid("ns", "comp", "generate", 42);
    server.cancel_instance_streams(&id);
    server.clear_instance_tombstone(&id);
    let (subject, _provider) = register_and_get_subject(&mut server);
    assert!(server.associate_instance(&subject, &id));
    let cancelled = server.cancel_instance_streams(&id);
    assert_eq!(
        cancelled, 1,
        "After clearing tombstone, subjects should be tracked normally"
    );
}

#[test]
fn test_cancel_does_not_affect_sibling_endpoint() {
    let mut server = test_server();
    let (gen_subj, mut gen_prov) = register_and_get_subject(&mut server);
    let (pre_subj, mut pre_prov) = register_and_get_subject(&mut server);
    let gen_id = make_eid("ns", "comp", "generate", 42);
    let pre_id = make_eid("ns", "comp", "prefill", 42);
    assert!(server.associate_instance(&gen_subj, &gen_id));
    assert!(server.associate_instance(&pre_subj, &pre_id));
    let cancelled = server.cancel_instance_streams(&gen_id);
    assert_eq!(cancelled, 1, "Only the generate subject should be cancelled");
    assert!(is_let_go(&mut gen_prov));
    let still_pending = server.cancel_instance_streams(&pre_id);
    assert_eq!(still_pending, 1, "prefill subject should still be tracked");
    assert!(is_let_go(&mut pre_prov));
}

#[test]
fn test_tombstone_is_endpoint_scoped() {
    let mut server = test_server();
    let gen_id = make_eid("ns", "comp", "generate", 42);
    let pre_id = make_eid("ns", "comp", "prefill", 42);
    server.cancel_instance_streams(&gen_id);
    let (gen_subj, mut gen_prov) = register_and_get_subject(&mut server);
    assert!(
        !server.associate_instance(&gen_subj, &gen_id),
        "generate should be tombstoned"
    );
    assert!(is_let_go(&mut gen_prov));
    let (pre_subj, _pre_prov) = register_and_get_subject(&mut server);
    assert!(
        server.associate_instance(&pre_subj, &pre_id),
        "prefill tombstone is independent; subject should be tracked"
    );
    let count = server.cancel_instance_streams(&pre_id);
    assert_eq!(count, 1, "prefill subject should be tracked normally");
}

#[test]
fn test_cancel_does_not_affect_different_component() {
    let mut server = test_server();
    let (subj_a, mut prov_a) = register_and_get_subject(&mut server);
    let (subj_b, mut prov_b) = register_and_get_subject(&mut server);
    let id_a = make_eid("ns-a", "comp-a", "generate", 42);
    let id_b = make_eid("ns-b", "comp-b", "generate", 42);
    assert!(server.associate_instance(&subj_a, &id_a));
    assert!(server.associate_instance(&subj_b, &id_b));
    let cancelled = server.cancel_instance_streams(&id_a);
    assert_eq!(cancelled, 1, "Only service-A subject should be cancelled");
    assert!(is_let_go(&mut prov_a));
    let still_tracked = server.cancel_instance_streams(&id_b);
    assert_eq!(still_tracked, 1, "Service-B subject should be unaffected");
    assert!(is_let_go(&mut prov_b));
}

#[test]
fn test_tombstone_expires_after_ttl() {
    let mut server = test_server();
    let id = make_eid("ns", "comp", "generate", 42);
    server.cancel_instance_streams_at(&id, 0);
    assert!(server.has_tombstone(&id));
    let now = TOMBSTONE_TTL + SECOND;
    let (subject, _provider) = register_and_get_subject(&mut server);
    assert!(
        server.associate_instance_at(&subject, &id, now),
        "tombstone older than TTL should not block association"
    );
    assert!(
        !server.has_tombstone(&id),
        "expired tombstone should be pruned, not retained"
    );
}

#[test]
fn test_tombstone_within_ttl_blocks_associate() {
    let mut server = test_server();
    let id = make_eid("ns", "comp", "generate", 42);
    server.cancel_instance_streams_at(&id, 0);
    let (subject, mut provider) = register_and_get_subject(&mut server);
    assert!(
        !server.associate_instance_at(&subject, &id, SECOND),
        "tombstone within TTL must still block association"
    );
    assert!(is_let_go(&mut provider));
}

#[test]
fn test_tombstone_lazy_prune_on_cancel() {
    let mut server = test_server();
    let id_old = make_eid("ns", "comp", "generate", 1);
    let id_new = make_eid("ns", "comp", "generate", 2);
    server.cancel_instance_streams_at(&id_old, 0);
    server.cancel_instance_streams_at(&id_new, TOMBSTONE_TTL + SECOND);
    assert!(
        !server.has_tombstone(&id_old),
        "old tombstone should be pruned by the next cancel_instance_streams call"
    );
    assert!(server.has_tombstone(&id_new), "fresh tombstone should be retained");
    assert_eq!(server.tombstone_count(), 1);
}

#[test]
fn test_clear_tombstone_only_affects_named_identity() {
    let mut server = test_server();
    let id_a = make_eid("ns", "comp", "generate", 1);
    let id_b = make_eid("ns", "comp", "generate", 2);
    server.cancel_instance_streams(&id_a);
    server.clear_instance_tombstone(&id_b);
    assert!(
        server.has_tombstone(&id_a),
        "clearing a different identity must not remove id_a's tombstone"
    );
}

#[test]
fn test_tombstone_scoped_to_full_identity() {
    let mut server = test_server();
    let id_a = make_eid("ns-a", "comp-a", "generate", 42);
    let id_b = make_eid("ns-b", "comp-b", "generate", 42);
    server.cancel_instance_streams(&id_a);
    let (subj_a, mut prov_a) = register_and_get_subject(&mut server);
    assert!(!server.associate_instance(&subj_a, &id_a));
    assert!(is_let_go(&mut prov_a));
    let (subj_b, _prov_b) = register_and_get_subject(&mut server);
    assert!(
        server.associate_instance(&subj_b, &id_b),
        "Different namespace/component must not be tombstoned"
    );
    assert_eq!(server.cancel_instance_streams(&id_b), 1);
}

#[test]
fn a_tombstone_expires_to_the_nanosecond() {
    let mut server = test_server();
    let id = make_eid("ns", "comp", "generate", 7);
    server.cancel_instance_streams_at(&id, 100);
    let (a, _pa) = register_and_get_subject(&mut server);
    assert!(!server.associate_instance_at(&a, &id, 100 + TOMBSTONE_TTL - 1));
    let (b, _pb) = register_and_get_subject(&mut server);
    assert!(server.associate_instance_at(&b, &id, 100 + TOMBSTONE_TTL));
    let (c, _pc) = register_and_get_subject(&mut server);
    server.cancel_instance_streams_at(&id, 50);
    assert!(!server.associate_instance_at(&c, &id, 10), "a clock behind gives no age");
}

#[test]
fn subjects_are_random_identifiers() {
    let mut server = test_server();
    let (a, _pa) = register_and_get_subject(&mut server);
    let (b, _pb) = register_and_get_subject(&mut server);
    assert_ne!(a, b);
    for s in [a, b] {
        let c: Vec<char> = s.chars().collect();
        assert_eq!(c.len(), 36);
        for i in 0..36 {
            if [8, 13, 18, 23].contains(&i) {
                assert_eq!(c[i], '-');
            } else {
                assert!(c[i].is_ascii_digit() || ('a'..='f').contains(&c[i]));
            }
        }
        assert_eq!(c[14], '4');
        assert!(['8', '9', 'a', 'b'].contains(&c[19]));
    }
}

#[test]
fn both_streams_are_registered_on_demand() {
    let mut server = test_server();
    let (send, mut on_send) = oneshot::channel();
    let (recv, mut on_recv) = oneshot::channel();
    let options = StreamOptions {
        context: "c-1".to_string(),
        enable_request_stream: true,
        enable_response_stream: true,
    };
    let pending =
        server.register_as(&options, ("s".to_string(), send), ("r".to_string(), recv));
    let s = pending.send_stream.unwrap();
    let r = pending.recv_stream.unwrap();
    assert_eq!((s.subject.as_str(), s.stream_type), ("s", StreamType::Request));
    assert_eq!((r.subject.as_str(), r.stream_type), ("r", StreamType::Response));
    assert_eq!(s.context, "c-1");
    assert_eq!(s.address, "127.0.0.1:4321");
    assert!(server.awaits_send_stream("s"));
    assert!(server.awaits_recv_stream("r"));
    assert!(!server.awaits_recv_stream("s"));
    server.cancel_send_stream("s");
    assert!(!server.awaits_send_stream("s"));
    assert!(is_let_go(&mut on_send));
    assert!(!is_let_go(&mut on_recv));

    let (send, mut on_send) = oneshot::channel();
    let (recv, mut on_recv) = oneshot::channel();
    let none = StreamOptions {
        context: String::new(),
        enable_request_stream: false,
        enable_response_stream: false,
    };
    let pending = server.register(&none, send, recv);
    assert!(pending.send_stream.is_none() && pending.recv_stream.is_none());
    assert!(is_let_go(&mut on_send) && is_let_go(&mut on_recv));
}

#[test]
fn a_stream_is_handed_over_once() {
    let mut server = test_server();
    let (subject, mut provider) = register_and_get_subject(&mut server);
    let id = make_eid("ns", "comp", "generate", 3);
    assert!(server.associate_instance(&subject, &id));
    let connection = server.take_recv_stream(&subject).unwrap();
    assert_eq!(server.cancel_instance_streams(&id), 0);
    connection.send(9).unwrap();
    assert_eq!(provider.try_recv(), Ok(9));
    assert_eq!(
        server.take_recv_stream(&subject).err().unwrap(),
        format!(
            "Subject not found: {subject}; upstream publisher specified a subject unknown to the downsteam subscriber"
        )
    );
}

#[test]
fn a_stream_is_counted_once() {
    let a = make_eid("ns", "comp", "generate", 1);
    let b = make_eid("ns", "comp", "generate", 2);
    for (first, second) in [(&a, &b), (&b, &a)] {
        let mut server = test_server();
        let (subject, mut provider) = register_and_get_subject(&mut server);
        assert!(server.associate_instance(&subject, &a));
        assert!(server.associate_instance(&subject, &b));
        assert_eq!(server.cancel_instance_streams(first), 1);
        assert!(is_let_go(&mut provider));
        assert_eq!(server.cancel_instance_streams(second), 0, "no stream is left to cancel");
    }
    let mut server = test_server();
    assert!(server.associate_instance("never registered", &a));
    assert_eq!(server.cancel_instance_streams(&a), 0);
}

#[test]
fn a_port_that_could_not_be_bound_is_reported() {
    let mut server: Server =
        TcpStreamServer::at_address("10.0.0.1".to_string(), 80);
    let address = server.start();
    assert_eq!(address, "10.0.0.1:80");
    let e = server.bound(Err(listener_error(&address, "in use"))).unwrap_err();
    match e {
        PipelineError::Generic(text) => assert_eq!(
            text,
            "Failed to start TcpStreamServer: Failed to start TcpListender on 10.0.0.1:80: in use"
        ),
        e => panic!("{e:?}"),
    }
    assert_eq!(server.address(), "10.0.0.1:80");
}

fn address_by(v4: Result<&'static str, &'static str>, v6: Result<&'static str, &'static str>) -> String {
    match TcpStreamServer::<(), ()>::new_with_resolver(
        ServerOptions { port: 1, interface: None },
        FixedIpResolver(v4, v6),
    ) {
        Ok(server) => server.address(),
        Err(PipelineError::Generic(text)) => text,
        Err(e) => format!("{e:?}"),
    }
}

#[test]
fn the_address_is_that_of_the_host() {
    assert_eq!(address_by(Ok("10.1.2.3"), Err("never asked")), "10.1.2.3:1");
    assert_eq!(address_by(Err("none"), Ok("::1")), "::1:1");
    assert_eq!(address_by(Err("none"), Err("none")), "127.0.0.1:1");
    let failure = "Failed to resolve local IP address: An error occurred executing the underlying strategy error.\nbroken";
    assert_eq!(address_by(Err("broken"), Ok("::1")), failure);
    assert_eq!(address_by(Err("none"), Err("broken")), failure);
}

#[test]
fn the_system_gives_addresses_of_the_kind_asked_for() {
    if let Ok(ip) = DefaultIpResolver.local_ip() {
        let parts: Vec<u8> = ip.split('.').map(|p| p.parse().unwrap()).collect();
        assert_eq!(parts.len(), 4, "{ip}");
        assert_eq!(format!("{}.{}.{}.{}", parts[0], parts[1], parts[2], parts[3]), ip);
    }
    if let Ok(ip) = DefaultIpResolver.local_ipv6() {
        assert!(ip.len() <= 39 && ip.matches(':').count() >= 2, "{ip}");
        assert!(ip.chars().all(|c| c.is_ascii_digit() || ('a'..='f').contains(&c) || c == ':' || c == '.'));
    }
}

#[test]
fn errors_of_the_resolver_in_words() {
    match answered_address(Err(ResolveError::PlatformNotSupported("toaster".to_string()))) {
        Err(PipelineError::Generic(text)) => assert_eq!(
            text,
            "Failed to resolve local IP address: The current platform: `toaster`, is not supported"
        ),
        other => panic!("{other:?}"),
    }
    for e in [
        local_ip_address::Error::LocalIpAddressNotFound,
        local_ip_address::Error::StrategyError("s".to_string()),
        local_ip_address::Error::PlatformNotSupported("p".to_string()),
    ] {
        let own = match &e {
            local_ip_address::Error::LocalIpAddressNotFound => ResolveError::LocalIpAddressNotFound,
            local_ip_address::Error::StrategyError(s) => ResolveError::StrategyError(s.clone()),
            local_ip_address::Error::PlatformNotSupported(p) => {
                ResolveError::PlatformNotSupported(p.clone())
            }
        };
        assert_eq!(own.text(), e.to_string());
    }
}

#[test]
fn the_address_of_an_interface() {
    let list = || {
        Ok(vec![
            ("lo".to_string(), "127.0.0.1".to_string()),
            ("eth0".to_string(), "10.0.0.7".to_string()),
            ("lo".to_string(), "::1".to_string()),
        ])
    };
    assert_eq!(interface_address("eth0", list()).unwrap(), "10.0.0.7");
    assert_eq!(interface_address("lo", list()).unwrap(), "::1", "the last entry counts");
    match interface_address("wlan0", list()) {
        Err(PipelineError::Generic(text)) => assert_eq!(text, "Interface not found: wlan0"),
        other => panic!("{other:?}"),
    }
    match interface_address("lo", Err(ResolveError::LocalIpAddressNotFound)) {
        Err(PipelineError::LocalIpAddress(ResolveError::LocalIpAddressNotFound)) => {}
        other => panic!("{other:?}"),
    }
    let missing = TcpStreamServer::<(), ()>::new(ServerOptions {
        port: 0,
        interface: Some("no such interface".to_string()),
    });
    match missing {
        Err(PipelineError::Generic(text)) => {
            assert_eq!(text, "Interface not found: no such interface")
        }
        Err(PipelineError::LocalIpAddress(_)) => {}
        Ok(_) => panic!("an address without an interface"),
    }
}

#[test]
fn options_have_defaults() {
    let built = ServerOptions::builder().build().unwrap();
    assert_eq!((built.port, built.interface), (0, None));
    let built = TcpStreamServer::<(), ()>::options_builder()
        .port(7)
        .interface(Some("eth0".to_string()))
        .build()
        .unwrap();
    assert_eq!((built.port, built.interface.as_deref()), (7, Some("eth0")));
    let default = ServerOptions::default();
    assert_eq!((default.port, default.interface), (0, None));
}

#[test]
fn a_table_has_each_key_once() {
    let mut table: Table<String, u64> = Table::new();
    for (k, v) in [("a", 1), ("b", 2), ("a", 3), ("c", 4)] {
        table.insert(k.to_string(), v);
    }
    assert_eq!(table.len(), 3);
    assert_eq!(table.get(&"a".to_string()), Some(&3));
    assert_eq!(table.remove(&"b".to_string()), Some(2));
    assert_eq!(table.remove(&"b".to_string()), None);
    assert!(!table.contains_key(&"b".to_string()));
    table.keep_recent(10, 7);
    assert_eq!(table.len(), 1);
    assert_eq!(table.pop(), Some(("c".to_string(), 4)));
    assert_eq!(table.pop(), None);
}
