use resolver::CustomResolver;
use resolver::IpAddress;
use resolver::Ipv4Address;
use resolver::Ipv6Address;
use resolver::LookupOutcome;
use resolver::ResolutionError;
use resolver::ResolveStep;
use resolver::Settled;
use resolver::SockAddr;
use resolver::SocketAddrs;
use resolver::settle;

fn v4(a: u8, b: u8, c: u8, d: u8) -> Ipv4Address {
    Ipv4Address { a, b, c, d }
}

fn v6(g: [u16; 8]) -> Ipv6Address {
    Ipv6Address {
        g0: g[0],
        g1: g[1],
        g2: g[2],
        g3: g[3],
        g4: g[4],
        g5: g[5],
        g6: g[6],
        g7: g[7],
    }
}

fn sa4(a: u8, b: u8, c: u8, d: u8, port: u16) -> SockAddr {
    SockAddr {
        ip: IpAddress::V4(v4(a, b, c, d)),
        port,
    }
}

fn sa6(g: [u16; 8], port: u16) -> SockAddr {
    SockAddr {
        ip: IpAddress::V6(v6(g)),
        port,
    }
}

#[test]
fn test_ip_addrs_split_by_preference() {
    let ip_v4 = v4(127, 0, 0, 1);
    let ip_v6 = v6([0, 0, 0, 0, 0, 0, 0, 1]);
    let v4_addr = sa4(127, 0, 0, 1, 80);
    let v6_addr = sa6([0, 0, 0, 0, 0, 0, 0, 1], 80);

    let (mut preferred, mut fallback) =
        SocketAddrs::new(vec![v4_addr, v6_addr]).split_by_preference(None, None);
    assert!(preferred.next().unwrap().is_ipv4());
    assert!(fallback.next().unwrap().is_ipv6());

    let (mut preferred, mut fallback) =
        SocketAddrs::new(vec![v6_addr, v4_addr]).split_by_preference(None, None);
    assert!(preferred.next().unwrap().is_ipv6());
    assert!(fallback.next().unwrap().is_ipv4());

    let (mut preferred, mut fallback) = SocketAddrs::new(vec![v4_addr, v6_addr])
        .split_by_preference(Some(ip_v4), Some(ip_v6));
    assert!(preferred.next().unwrap().is_ipv4());
    assert!(fallback.next().unwrap().is_ipv6());

    let (mut preferred, mut fallback) = SocketAddrs::new(vec![v6_addr, v4_addr])
        .split_by_preference(Some(ip_v4), Some(ip_v6));
    assert!(preferred.next().unwrap().is_ipv6());
    assert!(fallback.next().unwrap().is_ipv4());

    let (mut preferred, fallback) =
        SocketAddrs::new(vec![v4_addr, v6_addr]).split_by_preference(Some(ip_v4), None);
    assert!(preferred.next().unwrap().is_ipv4());
    assert!(fallback.is_empty());

    let (mut preferred, fallback) =
        SocketAddrs::new(vec![v4_addr, v6_addr]).split_by_preference(None, Some(ip_v6));
    assert!(preferred.next().unwrap().is_ipv6());
    assert!(fallback.is_empty());
}

#[test]
fn split_preserves_order_and_loses_nothing() {
    let a = sa6([0x2001, 0, 0, 0, 0, 0, 0, 1], 1);
    let b = sa4(10, 0, 0, 1, 2);
    let c = sa6([0xfe80, 0, 0, 0, 0, 0, 0, 2], 3);
    let d = sa4(10, 0, 0, 2, 4);
    let (preferred, fallback) =
        SocketAddrs::new(vec![a, b, c, d]).split_by_preference(None, None);
    assert_eq!(preferred.to_vec(), vec![a, c]);
    assert_eq!(fallback.to_vec(), vec![b, d]);
    assert_eq!(preferred.len() + fallback.len(), 4);
}

#[test]
fn single_family_pin_drops_other_family() {
    let a = sa6([0, 0, 0, 0, 0, 0, 0, 1], 80);
    let b = sa4(127, 0, 0, 1, 80);
    let c = sa4(10, 0, 0, 9, 80);
    let (preferred, fallback) =
        SocketAddrs::new(vec![a, b, c]).split_by_preference(Some(v4(192, 168, 0, 1)), None);
    assert_eq!(preferred.to_vec(), vec![b, c]);
    assert!(fallback.is_empty());
    assert_eq!(fallback.len(), 0);
}

#[test]
fn split_of_empty_sequence_is_empty() {
    let (preferred, fallback) = SocketAddrs::new(vec![]).split_by_preference(None, None);
    assert!(preferred.is_empty());
    assert!(fallback.is_empty());
}

#[test]
fn partition_of_platform_result_prefers_first_family() {
    // A platform lookup that returned [::1, 127.0.0.1].
    let got = vec![sa6([0, 0, 0, 0, 0, 0, 0, 1], 0), sa4(127, 0, 0, 1, 0)];
    let (preferred, fallback) = SocketAddrs::new(got.clone()).split_by_preference(None, None);
    assert_eq!(preferred.to_vec(), vec![got[0]]);
    assert_eq!(fallback.to_vec(), vec![got[1]]);

    // The same result with a pinned local IPv4 source address.
    let (preferred, fallback) =
        SocketAddrs::new(got).split_by_preference(Some(v4(192, 168, 1, 5)), None);
    assert_eq!(preferred.to_vec(), vec![sa4(127, 0, 0, 1, 0)]);
    assert!(fallback.is_empty());
}

#[test]
fn override_hit_returns_table_list_without_lookup() {
    let list = vec![sa4(1, 2, 3, 4, 0)];
    let resolver = CustomResolver::with_overrides(vec![("a.test".to_string(), list.clone())]);
    match resolver.resolve_step("a.test") {
        ResolveStep::Resolved(addrs) => assert_eq!(addrs.to_vec(), list),
        ResolveStep::NeedsLookup => panic!("override hit must not reach the platform"),
    }
}

#[test]
fn override_miss_needs_platform_lookup() {
    let resolver = CustomResolver::with_overrides(vec![(
        "a.test".to_string(),
        vec![sa4(1, 2, 3, 4, 0)],
    )]);
    assert!(matches!(resolver.resolve_step("b.test"), ResolveStep::NeedsLookup));
    assert!(matches!(
        CustomResolver::new().resolve_step("a.test"),
        ResolveStep::NeedsLookup
    ));
}

#[test]
fn override_match_is_exact_and_ordered() {
    let list = vec![sa4(1, 1, 1, 1, 0), sa6([0, 0, 0, 0, 0, 0, 0, 7], 0), sa4(2, 2, 2, 2, 0)];
    let resolver =
        CustomResolver::with_overrides(vec![("host.example".to_string(), list.clone())]);
    match resolver.resolve_step("host.example") {
        ResolveStep::Resolved(addrs) => assert_eq!(addrs.to_vec(), list),
        ResolveStep::NeedsLookup => panic!("expected the override"),
    }
    // No suffix or prefix matching.
    assert!(matches!(resolver.resolve_step("example"), ResolveStep::NeedsLookup));
    assert!(matches!(resolver.resolve_step("www.host.example"), ResolveStep::NeedsLookup));
}

#[test]
fn settle_passes_found_addresses_through_in_order() {
    let list = vec![sa6([0, 0, 0, 0, 0, 0, 0, 1], 0), sa4(127, 0, 0, 1, 0)];
    match settle(LookupOutcome::Found(list.clone())) {
        Settled::Ready(mut addrs) => {
            assert_eq!(addrs.next(), Some(list[0]));
            assert_eq!(addrs.next(), Some(list[1]));
            assert_eq!(addrs.next(), None);
        }
        _ => panic!("a found list must come through"),
    }
}

#[test]
fn settle_surfaces_platform_failure_unchanged() {
    match settle(LookupOutcome::Failed(
        "no such host nonexistent.invalid".to_string(),
    )) {
        Settled::Failure(ResolutionError::ResolutionFailure(msg)) => {
            assert_eq!(msg, "no such host nonexistent.invalid");
        }
        _ => panic!("an OS failure must surface as ResolutionFailure"),
    }
}

#[test]
fn settle_maps_cancellation_to_interrupted() {
    assert!(matches!(
        settle(LookupOutcome::Cancelled),
        Settled::Failure(ResolutionError::Interrupted)
    ));
}

#[test]
fn settle_treats_worker_crash_as_fatal() {
    assert!(matches!(
        settle(LookupOutcome::Crashed),
        Settled::Fatal
    ));
}

#[test]
fn invalid_name_error_message() {
    assert_eq!(
        resolver::InvalidNameError::new().message(),
        "Not a valid domain name"
    );
}

#[test]
fn earliest_override_entry_wins_for_repeated_hostname() {
    let first = vec![sa4(1, 1, 1, 1, 0)];
    let second = vec![sa4(2, 2, 2, 2, 0)];
    let resolver = CustomResolver::with_overrides(vec![
        ("dup.test".to_string(), first.clone()),
        ("dup.test".to_string(), second),
    ]);
    match resolver.resolve_step("dup.test") {
        ResolveStep::Resolved(addrs) => assert_eq!(addrs.to_vec(), first),
        ResolveStep::NeedsLookup => panic!("expected the override"),
    }
}

#[test]
fn empty_resolver_always_needs_lookup() {
    let resolver = CustomResolver::new();
    assert!(matches!(resolver.resolve_step(""), ResolveStep::NeedsLookup));
    assert!(matches!(resolver.resolve_step("localhost"), ResolveStep::NeedsLookup));
}
