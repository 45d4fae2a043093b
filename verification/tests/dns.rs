use wiretally::address::IpAddress;
use wiretally::dns::{Answer, Lookup, ReverseResolver};

fn loopback() -> IpAddress {
    IpAddress::V4([127, 0, 0, 1])
}

fn ptr(name: &str) -> Answer {
    Answer::Ptr(name.to_owned())
}

#[test]
fn disabled_resolver_returns_none() {
    let mut resolver = ReverseResolver::disabled();
    assert!(matches!(resolver.hostname(loopback()), Lookup::Known(None)));
    assert!(matches!(resolver.hostname(loopback()), Lookup::Known(None)));
}

#[test]
fn answers_are_cached_and_normalized() {
    let mut resolver = ReverseResolver::from_system(true);
    assert!(matches!(resolver.hostname(loopback()), Lookup::Ask));
    let answers = vec![Answer::Other, ptr("S3-1-W.amazonaws.com."), ptr("later")];
    assert_eq!(
        resolver.answered(loopback(), Some(answers)),
        Some("s3-1-w.amazonaws.com".to_owned())
    );
    match resolver.hostname(loopback()) {
        Lookup::Known(name) => assert_eq!(name.as_deref(), Some("s3-1-w.amazonaws.com")),
        Lookup::Ask => panic!("the name is known"),
    }
    assert!(matches!(resolver.hostname(IpAddress::V4([1, 1, 1, 1])), Lookup::Ask));
    let same_octets = [0, 0, 0, 0, 0, 0, 0, 0, 0, 0, 0, 0, 127, 0, 0, 1];
    assert!(matches!(resolver.hostname(IpAddress::V6(same_octets)), Lookup::Ask));
}

#[test]
fn answers_without_a_name_are_cached_as_such() {
    for answers in [
        None,
        Some(vec![]),
        Some(vec![Answer::Other]),
        Some(vec![ptr("."), ptr("second.example")]),
    ] {
        let mut resolver = ReverseResolver::from_system(true);
        assert_eq!(resolver.answered(loopback(), answers), None);
        assert!(matches!(resolver.hostname(loopback()), Lookup::Known(None)));
    }
}
