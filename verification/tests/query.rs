use discovery::authority::DnsNameAndPort;
use discovery::pb::PbUpdate;
use discovery::query::{connect_maybe, request_for, RxError, RxEvent, RxPoll, UpdateRx};

fn poll(event: RxEvent<&'static str, u8>) -> RxPoll<&'static str, u8> {
    UpdateRx::poll(event)
}

#[test]
fn response_switches_to_streaming() {
    assert!(matches!(poll(RxEvent::Response(7)), RxPoll::Again(UpdateRx::Streaming(7))));
}

#[test]
fn response_that_is_not_ready_is_kept() {
    assert!(matches!(
        poll(RxEvent::ResponseNotReady("w")),
        RxPoll::NotReady(UpdateRx::Waiting("w"))
    ));
}

#[test]
fn stream_hands_out_updates_until_it_ends() {
    assert!(matches!(
        poll(RxEvent::Item(7, PbUpdate { update: None })),
        RxPoll::Ready(UpdateRx::Streaming(7), PbUpdate { update: None })
    ));
    assert!(matches!(poll(RxEvent::StreamNotReady(7)), RxPoll::NotReady(UpdateRx::Streaming(7))));
    assert!(matches!(poll(RxEvent::StreamEnded), RxPoll::Ended));
}

#[test]
fn errors_say_where_they_came_from() {
    assert!(matches!(poll(RxEvent::ResponseFailed), RxPoll::Failed(RxError::Future)));
    assert!(matches!(poll(RxEvent::StreamFailed), RxPoll::Failed(RxError::Stream)));
}

#[test]
fn request_names_scheme_and_path() {
    let request = request_for(Some("web.prod.svc.cluster.local".to_string())).unwrap();
    assert_eq!(request.scheme, "k8s");
    assert_eq!(request.path, "web.prod.svc.cluster.local");
    assert!(request_for(None).is_none());
}

#[test]
fn authority_is_normalized_in_the_default_namespace() {
    let authority = DnsNameAndPort { host: "web".to_string(), port: 80 };
    let normalize = |a: &DnsNameAndPort, ns: &str| {
        if a.host == "web" {
            Some(format!("{}.{}.svc:{}", a.host, ns, a.port))
        } else {
            None
        }
    };
    let request = connect_maybe("prod", &authority, &normalize).unwrap();
    assert_eq!(request.path, "web.prod.svc:80");
    let other = DnsNameAndPort { host: "example.com".to_string(), port: 80 };
    assert!(connect_maybe("prod", &other, &normalize).is_none());
    assert!(authority.same_as(&authority.clone()));
    assert!(!authority.same_as(&other));
    assert!(!authority.same_as(&DnsNameAndPort { host: "web".to_string(), port: 81 }));
}
