use hot_reload::router::{Effect, ProxyEvent, WinitProxy};
use hot_reload::start;

type Router = WinitProxy<u32, &'static str, &'static str, &'static str>;

#[test]
fn cold_start_replays_buffered_events_in_order() {
    let mut router: Router = start(7);
    let effects = router.resumed();
    assert!(matches!(effects[..], [Effect::Construct(7)]));
    assert!(router.window_event("MouseScroll").is_empty());
    assert!(router.window_event("KeyPress").is_empty());
    let effects = router.user_event(ProxyEvent::Init("app"));
    assert!(matches!(
        effects[..],
        [Effect::Resumed, Effect::Window("MouseScroll"), Effect::Window("KeyPress")]
    ));
    assert!(matches!(router, WinitProxy::Init("app")));
    let effects = router.window_event("MouseMove");
    assert!(matches!(effects[..], [Effect::Window("MouseMove")]));
    let effects = router.user_event(ProxyEvent::Event("asset"));
    assert!(matches!(effects[..], [Effect::User("asset")]));
}

#[test]
fn replay_puts_window_events_before_user_events() {
    let mut router: Router = start(1);
    router.resumed();
    assert!(router.user_event(ProxyEvent::Event("u1")).is_empty());
    assert!(router.window_event("w1").is_empty());
    assert!(router.user_event(ProxyEvent::Event("u2")).is_empty());
    assert!(router.window_event("w2").is_empty());
    let effects = router.user_event(ProxyEvent::Init("app"));
    assert!(matches!(
        effects[..],
        [
            Effect::Resumed,
            Effect::Window("w1"),
            Effect::Window("w2"),
            Effect::User("u1"),
            Effect::User("u2")
        ]
    ));
}

#[test]
fn repeated_activation_constructs_once() {
    let mut router: Router = start(3);
    assert!(matches!(router.resumed()[..], [Effect::Construct(3)]));
    assert!(router.resumed().is_empty());
    assert!(router.resumed().is_empty());
    assert!(matches!(router, WinitProxy::Waiting { .. }));
    let effects = router.user_event(ProxyEvent::Init("app"));
    assert!(matches!(effects[..], [Effect::Resumed]));
    assert!(matches!(router.resumed()[..], [Effect::Resumed]));
}

#[test]
fn second_application_is_ignored() {
    let mut router: Router = start(3);
    router.resumed();
    router.user_event(ProxyEvent::Init("first"));
    let effects = router.user_event(ProxyEvent::Init("second"));
    assert!(effects.is_empty());
    assert!(matches!(router, WinitProxy::Init("first")));
}

#[test]
fn events_before_activation_are_dropped() {
    let mut router: Router = start(3);
    assert!(router.window_event("early").is_empty());
    assert!(router.user_event(ProxyEvent::Event("early")).is_empty());
    assert!(router.user_event(ProxyEvent::Init("app")).is_empty());
    assert!(matches!(router, WinitProxy::Uninit(3)));
    router.resumed();
    let effects = router.user_event(ProxyEvent::Init("app"));
    assert!(matches!(effects[..], [Effect::Resumed]));
}

#[test]
fn lifecycle_notifications_reach_only_an_installed_application() {
    let mut router: Router = start(3);
    assert_eq!(router.lifecycle("suspend"), None);
    router.resumed();
    assert_eq!(router.lifecycle("suspend"), None);
    router.user_event(ProxyEvent::Init("app"));
    assert_eq!(router.lifecycle("suspend"), Some("suspend"));
    assert_eq!(router.lifecycle(42u8), Some(42));
}
