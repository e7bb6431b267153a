use gpui::display_link::{
    setup_step, teardown, DisplayLinkError, LinkSetup, SetupAction, SetupEvent,
};

#[test]
fn setup_with_live_pointers_ends_ready() {
    let (s, a) = setup_step(LinkSetup::AwaitingView, SetupEvent::View { is_null: false });
    assert_eq!((s, a), (LinkSetup::AwaitingTarget, Some(SetupAction::AllocateTarget)));
    let (s, a) = setup_step(s, SetupEvent::Target { is_null: false });
    assert_eq!((s, a), (LinkSetup::AwaitingLink, Some(SetupAction::RequestLink)));
    let (s, a) = setup_step(s, SetupEvent::Link { is_null: false });
    assert_eq!((s, a), (LinkSetup::Ready, Some(SetupAction::RetainScheduleAndPause)));
}

#[test]
fn null_view_fails_without_work() {
    let (s, a) = setup_step(LinkSetup::AwaitingView, SetupEvent::View { is_null: true });
    assert_eq!(s, LinkSetup::Failed(DisplayLinkError::NullView));
    assert_eq!(a, None);
    assert_eq!(DisplayLinkError::NullView.message(), "view pointer is null");
}

#[test]
fn null_target_fails_without_work() {
    let (s, a) = setup_step(LinkSetup::AwaitingTarget, SetupEvent::Target { is_null: true });
    assert_eq!(s, LinkSetup::Failed(DisplayLinkError::TargetNotAllocated));
    assert_eq!(a, None);
    assert_eq!(
        DisplayLinkError::TargetNotAllocated.message(),
        "could not allocate display-link target"
    );
}

#[test]
fn null_link_releases_target() {
    let (s, a) = setup_step(LinkSetup::AwaitingLink, SetupEvent::Link { is_null: true });
    assert_eq!(s, LinkSetup::Failed(DisplayLinkError::NullLink));
    assert_eq!(a, Some(SetupAction::ReleaseTarget));
    assert_eq!(
        DisplayLinkError::NullLink.message(),
        "NSView returned null display link (requires macOS 14+)"
    );
}

#[test]
fn out_of_order_event_changes_nothing() {
    let (s, a) = setup_step(LinkSetup::AwaitingView, SetupEvent::Link { is_null: false });
    assert_eq!((s, a), (LinkSetup::AwaitingView, None));
    let (s, a) = setup_step(LinkSetup::Ready, SetupEvent::View { is_null: true });
    assert_eq!((s, a), (LinkSetup::Ready, None));
}

#[test]
fn teardown_releases_what_exists() {
    let t = teardown(false, false);
    assert!(t.invalidate_and_release_link && t.release_target);
    let t = teardown(true, false);
    assert!(!t.invalidate_and_release_link && t.release_target);
    let t = teardown(false, true);
    assert!(t.invalidate_and_release_link && !t.release_target);
}
