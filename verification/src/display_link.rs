//! The decisions of a per-window display link (a CADisplayLink attached to
//! the window's view): which platform call comes next while the link is set
//! up, when setting up fails and what is released then, and what tearing the
//! link down releases. The platform calls themselves are made by the caller,
//! which reports back what each one returned.

use vstd::prelude::*;

verus! {

/// Why setting up a display link failed.
#[derive(PartialEq, Eq, Structural, Clone, Copy, Debug)]
pub enum DisplayLinkError {
    /// The view pointer handed in was null.
    NullView,
    /// The display-link target object could not be allocated.
    TargetNotAllocated,
    /// The view returned no display link (it needs macOS 14 or later).
    NullLink,
}

impl DisplayLinkError {
    /// The message the error is reported with.
    pub fn message(&self) -> (m: &'static str)
        ensures
            *self == DisplayLinkError::NullView ==> m@ == "view pointer is null"@,
            *self == DisplayLinkError::TargetNotAllocated ==> m@
                == "could not allocate display-link target"@,
            *self == DisplayLinkError::NullLink ==> m@
                == "NSView returned null display link (requires macOS 14+)"@,
    {
        match self {
            DisplayLinkError::NullView => "view pointer is null",
            DisplayLinkError::TargetNotAllocated => "could not allocate display-link target",
            DisplayLinkError::NullLink => "NSView returned null display link (requires macOS 14+)",
        }
    }
}

/// How far setting up a display link has come.
#[derive(PartialEq, Eq, Structural, Clone, Copy, Debug)]
pub enum LinkSetup {
    /// The view pointer has not been checked yet.
    AwaitingView,
    /// The view is valid; the target object is being allocated.
    AwaitingTarget,
    /// The target holds the callback; the view is being asked for a link.
    AwaitingLink,
    /// The link is retained, scheduled on the main run loop in the common
    /// modes, and paused until it is started.
    Ready,
    /// Setting up failed; nothing of it is left to release.
    Failed(DisplayLinkError),
}

/// What the platform reported for the step that was asked of it.
#[derive(PartialEq, Eq, Structural, Clone, Copy, Debug)]
pub enum SetupEvent {
    /// Whether the view pointer is null.
    View { is_null: bool },
    /// Whether allocating and initialising the target returned null.
    Target { is_null: bool },
    /// Whether the view returned a null display link.
    Link { is_null: bool },
}

/// The platform work to do next.
#[derive(PartialEq, Eq, Structural, Clone, Copy, Debug)]
pub enum SetupAction {
    /// Allocate and initialise the display-link target object.
    AllocateTarget,
    /// Store the data and callback in the target, then ask the view for a
    /// display link that fires the target's selector.
    RequestLink,
    /// Retain the link, add it to the main run loop in the common modes, and
    /// pause it.
    RetainScheduleAndPause,
    /// Release the target object: no link will ever hold it.
    ReleaseTarget,
}

/// The setup protocol as a table: the next state and the platform work that
/// an event calls for in a state. An event that does not answer the state's
/// pending step changes nothing and asks for nothing.
pub open spec fn setup_transition(state: LinkSetup, event: SetupEvent) -> (
    LinkSetup,
    Option<SetupAction>,
) {
    match (state, event) {
        (LinkSetup::AwaitingView, SetupEvent::View { is_null }) => if is_null {
            (LinkSetup::Failed(DisplayLinkError::NullView), None)
        } else {
            (LinkSetup::AwaitingTarget, Some(SetupAction::AllocateTarget))
        },
        (LinkSetup::AwaitingTarget, SetupEvent::Target { is_null }) => if is_null {
            (LinkSetup::Failed(DisplayLinkError::TargetNotAllocated), None)
        } else {
            (LinkSetup::AwaitingLink, Some(SetupAction::RequestLink))
        },
        (LinkSetup::AwaitingLink, SetupEvent::Link { is_null }) => if is_null {
            (LinkSetup::Failed(DisplayLinkError::NullLink), Some(SetupAction::ReleaseTarget))
        } else {
            (LinkSetup::Ready, Some(SetupAction::RetainScheduleAndPause))
        },
        _ => (state, None),
    }
}

/// Decides the next setup state and the platform work it calls for.
pub fn setup_step(state: LinkSetup, event: SetupEvent) -> (next: (LinkSetup, Option<SetupAction>))
    ensures
        next == setup_transition(state, event),
        state == LinkSetup::AwaitingView && event == (SetupEvent::View { is_null: true }) ==> next
            == (LinkSetup::Failed(DisplayLinkError::NullView), None::<SetupAction>),
        state == LinkSetup::AwaitingView && event == (SetupEvent::View { is_null: false }) ==> next
            == (LinkSetup::AwaitingTarget, Some(SetupAction::AllocateTarget)),
        state == LinkSetup::AwaitingTarget && event == (SetupEvent::Target { is_null: true })
            ==> next == (
            LinkSetup::Failed(DisplayLinkError::TargetNotAllocated),
            None::<SetupAction>,
        ),
        state == LinkSetup::AwaitingTarget && event == (SetupEvent::Target { is_null: false })
            ==> next == (LinkSetup::AwaitingLink, Some(SetupAction::RequestLink)),
        state == LinkSetup::AwaitingLink && event == (SetupEvent::Link { is_null: true }) ==> next
            == (LinkSetup::Failed(DisplayLinkError::NullLink), Some(SetupAction::ReleaseTarget)),
        state == LinkSetup::AwaitingLink && event == (SetupEvent::Link { is_null: false }) ==> next
            == (LinkSetup::Ready, Some(SetupAction::RetainScheduleAndPause)),
        state is Ready || state is Failed ==> next == (state, None::<SetupAction>),
{
    match (state, event) {
        (LinkSetup::AwaitingView, SetupEvent::View { is_null }) => if is_null {
            (LinkSetup::Failed(DisplayLinkError::NullView), None)
        } else {
            (LinkSetup::AwaitingTarget, Some(SetupAction::AllocateTarget))
        },
        (LinkSetup::AwaitingTarget, SetupEvent::Target { is_null }) => if is_null {
            (LinkSetup::Failed(DisplayLinkError::TargetNotAllocated), None)
        } else {
            (LinkSetup::AwaitingLink, Some(SetupAction::RequestLink))
        },
        (LinkSetup::AwaitingLink, SetupEvent::Link { is_null }) => if is_null {
            (LinkSetup::Failed(DisplayLinkError::NullLink), Some(SetupAction::ReleaseTarget))
        } else {
            (LinkSetup::Ready, Some(SetupAction::RetainScheduleAndPause))
        },
        _ => (state, None),
    }
}

/// What dropping a display link releases.
#[derive(PartialEq, Eq, Structural, Clone, Copy, Debug)]
pub struct Teardown {
    /// Invalidate the link (taking it off its run loop) and release it.
    pub invalidate_and_release_link: bool,
    /// Release the target object.
    pub release_target: bool,
}

/// What dropping a display link releases: each object that is not nil.
pub open spec fn teardown_plan(link_is_nil: bool, target_is_nil: bool) -> Teardown {
    Teardown { invalidate_and_release_link: !link_is_nil, release_target: !target_is_nil }
}

/// Decides what dropping a display link releases: each object that is not
/// nil, the link invalidated before it is released.
pub fn teardown(link_is_nil: bool, target_is_nil: bool) -> (t: Teardown)
    ensures
        t == teardown_plan(link_is_nil, target_is_nil),
        t.invalidate_and_release_link == !link_is_nil,
        t.release_target == !target_is_nil,
{
    Teardown { invalidate_and_release_link: !link_is_nil, release_target: !target_is_nil }
}

/// The change a step makes to the references held on the target: one is
/// gained when the allocation is reported non-null, one is given up by
/// releasing it.
pub open spec fn target_refs_delta(
    state: LinkSetup,
    event: SetupEvent,
    action: Option<SetupAction>,
) -> int {
    if state == LinkSetup::AwaitingTarget && event == (SetupEvent::Target { is_null: false }) {
        1
    } else if action == Some(SetupAction::ReleaseTarget) {
        -1
    } else {
        0
    }
}

/// The change an action makes to the references held on the link (the link
/// the view returns is not owned until it is retained).
pub open spec fn link_refs_delta(action: Option<SetupAction>) -> int {
    match action {
        Some(SetupAction::RetainScheduleAndPause) => 1,
        _ => 0,
    }
}

/// Runs the setup protocol from its start over `events`: the state reached
/// and the references then held on the target and on the link.
pub open spec fn run_setup(events: Seq<SetupEvent>) -> (LinkSetup, int, int)
    decreases events.len(),
{
    if events.len() == 0 {
        (LinkSetup::AwaitingView, 0, 0)
    } else {
        let (state, target_refs, link_refs) = run_setup(events.drop_last());
        let (next, action) = setup_transition(state, events.last());
        (
            next,
            target_refs + target_refs_delta(state, events.last(), action),
            link_refs + link_refs_delta(action),
        )
    }
}

/// The references a setup in `state` holds: the target once its allocation
/// is reported non-null, the link once it is retained; nothing once setting
/// up failed.
pub open spec fn refs_held(state: LinkSetup) -> (int, int) {
    match state {
        LinkSetup::AwaitingLink => (1, 0),
        LinkSetup::Ready => (1, 1),
        _ => (0, 0),
    }
}

/// Law: whatever the platform reports, in whatever order, the references
/// that setting up holds are exactly those its state says: never negative
/// (no double release), at most one each, none after a failure (no leak),
/// and one on each object once the link is ready.
pub proof fn setup_holds_what_its_state_says(events: Seq<SetupEvent>)
    ensures
        (run_setup(events).1, run_setup(events).2) == refs_held(run_setup(events).0),
    decreases events.len(),
{
    if events.len() > 0 {
        let prefix = events.drop_last();
        setup_holds_what_its_state_says(prefix);
        let (state, target_refs, link_refs) = run_setup(prefix);
        let (next, action) = setup_transition(state, events.last());
        assert(run_setup(events) == (
            next,
            target_refs + target_refs_delta(state, events.last(), action),
            link_refs + link_refs_delta(action),
        ));
        match state {
            LinkSetup::AwaitingView => {},
            LinkSetup::AwaitingTarget => {},
            LinkSetup::AwaitingLink => {},
            LinkSetup::Ready => {},
            LinkSetup::Failed(_) => {},
        }
    } else {
        assert(run_setup(events) == (LinkSetup::AwaitingView, 0int, 0int));
    }
}

/// Law: setting up and then dropping a link balances every reference: a
/// ready link holds one reference on each object, both objects are non-nil
/// (each was reported non-null), and dropping it releases each once.
/// Starting and stopping only pause and unpause the link.
pub proof fn setup_then_teardown_balances(events: Seq<SetupEvent>)
    requires
        run_setup(events).0 == LinkSetup::Ready,
    ensures
        ({
            let plan = teardown_plan(false, false);
            &&& run_setup(events).1 - (if plan.release_target {
                1int
            } else {
                0
            }) == 0
            &&& run_setup(events).2 - (if plan.invalidate_and_release_link {
                1int
            } else {
                0
            }) == 0
        }),
{
    setup_holds_what_its_state_says(events);
}

/// Law: with a valid view, an allocated target and a returned link, setup
/// goes through its three steps and ends with the link ready (retained,
/// scheduled and paused).
pub proof fn setup_with_live_pointers_ends_ready()
    ensures
        setup_transition(LinkSetup::AwaitingView, SetupEvent::View { is_null: false }) == (
            LinkSetup::AwaitingTarget,
            Some(SetupAction::AllocateTarget),
        ),
        setup_transition(LinkSetup::AwaitingTarget, SetupEvent::Target { is_null: false }) == (
            LinkSetup::AwaitingLink,
            Some(SetupAction::RequestLink),
        ),
        setup_transition(LinkSetup::AwaitingLink, SetupEvent::Link { is_null: false }) == (
            LinkSetup::Ready,
            Some(SetupAction::RetainScheduleAndPause),
        ),
{
}

/// Law: a target object is allocated only in a step whose failure releases
/// it: once the target exists, the setup either ends ready or releases the
/// target as it fails.
pub proof fn allocated_target_is_never_leaked(event: SetupEvent)
    ensures
        ({
            let (next, action) = setup_transition(LinkSetup::AwaitingLink, event);
            next is Failed ==> action == Some(SetupAction::ReleaseTarget)
        }),
        forall|state: LinkSetup|
            #![trigger setup_transition(state, event)]
            state != LinkSetup::AwaitingLink && setup_transition(state, event).0 is Failed
                ==> setup_transition(state, event).1 != Some(SetupAction::ReleaseTarget),
{
}

/// Law: ready and failed setups are final: no event changes them or asks for
/// more platform work.
pub proof fn finished_setup_is_final(state: LinkSetup, event: SetupEvent)
    requires
        state is Ready || state is Failed,
    ensures
        setup_transition(state, event) == (state, None::<SetupAction>),
{
}

} // verus!
