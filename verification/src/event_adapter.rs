//! One gesture at a time out of the events of a mouse and of many fingers.
//!
//! The pointer that begins a gesture owns it until it ends or is
//! cancelled: what the other pointers do meanwhile is passed over. The
//! adapter takes each event as plain values and answers with what is to be
//! sent on to its delegate, if anything.

use vstd::prelude::*;
use crate::point::Point;

verus! {

/// The phase of a gesture that an event stands for.
#[derive(Debug, Clone, Copy, PartialEq, Eq)]
pub enum TouchState {
    Began,
    Changed,
    Ended,
    Cancelled,
}

/// What a delegate is told of an event.
#[derive(Debug, Clone, Copy, PartialEq, Eq)]
pub struct EventSender {
    /// The phase of the gesture.
    pub state: TouchState,
    /// Where the pointer is.
    pub position: Point,
    /// How far the pointer is from where the gesture began.
    pub translation: Point,
}

/// The identifier under which the mouse owns a gesture.
pub const MOUSE_EVENT_ID: i32 = i32::MIN;

/// The first of the touches that a touch event reports as changed.
#[derive(Debug, Clone, Copy, PartialEq, Eq)]
pub struct Touch {
    pub identifier: i32,
    pub position: Point,
}

/// The pointer that owns the gesture in progress.
#[derive(Debug, Clone, Copy, PartialEq, Eq)]
pub struct ActiveTouch {
    /// The identifier of the pointer.
    pub identifier: i32,
    /// Where the gesture began.
    pub began_position: Point,
}

/// Tells the phases of one gesture from the events of all pointers.
#[derive(Debug)]
pub struct EventAdapter {
    active: Option<ActiveTouch>,
}

/// What a delegate is told of the pointer at `position` in a gesture that
/// began at `began_position`.
pub open spec fn notification(state: TouchState, position: Point, began_position: Point)
    -> EventSender {
    EventSender { state, position, translation: position.spec_minus(began_position) }
}

/// The adapter and the notification after the pointer `identifier` went
/// down at `position`: a gesture begins unless one is in progress.
pub open spec fn after_start(active: Option<ActiveTouch>, identifier: i32, position: Point) -> (
    Option<ActiveTouch>,
    Option<EventSender>,
) {
    match active {
        Some(_) => (active, None),
        None => (
            Some(ActiveTouch { identifier, began_position: position }),
            Some(notification(TouchState::Began, position, position)),
        ),
    }
}

/// The notification after the pointer `identifier` moved to `position`:
/// the gesture changes if the pointer owns it.
pub open spec fn after_move(active: Option<ActiveTouch>, identifier: i32, position: Point)
    -> Option<EventSender> {
    match active {
        Some(owner) if owner.identifier == identifier => Some(
            notification(TouchState::Changed, position, owner.began_position),
        ),
        _ => None,
    }
}

/// The adapter and the notification after the pointer `identifier` went up
/// or was lost at `position`: the gesture ends with `state` if the pointer
/// owns it.
pub open spec fn after_finish(
    active: Option<ActiveTouch>,
    identifier: i32,
    position: Point,
    state: TouchState,
) -> (Option<ActiveTouch>, Option<EventSender>) {
    match active {
        Some(owner) if owner.identifier == identifier => (
            None,
            Some(notification(state, position, owner.began_position)),
        ),
        _ => (active, None),
    }
}

/// How a gesture ends: `Ended` where the pointer was lifted, `Cancelled`
/// where it was lost.
pub open spec fn final_state(lifted: bool) -> TouchState {
    if lifted {
        TouchState::Ended
    } else {
        TouchState::Cancelled
    }
}

impl View for EventAdapter {
    type V = Option<ActiveTouch>;

    /// The pointer that owns the gesture in progress, if there is one.
    closed spec fn view(&self) -> Option<ActiveTouch> {
        self.active
    }
}

impl EventAdapter {
    /// An adapter with no gesture in progress.
    pub fn new() -> (adapter: Self)
        ensures
            adapter@ is None,
    {
        EventAdapter { active: None }
    }

    /// The pointer that owns the gesture in progress, if there is one.
    pub fn active_touch(&self) -> (active: Option<ActiveTouch>)
        ensures
            active == self@,
    {
        self.active
    }

    /// The mouse button went down at `position`.
    pub fn send_mouse_down(&mut self, position: Point) -> (sent: Option<EventSender>)
        ensures
            (final(self)@, sent) == after_start(old(self)@, MOUSE_EVENT_ID, position),
    {
        self.start(MOUSE_EVENT_ID, position)
    }

    /// The mouse moved to `position`.
    pub fn send_mouse_move(&self, position: Point) -> (sent: Option<EventSender>)
        ensures
            sent == after_move(self@, MOUSE_EVENT_ID, position),
    {
        self.change(MOUSE_EVENT_ID, position)
    }

    /// The mouse button went up at `position`.
    pub fn send_mouse_up(&mut self, position: Point) -> (sent: Option<EventSender>)
        ensures
            (final(self)@, sent) == after_finish(
                old(self)@,
                MOUSE_EVENT_ID,
                position,
                TouchState::Ended,
            ),
    {
        self.send_mouse_up_or_cancel(position, true)
    }

    /// The mouse left the view at `position`.
    pub fn send_mouse_leave(&mut self, position: Point) -> (sent: Option<EventSender>)
        ensures
            (final(self)@, sent) == after_finish(
                old(self)@,
                MOUSE_EVENT_ID,
                position,
                TouchState::Cancelled,
            ),
    {
        self.send_mouse_up_or_cancel(position, false)
    }

    fn send_mouse_up_or_cancel(&mut self, position: Point, is_up: bool) -> (sent: Option<
        EventSender,
    >)
        ensures
            (final(self)@, sent) == after_finish(
                old(self)@,
                MOUSE_EVENT_ID,
                position,
                final_state(is_up),
            ),
    {
        self.finish(MOUSE_EVENT_ID, position, is_up)
    }

    /// A finger went down; `touch` is the first touch that the event
    /// reports as changed, if it reports any.
    pub fn send_touch_start(&mut self, touch: Option<Touch>) -> (sent: Option<EventSender>)
        ensures
            touch is None ==> sent is None && final(self)@ == old(self)@,
            touch is Some ==> (final(self)@, sent) == after_start(
                old(self)@,
                touch->Some_0.identifier,
                touch->Some_0.position,
            ),
    {
        match touch {
            Some(touch) => self.start(touch.identifier, touch.position),
            None => None,
        }
    }

    /// A finger moved; `touch` is the first touch that the event reports
    /// as changed, if it reports any.
    pub fn send_touch_move(&self, touch: Option<Touch>) -> (sent: Option<EventSender>)
        ensures
            touch is None ==> sent is None,
            touch is Some ==> sent == after_move(
                self@,
                touch->Some_0.identifier,
                touch->Some_0.position,
            ),
    {
        match touch {
            Some(touch) => self.change(touch.identifier, touch.position),
            None => None,
        }
    }

    /// A finger was lifted; `touch` is the first touch that the event
    /// reports as changed, if it reports any.
    pub fn send_touch_end(&mut self, touch: Option<Touch>) -> (sent: Option<EventSender>)
        ensures
            touch is None ==> sent is None && final(self)@ == old(self)@,
            touch is Some ==> (final(self)@, sent) == after_finish(
                old(self)@,
                touch->Some_0.identifier,
                touch->Some_0.position,
                TouchState::Ended,
            ),
    {
        self.send_touch_end_or_cancel(touch, true)
    }

    /// A finger was lost; `touch` is the first touch that the event reports
    /// as changed, if it reports any.
    pub fn send_touch_cancel(&mut self, touch: Option<Touch>) -> (sent: Option<EventSender>)
        ensures
            touch is None ==> sent is None && final(self)@ == old(self)@,
            touch is Some ==> (final(self)@, sent) == after_finish(
                old(self)@,
                touch->Some_0.identifier,
                touch->Some_0.position,
                TouchState::Cancelled,
            ),
    {
        self.send_touch_end_or_cancel(touch, false)
    }

    fn send_touch_end_or_cancel(&mut self, touch: Option<Touch>, is_end: bool) -> (sent: Option<
        EventSender,
    >)
        ensures
            touch is None ==> sent is None && final(self)@ == old(self)@,
            touch is Some ==> (final(self)@, sent) == after_finish(
                old(self)@,
                touch->Some_0.identifier,
                touch->Some_0.position,
                final_state(is_end),
            ),
    {
        match touch {
            Some(touch) => self.finish(touch.identifier, touch.position, is_end),
            None => None,
        }
    }

    fn start(&mut self, identifier: i32, position: Point) -> (sent: Option<EventSender>)
        ensures
            (final(self)@, sent) == after_start(old(self)@, identifier, position),
    {
        if self.active.is_some() {
            return None;
        }
        self.active = Some(ActiveTouch { identifier, began_position: position });
        Some(Self::notify_delegate(TouchState::Began, position, position))
    }

    fn change(&self, identifier: i32, position: Point) -> (sent: Option<EventSender>)
        ensures
            sent == after_move(self@, identifier, position),
    {
        match self.active {
            Some(owner) => {
                if owner.identifier != identifier {
                    return None;
                }
                Some(Self::notify_delegate(TouchState::Changed, position, owner.began_position))
            },
            None => None,
        }
    }

    fn finish(&mut self, identifier: i32, position: Point, lifted: bool) -> (sent: Option<
        EventSender,
    >)
        ensures
            (final(self)@, sent) == after_finish(
                old(self)@,
                identifier,
                position,
                final_state(lifted),
            ),
    {
        match self.active {
            Some(owner) => {
                if owner.identifier != identifier {
                    return None;
                }
                let state = if lifted {
                    TouchState::Ended
                } else {
                    TouchState::Cancelled
                };
                self.active = None;
                Some(Self::notify_delegate(state, position, owner.began_position))
            },
            None => None,
        }
    }

    fn notify_delegate(state: TouchState, position: Point, began_position: Point) -> (sent:
        EventSender)
        ensures
            sent == notification(state, position, began_position),
    {
        EventSender { state, position, translation: position.minus(began_position) }
    }
}

impl Default for EventAdapter {
    fn default() -> (adapter: Self)
        ensures
            adapter@ is None,
    {
        EventAdapter::new()
    }
}

/// While a gesture is in progress, the events of every other pointer
/// change nothing and tell the delegate nothing.
pub proof fn lemma_gesture_has_one_owner(
    owner: ActiveTouch,
    identifier: i32,
    position: Point,
    state: TouchState,
)
    requires
        identifier != owner.identifier,
    ensures
        after_start(Some(owner), identifier, position) == (Some(owner), None::<EventSender>),
        after_move(Some(owner), identifier, position) is None,
        after_finish(Some(owner), identifier, position, state) == (Some(owner), None::<EventSender>),
{
}

/// A delegate hears of a beginning only when no gesture is in progress,
/// and of a change or an end only from the pointer that began the gesture.
pub proof fn lemma_phases_follow_in_order(
    active: Option<ActiveTouch>,
    identifier: i32,
    position: Point,
    state: TouchState,
)
    ensures
        after_start(active, identifier, position).1 is Some <==> active is None,
        after_move(active, identifier, position) is Some <==> active is Some
            && active->Some_0.identifier == identifier,
        after_finish(active, identifier, position, state).1 is Some <==> active is Some
            && active->Some_0.identifier == identifier,
        after_finish(active, identifier, position, state).1 is Some ==> after_finish(
            active,
            identifier,
            position,
            state,
        ).0 is None,
{
}

} // verus!
