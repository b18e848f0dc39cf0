//! The selection session of the overlay: what a drag over the frame selects,
//! when the selection is final, and what the overlay shows meanwhile.

use vstd::prelude::*;
use crate::geometry::{Point, SelectionRect};

verus! {

/// Where a selection session stands.
#[derive(Clone, Copy, Debug, PartialEq, Eq, Structural)]
pub enum SelectionState {
    /// No drag has begun.
    Idle,
    /// A drag has begun and has not been released.
    Dragging,
    /// The drag was released; the rectangle is fixed.
    Finalized(SelectionRect),
}

/// What the overlay surface reports to the session.
#[derive(Clone, Copy, Debug, PartialEq, Eq, Structural)]
pub enum OverlayEvent {
    /// The pointer was pressed at a position.
    PointerDown(Point),
    /// The pointer was dragged to a position.
    PointerMove(Point),
    /// The pointer was dragged to where the surface reports no position.
    PointerGone,
    /// The pointer was released.
    PointerUp,
    /// The Escape key was pressed.
    Escape,
}

/// What the overlay has to do after an event.
#[derive(Clone, Copy, Debug, PartialEq, Eq, Structural)]
pub enum OverlayAction {
    /// Keep rendering.
    Continue,
    /// Crop the frame to the rectangle, publish it, and close.
    Publish(SelectionRect),
    /// Close without publishing.
    Close,
}

/// A rectangle of the overlay surface, by its edges.
#[derive(Clone, Copy, Debug, PartialEq, Eq, Structural)]
pub struct Region {
    pub left: i64,
    pub top: i64,
    pub right: i64,
    pub bottom: i64,
}

/// What the overlay draws over the frame.
#[derive(Clone, Copy, Debug, PartialEq, Eq, Structural)]
pub enum OverlayLayout {
    /// One translucent wash over the whole surface.
    Wash { screen: Region },
    /// The surface dimmed around the live rectangle, which is outlined and
    /// labelled with its size above its top-left corner.
    Selection {
        above: Region,
        below: Region,
        left: Region,
        right: Region,
        outline: SelectionRect,
        label_width: i64,
        label_height: i64,
        label_anchor: Point,
    },
}

/// The overlay's selection session over one captured frame.
#[derive(Debug)]
pub struct SnipOverlay {
    pub screenshot_data: Vec<u8>,
    pub width: u32,
    pub height: u32,
    pub start_pos: Option<Point>,
    pub current_pos: Option<Point>,
    pub selected_rect: Option<SelectionRect>,
    pub cancelled: bool,
}

impl SnipOverlay {
    /// What the fields of a session promise one another: a position under the
    /// pointer is known only once a drag has begun, a final rectangle spans
    /// the two recorded corners, and a cancelled session has none.
    pub open spec fn well_formed(self) -> bool {
        &&& self.current_pos is Some ==> self.start_pos is Some
        &&& self.selected_rect matches Some(rect) ==> {
            &&& self.start_pos is Some
            &&& self.current_pos is Some
            &&& rect == SelectionRect::spanning(self.start_pos->0, self.current_pos->0)
            &&& !self.cancelled
        }
    }

    /// Where the session stands.
    pub open spec fn spec_state(self) -> SelectionState {
        match self.selected_rect {
            Some(rect) => SelectionState::Finalized(rect),
            None => if self.start_pos is Some {
                SelectionState::Dragging
            } else {
                SelectionState::Idle
            },
        }
    }

    /// Whether the session still takes pointer events: it is neither final
    /// nor cancelled.
    pub open spec fn open(self) -> bool {
        self.selected_rect is None && !self.cancelled
    }

    /// Whether `p` lies on the overlay surface, its edges included.
    pub open spec fn on_surface(self, p: Point) -> bool {
        0 <= p.x <= self.width && 0 <= p.y <= self.height
    }

    /// The session after `event`.
    pub open spec fn next(self, event: OverlayEvent) -> SnipOverlay {
        match event {
            OverlayEvent::Escape => SnipOverlay {
                cancelled: self.selected_rect is None,
                ..self
            },
            OverlayEvent::PointerDown(p) => if self.open() && self.on_surface(p) {
                SnipOverlay { start_pos: Some(p), ..self }
            } else {
                self
            },
            OverlayEvent::PointerMove(p) => if self.open() && self.start_pos is Some {
                SnipOverlay { current_pos: Some(p), ..self }
            } else {
                self
            },
            OverlayEvent::PointerGone => if self.open() {
                SnipOverlay { current_pos: None, ..self }
            } else {
                self
            },
            OverlayEvent::PointerUp => if self.open() && self.start_pos is Some
                && self.current_pos is Some {
                SnipOverlay {
                    selected_rect: Some(
                        SelectionRect::spanning(self.start_pos->0, self.current_pos->0),
                    ),
                    ..self
                }
            } else {
                self
            },
        }
    }

    /// What the overlay has to do after `event`.
    pub open spec fn action(self, event: OverlayEvent) -> OverlayAction {
        match event {
            OverlayEvent::Escape => OverlayAction::Close,
            OverlayEvent::PointerUp => if self.open() && self.start_pos is Some
                && self.current_pos is Some {
                OverlayAction::Publish(
                    SelectionRect::spanning(self.start_pos->0, self.current_pos->0),
                )
            } else {
                OverlayAction::Continue
            },
            _ => OverlayAction::Continue,
        }
    }

    /// A session over the frame `screenshot_data` of `width` by `height`
    /// pixels, with no drag begun.
    pub fn new(screenshot_data: Vec<u8>, width: u32, height: u32) -> (overlay: SnipOverlay)
        ensures
            overlay == (SnipOverlay {
                screenshot_data,
                width,
                height,
                start_pos: None,
                current_pos: None,
                selected_rect: None,
                cancelled: false,
            }),
            overlay.well_formed(),
            overlay.spec_state() == SelectionState::Idle,
    {
        SnipOverlay {
            screenshot_data,
            width,
            height,
            start_pos: None,
            current_pos: None,
            selected_rect: None,
            cancelled: false,
        }
    }

    /// Where the session stands.
    pub fn state(&self) -> (s: SelectionState)
        ensures
            s == self.spec_state(),
    {
        match self.selected_rect {
            Some(rect) => SelectionState::Finalized(rect),
            None => if self.start_pos.is_some() {
                SelectionState::Dragging
            } else {
                SelectionState::Idle
            },
        }
    }

    /// Takes one event from the overlay surface and says what to do next.
    ///
    /// A pointer-down on the surface records the start of the drag, a
    /// pointer-move the position under the pointer, wherever that is, and a
    /// pointer-up with both recorded fixes the rectangle and asks for it to
    /// be published. A pointer that is gone leaves no position under it, so
    /// that a release then fixes nothing. Escape asks to close,
    /// and cancels a session that is not final. A final or cancelled session
    /// takes no pointer event.
    pub fn handle(&mut self, event: OverlayEvent) -> (action: OverlayAction)
        ensures
            *final(self) == old(self).next(event),
            action == old(self).action(event),
            old(self).well_formed() ==> final(self).well_formed(),
    {
        let live = self.selected_rect.is_none() && !self.cancelled;
        match event {
            OverlayEvent::Escape => {
                self.cancelled = self.selected_rect.is_none();
                OverlayAction::Close
            },
            OverlayEvent::PointerDown(p) => {
                if live && p.x >= 0 && p.y >= 0 && p.x as i64 <= self.width as i64 && p.y as i64
                    <= self.height as i64 {
                    self.start_pos = Some(p);
                }
                OverlayAction::Continue
            },
            OverlayEvent::PointerMove(p) => {
                if live && self.start_pos.is_some() {
                    self.current_pos = Some(p);
                }
                OverlayAction::Continue
            },
            OverlayEvent::PointerGone => {
                if live {
                    self.current_pos = None;
                }
                OverlayAction::Continue
            },
            OverlayEvent::PointerUp => {
                if !live {
                    return OverlayAction::Continue;
                }
                match (self.start_pos, self.current_pos) {
                    (Some(start), Some(current)) => {
                        let rect = SelectionRect::from_two_pos(start, current);
                        self.selected_rect = Some(rect);
                        OverlayAction::Publish(rect)
                    },
                    _ => OverlayAction::Continue,
                }
            },
        }
    }
    /// What the overlay draws: a wash until both corners of a drag are known,
    /// then the surface dimmed above, below, left and right of the live
    /// rectangle, with the rectangle's size as its label.
    pub open spec fn spec_layout(self) -> OverlayLayout {
        if self.start_pos is Some && self.current_pos is Some {
            let sel = SelectionRect::spanning(self.start_pos->0, self.current_pos->0);
            OverlayLayout::Selection {
                above: Region { left: 0, top: 0, right: self.width as i64, bottom: sel.min.y as i64 },
                below: Region {
                    left: 0,
                    top: sel.max.y as i64,
                    right: self.width as i64,
                    bottom: self.height as i64,
                },
                left: Region {
                    left: 0,
                    top: sel.min.y as i64,
                    right: sel.min.x as i64,
                    bottom: sel.max.y as i64,
                },
                right: Region {
                    left: sel.max.x as i64,
                    top: sel.min.y as i64,
                    right: self.width as i64,
                    bottom: sel.max.y as i64,
                },
                outline: sel,
                label_width: sel.spec_width() as i64,
                label_height: sel.spec_height() as i64,
                label_anchor: sel.min,
            }
        } else {
            OverlayLayout::Wash {
                screen: Region { left: 0, top: 0, right: self.width as i64, bottom: self.height as i64 },
            }
        }
    }

    /// What the overlay draws for the session as it stands.
    pub fn layout(&self) -> (l: OverlayLayout)
        ensures
            l == self.spec_layout(),
    {
        let w: i64 = self.width as i64;
        let h: i64 = self.height as i64;
        match (self.start_pos, self.current_pos) {
            (Some(start), Some(current)) => {
                let sel = SelectionRect::from_two_pos(start, current);
                let top: i64 = sel.min.y as i64;
                let bottom: i64 = sel.max.y as i64;
                OverlayLayout::Selection {
                    above: Region { left: 0, top: 0, right: w, bottom: top },
                    below: Region { left: 0, top: bottom, right: w, bottom: h },
                    left: Region { left: 0, top, right: sel.min.x as i64, bottom },
                    right: Region { left: sel.max.x as i64, top, right: w, bottom },
                    outline: sel,
                    label_width: sel.width(),
                    label_height: sel.height(),
                    label_anchor: sel.min,
                }
            },
            _ => OverlayLayout::Wash { screen: Region { left: 0, top: 0, right: w, bottom: h } },
        }
    }

    /// The session after a run of events, taken in order.
    pub open spec fn run(self, events: Seq<OverlayEvent>) -> SnipOverlay
        decreases events.len(),
    {
        if events.len() == 0 {
            self
        } else {
            self.run(events.drop_last()).next(events.last())
        }
    }

    /// How often a run of events asks for a publication.
    pub open spec fn publications(self, events: Seq<OverlayEvent>) -> nat
        decreases events.len(),
    {
        if events.len() == 0 {
            0
        } else {
            let earlier = self.publications(events.drop_last());
            if self.run(events.drop_last()).action(events.last()) is Publish {
                earlier + 1
            } else {
                earlier
            }
        }
    }
}

/// Whatever events arrive, and however often a release is repeated, a session
/// asks for a publication at most once; once it has, or once it is cancelled,
/// it takes no further pointer event; and a session that was final or
/// cancelled to begin with asks for none.
pub proof fn lemma_publishes_at_most_once(s: SnipOverlay, events: Seq<OverlayEvent>)
    ensures
        s.publications(events) <= 1,
        s.publications(events) == 1 ==> !s.run(events).open(),
        !s.open() ==> s.publications(events) == 0 && !s.run(events).open(),
    decreases events.len(),
{
    if events.len() > 0 {
        lemma_publishes_at_most_once(s, events.drop_last());
    }
}

/// A release that follows a release asks for nothing.
pub proof fn lemma_second_release_is_ignored(s: SnipOverlay)
    ensures
        s.next(OverlayEvent::PointerUp).action(OverlayEvent::PointerUp) == OverlayAction::Continue,
        s.next(OverlayEvent::PointerUp).next(OverlayEvent::PointerUp) == s.next(
            OverlayEvent::PointerUp,
        ),
{
}

/// Escape on a session that is not final cancels it: no run of events after
/// it asks for a publication or makes the session final.
pub proof fn lemma_cancel_is_final(s: SnipOverlay, events: Seq<OverlayEvent>)
    requires
        s.selected_rect is None,
    ensures
        s.action(OverlayEvent::Escape) == OverlayAction::Close,
        s.next(OverlayEvent::Escape).publications(events) == 0,
        s.next(OverlayEvent::Escape).run(events).selected_rect is None,
        s.next(OverlayEvent::Escape).run(events).cancelled,
    decreases events.len(),
{
    if events.len() > 0 {
        lemma_cancel_is_final(s, events.drop_last());
    }
}

/// No event leaves the final state or changes the final rectangle.
pub proof fn lemma_finalized_stays(s: SnipOverlay, events: Seq<OverlayEvent>)
    requires
        s.selected_rect is Some,
        !s.cancelled,
    ensures
        s.run(events) == s,
    decreases events.len(),
{
    if events.len() > 0 {
        lemma_finalized_stays(s, events.drop_last());
    }
}

/// A run of events keeps a session well-formed.
pub proof fn lemma_run_keeps_well_formed(s: SnipOverlay, events: Seq<OverlayEvent>)
    requires
        s.well_formed(),
    ensures
        s.run(events).well_formed(),
    decreases events.len(),
{
    if events.len() > 0 {
        lemma_run_keeps_well_formed(s, events.drop_last());
    }
}

/// A press at `a`, a move to `b` and a release fix the same rectangle as a
/// press at `b`, a move to `a` and a release, for two points on the surface.
pub proof fn lemma_drag_direction_is_irrelevant(s: SnipOverlay, a: Point, b: Point)
    requires
        s.open(),
        s.on_surface(a),
        s.on_surface(b),
    ensures
        s.next(OverlayEvent::PointerDown(a)).next(OverlayEvent::PointerMove(b)).action(
            OverlayEvent::PointerUp,
        ) == OverlayAction::Publish(SelectionRect::spanning(a, b)),
        s.next(OverlayEvent::PointerDown(b)).next(OverlayEvent::PointerMove(a)).action(
            OverlayEvent::PointerUp,
        ) == OverlayAction::Publish(SelectionRect::spanning(a, b)),
{
}

} // verus!
