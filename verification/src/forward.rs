//! Forwarding this machine's input: who gets it, what this machine withholds from itself,
//! and what is sent.
//!
//! Each captured event, and each idle tick, is one [`Forwarder::step`]: it takes what was
//! observed and what the fleet looks like, and gives back what to do. Whatever happens,
//! this machine's own input is withheld only while a peer owns the pointer.
use crate::capture::{Observed, ObservedModel};
use crate::desk::{holds, Desk, DeskModel, Relation, ScreenSize};
use crate::event::{Button, ButtonEvent, KeyEvent, KeyModel, Motion, Point, Press, ScrollEvent, ScrollUnit};
use crate::focus::{Focus, GraphModel, NodeModel, Update};
use crate::frame::{Edge, Frame, FrameModel, PeerId};
use crate::keys::Modifiers;
use crate::{desk, event, focus};
use vstd::prelude::*;

verus! {

// ---------------------------------------------------------------- withholding local input
/// Whether this machine's own input is withheld from it, and whom the page shows as the
/// owner of input.
///
/// Starts open: every path that cannot reach a definite answer leaves input reaching this
/// machine.
#[derive(Clone, Copy, PartialEq, Eq, Debug)]
pub struct LocalInput {
    pub suppressing: bool,
    pub shown_owner: Option<PeerId>,
}

impl LocalInput {
    pub fn new() -> (l: LocalInput)
        ensures
            l == (LocalInput { suppressing: false, shown_owner: None }),
    {
        LocalInput { suppressing: false, shown_owner: None }
    }
}

/// Withhold local input while another machine owns the pointer, or stop doing so.
pub fn set_suppress_local(local: &mut LocalInput, suppress: bool)
    ensures
        *final(local) == (LocalInput { suppressing: suppress, ..*old(local) }),
{
    local.suppressing = suppress;
}

#[must_use]
pub fn is_suppressing_local(local: &LocalInput) -> (b: bool)
    ensures
        b == local.suppressing,
{
    local.suppressing
}

/// Holds the cursor decoupled from the mouse. Letting go of it ends the withholding of
/// input as well: a reattached cursor on a machine that ignores its keyboard helps nobody.
#[derive(Clone, Copy, PartialEq, Eq, Debug, Structural)]
pub struct CursorGuard {
    pub hidden: bool,
    /// How many times the cursor was hidden and not shown since.
    pub hides: u32,
}

impl CursorGuard {
    /// The guard of a cursor that was just decoupled, and hidden if asked.
    pub fn detached(hide: bool) -> (g: CursorGuard)
        ensures
            g == (CursorGuard {
                hidden: hide,
                hides: if hide {
                    1
                } else {
                    0
                },
            }),
    {
        CursorGuard {
            hidden: hide,
            hides: if hide {
                1
            } else {
                0
            },
        }
    }

    /// The cursor had become visible and was hidden once more.
    pub fn hidden_again(self) -> (g: CursorGuard)
        ensures
            g.hidden == self.hidden,
            g.hides == (if self.hides == u32::MAX {
                u32::MAX
            } else {
                (self.hides + 1) as u32
            }),
    {
        CursorGuard { hidden: self.hidden, hides: self.hides.saturating_add(1) }
    }

    /// Reattach: input reaches this machine again. Gives how many times to show the
    /// cursor: once for each time it was hidden, and a margin of eight, since showing it
    /// too often is harmless and too seldom leaves no cursor at all.
    pub fn release(self, local: &mut LocalInput) -> (shows: u32)
        ensures
            *final(local) == (LocalInput { suppressing: false, ..*old(local) }),
            shows == (if !self.hidden {
                0
            } else if self.hides > u32::MAX - 8 {
                u32::MAX
            } else {
                (self.hides + 8) as u32
            }),
    {
        set_suppress_local(local, false);
        if self.hidden {
            self.hides.saturating_add(8)
        } else {
            0
        }
    }
}

/// What to do with this machine's cursor.
#[derive(Clone, Copy, PartialEq, Eq, Debug, Structural)]
pub enum CursorAction {
    /// Decouple it from the mouse and hide it.
    Detach,
    /// Leave it as it is: it is already decoupled.
    Keep,
    /// Reattach it, and put it here.
    Home { x: i32, y: i32 },
}

/// The outcome of a change of ownership.
#[derive(Clone, Copy, PartialEq, Eq, Debug, Structural)]
pub struct Handed {
    pub guard: Option<CursorGuard>,
    pub action: CursorAction,
}

/// What a change of ownership does to the cursor and to local input.
pub open spec fn handed(u: Update, detached: Option<CursorGuard>, local: LocalInput) -> (
    Handed,
    LocalInput,
) {
    match u.focus {
        Focus::Remote(peer) => match detached {
            // The same guard across a hop between peers: letting go of it would reattach
            // the cursor for a moment.
            Some(guard) => (
                Handed { guard: Some(guard), action: CursorAction::Keep },
                LocalInput { suppressing: true, shown_owner: Some(peer) },
            ),
            None => (
                Handed {
                    guard: Some(CursorGuard { hidden: true, hides: 1 }),
                    action: CursorAction::Detach,
                },
                LocalInput { suppressing: true, shown_owner: Some(peer) },
            ),
        },
        Focus::Local => (
            Handed { guard: None, action: CursorAction::Home { x: u.x, y: u.y } },
            LocalInput { suppressing: false, shown_owner: None },
        ),
    }
}

/// Apply a change of ownership: freeze or release this machine's input.
pub fn handover(
    update: Update,
    detached: Option<CursorGuard>,
    local: &mut LocalInput,
) -> (h: Handed)
    ensures
        (h, *final(local)) == handed(update, detached, *old(local)),
{
    match update.focus {
        Focus::Remote(peer) => {
            set_suppress_local(local, true);
            local.shown_owner = Some(peer);
            match detached {
                Some(guard) => Handed { guard: Some(guard), action: CursorAction::Keep },
                None => Handed {
                    guard: Some(CursorGuard::detached(true)),
                    action: CursorAction::Detach,
                },
            }
        },
        Focus::Local => {
            local.shown_owner = None;
            set_suppress_local(local, false);
            // The real cursor goes where the layout says the pointer is: the next event
            // adopts the system's position as truth, and a stale one would drag focus
            // straight back across.
            Handed { guard: None, action: CursorAction::Home { x: update.x, y: update.y } }
        },
    }
}

/// However handovers follow each other, this machine is muted exactly when the last one
/// went to a peer, and that peer is the one shown as holding the pointer.
pub proof fn muted_exactly_while_away(u: Update, detached: Option<CursorGuard>, local: LocalInput)
    ensures
        handed(u, detached, local).1.suppressing == (u.focus != Focus::Local),
        handed(u, detached, local).1.shown_owner == peer_in(u.focus),
        u.focus == Focus::Local ==> handed(u, detached, local).0.guard is None,
{
}

// ---------------------------------------------------------------- frames
/// The press for a direction.
pub open spec fn press_of(down: bool) -> Press {
    if down {
        Press::Down
    } else {
        Press::Up
    }
}

pub fn press(down: bool) -> (p: Press)
    ensures
        p == press_of(down),
{
    if down {
        Press::Down
    } else {
        Press::Up
    }
}

/// The frame for a captured event that is not motion, if the protocol has one.
pub open spec fn event_frame(e: ObservedModel, seq: u32) -> Option<FrameModel> {
    match e {
        ObservedModel::Motion { .. } => None,
        ObservedModel::Button { button, down } => match Button::of_code(button as u8) {
            Some(b) => Some(
                FrameModel::Button(
                    ButtonEvent {
                        seq,
                        button: b,
                        press: press_of(down),
                        modifiers: Modifiers(0),
                    },
                ),
            ),
            None => None,
        },
        ObservedModel::Scroll { dx, dy } => Some(
            FrameModel::Scroll(
                ScrollEvent {
                    seq,
                    dx: dx as i32,
                    dy: dy as i32,
                    unit: ScrollUnit::Detent,
                    end_of_gesture: false,
                },
            ),
        ),
        ObservedModel::Key { text, physical, modifiers, down } => Some(
            FrameModel::Key(
                KeyModel { seq, physical, text, press: press_of(down), modifiers },
            ),
        ),
    }
}

/// Turn a captured non-motion event into a protocol frame.
pub fn to_frame(event: Observed, seq: u32) -> (f: Option<Frame>)
    ensures
        match event_frame(event@, seq) {
            Some(m) => f is Some && f->0@ == m,
            None => f is None,
        },
{
    match event {
        Observed::Motion { .. } => None,
        Observed::Button { button, down } => match Button::try_from_u8(button) {
            Ok(b) => Some(
                Frame::Button(
                    ButtonEvent {
                        seq,
                        button: b,
                        press: press(down),
                        modifiers: Modifiers::none(),
                    },
                ),
            ),
            Err(_) => None,
        },
        Observed::Scroll { dx, dy } => Some(
            Frame::Scroll(
                ScrollEvent { seq, dx, dy, unit: ScrollUnit::Detent, end_of_gesture: false },
            ),
        ),
        Observed::Key { text, physical, modifiers, down } => Some(
            Frame::Key(
                KeyEvent { seq, physical, logical: text, press: press(down), modifiers },
            ),
        ),
    }
}

/// The frame for motion that ended at (x, y).
pub open spec fn motion_frame(seq: u32, x: int, y: int) -> FrameModel {
    FrameModel::Motion(
        Motion {
            seq,
            cursor: Point { x: event::wrap32(x * 256) as i32, y: event::wrap32(y * 256) as i32 },
            travel_x: x as i32,
            travel_y: y as i32,
        },
    )
}

// ---------------------------------------------------------------- the forwarder
/// Everything one step looks at.
pub struct Tick {
    /// What was captured; `None` for an idle tick.
    pub event: Option<Observed>,
    /// The connected peers.
    pub live: Vec<PeerId>,
    pub sizes: Vec<ScreenSize>,
    /// The order in which peers were paired.
    pub order: Vec<PeerId>,
    pub layout: Vec<Relation>,
    /// The arrangement changed.
    pub relayout: bool,
    /// The page asked for the pointer to come home.
    pub release: bool,
    /// Peers switched off on the page.
    pub disabled: Vec<PeerId>,
    /// Where the system's cursor is, if it can be read.
    pub cursor: Option<(i32, i32)>,
}

/// What to do after a step, in this order.
#[derive(PartialEq, Eq, Debug)]
pub struct Plan {
    /// Input came home on its own: let go of the cursor.
    pub returned: bool,
    /// Tell this peer that it lost the pointer.
    pub leave: Option<PeerId>,
    pub cursor: Vec<CursorAction>,
    /// Hold the local cursor here.
    pub pin: Option<(i32, i32)>,
    /// It was found somewhere else.
    pub drifted: bool,
    pub send: Option<(PeerId, Frame)>,
}

/// A plan as a value.
pub struct PlanModel {
    pub returned: bool,
    pub leave: Option<PeerId>,
    pub cursor: Seq<CursorAction>,
    pub pin: Option<(i32, i32)>,
    pub drifted: bool,
    pub send: Option<(PeerId, FrameModel)>,
}

impl View for Plan {
    type V = PlanModel;

    open spec fn view(&self) -> PlanModel {
        PlanModel {
            returned: self.returned,
            leave: self.leave,
            cursor: self.cursor@,
            pin: self.pin,
            drifted: self.drifted,
            send: match self.send {
                Some((p, f)) => Some((p, f@)),
                None => None,
            },
        }
    }
}

/// The state of forwarding.
pub struct Forwarder {
    pub desk: Desk,
    pub local: LocalInput,
    pub guard: Option<CursorGuard>,
    /// Which peer holds the pointer, for leave announcements.
    pub holder: Option<PeerId>,
    /// Where the local cursor is held while a peer owns the pointer.
    pub parked: Option<(i32, i32)>,
    pub seq: u32,
    pub width: i32,
    pub height: i32,
}

/// The state of forwarding as a value, with the plan made so far.
pub struct ForwardModel {
    pub desk: DeskModel,
    pub local: LocalInput,
    pub guard: Option<CursorGuard>,
    pub holder: Option<PeerId>,
    pub parked: Option<(i32, i32)>,
    pub seq: u32,
    pub width: i32,
    pub height: i32,
    pub plan: PlanModel,
}

/// A plan to do nothing.
pub open spec fn nothing() -> PlanModel {
    PlanModel {
        returned: false,
        leave: None,
        cursor: Seq::empty(),
        pin: None,
        drifted: false,
        send: None,
    }
}

impl Forwarder {
    /// The state of forwarding, with a plan.
    pub open spec fn model(self, plan: PlanModel) -> ForwardModel {
        ForwardModel {
            desk: self.desk@,
            local: self.local,
            guard: self.guard,
            holder: self.holder,
            parked: self.parked,
            seq: self.seq,
            width: self.width,
            height: self.height,
            plan,
        }
    }
}

/// Where a cursor that crossed an edge is held: a visible distance inside the screen.
pub open spec fn hold_at(v: int, size: int) -> int {
    focus::within(v, 24, if size - 25 > 24 {
        size - 25
    } else {
        24
    })
}

/// Whether a cursor is away from where it was put.
pub open spec fn strayed(a: (i32, i32), b: (i32, i32)) -> bool {
    a.0 - b.0 > 4 || b.0 - a.0 > 4 || a.1 - b.1 > 4 || b.1 - a.1 > 4
}

/// The peer a focus names.
pub open spec fn peer_in(f: Focus) -> Option<PeerId> {
    match f {
        Focus::Remote(p) => Some(p),
        Focus::Local => None,
    }
}

impl ForwardModel {
    /// A captured event takes the next sequence number.
    pub open spec fn heard(self, event: Option<Observed>) -> ForwardModel {
        ForwardModel {
            seq: if event is Some {
                ((self.seq + 1) % 0x1_0000_0000) as u32
            } else {
                self.seq
            },
            ..self
        }
    }

    /// The desk follows who is connected.
    pub open spec fn reconciled(self, t: Tick) -> ForwardModel {
        ForwardModel {
            desk: self.desk.synced(
                t.live@,
                t.sizes@,
                t.order@,
                desk::models(t.layout@),
                t.relayout,
            ),
            ..self
        }
    }

    /// Bringing the desk into step can hand focus back on its own; local input must not
    /// stay withheld then.
    pub open spec fn failed_open(self) -> ForwardModel {
        if self.desk.graph.holder() == Focus::Local && self.local.suppressing {
            ForwardModel {
                local: LocalInput { suppressing: false, shown_owner: None },
                guard: None,
                plan: PlanModel { returned: true, ..self.plan },
                ..self
            }
        } else {
            self
        }
    }

    /// A change of ownership.
    pub open spec fn changed_hands(self, u: Update) -> ForwardModel {
        let (h, local) = handed(u, self.guard, self.local);
        ForwardModel {
            local,
            guard: h.guard,
            plan: PlanModel { cursor: self.plan.cursor.push(h.action), ..self.plan },
            ..self
        }
    }

    /// The pointer is brought home and nobody holds it.
    pub open spec fn brought_home(self) -> ForwardModel {
        let g = self.desk.graph.homed();
        let u = Update {
            focus: Focus::Local,
            changed: self.desk.graph.current != 0,
            x: g.x as i32,
            y: g.y as i32,
        };
        let s = ForwardModel { desk: DeskModel { graph: g, ..self.desk }, holder: None, ..self };
        s.changed_hands(u)
    }

    /// The page's release button.
    pub open spec fn released(self, asked: bool) -> ForwardModel {
        if asked && self.desk.graph.holder() != Focus::Local {
            let s = self.brought_home();
            ForwardModel { plan: PlanModel { leave: self.holder, ..s.plan }, ..s }
        } else {
            self
        }
    }

    /// Movement decides ownership.
    pub open spec fn moved(
        self,
        x: int,
        y: int,
        dx: int,
        dy: int,
        cursor: Option<(i32, i32)>,
    ) -> ForwardModel {
        let g0 = self.desk.graph;
        let adopted = if g0.current != 0 {
            g0
        } else {
            GraphModel {
                x: focus::within(x, 0, g0.nodes[0].width - 1),
                y: focus::within(y, 0, g0.nodes[0].height - 1),
                ..g0
            }
        };
        let g = adopted.moved(dx, dy);
        let s = ForwardModel { desk: DeskModel { graph: g, ..self.desk }, ..self };
        if g.current == g0.current {
            s
        } else {
            let u = Update { focus: g.holder(), changed: true, x: g.x as i32, y: g.y as i32 };
            let now = peer_in(g.holder());
            // The peer that lost the pointer is told, so that it can hide its cursor.
            let leave = if self.holder is Some && self.holder != now {
                self.holder
            } else {
                self.plan.leave
            };
            let s = ForwardModel { holder: now, plan: PlanModel { leave, ..s.plan }, ..s };
            let s = s.changed_hands(u);
            ForwardModel {
                parked: if now is None {
                    None
                } else if self.parked is Some {
                    self.parked
                } else {
                    match cursor {
                        Some((cx, cy)) => Some(
                            (
                                hold_at(cx as int, self.width as int) as i32,
                                hold_at(cy as int, self.height as int) as i32,
                            ),
                        ),
                        None => None,
                    }
                },
                ..s
            }
        }
    }

    /// The local cursor is held still while a peer owns the pointer.
    pub open spec fn pinned(self, cursor: Option<(i32, i32)>) -> ForwardModel {
        if self.desk.graph.holder() != Focus::Local && self.parked is Some {
            ForwardModel {
                plan: PlanModel {
                    pin: self.parked,
                    drifted: cursor is Some && strayed(cursor->0, self.parked->0),
                    ..self.plan
                },
                ..self
            }
        } else {
            self
        }
    }

    /// A peer that was switched off does not get input.
    pub open spec fn skipped(self, disabled: Seq<PeerId>) -> ForwardModel {
        match self.desk.graph.holder() {
            Focus::Remote(p) => if disabled.contains(p) {
                self.brought_home()
            } else {
                self
            },
            Focus::Local => self,
        }
    }

    /// What is sent to the peer that owns input.
    pub open spec fn sent(self, event: Observed) -> ForwardModel {
        match self.desk.graph.holder() {
            Focus::Local => self,
            Focus::Remote(p) => {
                let frame = match event {
                    Observed::Motion { .. } => Some(
                        motion_frame(self.seq, self.desk.graph.x, self.desk.graph.y),
                    ),
                    other => event_frame(other@, self.seq),
                };
                ForwardModel {
                    plan: PlanModel {
                        send: match frame {
                            Some(f) => Some((p, f)),
                            None => None,
                        },
                        ..self.plan
                    },
                    ..self
                }
            },
        }
    }

    /// One step of forwarding.
    pub open spec fn stepped(self, t: Tick) -> ForwardModel {
        let s = self.heard(t.event).reconciled(t).failed_open().released(t.release);
        match t.event {
            None => s,
            Some(event) => {
                let s = match event {
                    Observed::Motion { x, y, dx, dy } => s.moved(
                        x as int,
                        y as int,
                        dx as int,
                        dy as int,
                        t.cursor,
                    ).pinned(t.cursor),
                    _ => s,
                };
                s.skipped(t.disabled@).sent(event)
            },
        }
    }
}

fn hold_within(v: i32, size: i32) -> (r: i32)
    ensures
        r == hold_at(v as int, size as int),
{
    let end: i64 = if size as i64 - 25 > 24 {
        size as i64 - 25
    } else {
        24
    };
    if v < 24 {
        24
    } else if v as i64 > end {
        end as i32
    } else {
        v
    }
}

fn has_strayed(a: (i32, i32), b: (i32, i32)) -> (r: bool)
    ensures
        r == strayed(a, b),
{
    let dx: i64 = a.0 as i64 - b.0 as i64;
    let dy: i64 = a.1 as i64 - b.1 as i64;
    dx > 4 || dx < -4 || dy > 4 || dy < -4
}

impl Plan {
    fn nothing() -> (p: Plan)
        ensures
            p@ == nothing(),
    {
        let p = Plan {
            returned: false,
            leave: None,
            cursor: Vec::new(),
            pin: None,
            drifted: false,
            send: None,
        };
        proof {
            assert(p@.cursor =~= Seq::<CursorAction>::empty());
        }
        p
    }
}

impl Forwarder {
    /// Forwarding for a machine with a screen of this size, before any peer is placed.
    pub fn new(width: i32, height: i32) -> (f: Forwarder)
        ensures
            f.desk@.graph.wf(),
            f.desk@.settled(),
            f.desk@.graph.nodes.len() == 1,
            f.desk@.graph.nodes[0] == (NodeModel {
                peer: None,
                width: focus::at_least_one(width as int),
                height: focus::at_least_one(height as int),
                links: Seq::new(4, |i: int| None),
            }),
            f.desk@.graph.current == 0,
            f.desk@.graph.x == focus::halved(width as int),
            f.desk@.graph.y == focus::halved(height as int),
            f.desk@.graph.holder() == Focus::Local,
            width >= 0 && height >= 0 ==> f.desk@.graph.inside(),
            f.desk@.known == Seq::<PeerId>::empty(),
            f.desk@.places == Seq::<(PeerId, Edge)>::empty(),
            f.local == (LocalInput { suppressing: false, shown_owner: None }),
            f.guard is None,
            f.holder is None,
            f.parked is None,
            f.seq == 0,
            f.width == width,
            f.height == height,
            f.model(nothing()).muted_while_away(),
            f.model(nothing()).shows_the_owner(),
    {
        Forwarder {
            desk: Desk::new(width, height),
            local: LocalInput::new(),
            guard: None,
            holder: None,
            parked: None,
            seq: 0,
            width,
            height,
        }
    }

    /// The cursor could not be decoupled after all.
    pub fn detach_failed(&mut self)
        ensures
            *final(self) == (Forwarder { guard: None, ..*old(self) }),
    {
        self.guard = None;
    }

    fn change_hands(&mut self, u: Update, plan: &mut Plan)
        requires
            old(self).desk.graph@.wf(),
        ensures
            final(self).model(final(plan)@) == old(self).model(old(plan)@).changed_hands(u),
            final(self).desk == old(self).desk,
    {
        let ghost before = plan@;
        let h = handover(u, self.guard, &mut self.local);
        self.guard = h.guard;
        plan.cursor.push(h.action);
        proof {
            assert(plan@.cursor =~= before.cursor.push(h.action));
        }
    }

    fn bring_home(&mut self, plan: &mut Plan)
        requires
            old(self).desk.graph@.wf(),
        ensures
            final(self).model(final(plan)@) == old(self).model(old(plan)@).brought_home(),
            final(self).desk.graph@.wf(),
    {
        let u = self.desk.graph.force_home();
        self.holder = None;
        self.change_hands(u, plan);
    }

    fn move_pointer(
        &mut self,
        at: (i32, i32),
        by: (i32, i32),
        cursor: Option<(i32, i32)>,
        plan: &mut Plan,
    )
        requires
            old(self).desk.graph@.wf(),
        ensures
            final(self).model(final(plan)@) == old(self).model(old(plan)@).moved(
                at.0 as int,
                at.1 as int,
                by.0 as int,
                by.1 as int,
                cursor,
            ),
            final(self).desk.graph@.wf(),
    {
        // While input is local the system's cursor is the truth; once it has left, the
        // cursor is frozen and only movement means anything.
        self.desk.graph.sync_local_cursor(at.0, at.1);
        let u = self.desk.graph.apply_motion(by.0, by.1);
        if !u.changed {
            return ;
        }
        let now = match u.focus {
            Focus::Remote(p) => Some(p),
            Focus::Local => None,
        };
        if let Some(lost) = self.holder {
            let kept = match now {
                Some(p) => p.same(&lost),
                None => false,
            };
            if !kept {
                plan.leave = Some(lost);
            }
        }
        self.holder = now;
        self.change_hands(u, plan);
        match u.focus {
            Focus::Local => {
                self.parked = None;
            },
            Focus::Remote(_) => {
                if self.parked.is_none() {
                    if let Some((cx, cy)) = cursor {
                        self.parked = Some(
                            (hold_within(cx, self.width), hold_within(cy, self.height)),
                        );
                    }
                }
            },
        }
    }

    /// What an event or the passing of time does before the event itself is looked at: who
    /// is connected, and whether input was asked home.
    fn catch_up(&mut self, t: &Tick, plan: &mut Plan)
        requires
            old(self).desk.graph@.wf(),
        ensures
            final(self).model(final(plan)@) == old(self).model(old(plan)@).heard(
                t.event,
            ).reconciled(*t).failed_open().released(t.release),
            final(self).desk.graph@.wf(),
    {
        if t.event.is_some() {
            self.seq = self.seq.wrapping_add(1);
        }
        self.desk.sync_peers(&t.live, &t.sizes, &t.order, &t.layout, t.relayout);
        // A peer that disappears while holding the pointer is sent home without a change
        // of focus that later steps would see. Fail open, always.
        let local_focus = match self.desk.graph.focus() {
            Focus::Local => true,
            Focus::Remote(_) => false,
        };
        if local_focus && self.local.suppressing {
            self.local = LocalInput::new();
            self.guard = None;
            plan.returned = true;
        }
        if t.release && !local_focus {
            let lost = self.holder;
            self.bring_home(plan);
            plan.leave = lost;
        }
    }

    fn pin_cursor(&self, cursor: Option<(i32, i32)>, plan: &mut Plan)
        requires
            self.desk.graph@.wf(),
        ensures
            self.model(final(plan)@) == self.model(old(plan)@).pinned(cursor),
    {
        if let Focus::Remote(_) = self.desk.graph.focus() {
            if let Some(p) = self.parked {
                plan.pin = Some(p);
                plan.drifted = match cursor {
                    Some(c) => has_strayed(c, p),
                    None => false,
                };
            }
        }
    }

    fn forward(&mut self, event: Observed, disabled: &Vec<PeerId>, plan: &mut Plan)
        requires
            old(self).desk.graph@.wf(),
        ensures
            final(self).model(final(plan)@) == old(self).model(old(plan)@).skipped(disabled@).sent(
                event,
            ),
            final(self).desk.graph@.wf(),
    {
        if let Focus::Remote(p) = self.desk.graph.focus() {
            if holds(disabled, &p) {
                self.bring_home(plan);
                return ;
            }
            let frame = match event {
                Observed::Motion { .. } => {
                    let (x, y) = self.desk.graph.position();
                    Some(
                        Frame::Motion(
                            Motion {
                                seq: self.seq,
                                cursor: Point::from_px(x, y),
                                travel_x: x,
                                travel_y: y,
                            },
                        ),
                    )
                },
                other => to_frame(other, self.seq),
            };
            plan.send = match frame {
                Some(f) => Some((p, f)),
                None => None,
            };
        }
    }

    /// One step: an event was captured, or time passed.
    pub fn step(&mut self, t: &Tick) -> (plan: Plan)
        requires
            old(self).desk.graph@.wf(),
        ensures
            final(self).model(plan@) == old(self).model(nothing()).stepped(*t),
            final(self).desk.graph@.wf(),
    {
        let mut plan = Plan::nothing();
        self.catch_up(t, &mut plan);
        if let Some(event) = t.event {
            // Movement decides ownership; everything else follows whoever owns it.
            if let Observed::Motion { x, y, dx, dy } = event {
                self.move_pointer((x, y), (dx, dy), t.cursor, &mut plan);
                self.pin_cursor(t.cursor, &mut plan);
            }
            self.forward(event, &t.disabled, &mut plan);
        }
        plan
    }
}

impl ForwardModel {
    /// This machine's own input is withheld exactly while a peer owns the pointer.
    pub open spec fn muted_while_away(self) -> bool {
        self.local.suppressing == (self.desk.graph.holder() != Focus::Local)
    }

    /// The machine shown as holding the pointer holds it.
    pub open spec fn shows_the_owner(self) -> bool {
        self.local.shown_owner == peer_in(self.desk.graph.holder())
    }
}

// ---------------------------------------------------------------- laws
/// A step keeps the desk in order, so that what holds of one step holds of every one after
/// it.
#[verifier::spinoff_prover]
#[verifier::rlimit(40)]
pub proof fn a_step_keeps_the_desk_settled(s: ForwardModel, t: Tick)
    requires
        s.desk.graph.wf(),
        s.desk.settled(),
        s.desk.graph.nodes.len() + t.live@.len() + t.order@.len() <= usize::MAX,
    ensures
        s.stepped(t).desk.graph.wf(),
        s.stepped(t).desk.settled(),
{
    let rs = desk::models(t.layout@);
    desk::input_only_goes_to_connected_machines(
        s.desk,
        t.live@,
        t.sizes@,
        t.order@,
        rs,
        t.relayout,
        0,
        0,
    );
    let s3 = s.heard(t.event).reconciled(t).failed_open().released(t.release);
    home_keeps_the_desk_settled(s.heard(t.event).reconciled(t).failed_open());
    assert(s3.desk.graph.wf() && s3.desk.settled());
    if let Some(event) = t.event {
        let s4 = match event {
            Observed::Motion { x, y, dx, dy } => s3.moved(
                x as int,
                y as int,
                dx as int,
                dy as int,
                t.cursor,
            ).pinned(t.cursor),
            _ => s3,
        };
        if let Observed::Motion { x, y, dx, dy } = event {
            let g0 = s3.desk.graph;
            let adopted = if g0.current != 0 {
                g0
            } else {
                GraphModel {
                    x: focus::within(x as int, 0, g0.nodes[0].width - 1),
                    y: focus::within(y as int, 0, g0.nodes[0].height - 1),
                    ..g0
                }
            };
            assert(adopted.wf());
            focus::the_pointer_is_always_on_a_screen(adopted, dx as int, dy as int);
            assert(s4.desk.graph.nodes == g0.nodes);
            same_screens_stay_settled(s3.desk, s4.desk);
        }
        assert(s4.desk.graph.wf() && s4.desk.settled());
        home_keeps_the_desk_settled(s4);
    }
}

/// Whether the desk is in order depends on its screens, not on where the pointer is.
proof fn same_screens_stay_settled(before: DeskModel, after: DeskModel)
    requires
        before.settled(),
        after.graph.nodes == before.graph.nodes,
        after.known == before.known,
    ensures
        after.settled(),
{
    assert(forall|i: int| desk::on_the_desk(before, i) == desk::on_the_desk(after, i));
    assert(forall|q: PeerId| before.graph.has(q) == after.graph.has(q));
}

proof fn home_keeps_the_desk_settled(s: ForwardModel)
    requires
        s.desk.graph.wf(),
        s.desk.settled(),
    ensures
        s.brought_home().desk.graph.wf(),
        s.brought_home().desk.settled(),
{
    same_screens_stay_settled(s.desk, s.brought_home().desk);
}

/// A step never strands this machine: whatever was captured and whoever came or went, its
/// own input is withheld after the step exactly while a peer owns the pointer.
pub proof fn a_step_keeps_local_input_open(s: ForwardModel, t: Tick)
    requires
        s.desk.graph.wf(),
        s.desk.settled(),
        s.desk.graph.nodes.len() + t.live@.len() + t.order@.len() <= usize::MAX,
        s.muted_while_away(),
    ensures
        s.stepped(t).muted_while_away(),
{
    let rs = desk::models(t.layout@);
    let s1 = s.heard(t.event).reconciled(t);
    desk::syncing_keeps_the_owner_or_comes_home(
        s.desk,
        t.live@,
        t.sizes@,
        t.order@,
        rs,
        t.relayout,
    );
    desk::input_only_goes_to_connected_machines(
        s.desk,
        t.live@,
        t.sizes@,
        t.order@,
        rs,
        t.relayout,
        0,
        0,
    );
    let s2 = s1.failed_open();
    assert(s2.muted_while_away());
    let s3 = s2.released(t.release);
    assert(s3.desk.graph.wf() && s3.muted_while_away());
    if let Some(event) = t.event {
        let s4 = match event {
            Observed::Motion { x, y, dx, dy } => s3.moved(
                x as int,
                y as int,
                dx as int,
                dy as int,
                t.cursor,
            ).pinned(t.cursor),
            _ => s3,
        };
        assert(s4.muted_while_away());
        assert(s4.skipped(t.disabled@).muted_while_away());
    }
}

/// A step keeps what is shown true: after it, the machine shown as holding the pointer is
/// the one that holds it, or none is shown and it is here.
pub proof fn a_step_shows_the_owner(s: ForwardModel, t: Tick)
    requires
        s.desk.graph.wf(),
        s.desk.settled(),
        s.desk.graph.nodes.len() + t.live@.len() + t.order@.len() <= usize::MAX,
        s.muted_while_away(),
        s.shows_the_owner(),
    ensures
        s.stepped(t).shows_the_owner(),
{
    let rs = desk::models(t.layout@);
    desk::syncing_keeps_the_owner_or_comes_home(
        s.desk,
        t.live@,
        t.sizes@,
        t.order@,
        rs,
        t.relayout,
    );
    desk::input_only_goes_to_connected_machines(
        s.desk,
        t.live@,
        t.sizes@,
        t.order@,
        rs,
        t.relayout,
        0,
        0,
    );
    let s2 = s.heard(t.event).reconciled(t).failed_open();
    assert(s2.shows_the_owner());
    let s3 = s2.released(t.release);
    assert(s3.desk.graph.wf() && s3.shows_the_owner());
    if let Some(event) = t.event {
        let s4 = match event {
            Observed::Motion { x, y, dx, dy } => s3.moved(
                x as int,
                y as int,
                dx as int,
                dy as int,
                t.cursor,
            ).pinned(t.cursor),
            _ => s3,
        };
        assert(s4.shows_the_owner());
        assert(s4.skipped(t.disabled@).shows_the_owner());
    }
}

/// Input goes only where it belongs: a step sends to the peer that owns the pointer, which
/// is connected and not switched off, and to nobody while input is local.
pub proof fn a_step_sends_only_to_the_owner(s: ForwardModel, t: Tick)
    requires
        s.desk.graph.wf(),
        s.desk.settled(),
        s.desk.graph.nodes.len() + t.live@.len() + t.order@.len() <= usize::MAX,
        s.plan == nothing(),
    ensures
        s.stepped(t).plan.send matches Some((p, _)) ==> {
            &&& s.stepped(t).desk.graph.holder() == Focus::Remote(p)
            &&& t.live@.contains(p)
            &&& !t.disabled@.contains(p)
        },
        t.event is None ==> s.stepped(t).plan.send is None,
{
    if let Some(event) = t.event {
        let rs = desk::models(t.layout@);
        let s3 = s.heard(t.event).reconciled(t).failed_open().released(t.release);
        let d = s3.desk;
        desk::input_only_goes_to_connected_machines(
            s.desk,
            t.live@,
            t.sizes@,
            t.order@,
            rs,
            t.relayout,
            0,
            0,
        );
        assert(d.graph.wf() && d.settled());
        let s4 = match event {
            Observed::Motion { x, y, dx, dy } => s3.moved(
                x as int,
                y as int,
                dx as int,
                dy as int,
                t.cursor,
            ).pinned(t.cursor),
            _ => s3,
        };
        let g4 = s4.desk.graph;
        assert(g4.holder() matches Focus::Remote(p) ==> t.live@.contains(p)) by {
            match event {
                Observed::Motion { x, y, dx, dy } => {
                    let g0 = d.graph;
                    let adopted = if g0.current != 0 {
                        g0
                    } else {
                        GraphModel {
                            x: focus::within(x as int, 0, g0.nodes[0].width - 1),
                            y: focus::within(y as int, 0, g0.nodes[0].height - 1),
                            ..g0
                        }
                    };
                    assert(adopted.wf());
                    let moved_desk = DeskModel { graph: adopted, ..d };
                    assert(moved_desk.settled()) by {
                        assert(forall|i: int|
                            desk::on_the_desk(d, i) == desk::on_the_desk(moved_desk, i));
                        assert(forall|q: PeerId| d.graph.has(q) ==> adopted.has(q));
                    }
                    desk::movement_stays_on_the_desk(moved_desk, dx as int, dy as int);
                    assert(g4 == adopted.moved(dx as int, dy as int));
                },
                _ => {
                    desk::movement_stays_on_the_desk(d, 0, 0);
                },
            }
        }
    }
}

/// The desk stays well formed up to the point where the event itself is looked at.
proof fn catching_up_keeps_wf(s: ForwardModel, t: Tick)
    requires
        s.desk.graph.wf(),
        s.desk.settled(),
        s.desk.graph.nodes.len() + t.live@.len() + t.order@.len() <= usize::MAX,
    ensures
        s.heard(t.event).reconciled(t).failed_open().released(t.release).desk.graph.wf(),
{
    desk::input_only_goes_to_connected_machines(
        s.desk,
        t.live@,
        t.sizes@,
        t.order@,
        desk::models(t.layout@),
        t.relayout,
        0,
        0,
    );
    home_keeps_the_desk_settled(s.heard(t.event).reconciled(t).failed_open());
}

/// A captured movement that leaves a peer as the owner of input is sent to that peer, and
/// puts the pointer there exactly where it is on the desk: sideways by its `x`, downwards by
/// its `y`, and so on that peer's own screen.
pub proof fn a_movement_puts_the_pointer_where_it_is(s: ForwardModel, t: Tick)
    requires
        s.desk.graph.wf(),
        s.desk.settled(),
        s.desk.graph.nodes.len() + t.live@.len() + t.order@.len() <= usize::MAX,
        t.event matches Some(Observed::Motion { .. }),
    ensures
        ({
            let e = s.stepped(t);
            let g = e.desk.graph;
            e.desk.graph.holder() matches Focus::Remote(p) ==> {
                &&& g.nodes[g.current].peer == Some(p)
                &&& 0 <= g.x < g.nodes[g.current].width
                &&& 0 <= g.y < g.nodes[g.current].height
                &&& e.plan.send matches Some((to, FrameModel::Motion(m))) && {
                    &&& to == p
                    &&& m.travel_x == g.x
                    &&& m.travel_y == g.y
                    &&& g.x < 0x80_0000 ==> m.cursor.x == 256 * g.x && m.cursor.x as int / 256 == g.x
                    &&& g.y < 0x80_0000 ==> m.cursor.y == 256 * g.y && m.cursor.y as int / 256 == g.y
                    &&& m.seq == e.seq
                }
            }
        }),
{
    catching_up_keeps_wf(s, t);
    let s3 = s.heard(t.event).reconciled(t).failed_open().released(t.release);
    if let Some(Observed::Motion { x, y, dx, dy }) = t.event {
        let g0 = s3.desk.graph;
        let adopted = if g0.current != 0 {
            g0
        } else {
            GraphModel {
                x: focus::within(x as int, 0, g0.nodes[0].width - 1),
                y: focus::within(y as int, 0, g0.nodes[0].height - 1),
                ..g0
            }
        };
        assert(1 <= g0.nodes[0].width && 1 <= g0.nodes[0].height);
        assert(adopted.wf());
        focus::the_pointer_is_always_on_a_screen(adopted, dx as int, dy as int);
        let s4 = s3.moved(x as int, y as int, dx as int, dy as int, t.cursor).pinned(t.cursor);
        let g = s4.desk.graph;
        assert(g == adopted.moved(dx as int, dy as int));
        assert(1 <= g.nodes[g.current].width <= i32::MAX && 1 <= g.nodes[g.current].height
            <= i32::MAX);
        let s5 = s4.skipped(t.disabled@);
        assert(s5.desk.graph.holder() is Remote ==> s5 == s4);
    }
}

/// A captured movement moves the pointer on the desk by what was captured, sideways by `dx`
/// and downwards by `dy`: from where this machine's own cursor is while the pointer is here,
/// and from where the pointer was otherwise.
pub proof fn a_movement_moves_the_pointer_by_itself(
    s: ForwardModel,
    x: int,
    y: int,
    dx: int,
    dy: int,
    cursor: Option<(i32, i32)>,
)
    requires
        s.desk.graph.wf(),
    ensures
        ({
            let (g, h) = (s.desk.graph, s.moved(x, y, dx, dy, cursor).desk.graph);
            let n = g.nodes[g.current];
            &&& g.current == 0 && 0 <= x < n.width && 0 <= y < n.height && 0 <= x + dx < n.width && 0
                <= y + dy < n.height ==> h.current == 0 && h.x == x + dx && h.y == y + dy
            &&& g.current != 0 && 0 <= g.x + dx < n.width && 0 <= g.y + dy < n.height ==> h.current
                == g.current && h.x == g.x + dx && h.y == g.y + dy
        }),
{
    let g = s.desk.graph;
    let n = g.nodes[g.current];
    assert(1 <= n.width <= i32::MAX && 1 <= n.height <= i32::MAX);
    if g.current == 0 {
        if 0 <= x < n.width && 0 <= y < n.height && 0 <= x + dx < n.width && 0 <= y + dy < n.height {
            let adopted = GraphModel { x, y, ..g };
            assert(adopted.wf());
            focus::moving_within_a_screen_stays_there(adopted, dx, dy);
        }
    } else if 0 <= g.x + dx < n.width && 0 <= g.y + dy < n.height {
        focus::moving_within_a_screen_stays_there(g, dx, dy);
    }
}

/// What was captured is what is sent, with nothing turned round on the way: a key keeps its
/// text, its place and its modifiers, a click its button, scrolling its two directions, and
/// going down stays going down.
pub proof fn what_was_captured_is_what_is_sent(e: ObservedModel, seq: u32)
    ensures
        e matches ObservedModel::Key { text, physical, modifiers, down } ==> (event_frame(e, seq)
            matches Some(FrameModel::Key(k)) && k.text == text && k.physical == physical
            && k.modifiers == modifiers && k.seq == seq && k.press == (if down {
            Press::Down
        } else {
            Press::Up
        })),
        e matches ObservedModel::Scroll { dx, dy } ==> (event_frame(e, seq) matches Some(
            FrameModel::Scroll(w),
        ) && (i32::MIN <= dx <= i32::MAX ==> w.dx == dx) && (i32::MIN <= dy <= i32::MAX ==> w.dy
            == dy) && w.unit == ScrollUnit::Detent && !w.end_of_gesture && w.seq == seq),
        e matches ObservedModel::Button { button, down } ==> if 1 <= button <= 255 {
            event_frame(e, seq) matches Some(FrameModel::Button(b)) && b.button.code() == button
                && b.button.canonical() && b.seq == seq && b.modifiers.0 == 0 && b.press == (
            if down {
                Press::Down
            } else {
                Press::Up
            })
        } else {
            button == 0 ==> event_frame(e, seq) is None
        },
{
    if let ObservedModel::Button { button, .. } = e {
        event::inputs_have_their_numbers(button as u8);
    }
}

/// While a peer that is not switched off owns input, every key, click and turn of the wheel
/// captured here goes to it, in the frame made of it and under the next number.
pub proof fn input_reaches_its_owner(s: ForwardModel, t: Tick)
    requires
        s.plan == nothing(),
        t.event is Some,
        !(t.event matches Some(Observed::Motion { .. })),
    ensures
        ({
            let e = s.stepped(t);
            e.desk.graph.holder() matches Focus::Remote(p) ==> match event_frame(
                t.event->0@,
                e.seq,
            ) {
                Some(f) => e.plan.send == Some((p, f)),
                None => e.plan.send is None,
            }
        }),
{
}

/// Captured events are numbered one after the other, and nothing else is.
pub proof fn events_are_numbered_in_turn(s: ForwardModel, t: Tick)
    ensures
        t.event is None ==> s.stepped(t).seq == s.seq,
        t.event is Some && s.seq < u32::MAX ==> s.stepped(t).seq == s.seq + 1,
        t.event is Some && s.seq == u32::MAX ==> s.stepped(t).seq == 0,
{
    let s3 = s.heard(t.event).reconciled(t).failed_open().released(t.release);
    assert(s3.seq == s.heard(t.event).seq);
}

/// A handover to a peer decouples this machine's cursor once and keeps it decoupled; one that
/// comes home couples it again, at the very place where the pointer came back.
pub proof fn a_handover_takes_the_cursor_along(
    u: Update,
    detached: Option<CursorGuard>,
    local: LocalInput,
)
    ensures
        ({
            let h = handed(u, detached, local).0;
            &&& u.focus is Remote && detached is None ==> h.action == CursorAction::Detach
                && h.guard is Some
            &&& u.focus is Remote && detached is Some ==> h.action == CursorAction::Keep && h.guard
                == detached
            &&& u.focus == Focus::Local ==> h.guard is None && (h.action matches CursorAction::Home {
                x,
                y,
            } && x == u.x && y == u.y)
        }),
{
}

/// The machine that loses the pointer is told: whenever a movement takes it from one peer to
/// another machine, that peer is on the plan, and it is on it for no other reason.
pub proof fn who_loses_the_pointer_is_told(
    s: ForwardModel,
    x: int,
    y: int,
    dx: int,
    dy: int,
    cursor: Option<(i32, i32)>,
    p: PeerId,
)
    requires
        s.desk.graph.wf(),
        s.plan.leave is None,
        s.holder == peer_in(s.desk.graph.holder()),
    ensures
        ({
            let e = s.moved(x, y, dx, dy, cursor);
            &&& e.holder == peer_in(e.desk.graph.holder())
            &&& e.plan.leave == Some(p) <==> s.desk.graph.holder() == Focus::Remote(p)
                && e.desk.graph.holder() != Focus::Remote(p)
        }),
{
    let g = s.desk.graph;
    let adopted = if g.current != 0 {
        g
    } else {
        GraphModel {
            x: focus::within(x, 0, g.nodes[0].width - 1),
            y: focus::within(y, 0, g.nodes[0].height - 1),
            ..g
        }
    };
    assert(1 <= g.nodes[0].width <= i32::MAX && 1 <= g.nodes[0].height <= i32::MAX);
    assert(adopted.wf());
    focus::the_pointer_is_always_on_a_screen(adopted, dx, dy);
    let h = adopted.moved(dx, dy);
    assert(h.nodes == g.nodes);
    if h.current != g.current && g.current > 0 && h.current > 0 {
        if g.current < h.current {
            assert(g.nodes[g.current].peer != g.nodes[h.current].peer);
        } else {
            assert(g.nodes[h.current].peer != g.nodes[g.current].peer);
        }
    }
}

/// Asking for the pointer brings it to the middle of this machine's screen, takes this
/// machine's input back, and tells the peer that had it.
pub proof fn asking_brings_the_pointer_home(s: ForwardModel)
    requires
        s.desk.graph.wf(),
        s.holder == peer_in(s.desk.graph.holder()),
    ensures
        ({
            let (g, e) = (s.desk.graph, s.released(true));
            &&& e.desk.graph.holder() == Focus::Local
            &&& e.desk.graph.nodes == g.nodes
            &&& g.holder() matches Focus::Remote(p) ==> {
                &&& e.plan.leave == Some(p)
                &&& e.holder is None
                &&& !e.local.suppressing
                &&& 2 * e.desk.graph.x <= g.nodes[0].width < 2 * e.desk.graph.x + 2
                &&& 2 * e.desk.graph.y <= g.nodes[0].height < 2 * e.desk.graph.y + 2
                &&& e.plan.cursor.len() == s.plan.cursor.len() + 1
                &&& e.plan.cursor.last() matches CursorAction::Home { x, y } && x == e.desk.graph.x
                    && y == e.desk.graph.y
            }
            &&& g.holder() == Focus::Local ==> e == s
            &&& s.released(false) == s
        }),
{
    let g = s.desk.graph;
    assert(1 <= g.nodes[0].width <= i32::MAX && 1 <= g.nodes[0].height <= i32::MAX);
}

/// While a peer has the pointer, this machine's own cursor is held where it left, a visible
/// distance inside the screen: as far in from the left and the right by its `x`, and from the
/// top and the bottom by its `y`. It has drifted where it is found more than four pixels away.
pub proof fn the_cursor_is_held_inside_the_screen(
    s: ForwardModel,
    cursor: (i32, i32),
    held: (i32, i32),
)
    ensures
        s.width >= 49 ==> 24 <= hold_at(cursor.0 as int, s.width as int) <= s.width - 25,
        s.height >= 49 ==> 24 <= hold_at(cursor.1 as int, s.height as int) <= s.height - 25,
        24 <= cursor.0 <= s.width - 25 ==> hold_at(cursor.0 as int, s.width as int) == cursor.0,
        24 <= cursor.1 <= s.height - 25 ==> hold_at(cursor.1 as int, s.height as int) == cursor.1,
        s.desk.graph.holder() is Remote && s.parked == Some(held) ==> s.pinned(Some(cursor)).plan.pin
            == Some(held) && s.pinned(Some(cursor)).plan.drifted == !(-4 <= cursor.0 - held.0 <= 4
            && -4 <= cursor.1 - held.1 <= 4),
        s.desk.graph.holder() == Focus::Local ==> s.pinned(Some(cursor)) == s,
{
}

/// Where the cursor is held is where it was when the pointer left, brought inside the screen,
/// and it is held nowhere once the pointer is back.
pub proof fn the_cursor_is_held_where_it_left(
    s: ForwardModel,
    x: int,
    y: int,
    dx: int,
    dy: int,
    cursor: (i32, i32),
)
    requires
        s.desk.graph.wf(),
        s.desk.graph.holder() == Focus::Local,
        s.parked is None,
        24 <= cursor.0 <= s.width - 25,
        24 <= cursor.1 <= s.height - 25,
    ensures
        ({
            let e = s.moved(x, y, dx, dy, Some(cursor));
            e.parked == if e.desk.graph.holder() == Focus::Local {
                None
            } else {
                Some(cursor)
            }
        }),
{
    let g = s.desk.graph;
    assert(g.current == 0) by {
        if g.current > 0 {
            assert(g.nodes[g.current].peer is Some);
        }
    }
    assert(1 <= g.nodes[0].width <= i32::MAX && 1 <= g.nodes[0].height <= i32::MAX);
    let adopted = GraphModel {
        x: focus::within(x, 0, g.nodes[0].width - 1),
        y: focus::within(y, 0, g.nodes[0].height - 1),
        ..g
    };
    assert(adopted.wf());
    focus::the_pointer_is_always_on_a_screen(adopted, dx, dy);
    let h = adopted.moved(dx, dy);
    if h.current > 0 {
        assert(g.nodes[h.current].peer is Some);
    }
}

/// A plan is told as it is, part by part.
pub proof fn a_plan_is_told_as_it_is(p: Plan)
    ensures
        p@.returned == p.returned,
        p@.leave == p.leave,
        p@.cursor == p.cursor@,
        p@.pin == p.pin,
        p@.drifted == p.drifted,
        p@.send is None <==> p.send is None,
        p.send matches Some(s) ==> p@.send == Some((s.0, s.1@)),
{
}

/// When the desk hands the pointer back on its own, this machine's input is given back with
/// it, its cursor is free, and the plan says so; otherwise nothing is given back.
pub proof fn a_pointer_that_comes_home_frees_the_input(s: ForwardModel)
    ensures
        s.desk.graph.holder() == Focus::Local && s.local.suppressing ==> ({
            let after = s.failed_open();
            &&& !after.local.suppressing
            &&& after.local.shown_owner is None
            &&& after.guard is None
            &&& after.plan.returned
            &&& after.desk == s.desk
        }),
        !(s.desk.graph.holder() == Focus::Local && s.local.suppressing) ==> s.failed_open() == s,
{
}

/// A peer that is switched off gets nothing: input goes to nobody, and the pointer is at home.
pub proof fn a_peer_switched_off_gives_the_pointer_back(s: ForwardModel, disabled: Seq<PeerId>)
    ensures
        s.desk.graph.holder() matches Focus::Remote(p) ==> (disabled.contains(p) ==> {
            let after = s.skipped(disabled);
            &&& after.desk.graph.current == 0
            &&& after.holder is None
            &&& !after.local.suppressing
        }),
        s.desk.graph.holder() matches Focus::Remote(p) ==> (!disabled.contains(p) ==> s.skipped(
            disabled,
        ) == s),
        s.desk.graph.holder() == Focus::Local ==> s.skipped(disabled) == s,
{
}

/// The state of forwarding is told as it is, part by part.
pub proof fn forwarding_is_told_as_it_is(f: Forwarder, plan: PlanModel)
    ensures
        f.model(plan).desk == f.desk@,
        f.model(plan).local == f.local,
        f.model(plan).guard == f.guard,
        f.model(plan).holder == f.holder,
        f.model(plan).parked == f.parked,
        f.model(plan).seq == f.seq,
        f.model(plan).width == f.width,
        f.model(plan).height == f.height,
        f.model(plan).plan == plan,
{
}

/// A cursor that is let go of is hidden once, and one that was let go of before keeps as it is.
pub proof fn a_cursor_is_hidden_once(
    u: Update,
    peer: PeerId,
    guard: CursorGuard,
    local: LocalInput,
)
    requires
        u.focus == Focus::Remote(peer),
    ensures
        handed(u, None, local).0.guard matches Some(g) && g.hidden && g.hides == 1,
        handed(u, Some(guard), local).0.guard == Some(guard),
{
}

} // verus!
