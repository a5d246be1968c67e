//! Which machine owns the mouse and keyboard, and how the pointer travels between them.
//!
//! Screens are a graph, not a strip: each machine is a node with up to four edges, and
//! each edge names the machine you arrive at. Crossing moves the pointer to the opposite
//! edge of the neighbour, so the movement feels continuous.
//!
//! Crossing is decided from relative movement: once the pointer leaves this machine its
//! cursor is detached and its reported position stops changing. One focus governs the
//! pointer and the keyboard alike.
use crate::frame::{Edge, PeerId};
use crate::text;
use vstd::prelude::*;
use vstd::string::*;

verus! {

/// Who owns input.
#[derive(Clone, Copy, PartialEq, Eq, Debug)]
pub enum Focus {
    /// This machine. Nothing is forwarded.
    Local,
    /// A peer. Input goes only there, and this machine must not act on it.
    Remote(PeerId),
}

/// One machine's screen.
#[derive(Clone, Copy, Debug)]
pub struct Node {
    /// `None` is this machine.
    pub peer: Option<PeerId>,
    pub width: i32,
    pub height: i32,
    /// Neighbour reached through the left, right, top and bottom edge.
    pub links: [Option<usize>; 4],
}

/// The machines, how they join up, and where the pointer is.
#[derive(Debug)]
pub struct Graph {
    nodes: Vec<Node>,
    current: usize,
    x: i32,
    y: i32,
}

/// One machine's screen, with its links as a sequence.
pub struct NodeModel {
    pub peer: Option<PeerId>,
    pub width: int,
    pub height: int,
    pub links: Seq<Option<usize>>,
}

impl View for Node {
    type V = NodeModel;

    open spec fn view(&self) -> NodeModel {
        NodeModel {
            peer: self.peer,
            width: self.width as int,
            height: self.height as int,
            links: self.links@,
        }
    }
}

/// A graph as a value: its screens, the one that holds the pointer, and where on it.
pub struct GraphModel {
    pub nodes: Seq<NodeModel>,
    pub current: int,
    pub x: int,
    pub y: int,
}

/// The result of applying movement.
#[derive(Clone, Copy, PartialEq, Eq, Debug)]
pub struct Update {
    pub focus: Focus,
    /// True when ownership just moved between machines.
    pub changed: bool,
    /// Pointer position in the owning machine's own pixels.
    pub x: i32,
    pub y: i32,
}

// ---------------------------------------------------------------- the model of movement
impl Edge {
    /// Where an edge stands among a node's links.
    pub open spec fn slot(self) -> int {
        match self {
            Edge::Left => 0,
            Edge::Right => 1,
            Edge::Top => 2,
            Edge::Bottom => 3,
        }
    }
}

/// `v` brought into `lo..=hi`.
pub open spec fn within(v: int, lo: int, hi: int) -> int {
    if v < lo {
        lo
    } else if v > hi {
        hi
    } else {
        v
    }
}

/// The larger of `v` and 1.
pub open spec fn at_least_one(v: int) -> int {
    if v < 1 {
        1
    } else {
        v
    }
}

/// A sum that stops at the ends of the 32-bit range.
pub open spec fn bounded_sum(a: int, b: int) -> int {
    within(a + b, i32::MIN as int, i32::MAX as int)
}

/// The edge a position lies beyond, sideways first.
pub open spec fn crossing(n: NodeModel, x: int, y: int) -> Option<Edge> {
    if x < 0 {
        Some(Edge::Left)
    } else if x >= n.width {
        Some(Edge::Right)
    } else if y < 0 {
        Some(Edge::Top)
    } else if y >= n.height {
        Some(Edge::Bottom)
    } else {
        None
    }
}

/// A position along an edge of length `from`, in proportion along one of length `to`. A
/// position before the start maps to the start, and one beyond the end to the end.
pub open spec fn proportion(value: int, from: int, to: int) -> int {
    if from <= 1 || value <= 0 {
        0
    } else {
        within(value * (to - 1) / (from - 1), 0, to - 1)
    }
}

/// Where the pointer appears on `to`, having left `from` through `edge` at (x, y). The
/// overshoot is carried across; the position along the edge is kept in proportion.
pub open spec fn arrival(edge: Edge, from: NodeModel, to: NodeModel, x: int, y: int) -> (int, int) {
    match edge {
        Edge::Left => (x + to.width, proportion(y, from.height, to.height)),
        Edge::Right => (x - from.width, proportion(y, from.height, to.height)),
        Edge::Top => (proportion(x, from.width, to.width), y + to.height),
        Edge::Bottom => (proportion(x, from.width, to.width), y - from.height),
    }
}

/// Follow edges from a position that may lie beyond the screen, at most `steps` of them:
/// the screen reached and the position there. An edge with no neighbour stops the pointer.
pub open spec fn travel(nodes: Seq<NodeModel>, current: int, x: int, y: int, steps: nat) -> (
    int,
    int,
    int,
)
    decreases steps,
{
    let n = nodes[current];
    if steps == 0 {
        (current, x, y)
    } else {
        match crossing(n, x, y) {
            None => (current, x, y),
            Some(edge) => match n.links[edge.slot()] {
                None => (current, within(x, 0, n.width - 1), within(y, 0, n.height - 1)),
                Some(next) => {
                    let (x2, y2) = arrival(edge, n, nodes[next as int], x, y);
                    travel(nodes, next as int, x2, y2, (steps - 1) as nat)
                },
            },
        }
    }
}

/// Where a link leads once the screen `index` is gone: nowhere if it led there, and to the
/// same screen under its new number otherwise.
pub open spec fn renumbered(link: Option<usize>, index: int) -> Option<usize> {
    match link {
        None => None,
        Some(to) => if to == index {
            None
        } else if to > index {
            Some((to - 1) as usize)
        } else {
            Some(to)
        },
    }
}

impl NodeModel {
    /// The screen with its links as they are once the screen `index` is gone.
    pub open spec fn relinked(self, index: int) -> NodeModel {
        NodeModel { links: Seq::new(4, |e: int| renumbered(self.links[e], index)), ..self }
    }
}

impl GraphModel {
    /// Screens have an area, links lead to screens, this machine comes first and every
    /// other screen is a different peer's.
    pub open spec fn wf(self) -> bool {
        &&& 0 < self.nodes.len()
        &&& 0 <= self.current < self.nodes.len()
        &&& self.nodes[0].peer is None
        &&& forall|i: int| 0 < i < self.nodes.len() ==> (#[trigger] self.nodes[i]).peer is Some
        &&& forall|i: int, j: int|
            0 < i < j < self.nodes.len() ==> (#[trigger] self.nodes[i]).peer != (
            #[trigger] self.nodes[j]).peer
        &&& forall|i: int|
            0 <= i < self.nodes.len() ==> {
                let n = #[trigger] self.nodes[i];
                1 <= n.width <= i32::MAX && 1 <= n.height <= i32::MAX && n.links.len() == 4
            }
        &&& forall|i: int, e: int|
            0 <= i < self.nodes.len() && 0 <= e < 4 ==> (
            #[trigger] self.nodes[i].links[e] matches Some(next) ==> next < self.nodes.len())
        &&& i32::MIN <= self.x <= i32::MAX
        &&& i32::MIN <= self.y <= i32::MAX
    }

    /// The pointer lies on the screen that holds it.
    pub open spec fn inside(self) -> bool {
        &&& 0 <= self.x < self.nodes[self.current].width
        &&& 0 <= self.y < self.nodes[self.current].height
    }

    /// Who owns input.
    pub open spec fn holder(self) -> Focus {
        match self.nodes[self.current].peer {
            None => Focus::Local,
            Some(p) => Focus::Remote(p),
        }
    }

    /// Whether a screen belongs to `peer`.
    pub open spec fn has(self, peer: PeerId) -> bool {
        exists|i: int| 0 <= i < self.nodes.len() && #[trigger] self.nodes[i].peer == Some(peer)
    }

    /// Which screen belongs to `peer`.
    pub open spec fn find(self, peer: PeerId) -> Option<int> {
        if self.has(peer) {
            Some(choose|i: int| 0 <= i < self.nodes.len() && #[trigger] self.nodes[i].peer == Some(peer))
        } else {
            None
        }
    }

    /// The graph with a screen for `peer`, added last if there was none. A screen that is
    /// already there keeps its size.
    pub open spec fn ensured(self, peer: PeerId, width: int, height: int) -> GraphModel {
        if self.has(peer) {
            self
        } else {
            GraphModel {
                nodes: self.nodes.push(
                    NodeModel {
                        peer: Some(peer),
                        width: at_least_one(width),
                        height: at_least_one(height),
                        links: Seq::new(4, |i: int| None),
                    },
                ),
                ..self
            }
        }
    }

    /// The graph in which leaving `from` through `edge` arrives at `to`.
    pub open spec fn linked(self, from: int, edge: Edge, to: int) -> GraphModel {
        let n = self.nodes[from];
        GraphModel {
            nodes: self.nodes.update(
                from,
                NodeModel { links: n.links.update(edge.slot(), Some(to as usize)), ..n },
            ),
            ..self
        }
    }

    /// The graph with `peer` on the given side of `anchor`, joined both ways. An anchor
    /// that has no screen, or that is the peer itself, leaves the links alone.
    pub open spec fn placed(
        self,
        peer: PeerId,
        edge: Edge,
        anchor: Option<PeerId>,
        width: int,
        height: int,
    ) -> GraphModel {
        let at = match anchor {
            None => Some(0int),
            Some(a) => self.find(a),
        };
        match at {
            None => self,
            Some(a) => {
                let g = self.ensured(peer, width, height);
                let p = g.find(peer)->0;
                if p == a {
                    g
                } else {
                    g.linked(a, edge, p).linked(p, edge.facing(), a)
                }
            },
        }
    }

    /// The graph without the screen `index`: no edge leads to it any more, and the screens
    /// behind it move up.
    pub open spec fn without(self, index: int) -> GraphModel {
        GraphModel {
            nodes: Seq::new(
                (self.nodes.len() - 1) as nat,
                |i: int|
                    self.nodes[if i < index {
                        i
                    } else {
                        i + 1
                    }].relinked(index),
            ),
            current: if self.current > index {
                self.current - 1
            } else {
                self.current
            },
            ..self
        }
    }

    /// The graph after `peer` is gone: it has no screen, no edge leads to where it was, and
    /// if it held the pointer the pointer is home.
    pub open spec fn forgotten(self, peer: PeerId) -> GraphModel {
        match self.find(peer) {
            None => self,
            Some(index) => if self.current == index {
                self.homed().without(index)
            } else {
                self.without(index)
            },
        }
    }

    /// The graph after the pointer moved by (dx, dy).
    pub open spec fn moved(self, dx: int, dy: int) -> GraphModel {
        let (current, x, y) = travel(
            self.nodes,
            self.current,
            bounded_sum(self.x, dx),
            bounded_sum(self.y, dy),
            8,
        );
        let n = self.nodes[current];
        GraphModel {
            nodes: self.nodes,
            current,
            x: within(x, 0, n.width - 1),
            y: within(y, 0, n.height - 1),
        }
    }

    /// The graph of this machine alone. The pointer stays where it is if it is here, and
    /// comes home if it is not.
    pub open spec fn alone(self) -> GraphModel {
        let own = NodeModel { links: Seq::new(4, |i: int| None), ..self.nodes[0] };
        let g = GraphModel { nodes: seq![own], current: 0, ..self };
        if self.current == 0 {
            g
        } else {
            g.homed()
        }
    }

    /// The graph with the pointer in the middle of this machine.
    pub open spec fn homed(self) -> GraphModel {
        GraphModel {
            nodes: self.nodes,
            current: 0,
            x: self.nodes[0].width / 2,
            y: self.nodes[0].height / 2,
        }
    }
}

impl View for Graph {
    type V = GraphModel;

    closed spec fn view(&self) -> GraphModel {
        GraphModel {
            nodes: Seq::new(self.nodes@.len(), |i: int| self.nodes@[i]@),
            current: self.current as int,
            x: self.x as int,
            y: self.y as int,
        }
    }
}

// ---------------------------------------------------------------- the graph
impl Graph {
    /// Start with only this machine, pointer in the middle of it.
    pub fn new(width: i32, height: i32) -> (g: Graph)
        ensures
            g@.wf(),
            g@.nodes.len() == 1,
            g@.nodes[0] == (NodeModel {
                peer: None,
                width: at_least_one(width as int),
                height: at_least_one(height as int),
                links: Seq::new(4, |i: int| None),
            }),
            g@.current == 0,
            g@.x == halved(width as int),
            g@.y == halved(height as int),
            width >= 0 && height >= 0 ==> g@.inside(),
    {
        let mut nodes: Vec<Node> = Vec::new();
        nodes.push(
            Node {
                peer: None,
                width: if width < 1 {
                    1
                } else {
                    width
                },
                height: if height < 1 {
                    1
                } else {
                    height
                },
                links: [None; 4],
            },
        );
        let g = Graph { nodes, current: 0, x: half(width), y: half(height) };
        proof {
            assert(g@.nodes[0].links =~= Seq::new(4, |i: int| None));
        }
        g
    }

    fn index_of(&self, peer: PeerId) -> (r: Option<usize>)
        requires
            self@.wf(),
        ensures
            match self@.find(peer) {
                Some(i) => r is Some && r->0 == i && 0 < i < self@.nodes.len()
                    && self@.nodes[i].peer == Some(peer),
                None => r is None,
            },
    {
        let mut i: usize = 0;
        while i < self.nodes.len()
            invariant
                self@.wf(),
                i <= self.nodes@.len(),
                forall|k: int| 0 <= k < i ==> (#[trigger] self@.nodes[k]).peer != Some(peer),
            decreases self.nodes.len() - i,
        {
            let here = match self.nodes[i].peer {
                Some(p) => p.same(&peer),
                None => false,
            };
            if here {
                proof {
                    assert(self@.nodes[i as int].peer == Some(peer));
                    let j = self@.find(peer)->0;
                    assert(self@.nodes[j].peer == Some(peer));
                }
                return Some(i);
            }
            i = i + 1;
        }
        None
    }

    fn ensure(&mut self, peer: PeerId, width: i32, height: i32) -> (r: usize)
        requires
            old(self)@.wf(),
        ensures
            final(self)@ == old(self)@.ensured(peer, width as int, height as int),
            final(self)@.wf(),
            final(self)@.find(peer) == Some(r as int),
            0 < r < final(self)@.nodes.len(),
    {
        if let Some(i) = self.index_of(peer) {
            return i;
        }
        let ghost before = self@;
        let node = Node {
            peer: Some(peer),
            width: if width < 1 {
                1
            } else {
                width
            },
            height: if height < 1 {
                1
            } else {
                height
            },
            links: [None; 4],
        };
        self.nodes.push(node);
        let at: usize = self.nodes.len() - 1;
        proof {
            let want = before.ensured(peer, width as int, height as int);
            assert(node@.links =~= Seq::new(4, |i: int| None));
            assert(self@.nodes =~= want.nodes);
            assert(self@.nodes[at as int].peer == Some(peer));
            assert forall|k: int| 0 <= k < before.nodes.len() implies (
            #[trigger] self@.nodes[k]).peer != Some(peer) by {
                assert(before.nodes[k].peer != Some(peer));
            }
            let found = self@.find(peer)->0;
            assert(self@.nodes[found].peer == Some(peer));
        }
        at
    }

    /// How many screens there are, this machine's included.
    #[must_use]
    pub fn node_count(&self) -> (n: usize)
        ensures
            n == self@.nodes.len(),
    {
        self.nodes.len()
    }

    fn set_link(&mut self, from: usize, edge: Edge, to: usize)
        requires
            old(self)@.wf(),
            from < old(self)@.nodes.len(),
            to < old(self)@.nodes.len(),
        ensures
            final(self)@ == old(self)@.linked(from as int, edge, to as int),
            final(self)@.wf(),
    {
        let ghost before = self@;
        let mut node = self.nodes[from];
        node.links[edge.index()] = Some(to);
        self.nodes.set(from, node);
        proof {
            assert(node@.links =~= before.nodes[from as int].links.update(edge.slot(), Some(to)));
            assert(self@.nodes =~= before.linked(from as int, edge, to as int).nodes);
            linking_keeps_wf(before, from as int, edge, to as int);
        }
    }

    /// Attach `peer` on the given side of `anchor` (`None` meaning this machine).
    ///
    /// The reverse link is created automatically: a screen you can reach must be one you
    /// can come back from, and a one-way edge is how a pointer gets stranded.
    pub fn place(
        &mut self,
        peer: PeerId,
        edge: Edge,
        anchor: Option<PeerId>,
        width: i32,
        height: i32,
    )
        requires
            old(self)@.wf(),
        ensures
            final(self)@ == old(self)@.placed(peer, edge, anchor, width as int, height as int),
            final(self)@.wf(),
            old(self)@.inside() ==> final(self)@.inside(),
    {
        let ghost before = self@;
        let anchor_index: usize = match anchor {
            None => 0,
            Some(a) => match self.index_of(a) {
                Some(i) => i,
                None => return ,
            },
        };
        let peer_index: usize = self.ensure(peer, width, height);
        if peer_index == anchor_index {
            return ;
        }
        self.set_link(anchor_index, edge, peer_index);
        self.set_link(peer_index, edge.opposite(), anchor_index);
    }

    /// Remove a screen that does not hold the pointer, and every edge that leads to it.
    fn remove(&mut self, index: usize)
        requires
            old(self)@.wf(),
            0 < index < old(self)@.nodes.len(),
            old(self)@.current != index,
        ensures
            final(self)@ == old(self)@.without(index as int),
            final(self)@.wf(),
    {
        let ghost before = self@;
        let ghost after = before.without(index as int);
        let mut nodes: Vec<Node> = Vec::new();
        let mut i: usize = 0;
        while i < self.nodes.len()
            invariant
                i <= self.nodes@.len(),
                self@ == before,
                before.wf(),
                0 < index < before.nodes.len(),
                after == before.without(index as int),
                nodes@.len() == (if i <= index {
                    i as int
                } else {
                    i - 1
                }),
                forall|k: int| 0 <= k < nodes@.len() ==> (#[trigger] nodes@[k])@ == after.nodes[k],
            decreases self.nodes.len() - i,
        {
            if i != index {
                let node = relink(self.nodes[i], index);
                proof {
                    let k = nodes@.len() as int;
                    assert(self@.nodes[i as int] == self.nodes@[i as int]@);
                    assert(after.nodes[k] == before.nodes[i as int].relinked(index as int));
                }
                nodes.push(node);
            }
            i = i + 1;
        }
        self.nodes = nodes;
        if self.current > index {
            self.current = self.current - 1;
        }
        proof {
            assert(self@.nodes =~= after.nodes);
            removing_keeps_wf(before, index as int);
        }
    }

    /// Remove a peer, returning the pointer here if it held it.
    pub fn forget(&mut self, peer: PeerId)
        requires
            old(self)@.wf(),
        ensures
            final(self)@ == old(self)@.forgotten(peer),
            final(self)@.wf(),
            !final(self)@.has(peer),
            old(self)@.inside() ==> final(self)@.inside(),
            final(self)@.holder() != Focus::Remote(peer),
    {
        let ghost before = self@;
        let index: usize = match self.index_of(peer) {
            Some(i) => i,
            None => {
                return ;
            },
        };
        if self.current == index {
            // Never leave input aimed at a machine that is gone.
            self.return_home();
        }
        let ghost mid = self@;
        self.remove(index);
        proof {
            forgetting_leaves_the_others(before, peer, peer);
            assert(mid.nodes[mid.current].relinked(index as int)
                == self@.nodes[self@.current]);
        }
    }

    /// Remove every peer, so that all can be placed afresh.
    pub fn forget_all(&mut self)
        requires
            old(self)@.wf(),
        ensures
            final(self)@.wf(),
            final(self)@ == old(self)@.alone(),
            old(self)@.inside() ==> final(self)@.inside(),
    {
        let ghost before = self@;
        let mut own = self.nodes[0];
        own.links = [None; 4];
        let mut nodes: Vec<Node> = Vec::new();
        nodes.push(own);
        self.nodes = nodes;
        if self.current != 0 {
            self.current = 0;
            self.x = self.nodes[0].width / 2;
            self.y = self.nodes[0].height / 2;
        }
        proof {
            assert(own@.links =~= Seq::new(4, |i: int| None));
            assert(self@.nodes =~= seq![
                NodeModel { links: Seq::new(4, |i: int| None), ..before.nodes[0] },
            ]);
        }
    }

    pub fn return_home(&mut self)
        requires
            old(self)@.wf(),
        ensures
            final(self)@ == old(self)@.homed(),
            final(self)@.wf(),
            final(self)@.inside(),
            final(self)@.holder() == Focus::Local,
    {
        self.current = 0;
        self.x = self.nodes[0].width / 2;
        self.y = self.nodes[0].height / 2;
    }

    /// Bring the pointer home and say where it is now.
    pub fn force_home(&mut self) -> (u: Update)
        requires
            old(self)@.wf(),
        ensures
            final(self)@ == old(self)@.homed(),
            final(self)@.wf(),
            final(self)@.inside(),
            u == (Update {
                focus: Focus::Local,
                changed: old(self)@.current != 0,
                x: final(self)@.x as i32,
                y: final(self)@.y as i32,
            }),
    {
        let changed = self.current != 0;
        self.return_home();
        Update { focus: Focus::Local, changed, x: self.x, y: self.y }
    }

    #[must_use]
    pub fn focus(&self) -> (f: Focus)
        requires
            self@.wf(),
        ensures
            f == self@.holder(),
    {
        assert(self@.nodes[self@.current] == self.nodes@[self.current as int]@);
        match self.nodes[self.current].peer {
            None => Focus::Local,
            Some(p) => Focus::Remote(p),
        }
    }

    /// Where the pointer is, in the pixels of the machine that holds it.
    #[must_use]
    pub fn position(&self) -> (p: (i32, i32))
        ensures
            p.0 == self@.x,
            p.1 == self@.y,
    {
        (self.x, self.y)
    }

    #[must_use]
    pub fn is_placed(&self, peer: PeerId) -> (b: bool)
        requires
            self@.wf(),
        ensures
            b == self@.has(peer),
    {
        self.index_of(peer).is_some()
    }

    /// Adopt the operating system's own cursor position while input is local.
    ///
    /// While the pointer is on this machine the system's cursor is the truth; accumulating
    /// deltas from an assumed start would drift away from it. Once focus is remote that
    /// cursor is detached and stops moving, so it is ignored.
    pub fn sync_local_cursor(&mut self, x: i32, y: i32)
        requires
            old(self)@.wf(),
        ensures
            final(self)@ == (if old(self)@.current != 0 {
                old(self)@
            } else {
                GraphModel {
                    x: within(x as int, 0, old(self)@.nodes[0].width - 1),
                    y: within(y as int, 0, old(self)@.nodes[0].height - 1),
                    ..old(self)@
                }
            }),
            final(self)@.wf(),
            old(self)@.current == 0 || old(self)@.inside() ==> final(self)@.inside(),
    {
        if self.current != 0 {
            return ;
        }
        let ghost before = self@;
        assert(before.nodes[0] == self.nodes@[0]@);
        let node = self.nodes[0];
        self.x = bring_within(x, 0, node.width - 1);
        self.y = bring_within(y, 0, node.height - 1);
        proof {
            assert(self@.nodes =~= before.nodes);
        }
    }

    /// Apply movement, crossing edges as needed.
    pub fn apply_motion(&mut self, dx: i32, dy: i32) -> (u: Update)
        requires
            old(self)@.wf(),
        ensures
            final(self)@ == old(self)@.moved(dx as int, dy as int),
            final(self)@.wf(),
            final(self)@.inside(),
            u == (Update {
                focus: final(self)@.holder(),
                changed: final(self)@.current != old(self)@.current,
                x: final(self)@.x as i32,
                y: final(self)@.y as i32,
            }),
    {
        let before: usize = self.current;
        let ghost start = self@;
        self.x = add_bounded(self.x, dx);
        self.y = add_bounded(self.y, dy);
        let ghost goal = travel(start.nodes, start.current, self.x as int, self.y as int, 8);
        // Loop, because one fast flick can cross more than one screen.
        let mut left: u32 = 8;
        let mut settled = false;
        assert(self@.nodes =~= start.nodes);
        while left > 0 && !settled
            invariant
                left <= 8,
                self@.wf(),
                self@.nodes == start.nodes,
                settled ==> goal == (self@.current, self@.x, self@.y),
                !settled ==> goal == travel(
                    start.nodes,
                    self@.current,
                    self@.x,
                    self@.y,
                    left as nat,
                ),
            decreases left + (if settled {
                    0int
                } else {
                    1
                }),
        {
            let node = self.nodes[self.current];
            let (w, h): (i32, i32) = (node.width, node.height);
            assert(self@.nodes[self@.current] == node@);
            let crossed = if self.x < 0 {
                Some(Edge::Left)
            } else if self.x >= w {
                Some(Edge::Right)
            } else if self.y < 0 {
                Some(Edge::Top)
            } else if self.y >= h {
                Some(Edge::Bottom)
            } else {
                None
            };
            match crossed {
                None => {
                    settled = true;
                },
                Some(edge) => match node.links[edge.index()] {
                    None => {
                        // No neighbour that way: stop at the edge rather than letting the
                        // pointer wander somewhere no screen exists.
                        self.x = bring_within(self.x, 0, w - 1);
                        self.y = bring_within(self.y, 0, h - 1);
                        settled = true;
                    },
                    Some(next) => {
                        // Enter at the matching edge, carrying the overshoot across rather
                        // than snapping to the border.
                        assert(self@.nodes[self@.current].links[edge.slot()] == Some(next));
                        assert(next < self@.nodes.len());
                        let target = self.nodes[next];
                        assert(self@.nodes[next as int] == target@);
                        match edge {
                            Edge::Left => {
                                self.y = scale(self.y, h, target.height);
                                self.x = self.x + target.width;
                            },
                            Edge::Right => {
                                self.y = scale(self.y, h, target.height);
                                self.x = self.x - w;
                            },
                            Edge::Top => {
                                self.x = scale(self.x, w, target.width);
                                self.y = self.y + target.height;
                            },
                            Edge::Bottom => {
                                self.x = scale(self.x, w, target.width);
                                self.y = self.y - h;
                            },
                        }
                        self.current = next;
                        left = left - 1;
                    },
                },
            }
            assert(self@.nodes =~= start.nodes);
        }
        let node = self.nodes[self.current];
        assert(self@.nodes[self@.current] == node@);
        self.x = bring_within(self.x, 0, node.width - 1);
        self.y = bring_within(self.y, 0, node.height - 1);
        assert(self@.nodes =~= start.nodes);
        Update { focus: self.focus(), changed: self.current != before, x: self.x, y: self.y }
    }
}

impl Edge {
    /// The side a word names, if any: surrounding white space and case do not matter.
    pub open spec fn named(s: Seq<char>) -> Option<Edge> {
        let word = text::lowered(text::trimmed(s));
        if word == "left"@ {
            Some(Edge::Left)
        } else if word == "right"@ {
            Some(Edge::Right)
        } else if word == "top"@ || word == "up"@ || word == "above"@ {
            Some(Edge::Top)
        } else if word == "bottom"@ || word == "down"@ || word == "below"@ {
            Some(Edge::Bottom)
        } else {
            None
        }
    }

    /// Parse a side from the words people write.
    pub fn parse(text: &str) -> (e: Option<Edge>)
        ensures
            e == Edge::named(text@),
    {
        let chars = text::chars_of(text);
        let trimmed = text::trim(chars.as_slice());
        let word = text::lower_ascii(trimmed.as_slice());
        let word = word.as_slice();
        if text::is_text(word, "left") {
            Some(Edge::Left)
        } else if text::is_text(word, "right") {
            Some(Edge::Right)
        } else if text::is_text(word, "top") || text::is_text(word, "up") || text::is_text(
            word,
            "above",
        ) {
            Some(Edge::Top)
        } else if text::is_text(word, "bottom") || text::is_text(word, "down") || text::is_text(
            word,
            "below",
        ) {
            Some(Edge::Bottom)
        } else {
            None
        }
    }

    /// Where an edge stands among a node's links.
    pub fn index(self) -> (i: usize)
        ensures
            i == self.slot(),
            i < 4,
    {
        match self {
            Edge::Left => 0,
            Edge::Right => 1,
            Edge::Top => 2,
            Edge::Bottom => 3,
        }
    }
}

/// The screen with its links as they are once the screen `index` is gone.
fn relink(node: Node, index: usize) -> (r: Node)
    ensures
        r@ == node@.relinked(index as int),
{
    let mut links: [Option<usize>; 4] = [None; 4];
    let mut e: usize = 0;
    while e < 4
        invariant
            e <= 4,
            forall|k: int|
                0 <= k < e ==> links@[k] == renumbered(#[trigger] node.links@[k], index as int),
            forall|k: int| e <= k < 4 ==> links@[k] is None,
        decreases 4 - e,
    {
        if let Some(to) = node.links[e] {
            if to < index {
                links[e] = Some(to);
            } else if to > index {
                links[e] = Some(to - 1);
            }
        }
        e = e + 1;
    }
    let r = Node { links, ..node };
    proof {
        assert(r@.links =~= node@.relinked(index as int).links);
    }
    r
}

fn bring_within(v: i32, lo: i32, hi: i32) -> (r: i32)
    requires
        lo <= hi,
    ensures
        r == within(v as int, lo as int, hi as int),
{
    if v < lo {
        lo
    } else if v > hi {
        hi
    } else {
        v
    }
}

fn add_bounded(a: i32, b: i32) -> (r: i32)
    ensures
        r == bounded_sum(a as int, b as int),
{
    let sum: i64 = a as i64 + b as i64;
    if sum > i32::MAX as i64 {
        i32::MAX
    } else if sum < i32::MIN as i64 {
        i32::MIN
    } else {
        sum as i32
    }
}

/// Map a position along an edge onto a screen of a different size, so a 1080-tall screen
/// and a 2160-tall one line up proportionally rather than by raw pixel row.
pub fn scale(value: i32, from: i32, to: i32) -> (r: i32)
    requires
        to >= 1,
    ensures
        r == proportion(value as int, from as int, to as int),
        0 <= r < to,
{
    if from <= 1 || value <= 0 {
        return 0;
    }
    let (v, t, f): (i64, i64, i64) = (value as i64, to as i64 - 1, from as i64 - 1);
    proof {
        assert(0 <= v * t <= 0x7FFF_FFFF * 0x7FFF_FFFF) by (nonlinear_arith)
            requires
                0 <= v <= 0x7FFF_FFFF,
                0 <= t <= 0x7FFF_FFFF,
        ;
        assert((v * t) as int / f as int >= 0) by (nonlinear_arith)
            requires
                v * t >= 0,
                f > 0,
        ;
    }
    let scaled: i64 = v * t / f;
    if scaled > t {
        to - 1
    } else {
        scaled as i32
    }
}

/// Adding a link keeps a graph well formed.
pub proof fn linking_keeps_wf(g: GraphModel, from: int, edge: Edge, to: int)
    requires
        g.wf(),
        0 <= from < g.nodes.len(),
        0 <= to < g.nodes.len(),
        to <= usize::MAX,
    ensures
        g.linked(from, edge, to).wf(),
{
    let h = g.linked(from, edge, to);
    assert forall|i: int| 0 <= i < h.nodes.len() implies (#[trigger] h.nodes[i]).peer
        == g.nodes[i].peer && h.nodes[i].width == g.nodes[i].width && h.nodes[i].height
        == g.nodes[i].height && h.nodes[i].links.len() == 4 by {
        assert(g.nodes[i].links.len() == 4);
    }
    assert forall|i: int, e: int| 0 <= i < h.nodes.len() && 0 <= e < 4 implies (
    #[trigger] h.nodes[i].links[e] matches Some(next) ==> next < h.nodes.len()) by {
        assert(g.nodes[i].links[e] matches Some(next) ==> next < g.nodes.len());
    }
    assert forall|i: int, j: int| 0 < i < j < h.nodes.len() implies (#[trigger] h.nodes[i]).peer
        != (#[trigger] h.nodes[j]).peer by {
        assert(g.nodes[i].peer != g.nodes[j].peer);
    }
}

/// Adding a screen keeps a graph well formed, and the screen is found where it was added.
pub proof fn ensuring_keeps_wf(g: GraphModel, peer: PeerId, width: int, height: int)
    requires
        g.wf(),
        width <= i32::MAX,
        height <= i32::MAX,
    ensures
        g.ensured(peer, width, height).wf(),
        g.ensured(peer, width, height).find(peer) matches Some(p) && 0 < p < g.ensured(
            peer,
            width,
            height,
        ).nodes.len() && g.ensured(peer, width, height).nodes[p].peer == Some(peer),
        forall|i: int|
            0 <= i < g.nodes.len() ==> g.ensured(peer, width, height).nodes[i] == #[trigger] g.nodes[i],
{
    let h = g.ensured(peer, width, height);
    if !g.has(peer) {
        let at = g.nodes.len() as int;
        assert(h.nodes[at].peer == Some(peer));
        assert forall|k: int| 0 <= k < g.nodes.len() implies (#[trigger] h.nodes[k]).peer != Some(
            peer,
        ) by {
            assert(g.nodes[k].peer != Some(peer));
        }
        assert forall|i: int, e: int| 0 <= i < h.nodes.len() && 0 <= e < 4 implies (
        #[trigger] h.nodes[i].links[e] matches Some(next) ==> next < h.nodes.len()) by {
            if i < at {
                assert(g.nodes[i].links[e] matches Some(next) ==> next < g.nodes.len());
            }
        }
    }
    let p = h.find(peer)->0;
    assert(h.nodes[p].peer == Some(peer));
}

/// Removing a screen that does not hold the pointer keeps a graph well formed.
pub proof fn removing_keeps_wf(g: GraphModel, index: int)
    requires
        g.wf(),
        0 < index < g.nodes.len(),
        g.current != index,
    ensures
        g.without(index).wf(),
{
    let h = g.without(index);
    let old_of = |i: int|
        if i < index {
            i
        } else {
            i + 1
        };
    assert forall|i: int| 0 <= i < h.nodes.len() implies (#[trigger] h.nodes[i])
        == g.nodes[old_of(i)].relinked(index) && 1 <= h.nodes[i].width <= i32::MAX && 1
        <= h.nodes[i].height <= i32::MAX by {
        let n = g.nodes[old_of(i)];
    }
    assert forall|i: int| 0 < i < h.nodes.len() implies (#[trigger] h.nodes[i]).peer is Some by {
        let n = g.nodes[old_of(i)];
    }
    assert forall|i: int, e: int| 0 <= i < h.nodes.len() && 0 <= e < 4 implies (
    #[trigger] h.nodes[i].links[e] matches Some(next) ==> next < h.nodes.len()) by {
        let n = g.nodes[old_of(i)];
        assert(n.links[e] matches Some(next) ==> next < g.nodes.len()) by {
            assert(g.nodes[old_of(i)].links[e] == n.links[e]);
        }
    }
    assert forall|i: int, j: int| 0 < i < j < h.nodes.len() implies (#[trigger] h.nodes[i]).peer
        != (#[trigger] h.nodes[j]).peer by {
        assert(g.nodes[old_of(i)].peer != g.nodes[old_of(j)].peer);
    }
}

/// Half of a number, rounded toward zero.
pub open spec fn halved(v: int) -> int {
    if v >= 0 {
        v / 2
    } else {
        -((-v) / 2)
    }
}

fn half(v: i32) -> (h: i32)
    ensures
        h == halved(v as int),
{
    v / 2
}

// ---------------------------------------------------------------- laws
/// Moving within a screen never hands over: the pointer moves by exactly the movement.
pub proof fn moving_within_a_screen_stays_there(g: GraphModel, dx: int, dy: int)
    requires
        g.wf(),
        0 <= g.x + dx < g.nodes[g.current].width,
        0 <= g.y + dy < g.nodes[g.current].height,
    ensures
        g.moved(dx, dy) == (GraphModel { x: g.x + dx, y: g.y + dy, ..g }),
{
}

/// An edge with no neighbour stops the pointer rather than losing it.
pub proof fn a_dead_edge_stops_the_pointer(g: GraphModel, dx: int, dy: int)
    requires
        g.wf(),
        crossing(
            g.nodes[g.current],
            bounded_sum(g.x, dx),
            bounded_sum(g.y, dy),
        ) matches Some(edge) && g.nodes[g.current].links[edge.slot()] is None,
    ensures
        g.moved(dx, dy).current == g.current,
        g.moved(dx, dy).x == within(
            bounded_sum(g.x, dx),
            0,
            g.nodes[g.current].width - 1,
        ),
        g.moved(dx, dy).y == within(
            bounded_sum(g.y, dy),
            0,
            g.nodes[g.current].height - 1,
        ),
{
    reveal_with_fuel(travel, 2);
}

/// The pointer always lies on the screen that holds it, wherever it was sent.
pub proof fn the_pointer_is_always_on_a_screen(g: GraphModel, dx: int, dy: int)
    requires
        g.wf(),
    ensures
        g.moved(dx, dy).inside(),
        0 <= g.moved(dx, dy).current < g.nodes.len(),
        g.moved(dx, dy).nodes == g.nodes,
{
    let (x, y) = (bounded_sum(g.x, dx), bounded_sum(g.y, dy));
    travel_stays_on_the_graph(g, g.current, x, y, 8);
    let n = g.nodes[travel(g.nodes, g.current, x, y, 8).0];
    assert(n.width >= 1 && n.height >= 1);
}

proof fn travel_stays_on_the_graph(g: GraphModel, current: int, x: int, y: int, steps: nat)
    requires
        g.wf(),
        0 <= current < g.nodes.len(),
    ensures
        0 <= travel(g.nodes, current, x, y, steps).0 < g.nodes.len(),
    decreases steps,
{
    let n = g.nodes[current];
    if steps > 0 {
        if let Some(edge) = crossing(n, x, y) {
            if let Some(next) = n.links[edge.slot()] {
                assert(g.nodes[current].links[edge.slot()] == Some(next));
                let (x2, y2) = arrival(edge, n, g.nodes[next as int], x, y);
                travel_stays_on_the_graph(g, next as int, x2, y2, (steps - 1) as nat);
            }
        }
    }
}

/// Movement ends where it began or on a screen that some edge leads to.
pub proof fn movement_follows_edges(g: GraphModel, dx: int, dy: int)
    requires
        g.wf(),
    ensures
        g.moved(dx, dy).current == g.current || exists|i: int, e: int|
            0 <= i < g.nodes.len() && 0 <= e < 4 && #[trigger] g.nodes[i].links[e] is Some
                && g.nodes[i].links[e]->0 == g.moved(dx, dy).current,
{
    let (x, y) = (bounded_sum(g.x, dx), bounded_sum(g.y, dy));
    travel_follows_edges(g, g.current, x, y, 8);
}

proof fn travel_follows_edges(g: GraphModel, current: int, x: int, y: int, steps: nat)
    requires
        g.wf(),
        0 <= current < g.nodes.len(),
    ensures
        travel(g.nodes, current, x, y, steps).0 == current || exists|i: int, e: int|
            0 <= i < g.nodes.len() && 0 <= e < 4 && #[trigger] g.nodes[i].links[e] is Some
                && g.nodes[i].links[e]->0 == travel(g.nodes, current, x, y, steps).0,
    decreases steps,
{
    let n = g.nodes[current];
    if steps > 0 {
        if let Some(edge) = crossing(n, x, y) {
            if let Some(next) = n.links[edge.slot()] {
                assert(g.nodes[current].links[edge.slot()] == Some(next));
                let (x2, y2) = arrival(edge, n, g.nodes[next as int], x, y);
                travel_follows_edges(g, next as int, x2, y2, (steps - 1) as nat);
            }
        }
    }
}

/// Movement of `d` pixels toward an edge.
pub open spec fn toward(edge: Edge, d: int) -> (int, int) {
    match edge {
        Edge::Left => (-d, 0),
        Edge::Right => (d, 0),
        Edge::Top => (0, -d),
        Edge::Bottom => (0, d),
    }
}

/// How far the pointer is from leaving through an edge: the movement that is one too many.
pub open spec fn room(g: GraphModel, edge: Edge) -> int {
    let n = g.nodes[g.current];
    match edge {
        Edge::Left => g.x + 1,
        Edge::Right => n.width - g.x,
        Edge::Top => g.y + 1,
        Edge::Bottom => n.height - g.y,
    }
}

/// How long a screen is across an edge.
pub open spec fn depth(n: NodeModel, edge: Edge) -> int {
    match edge {
        Edge::Left | Edge::Right => n.width,
        Edge::Top | Edge::Bottom => n.height,
    }
}

/// Crossing is continuous: pushing `over` pixels past an edge with a neighbour arrives
/// that many pixels inside the neighbour's facing edge.
pub proof fn crossing_carries_the_overshoot(g: GraphModel, edge: Edge, next: int, over: int)
    requires
        g.wf(),
        g.inside(),
        g.nodes[g.current].links[edge.slot()] == Some(next as usize),
        0 <= next <= usize::MAX,
        0 <= over < depth(g.nodes[next], edge),
        depth(g.nodes[g.current], edge) + over <= i32::MAX,
    ensures
        ({
            let (dx, dy) = toward(edge, room(g, edge) + over);
            let h = g.moved(dx, dy);
            h.current == next && h.nodes == g.nodes && room(h, edge.facing()) == over + 1
                && h.inside()
        }),
{
    let (dx, dy) = toward(edge, room(g, edge) + over);
    let n = g.nodes[g.current];
    let (x, y) = (g.x + dx, g.y + dy);
    assert(n.links[edge.slot()] == Some(next as usize));
    assert(next < g.nodes.len());
    let m = g.nodes[next];
    assert(1 <= m.width <= i32::MAX && 1 <= m.height <= i32::MAX);
    assert(crossing(n, x, y) == Some(edge));
    let (x2, y2) = arrival(edge, n, m, x, y);
    proportion_fits(y, n.height, m.height);
    proportion_fits(x, n.width, m.width);
    assert(crossing(m, x2, y2) is None);
    reveal_with_fuel(travel, 3);
    assert(travel(g.nodes, g.current, x, y, 8) == (next, x2, y2));
}

proof fn proportion_fits(value: int, from: int, to: int)
    requires
        to >= 1,
    ensures
        0 <= proportion(value, from, to) < to,
{
    if from > 1 && value > 0 {
        assert(value * (to - 1) / (from - 1) >= 0) by (nonlinear_arith)
            requires
                value > 0,
                to >= 1,
                from > 1,
        ;
    }
}

/// A screen you can reach is one you can come back from: where two screens are joined both
/// ways, leaving by any overshoot and pushing back by more than it returns the pointer to
/// the screen it came from.
pub proof fn leaving_and_coming_back(g: GraphModel, edge: Edge, next: int, over: int, back: int)
    requires
        g.wf(),
        g.inside(),
        0 <= next <= usize::MAX,
        g.current <= usize::MAX,
        g.nodes[g.current].links[edge.slot()] == Some(next as usize),
        g.nodes[next].links[edge.facing().slot()] == Some(g.current as usize),
        0 <= over < depth(g.nodes[next], edge),
        0 <= back < depth(g.nodes[g.current], edge),
        depth(g.nodes[g.current], edge) + over <= i32::MAX,
        depth(g.nodes[next], edge) + back <= i32::MAX,
    ensures
        ({
            let (dx, dy) = toward(edge, room(g, edge) + over);
            let there = g.moved(dx, dy);
            let (bx, by) = toward(edge.facing(), over + 1 + back);
            let home = there.moved(bx, by);
            there.current == next && home.current == g.current && room(home, edge) == back + 1
        }),
{
    let (dx, dy) = toward(edge, room(g, edge) + over);
    let there = g.moved(dx, dy);
    crossing_carries_the_overshoot(g, edge, next, over);
    assert(there.wf()) by {
        assert(there.nodes[next] == g.nodes[next]);
    }
    crossing_carries_the_overshoot(there, edge.facing(), g.current, back);
}

/// Placing joins both ways.
pub proof fn placing_joins_both_ways(
    g: GraphModel,
    peer: PeerId,
    edge: Edge,
    anchor: Option<PeerId>,
    width: int,
    height: int,
)
    requires
        g.wf(),
        g.nodes.len() < usize::MAX,
        anchor matches Some(a) ==> g.has(a) && a != peer,
    ensures
        ({
            let h = g.placed(peer, edge, anchor, width, height);
            let a = match anchor {
                None => 0int,
                Some(a) => g.find(a)->0,
            };
            exists|p: int|
                {
                    &&& 0 < p < h.nodes.len()
                    &&& #[trigger] h.nodes[p].peer == Some(peer)
                    &&& h.nodes[a].links[edge.slot()] == Some(p as usize)
                    &&& h.nodes[p].links[edge.facing().slot()] == Some(a as usize)
                }
        }),
{
    let a = match anchor {
        None => 0int,
        Some(a) => g.find(a)->0,
    };
    let e = g.ensured(peer, width, height);
    if !g.has(peer) {
        assert(e.nodes[g.nodes.len() as int].peer == Some(peer));
    }
    let p = e.find(peer)->0;
    assert(e.nodes[p].peer == Some(peer));
    assert(e.nodes[a] == g.nodes[a]);
    assert(p != a);
    assert(e.nodes[p].links.len() == 4) by {
        if p < g.nodes.len() {
            assert(g.nodes[p].links.len() == 4);
        }
    }
    assert(g.nodes[a].links.len() == 4);
    let h = g.placed(peer, edge, anchor, width, height);
    assert(h.nodes[p].peer == Some(peer));
}

/// A machine that is gone has no screen and cannot be reached: after it is forgotten, it is
/// not placed, and no movement ends on it.
pub proof fn a_forgotten_machine_is_unreachable(g: GraphModel, peer: PeerId, dx: int, dy: int)
    requires
        g.wf(),
    ensures
        !g.forgotten(peer).has(peer),
        g.forgotten(peer).holder() != Focus::Remote(peer),
        g.forgotten(peer).moved(dx, dy).holder() != Focus::Remote(peer),
{
    let h = g.forgotten(peer);
    forgetting_leaves_the_others(g, peer, peer);
    let (x, y) = (bounded_sum(h.x, dx), bounded_sum(h.y, dy));
    travel_stays_on_the_graph(h, h.current, x, y, 8);
    let end = travel(h.nodes, h.current, x, y, 8).0;
    assert(h.nodes[end].peer != Some(peer));
    assert(h.nodes[h.current].peer != Some(peer));
}

/// Forgetting takes away that machine and no other: it has no screen afterwards, every other
/// machine has one just where it had one, and input stays with its owner unless the owner is
/// the one forgotten.
pub proof fn forgetting_leaves_the_others(g: GraphModel, peer: PeerId, other: PeerId)
    requires
        g.wf(),
    ensures
        g.forgotten(peer).wf(),
        !g.forgotten(peer).has(peer),
        other != peer ==> g.forgotten(peer).has(other) == g.has(other),
        g.forgotten(peer).holder() == (if g.holder() == Focus::Remote(peer) {
            Focus::Local
        } else {
            g.holder()
        }),
{
    let h = g.forgotten(peer);
    match g.find(peer) {
        None => {
            assert(g.nodes[g.current].peer != Some(peer));
        },
        Some(index) => {
            assert(g.nodes[index].peer == Some(peer));
            let m = if g.current == index {
                g.homed()
            } else {
                g
            };
            removing_keeps_wf(m, index);
            assert forall|i: int| 0 <= i < h.nodes.len() implies (#[trigger] h.nodes[i]).peer
                != Some(peer) by {
                only_one_screen_each(
                    g,
                    index,
                    if i < index {
                        i
                    } else {
                        i + 1
                    },
                );
            }
            if g.current != index {
                only_one_screen_each(g, index, g.current);
            }
            assert(h.nodes[h.current].peer == m.nodes[m.current].peer);
            if other != peer && g.has(other) {
                let i = choose|i: int|
                    0 <= i < g.nodes.len() && #[trigger] g.nodes[i].peer == Some(other);
                assert(h.nodes[if i < index {
                    i
                } else {
                    i - 1
                }].peer == Some(other));
            }
            if h.has(other) {
                let i = choose|i: int|
                    0 <= i < h.nodes.len() && #[trigger] h.nodes[i].peer == Some(other);
                assert(g.nodes[if i < index {
                    i
                } else {
                    i + 1
                }].peer == Some(other));
            }
        },
    }
}

proof fn only_one_screen_each(g: GraphModel, a: int, b: int)
    requires
        g.wf(),
        0 < a < g.nodes.len(),
        0 <= b < g.nodes.len(),
        a != b,
    ensures
        g.nodes[a].peer != g.nodes[b].peer,
{
    if b > 0 {
        if a < b {
            assert(g.nodes[a].peer != g.nodes[b].peer);
        } else {
            assert(g.nodes[b].peer != g.nodes[a].peer);
        }
    }
}

/// Leaving a screen sideways arrives on the neighbour's facing side, as far inside it as the
/// pointer went past the edge, and at the same height: unchanged between screens of one
/// height, in proportion otherwise, the first row at the first and the last at the last.
pub proof fn crossing_sideways_keeps_the_height(g: GraphModel, next: int, dx: int, dy: int)
    requires
        g.wf(),
        0 <= next < g.nodes.len(),
        next <= usize::MAX,
        i32::MIN <= g.x + dx <= i32::MAX,
        i32::MIN <= g.y + dy <= i32::MAX,
    ensures
        ({
            let (n, m, h) = (g.nodes[g.current], g.nodes[next], g.moved(dx, dy));
            let at = g.y + dy;
            let beyond_end = g.nodes[g.current].links[Edge::Right.slot()] == Some(next as usize)
                && n.width <= g.x + dx < n.width + m.width;
            let before_start = g.nodes[g.current].links[Edge::Left.slot()] == Some(next as usize)
                && -m.width <= g.x + dx < 0;
            &&& beyond_end ==> h.current == next && h.x == g.x + dx - n.width
            &&& before_start ==> h.current == next && h.x == g.x + dx + m.width
            &&& beyond_end || before_start ==> {
                &&& h.nodes == g.nodes
                &&& n.height == m.height && 0 <= at < n.height ==> h.y == at
                &&& at <= 0 ==> h.y == 0
                &&& at >= n.height - 1 && n.height > 1 ==> h.y == m.height - 1
                &&& 0 <= at < n.height && n.height > 1 ==> h.y * (n.height - 1) <= at * (m.height - 1) < (h.y
                    + 1) * (n.height - 1)
            }
        }),
{
    let (n, m) = (g.nodes[g.current], g.nodes[next]);
    let (x, y) = (g.x + dx, g.y + dy);
    assert(1 <= m.width <= i32::MAX && 1 <= m.height <= i32::MAX);
    reveal_with_fuel(travel, 3);
    proportion_fits(y, n.height, m.height);
    proportion_is_in_proportion(y, n.height, m.height);
}

/// Leaving a screen through its top or bottom arrives on the neighbour's facing side, as far
/// inside it as the pointer went past the edge, and straight above or below: in the same
/// column between screens of one width, in proportion otherwise, the first column at the first
/// and the last at the last.
pub proof fn crossing_upright_keeps_the_column(g: GraphModel, next: int, dx: int, dy: int)
    requires
        g.wf(),
        0 <= next < g.nodes.len(),
        next <= usize::MAX,
        i32::MIN <= g.x + dx <= i32::MAX,
        i32::MIN <= g.y + dy <= i32::MAX,
        0 <= g.x + dx < g.nodes[g.current].width,
    ensures
        ({
            let (n, m, h) = (g.nodes[g.current], g.nodes[next], g.moved(dx, dy));
            let at = g.x + dx;
            let beyond_end = g.nodes[g.current].links[Edge::Bottom.slot()] == Some(next as usize)
                && n.height <= g.y + dy < n.height + m.height;
            let before_start = g.nodes[g.current].links[Edge::Top.slot()] == Some(next as usize)
                && -m.height <= g.y + dy < 0;
            &&& beyond_end ==> h.current == next && h.y == g.y + dy - n.height
            &&& before_start ==> h.current == next && h.y == g.y + dy + m.height
            &&& beyond_end || before_start ==> {
                &&& h.nodes == g.nodes
                &&& n.width == m.width && 0 <= at < n.width ==> h.x == at
                &&& at <= 0 ==> h.x == 0
                &&& at >= n.width - 1 && n.width > 1 ==> h.x == m.width - 1
                &&& 0 <= at < n.width && n.width > 1 ==> h.x * (n.width - 1) <= at * (m.width - 1) < (h.x
                    + 1) * (n.width - 1)
            }
        }),
{
    let (n, m) = (g.nodes[g.current], g.nodes[next]);
    let (x, y) = (g.x + dx, g.y + dy);
    assert(1 <= m.width <= i32::MAX && 1 <= m.height <= i32::MAX);
    reveal_with_fuel(travel, 3);
    proportion_fits(x, n.width, m.width);
    proportion_is_in_proportion(x, n.width, m.width);
}

/// Crossing keeps order: of two positions along an edge, the one before the other arrives
/// before it or together with it.
#[verifier::spinoff_prover]
pub proof fn crossing_keeps_the_order(
    g: GraphModel,
    far: GraphModel,
    edge: Edge,
    next: int,
    over: int,
)
    requires
        g.wf(),
        g.inside(),
        far.wf(),
        far.inside(),
        far.nodes == g.nodes,
        far.current == g.current,
        g.nodes[g.current].links[edge.slot()] == Some(next as usize),
        0 <= next <= usize::MAX,
        0 <= over < g.nodes[next].width,
        0 <= over < g.nodes[next].height,
        g.nodes[g.current].width + over <= i32::MAX,
        g.nodes[g.current].height + over <= i32::MAX,
    ensures
        edge == Edge::Left && g.y <= far.y ==> g.moved(-g.x - 1 - over, 0).y <= far.moved(
            -far.x - 1 - over,
            0,
        ).y,
        edge == Edge::Right && g.y <= far.y ==> g.moved(
            g.nodes[g.current].width - g.x + over,
            0,
        ).y <= far.moved(g.nodes[g.current].width - far.x + over, 0).y,
        edge == Edge::Top && g.x <= far.x ==> g.moved(0, -g.y - 1 - over).x <= far.moved(
            0,
            -far.y - 1 - over,
        ).x,
        edge == Edge::Bottom && g.x <= far.x ==> g.moved(
            0,
            g.nodes[g.current].height - g.y + over,
        ).x <= far.moved(0, g.nodes[g.current].height - far.y + over).x,
{
    let (n, m) = (g.nodes[g.current], g.nodes[next]);
    assert(g.nodes[g.current].links[edge.slot()] == Some(next as usize));
    assert(next < g.nodes.len());
    assert(1 <= m.width <= i32::MAX && 1 <= m.height <= i32::MAX);
    match edge {
        Edge::Left => {
            let (p, q) = (g.moved(-g.x - 1 - over, 0), far.moved(-far.x - 1 - over, 0));
            crossing_sideways_keeps_the_height(g, next, -g.x - 1 - over, 0);
            crossing_sideways_keeps_the_height(far, next, -far.x - 1 - over, 0);
            floors_keep_order(g.y, far.y, n.height - 1, m.height - 1, p.y, q.y);
        },
        Edge::Right => {
            let (dx, fx) = (n.width - g.x + over, n.width - far.x + over);
            let (p, q) = (g.moved(dx, 0), far.moved(fx, 0));
            crossing_sideways_keeps_the_height(g, next, dx, 0);
            crossing_sideways_keeps_the_height(far, next, fx, 0);
            floors_keep_order(g.y, far.y, n.height - 1, m.height - 1, p.y, q.y);
        },
        Edge::Top => {
            let (p, q) = (g.moved(0, -g.y - 1 - over), far.moved(0, -far.y - 1 - over));
            crossing_upright_keeps_the_column(g, next, 0, -g.y - 1 - over);
            crossing_upright_keeps_the_column(far, next, 0, -far.y - 1 - over);
            floors_keep_order(g.x, far.x, n.width - 1, m.width - 1, p.x, q.x);
        },
        Edge::Bottom => {
            let (dy, fy) = (n.height - g.y + over, n.height - far.y + over);
            let (p, q) = (g.moved(0, dy), far.moved(0, fy));
            crossing_upright_keeps_the_column(g, next, 0, dy);
            crossing_upright_keeps_the_column(far, next, 0, fy);
            floors_keep_order(g.x, far.x, n.width - 1, m.width - 1, p.x, q.x);
        },
    }
}

proof fn floors_keep_order(a: int, b: int, f: int, t: int, p: int, q: int)
    requires
        t >= 0,
        f > 0 ==> p * f <= a * t && b * t < (q + 1) * f,
        f <= 0 ==> p == q,
    ensures
        a <= b ==> p <= q,
{
    if a <= b && f > 0 {
        assert(p < q + 1) by (nonlinear_arith)
            requires
                a <= b,
                t >= 0,
                f > 0,
                p * f <= a * t,
                b * t < (q + 1) * f,
        ;
    }
}

proof fn proportion_is_in_proportion(value: int, from: int, to: int)
    requires
        1 <= from,
        1 <= to,
    ensures
        ({
            let r = proportion(value, from, to);
            &&& from == to && 0 <= value < from ==> r == value
            &&& value <= 0 ==> r == 0
            &&& value >= from - 1 && from > 1 ==> r == to - 1
            &&& 0 <= value < from && from > 1 ==> r * (from - 1) <= value * (to - 1) < (r + 1) * (
            from - 1)
        }),
{
    if from > 1 && value > 0 {
        let (t, f) = (to - 1, from - 1);
        let q = value * t / f;
        vstd::arithmetic::div_mod::lemma_fundamental_div_mod(value * t, f);
        assert(f * q == q * f) by (nonlinear_arith);
        assert((q + 1) * f == q * f + f) by (nonlinear_arith);
        if value >= f {
            assert(value * t >= f * t) by (nonlinear_arith)
                requires
                    value >= f,
                    t >= 0,
            ;
            assert(q >= t) by (nonlinear_arith)
                requires
                    value * t >= f * t,
                    value * t < (q + 1) * f,
                    f > 0,
            ;
        }
        if value <= f {
            assert(value * t <= f * t) by (nonlinear_arith)
                requires
                    value <= f,
                    t >= 0,
            ;
            assert(q <= t) by (nonlinear_arith)
                requires
                    value * t <= f * t,
                    q * f <= value * t,
                    f > 0,
            ;
            assert(q >= 0) by (nonlinear_arith)
                requires
                    value * t >= 0,
                    value * t < (q + 1) * f,
                    f > 0,
            ;
            assert(from == to ==> q == value) by (nonlinear_arith)
                requires
                    q * f <= value * t,
                    value * t < (q + 1) * f,
                    f > 0,
                    f == from - 1,
                    t == to - 1,
            ;
        }
    } else if from > 1 {
        assert(0 * (to - 1) == 0 && 0 * (from - 1) == 0);
    }
}

/// How long some screens are together, across an edge.
pub open spec fn together(nodes: Seq<NodeModel>, screens: Seq<int>, edge: Edge) -> int
    decreases screens.len(),
{
    if screens.len() == 0 {
        0
    } else {
        depth(nodes[screens[0]], edge) + together(nodes, screens.drop_first(), edge)
    }
}

/// Whether leaving `from` through an edge leads to `to`, by way of some screens.
pub open spec fn in_a_row(
    nodes: Seq<NodeModel>,
    from: int,
    mid: Seq<int>,
    to: int,
    edge: Edge,
) -> bool
    decreases mid.len(),
{
    let first = if mid.len() == 0 {
        to
    } else {
        mid[0]
    };
    &&& 0 <= first < nodes.len()
    &&& first <= usize::MAX
    &&& nodes[from].links[edge.slot()] == Some(first as usize)
    &&& mid.len() > 0 ==> in_a_row(nodes, first, mid.drop_first(), to, edge)
}

/// A flick does not stop halfway: one fast movement crosses every screen on its way, up to
/// eight, and ends as far inside the last as it would had the pointer moved step by step.
pub proof fn a_flick_crosses_every_screen_on_its_way(
    g: GraphModel,
    edge: Edge,
    mid: Seq<int>,
    to: int,
    over: int,
)
    requires
        g.wf(),
        g.inside(),
        in_a_row(g.nodes, g.current, mid, to, edge),
        mid.len() < 8,
        0 <= over < depth(g.nodes[to], edge),
        depth(g.nodes[g.current], edge) + together(g.nodes, mid, edge) + over <= i32::MAX,
    ensures
        ({
            let (dx, dy) = toward(edge, room(g, edge) + together(g.nodes, mid, edge) + over);
            let h = g.moved(dx, dy);
            h.current == to && h.nodes == g.nodes && room(h, edge.facing()) == over + 1
                && h.inside()
        }),
{
    let d = together(g.nodes, mid, edge) + over;
    screens_have_a_length(g, g.current, mid, to, edge);
    let (dx, dy) = toward(edge, room(g, edge) + d);
    travel_along_a_row(g, g.current, edge, mid, to, over, g.x + dx, g.y + dy, 8);
    let (_, x, y) = travel(g.nodes, g.current, g.x + dx, g.y + dy, 8);
    assert(1 <= g.nodes[to].width && 1 <= g.nodes[to].height) by {
        row_ends_on_a_screen(g, g.current, mid, to, edge);
    }
}

proof fn row_ends_on_a_screen(g: GraphModel, from: int, mid: Seq<int>, to: int, edge: Edge)
    requires
        in_a_row(g.nodes, from, mid, to, edge),
    ensures
        0 <= to < g.nodes.len(),
    decreases mid.len(),
{
    if mid.len() > 0 {
        row_ends_on_a_screen(g, mid[0], mid.drop_first(), to, edge);
    }
}

proof fn screens_have_a_length(g: GraphModel, from: int, mid: Seq<int>, to: int, edge: Edge)
    requires
        g.wf(),
        in_a_row(g.nodes, from, mid, to, edge),
    ensures
        together(g.nodes, mid, edge) >= 0,
    decreases mid.len(),
{
    if mid.len() > 0 {
        let n = g.nodes[mid[0]];
        assert(1 <= n.width && 1 <= n.height);
        screens_have_a_length(g, mid[0], mid.drop_first(), to, edge);
    }
}

/// Whether a position lies `d` pixels beyond an edge, straight ahead.
spec fn lies_beyond(n: NodeModel, edge: Edge, d: int, x: int, y: int) -> bool {
    match edge {
        Edge::Left => x == -1 - d,
        Edge::Right => x == n.width + d,
        Edge::Top => y == -1 - d && 0 <= x < n.width,
        Edge::Bottom => y == n.height + d && 0 <= x < n.width,
    }
}

proof fn travel_along_a_row(
    g: GraphModel,
    from: int,
    edge: Edge,
    mid: Seq<int>,
    to: int,
    over: int,
    x: int,
    y: int,
    steps: nat,
)
    requires
        g.wf(),
        0 <= from < g.nodes.len(),
        in_a_row(g.nodes, from, mid, to, edge),
        mid.len() < steps,
        0 <= over < depth(g.nodes[to], edge),
        lies_beyond(g.nodes[from], edge, together(g.nodes, mid, edge) + over, x, y),
    ensures
        ({
            let (c, x2, y2) = travel(g.nodes, from, x, y, steps);
            let m = g.nodes[to];
            &&& c == to
            &&& 0 <= x2 < m.width && 0 <= y2 < m.height
            &&& room(GraphModel { nodes: g.nodes, current: c, x: x2, y: y2 }, edge.facing()) == over
                + 1
        }),
    decreases mid.len(),
{
    let d = together(g.nodes, mid, edge) + over;
    screens_have_a_length(g, from, mid, to, edge);
    let n = g.nodes[from];
    let first = if mid.len() == 0 {
        to
    } else {
        mid[0]
    };
    let m = g.nodes[first];
    assert(1 <= m.width <= i32::MAX && 1 <= m.height <= i32::MAX && 1 <= n.width && 1 <= n.height);
    assert(crossing(n, x, y) == Some(edge));
    assert(n.links[edge.slot()] == Some(first as usize));
    let (x2, y2) = arrival(edge, n, m, x, y);
    proportion_fits(y, n.height, m.height);
    proportion_fits(x, n.width, m.width);
    assert(travel(g.nodes, from, x, y, steps) == travel(
        g.nodes,
        first,
        x2,
        y2,
        (steps - 1) as nat,
    ));
    if mid.len() == 0 {
        assert(crossing(m, x2, y2) is None);
    } else {
        assert(lies_beyond(m, edge, together(g.nodes, mid.drop_first(), edge) + over, x2, y2));
        travel_along_a_row(
            g,
            first,
            edge,
            mid.drop_first(),
            to,
            over,
            x2,
            y2,
            (steps - 1) as nat,
        );
    }
}

/// A machine that is placed for the first time has its own size, as wide as it is wide and as
/// high as it is high; placing touches no other size, moves the pointer nowhere, and changes
/// no edge but the two that it joins.
pub proof fn placing_changes_nothing_else(
    g: GraphModel,
    peer: PeerId,
    edge: Edge,
    anchor: Option<PeerId>,
    width: int,
    height: int,
)
    requires
        g.wf(),
        g.nodes.len() < usize::MAX,
        anchor matches Some(a) ==> g.has(a) && a != peer,
    ensures
        ({
            let h = g.placed(peer, edge, anchor, width, height);
            &&& h.current == g.current && h.x == g.x && h.y == g.y
            &&& h.nodes.len() == g.nodes.len() + if g.has(peer) {
                0int
            } else {
                1
            }
            &&& !g.has(peer) && width >= 1 ==> h.nodes.last().width == width
            &&& !g.has(peer) && height >= 1 ==> h.nodes.last().height == height
            &&& !g.has(peer) ==> h.nodes.last().peer == Some(peer)
            &&& forall|i: int|
                0 <= i < g.nodes.len() ==> (#[trigger] h.nodes[i]).width == g.nodes[i].width
                    && h.nodes[i].height == g.nodes[i].height && h.nodes[i].peer == g.nodes[i].peer
            &&& forall|i: int, e: int|
                0 <= i < g.nodes.len() && 0 <= e < 4 && !(g.nodes[i].peer == anchor && e
                    == edge.slot()) && !(g.nodes[i].peer == Some(peer) && e == edge.facing().slot())
                    ==> #[trigger] h.nodes[i].links[e] == g.nodes[i].links[e]
        }),
{
    let a = match anchor {
        None => 0int,
        Some(a) => g.find(a)->0,
    };
    let e = g.ensured(peer, width, height);
    if !g.has(peer) {
        assert(e.nodes[g.nodes.len() as int].peer == Some(peer));
    }
    let p = e.find(peer)->0;
    assert(e.nodes[p].peer == Some(peer));
    assert(e.nodes[a] == g.nodes[a]);
    assert(g.nodes[a].peer == anchor);
    assert(p != a);
    assert(!g.has(peer) ==> p == g.nodes.len()) by {
        if !g.has(peer) && p < g.nodes.len() {
            assert(g.nodes[p].peer == Some(peer));
        }
    }
    let h = g.placed(peer, edge, anchor, width, height);
    assert(h == e.linked(a, edge, p).linked(p, edge.facing(), a));
    assert forall|i: int, k: int|
        0 <= i < g.nodes.len() && 0 <= k < 4 && !(g.nodes[i].peer == anchor && k == edge.slot())
            && !(g.nodes[i].peer == Some(peer) && k
            == edge.facing().slot()) implies #[trigger] h.nodes[i].links[k]
        == g.nodes[i].links[k] by {
        assert(e.nodes[i] == g.nodes[i]);
        assert(g.nodes[i].links.len() == 4);
        if i == a {
            assert(h.nodes[i].links[k] == e.nodes[i].links.update(edge.slot(), Some(p as usize))[k]);
        }
    }
}

/// The machine an edge leads to.
pub open spec fn leads_to(g: GraphModel, i: int, edge: Edge) -> Option<Option<PeerId>> {
    match g.nodes[i].links[edge.slot()] {
        None => None,
        Some(to) => Some(g.nodes[to as int].peer),
    }
}

/// Forgetting a machine leaves the desk between the others as it was: each keeps its size, and
/// each of its edges leads to the same machine as before, or nowhere if it led to the one
/// that is gone. The pointer stays put unless it was there, and is in the middle of this
/// machine's screen then.
pub proof fn forgetting_leaves_the_other_edges(g: GraphModel, peer: PeerId, i: int, j: int, edge: Edge)
    requires
        g.wf(),
        0 <= i < g.nodes.len(),
        0 <= j < g.forgotten(peer).nodes.len(),
        g.forgotten(peer).nodes[j].peer == g.nodes[i].peer,
    ensures
        ({
            let h = g.forgotten(peer);
            &&& h.nodes[j].width == g.nodes[i].width && h.nodes[j].height == g.nodes[i].height
            &&& leads_to(h, j, edge) == if leads_to(g, i, edge) == Some(Some(peer)) {
                None
            } else {
                leads_to(g, i, edge)
            }
            &&& g.holder() != Focus::Remote(peer) ==> h.x == g.x && h.y == g.y && h.holder()
                == g.holder()
            &&& g.holder() == Focus::Remote(peer) ==> h.holder() == Focus::Local && 2 * h.x
                <= g.nodes[0].width < 2 * h.x + 2 && 2 * h.y <= g.nodes[0].height < 2 * h.y + 2
        }),
{
    let h = g.forgotten(peer);
    forgetting_leaves_the_others(g, peer, peer);
    assert(g.nodes[i].links.len() == 4);
    let link = g.nodes[i].links[edge.slot()];
    match g.find(peer) {
        None => {
            assert(i == j) by {
                same_peer_same_screen(g, i, j);
            }
            if let Some(to) = link {
                assert(g.nodes[i].links[edge.slot()] == Some(to));
                assert(g.nodes[to as int].peer != Some(peer));
            }
            assert(g.nodes[g.current].peer != Some(peer));
        },
        Some(index) => {
            assert(g.nodes[index].peer == Some(peer));
            let k = if j < index {
                j
            } else {
                j + 1
            };
            assert(h.nodes[j] == g.nodes[k].relinked(index));
            same_peer_same_screen(g, i, k);
            if let Some(to) = link {
                assert(g.nodes[i].links[edge.slot()] == Some(to));
                if to != index {
                    same_peer_same_screen(g, to as int, index);
                    let t = if to < index {
                        to as int
                    } else {
                        to - 1
                    };
                    assert(h.nodes[t] == g.nodes[to as int].relinked(index));
                }
            }
            if g.current != index {
                same_peer_same_screen(g, g.current, index);
            }
        },
    }
}

proof fn same_peer_same_screen(g: GraphModel, i: int, j: int)
    requires
        g.wf(),
        0 <= i < g.nodes.len(),
        0 <= j < g.nodes.len(),
    ensures
        g.nodes[i].peer == g.nodes[j].peer ==> i == j,
{
    if i != j {
        if i > 0 {
            only_one_screen_each(g, i, j);
        } else {
            only_one_screen_each(g, j, i);
        }
    }
}

/// Coming home is coming to the middle of this machine's own screen, wherever the pointer was,
/// and leaves the desk as it is.
pub proof fn home_is_the_middle_of_this_screen(g: GraphModel)
    requires
        g.wf(),
    ensures
        g.homed().holder() == Focus::Local,
        g.homed().nodes == g.nodes,
        2 * g.homed().x <= g.nodes[0].width < 2 * g.homed().x + 2,
        2 * g.homed().y <= g.nodes[0].height < 2 * g.homed().y + 2,
        g.homed().inside(),
        g.alone().nodes.len() == 1,
        g.alone().holder() == Focus::Local,
        g.alone().nodes[0].width == g.nodes[0].width,
        g.alone().nodes[0].height == g.nodes[0].height,
        g.current == 0 ==> g.alone().x == g.x && g.alone().y == g.y,
        forall|dx: int, dy: int| (#[trigger] g.alone().moved(dx, dy)).holder() == Focus::Local,
{
    let a = g.alone();
    assert forall|dx: int, dy: int| (#[trigger] a.moved(dx, dy)).holder() == Focus::Local by {
        reveal_with_fuel(travel, 2);
    }
}

/// A screen is told as it is, as wide as it is wide and as high as it is high; and the sides of
/// a screen have four different places.
pub proof fn screens_are_told_as_they_are(n: Node, a: Edge, b: Edge)
    ensures
        n@.peer == n.peer,
        n@.width == n.width,
        n@.height == n.height,
        n@.links == n.links@,
        0 <= a.slot() < 4,
        a.slot() == b.slot() ==> a == b,
{
}

/// Sides are called by the words that people use for them, whatever their case.
pub proof fn sides_are_called_by_their_words(s: Seq<char>)
    ensures
        ({
            let word = text::lowered(text::trimmed(s));
            &&& word == "left"@ ==> Edge::named(s) == Some(Edge::Left)
            &&& word == "right"@ ==> Edge::named(s) == Some(Edge::Right)
            &&& word == "top"@ || word == "up"@ || word == "above"@ ==> Edge::named(s) == Some(
                Edge::Top,
            )
            &&& word == "bottom"@ || word == "down"@ || word == "below"@ ==> Edge::named(s) == Some(
                Edge::Bottom,
            )
            &&& Edge::named(s) is Some ==> word == "left"@ || word == "right"@ || word == "top"@
                || word == "up"@ || word == "above"@ || word == "bottom"@ || word == "down"@ || word
                == "below"@
        }),
{
    reveal_strlit("left");
    reveal_strlit("right");
    reveal_strlit("top");
    reveal_strlit("up");
    reveal_strlit("above");
    reveal_strlit("bottom");
    reveal_strlit("down");
    reveal_strlit("below");
    assert("left"@[0] == 'l' && "right"@[0] == 'r' && "top"@[0] == 't' && "up"@[0] == 'u');
    assert("above"@[0] == 'a' && "bottom"@[0] == 'b' && "down"@[0] == 'd' && "below"@[0] == 'b');
}

} // verus!
