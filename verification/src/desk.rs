//! How the machines stand on the desk: the arrangement a person set, and keeping the
//! pointer's graph in step with it and with who is connected.
//!
//! An arrangement is a relation between machines, not a side of this one: a desk is a
//! chain. A person's answer outranks the default, which places the first machine to the
//! left and every later one below it.
use crate::focus::{Focus, Graph, GraphModel, NodeModel};
use crate::frame::{Edge, PeerId};
use crate::{focus, text};
use vstd::prelude::*;
use vstd::string::*;

verus! {

/// That a machine sits on one side of another.
#[derive(PartialEq, Eq, Debug)]
pub struct Relation {
    /// The start of the machine's short id.
    pub peer: String,
    pub edge: Edge,
    /// The start of the other machine's short id, or `self`.
    pub anchor: String,
}

/// A relation as a value.
pub struct RelationModel {
    pub peer: Seq<char>,
    pub edge: Edge,
    pub anchor: Seq<char>,
}

impl View for Relation {
    type V = RelationModel;

    open spec fn view(&self) -> RelationModel {
        RelationModel { peer: self.peer@, edge: self.edge, anchor: self.anchor@ }
    }
}

/// Relations as values.
pub open spec fn models(v: Seq<Relation>) -> Seq<RelationModel> {
    Seq::new(v.len(), |i: int| v[i]@)
}

/// The word for a side.
pub open spec fn edge_word(e: Edge) -> Seq<char> {
    match e {
        Edge::Left => "left"@,
        Edge::Right => "right"@,
        Edge::Top => "top"@,
        Edge::Bottom => "bottom"@,
    }
}

/// The side a word of the layout file names.
pub open spec fn word_edge(s: Seq<char>) -> Option<Edge> {
    if s == "left"@ {
        Some(Edge::Left)
    } else if s == "right"@ {
        Some(Edge::Right)
    } else if s == "top"@ {
        Some(Edge::Top)
    } else if s == "bottom"@ {
        Some(Edge::Bottom)
    } else {
        None
    }
}

/// The word for a side.
pub fn word_for(e: Edge) -> (s: &'static str)
    ensures
        s@ == edge_word(e),
{
    match e {
        Edge::Left => "left",
        Edge::Right => "right",
        Edge::Top => "top",
        Edge::Bottom => "bottom",
    }
}

/// The side a word of the layout file names.
pub fn edge_for(s: &[char]) -> (e: Option<Edge>)
    ensures
        e == word_edge(s@),
{
    if text::is_text(s, "left") {
        Some(Edge::Left)
    } else if text::is_text(s, "right") {
        Some(Edge::Right)
    } else if text::is_text(s, "top") {
        Some(Edge::Top)
    } else if text::is_text(s, "bottom") {
        Some(Edge::Bottom)
    } else {
        None
    }
}

// ---------------------------------------------------------------- the layout file
/// What one line of the layout file says: a machine, a side and an anchor, separated by
/// single spaces. A missing anchor means this machine. Anything else says nothing.
pub open spec fn line_relation(line: Seq<char>) -> Option<RelationModel> {
    let parts = text::pieces(text::trimmed(line), ' ');
    if parts.len() < 2 {
        None
    } else {
        match word_edge(parts[1]) {
            None => None,
            Some(edge) => Some(
                RelationModel {
                    peer: parts[0],
                    edge,
                    anchor: if parts.len() > 2 {
                        parts[2]
                    } else {
                        "self"@
                    },
                },
            ),
        }
    }
}

/// What some lines say, in order.
pub open spec fn lines_relations(lines: Seq<Seq<char>>) -> Seq<RelationModel>
    decreases lines.len(),
{
    if lines.len() == 0 {
        Seq::empty()
    } else {
        let before = lines_relations(lines.drop_last());
        match line_relation(lines.last()) {
            Some(r) => before.push(r),
            None => before,
        }
    }
}

/// What the layout file says.
pub open spec fn file_relations(s: Seq<char>) -> Seq<RelationModel> {
    lines_relations(text::pieces(s, '\n'))
}

fn parse_line(line: &[char]) -> (r: Option<Relation>)
    ensures
        match line_relation(line@) {
            Some(m) => r is Some && r->0@ == m,
            None => r is None,
        },
{
    let trimmed = text::trim(line);
    let parts = text::split(trimmed.as_slice(), ' ');
    let ghost want = text::pieces(text::trimmed(line@), ' ');
    assert(text::views(parts@) == want);
    if parts.len() < 2 {
        return None;
    }
    assert(parts@[0]@ == want[0] && parts@[1]@ == want[1]);
    let edge = match edge_for(parts[1].as_slice()) {
        Some(e) => e,
        None => {
            return None;
        },
    };
    let anchor = if parts.len() > 2 {
        assert(parts@[2]@ == want[2]);
        text::string_of(parts[2].as_slice())
    } else {
        String::from_str("self")
    };
    Some(Relation { peer: text::string_of(parts[0].as_slice()), edge, anchor })
}

/// The arrangement a person set, as the layout file holds it.
pub fn stored_layout(file: &str) -> (r: Vec<Relation>)
    ensures
        models(r@) == file_relations(file@),
{
    let chars = text::chars_of(file);
    let lines = text::split(chars.as_slice(), '\n');
    let ghost all = text::pieces(file@, '\n');
    let mut out: Vec<Relation> = Vec::new();
    let mut i: usize = 0;
    assert(models(out@) =~= lines_relations(all.take(0)));
    while i < lines.len()
        invariant
            i <= lines@.len(),
            text::views(lines@) == all,
            models(out@) == lines_relations(all.take(i as int)),
        decreases lines.len() - i,
    {
        let ghost before = models(out@);
        proof {
            assert(all.take(i + 1).drop_last() =~= all.take(i as int));
            assert(all.take(i + 1).last() == lines@[i as int]@);
        }
        if let Some(r) = parse_line(lines[i].as_slice()) {
            out.push(r);
            proof {
                assert(models(out@) =~= before.push(r@));
            }
        }
        i = i + 1;
    }
    proof {
        assert(all.take(all.len() as int) =~= all);
    }
    out
}

/// A relation as a line of the layout file.
pub open spec fn relation_line(r: RelationModel) -> Seq<char> {
    r.peer.push(' ') + edge_word(r.edge).push(' ') + r.anchor
}

/// The relations that are not about `peer`.
pub open spec fn others(rs: Seq<RelationModel>, peer: Seq<char>) -> Seq<RelationModel>
    decreases rs.len(),
{
    if rs.len() == 0 {
        Seq::empty()
    } else if rs.last().peer == peer {
        others(rs.drop_last(), peer)
    } else {
        others(rs.drop_last(), peer).push(rs.last())
    }
}

/// Relations as lines of the layout file.
pub open spec fn relation_lines(rs: Seq<RelationModel>) -> Seq<Seq<char>> {
    Seq::new(rs.len(), |i: int| relation_line(rs[i]))
}

/// The arrangement once `peer` sits on the `edge` side of `anchor`, or `None` where that
/// is no arrangement: an unknown side, no machine, or a machine beside itself.
pub open spec fn rearranged(
    stored: Seq<RelationModel>,
    peer: Seq<char>,
    edge: Seq<char>,
    anchor: Seq<char>,
) -> Option<Seq<RelationModel>> {
    match word_edge(edge) {
        None => None,
        Some(e) => if peer.len() == 0 || anchor == peer {
            None
        } else {
            Some(others(stored, peer).push(RelationModel { peer, edge: e, anchor }))
        },
    }
}

/// Record that a machine sits on one side of another, replacing any earlier answer: the
/// new contents of the layout file, or `None` where the answer is refused.
pub fn set_layout(file: &str, short_id: &str, edge: &str, anchor: &str) -> (r: Option<String>)
    ensures
        match rearranged(file_relations(file@), short_id@, edge@, anchor@) {
            Some(rs) => r is Some && r->0@ == text::joined(relation_lines(rs), '\n'),
            None => r is None,
        },
{
    let edge_chars = text::chars_of(edge);
    let side = match edge_for(edge_chars.as_slice()) {
        Some(e) => e,
        None => {
            return None;
        },
    };
    // A machine cannot sit beside itself: that would be a layout with no fixed point to
    // draw from.
    if short_id.is_empty() || text::same(anchor, short_id) {
        return None;
    }
    let stored = stored_layout(file);
    let ghost all = file_relations(file@);
    let mut body = String::new();
    let mut first = true;
    let mut i: usize = 0;
    let ghost mut kept: Seq<RelationModel> = Seq::empty();
    assert(relation_lines(kept) =~= Seq::<Seq<char>>::empty());
    while i < stored.len()
        invariant
            i <= stored@.len(),
            models(stored@) == all,
            kept == others(all.take(i as int), short_id@),
            first <==> kept.len() == 0,
            body@ == text::joined(relation_lines(kept), '\n'),
        decreases stored.len() - i,
    {
        let r = &stored[i];
        proof {
            assert(all.take(i + 1).drop_last() =~= all.take(i as int));
            assert(all.take(i + 1).last() == r@);
        }
        if !text::same(r.peer.as_str(), short_id) {
            append_line(&mut body, first, r.peer.as_str(), r.edge, r.anchor.as_str(), Ghost(kept));
            proof {
                kept = kept.push(r@);
            }
            first = false;
        }
        i = i + 1;
    }
    proof {
        assert(all.take(all.len() as int) =~= all);
    }
    append_line(&mut body, first, short_id, side, anchor, Ghost(kept));
    Some(body)
}

fn append_line(
    body: &mut String,
    first: bool,
    peer: &str,
    edge: Edge,
    anchor: &str,
    Ghost(kept): Ghost<Seq<RelationModel>>,
)
    requires
        first <==> kept.len() == 0,
        old(body)@ == text::joined(relation_lines(kept), '\n'),
    ensures
        final(body)@ == text::joined(
            relation_lines(kept.push(RelationModel { peer: peer@, edge, anchor: anchor@ })),
            '\n',
        ),
{
    let ghost r = RelationModel { peer: peer@, edge, anchor: anchor@ };
    let ghost before = body@;
    if !first {
        text::push(body, '\n');
    }
    body.append(peer);
    text::push(body, ' ');
    body.append(word_for(edge));
    text::push(body, ' ');
    body.append(anchor);
    proof {
        let lines = relation_lines(kept.push(r));
        assert(lines.drop_last() =~= relation_lines(kept));
        assert(lines.last() == relation_line(r));
        if first {
            assert(before =~= Seq::<char>::empty());
            assert(body@ =~= relation_line(r));
        } else {
            assert(body@ =~= before.push('\n') + relation_line(r));
        }
    }
}

/// A word: not empty, and without white space.
pub open spec fn plain(s: Seq<char>) -> bool {
    s.len() > 0 && forall|i: int| 0 <= i < s.len() ==> !text::is_white(#[trigger] s[i])
}

proof fn edge_words(e: Edge)
    ensures
        word_edge(edge_word(e)) == Some(e),
        plain(edge_word(e)),
{
    reveal_strlit("left");
    reveal_strlit("right");
    reveal_strlit("top");
    reveal_strlit("bottom");
    assert("left"@.len() == 4 && "right"@.len() == 5 && "top"@.len() == 3 && "bottom"@.len() == 6);
}

proof fn plain_holds_no_separator(s: Seq<char>)
    requires
        plain(s),
    ensures
        !s.contains(' '),
        !s.contains('\n'),
{
    if s.contains(' ') {
        let i = choose|i: int| 0 <= i < s.len() && s[i] == ' ';
        assert(text::is_white(s[i]));
    }
    if s.contains('\n') {
        let i = choose|i: int| 0 <= i < s.len() && s[i] == '\n';
        assert(text::is_white(s[i]));
    }
}

proof fn line_reads_back(r: RelationModel)
    requires
        plain(r.peer),
        plain(r.anchor),
    ensures
        line_relation(relation_line(r)) == Some(r),
        !relation_line(r).contains('\n'),
{
    let line = relation_line(r);
    let parts = seq![r.peer, edge_word(r.edge), r.anchor];
    edge_words(r.edge);
    plain_holds_no_separator(r.peer);
    plain_holds_no_separator(edge_word(r.edge));
    plain_holds_no_separator(r.anchor);
    assert(parts.drop_last() =~= seq![r.peer, edge_word(r.edge)]);
    assert(parts.drop_last().drop_last() =~= seq![r.peer]);
    reveal_with_fuel(text::joined, 4);
    assert(text::joined(parts, ' ') =~= line);
    text::pieces_of_joined(parts, ' ');
    assert(line[0] == r.peer[0]);
    assert(line.last() == r.anchor.last());
    assert(text::trimmed(line) == line);
    if line.contains('\n') {
        let i = choose|i: int| 0 <= i < line.len() && line[i] == '\n';
        let (p, w) = (r.peer.len(), edge_word(r.edge).len());
        if i < p {
            assert(r.peer[i] == '\n');
        } else if i > p && i < p + 1 + w {
            assert(edge_word(r.edge)[i - p - 1] == '\n');
        } else if i > p + 1 + w {
            assert(r.anchor[i - p - w - 2] == '\n');
        }
    }
}

proof fn lines_read_back(rs: Seq<RelationModel>)
    requires
        forall|i: int|
            0 <= i < rs.len() ==> plain((#[trigger] rs[i]).peer) && plain(rs[i].anchor),
    ensures
        lines_relations(relation_lines(rs)) == rs,
    decreases rs.len(),
{
    if rs.len() > 0 {
        let front = rs.drop_last();
        assert forall|i: int| 0 <= i < front.len() implies plain((#[trigger] front[i]).peer)
            && plain(front[i].anchor) by {
            assert(front[i] == rs[i]);
        }
        lines_read_back(front);
        assert(relation_lines(rs).drop_last() =~= relation_lines(front));
        assert(relation_lines(rs).last() == relation_line(rs.last()));
        line_reads_back(rs.last());
        assert(front.push(rs.last()) =~= rs);
    } else {
        assert(relation_lines(rs) =~= Seq::<Seq<char>>::empty());
    }
}

/// An arrangement survives being written and read: for machines named by single words, the
/// file says exactly the relations it was made from, in order.
pub proof fn an_arrangement_survives_the_file(rs: Seq<RelationModel>)
    requires
        rs.len() > 0,
        forall|i: int|
            0 <= i < rs.len() ==> plain((#[trigger] rs[i]).peer) && plain(rs[i].anchor),
    ensures
        file_relations(text::joined(relation_lines(rs), '\n')) == rs,
{
    let lines = relation_lines(rs);
    assert forall|i: int| 0 <= i < lines.len() implies !(#[trigger] lines[i]).contains('\n') by {
        assert(plain(rs[i].peer));
        line_reads_back(rs[i]);
    }
    text::pieces_of_joined(lines, '\n');
    lines_read_back(rs);
}

/// The last answer about a machine replaces every earlier one.
pub proof fn the_last_answer_stands(
    stored: Seq<RelationModel>,
    peer: Seq<char>,
    edge: Seq<char>,
    anchor: Seq<char>,
    i: int,
)
    requires
        rearranged(stored, peer, edge, anchor) matches Some(rs) && 0 <= i < rs.len(),
    ensures
        ({
            let rs = rearranged(stored, peer, edge, anchor)->0;
            rs[i].peer == peer <==> i == rs.len() - 1
        }),
{
    others_are_others(stored, peer, i);
}

proof fn others_are_others(rs: Seq<RelationModel>, peer: Seq<char>, i: int)
    ensures
        0 <= i < others(rs, peer).len() ==> others(rs, peer)[i].peer != peer,
    decreases rs.len(),
{
    if rs.len() > 0 {
        others_are_others(rs.drop_last(), peer, i);
    }
}

// ---------------------------------------------------------------- who stands where
/// A peer's screen, as it reported it.
#[derive(Clone, Copy)]
pub struct ScreenSize {
    pub peer: PeerId,
    pub width: i32,
    pub height: i32,
}

/// The graph, the machines placed on it in order, and the side each was placed on.
pub struct Desk {
    pub graph: Graph,
    pub known: Vec<PeerId>,
    pub places: Vec<(PeerId, Edge)>,
}

/// A desk as a value.
pub struct DeskModel {
    pub graph: GraphModel,
    pub known: Seq<PeerId>,
    pub places: Seq<(PeerId, Edge)>,
}

impl View for Desk {
    type V = DeskModel;

    open spec fn view(&self) -> DeskModel {
        DeskModel { graph: self.graph@, known: self.known@, places: self.places@ }
    }
}

/// The size a peer reported.
pub open spec fn size_of(sizes: Seq<ScreenSize>, id: PeerId) -> Option<(int, int)>
    decreases sizes.len(),
{
    if sizes.len() == 0 {
        None
    } else if sizes[0].peer == id {
        Some((sizes[0].width as int, sizes[0].height as int))
    } else {
        size_of(sizes.drop_first(), id)
    }
}

/// The first relation about a machine: one whose name its short id begins with.
pub open spec fn first_relation(rs: Seq<RelationModel>, short: Seq<char>) -> Option<RelationModel>
    decreases rs.len(),
{
    if rs.len() == 0 {
        None
    } else if text::begins(short, rs[0].peer) {
        Some(rs[0])
    } else {
        first_relation(rs.drop_first(), short)
    }
}

/// The first machine whose short id begins with `prefix`.
pub open spec fn first_match(ids: Seq<PeerId>, prefix: Seq<char>) -> Option<PeerId>
    decreases ids.len(),
{
    if ids.len() == 0 {
        None
    } else if text::begins(ids[0].short(), prefix) {
        Some(ids[0])
    } else {
        first_match(ids.drop_first(), prefix)
    }
}

/// Those of `s` that are in `t`, in the order of `s`.
pub open spec fn those_in(s: Seq<PeerId>, t: Seq<PeerId>) -> Seq<PeerId>
    decreases s.len(),
{
    if s.len() == 0 {
        Seq::empty()
    } else if t.contains(s.last()) {
        those_in(s.drop_last(), t).push(s.last())
    } else {
        those_in(s.drop_last(), t)
    }
}

/// Those of `s` that are not in `t`, in the order of `s`.
pub open spec fn those_not_in(s: Seq<PeerId>, t: Seq<PeerId>) -> Seq<PeerId>
    decreases s.len(),
{
    if s.len() == 0 {
        Seq::empty()
    } else if t.contains(s.last()) {
        those_not_in(s.drop_last(), t)
    } else {
        those_not_in(s.drop_last(), t).push(s.last())
    }
}

/// The order in which connected machines are placed: as they were paired, then those that
/// no order is recorded of.
pub open spec fn placing_order(live: Seq<PeerId>, order: Seq<PeerId>) -> Seq<PeerId> {
    those_in(order, live) + those_not_in(live, order)
}

/// The recorded sides with one machine's replaced.
pub open spec fn placed_at(places: Seq<(PeerId, Edge)>, id: PeerId, edge: Edge) -> Seq<
    (PeerId, Edge),
> {
    without_place(places, id).push((id, edge))
}

/// The recorded sides of every machine but one.
pub open spec fn without_place(places: Seq<(PeerId, Edge)>, id: PeerId) -> Seq<(PeerId, Edge)>
    decreases places.len(),
{
    if places.len() == 0 {
        Seq::empty()
    } else if places.last().0 == id {
        without_place(places.drop_last(), id)
    } else {
        without_place(places.drop_last(), id).push(places.last())
    }
}

/// Whether a machine sits somewhere it does not belong: it is placed, both it and its
/// stored neighbour are connected, and the neighbour is not placed yet.
pub open spec fn misplaced(r: RelationModel, live: Seq<PeerId>, known: Seq<PeerId>) -> bool {
    &&& r.anchor != "self"@
    &&& first_match(live, r.peer) is Some
    &&& first_match(live, r.anchor) is Some
    &&& first_match(known, r.peer) is Some
    &&& first_match(known, r.anchor) is None
}

/// Whether any machine sits somewhere it does not belong.
pub open spec fn any_misplaced(
    rs: Seq<RelationModel>,
    live: Seq<PeerId>,
    known: Seq<PeerId>,
) -> bool {
    exists|i: int| 0 <= i < rs.len() && misplaced(#[trigger] rs[i], live, known)
}

impl DeskModel {
    /// The desk with one more machine on it.
    pub open spec fn put(
        self,
        id: PeerId,
        edge: Edge,
        anchor: Option<PeerId>,
        size: (int, int),
    ) -> DeskModel {
        DeskModel {
            graph: self.graph.placed(id, edge, anchor, size.0, size.1),
            known: self.known.push(id),
            places: placed_at(self.places, id, edge),
        }
    }

    /// The desk after one connected machine was considered.
    ///
    /// A machine already placed stays; one whose size is not known yet waits. Where a
    /// person said where it sits, it goes there: against its neighbour if that is placed,
    /// later if the neighbour is connected but not placed yet, and against this machine if
    /// the neighbour is away. Otherwise the first machine goes to the left of this one and
    /// every later one below the first.
    pub open spec fn considered(
        self,
        id: PeerId,
        live: Seq<PeerId>,
        sizes: Seq<ScreenSize>,
        rs: Seq<RelationModel>,
    ) -> DeskModel {
        if self.graph.has(id) {
            self
        } else {
            match size_of(sizes, id) {
                None => self,
                Some(size) => match first_relation(rs, id.short()) {
                    Some(r) => if r.anchor == "self"@ {
                        self.put(id, r.edge, None, size)
                    } else {
                        match first_match(self.known, r.anchor) {
                            Some(p) => self.put(id, r.edge, Some(p), size),
                            None => if first_match(live, r.anchor) is Some {
                                self
                            } else {
                                self.put(id, r.edge, None, size)
                            },
                        }
                    },
                    None => if self.known.len() == 0 {
                        self.put(id, Edge::Left, None, size)
                    } else if self.graph.has(self.known[0]) {
                        self.put(id, Edge::Bottom, Some(self.known[0]), size)
                    } else {
                        self
                    },
                },
            }
        }
    }

    /// The desk after the first `n` of `ids` were considered in turn.
    pub open spec fn considered_all(
        self,
        ids: Seq<PeerId>,
        n: nat,
        live: Seq<PeerId>,
        sizes: Seq<ScreenSize>,
        rs: Seq<RelationModel>,
    ) -> DeskModel
        decreases n,
    {
        if n == 0 {
            self
        } else {
            self.considered_all(ids, (n - 1) as nat, live, sizes, rs).considered(
                ids[n - 1],
                live,
                sizes,
                rs,
            )
        }
    }

    /// The desk once the first `n` machines on it were checked: those that are gone leave
    /// the graph and the list.
    pub open spec fn swept(self, n: nat, live: Seq<PeerId>) -> DeskModel
        decreases n,
    {
        if n == 0 {
            DeskModel { known: Seq::empty(), ..self }
        } else {
            let before = self.swept((n - 1) as nat, live);
            let id = self.known[n - 1];
            if live.contains(id) {
                DeskModel { known: before.known.push(id), ..before }
            } else {
                DeskModel { graph: before.graph.forgotten(id), ..before }
            }
        }
    }

    /// The desk with every machine taken off it.
    pub open spec fn cleared(self) -> DeskModel {
        DeskModel { graph: self.graph.alone(), known: Seq::empty(), places: Seq::empty() }
    }

    /// The desk brought into step with who is connected.
    pub open spec fn synced(
        self,
        live: Seq<PeerId>,
        sizes: Seq<ScreenSize>,
        order: Seq<PeerId>,
        rs: Seq<RelationModel>,
        relayout: bool,
    ) -> DeskModel {
        let stale = relayout || any_misplaced(rs, live, self.known);
        let start = if stale {
            self.cleared()
        } else {
            self
        };
        let ids = placing_order(live, order);
        let full = start.considered_all(ids, ids.len(), live, sizes, rs);
        full.swept(full.known.len(), live)
    }
}

// ---------------------------------------------------------------- lookups
/// Whether a list holds a machine.
pub fn holds(ids: &Vec<PeerId>, id: &PeerId) -> (b: bool)
    ensures
        b == ids@.contains(*id),
{
    let mut i: usize = 0;
    while i < ids.len()
        invariant
            i <= ids@.len(),
            forall|k: int| 0 <= k < i ==> ids@[k] != *id,
        decreases ids.len() - i,
    {
        if ids[i].same(id) {
            return true;
        }
        i = i + 1;
    }
    false
}

fn find_size(sizes: &Vec<ScreenSize>, id: &PeerId) -> (r: Option<(i32, i32)>)
    ensures
        match size_of(sizes@, *id) {
            Some((w, h)) => r is Some && (r->0).0 == w && (r->0).1 == h,
            None => r is None,
        },
{
    let mut i: usize = 0;
    assert(sizes@.skip(0) =~= sizes@);
    while i < sizes.len()
        invariant
            i <= sizes@.len(),
            size_of(sizes@, *id) == size_of(sizes@.skip(i as int), *id),
        decreases sizes.len() - i,
    {
        if sizes[i].peer.same(id) {
            return Some((sizes[i].width, sizes[i].height));
        }
        proof {
            assert(sizes@.skip(i as int).drop_first() =~= sizes@.skip(i + 1));
        }
        i = i + 1;
    }
    None
}

fn short_begins(id: &PeerId, prefix: &str) -> (b: bool)
    ensures
        b == text::begins(id.short(), prefix@),
{
    let short = id.to_short_string();
    let a = text::chars_of(short.as_str());
    let b = text::chars_of(prefix);
    text::begins_with(a.as_slice(), b.as_slice())
}

/// Where the first relation about a machine stands.
pub fn find_relation(rs: &Vec<Relation>, id: &PeerId) -> (r: Option<usize>)
    ensures
        match first_relation(models(rs@), id.short()) {
            Some(m) => r matches Some(i) && i < rs@.len() && rs@[i as int]@ == m,
            None => r is None,
        },
{
    let ghost all = models(rs@);
    let mut i: usize = 0;
    assert(all.skip(0) =~= all);
    while i < rs.len()
        invariant
            i <= rs@.len(),
            all == models(rs@),
            first_relation(all, id.short()) == first_relation(all.skip(i as int), id.short()),
        decreases rs.len() - i,
    {
        if short_begins(id, rs[i].peer.as_str()) {
            return Some(i);
        }
        proof {
            assert(all.skip(i as int).drop_first() =~= all.skip(i + 1));
        }
        i = i + 1;
    }
    None
}

/// The first machine whose short id begins with a text.
pub fn find_match(ids: &Vec<PeerId>, prefix: &str) -> (r: Option<PeerId>)
    ensures
        r == first_match(ids@, prefix@),
{
    let mut i: usize = 0;
    assert(ids@.skip(0) =~= ids@);
    while i < ids.len()
        invariant
            i <= ids@.len(),
            first_match(ids@, prefix@) == first_match(ids@.skip(i as int), prefix@),
        decreases ids.len() - i,
    {
        if short_begins(&ids[i], prefix) {
            return Some(ids[i]);
        }
        proof {
            assert(ids@.skip(i as int).drop_first() =~= ids@.skip(i + 1));
        }
        i = i + 1;
    }
    None
}

/// Whether a machine sits somewhere it does not belong.
///
/// A machine whose neighbour was away is attached to this one so it stays reachable. Once
/// that neighbour is back, the stored relation must be restored; otherwise the fallback
/// quietly becomes the arrangement.
pub fn layout_needs_rebuild(
    rs: &Vec<Relation>,
    live: &Vec<PeerId>,
    known: &Vec<PeerId>,
) -> (b: bool)
    ensures
        b == any_misplaced(models(rs@), live@, known@),
{
    let mut i: usize = 0;
    while i < rs.len()
        invariant
            i <= rs@.len(),
            forall|k: int| 0 <= k < i ==> !misplaced(#[trigger] models(rs@)[k], live@, known@),
        decreases rs.len() - i,
    {
        let r = &rs[i];
        assert(models(rs@)[i as int] == r@);
        if !text::same(r.anchor.as_str(), "self") && find_match(live, r.peer.as_str()).is_some()
            && find_match(live, r.anchor.as_str()).is_some() && find_match(
            known,
            r.peer.as_str(),
        ).is_some() && find_match(known, r.anchor.as_str()).is_none() {
            assert(misplaced(models(rs@)[i as int], live@, known@));
            return true;
        }
        i = i + 1;
    }
    false
}

/// Machines in the order in which they were paired, then those that no order is recorded of.
pub fn order_of(live: &Vec<PeerId>, order: &Vec<PeerId>) -> (r: Vec<PeerId>)
    ensures
        r@ == placing_order(live@, order@),
{
    let mut r: Vec<PeerId> = Vec::new();
    let mut i: usize = 0;
    while i < order.len()
        invariant
            i <= order@.len(),
            r@ == those_in(order@.take(i as int), live@),
        decreases order.len() - i,
    {
        proof {
            assert(order@.take(i + 1).drop_last() =~= order@.take(i as int));
        }
        if holds(live, &order[i]) {
            r.push(order[i]);
        }
        i = i + 1;
    }
    assert(order@.take(order@.len() as int) =~= order@);
    let ghost paired = r@;
    let mut j: usize = 0;
    assert(r@ =~= paired + those_not_in(live@.take(0), order@));
    while j < live.len()
        invariant
            j <= live@.len(),
            r@ == paired + those_not_in(live@.take(j as int), order@),
        decreases live.len() - j,
    {
        let ghost before = r@;
        proof {
            assert(live@.take(j + 1).drop_last() =~= live@.take(j as int));
        }
        if !holds(order, &live[j]) {
            r.push(live[j]);
            proof {
                assert(r@ =~= paired + those_not_in(live@.take(j + 1), order@));
            }
        }
        j = j + 1;
    }
    assert(live@.take(live@.len() as int) =~= live@);
    r
}

/// A newly paired machine comes last, and the others keep their places.
pub proof fn a_newly_paired_machine_comes_last(paired: Seq<PeerId>, order: Seq<PeerId>, id: PeerId)
    requires
        paired.no_duplicates(),
        paired.contains(id),
        !order.contains(id),
        forall|q: PeerId| #[trigger] paired.contains(q) <==> order.contains(q) || q == id,
    ensures
        placing_order(paired, order) == order.push(id),
{
    all_are_in(order, paired);
    let i = choose|i: int| 0 <= i < paired.len() && paired[i] == id;
    assert forall|k: int| 0 <= k < paired.len() implies order.contains(#[trigger] paired[k]) == (k
        != i) by {
        assert(paired.contains(paired[k]));
    }
    only_one_is_not_in(paired, order, i);
    assert(order + seq![id] =~= order.push(id));
}

proof fn all_are_in(s: Seq<PeerId>, t: Seq<PeerId>)
    requires
        forall|q: PeerId| #[trigger] s.contains(q) ==> t.contains(q),
    ensures
        those_in(s, t) == s,
    decreases s.len(),
{
    if s.len() > 0 {
        let front = s.drop_last();
        assert forall|q: PeerId| #[trigger] front.contains(q) implies t.contains(q) by {
            let k = choose|k: int| 0 <= k < front.len() && front[k] == q;
            assert(s[k] == q);
            assert(s.contains(q));
        }
        all_are_in(front, t);
        assert(s.contains(s[s.len() - 1]));
        assert(front.push(s.last()) =~= s);
    }
}

proof fn only_one_is_not_in(s: Seq<PeerId>, t: Seq<PeerId>, i: int)
    requires
        i < s.len(),
        forall|k: int| 0 <= k < s.len() ==> t.contains(#[trigger] s[k]) == (k != i),
    ensures
        those_not_in(s, t) == if i < 0 {
            Seq::empty()
        } else {
            seq![s[i]]
        },
    decreases s.len(),
{
    if s.len() > 0 {
        let front = s.drop_last();
        assert(t.contains(s[s.len() - 1]) == (s.len() - 1 != i));
        if i == s.len() - 1 {
            only_one_is_not_in(front, t, -1);
            assert(Seq::<PeerId>::empty().push(s[i]) =~= seq![s[i]]);
        } else {
            only_one_is_not_in(front, t, i);
        }
    }
}

impl Desk {
    /// An empty desk around this machine's screen.
    pub fn new(width: i32, height: i32) -> (d: Desk)
        ensures
            d.graph@.wf(),
            d@.graph.nodes.len() == 1,
            d@.graph.nodes[0] == (NodeModel {
                peer: None,
                width: focus::at_least_one(width as int),
                height: focus::at_least_one(height as int),
                links: Seq::new(4, |i: int| None),
            }),
            d@.graph.current == 0,
            d@.graph.x == focus::halved(width as int),
            d@.graph.y == focus::halved(height as int),
            d@.known == Seq::<PeerId>::empty(),
            d@.places == Seq::<(PeerId, Edge)>::empty(),
            d@.settled(),
            width >= 0 && height >= 0 ==> d.graph@.inside(),
    {
        let d = Desk { graph: Graph::new(width, height), known: Vec::new(), places: Vec::new() };
        proof {
            assert(d@.graph.nodes[0].links =~= Seq::new(4, |i: int| None));
        }
        d
    }

    fn put(&mut self, id: PeerId, edge: Edge, anchor: Option<PeerId>, size: (i32, i32))
        requires
            old(self).graph@.wf(),
        ensures
            final(self)@ == old(self)@.put(id, edge, anchor, (size.0 as int, size.1 as int)),
            final(self).graph@.wf(),
            old(self).graph@.inside() ==> final(self).graph@.inside(),
    {
        self.graph.place(id, edge, anchor, size.0, size.1);
        let mut kept: Vec<(PeerId, Edge)> = Vec::new();
        let mut i: usize = 0;
        while i < self.places.len()
            invariant
                i <= self.places@.len(),
                kept@ == without_place(self.places@.take(i as int), id),
            decreases self.places.len() - i,
        {
            proof {
                assert(self.places@.take(i + 1).drop_last() =~= self.places@.take(i as int));
            }
            let (peer, side) = self.places[i];
            if !peer.same(&id) {
                kept.push((peer, side));
            }
            i = i + 1;
        }
        assert(self.places@.take(self.places@.len() as int) =~= self.places@);
        kept.push((id, edge));
        self.places = kept;
        self.known.push(id);
    }

    fn consider(
        &mut self,
        id: PeerId,
        live: &Vec<PeerId>,
        sizes: &Vec<ScreenSize>,
        rs: &Vec<Relation>,
    )
        requires
            old(self).graph@.wf(),
        ensures
            final(self)@ == old(self)@.considered(id, live@, sizes@, models(rs@)),
            final(self).graph@.wf(),
            old(self).graph@.inside() ==> final(self).graph@.inside(),
    {
        if self.graph.is_placed(id) {
            return ;
        }
        // Wait for the peer's real screen size rather than guessing one.
        let size = match find_size(sizes, &id) {
            Some(s) => s,
            None => {
                return ;
            },
        };
        match find_relation(rs, &id) {
            Some(at) => {
                let r = &rs[at];
                if text::same(r.anchor.as_str(), "self") {
                    self.put(id, r.edge, None, size);
                } else {
                    match find_match(&self.known, r.anchor.as_str()) {
                        Some(p) => self.put(id, r.edge, Some(p), size),
                        None => {
                            if find_match(live, r.anchor.as_str()).is_none() {
                                self.put(id, r.edge, None, size);
                            }
                        },
                    }
                }
            },
            None => {
                if self.known.len() == 0 {
                    self.put(id, Edge::Left, None, size);
                } else {
                    let first = self.known[0];
                    if self.graph.is_placed(first) {
                        self.put(id, Edge::Bottom, Some(first), size);
                    }
                }
            },
        }
    }

    /// Keep the desk in step with which peers are actually connected.
    ///
    /// `live` are the connected peers, `sizes` the screens they reported, `order` the order
    /// in which they were paired and `rs` the arrangement a person set; `relayout` says
    /// that the arrangement changed. A peer that goes away is removed, which returns the
    /// pointer home if it held it.
    pub fn sync_peers(
        &mut self,
        live: &Vec<PeerId>,
        sizes: &Vec<ScreenSize>,
        order: &Vec<PeerId>,
        rs: &Vec<Relation>,
        relayout: bool,
    )
        requires
            old(self).graph@.wf(),
        ensures
            final(self)@ == old(self)@.synced(live@, sizes@, order@, models(rs@), relayout),
            final(self).graph@.wf(),
            old(self).graph@.inside() ==> final(self).graph@.inside(),
    {
        // An arrangement change means every placement is stale, so start again rather than
        // patching one screen and leaving the rest describing the old desk.
        let stale = layout_needs_rebuild(rs, live, &self.known);
        let ghost before = self@;
        if relayout || stale {
            self.graph.forget_all();
            self.known = Vec::new();
            self.places = Vec::new();
            proof {
                assert(self@.known =~= Seq::<PeerId>::empty());
                assert(self@.places =~= Seq::<(PeerId, Edge)>::empty());
            }
        }
        let ghost start = self@;
        proof {
            assert(start == (if relayout || stale {
                before.cleared()
            } else {
                before
            }));
        }
        // Place in pairing order, never connection order: connection order is a race.
        let ids = order_of(live, order);
        let mut i: usize = 0;
        while i < ids.len()
            invariant
                i <= ids@.len(),
                self.graph@.wf(),
                before.graph.inside() ==> self.graph@.inside(),
                self@ == start.considered_all(ids@, i as nat, live@, sizes@, models(rs@)),
            decreases ids.len() - i,
        {
            self.consider(ids[i], live, sizes, rs);
            i = i + 1;
        }
        let ghost full = self@;
        let mut kept: Vec<PeerId> = Vec::new();
        let mut j: usize = 0;
        while j < self.known.len()
            invariant
                j <= self.known@.len(),
                self.graph@.wf(),
                before.graph.inside() ==> self.graph@.inside(),
                self.known@ == full.known,
                self.places@ == full.places,
                (DeskModel { graph: self.graph@, known: kept@, places: self.places@ })
                    == full.swept(j as nat, live@),
            decreases self.known.len() - j,
        {
            let id = self.known[j];
            if holds(live, &id) {
                kept.push(id);
            } else {
                self.graph.forget(id);
            }
            j = j + 1;
        }
        self.known = kept;
        assert(self@ == full.swept(full.known.len(), live@));
    }
}

impl DeskModel {
    /// The screens are this machine's and those of the machines on the desk, one for each.
    pub open spec fn settled(self) -> bool {
        &&& forall|i: int|
            #![trigger self.graph.nodes[i]]
            0 < i < self.graph.nodes.len() ==> on_the_desk(self, i)
        &&& forall|k: int| 0 <= k < self.known.len() ==> self.graph.has(#[trigger] self.known[k])
        &&& self.known.no_duplicates()
    }
}

/// Whether a screen of the graph belongs to a machine on the desk.
pub open spec fn on_the_desk(d: DeskModel, i: int) -> bool {
    d.graph.nodes[i].peer matches Some(p) && d.known.contains(p)
}

// ---------------------------------------------------------------- laws of the desk
proof fn putting_keeps_settled(
    d: DeskModel,
    id: PeerId,
    edge: Edge,
    anchor: Option<PeerId>,
    size: (int, int),
)
    requires
        d.graph.wf(),
        d.graph.nodes.len() < usize::MAX,
        d.settled(),
        !d.graph.has(id),
        size.0 <= i32::MAX,
        size.1 <= i32::MAX,
        anchor matches Some(a) ==> d.known.contains(a),
    ensures
        d.put(id, edge, anchor, size).graph.wf(),
        d.put(id, edge, anchor, size).settled(),
        d.put(id, edge, anchor, size).graph.nodes.len() <= d.graph.nodes.len() + 1,
{
    let g = d.graph;
    let known = d.known.push(id);
    assert(known.contains(id)) by {
        assert(known[d.known.len() as int] == id);
    }
    assert forall|q: PeerId| d.known.contains(q) implies known.contains(q) by {
        let k = choose|k: int| 0 <= k < d.known.len() && d.known[k] == q;
        assert(known[k] == q);
    }
    let at = match anchor {
        None => 0int,
        Some(a) => g.find(a)->0,
    };
    if let Some(a) = anchor {
        let k = choose|k: int| 0 <= k < d.known.len() && d.known[k] == a;
        assert(g.has(d.known[k]));
        assert(g.nodes[at].peer == Some(a));
    }
    focus_lemmas(g, id, size);
    let h = g.ensured(id, size.0, size.1);
    let p = h.find(id)->0;
    let done = d.put(id, edge, anchor, size);
    assert(h.nodes[at] == g.nodes[at]);
    if p != at {
        let h1 = h.linked(at, edge, p);
        crate::focus::linking_keeps_wf(h, at, edge, p);
        crate::focus::linking_keeps_wf(h1, p, edge.facing(), at);
        assert(done.graph == h1.linked(p, edge.facing(), at));
    } else {
        assert(done.graph == h);
    }
    assert forall|i: int| 0 <= i < h.nodes.len() implies (#[trigger] done.graph.nodes[i]).peer
        == h.nodes[i].peer by {}
    assert forall|i: int|
        #![trigger done.graph.nodes[i]]
        0 < i < done.graph.nodes.len() implies on_the_desk(done, i) by {
        if i < g.nodes.len() {
            assert(h.nodes[i] == g.nodes[i]);
            assert(on_the_desk(d, i));
        } else {
            assert(h.nodes[i].peer == Some(id));
        }
    }
    assert forall|k: int| 0 <= k < known.len() implies done.graph.has(#[trigger] known[k]) by {
        if k < d.known.len() {
            assert(g.has(d.known[k]));
            let i = choose|i: int|
                0 <= i < g.nodes.len() && #[trigger] g.nodes[i].peer == Some(d.known[k]);
            assert(h.nodes[i] == g.nodes[i]);
            assert(done.graph.nodes[i].peer == Some(known[k]));
        } else {
            assert(done.graph.nodes[p].peer == Some(id));
        }
    }
    assert(known.no_duplicates()) by {
        assert forall|k: int| 0 <= k < d.known.len() implies d.known[k] != id by {
            assert(g.has(d.known[k]));
        }
    }
}

proof fn focus_lemmas(g: GraphModel, id: PeerId, size: (int, int))
    requires
        g.wf(),
        size.0 <= i32::MAX,
        size.1 <= i32::MAX,
    ensures
        g.ensured(id, size.0, size.1).wf(),
        g.ensured(id, size.0, size.1).find(id) matches Some(p) && 0 < p < g.ensured(
            id,
            size.0,
            size.1,
        ).nodes.len() && g.ensured(id, size.0, size.1).nodes[p].peer == Some(id),
        forall|i: int|
            0 <= i < g.nodes.len() ==> g.ensured(id, size.0, size.1).nodes[i]
                == #[trigger] g.nodes[i],
{
    crate::focus::ensuring_keeps_wf(g, id, size.0, size.1);
}

proof fn sizes_are_small(sizes: Seq<ScreenSize>, id: PeerId)
    ensures
        size_of(sizes, id) matches Some(s) ==> s.0 <= i32::MAX && s.1 <= i32::MAX,
    decreases sizes.len(),
{
    if sizes.len() > 0 {
        sizes_are_small(sizes.drop_first(), id);
    }
}

proof fn first_match_is_one(ids: Seq<PeerId>, prefix: Seq<char>)
    ensures
        first_match(ids, prefix) matches Some(p) ==> ids.contains(p),
    decreases ids.len(),
{
    if ids.len() > 0 {
        first_match_is_one(ids.drop_first(), prefix);
        if let Some(p) = first_match(ids, prefix) {
            if text::begins(ids[0].short(), prefix) {
                assert(ids[0] == p);
            } else {
                let k = choose|k: int| 0 <= k < ids.drop_first().len() && ids.drop_first()[k] == p;
                assert(ids[k + 1] == p);
            }
        }
    }
}

proof fn considering_keeps_settled(
    d: DeskModel,
    ids: Seq<PeerId>,
    n: nat,
    live: Seq<PeerId>,
    sizes: Seq<ScreenSize>,
    rs: Seq<RelationModel>,
)
    requires
        d.graph.wf(),
        d.settled(),
        n <= ids.len(),
        d.graph.nodes.len() + n <= usize::MAX,
    ensures
        d.considered_all(ids, n, live, sizes, rs).graph.wf(),
        d.considered_all(ids, n, live, sizes, rs).settled(),
        d.considered_all(ids, n, live, sizes, rs).graph.nodes.len() <= d.graph.nodes.len() + n,
    decreases n,
{
    if n > 0 {
        considering_keeps_settled(d, ids, (n - 1) as nat, live, sizes, rs);
        let b = d.considered_all(ids, (n - 1) as nat, live, sizes, rs);
        let id = ids[n - 1];
        sizes_are_small(sizes, id);
        if b.graph.has(id) {
        } else if let Some(size) = size_of(sizes, id) {
            match first_relation(rs, id.short()) {
                Some(r) => {
                    first_match_is_one(b.known, r.anchor);
                    putting_keeps_settled(b, id, r.edge, None, size);
                    if let Some(p) = first_match(b.known, r.anchor) {
                        putting_keeps_settled(b, id, r.edge, Some(p), size);
                    }
                },
                None => {
                    putting_keeps_settled(b, id, Edge::Left, None, size);
                    if b.known.len() > 0 {
                        assert(b.known.contains(b.known[0]));
                        putting_keeps_settled(b, id, Edge::Bottom, Some(b.known[0]), size);
                    }
                },
            }
        }
    }
}

proof fn forgetting_keeps_settled(d: DeskModel, id: PeerId, after: Seq<PeerId>)
    requires
        d.graph.wf(),
        d.settled(),
        after.no_duplicates(),
        forall|q: PeerId| #[trigger] after.contains(q) <==> q != id && d.known.contains(q),
    ensures
        d.graph.forgotten(id).wf(),
        d.graph.forgotten(id).nodes.len() <= d.graph.nodes.len(),
        (DeskModel { graph: d.graph.forgotten(id), known: after, places: d.places }).settled(),
{
    let g = d.graph;
    let h = g.forgotten(id);
    let e1 = DeskModel { graph: h, known: after, places: d.places };
    crate::focus::forgetting_leaves_the_others(g, id, id);
    assert forall|i: int|
        #![trigger h.nodes[i]]
        0 < i < h.nodes.len() implies on_the_desk(e1, i) by {
        assert(h.nodes[i].peer is Some);
        let q = h.nodes[i].peer->0;
        assert(h.has(q));
        crate::focus::forgetting_leaves_the_others(g, id, q);
        let j = choose|j: int| 0 <= j < g.nodes.len() && #[trigger] g.nodes[j].peer == Some(q);
        assert(on_the_desk(d, j));
        assert(after.contains(q));
    }
    assert forall|k: int| 0 <= k < after.len() implies h.has(#[trigger] after[k]) by {
        assert(after.contains(after[k]));
        let m = choose|m: int| 0 <= m < d.known.len() && d.known[m] == after[k];
        assert(g.has(d.known[m]));
        crate::focus::forgetting_leaves_the_others(g, id, after[k]);
    }
}

proof fn sweeping_keeps_settled(d: DeskModel, n: nat, live: Seq<PeerId>)
    requires
        d.graph.wf(),
        d.settled(),
        n <= d.known.len(),
    ensures
        d.swept(n, live).graph.wf(),
        d.swept(n, live).graph.nodes.len() <= d.graph.nodes.len(),
        (DeskModel {
            known: d.swept(n, live).known + d.known.skip(n as int),
            ..d.swept(n, live)
        }).settled(),
        forall|q: PeerId| d.swept(n, live).known.contains(q) ==> live.contains(q),
    decreases n,
{
    if n == 0 {
        assert(Seq::<PeerId>::empty() + d.known.skip(0) =~= d.known);
    } else {
        sweeping_keeps_settled(d, (n - 1) as nat, live);
        let b = d.swept((n - 1) as nat, live);
        let id = d.known[n - 1];
        let rest = d.known.skip(n - 1);
        let fewer = d.known.skip(n as int);
        assert(rest =~= seq![id] + fewer);
        let mid = DeskModel { known: b.known + rest, ..b };
        if live.contains(id) {
            assert(b.known.push(id) + fewer =~= b.known + rest);
            assert forall|q: PeerId| b.known.push(id).contains(q) implies live.contains(q) by {
                let k = choose|k: int| 0 <= k < b.known.len() + 1 && b.known.push(id)[k] == q;
                if k < b.known.len() {
                    assert(b.known[k] == q);
                }
            }
        } else {
            let at = b.known.len() as int;
            let after = b.known + fewer;
            assert(mid.known[at] == id);
            assert forall|k: int| 0 <= k < after.len() implies #[trigger] after[k]
                == mid.known[if k < at {
                k
            } else {
                k + 1
            }] by {}
            assert forall|q: PeerId| #[trigger] after.contains(q) <==> q != id
                && mid.known.contains(q) by {
                if q != id && mid.known.contains(q) {
                    let k = choose|k: int| 0 <= k < mid.known.len() && mid.known[k] == q;
                    assert(after[if k < at {
                        k
                    } else {
                        k - 1
                    }] == q);
                }
                if after.contains(q) {
                    let k = choose|k: int| 0 <= k < after.len() && after[k] == q;
                    let m = if k < at {
                        k
                    } else {
                        k + 1
                    };
                    assert(mid.known[m] == q);
                }
            }
            forgetting_keeps_settled(mid, id, after);
        }
    }
}

/// Input is never aimed at a machine that is gone: after the desk is brought into step,
/// only connected machines have a screen on it, and after any movement that follows input
/// is owned by this machine or by one of them. What was true of the desk before stays true
/// of it.
pub proof fn input_only_goes_to_connected_machines(
    d: DeskModel,
    live: Seq<PeerId>,
    sizes: Seq<ScreenSize>,
    order: Seq<PeerId>,
    rs: Seq<RelationModel>,
    relayout: bool,
    dx: int,
    dy: int,
)
    requires
        d.graph.wf(),
        d.settled(),
        d.graph.nodes.len() + live.len() + order.len() <= usize::MAX,
    ensures
        ({
            let e = d.synced(live, sizes, order, rs, relayout);
            &&& e.graph.wf()
            &&& e.settled()
            &&& forall|q: PeerId| e.known.contains(q) ==> live.contains(q)
            &&& forall|q: PeerId| #[trigger] e.graph.has(q) ==> live.contains(q)
            &&& e.graph.holder() matches Focus::Remote(p) ==> live.contains(p)
            &&& e.graph.moved(dx, dy).holder() matches Focus::Remote(p) ==> live.contains(p)
        }),
{
    let stale = relayout || any_misplaced(rs, live, d.known);
    let start = if stale {
        d.cleared()
    } else {
        d
    };
    assert(start.graph.wf() && start.settled() && start.graph.nodes.len() <= d.graph.nodes.len())
        by {
        if stale {
            let own = start.graph.nodes[0];
            assert(own.width == d.graph.nodes[0].width && own.height == d.graph.nodes[0].height);
            assert(own.links =~= Seq::new(4, |i: int| None));
        }
    }
    let ids = placing_order(live, order);
    order_is_short(live, order);
    considering_keeps_settled(start, ids, ids.len(), live, sizes, rs);
    let full = start.considered_all(ids, ids.len(), live, sizes, rs);
    sweeping_keeps_settled(full, full.known.len(), live);
    let e = d.synced(live, sizes, order, rs, relayout);
    assert(full.known.skip(full.known.len() as int) =~= Seq::<PeerId>::empty());
    assert(e.known + Seq::<PeerId>::empty() =~= e.known);
    assert((DeskModel { known: e.known, ..e }) == e);
    assert forall|q: PeerId| #[trigger] e.graph.has(q) implies live.contains(q) by {
        let i = choose|i: int|
            0 <= i < e.graph.nodes.len() && #[trigger] e.graph.nodes[i].peer == Some(q);
        assert(on_the_desk(e, i));
    }
    movement_stays_on_the_desk(e, dx, dy);
}

proof fn order_is_short(live: Seq<PeerId>, order: Seq<PeerId>)
    ensures
        placing_order(live, order).len() <= live.len() + order.len(),
{
    those_in_is_short(order, live);
    those_not_in_is_short(live, order);
}

proof fn those_in_is_short(s: Seq<PeerId>, t: Seq<PeerId>)
    ensures
        those_in(s, t).len() <= s.len(),
    decreases s.len(),
{
    if s.len() > 0 {
        those_in_is_short(s.drop_last(), t);
    }
}

proof fn those_not_in_is_short(s: Seq<PeerId>, t: Seq<PeerId>)
    ensures
        those_not_in(s, t).len() <= s.len(),
    decreases s.len(),
{
    if s.len() > 0 {
        those_not_in_is_short(s.drop_last(), t);
    }
}

/// On a settled desk, input is owned by this machine or by one on the desk, before and
/// after any movement.
pub proof fn movement_stays_on_the_desk(d: DeskModel, dx: int, dy: int)
    requires
        d.graph.wf(),
        d.settled(),
    ensures
        d.graph.holder() matches Focus::Remote(p) ==> d.known.contains(p),
        d.graph.moved(dx, dy).holder() matches Focus::Remote(p) ==> d.known.contains(p),
{
    crate::focus::the_pointer_is_always_on_a_screen(d.graph, dx, dy);
    let end = d.graph.moved(dx, dy).current;
    assert(end > 0 ==> on_the_desk(d, end));
    assert(d.graph.current > 0 ==> on_the_desk(d, d.graph.current));
}

/// Whether every screen of `g` is there in `h`, of the same machine.
spec fn grown(g: GraphModel, h: GraphModel) -> bool {
    &&& g.nodes.len() <= h.nodes.len()
    &&& forall|i: int|
        0 <= i < g.nodes.len() ==> (#[trigger] h.nodes[i]).peer == g.nodes[i].peer
}

proof fn placing_grows(
    g: GraphModel,
    peer: PeerId,
    edge: Edge,
    anchor: Option<PeerId>,
    width: int,
    height: int,
)
    requires
        g.nodes.len() > 0,
    ensures
        grown(g, g.placed(peer, edge, anchor, width, height)),
        g.placed(peer, edge, anchor, width, height).current == g.current,
{
    let h = g.ensured(peer, width, height);
    if !g.has(peer) {
        assert(h.nodes[g.nodes.len() as int].peer == Some(peer));
    }
    assert(h.has(peer));
    let p = h.find(peer)->0;
    assert(0 <= p < h.nodes.len());
    assert(grown(g, h));
    let at = match anchor {
        None => Some(0int),
        Some(a) => g.find(a),
    };
    if let Some(a) = at {
        if let Some(id) = anchor {
            assert(g.nodes[a].peer == Some(id));
        }
        if p != a {
            let h1 = h.linked(a, edge, p);
            let h2 = h1.linked(p, edge.facing(), a);
            assert forall|i: int| 0 <= i < g.nodes.len() implies (#[trigger] h2.nodes[i]).peer
                == g.nodes[i].peer by {
                assert(h.nodes[i].peer == g.nodes[i].peer);
            }
        }
    }
}

proof fn considering_grows(
    d: DeskModel,
    id: PeerId,
    live: Seq<PeerId>,
    sizes: Seq<ScreenSize>,
    rs: Seq<RelationModel>,
)
    requires
        d.graph.nodes.len() > 0,
    ensures
        grown(d.graph, d.considered(id, live, sizes, rs).graph),
        d.considered(id, live, sizes, rs).graph.current == d.graph.current,
{
    if let Some(size) = size_of(sizes, id) {
        match first_relation(rs, id.short()) {
            Some(r) => {
                placing_grows(d.graph, id, r.edge, None, size.0, size.1);
                if let Some(p) = first_match(d.known, r.anchor) {
                    placing_grows(d.graph, id, r.edge, Some(p), size.0, size.1);
                }
            },
            None => {
                placing_grows(d.graph, id, Edge::Left, None, size.0, size.1);
                if d.known.len() > 0 {
                    placing_grows(d.graph, id, Edge::Bottom, Some(d.known[0]), size.0, size.1);
                }
            },
        }
    }
}

proof fn considering_keeps_the_pointer(
    d: DeskModel,
    ids: Seq<PeerId>,
    n: nat,
    live: Seq<PeerId>,
    sizes: Seq<ScreenSize>,
    rs: Seq<RelationModel>,
)
    requires
        d.graph.wf(),
        n <= ids.len(),
    ensures
        grown(d.graph, d.considered_all(ids, n, live, sizes, rs).graph),
        d.considered_all(ids, n, live, sizes, rs).graph.current == d.graph.current,
    decreases n,
{
    if n > 0 {
        considering_keeps_the_pointer(d, ids, (n - 1) as nat, live, sizes, rs);
        let b = d.considered_all(ids, (n - 1) as nat, live, sizes, rs);
        let a = d.considered_all(ids, n, live, sizes, rs);
        considering_grows(b, ids[n - 1], live, sizes, rs);
        assert forall|i: int| 0 <= i < d.graph.nodes.len() implies (
        #[trigger] a.graph.nodes[i]).peer == d.graph.nodes[i].peer by {
            assert(b.graph.nodes[i].peer == d.graph.nodes[i].peer);
            assert(a.graph.nodes[i].peer == b.graph.nodes[i].peer);
        }
    }
}

proof fn placing_keeps_wf(
    g: GraphModel,
    id: PeerId,
    edge: Edge,
    anchor: Option<PeerId>,
    size: (int, int),
)
    requires
        g.wf(),
        g.nodes.len() < usize::MAX,
        size.0 <= i32::MAX,
        size.1 <= i32::MAX,
    ensures
        g.placed(id, edge, anchor, size.0, size.1).wf(),
        g.placed(id, edge, anchor, size.0, size.1).nodes.len() <= g.nodes.len() + 1,
{
    let at = match anchor {
        None => Some(0int),
        Some(a) => g.find(a),
    };
    focus_lemmas(g, id, size);
    let h = g.ensured(id, size.0, size.1);
    let p = h.find(id)->0;
    if let Some(a) = at {
        if let Some(q) = anchor {
            assert(g.nodes[a].peer == Some(q));
        }
        if p != a {
            let h1 = h.linked(a, edge, p);
            crate::focus::linking_keeps_wf(h, a, edge, p);
            crate::focus::linking_keeps_wf(h1, p, edge.facing(), a);
        }
    }
}

proof fn considering_keeps_wf(
    d: DeskModel,
    ids: Seq<PeerId>,
    n: nat,
    live: Seq<PeerId>,
    sizes: Seq<ScreenSize>,
    rs: Seq<RelationModel>,
)
    requires
        d.graph.wf(),
        n <= ids.len(),
        d.graph.nodes.len() + n <= usize::MAX,
    ensures
        d.considered_all(ids, n, live, sizes, rs).graph.wf(),
        d.considered_all(ids, n, live, sizes, rs).graph.nodes.len() <= d.graph.nodes.len() + n,
    decreases n,
{
    if n > 0 {
        considering_keeps_wf(d, ids, (n - 1) as nat, live, sizes, rs);
        let b = d.considered_all(ids, (n - 1) as nat, live, sizes, rs);
        let id = ids[n - 1];
        sizes_are_small(sizes, id);
        if let Some(size) = size_of(sizes, id) {
            match first_relation(rs, id.short()) {
                Some(r) => {
                    placing_keeps_wf(b.graph, id, r.edge, None, size);
                    if let Some(p) = first_match(b.known, r.anchor) {
                        placing_keeps_wf(b.graph, id, r.edge, Some(p), size);
                    }
                },
                None => {
                    placing_keeps_wf(b.graph, id, Edge::Left, None, size);
                    if b.known.len() > 0 {
                        placing_keeps_wf(b.graph, id, Edge::Bottom, Some(b.known[0]), size);
                    }
                },
            }
        }
    }
}

proof fn sweeping_keeps_the_owner_or_comes_home(d: DeskModel, n: nat, live: Seq<PeerId>)
    requires
        d.graph.wf(),
        n <= d.known.len(),
    ensures
        d.swept(n, live).graph.wf(),
        d.swept(n, live).graph.holder() == d.graph.holder() || d.swept(n, live).graph.holder()
            == Focus::Local,
    decreases n,
{
    if n > 0 {
        sweeping_keeps_the_owner_or_comes_home(d, (n - 1) as nat, live);
        let b = d.swept((n - 1) as nat, live);
        let id = d.known[n - 1];
        crate::focus::forgetting_leaves_the_others(b.graph, id, id);
    }
}

/// Bringing the desk into step never hands input to anyone: its owner stays the same, or
/// it comes home.
pub proof fn syncing_keeps_the_owner_or_comes_home(
    d: DeskModel,
    live: Seq<PeerId>,
    sizes: Seq<ScreenSize>,
    order: Seq<PeerId>,
    rs: Seq<RelationModel>,
    relayout: bool,
)
    requires
        d.graph.wf(),
        d.graph.nodes.len() + live.len() + order.len() <= usize::MAX,
    ensures
        d.synced(live, sizes, order, rs, relayout).graph.holder() == d.graph.holder() || d.synced(
            live,
            sizes,
            order,
            rs,
            relayout,
        ).graph.holder() == Focus::Local,
{
    let stale = relayout || any_misplaced(rs, live, d.known);
    let start = if stale {
        d.cleared()
    } else {
        d
    };
    assert(start.graph.wf()) by {
        if stale {
            let own = start.graph.nodes[0];
            assert(own.width == d.graph.nodes[0].width && own.height == d.graph.nodes[0].height);
            assert(own.links =~= Seq::new(4, |i: int| None));
        }
    }
    let ids = placing_order(live, order);
    order_is_short(live, order);
    considering_keeps_the_pointer(start, ids, ids.len(), live, sizes, rs);
    let full = start.considered_all(ids, ids.len(), live, sizes, rs);
    considering_keeps_wf(start, ids, ids.len(), live, sizes, rs);
    sweeping_keeps_the_owner_or_comes_home(full, full.known.len(), live);
    assert(full.graph.nodes[start.graph.current].peer
        == start.graph.nodes[start.graph.current].peer);
}

// ---------------------------------------------------------------- where machines go
/// The size of a machine is the one it reported, its width as the width and its height as the
/// height; the first report counts, and without one there is no size.
pub proof fn a_size_is_what_was_reported(sizes: Seq<ScreenSize>, id: PeerId, i: int)
    requires
        0 <= i <= sizes.len(),
        forall|k: int| 0 <= k < i ==> (#[trigger] sizes[k]).peer != id,
    ensures
        i < sizes.len() && sizes[i].peer == id ==> size_of(sizes, id) == Some(
            (sizes[i].width as int, sizes[i].height as int),
        ),
        i == sizes.len() ==> size_of(sizes, id) is None,
    decreases i,
{
    if i > 0 {
        let rest = sizes.drop_first();
        assert(sizes[0].peer != id);
        assert forall|k: int| 0 <= k < i - 1 implies (#[trigger] rest[k]).peer != id by {
            assert(rest[k] == sizes[k + 1]);
        }
        a_size_is_what_was_reported(rest, id, i - 1);
        if i < sizes.len() {
            assert(rest[i - 1] == sizes[i]);
        }
    }
}

/// The relation about a machine is the first whose name its short id begins with.
pub proof fn the_first_relation_about_a_machine_counts(
    rs: Seq<RelationModel>,
    short: Seq<char>,
    i: int,
)
    requires
        0 <= i <= rs.len(),
        forall|k: int|
            0 <= k < i ==> !((#[trigger] rs[k]).peer.len() <= short.len() && short.take(
                rs[k].peer.len() as int,
            ) == rs[k].peer),
    ensures
        i < rs.len() && rs[i].peer.len() <= short.len() && short.take(rs[i].peer.len() as int)
            == rs[i].peer ==> first_relation(rs, short) == Some(rs[i]),
        i == rs.len() ==> first_relation(rs, short) is None,
    decreases i,
{
    if i > 0 {
        let rest = rs.drop_first();
        assert(!text::begins(short, rs[0].peer)) by {
            let n = rs[0].peer.len() as int;
            assert(!(rs[0].peer.len() <= short.len() && short.take(n) == rs[0].peer));
        }
        assert forall|k: int| 0 <= k < i - 1 implies !((#[trigger] rest[k]).peer.len()
            <= short.len() && short.take(rest[k].peer.len() as int) == rest[k].peer) by {
            assert(rest[k] == rs[k + 1]);
        }
        the_first_relation_about_a_machine_counts(rest, short, i - 1);
        if i < rs.len() {
            assert(rest[i - 1] == rs[i]);
        }
    }
}

/// The machine that a name means is the first whose short id begins with it.
pub proof fn the_first_machine_of_a_name_counts(ids: Seq<PeerId>, prefix: Seq<char>, i: int)
    requires
        0 <= i <= ids.len(),
        forall|k: int|
            0 <= k < i ==> !(prefix.len() <= (#[trigger] ids[k]).short().len() && ids[k].short().take(
                prefix.len() as int,
            ) == prefix),
    ensures
        i < ids.len() && prefix.len() <= ids[i].short().len() && ids[i].short().take(
            prefix.len() as int,
        ) == prefix ==> first_match(ids, prefix) == Some(ids[i]),
        i == ids.len() ==> first_match(ids, prefix) is None,
    decreases i,
{
    if i > 0 {
        let rest = ids.drop_first();
        assert(!text::begins(ids[0].short(), prefix)) by {
            assert(!(prefix.len() <= ids[0].short().len() && ids[0].short().take(
                prefix.len() as int,
            ) == prefix));
        }
        assert forall|k: int| 0 <= k < i - 1 implies !(prefix.len() <= (
        #[trigger] rest[k]).short().len() && rest[k].short().take(prefix.len() as int)
            == prefix) by {
            assert(rest[k] == ids[k + 1]);
        }
        the_first_machine_of_a_name_counts(rest, prefix, i - 1);
        if i < ids.len() {
            assert(rest[i - 1] == ids[i]);
        }
    }
}

/// Whether leaving the screen of `from`, where none is this machine, through an edge arrives
/// on the screen of `to`, of the given size, and leaving that one the other way comes back.
pub open spec fn beside(
    g: GraphModel,
    from: Option<PeerId>,
    edge: Edge,
    to: PeerId,
    size: (int, int),
) -> bool {
    exists|a: int, p: int|
        {
            &&& 0 <= a < g.nodes.len() && 0 < p < g.nodes.len()
            &&& #[trigger] g.nodes[a].peer == from
            &&& #[trigger] g.nodes[p].peer == Some(to)
            &&& g.nodes[a].links[edge.slot()] == Some(p as usize)
            &&& g.nodes[p].links[edge.facing().slot()] == Some(a as usize)
            &&& size.0 >= 1 ==> g.nodes[p].width == size.0
            &&& size.1 >= 1 ==> g.nodes[p].height == size.1
        }
}

/// A machine goes where a person put it: on that side of this machine, or of the neighbour
/// they named if it is on the desk, with the size it reported; and it is written down on that
/// side. While its neighbour is connected but not placed yet, it waits.
pub proof fn a_machine_goes_where_it_was_put(
    d: DeskModel,
    id: PeerId,
    live: Seq<PeerId>,
    sizes: Seq<ScreenSize>,
    rs: Seq<RelationModel>,
)
    requires
        d.graph.wf(),
        d.graph.nodes.len() < usize::MAX,
        !d.graph.has(id),
        size_of(sizes, id) is Some,
        first_relation(rs, id.short()) is Some,
    ensures
        ({
            let (size, r) = (size_of(sizes, id)->0, first_relation(rs, id.short())->0);
            let e = d.considered(id, live, sizes, rs);
            let neighbour = first_match(d.known, r.anchor);
            &&& r.anchor == "self"@ ==> beside(e.graph, None, r.edge, id, size) && e.places.last()
                == (id, r.edge) && e.known == d.known.push(id)
            &&& r.anchor != "self"@ && neighbour is Some && d.graph.has(neighbour->0) ==> beside(
                e.graph,
                neighbour,
                r.edge,
                id,
                size,
            ) && e.places.last() == (id, r.edge) && e.known == d.known.push(id)
            &&& r.anchor != "self"@ && neighbour is None && first_match(live, r.anchor) is Some ==> e
                == d
            &&& r.anchor != "self"@ && neighbour is None && first_match(live, r.anchor) is None
                ==> beside(e.graph, None, r.edge, id, size) && e.known == d.known.push(id)
        }),
{
    let (size, r) = (size_of(sizes, id)->0, first_relation(rs, id.short())->0);
    putting_is_beside(d, id, r.edge, None, size);
    if let Some(p) = first_match(d.known, r.anchor) {
        if d.graph.has(p) {
            putting_is_beside(d, id, r.edge, Some(p), size);
        }
    }
}

/// Without a word about it, the first machine goes to the left of this one and every later one
/// below the first, each with the size it reported; one whose size is not known yet waits, and
/// one that is on the desk stays where it is.
pub proof fn a_machine_without_a_place_gets_one(
    d: DeskModel,
    id: PeerId,
    live: Seq<PeerId>,
    sizes: Seq<ScreenSize>,
    rs: Seq<RelationModel>,
)
    requires
        d.graph.wf(),
        d.graph.nodes.len() < usize::MAX,
    ensures
        ({
            let e = d.considered(id, live, sizes, rs);
            let said = first_relation(rs, id.short()) is Some;
            &&& d.graph.has(id) ==> e == d
            &&& size_of(sizes, id) is None ==> e == d
            &&& !d.graph.has(id) && size_of(sizes, id) is Some && !said && d.known.len() == 0
                ==> beside(e.graph, None, Edge::Left, id, size_of(sizes, id)->0)
            &&& !d.graph.has(id) && size_of(sizes, id) is Some && !said && d.known.len() > 0
                && d.graph.has(d.known[0]) ==> beside(
                e.graph,
                Some(d.known[0]),
                Edge::Bottom,
                id,
                size_of(sizes, id)->0,
            )
        }),
{
    if !d.graph.has(id) && size_of(sizes, id) is Some {
        let size = size_of(sizes, id)->0;
        putting_is_beside(d, id, Edge::Left, None, size);
        if d.known.len() > 0 && d.graph.has(d.known[0]) {
            putting_is_beside(d, id, Edge::Bottom, Some(d.known[0]), size);
        }
    }
}

proof fn putting_is_beside(
    d: DeskModel,
    id: PeerId,
    edge: Edge,
    anchor: Option<PeerId>,
    size: (int, int),
)
    requires
        d.graph.wf(),
        d.graph.nodes.len() < usize::MAX,
        !d.graph.has(id),
        anchor matches Some(a) ==> d.graph.has(a),
    ensures
        beside(d.put(id, edge, anchor, size).graph, anchor, edge, id, size),
{
    let g = d.graph;
    let h = g.placed(id, edge, anchor, size.0, size.1);
    if let Some(a) = anchor {
        let i = choose|i: int| 0 <= i < g.nodes.len() && #[trigger] g.nodes[i].peer == Some(a);
        assert(a != id);
    }
    focus::placing_joins_both_ways(g, id, edge, anchor, size.0, size.1);
    focus::placing_changes_nothing_else(g, id, edge, anchor, size.0, size.1);
    let a = match anchor {
        None => 0int,
        Some(a) => g.find(a)->0,
    };
    let p = choose|p: int|
        {
            &&& 0 < p < h.nodes.len()
            &&& #[trigger] h.nodes[p].peer == Some(id)
            &&& h.nodes[a].links[edge.slot()] == Some(p as usize)
            &&& h.nodes[p].links[edge.facing().slot()] == Some(a as usize)
        };
    assert(g.nodes[a].peer == anchor);
    assert(h.nodes[a].peer == anchor);
    if p < g.nodes.len() {
        assert(h.nodes[p].peer == g.nodes[p].peer);
        assert(g.has(id));
    }
    assert(h.nodes.last() == h.nodes[h.nodes.len() - 1]);
    assert(p == h.nodes.len() - 1);
}

/// A new answer changes nothing but the answer about that machine: it says the side and the
/// neighbour that were given, the answers about every other machine are kept, and none is
/// made up.
pub proof fn an_answer_leaves_the_others_alone(
    stored: Seq<RelationModel>,
    peer: Seq<char>,
    edge: Seq<char>,
    anchor: Seq<char>,
    r: RelationModel,
)
    requires
        rearranged(stored, peer, edge, anchor) is Some,
    ensures
        ({
            let rs = rearranged(stored, peer, edge, anchor)->0;
            &&& rs.last().peer == peer && rs.last().anchor == anchor && edge_word(rs.last().edge)
                == edge
            &&& r.peer != peer ==> rs.contains(r) == stored.contains(r)
            &&& (forall|i: int| 0 <= i < stored.len() ==> (#[trigger] stored[i]).peer != peer)
                ==> rs.drop_last() == stored
        }),
{
    reveal_strlit("left");
    reveal_strlit("right");
    reveal_strlit("top");
    reveal_strlit("bottom");
    let kept = others(stored, peer);
    let rs = rearranged(stored, peer, edge, anchor)->0;
    others_keep_the_rest(stored, peer, r);
    assert(rs.drop_last() =~= kept);
    if r.peer != peer {
        if kept.contains(r) {
            let i = choose|i: int| 0 <= i < kept.len() && kept[i] == r;
            assert(rs[i] == r);
        }
        if rs.contains(r) {
            let i = choose|i: int| 0 <= i < rs.len() && rs[i] == r;
            assert(kept[i] == r);
        }
    }
}

proof fn others_keep_the_rest(rs: Seq<RelationModel>, peer: Seq<char>, r: RelationModel)
    ensures
        r.peer != peer ==> others(rs, peer).contains(r) == rs.contains(r),
        (forall|i: int| 0 <= i < rs.len() ==> (#[trigger] rs[i]).peer != peer) ==> others(rs, peer)
            == rs,
    decreases rs.len(),
{
    if rs.len() > 0 {
        let front = rs.drop_last();
        let rest = others(front, peer);
        others_keep_the_rest(front, peer, r);
        let last = rs[rs.len() - 1];
        if forall|i: int| 0 <= i < rs.len() ==> (#[trigger] rs[i]).peer != peer {
            assert forall|i: int| 0 <= i < front.len() implies (#[trigger] front[i]).peer != peer by {
                assert(front[i] == rs[i]);
            }
            assert(last.peer != peer);
            assert(others(rs, peer) =~= rs);
        }
        if r.peer != peer {
            if rs.contains(r) {
                let i = choose|i: int| 0 <= i < rs.len() && rs[i] == r;
                if i < front.len() {
                    assert(front[i] == r);
                    let k = choose|k: int| 0 <= k < rest.len() && rest[k] == r;
                    assert(others(rs, peer)[k] == r);
                } else {
                    assert(others(rs, peer)[rest.len() as int] == r);
                }
            }
            if others(rs, peer).contains(r) {
                let o = others(rs, peer);
                let k = choose|k: int| 0 <= k < o.len() && o[k] == r;
                if k < rest.len() {
                    assert(rest[k] == r);
                    let i = choose|i: int| 0 <= i < front.len() && front[i] == r;
                    assert(rs[i] == r);
                } else {
                    assert(last == r);
                }
            }
        }
    } else {
        assert(others(rs, peer) =~= rs);
    }
}

/// Connected machines are placed as they were paired: every one of them has its turn, those
/// with a recorded order in that order and before the others.
pub proof fn everyone_connected_has_a_turn(live: Seq<PeerId>, order: Seq<PeerId>, id: PeerId)
    ensures
        placing_order(live, order).contains(id) <==> live.contains(id),
{
    members_of_those(order, live, id);
    members_of_those(live, order, id);
    let (a, b) = (those_in(order, live), those_not_in(live, order));
    let p = a + b;
    if a.contains(id) {
        let i = choose|i: int| 0 <= i < a.len() && a[i] == id;
        assert(p[i] == id);
    }
    if b.contains(id) {
        let i = choose|i: int| 0 <= i < b.len() && b[i] == id;
        assert(p[a.len() + i] == id);
    }
    if p.contains(id) {
        let i = choose|i: int| 0 <= i < p.len() && p[i] == id;
        if i < a.len() {
            assert(a[i] == id);
        } else {
            assert(b[i - a.len()] == id);
        }
    }
}

proof fn members_of_those(s: Seq<PeerId>, t: Seq<PeerId>, id: PeerId)
    ensures
        those_in(s, t).contains(id) <==> s.contains(id) && t.contains(id),
        those_not_in(s, t).contains(id) <==> s.contains(id) && !t.contains(id),
    decreases s.len(),
{
    if s.len() > 0 {
        let front = s.drop_last();
        let last = s[s.len() - 1];
        members_of_those(front, t, id);
        assert(s.contains(id) <==> front.contains(id) || id == last) by {
            if s.contains(id) {
                let i = choose|i: int| 0 <= i < s.len() && s[i] == id;
                assert(i < front.len() ==> front[i] == id);
            }
            if front.contains(id) {
                let i = choose|i: int| 0 <= i < front.len() && front[i] == id;
                assert(s[i] == id);
            }
        }
        pushed_is_contained(those_in(front, t), last, id);
        pushed_is_contained(those_not_in(front, t), last, id);
    }
}

proof fn pushed_is_contained(s: Seq<PeerId>, last: PeerId, id: PeerId)
    ensures
        s.push(last).contains(id) <==> s.contains(id) || id == last,
{
    assert(s.push(last)[s.len() as int] == last);
    if s.contains(id) {
        let i = choose|i: int| 0 <= i < s.len() && s[i] == id;
        assert(s.push(last)[i] == id);
    }
    if s.push(last).contains(id) {
        let i = choose|i: int| 0 <= i < s.push(last).len() && s.push(last)[i] == id;
        if i < s.len() {
            assert(s[i] == id);
        }
    }
}

/// A relation is told as it is, and so is a desk; each word is that of its own side.
pub proof fn relations_are_told_as_they_are(r: Relation, d: Desk)
    ensures
        r@.peer == r.peer@,
        r@.edge == r.edge,
        r@.anchor == r.anchor@,
        d@.graph == d.graph@,
        d@.known == d.known@,
        d@.places == d.places@,
        edge_word(Edge::Left) == "left"@,
        edge_word(Edge::Right) == "right"@,
        edge_word(Edge::Top) == "top"@,
        edge_word(Edge::Bottom) == "bottom"@,
        word_edge("left"@) == Some(Edge::Left),
        word_edge("right"@) == Some(Edge::Right),
        word_edge("top"@) == Some(Edge::Top),
        word_edge("bottom"@) == Some(Edge::Bottom),
{
    reveal_strlit("left");
    reveal_strlit("right");
    reveal_strlit("top");
    reveal_strlit("bottom");
    assert("left"@[0] != "right"@[0] && "left"@[0] != "top"@[0] && "left"@[0] != "bottom"@[0]);
    assert("right"@[0] != "top"@[0] && "right"@[0] != "bottom"@[0] && "top"@[0] != "bottom"@[0]);
}

/// An answer is taken just where it names a machine, one of the four sides, and another machine
/// as its neighbour.
pub proof fn only_a_sensible_answer_is_taken(
    stored: Seq<RelationModel>,
    peer: Seq<char>,
    edge: Seq<char>,
    anchor: Seq<char>,
)
    ensures
        rearranged(stored, peer, edge, anchor) is Some <==> peer.len() > 0 && peer != anchor && (edge
            == "left"@ || edge == "right"@ || edge == "top"@ || edge == "bottom"@),
{
    relations_have_words();
}

proof fn relations_have_words()
    ensures
        word_edge("left"@) == Some(Edge::Left),
        word_edge("right"@) == Some(Edge::Right),
        word_edge("top"@) == Some(Edge::Top),
        word_edge("bottom"@) == Some(Edge::Bottom),
{
    reveal_strlit("left");
    reveal_strlit("right");
    reveal_strlit("top");
    reveal_strlit("bottom");
    assert("left"@[0] != "right"@[0] && "left"@[0] != "top"@[0] && "left"@[0] != "bottom"@[0]);
    assert("right"@[0] != "top"@[0] && "right"@[0] != "bottom"@[0] && "top"@[0] != "bottom"@[0]);
}

/// A line of the layout file names a machine, the side and the neighbour, in this order;
/// without a neighbour this machine is meant.
pub proof fn a_line_names_machine_side_and_neighbour(
    peer: Seq<char>,
    edge: Edge,
    anchor: Seq<char>,
)
    requires
        text::solid(peer),
        text::solid(anchor),
        peer.len() > 0,
        anchor.len() > 0,
    ensures
        line_relation((peer.push(' ') + edge_word(edge)).push(' ') + anchor) == Some(
            RelationModel { peer, edge, anchor },
        ),
        line_relation(peer.push(' ') + edge_word(edge)) == Some(
            RelationModel { peer, edge, anchor: "self"@ },
        ),
{
    relations_have_words();
    reveal_strlit("left");
    reveal_strlit("right");
    reveal_strlit("top");
    reveal_strlit("bottom");
    let word = edge_word(edge);
    assert(word.len() > 0 && forall|i: int| 0 <= i < word.len() ==> 'a' <= #[trigger] word[i]
        <= 'z');
    assert(!word.contains(' '));
    assert(!peer.contains(' ')) by {
        if peer.contains(' ') {
            let k = choose|k: int| 0 <= k < peer.len() && peer[k] == ' ';
            assert(!text::is_white(peer[k]));
        }
    }
    assert(!anchor.contains(' ')) by {
        if anchor.contains(' ') {
            let k = choose|k: int| 0 <= k < anchor.len() && anchor[k] == ' ';
            assert(!text::is_white(anchor[k]));
        }
    }
    let two = peer.push(' ') + word;
    let three = two.push(' ') + anchor;
    assert(two[0] == peer[0] && three[0] == peer[0]);
    assert(two.last() == word[word.len() - 1]);
    assert(three.last() == anchor[anchor.len() - 1]);
    text::trimmed_already(two);
    text::trimmed_already(three);
    text::a_separator_begins_a_piece(Seq::empty(), ' ', peer);
    text::a_separator_begins_a_piece(peer, ' ', word);
    text::a_separator_begins_a_piece(two, ' ', anchor);
    assert(text::pieces(two, ' ') == seq![peer].push(word));
    assert(text::pieces(three, ' ') == seq![peer].push(word).push(anchor));
    assert(word_edge(word) == Some(edge));
}

/// The recorded order comes first, in that order; without one, machines are placed as they
/// are connected.
pub proof fn the_recorded_order_comes_first(live: Seq<PeerId>, order: Seq<PeerId>)
    ensures
        (forall|i: int| 0 <= i < order.len() ==> live.contains(#[trigger] order[i]))
            ==> text::begins(placing_order(live, order), order),
        order.len() == 0 ==> placing_order(live, order) == live,
{
    if forall|i: int| 0 <= i < order.len() ==> live.contains(#[trigger] order[i]) {
        all_of_those(order, live);
        assert(placing_order(live, order).take(order.len() as int) =~= order);
    }
    if order.len() == 0 {
        none_of_those(live, order);
        assert(those_in(order, live) =~= Seq::<PeerId>::empty());
        assert(placing_order(live, order) =~= live);
    }
}

proof fn all_of_those(s: Seq<PeerId>, t: Seq<PeerId>)
    requires
        forall|i: int| 0 <= i < s.len() ==> t.contains(#[trigger] s[i]),
    ensures
        those_in(s, t) == s,
    decreases s.len(),
{
    if s.len() > 0 {
        let front = s.drop_last();
        assert forall|i: int| 0 <= i < front.len() implies t.contains(#[trigger] front[i]) by {
            assert(front[i] == s[i]);
        }
        all_of_those(front, t);
        assert(t.contains(s[s.len() - 1]));
        assert(those_in(s, t) =~= s);
    } else {
        assert(those_in(s, t) =~= s);
    }
}

proof fn none_of_those(s: Seq<PeerId>, t: Seq<PeerId>)
    requires
        t.len() == 0,
    ensures
        those_not_in(s, t) == s,
    decreases s.len(),
{
    if s.len() > 0 {
        none_of_those(s.drop_last(), t);
        assert(!t.contains(s.last()));
        assert(those_not_in(s, t) =~= s);
    } else {
        assert(those_not_in(s, t) =~= s);
    }
}

/// A desk is built anew for a relation just where a connected machine is on the desk while its
/// neighbour, another connected machine, is not yet.
pub proof fn only_a_missing_neighbour_rebuilds_the_desk(
    r: RelationModel,
    live: Seq<PeerId>,
    known: Seq<PeerId>,
)
    ensures
        r.anchor == "self"@ ==> !misplaced(r, live, known),
        first_match(known, r.anchor) is Some ==> !misplaced(r, live, known),
        first_match(known, r.peer) is None ==> !misplaced(r, live, known),
        first_match(live, r.peer) is None || first_match(live, r.anchor) is None ==> !misplaced(
            r,
            live,
            known,
        ),
        r.anchor != "self"@ && first_match(known, r.peer) is Some && first_match(known, r.anchor)
            is None && first_match(live, r.peer) is Some && first_match(live, r.anchor) is Some
            ==> misplaced(r, live, known),
{
}

/// Everyone who can be placed is: once the desk is brought into step, every connected machine
/// that told its size has a screen on it, unless it waits for a neighbour that is connected
/// too.
pub proof fn everyone_who_can_be_placed_is(
    d: DeskModel,
    live: Seq<PeerId>,
    sizes: Seq<ScreenSize>,
    order: Seq<PeerId>,
    rs: Seq<RelationModel>,
    relayout: bool,
    id: PeerId,
)
    requires
        d.graph.wf(),
        d.settled(),
        d.graph.nodes.len() + live.len() + order.len() <= usize::MAX,
        live.contains(id),
        size_of(sizes, id) is Some,
        first_relation(rs, id.short()) matches Some(r) ==> r.anchor == "self"@ || first_match(
            live,
            r.anchor,
        ) is None,
    ensures
        d.synced(live, sizes, order, rs, relayout).graph.has(id),
{
    let stale = relayout || any_misplaced(rs, live, d.known);
    let start = if stale {
        d.cleared()
    } else {
        d
    };
    assert(start.graph.wf() && start.settled() && start.graph.nodes.len() <= d.graph.nodes.len())
        by {
        if stale {
            let own = start.graph.nodes[0];
            assert(own.width == d.graph.nodes[0].width && own.height == d.graph.nodes[0].height);
            assert(own.links =~= Seq::new(4, |i: int| None));
        }
    }
    let ids = placing_order(live, order);
    order_is_short(live, order);
    everyone_connected_has_a_turn(live, order, id);
    let m = choose|m: int| 0 <= m < ids.len() && ids[m] == id;
    placed_in_its_turn(start, ids, m, live, sizes, rs);
    placed_for_good(start, ids, (m + 1) as nat, ids.len(), live, sizes, rs, id);
    considering_keeps_settled(start, ids, ids.len(), live, sizes, rs);
    let full = start.considered_all(ids, ids.len(), live, sizes, rs);
    sweeping_keeps_the_connected(full, full.known.len(), live, id);
}

/// A machine that can be placed is placed when its turn comes.
proof fn placed_in_its_turn(
    d: DeskModel,
    ids: Seq<PeerId>,
    m: int,
    live: Seq<PeerId>,
    sizes: Seq<ScreenSize>,
    rs: Seq<RelationModel>,
)
    requires
        d.graph.wf(),
        d.settled(),
        0 <= m < ids.len(),
        d.graph.nodes.len() + ids.len() <= usize::MAX,
        size_of(sizes, ids[m]) is Some,
        first_relation(rs, ids[m].short()) matches Some(r) ==> r.anchor == "self"@ || first_match(
            live,
            r.anchor,
        ) is None,
    ensures
        d.considered_all(ids, (m + 1) as nat, live, sizes, rs).graph.has(ids[m]),
{
    let id = ids[m];
    considering_keeps_settled(d, ids, m as nat, live, sizes, rs);
    let b = d.considered_all(ids, m as nat, live, sizes, rs);
    let e = b.considered(id, live, sizes, rs);
    if !b.graph.has(id) {
        let size = size_of(sizes, id)->0;
        match first_relation(rs, id.short()) {
            Some(r) => {
                putting_is_beside(b, id, r.edge, None, size);
                if let Some(p) = first_match(b.known, r.anchor) {
                    first_match_is_one(b.known, r.anchor);
                    let k = choose|k: int| 0 <= k < b.known.len() && b.known[k] == p;
                    assert(b.graph.has(b.known[k]));
                    putting_is_beside(b, id, r.edge, Some(p), size);
                }
            },
            None => {
                putting_is_beside(b, id, Edge::Left, None, size);
                if b.known.len() > 0 {
                    assert(b.graph.has(b.known[0]));
                    putting_is_beside(b, id, Edge::Bottom, Some(b.known[0]), size);
                }
            },
        }
        assert(e.graph.has(id));
    }
}

/// A machine that was placed stays while others have their turns.
proof fn placed_for_good(
    d: DeskModel,
    ids: Seq<PeerId>,
    m: nat,
    n: nat,
    live: Seq<PeerId>,
    sizes: Seq<ScreenSize>,
    rs: Seq<RelationModel>,
    id: PeerId,
)
    requires
        d.graph.wf(),
        d.settled(),
        m <= n <= ids.len(),
        d.graph.nodes.len() + ids.len() <= usize::MAX,
        d.considered_all(ids, m, live, sizes, rs).graph.has(id),
    ensures
        d.considered_all(ids, n, live, sizes, rs).graph.has(id),
    decreases n - m,
{
    if m < n {
        placed_for_good(d, ids, m, (n - 1) as nat, live, sizes, rs, id);
        considering_keeps_settled(d, ids, (n - 1) as nat, live, sizes, rs);
        let b = d.considered_all(ids, (n - 1) as nat, live, sizes, rs);
        let e = b.considered(ids[n - 1], live, sizes, rs);
        considering_grows(b, ids[n - 1], live, sizes, rs);
        let i = choose|i: int|
            0 <= i < b.graph.nodes.len() && #[trigger] b.graph.nodes[i].peer == Some(id);
        assert(e.graph.nodes[i].peer == Some(id));
    }
}

/// Taking the machines that are gone off the desk leaves every connected one there.
proof fn sweeping_keeps_the_connected(d: DeskModel, n: nat, live: Seq<PeerId>, id: PeerId)
    requires
        d.graph.wf(),
        d.settled(),
        n <= d.known.len(),
        live.contains(id),
        d.graph.has(id),
    ensures
        d.swept(n, live).graph.has(id),
    decreases n,
{
    if n > 0 {
        sweeping_keeps_the_connected(d, (n - 1) as nat, live, id);
        sweeping_keeps_settled(d, (n - 1) as nat, live);
        let b = d.swept((n - 1) as nat, live);
        focus::forgetting_leaves_the_others(b.graph, d.known[n - 1], id);
    }
}

} // verus!
