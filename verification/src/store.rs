//! What is kept on disk: the peers this machine has paired with, in which order, and its
//! settings.
//!
//! The peers file has one peer per line, `<64 hexadecimal digits> <display name>`. It is
//! plain text on purpose: it is the one file a person might want to inspect or clear by
//! hand, so a line that cannot be read is skipped and does not take down the whole file.
use crate::clipboard::Shares;
use crate::frame::PeerId;
use crate::identity::{Fingerprint, TrustModel, TrustStore, TrustedPeer};
use crate::{discovery, identity, text};
use vstd::prelude::*;
use vstd::string::*;

verus! {

// ---------------------------------------------------------------- the peers file
/// The fingerprint with these bytes.
pub open spec fn print_of(raw: Seq<u8>) -> Fingerprint {
    choose|f: Fingerprint| #[trigger] f@ == raw
}

/// What one line of the peers file says.
pub enum Line {
    /// Nothing: it is empty or a comment.
    Silent,
    /// A paired peer.
    Peer { raw: Seq<u8>, name: Seq<char> },
    /// Something that cannot be read.
    Unreadable,
}

/// What one line of the peers file says.
pub open spec fn line_says(line: Seq<char>) -> Line {
    let body = text::trimmed(line);
    if body.len() == 0 || body[0] == '#' {
        Line::Silent
    } else {
        let (hex, name) = text::cut_white(body);
        match discovery::claimed_fingerprint(hex) {
            Some(raw) => Line::Peer { raw, name: text::trimmed(name) },
            None => Line::Unreadable,
        }
    }
}

/// The peers that some lines name, the later line outranking the earlier.
pub open spec fn peers_in(lines: Seq<Seq<char>>) -> Map<Seq<u8>, TrustModel>
    decreases lines.len(),
{
    if lines.len() == 0 {
        Map::empty()
    } else {
        let before = peers_in(lines.drop_last());
        match line_says(lines.last()) {
            Line::Peer { raw, name } => before.insert(
                print_of(raw).id(),
                TrustModel { fingerprint: print_of(raw), name },
            ),
            _ => before,
        }
    }
}

/// The numbers of the lines that cannot be read, counted from one.
pub open spec fn unreadable_in(lines: Seq<Seq<char>>) -> Seq<usize>
    decreases lines.len(),
{
    if lines.len() == 0 {
        Seq::empty()
    } else {
        let before = unreadable_in(lines.drop_last());
        if line_says(lines.last()) is Unreadable {
            before.push(lines.len() as usize)
        } else {
            before
        }
    }
}

/// Read the peers file. Also says which lines were skipped as unreadable.
pub fn load_peers(file: &str) -> (r: (TrustStore, Vec<usize>))
    ensures
        r.0.wf(),
        r.0@ == peers_in(text::lines_of(file@)),
        r.1@ == unreadable_in(text::lines_of(file@)),
{
    let chars = text::chars_of(file);
    let lines = text::lines(chars.as_slice());
    let ghost all = text::views(lines@);
    let mut store = TrustStore::new();
    let mut skipped: Vec<usize> = Vec::new();
    let mut i: usize = 0;
    proof {
        assert(peers_in(all.take(0)) =~= store@);
        assert(unreadable_in(all.take(0)) =~= skipped@);
    }
    while i < lines.len()
        invariant
            i <= lines@.len(),
            all == text::views(lines@),
            store.wf(),
            store@ == peers_in(all.take(i as int)),
            skipped@ == unreadable_in(all.take(i as int)),
        decreases lines.len() - i,
    {
        let line = lines[i].as_slice();
        proof {
            let next = all.take(i + 1);
            assert(next.drop_last() =~= all.take(i as int));
            assert(next.last() == line@);
        }
        let body = text::trim(line);
        if body.len() > 0 && body[0] != '#' {
            let (hex, name) = text::cut_at_white(body.as_slice());
            let hex = text::string_of(hex.as_slice());
            match discovery::parse_fingerprint(hex.as_str()) {
                Some(fingerprint) => {
                    let name = text::string_of(text::trim(name.as_slice()).as_slice());
                    proof {
                        identity::fingerprints_are_their_bytes(fingerprint, print_of(fingerprint@));
                    }
                    store.trust(fingerprint, name.as_str());
                },
                None => {
                    skipped.push(i + 1);
                },
            }
        }
        i = i + 1;
    }
    proof {
        assert(all.take(all.len() as int) =~= all);
    }
    (store, skipped)
}

/// The line that names a peer.
pub open spec fn peer_line(p: TrustedPeer) -> Seq<char> {
    text::hex_of(p.fingerprint@).push(' ') + p.name@
}

/// The lines of the peers file.
pub open spec fn peer_lines(peers: Seq<TrustedPeer>) -> Seq<Seq<char>> {
    seq!["# seam paired peers: <fingerprint> <name>"@] + Seq::new(
        peers.len(),
        |i: int| peer_line(peers[i]),
    )
}

/// Write the peers file.
pub fn save_peers(store: &TrustStore) -> (file: String)
    requires
        store.wf(),
    ensures
        file@ == text::written(peer_lines(store.entries())),
{
    let peers = store.iter();
    let mut file = String::from_str("# seam paired peers: <fingerprint> <name>");
    file.append("\n");
    let ghost ls = peer_lines(peers@);
    proof {
        reveal_strlit("\n");
        let one = ls.take(1);
        assert(one.drop_last() =~= Seq::<Seq<char>>::empty());
        assert(text::written(one.drop_last()) + one.last() =~= ls[0]);
        assert(file@ =~= text::written(one));
    }
    let mut i: usize = 0;
    while i < peers.len()
        invariant
            i <= peers@.len(),
            ls == peer_lines(peers@),
            file@ == text::written(ls.take(i + 1)),
        decreases peers.len() - i,
    {
        let peer = &peers[i];
        let ghost before = file@;
        file.append(text::hex(peer.fingerprint.as_bytes()).as_str());
        file.append(" ");
        file.append(peer.name.as_str());
        file.append("\n");
        proof {
            reveal_strlit("\n");
            reveal_strlit(" ");
            let next = ls.take(i + 2);
            assert(next.drop_last() =~= ls.take(i + 1));
            assert(next.last() == peer_line(*peer));
            assert(file@ =~= (before + peer_line(*peer)).push('\n'));
        }
        i = i + 1;
    }
    proof {
        assert(ls.take(ls.len() as int) =~= ls);
    }
    file
}

/// A peer's line is read back as that peer.
proof fn a_peer_line_reads_back(p: TrustedPeer)
    requires
        p.name@ == text::trimmed(p.name@),
        !p.name@.contains('\n'),
    ensures
        line_says(peer_line(p)) == (Line::Peer { raw: p.fingerprint@, name: p.name@ }),
        text::is_line(peer_line(p)),
{
    let hex = text::hex_of(p.fingerprint@);
    let line = peer_line(p);
    text::hex_is_solid(p.fingerprint@);
    identity::fingerprint_len(p.fingerprint);
    discovery::advertised_fingerprint_round_trips(p.fingerprint);
    assert(hex[0] == line[0]);
    assert(!text::is_white(line[0]));
    if line.contains('\n') {
        let i = choose|i: int| 0 <= i < line.len() && line[i] == '\n';
        if i < hex.len() {
            assert(line[i] == hex[i]);
        } else if i > hex.len() {
            assert(p.name@[i - hex.len() - 1] == '\n');
        }
    }
    if p.name@.len() > 0 {
        text::trimmed_ends(p.name@);
        assert(line.last() == p.name@.last());
        text::trimmed_already(line);
        text::cut_behind_solid(hex, p.name@);
    } else {
        assert(p.name@ =~= Seq::empty());
        assert(line =~= hex.push(' '));
        assert(line.drop_last() =~= hex);
        assert(hex.last() == hex[hex.len() - 1]);
        assert(text::trimmed_start(line) == line);
        assert(text::trimmed_end(line) == text::trimmed_end(hex));
        assert(text::trimmed(line) == hex);
        text::cut_behind_solid(hex, Seq::empty());
        assert(text::trimmed(Seq::<char>::empty()) =~= Seq::<char>::empty());
    }
}

/// The peers of some lines of the file are those written.
proof fn peer_lines_read_back(peers: Seq<TrustedPeer>)
    requires
        identity::ordered_by_id(peers),
        forall|i: int|
            0 <= i < peers.len() ==> (#[trigger] peers[i]).name@ == text::trimmed(peers[i].name@)
                && !peers[i].name@.contains('\n'),
    ensures
        peers_in(peer_lines(peers)) == identity::trust_map(peers),
        unreadable_in(peer_lines(peers)) == Seq::<usize>::empty(),
        forall|i: int| 0 <= i < peer_lines(peers).len() ==> text::is_line(#[trigger] peer_lines(peers)[i]),
    decreases peers.len(),
{
    let lines = peer_lines(peers);
    let header = "# seam paired peers: <fingerprint> <name>"@;
    reveal_strlit("# seam paired peers: <fingerprint> <name>");
    text::trimmed_already(header);
    assert(line_says(header) is Silent);
    if peers.len() == 0 {
        reveal_with_fuel(peers_in, 2);
        reveal_with_fuel(unreadable_in, 2);
        assert(lines =~= seq![header]);
        assert(lines.drop_last() =~= Seq::<Seq<char>>::empty());
        assert(peers_in(lines) =~= identity::trust_map(peers));
        assert(text::is_line(header)) by {
            assert(header.last() == '>');
            if header.contains('\n') {
                let i = choose|i: int| 0 <= i < header.len() && header[i] == '\n';
                assert(false);
            }
        }
    } else {
        let front = peers.drop_last();
        let p = peers.last();
        assert forall|i: int| 0 <= i < front.len() implies (#[trigger] front[i]).name@
            == text::trimmed(front[i].name@) && !front[i].name@.contains('\n') by {
            assert(front[i] == peers[i]);
        }
        peer_lines_read_back(front);
        assert(peers[peers.len() - 1] == p);
        a_peer_line_reads_back(p);
        assert(lines.drop_last() =~= peer_lines(front));
        assert(lines.last() == peer_line(p));
        identity::fingerprints_are_their_bytes(p.fingerprint, print_of(p.fingerprint@));
        let n = peers.len() - 1;
        let m = identity::trust_map(peers);
        let want = identity::trust_map(front).insert(p.fingerprint.id(), p@);
        assert forall|id: Seq<u8>| m.dom().contains(id) == #[trigger] want.dom().contains(id) by {
            if m.dom().contains(id) {
                let i = choose|i: int|
                    0 <= i < peers.len() && #[trigger] peers[i].fingerprint.id() == id;
                if i < n {
                    assert(front[i].fingerprint.id() == id);
                }
            }
            if identity::trust_map(front).dom().contains(id) {
                let i = choose|i: int|
                    0 <= i < front.len() && #[trigger] front[i].fingerprint.id() == id;
                assert(peers[i].fingerprint.id() == id);
            }
            assert(peers[n].fingerprint.id() == p.fingerprint.id());
        }
        assert forall|id: Seq<u8>| m.dom().contains(id) implies #[trigger] m[id] == want[id] by {
            let i = choose|i: int|
                0 <= i < peers.len() && #[trigger] peers[i].fingerprint.id() == id;
            identity::entry_is_found(peers, i);
            if i < n {
                assert(front[i] == peers[i]);
                identity::entry_is_found(front, i);
                assert(identity::id_rank(peers[i].fingerprint.id()) < identity::id_rank(
                    peers[n].fingerprint.id(),
                ));
            }
        }
        assert(m =~= want);
        assert forall|i: int| 0 <= i < lines.len() implies text::is_line(#[trigger] lines[i]) by {
            if i < lines.len() - 1 {
                assert(lines[i] == peer_lines(front)[i]);
            }
        }
    }
}

/// Pairings survive the disk: reading the peers file back gives the store that was written
/// and skips no line, as long as no name holds a line break or has white space at an end.
pub proof fn pairings_survive_the_disk(peers: Seq<TrustedPeer>)
    requires
        identity::ordered_by_id(peers),
        forall|i: int|
            0 <= i < peers.len() ==> (#[trigger] peers[i]).name@ == text::trimmed(peers[i].name@)
                && !peers[i].name@.contains('\n'),
    ensures
        peers_in(text::lines_of(text::written(peer_lines(peers)))) == identity::trust_map(peers),
        unreadable_in(text::lines_of(text::written(peer_lines(peers)))) == Seq::<usize>::empty(),
{
    peer_lines_read_back(peers);
    text::lines_of_written(peer_lines(peers));
}

/// A line that cannot be read costs that line and nothing else.
pub proof fn an_unreadable_line_costs_only_itself(
    before: Seq<Seq<char>>,
    bad: Seq<char>,
    after: Seq<Seq<char>>,
)
    requires
        line_says(bad) is Unreadable,
    ensures
        peers_in(before.push(bad) + after) == peers_in(before + after),
    decreases after.len(),
{
    let with = before.push(bad) + after;
    let without = before + after;
    if after.len() == 0 {
        assert(with =~= before.push(bad));
        assert(without =~= before);
        assert(with.drop_last() =~= before);
    } else {
        an_unreadable_line_costs_only_itself(before, bad, after.drop_last());
        assert(with.drop_last() =~= before.push(bad) + after.drop_last());
        assert(without.drop_last() =~= before + after.drop_last());
        assert(with.last() == after.last());
        assert(without.last() == after.last());
    }
}

// ---------------------------------------------------------------- looking up a peer
/// Whether what a person typed names a peer: its display name, or the start of its short id
/// or of its fingerprint. Letter case does not matter.
pub open spec fn named_by(p: TrustedPeer, query: Seq<char>) -> bool {
    let needle = text::lowercase(text::trimmed(query));
    ||| text::lowercase(p.name@) == needle
    ||| text::begins(short_of(p.fingerprint.id()), needle)
    ||| text::begins(text::hex_of(p.fingerprint@), needle)
}

/// The short form of an id.
pub open spec fn short_of(id: Seq<u8>) -> Seq<char> {
    text::hex_of(id.take(4))
}

/// The peers that a query names, in order.
pub open spec fn matching(peers: Seq<TrustedPeer>, query: Seq<char>) -> Seq<TrustedPeer>
    decreases peers.len(),
{
    if peers.len() == 0 {
        Seq::empty()
    } else {
        let rest = matching(peers.drop_last(), query);
        if named_by(peers.last(), query) {
            rest.push(peers.last())
        } else {
            rest
        }
    }
}

/// Why a lookup failed.
#[derive(Debug)]
pub enum LookupError {
    /// Nothing has that name or id.
    NoMatch,
    /// More than one has. Holds each one's name and short id.
    Ambiguous(Vec<String>),
}

/// How a peer is listed where a query was ambiguous.
pub open spec fn listing(p: TrustedPeer) -> Seq<char> {
    p.name@ + " ("@ + short_of(p.fingerprint.id()) + ")"@
}

/// Texts with a comma and a space between each two.
pub open spec fn comma_separated(parts: Seq<Seq<char>>) -> Seq<char>
    decreases parts.len(),
{
    if parts.len() == 0 {
        Seq::empty()
    } else if parts.len() == 1 {
        parts[0]
    } else {
        comma_separated(parts.drop_last()) + ", "@ + parts.last()
    }
}

/// Texts with a comma and a space between each two.
pub fn comma_list(parts: &Vec<String>) -> (s: String)
    ensures
        s@ == comma_separated(text::contents(parts@)),
{
    let ghost all = text::contents(parts@);
    let mut s = String::new();
    let mut i: usize = 0;
    while i < parts.len()
        invariant
            i <= parts@.len(),
            all == text::contents(parts@),
            s@ == comma_separated(all.take(i as int)),
        decreases parts.len() - i,
    {
        proof {
            let next = all.take(i + 1);
            assert(next.drop_last() =~= all.take(i as int));
            assert(next.last() == parts@[i as int]@);
            if i == 0 {
                assert(s@ + all[0] =~= all[0]);
            }
        }
        if i > 0 {
            s.append(", ");
        }
        s.append(parts[i].as_str());
        i = i + 1;
    }
    proof {
        assert(all.take(all.len() as int) =~= all);
    }
    s
}

impl LookupError {
    /// What a person who asked for `query` is told.
    pub open spec fn message(self, query: Seq<char>) -> Seq<char> {
        match self {
            LookupError::NoMatch => "no paired peer matches "@ + text::quoted(query)
                + ". Run `seam peers` to see the list."@,
            LookupError::Ambiguous(names) => text::quoted(query) + " matches more than one peer: "@
                + comma_separated(text::contents(names@)),
        }
    }

    /// What a person who asked for `query` is told.
    pub fn describe(&self, query: &str) -> (s: String)
        ensures
            s@ == self.message(query@),
    {
        match self {
            LookupError::NoMatch => {
                let mut s = String::from_str("no paired peer matches ");
                s.append(text::quote(query).as_str());
                s.append(". Run `seam peers` to see the list.");
                s
            },
            LookupError::Ambiguous(names) => {
                let mut s = text::quote(query);
                s.append(" matches more than one peer: ");
                s.append(comma_list(names).as_str());
                s
            },
        }
    }
}

/// Whether a query names a peer.
fn is_named_by(p: &TrustedPeer, needle: &str, Ghost(query): Ghost<Seq<char>>) -> (b: bool)
    requires
        needle@ == text::lowercase(text::trimmed(query)),
    ensures
        b == named_by(*p, query),
{
    let name = text::to_lowercase(p.name.as_str());
    if text::same(name.as_str(), needle) {
        return true;
    }
    let id = p.fingerprint.peer_id();
    let short = id.to_short_string();
    proof {
        assert(short@ == short_of(p.fingerprint.id()));
    }
    let short = text::chars_of(short.as_str());
    if text::starts(short.as_slice(), needle) {
        return true;
    }
    let hex = text::hex(p.fingerprint.as_bytes());
    let hex = text::chars_of(hex.as_str());
    text::starts(hex.as_slice(), needle)
}

/// Find the peer that a person means.
///
/// An ambiguous reference is refused and not guessed at: silently acting on the wrong
/// machine is worse than asking again.
pub fn resolve_peer(store: &TrustStore, query: &str) -> (r: Result<Fingerprint, LookupError>)
    requires
        store.wf(),
    ensures
        ({
            let found = matching(store.entries(), query@);
            if found.len() == 1 {
                r == Ok::<Fingerprint, LookupError>(found[0].fingerprint)
            } else if found.len() == 0 {
                r == Err::<Fingerprint, LookupError>(LookupError::NoMatch)
            } else {
                &&& r matches Err(LookupError::Ambiguous(names))
                &&& names@.len() == found.len()
                &&& forall|i: int| 0 <= i < names@.len() ==> (#[trigger] names@[i])@ == listing(found[i])
            }
        }),
{
    let chars = text::chars_of(query);
    let needle = text::string_of(text::trim(chars.as_slice()).as_slice());
    let needle = text::to_lowercase(needle.as_str());
    let peers = store.iter();
    let mut names: Vec<String> = Vec::new();
    let mut last: Option<Fingerprint> = None;
    let ghost mut found: Seq<TrustedPeer> = Seq::empty();
    let mut i: usize = 0;
    proof {
        assert(found =~= matching(peers@.take(0), query@));
    }
    while i < peers.len()
        invariant
            i <= peers@.len(),
            needle@ == text::lowercase(text::trimmed(query@)),
            found == matching(peers@.take(i as int), query@),
            names@.len() == found.len(),
            forall|k: int| 0 <= k < names@.len() ==> (#[trigger] names@[k])@ == listing(found[k]),
            found.len() > 0 ==> last == Some(found.last().fingerprint),
        decreases peers.len() - i,
    {
        let peer = &peers[i];
        proof {
            let next = peers@.take(i + 1);
            assert(next.drop_last() =~= peers@.take(i as int));
            assert(next.last() == *peer);
        }
        if is_named_by(peer, needle.as_str(), Ghost(query@)) {
            let mut name = peer.name.as_str().to_owned();
            name.append(" (");
            name.append(peer.fingerprint.peer_id().to_short_string().as_str());
            name.append(")");
            names.push(name);
            last = Some(peer.fingerprint);
            proof {
                found = found.push(*peer);
            }
        }
        i = i + 1;
    }
    proof {
        assert(peers@.take(peers@.len() as int) =~= peers@);
    }
    if names.len() == 0 {
        return Err(LookupError::NoMatch);
    }
    if names.len() == 1 {
        if let Some(fingerprint) = last {
            return Ok(fingerprint);
        }
    }
    Err(LookupError::Ambiguous(names))
}

/// A lookup never picks between two peers: it succeeds only where exactly one entry of the
/// store is named by the query.
pub proof fn a_lookup_never_guesses(peers: Seq<TrustedPeer>, query: Seq<char>, i: int, j: int)
    requires
        0 <= i < j < peers.len(),
        named_by(peers[i], query),
        named_by(peers[j], query),
    ensures
        matching(peers, query).len() >= 2,
    decreases peers.len(),
{
    let front = peers.drop_last();
    if j == peers.len() - 1 {
        one_match_counts(front, query, i);
    } else {
        a_lookup_never_guesses(front, query, i, j);
    }
}

proof fn one_match_counts(peers: Seq<TrustedPeer>, query: Seq<char>, i: int)
    requires
        0 <= i < peers.len(),
        named_by(peers[i], query),
    ensures
        matching(peers, query).len() >= 1,
    decreases peers.len(),
{
    if i < peers.len() - 1 {
        one_match_counts(peers.drop_last(), query, i);
    }
}

// ---------------------------------------------------------------- settings
/// What a person chose on the page.
#[derive(PartialEq, Eq, Debug)]
pub struct Settings {
    /// The machines switched off.
    pub disabled_peers: Vec<PeerId>,
    /// Which kinds of clipboard content are shared.
    pub shares: Shares,
}

/// Settings as a value.
pub struct SettingsModel {
    pub disabled: Seq<Seq<u8>>,
    pub shares: Shares,
}

/// The bytes of each of some ids.
pub open spec fn id_bytes(ids: Seq<PeerId>) -> Seq<Seq<u8>> {
    Seq::new(ids.len(), |i: int| ids[i].0@)
}

impl View for Settings {
    type V = SettingsModel;

    open spec fn view(&self) -> SettingsModel {
        SettingsModel { disabled: id_bytes(self.disabled_peers@), shares: self.shares }
    }
}

/// The line that says whether a kind is shared.
pub open spec fn share_line(on: Seq<char>, off: Seq<char>, shared: bool) -> Seq<char> {
    if shared {
        on
    } else {
        off
    }
}

/// The lines of the settings file.
pub open spec fn settings_lines(m: SettingsModel) -> Seq<Seq<char>> {
    seq![
        share_line("text on"@, "text off"@, m.shares.text),
        share_line("images on"@, "images off"@, m.shares.images),
        share_line("files on"@, "files off"@, m.shares.files),
    ] + Seq::new(m.disabled.len(), |i: int| "disabled "@ + text::hex_of(m.disabled[i]))
}

/// What the settings are, before any line.
pub open spec fn everything_on() -> SettingsModel {
    SettingsModel {
        disabled: Seq::empty(),
        shares: Shares { text: true, images: true, files: true },
    }
}

/// The id that a text writes in full.
pub open spec fn id_written(s: Seq<char>) -> Option<Seq<u8>> {
    match text::unhex_of(s) {
        Some(raw) => if raw.len() == 16 {
            Some(raw)
        } else {
            None
        },
        None => None,
    }
}

/// The machine a line switches off.
pub open spec fn line_disables(line: Seq<char>) -> Option<Seq<u8>> {
    if text::begins(line, "disabled "@) {
        id_written(line.skip("disabled "@.len() as int))
    } else {
        None
    }
}

/// The settings that some lines give.
pub open spec fn settings_in(lines: Seq<Seq<char>>) -> SettingsModel
    decreases lines.len(),
{
    if lines.len() == 0 {
        everything_on()
    } else {
        let m = settings_in(lines.drop_last());
        let line = lines.last();
        if line == "text off"@ {
            SettingsModel { shares: Shares { text: false, ..m.shares }, ..m }
        } else if line == "images off"@ {
            SettingsModel { shares: Shares { images: false, ..m.shares }, ..m }
        } else if line == "files off"@ {
            SettingsModel { shares: Shares { files: false, ..m.shares }, ..m }
        } else {
            match line_disables(line) {
                Some(raw) => SettingsModel { disabled: m.disabled.push(raw), ..m },
                None => m,
            }
        }
    }
}

/// Write the settings file.
pub fn save_settings(settings: &Settings) -> (file: String)
    ensures
        file@ == text::written(settings_lines(settings@)),
{
    let ghost ls = settings_lines(settings@);
    let ghost n = settings.disabled_peers@.len();
    let mut file = String::new();
    proof {
        reveal_strlit("\n");
        assert(file@ =~= text::written(ls.take(0)));
        assert(ls.take(1).drop_last() =~= ls.take(0));
        assert(ls.take(2).drop_last() =~= ls.take(1));
        assert(ls.take(3).drop_last() =~= ls.take(2));
    }
    file.append(if settings.shares.text {
        "text on"
    } else {
        "text off"
    });
    file.append("\n");
    assert(file@ =~= text::written(ls.take(1)));
    file.append(if settings.shares.images {
        "images on"
    } else {
        "images off"
    });
    file.append("\n");
    assert(file@ =~= text::written(ls.take(2)));
    file.append(if settings.shares.files {
        "files on"
    } else {
        "files off"
    });
    file.append("\n");
    assert(file@ =~= text::written(ls.take(3)));
    let mut i: usize = 0;
    while i < settings.disabled_peers.len()
        invariant
            i <= settings.disabled_peers@.len(),
            ls == settings_lines(settings@),
            file@ == text::written(ls.take(i + 3)),
        decreases settings.disabled_peers.len() - i,
    {
        let ghost before = file@;
        let id = settings.disabled_peers[i];
        file.append("disabled ");
        file.append(text::hex(&id.0).as_str());
        file.append("\n");
        proof {
            reveal_strlit("\n");
            let next = ls.take(i + 4);
            assert(next.drop_last() =~= ls.take(i + 3));
            let line = "disabled "@ + text::hex_of(id.0@);
            assert(next.last() == line);
            assert(file@ =~= (before + line).push('\n'));
        }
        i = i + 1;
    }
    proof {
        assert(ls.take(ls.len() as int) =~= ls);
    }
    file
}

/// Read the settings file. Where there is none, everything is shared and no machine is
/// switched off.
pub fn load_settings(file: &str) -> (settings: Settings)
    ensures
        settings@ == settings_in(text::lines_of(file@)),
{
    let chars = text::chars_of(file);
    let lines = text::lines(chars.as_slice());
    let ghost all = text::views(lines@);
    let mut disabled: Vec<PeerId> = Vec::new();
    let mut shares = Shares { text: true, images: true, files: true };
    let mut i: usize = 0;
    proof {
        assert(id_bytes(disabled@) =~= Seq::<Seq<u8>>::empty());
    }
    while i < lines.len()
        invariant
            i <= lines@.len(),
            all == text::views(lines@),
            (SettingsModel { disabled: id_bytes(disabled@), shares }) == settings_in(
                all.take(i as int),
            ),
        decreases lines.len() - i,
    {
        let line = lines[i].as_slice();
        proof {
            let next = all.take(i + 1);
            assert(next.drop_last() =~= all.take(i as int));
            assert(next.last() == line@);
        }
        if text::is_text(line, "text off") {
            shares = Shares { text: false, images: shares.images, files: shares.files };
        } else if text::is_text(line, "images off") {
            shares = Shares { text: shares.text, images: false, files: shares.files };
        } else if text::is_text(line, "files off") {
            shares = Shares { text: shares.text, images: shares.images, files: false };
        } else if let Some(id) = disabled_in(line) {
            let ghost before = id_bytes(disabled@);
            disabled.push(id);
            proof {
                assert(id_bytes(disabled@) =~= before.push(id.0@));
            }
        }
        i = i + 1;
    }
    proof {
        assert(all.take(all.len() as int) =~= all);
    }
    Settings { disabled_peers: disabled, shares }
}

/// The machine a line switches off.
fn disabled_in(line: &[char]) -> (r: Option<PeerId>)
    ensures
        match line_disables(line@) {
            Some(raw) => r matches Some(id) && id.0@ == raw,
            None => r is None,
        },
{
    if !text::starts(line, "disabled ") {
        return None;
    }
    let skip: usize = text::chars_of("disabled ").len();
    let rest = text::copy_range(line, skip, line.len());
    proof {
        assert(rest@ =~= line@.skip(skip as int));
    }
    read_id(rest.as_slice())
}

/// The id that a text writes in full.
fn read_id(s: &[char]) -> (r: Option<PeerId>)
    ensures
        match id_written(s@) {
            Some(raw) => r matches Some(id) && id.0@ == raw,
            None => r is None,
        },
{
    let hex = text::string_of(s);
    let bytes = text::unhex(hex.as_str())?;
    if bytes.len() != 16 {
        return None;
    }
    let mut id: [u8; 16] = [0u8; 16];
    let mut i: usize = 0;
    while i < 16
        invariant
            i <= 16,
            bytes@.len() == 16,
            forall|k: int| 0 <= k < i ==> id@[k] == bytes@[k],
        decreases 16 - i,
    {
        id[i] = bytes[i];
        i = i + 1;
    }
    proof {
        assert(id@ =~= bytes@);
    }
    Some(PeerId(id))
}

/// A switch is not forgotten when the program stops: settings read back as they were
/// written.
pub proof fn settings_survive_the_disk(m: SettingsModel)
    requires
        forall|i: int| 0 <= i < m.disabled.len() ==> (#[trigger] m.disabled[i]).len() == 16,
    ensures
        settings_in(text::lines_of(text::written(settings_lines(m)))) == m,
{
    settings_lines_read_back(m);
    text::lines_of_written(settings_lines(m));
}

proof fn settings_lines_read_back(m: SettingsModel)
    requires
        forall|i: int| 0 <= i < m.disabled.len() ==> (#[trigger] m.disabled[i]).len() == 16,
    ensures
        settings_in(settings_lines(m)) == m,
        forall|i: int| 0 <= i < settings_lines(m).len() ==> text::is_line(#[trigger] settings_lines(m)[i]),
    decreases m.disabled.len(),
{
    let ls = settings_lines(m);
    reveal_strlit("text on");
    reveal_strlit("text off");
    reveal_strlit("images on");
    reveal_strlit("images off");
    reveal_strlit("files on");
    reveal_strlit("files off");
    reveal_strlit("disabled ");
    if m.disabled.len() == 0 {
        reveal_with_fuel(settings_in, 2);
        let a = ls[0];
        let b = ls[1];
        let c = ls[2];
        assert(ls =~= seq![a, b, c]);
        assert(ls.drop_last() =~= seq![a, b]);
        assert(seq![a, b].drop_last() =~= seq![a]);
        assert(seq![a].drop_last() =~= Seq::<Seq<char>>::empty());
        assert(a[0] == 't' && b[0] == 'i' && c[0] == 'f');
        let head = "disabled "@;
        assert(head[0] == 'd');
        assert(!text::begins(a, head)) by {
            assert(a.len() < head.len() || a.take(head.len() as int)[0] == 't');
        }
        assert(!text::begins(b, head)) by {
            assert(b.len() < head.len() || b.take(head.len() as int)[0] == 'i');
        }
        assert(!text::begins(c, head)) by {
            assert(c.len() < head.len() || c.take(head.len() as int)[0] == 'f');
        }
        let on = everything_on();
        let m1 = settings_in(seq![a]);
        assert(m1 == (SettingsModel { shares: Shares { text: m.shares.text, ..on.shares }, ..on }));
        let m2 = settings_in(seq![a, b]);
        assert(m2 == (SettingsModel {
            shares: Shares { images: m.shares.images, ..m1.shares },
            ..m1
        }));
        assert(settings_in(ls).disabled =~= m.disabled);
        assert(settings_in(ls).shares == m.shares);
        assert forall|i: int| 0 <= i < ls.len() implies text::is_line(#[trigger] ls[i]) by {
            if ls[i].contains('\n') {
                let k = choose|k: int| 0 <= k < ls[i].len() && ls[i][k] == '\n';
                assert(false);
            }
        }
    } else {
        let front = SettingsModel { disabled: m.disabled.drop_last(), ..m };
        assert forall|i: int| 0 <= i < front.disabled.len() implies (
        #[trigger] front.disabled[i]).len() == 16 by {
            assert(front.disabled[i] == m.disabled[i]);
        }
        settings_lines_read_back(front);
        assert(ls.drop_last() =~= settings_lines(front));
        let raw = m.disabled.last();
        assert(m.disabled[m.disabled.len() - 1] == raw);
        let head = "disabled "@;
        let hex = text::hex_of(raw);
        let line = head + hex;
        assert(ls.last() == line);
        text::unhex_of_hex(raw);
        text::hex_is_solid(raw);
        assert(line.take(head.len() as int) =~= head);
        assert(line.skip(head.len() as int) =~= hex);
        assert(line[0] == 'd');
        assert(line_disables(line) == Some(raw));
        assert(front.disabled.push(raw) =~= m.disabled);
        assert forall|i: int| 0 <= i < ls.len() implies text::is_line(#[trigger] ls[i]) by {
            if i < ls.len() - 1 {
                assert(ls[i] == settings_lines(front)[i]);
            } else {
                assert(line.last() == hex[hex.len() - 1]);
                if line.contains('\n') {
                    let k = choose|k: int| 0 <= k < line.len() && line[k] == '\n';
                    if k >= head.len() {
                        assert(hex[k - head.len()] == '\n');
                    }
                }
            }
        }
    }
}

// ---------------------------------------------------------------- pairing order
/// The lines of the file that records in which order machines were paired: an id each.
pub open spec fn order_lines(order: Seq<Seq<u8>>) -> Seq<Seq<char>> {
    Seq::new(order.len(), |i: int| text::hex_of(order[i]))
}

/// The order that some lines record. A line that is not an id is skipped.
pub open spec fn order_in(lines: Seq<Seq<char>>) -> Seq<Seq<u8>>
    decreases lines.len(),
{
    if lines.len() == 0 {
        Seq::empty()
    } else {
        let before = order_in(lines.drop_last());
        match id_written(lines.last()) {
            Some(raw) => before.push(raw),
            None => before,
        }
    }
}

/// Write down in which order machines were paired.
pub fn save_pairing_order(order: &Vec<PeerId>) -> (file: String)
    ensures
        file@ == text::written(order_lines(id_bytes(order@))),
{
    let ghost ls = order_lines(id_bytes(order@));
    let mut file = String::new();
    let mut i: usize = 0;
    proof {
        assert(file@ =~= text::written(ls.take(0)));
    }
    while i < order.len()
        invariant
            i <= order@.len(),
            ls == order_lines(id_bytes(order@)),
            file@ == text::written(ls.take(i as int)),
        decreases order.len() - i,
    {
        let ghost before = file@;
        file.append(text::hex(&order[i].0).as_str());
        file.append("\n");
        proof {
            reveal_strlit("\n");
            let next = ls.take(i + 1);
            assert(next.drop_last() =~= ls.take(i as int));
            assert(file@ =~= (before + next.last()).push('\n'));
        }
        i = i + 1;
    }
    proof {
        assert(ls.take(ls.len() as int) =~= ls);
    }
    file
}

/// In which order machines were paired. Connecting is a race; pairing is a deliberate act.
pub fn pairing_order(file: &str) -> (order: Vec<PeerId>)
    ensures
        id_bytes(order@) == order_in(text::lines_of(file@)),
{
    let chars = text::chars_of(file);
    let lines = text::lines(chars.as_slice());
    let ghost all = text::views(lines@);
    let mut order: Vec<PeerId> = Vec::new();
    let mut i: usize = 0;
    proof {
        assert(id_bytes(order@) =~= order_in(all.take(0)));
    }
    while i < lines.len()
        invariant
            i <= lines@.len(),
            all == text::views(lines@),
            id_bytes(order@) == order_in(all.take(i as int)),
        decreases lines.len() - i,
    {
        let line = lines[i].as_slice();
        let ghost before = id_bytes(order@);
        proof {
            let next = all.take(i + 1);
            assert(next.drop_last() =~= all.take(i as int));
            assert(next.last() == line@);
        }
        if let Some(id) = read_id(line) {
            order.push(id);
            proof {
                assert(id_bytes(order@) =~= before.push(id.0@));
            }
        }
        i = i + 1;
    }
    proof {
        assert(all.take(all.len() as int) =~= all);
    }
    order
}

/// The order of pairing is not forgotten when the program stops: it reads back as it was
/// written.
pub proof fn pairing_order_survives_the_disk(order: Seq<Seq<u8>>)
    requires
        forall|i: int| 0 <= i < order.len() ==> (#[trigger] order[i]).len() == 16,
    ensures
        order_in(text::lines_of(text::written(order_lines(order)))) == order,
{
    let ls = order_lines(order);
    assert forall|i: int| 0 <= i < ls.len() implies text::is_line(#[trigger] ls[i]) by {
        text::hex_is_solid(order[i]);
        assert(ls[i].last() == ls[i][ls[i].len() - 1]);
    }
    text::lines_of_written(ls);
    order_lines_read_back(order);
}

proof fn order_lines_read_back(order: Seq<Seq<u8>>)
    requires
        forall|i: int| 0 <= i < order.len() ==> (#[trigger] order[i]).len() == 16,
    ensures
        order_in(order_lines(order)) == order,
    decreases order.len(),
{
    if order.len() > 0 {
        let front = order.drop_last();
        assert forall|i: int| 0 <= i < front.len() implies (#[trigger] front[i]).len() == 16 by {
            assert(front[i] == order[i]);
        }
        order_lines_read_back(front);
        assert(order_lines(order).drop_last() =~= order_lines(front));
        let raw = order[order.len() - 1];
        text::unhex_of_hex(raw);
        assert(order_lines(order).last() == text::hex_of(raw));
        assert(front.push(raw) =~= order);
    }
}

// ---------------------------------------------------------------- what names a peer
/// What a person typed names a peer just where it is its name or the start of its
/// fingerprint, the case of letters and white space around it aside.
pub proof fn only_its_name_or_its_fingerprint_names_a_peer(p: TrustedPeer, query: Seq<char>)
    ensures
        named_by(p, query) <==> text::lowercase(p.name@) == text::lowercase(text::trimmed(query))
            || text::begins(text::hex_of(p.fingerprint@), text::lowercase(text::trimmed(query))),
{
    let needle = text::lowercase(text::trimmed(query));
    identity::fingerprint_len(p.fingerprint);
    let (short, full) = (short_of(p.fingerprint.id()), text::hex_of(p.fingerprint@));
    if text::begins(short, needle) {
        assert(short =~= full.take(8));
        assert(full.take(needle.len() as int) =~= short.take(needle.len() as int));
    }
}

/// A lookup goes through every peer: those it finds are exactly those that the query names.
pub proof fn a_lookup_finds_who_is_named(peers: Seq<TrustedPeer>, query: Seq<char>, p: TrustedPeer)
    ensures
        matching(peers, query).contains(p) <==> peers.contains(p) && named_by(p, query),
    decreases peers.len(),
{
    if peers.len() > 0 {
        let front = peers.drop_last();
        let rest = matching(front, query);
        a_lookup_finds_who_is_named(front, query, p);
        assert(peers.contains(p) <==> front.contains(p) || p == peers.last()) by {
            assert(peers[peers.len() - 1] == peers.last());
            if front.contains(p) {
                let k = choose|k: int| 0 <= k < front.len() && front[k] == p;
                assert(peers[k] == p);
            }
            if peers.contains(p) {
                let k = choose|k: int| 0 <= k < peers.len() && peers[k] == p;
                if k < front.len() {
                    assert(front[k] == p);
                }
            }
        }
        let all = rest.push(peers.last());
        assert(all.contains(p) <==> rest.contains(p) || p == peers.last()) by {
            assert(all[rest.len() as int] == peers.last());
            if rest.contains(p) {
                let k = choose|k: int| 0 <= k < rest.len() && rest[k] == p;
                assert(all[k] == p);
            }
            if all.contains(p) {
                let k = choose|k: int| 0 <= k < all.len() && all[k] == p;
                if k < rest.len() {
                    assert(rest[k] == p);
                }
            }
        }
    }
}

/// The numbers told of unreadable lines are those of exactly the lines that cannot be read,
/// counted from one.
pub proof fn unreadable_lines_are_told_by_number(lines: Seq<Seq<char>>, n: usize)
    requires
        lines.len() <= usize::MAX,
    ensures
        unreadable_in(lines).contains(n) <==> 1 <= n <= lines.len() && line_says(
            lines[n - 1],
        ) is Unreadable,
    decreases lines.len(),
{
    if lines.len() > 0 {
        let front = lines.drop_last();
        let rest = unreadable_in(front);
        unreadable_lines_are_told_by_number(front, n);
        if 1 <= n <= front.len() {
            assert(front[n - 1] == lines[n - 1]);
        }
        let at = lines.len() as usize;
        let all = rest.push(at);
        assert(all.contains(n) <==> rest.contains(n) || n == at) by {
            assert(all[rest.len() as int] == at);
            if rest.contains(n) {
                let k = choose|k: int| 0 <= k < rest.len() && rest[k] == n;
                assert(all[k] == n);
            }
            if all.contains(n) {
                let k = choose|k: int| 0 <= k < all.len() && all[k] == n;
                if k < rest.len() {
                    assert(rest[k] == n);
                }
            }
        }
    }
}

/// The settings file says of text, images and files, in this order, whether each is shared;
/// then it names the machines switched off, one on each line, in order.
pub proof fn each_setting_has_its_line(m: SettingsModel, i: int)
    ensures
        settings_lines(m).len() == 3 + m.disabled.len(),
        m.shares.text ==> settings_lines(m)[0] == "text on"@,
        !m.shares.text ==> settings_lines(m)[0] == "text off"@,
        m.shares.images ==> settings_lines(m)[1] == "images on"@,
        !m.shares.images ==> settings_lines(m)[1] == "images off"@,
        m.shares.files ==> settings_lines(m)[2] == "files on"@,
        !m.shares.files ==> settings_lines(m)[2] == "files off"@,
        0 <= i < m.disabled.len() ==> settings_lines(m)[3 + i] == "disabled "@ + text::hex_of(
            m.disabled[i],
        ),
{
}

/// A line that switches a kind off does that and nothing else; a line that says nothing
/// leaves everything as it was; and without any line everything is shared with everybody.
pub proof fn a_setting_changes_only_its_own(lines: Seq<Seq<char>>, line: Seq<char>)
    ensures
        ({
            let (before, after) = (settings_in(lines), settings_in(lines.push(line)));
            let (b, a) = (before.shares, after.shares);
            &&& line == "text off"@ ==> !a.text && a.images == b.images && a.files == b.files
                && after.disabled == before.disabled
            &&& line == "images off"@ ==> !a.images && a.text == b.text && a.files == b.files
                && after.disabled == before.disabled
            &&& line == "files off"@ ==> !a.files && a.text == b.text && a.images == b.images
                && after.disabled == before.disabled
            &&& line == "text on"@ || line == "images on"@ || line == "files on"@ || line.len() == 0
                ==> after == before
        }),
        settings_in(Seq::empty()).disabled.len() == 0,
        settings_in(Seq::empty()).shares == (Shares { text: true, images: true, files: true }),
{
    assert(lines.push(line).drop_last() =~= lines);
    reveal_strlit("text off");
    reveal_strlit("images off");
    reveal_strlit("files off");
    reveal_strlit("text on");
    reveal_strlit("images on");
    reveal_strlit("files on");
    reveal_strlit("disabled ");
    assert("text off"@ != "images off"@ && "text off"@ != "files off"@ && "images off"@
        != "files off"@) by {
        assert("text off"@[0] != "images off"@[0]);
        assert("text off"@[0] != "files off"@[0]);
        assert("images off"@[0] != "files off"@[0]);
    }
    assert("text on"@.len() == 7 && "images on"@.len() == 9 && "files on"@.len() == 8);
    assert("files on"@[0] != "text off"@[0]);
    if text::begins(line, "disabled "@) {
        assert(line.take(9)[0] == line[0]);
        assert(line[0] == 'd');
    }
}

/// Settings are told as they are.
pub proof fn settings_are_told_as_they_are(s: Settings, i: int)
    ensures
        s@.shares == s.shares,
        s@.disabled.len() == s.disabled_peers@.len(),
        0 <= i < s@.disabled.len() ==> s@.disabled[i] == s.disabled_peers@[i].0@,
{
}

} // verus!
