//! Which machines are connected, which are worth dialling, and what is known of each.
use crate::discovery::DiscoveredPeer;
use crate::frame::{Edge, PeerId};
use crate::identity::TrustStore;
use crate::{clipboard, desk, identity, text, transport};
use vstd::prelude::*;
use vstd::string::*;

verus! {

// ---------------------------------------------------------------- lists by machine
/// What is listed of all machines but one.
pub open spec fn kept<T>(s: Seq<(PeerId, T)>, peer: PeerId) -> Seq<(PeerId, T)>
    decreases s.len(),
{
    if s.len() == 0 {
        Seq::empty()
    } else if s.last().0 == peer {
        kept(s.drop_last(), peer)
    } else {
        kept(s.drop_last(), peer).push(s.last())
    }
}

/// What is listed of one machine.
pub open spec fn taken<T>(s: Seq<(PeerId, T)>, peer: PeerId) -> Seq<T>
    decreases s.len(),
{
    if s.len() == 0 {
        Seq::empty()
    } else if s.last().0 == peer {
        taken(s.drop_last(), peer).push(s.last().1)
    } else {
        taken(s.drop_last(), peer)
    }
}

/// Take what is listed of one machine out of a list.
pub fn take_out<T>(v: &mut Vec<(PeerId, T)>, peer: PeerId) -> (out: Vec<T>)
    ensures
        final(v)@ == kept(old(v)@, peer),
        out@ == taken(old(v)@, peer),
{
    let mut out: Vec<T> = Vec::new();
    let mut i: usize = 0;
    let ghost all = v@;
    let ghost mut read: int = 0;
    proof {
        assert(kept(all.take(0), peer) =~= v@.take(0));
        assert(taken(all.take(0), peer) =~= out@);
        assert(all.skip(0) =~= v@.skip(0));
    }
    while i < v.len()
        invariant
            i <= v@.len(),
            0 <= read <= all.len(),
            v@.take(i as int) == kept(all.take(read), peer),
            v@.skip(i as int) == all.skip(read),
            out@ == taken(all.take(read), peer),
            all == old(v)@,
        decreases v.len() - i,
    {
        let ghost here = v@;
        let ghost so_far = out@;
        proof {
            assert(here.skip(i as int).len() == all.skip(read).len());
            assert(here[i as int] == here.skip(i as int)[0]);
            assert(all[read] == all.skip(read)[0]);
            assert(all.take(read + 1).drop_last() =~= all.take(read));
            assert(all.take(read + 1).last() == here[i as int]);
            assert(all.skip(read).skip(1) =~= all.skip(read + 1));
        }
        if v[i].0.same(&peer) {
            let (_, item) = v.remove(i);
            out.push(item);
            proof {
                assert(v@.take(i as int) =~= here.take(i as int));
                assert(v@.skip(i as int) =~= here.skip(i as int).skip(1));
            }
        } else {
            i = i + 1;
            proof {
                assert(v@.take(i as int) =~= here.take(i - 1).push(here[i - 1]));
                assert(v@.skip(i as int) =~= here.skip(i - 1).skip(1));
            }
        }
        proof {
            read = read + 1;
        }
    }
    proof {
        assert(all.skip(read).len() == 0);
        assert(all.take(read) =~= all);
        assert(v@.take(i as int) =~= v@);
    }
    out
}

// ---------------------------------------------------------------- links
/// Add a peer's link, and say which earlier links to the same peer it replaces.
///
/// A machine that reconnects arrives as a second link. Left in the list, the dead one would
/// go on being talked to. Two links with the same id are the same machine by construction,
/// because the id comes from the peer's certificate; the loser is told that it lost.
pub fn register_link<L>(links: &mut Vec<(PeerId, L)>, id: PeerId, link: L) -> (replaced: Vec<L>)
    ensures
        final(links)@ == kept(old(links)@, id).push((id, link)),
        replaced@ == taken(old(links)@, id),
{
    let replaced = take_out(links, id);
    links.push((id, link));
    replaced
}

/// How many links a list has to a machine.
pub open spec fn links_to<L>(s: Seq<(PeerId, L)>, peer: PeerId) -> nat
    decreases s.len(),
{
    if s.len() == 0 {
        0
    } else if s.last().0 == peer {
        links_to(s.drop_last(), peer) + 1
    } else {
        links_to(s.drop_last(), peer)
    }
}

/// Taking a machine out leaves none of its links and every other machine's.
proof fn kept_counts<L>(s: Seq<(PeerId, L)>, id: PeerId, peer: PeerId)
    ensures
        links_to(kept(s, id), peer) == if peer == id {
            0
        } else {
            links_to(s, peer)
        },
    decreases s.len(),
{
    if s.len() > 0 {
        kept_counts(s.drop_last(), id, peer);
        if s.last().0 != id {
            let k = kept(s.drop_last(), id);
            assert(k.push(s.last()).drop_last() =~= k);
        }
    }
}

/// One peer, one link: once a link is registered there is exactly one to that machine, and
/// every other machine has as many as it had.
pub proof fn one_peer_one_link<L>(links: Seq<(PeerId, L)>, id: PeerId, link: L, peer: PeerId)
    ensures
        links_to(kept(links, id).push((id, link)), peer) == if peer == id {
            1
        } else {
            links_to(links, peer)
        },
{
    kept_counts(links, id, peer);
    let k = kept(links, id);
    assert(k.push((id, link)).drop_last() =~= k);
}

// ---------------------------------------------------------------- who is let in
/// What becomes of a machine that dialled this one.
#[derive(Clone, Copy, PartialEq, Eq, Structural, Debug)]
pub enum Welcome {
    /// It is a member of the fleet.
    Admit,
    /// A stranger is not an error but a doorbell: hold the link and show the six digits.
    Park,
    /// It is refused, and told why.
    Refuse,
}

/// What becomes of a machine that dialled this one.
pub open spec fn welcomed(trust: identity::Trust) -> Welcome {
    match trust {
        identity::Trust::Trusted => Welcome::Admit,
        identity::Trust::Unknown => Welcome::Park,
        identity::Trust::Conflict => Welcome::Refuse,
    }
}

/// What becomes of a machine that dialled this one, by the verdict on its key.
pub open spec fn received(verdict: Result<(), transport::Error>) -> Welcome {
    match verdict {
        Ok(_) => Welcome::Admit,
        Err(transport::Error::NotPaired) => Welcome::Park,
        Err(_) => Welcome::Refuse,
    }
}

/// What becomes of a machine that this one dialled because it was told to.
pub open spec fn received_where_told(
    verdict: Result<(), transport::Error>,
    lonely: bool,
) -> Welcome {
    match verdict {
        Ok(_) => Welcome::Admit,
        Err(transport::Error::NotPaired) => if lonely {
            Welcome::Park
        } else {
            Welcome::Refuse
        },
        Err(_) => Welcome::Refuse,
    }
}

/// Decide what becomes of a machine that dialled this one.
pub fn welcome(verdict: &Result<(), transport::Error>) -> (w: Welcome)
    ensures
        w == received(*verdict),
{
    match verdict {
        Ok(_) => Welcome::Admit,
        Err(transport::Error::NotPaired) => Welcome::Park,
        Err(_) => Welcome::Refuse,
    }
}

/// Decide what becomes of a machine that this one dialled because it was told to. One told
/// to connect somewhere before it trusts anyone is being joined to a fleet, so a stranger is
/// put before the person; with even one pairing it is refused.
pub fn dialled_welcome(verdict: &Result<(), transport::Error>, lonely: bool) -> (w: Welcome)
    ensures
        w == received_where_told(*verdict, lonely),
{
    match verdict {
        Ok(_) => Welcome::Admit,
        Err(transport::Error::NotPaired) => if lonely {
            Welcome::Park
        } else {
            Welcome::Refuse
        },
        Err(_) => Welcome::Refuse,
    }
}

/// A machine whose key was never paired is never admitted, whichever side dialled.
pub proof fn strangers_are_never_admitted(
    store: Map<Seq<u8>, identity::TrustModel>,
    peer: identity::Fingerprint,
)
    ensures
        welcomed(identity::trust_of(store, peer)) is Admit <==> store.contains_key(peer.id())
            && store[peer.id()].fingerprint == peer,
        welcomed(identity::trust_of(store, peer)) == match transport::verdict(
            identity::trust_of(store, peer),
        ) {
            None => Welcome::Admit,
            Some(transport::Error::NotPaired) => Welcome::Park,
            Some(_) => Welcome::Refuse,
        },
{
}

// ---------------------------------------------------------------- machines in sight
/// A machine seen on the network right now, paired or not.
#[derive(PartialEq, Eq, Debug)]
pub struct DiscoveredMachine {
    /// The service instance: the only key a removal carries.
    pub instance: String,
    pub short: String,
    /// The first address to try, as printed.
    pub addr: String,
    pub trusted: bool,
}

/// Machines in sight, without those of one instance.
pub open spec fn out_of_sight(seen: Seq<DiscoveredMachine>, instance: Seq<char>) -> Seq<
    DiscoveredMachine,
>
    decreases seen.len(),
{
    if seen.len() == 0 {
        Seq::empty()
    } else if seen.last().instance@ == instance {
        out_of_sight(seen.drop_last(), instance)
    } else {
        out_of_sight(seen.drop_last(), instance).push(seen.last())
    }
}

/// A machine went away.
pub fn note_lost(seen: &mut Vec<DiscoveredMachine>, instance: &str)
    ensures
        final(seen)@ == out_of_sight(old(seen)@, instance@),
{
    let mut i: usize = 0;
    let ghost all = seen@;
    let ghost mut read: int = 0;
    proof {
        assert(out_of_sight(all.take(0), instance@) =~= seen@.take(0));
        assert(all.skip(0) =~= seen@.skip(0));
    }
    while i < seen.len()
        invariant
            i <= seen@.len(),
            0 <= read <= all.len(),
            seen@.take(i as int) == out_of_sight(all.take(read), instance@),
            seen@.skip(i as int) == all.skip(read),
            all == old(seen)@,
        decreases seen.len() - i,
    {
        let ghost here = seen@;
        proof {
            assert(here.skip(i as int).len() == all.skip(read).len());
            assert(here[i as int] == here.skip(i as int)[0]);
            assert(all[read] == all.skip(read)[0]);
            assert(all.take(read + 1).drop_last() =~= all.take(read));
            assert(all.take(read + 1).last() == here[i as int]);
            assert(all.skip(read).skip(1) =~= all.skip(read + 1));
        }
        if text::same(seen[i].instance.as_str(), instance) {
            seen.remove(i);
            proof {
                assert(seen@.take(i as int) =~= here.take(i as int));
                assert(seen@.skip(i as int) =~= here.skip(i as int).skip(1));
            }
        } else {
            i = i + 1;
            proof {
                assert(seen@.take(i as int) =~= here.take(i - 1).push(here[i - 1]));
                assert(seen@.skip(i as int) =~= here.skip(i - 1).skip(1));
            }
        }
        proof {
            read = read + 1;
        }
    }
    proof {
        assert(all.skip(read).len() == 0);
        assert(all.take(read) =~= all);
        assert(seen@.take(i as int) =~= seen@);
    }
}

/// What a machine is shown as: the id it claims, or else its name.
pub open spec fn shown_as(peer: DiscoveredPeer) -> Seq<char> {
    match peer.advertised_peer_id {
        Some(id) => id.short(),
        None => peer.name@,
    }
}

/// A machine was seen: it takes the place of an earlier sight of it. One without an address
/// worth trying is not listed.
pub fn note_seen(seen: &mut Vec<DiscoveredMachine>, peer: &DiscoveredPeer, trusted: bool)
    ensures
        if peer.addresses@.len() == 0 {
            final(seen)@ == old(seen)@
        } else {
            let rest = out_of_sight(old(seen)@, peer.instance@);
            &&& final(seen)@.len() == rest.len() + 1
            &&& final(seen)@.drop_last() == rest
            &&& final(seen)@.last().instance@ == peer.instance@
            &&& final(seen)@.last().short@ == shown_as(*peer)
            &&& final(seen)@.last().addr@ == peer.addresses@[0].text@
            &&& final(seen)@.last().trusted == trusted
        },
{
    if peer.addresses.len() == 0 {
        return ;
    }
    note_lost(seen, peer.instance.as_str());
    let short = match &peer.advertised_peer_id {
        Some(id) => id.to_short_string(),
        None => peer.name.as_str().to_owned(),
    };
    let ghost rest = seen@;
    seen.push(
        DiscoveredMachine {
            instance: peer.instance.as_str().to_owned(),
            short,
            addr: peer.addresses[0].text.as_str().to_owned(),
            trusted,
        },
    );
    proof {
        assert(seen@.drop_last() =~= rest);
    }
}

/// Whether the key a machine claims is one that was paired. A hint for whom to dial; the
/// handshake decides.
pub open spec fn claims_paired(store: Map<Seq<u8>, identity::TrustModel>, peer: DiscoveredPeer) -> bool {
    peer.advertised_fingerprint matches Some(f) && identity::trust_of(store, f)
        == identity::Trust::Trusted
}

/// Whether the key a machine claims is one that was paired.
pub fn is_known(store: &TrustStore, peer: &DiscoveredPeer) -> (b: bool)
    requires
        store.wf(),
    ensures
        b == claims_paired(store@, *peer),
{
    match peer.advertised_fingerprint {
        Some(f) => match store.classify(f) {
            identity::Trust::Trusted => true,
            _ => false,
        },
        None => false,
    }
}

/// What to do about a machine that came into sight.
#[derive(Clone, Copy, PartialEq, Eq, Structural, Debug)]
pub enum Dial {
    /// It is this machine.
    Ignore,
    /// Show it, and leave it at that.
    Show,
    /// This machine trusts nobody yet: offer to pair.
    Offer,
    /// It is paired and not connected: connect.
    Connect,
}

/// What to do about a machine that came into sight.
///
/// Only paired machines are dialled, with one exception: a machine that trusts nobody yet
/// was just installed, so it offers itself to the fleet it can see. One with even a single
/// pairing never volunteers.
pub open spec fn dial_for(
    own: PeerId,
    claimed: Option<PeerId>,
    trusted: bool,
    lonely: bool,
    idle: bool,
    connected: Seq<PeerId>,
) -> Dial {
    if claimed == Some(own) {
        Dial::Ignore
    } else if !trusted {
        if lonely && idle {
            Dial::Offer
        } else {
            Dial::Show
        }
    } else if claimed is Some && connected.contains(claimed->0) {
        Dial::Show
    } else {
        Dial::Connect
    }
}

/// Decide what to do about a machine that came into sight. `lonely` says that this machine
/// trusts nobody, `idle` that no pairing is going on.
pub fn dial_decision(
    own: PeerId,
    peer: &DiscoveredPeer,
    trusted: bool,
    lonely: bool,
    idle: bool,
    connected: &Vec<PeerId>,
) -> (d: Dial)
    ensures
        d == dial_for(own, peer.advertised_peer_id, trusted, lonely, idle, connected@),
{
    let (mine, already) = match &peer.advertised_peer_id {
        Some(id) => (id.same(&own), desk::holds(connected, id)),
        None => (false, false),
    };
    if mine {
        Dial::Ignore
    } else if !trusted {
        if lonely && idle {
            Dial::Offer
        } else {
            Dial::Show
        }
    } else if already {
        Dial::Show
    } else {
        Dial::Connect
    }
}

/// A machine with even one pairing never volunteers: it dials no stranger.
pub proof fn only_a_lonely_machine_volunteers(
    own: PeerId,
    claimed: Option<PeerId>,
    trusted: bool,
    lonely: bool,
    idle: bool,
    connected: Seq<PeerId>,
)
    ensures
        dial_for(own, claimed, trusted, lonely, idle, connected) is Offer ==> lonely && idle
            && !trusted,
        dial_for(own, claimed, trusted, lonely, idle, connected) is Connect ==> trusted,
{
}

/// Whether one of some machines has a short id that begins like this.
pub open spec fn any_begins(ids: Seq<PeerId>, short: Seq<char>) -> bool {
    exists|i: int| 0 <= i < ids.len() && text::begins((#[trigger] ids[i]).short(), short)
}

/// Whether one of some machines has a short id that begins like this.
pub fn some_begins(ids: &Vec<PeerId>, short: &str) -> (b: bool)
    ensures
        b == any_begins(ids@, short@),
{
    let mut i: usize = 0;
    while i < ids.len()
        invariant
            i <= ids@.len(),
            forall|k: int| 0 <= k < i ==> !text::begins((#[trigger] ids@[k]).short(), short@),
        decreases ids.len() - i,
    {
        let id = ids[i].to_short_string();
        let id = text::chars_of(id.as_str());
        if text::starts(id.as_slice(), short) {
            return true;
        }
        i = i + 1;
    }
    false
}

/// The paired machines in sight that are not connected, by their place in the list.
pub open spec fn absent_in(seen: Seq<DiscoveredMachine>, connected: Seq<PeerId>) -> Seq<usize>
    decreases seen.len(),
{
    if seen.len() == 0 {
        Seq::empty()
    } else {
        let rest = absent_in(seen.drop_last(), connected);
        if seen.last().trusted && !any_begins(connected, seen.last().short@) {
            rest.push((seen.len() - 1) as usize)
        } else {
            rest
        }
    }
}

/// The paired machines in sight that are not connected. A machine can drop out without the
/// network reporting it, so these are dialled again from time to time.
pub fn absent_peers(seen: &Vec<DiscoveredMachine>, connected: &Vec<PeerId>) -> (r: Vec<usize>)
    ensures
        r@ == absent_in(seen@, connected@),
{
    let mut r: Vec<usize> = Vec::new();
    let mut i: usize = 0;
    proof {
        assert(absent_in(seen@.take(0), connected@) =~= r@);
    }
    while i < seen.len()
        invariant
            i <= seen@.len(),
            r@ == absent_in(seen@.take(i as int), connected@),
        decreases seen.len() - i,
    {
        proof {
            let next = seen@.take(i + 1);
            assert(next.drop_last() =~= seen@.take(i as int));
            assert(next.last() == seen@[i as int]);
        }
        if seen[i].trusted && !some_begins(connected, seen[i].short.as_str()) {
            r.push(i);
        }
        i = i + 1;
    }
    proof {
        assert(seen@.take(seen@.len() as int) =~= seen@);
    }
    r
}

/// The address of the first machine in sight that is shown like this.
pub open spec fn first_shown(seen: Seq<DiscoveredMachine>, short: Seq<char>) -> Option<Seq<char>>
    decreases seen.len(),
{
    if seen.len() == 0 {
        None
    } else {
        match first_shown(seen.drop_last(), short) {
            Some(addr) => Some(addr),
            None => if text::begins(seen.last().short@, short) {
                Some(seen.last().addr@)
            } else {
                None
            },
        }
    }
}

proof fn first_shown_stays(seen: Seq<DiscoveredMachine>, short: Seq<char>, n: int)
    requires
        0 <= n <= seen.len(),
        first_shown(seen.take(n), short) is Some,
    ensures
        first_shown(seen, short) == first_shown(seen.take(n), short),
    decreases seen.len() - n,
{
    if n < seen.len() {
        assert(seen.take(n + 1).drop_last() =~= seen.take(n));
        first_shown_stays(seen, short, n + 1);
    } else {
        assert(seen.take(n) =~= seen);
    }
}

/// The address of the first machine in sight that is shown like this.
pub fn address_of(seen: &Vec<DiscoveredMachine>, short: &str) -> (r: Option<String>)
    ensures
        match first_shown(seen@, short@) {
            Some(addr) => r is Some && r->0@ == addr,
            None => r is None,
        },
{
    let mut i: usize = 0;
    while i < seen.len()
        invariant
            i <= seen@.len(),
            first_shown(seen@.take(i as int), short@) is None,
        decreases seen.len() - i,
    {
        proof {
            let next = seen@.take(i + 1);
            assert(next.drop_last() =~= seen@.take(i as int));
            assert(next.last() == seen@[i as int]);
        }
        let shown = text::chars_of(seen[i].short.as_str());
        if text::starts(shown.as_slice(), short) {
            proof {
                first_shown_stays(seen@, short@, i + 1);
            }
            return Some(seen[i].addr.as_str().to_owned());
        }
        i = i + 1;
    }
    proof {
        assert(seen@.take(seen@.len() as int) =~= seen@);
    }
    None
}

// ---------------------------------------------------------------- keeping a lane alive
/// How long to wait before the first retry, in milliseconds.
pub const FIRST_DELAY: u64 = 500;

/// How long to wait at most, in milliseconds.
pub const LONGEST_DELAY: u64 = 5_000;

/// A connection that is retried until it exists and after it drops.
///
/// Fast enough that starting the other machine feels immediate, slow enough not to spin
/// when nothing is there.
#[derive(Clone, Copy, PartialEq, Eq, Structural, Debug)]
pub struct Lane {
    pub delay: u64,
    pub failures: u32,
}

/// What to do before the next attempt.
#[derive(Clone, Copy, PartialEq, Eq, Structural, Debug)]
pub struct Pause {
    /// How long to wait, in milliseconds.
    pub millis: u64,
    /// Whether to get a new socket then. A run of failures usually means that this machine
    /// slept: its socket survived, takes what is written and reaches nothing.
    pub rebind: bool,
}

/// The delay after so many attempts since the last success.
pub open spec fn delay_after(n: nat) -> nat
    decreases n,
{
    if n == 0 {
        FIRST_DELAY as nat
    } else {
        let twice = 2 * delay_after((n - 1) as nat);
        if twice < LONGEST_DELAY {
            twice
        } else {
            LONGEST_DELAY as nat
        }
    }
}

impl Lane {
    /// Whether the delay is the one that the failures so far call for.
    pub open spec fn wf(self) -> bool {
        self.delay == delay_after(self.failures as nat)
    }

    pub fn new() -> (l: Lane)
        ensures
            l.failures == 0,
            l.wf(),
    {
        Lane { delay: FIRST_DELAY, failures: 0 }
    }

    /// Whether the next failure is the first of a streak, and worth a visible line.
    pub fn is_fresh(&self) -> (b: bool)
        ensures
            b == (self.failures == 0),
    {
        self.failures == 0
    }

    /// The peer answered and was let in.
    pub fn connected(&mut self)
        ensures
            final(self).failures == 0,
            final(self).wf(),
    {
        self.delay = FIRST_DELAY;
        self.failures = 0;
    }

    /// The attempt is over, however it went.
    pub fn pause(&mut self) -> (p: Pause)
        requires
            old(self).wf(),
            old(self).failures < u32::MAX,
        ensures
            final(self).wf(),
            final(self).failures == old(self).failures + 1,
            p == (Pause {
                millis: delay_after(old(self).failures as nat) as u64,
                rebind: final(self).failures % 5 == 0,
            }),
    {
        let millis: u64 = self.delay;
        proof {
            delays_stay_in_bounds(self.failures as nat);
        }
        let twice: u64 = self.delay * 2;
        self.delay = if twice < LONGEST_DELAY {
            twice
        } else {
            LONGEST_DELAY
        };
        self.failures = self.failures + 1;
        Pause { millis, rebind: self.failures % 5 == 0 }
    }
}

/// Retries never stop and never spin: the wait is never shorter than half a second and
/// never longer than five, and from the fifth attempt on it is five.
pub proof fn delays_stay_in_bounds(n: nat)
    ensures
        FIRST_DELAY <= delay_after(n) <= LONGEST_DELAY,
        n >= 4 ==> delay_after(n) == LONGEST_DELAY,
    decreases n,
{
    if n > 0 {
        delays_stay_in_bounds((n - 1) as nat);
        reveal_with_fuel(delay_after, 6);
    }
}

// ---------------------------------------------------------------- what is known of each
/// What this machine knows of the fleet, for its page.
#[derive(PartialEq, Eq, Debug)]
pub struct Fleet {
    /// Which machine holds the pointer; `None` means this one.
    pub focus: Option<PeerId>,
    /// The machines seen sending motion: those that capture input.
    pub sharers: Vec<PeerId>,
    /// Which version each machine said it runs.
    pub versions: Vec<(PeerId, String)>,
    /// Where each machine was placed.
    pub places: Vec<(PeerId, Edge)>,
    /// The screen each machine said it has.
    pub screens: Vec<(PeerId, (i32, i32))>,
    /// The machines switched off on the page.
    pub disabled: Vec<PeerId>,
    /// That the arrangement has to be built anew.
    pub relayout: bool,
}

/// The machines of some that do not have a short id beginning like this.
pub open spec fn not_beginning(ids: Seq<PeerId>, short: Seq<char>) -> Seq<PeerId>
    decreases ids.len(),
{
    if ids.len() == 0 {
        Seq::empty()
    } else if text::begins(ids.last().short(), short) {
        not_beginning(ids.drop_last(), short)
    } else {
        not_beginning(ids.drop_last(), short).push(ids.last())
    }
}

/// The first placed machine with a short id beginning like this.
pub open spec fn first_placed(places: Seq<(PeerId, Edge)>, short: Seq<char>) -> Option<PeerId>
    decreases places.len(),
{
    if places.len() == 0 {
        None
    } else {
        match first_placed(places.drop_last(), short) {
            Some(id) => Some(id),
            None => if text::begins(places.last().0.short(), short) {
                Some(places.last().0)
            } else {
                None
            },
        }
    }
}

proof fn first_placed_stays(places: Seq<(PeerId, Edge)>, short: Seq<char>, n: int)
    requires
        0 <= n <= places.len(),
        first_placed(places.take(n), short) is Some,
    ensures
        first_placed(places, short) == first_placed(places.take(n), short),
    decreases places.len() - n,
{
    if n < places.len() {
        assert(places.take(n + 1).drop_last() =~= places.take(n));
        first_placed_stays(places, short, n + 1);
    } else {
        assert(places.take(n) =~= places);
    }
}

fn find_placed(places: &Vec<(PeerId, Edge)>, short: &str) -> (r: Option<PeerId>)
    ensures
        r == first_placed(places@, short@),
{
    let mut i: usize = 0;
    while i < places.len()
        invariant
            i <= places@.len(),
            first_placed(places@.take(i as int), short@) is None,
        decreases places.len() - i,
    {
        proof {
            let next = places@.take(i + 1);
            assert(next.drop_last() =~= places@.take(i as int));
            assert(next.last() == places@[i as int]);
        }
        let id = places[i].0;
        let shown = id.to_short_string();
        let shown = text::chars_of(shown.as_str());
        if text::starts(shown.as_slice(), short) {
            proof {
                first_placed_stays(places@, short@, i + 1);
            }
            return Some(id);
        }
        i = i + 1;
    }
    proof {
        assert(places@.take(places@.len() as int) =~= places@);
    }
    None
}

/// The machines switched off, after the page asked for one to be switched on or off. Only a
/// machine on the desk can be switched off.
pub open spec fn switched(
    disabled: Seq<PeerId>,
    places: Seq<(PeerId, Edge)>,
    short: Seq<char>,
    enable: bool,
) -> Seq<PeerId> {
    if enable {
        not_beginning(disabled, short)
    } else {
        match first_placed(places, short) {
            Some(id) => if disabled.contains(id) {
                disabled
            } else {
                disabled.push(id)
            },
            None => disabled,
        }
    }
}

/// The screens known, with what a machine said of its own.
pub open spec fn with_screen(
    screens: Seq<(PeerId, (i32, i32))>,
    peer: PeerId,
    width: i32,
    height: i32,
) -> Seq<(PeerId, (i32, i32))> {
    kept(screens, peer).push((peer, (width, height)))
}

impl Fleet {
    /// Nothing known, and the pointer here.
    pub fn new() -> (f: Fleet)
        ensures
            f.focus is None,
            f.sharers@.len() == 0,
            f.versions@.len() == 0,
            f.places@.len() == 0,
            f.screens@.len() == 0,
            f.disabled@.len() == 0,
            !f.relayout,
    {
        Fleet {
            focus: None,
            sharers: Vec::new(),
            versions: Vec::new(),
            places: Vec::new(),
            screens: Vec::new(),
            disabled: Vec::new(),
            relayout: false,
        }
    }

    /// A peer sent motion: it captures input, and the pointer is here.
    pub fn heard_motion(&mut self, peer: PeerId)
        ensures
            final(self).focus is None,
            final(self).sharers@ == if old(self).sharers@.contains(peer) {
                old(self).sharers@
            } else {
                old(self).sharers@.push(peer)
            },
            final(self).versions == old(self).versions,
            final(self).places == old(self).places,
            final(self).screens == old(self).screens,
            final(self).disabled == old(self).disabled,
            final(self).relayout == old(self).relayout,
    {
        if !desk::holds(&self.sharers, &peer) {
            self.sharers.push(peer);
        }
        self.focus = None;
    }

    /// A peer said that the pointer left this machine. Which machine has it cannot be known
    /// here, so it is taken to be the one that said so.
    pub fn heard_leave(&mut self, peer: PeerId)
        ensures
            *final(self) == (Fleet { focus: Some(peer), ..*old(self) }),
    {
        self.focus = Some(peer);
    }

    /// A peer reported its screen, and perhaps its version.
    pub fn reported(&mut self, peer: PeerId, width: i32, height: i32, version: Option<String>)
        ensures
            final(self).screens@ == with_screen(old(self).screens@, peer, width, height),
            match version {
                Some(v) => final(self).versions@ == kept(old(self).versions@, peer).push(
                    (peer, v),
                ),
                None => final(self).versions == old(self).versions,
            },
            final(self).focus == old(self).focus,
            final(self).sharers == old(self).sharers,
            final(self).places == old(self).places,
            final(self).disabled == old(self).disabled,
            final(self).relayout == old(self).relayout,
    {
        let _ = take_out(&mut self.screens, peer);
        self.screens.push((peer, (width, height)));
        if let Some(v) = version {
            let _ = take_out(&mut self.versions, peer);
            self.versions.push((peer, v));
        }
    }

    /// A peer's link was registered. A machine arriving is as much a change to the desk as
    /// someone moving one.
    pub fn arrived(&mut self)
        ensures
            *final(self) == (Fleet { relayout: true, ..*old(self) }),
    {
        self.relayout = true;
    }

    /// A peer's link ended. The pointer is never left with a machine that is gone.
    pub fn gone(&mut self, peer: PeerId)
        ensures
            final(self).places@ == kept(old(self).places@, peer),
            final(self).sharers@ == clipboard::others(old(self).sharers@, peer),
            final(self).focus == if old(self).focus == Some(peer) {
                None
            } else {
                old(self).focus
            },
            final(self).versions == old(self).versions,
            final(self).screens == old(self).screens,
            final(self).disabled == old(self).disabled,
            final(self).relayout == old(self).relayout,
    {
        let _ = take_out(&mut self.places, peer);
        self.sharers = clipboard::relay_to(&self.sharers, peer);
        let held = match &self.focus {
            Some(id) => id.same(&peer),
            None => false,
        };
        if held {
            self.focus = None;
        }
    }

    /// The page switched a machine on or off. Says whether there is anything to save.
    pub fn set_peer_enabled(&mut self, short: &str, enable: bool) -> (save: bool)
        ensures
            final(self).disabled@ == switched(
                old(self).disabled@,
                old(self).places@,
                short@,
                enable,
            ),
            save == (enable || final(self).disabled@.len() > old(self).disabled@.len()),
            final(self).focus == old(self).focus,
            final(self).sharers == old(self).sharers,
            final(self).versions == old(self).versions,
            final(self).places == old(self).places,
            final(self).screens == old(self).screens,
            final(self).relayout == old(self).relayout,
    {
        if enable {
            let mut still: Vec<PeerId> = Vec::new();
            let mut i: usize = 0;
            proof {
                assert(not_beginning(self.disabled@.take(0), short@) =~= still@);
            }
            while i < self.disabled.len()
                invariant
                    i <= self.disabled@.len(),
                    *self == *old(self),
                    still@ == not_beginning(self.disabled@.take(i as int), short@),
                decreases self.disabled.len() - i,
            {
                let id = self.disabled[i];
                proof {
                    let next = self.disabled@.take(i + 1);
                    assert(next.drop_last() =~= self.disabled@.take(i as int));
                    assert(next.last() == id);
                }
                let shown = id.to_short_string();
                let shown = text::chars_of(shown.as_str());
                if !text::starts(shown.as_slice(), short) {
                    still.push(id);
                }
                i = i + 1;
            }
            proof {
                assert(self.disabled@.take(self.disabled@.len() as int) =~= self.disabled@);
            }
            self.disabled = still;
            return true;
        }
        match find_placed(&self.places, short) {
            Some(id) => {
                if desk::holds(&self.disabled, &id) {
                    false
                } else {
                    self.disabled.push(id);
                    true
                }
            },
            None => false,
        }
    }

    /// Whether a machine is switched on.
    pub fn is_enabled(&self, peer: PeerId) -> (b: bool)
        ensures
            b == !self.disabled@.contains(peer),
    {
        !desk::holds(&self.disabled, &peer)
    }
}

/// Switching on undoes switching off: once a machine is switched on by its full short id,
/// it is not among those switched off.
pub proof fn switching_on_undoes_switching_off(ids: Seq<PeerId>, id: PeerId, short: Seq<char>)
    requires
        text::begins(id.short(), short),
    ensures
        !not_beginning(ids, short).contains(id),
    decreases ids.len(),
{
    if ids.len() > 0 {
        switching_on_undoes_switching_off(ids.drop_last(), id, short);
        let rest = not_beginning(ids.drop_last(), short);
        if not_beginning(ids, short).contains(id) {
            let n = not_beginning(ids, short);
            let i = choose|i: int| 0 <= i < n.len() && n[i] == id;
            if i < rest.len() {
                assert(rest[i] == id);
            }
        }
    }
}

// ---------------------------------------------------------------- the watchdog
/// Whether this machine's input has to be given back: it is withheld, and the capture that
/// would bring it back is dead. Silence is no reason: it is someone reading a page.
pub fn must_release(withheld: bool, capture_alive: Option<bool>) -> (b: bool)
    ensures
        b == (withheld && capture_alive == Some(false)),
{
    withheld && match capture_alive {
        Some(alive) => !alive,
        None => false,
    }
}

// ---------------------------------------------------------------- what the decisions mean
/// Only an accepted key is admitted, whoever dialled. A stranger who rings is put before the
/// person; one who was dialled is so only while this machine trusts nobody. Every other
/// verdict is a refusal.
pub proof fn only_an_accepted_key_is_admitted(
    verdict: Result<(), transport::Error>,
    lonely: bool,
)
    ensures
        received(verdict) is Admit <==> verdict is Ok,
        received_where_told(verdict, lonely) is Admit <==> verdict is Ok,
        received(verdict) is Park <==> verdict is Err && verdict->Err_0 is NotPaired,
        received_where_told(verdict, lonely) is Park <==> lonely && received(verdict) is Park,
{
}

/// A machine in sight is ignored just where it is this one, connected to just where it is
/// paired and not connected, and offered a pairing just where it is not paired, this machine
/// trusts nobody and no pairing is going on.
pub proof fn a_machine_in_sight_is_dealt_with_so(
    own: PeerId,
    claimed: Option<PeerId>,
    trusted: bool,
    lonely: bool,
    idle: bool,
    connected: Seq<PeerId>,
)
    ensures
        ({
            let d = dial_for(own, claimed, trusted, lonely, idle, connected);
            let there = claimed is Some && connected.contains(claimed->0);
            &&& d is Ignore <==> claimed == Some(own)
            &&& d is Connect <==> claimed != Some(own) && trusted && !there
            &&& d is Offer <==> claimed != Some(own) && !trusted && lonely && idle
        }),
{
}

/// The waits between attempts: half a second, each then twice the one before, and five
/// seconds from the fifth on.
pub proof fn waits_double_up_to_five_seconds(n: nat)
    ensures
        delay_after(0) == 500,
        delay_after(n) < 2_500 ==> delay_after(n + 1) == 2 * delay_after(n),
        delay_after(n) >= 2_500 ==> delay_after(n + 1) == 5_000,
{
}

/// Taking a machine out of a list parts it in two: what is taken is that machine's, what is
/// kept is everybody else's, and both stay in order.
pub proof fn taking_out_parts_a_list<T>(
    a: Seq<(PeerId, T)>,
    e: (PeerId, T),
    b: Seq<(PeerId, T)>,
    peer: PeerId,
)
    ensures
        taken(Seq::<(PeerId, T)>::empty(), peer).len() == 0,
        kept(Seq::<(PeerId, T)>::empty(), peer).len() == 0,
        e.0 == peer ==> kept(a.push(e) + b, peer) == kept(a, peer) + kept(b, peer),
        e.0 == peer ==> taken(a.push(e) + b, peer) == taken(a, peer).push(e.1) + taken(b, peer),
        e.0 != peer ==> kept(a.push(e) + b, peer) == kept(a, peer).push(e) + kept(b, peer),
        e.0 != peer ==> taken(a.push(e) + b, peer) == taken(a, peer) + taken(b, peer),
    decreases b.len(),
{
    let s = a.push(e) + b;
    if b.len() == 0 {
        assert(s.drop_last() =~= a);
        assert(s.last() == e);
        assert(kept(a, peer) + kept(b, peer) =~= kept(a, peer));
        assert(taken(a, peer) + taken(b, peer) =~= taken(a, peer));
        assert(kept(a, peer).push(e) + kept(b, peer) =~= kept(a, peer).push(e));
        assert(taken(a, peer).push(e.1) + taken(b, peer) =~= taken(a, peer).push(e.1));
    } else {
        let front = b.drop_last();
        taking_out_parts_a_list(a, e, front, peer);
        assert(s.drop_last() =~= a.push(e) + front);
        assert(s.last() == b.last());
        let (k, t) = (kept(a, peer), taken(a, peer));
        if b.last().0 == peer {
            assert((t + taken(front, peer)).push(b.last().1) =~= t + taken(front, peer).push(
                b.last().1,
            ));
            assert((t.push(e.1) + taken(front, peer)).push(b.last().1) =~= t.push(e.1) + taken(
                front,
                peer,
            ).push(b.last().1));
        } else {
            assert((k + kept(front, peer)).push(b.last()) =~= k + kept(front, peer).push(b.last()));
            assert((k.push(e) + kept(front, peer)).push(b.last()) =~= k.push(e) + kept(
                front,
                peer,
            ).push(b.last()));
        }
    }
}

/// A machine that went away is out of sight, by whatever name it is shown, and nobody else is;
/// those left stay in order.
pub proof fn only_the_lost_machine_goes_out_of_sight(
    a: Seq<DiscoveredMachine>,
    m: DiscoveredMachine,
    b: Seq<DiscoveredMachine>,
    instance: Seq<char>,
)
    ensures
        out_of_sight(Seq::empty(), instance).len() == 0,
        m.instance@ == instance ==> out_of_sight(a.push(m) + b, instance) == out_of_sight(
            a,
            instance,
        ) + out_of_sight(b, instance),
        m.instance@ != instance ==> out_of_sight(a.push(m) + b, instance) == out_of_sight(
            a,
            instance,
        ).push(m) + out_of_sight(b, instance),
    decreases b.len(),
{
    let s = a.push(m) + b;
    let o = out_of_sight(a, instance);
    if b.len() == 0 {
        assert(s.drop_last() =~= a);
        assert(s.last() == m);
        assert(o + out_of_sight(b, instance) =~= o);
        assert(o.push(m) + out_of_sight(b, instance) =~= o.push(m));
    } else {
        let front = b.drop_last();
        only_the_lost_machine_goes_out_of_sight(a, m, front, instance);
        assert(s.drop_last() =~= a.push(m) + front);
        assert(s.last() == b.last());
        let r = out_of_sight(front, instance);
        assert((o + r).push(b.last()) =~= o + r.push(b.last()));
        assert((o.push(m) + r).push(b.last()) =~= o.push(m) + r.push(b.last()));
    }
}

/// A machine is dialled again just where it is paired and no connected machine has its id.
pub proof fn who_is_absent_is_dialled_again(
    seen: Seq<DiscoveredMachine>,
    connected: Seq<PeerId>,
    i: usize,
)
    requires
        seen.len() <= usize::MAX,
    ensures
        absent_in(seen, connected).contains(i) <==> i < seen.len() && seen[i as int].trusted
            && forall|k: int|
            0 <= k < connected.len() ==> !text::begins(
                (#[trigger] connected[k]).short(),
                seen[i as int].short@,
            ),
    decreases seen.len(),
{
    if seen.len() > 0 {
        let front = seen.drop_last();
        let rest = absent_in(front, connected);
        who_is_absent_is_dialled_again(front, connected, i);
        if i < front.len() {
            assert(front[i as int] == seen[i as int]);
        }
        let at = (seen.len() - 1) as usize;
        let all = rest.push(at);
        assert(all.contains(i) <==> rest.contains(i) || i == at) by {
            assert(all[rest.len() as int] == at);
            if rest.contains(i) {
                let k = choose|k: int| 0 <= k < rest.len() && rest[k] == i;
                assert(all[k] == i);
            }
            if all.contains(i) {
                let k = choose|k: int| 0 <= k < all.len() && all[k] == i;
                if k < rest.len() {
                    assert(rest[k] == i);
                }
            }
        }
    }
}

/// The address that a name leads to is the one of the first machine shown by it.
pub proof fn a_name_leads_to_the_first_machine_shown_by_it(
    seen: Seq<DiscoveredMachine>,
    short: Seq<char>,
    i: int,
)
    requires
        0 <= i <= seen.len(),
        forall|k: int| 0 <= k < i ==> !text::begins((#[trigger] seen[k]).short@, short),
    ensures
        i < seen.len() && text::begins(seen[i].short@, short) ==> first_shown(seen, short) == Some(
            seen[i].addr@,
        ),
        i == seen.len() ==> first_shown(seen, short) is None,
    decreases seen.len(),
{
    if seen.len() > 0 {
        let front = seen.drop_last();
        let n = if i < front.len() {
            i
        } else {
            front.len() as int
        };
        assert forall|k: int| 0 <= k < n implies !text::begins((#[trigger] front[k]).short@, short) by {
            assert(front[k] == seen[k]);
        }
        a_name_leads_to_the_first_machine_shown_by_it(front, short, n);
        if i < front.len() {
            assert(front[i] == seen[i]);
        }
        if i == seen.len() {
            assert(!text::begins(seen[seen.len() - 1].short@, short));
        }
    }
}

/// The machine on the desk that a name means is the first placed whose id begins with it.
pub proof fn a_name_means_the_first_machine_placed(
    places: Seq<(PeerId, Edge)>,
    short: Seq<char>,
    i: int,
)
    requires
        0 <= i <= places.len(),
        forall|k: int| 0 <= k < i ==> !text::begins((#[trigger] places[k]).0.short(), short),
    ensures
        i < places.len() && text::begins(places[i].0.short(), short) ==> first_placed(places, short)
            == Some(places[i].0),
        i == places.len() ==> first_placed(places, short) is None,
    decreases places.len(),
{
    if places.len() > 0 {
        let front = places.drop_last();
        let n = if i < front.len() {
            i
        } else {
            front.len() as int
        };
        assert forall|k: int| 0 <= k < n implies !text::begins(
            (#[trigger] front[k]).0.short(),
            short,
        ) by {
            assert(front[k] == places[k]);
        }
        a_name_means_the_first_machine_placed(front, short, n);
        if i < front.len() {
            assert(front[i] == places[i]);
        }
        if i == places.len() {
            assert(!text::begins(places[places.len() - 1].0.short(), short));
        }
    }
}

/// A switch moves one machine only: switching off adds the machine that the name means, once,
/// and takes nobody away; switching on takes away exactly those that the name means.
pub proof fn a_switch_moves_only_who_was_named(
    disabled: Seq<PeerId>,
    places: Seq<(PeerId, Edge)>,
    short: Seq<char>,
    id: PeerId,
)
    ensures
        switched(disabled, places, short, false).contains(id) <==> disabled.contains(id)
            || first_placed(places, short) == Some(id),
        switched(disabled, places, short, true).contains(id) <==> disabled.contains(id)
            && !text::begins(id.short(), short),
        disabled.no_duplicates() ==> switched(disabled, places, short, false).no_duplicates(),
{
    those_not_beginning(disabled, short, id);
    if let Some(p) = first_placed(places, short) {
        let all = disabled.push(p);
        assert(all[disabled.len() as int] == p);
        if disabled.contains(id) {
            let k = choose|k: int| 0 <= k < disabled.len() && disabled[k] == id;
            assert(all[k] == id);
        }
        if all.contains(id) {
            let k = choose|k: int| 0 <= k < all.len() && all[k] == id;
            if k < disabled.len() {
                assert(disabled[k] == id);
            }
        }
        if disabled.no_duplicates() && !disabled.contains(p) {
            assert(all.no_duplicates());
        }
    }
}

proof fn those_not_beginning(ids: Seq<PeerId>, short: Seq<char>, id: PeerId)
    ensures
        not_beginning(ids, short).contains(id) <==> ids.contains(id) && !text::begins(
            id.short(),
            short,
        ),
    decreases ids.len(),
{
    if ids.len() > 0 {
        let front = ids.drop_last();
        let rest = not_beginning(front, short);
        those_not_beginning(front, short, id);
        assert(ids.contains(id) <==> front.contains(id) || id == ids.last()) by {
            assert(ids[ids.len() - 1] == ids.last());
            if front.contains(id) {
                let k = choose|k: int| 0 <= k < front.len() && front[k] == id;
                assert(ids[k] == id);
            }
            if ids.contains(id) {
                let k = choose|k: int| 0 <= k < ids.len() && ids[k] == id;
                if k < front.len() {
                    assert(front[k] == id);
                }
            }
        }
        let all = rest.push(ids.last());
        assert(all.contains(id) <==> rest.contains(id) || id == ids.last()) by {
            assert(all[rest.len() as int] == ids.last());
            if rest.contains(id) {
                let k = choose|k: int| 0 <= k < rest.len() && rest[k] == id;
                assert(all[k] == id);
            }
            if all.contains(id) {
                let k = choose|k: int| 0 <= k < all.len() && all[k] == id;
                if k < rest.len() {
                    assert(rest[k] == id);
                }
            }
        }
    }
}

/// A machine's screen is the one it last spoke of, as wide and as high as it said, and no
/// other machine's changes.
pub proof fn a_screen_is_the_one_last_told(
    screens: Seq<(PeerId, (i32, i32))>,
    peer: PeerId,
    width: i32,
    height: i32,
    other: PeerId,
)
    ensures
        taken(with_screen(screens, peer, width, height), peer) == seq![(width, height)],
        other != peer ==> taken(with_screen(screens, peer, width, height), other) == taken(
            screens,
            other,
        ),
{
    let k = kept(screens, peer);
    assert(k.push((peer, (width, height))).drop_last() =~= k);
    taken_of_the_kept(screens, peer, peer);
    taken_of_the_kept(screens, peer, other);
    assert(taken(k, peer).push((width, height)) =~= seq![(width, height)]);
}

proof fn taken_of_the_kept<T>(s: Seq<(PeerId, T)>, peer: PeerId, other: PeerId)
    ensures
        other == peer ==> taken(kept(s, peer), other).len() == 0,
        other != peer ==> taken(kept(s, peer), other) == taken(s, other),
    decreases s.len(),
{
    if s.len() > 0 {
        taken_of_the_kept(s.drop_last(), peer, other);
        let k = kept(s.drop_last(), peer);
        assert(k.push(s.last()).drop_last() =~= k);
    }
}

} // verus!
