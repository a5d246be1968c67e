//! Pairing from the page: a machine nobody has vouched for connects, the same six digits
//! come from the encrypted channel on both ends, and people compare two numbers.
//!
//! The link is held open, unregistered and unauthorised, for exactly as long as that takes.
use crate::identity::{Fingerprint, TrustModel, TrustStore};
use crate::pairing::PairingCode;
use crate::{identity, pairing, store, text};
use vstd::prelude::*;
use vstd::string::*;

verus! {

/// A pairing that is under way or just over.
#[derive(PartialEq, Eq, Debug)]
pub struct PendingPairing {
    /// The six digits both screens show.
    pub code: String,
    /// The short id of the other machine.
    pub with: String,
    /// The key the other machine proved to hold.
    pub peer: Fingerprint,
    /// Which of the links held open this is about.
    pub ticket: u64,
    /// `None` while the digits are showing, and then whether they were confirmed.
    pub outcome: Option<bool>,
}

/// A pairing as a value.
pub struct PendingModel {
    pub code: Seq<char>,
    pub with: Seq<char>,
    pub peer: Fingerprint,
    pub ticket: u64,
    pub outcome: Option<bool>,
}

impl View for PendingPairing {
    type V = PendingModel;

    open spec fn view(&self) -> PendingModel {
        PendingModel {
            code: self.code@,
            with: self.with@,
            peer: self.peer,
            ticket: self.ticket,
            outcome: self.outcome,
        }
    }
}

/// What the page has to show, as a value.
pub open spec fn pending_model(slot: Option<PendingPairing>) -> Option<PendingModel> {
    match slot {
        Some(p) => Some(p@),
        None => None,
    }
}

/// Whether digits are showing that nobody has answered for yet.
pub open spec fn showing(slot: Option<PendingModel>) -> bool {
    slot matches Some(p) && p.outcome is None
}

/// What became of a link that was to be parked.
#[derive(Clone, Copy, PartialEq, Eq, Structural, Debug)]
pub enum Parked {
    /// Its digits are showing.
    Showing,
    /// No digits could be had.
    NoCode,
    /// Another pairing is going on: two codes on one screen would let a person confirm the
    /// wrong one.
    Busy,
}

impl Parked {
    /// What the other machine is told where its link is not held.
    pub fn reason(self) -> (s: Option<&'static str>)
        ensures
            match self {
                Parked::Showing => s is None,
                Parked::NoCode => s is Some && s->0@ == "pairing code unavailable"@,
                Parked::Busy => s is Some && s->0@ == "another pairing is in progress"@,
            },
    {
        match self {
            Parked::Showing => None,
            Parked::NoCode => Some("pairing code unavailable"),
            Parked::Busy => Some("another pairing is in progress"),
        }
    }
}

/// The six digits of a code, without the space they are shown with.
pub open spec fn six_digits(code: PairingCode) -> Seq<char> {
    pairing::three_digits(code.0 as nat / 1000) + pairing::three_digits(code.0 as nat % 1000)
}

/// What parking a link leaves on the page, and what becomes of the link.
pub open spec fn parked(
    slot: Option<PendingModel>,
    code: Option<PairingCode>,
    peer: Fingerprint,
    ticket: u64,
) -> (Option<PendingModel>, Parked) {
    match code {
        None => (slot, Parked::NoCode),
        Some(code) => if showing(slot) {
            (slot, Parked::Busy)
        } else {
            (
                Some(
                    PendingModel {
                        code: six_digits(code),
                        with: store::short_of(peer.id()),
                        peer,
                        ticket,
                        outcome: None,
                    },
                ),
                Parked::Showing,
            )
        },
    }
}

/// Park an unpaired link and show its six digits, in place of hanging up on it.
pub fn park_pairing(
    slot: &mut Option<PendingPairing>,
    code: Option<PairingCode>,
    peer: Fingerprint,
    ticket: u64,
) -> (p: Parked)
    requires
        code matches Some(c) ==> c.0 < pairing::CODE_MODULUS,
    ensures
        (pending_model(*final(slot)), p) == parked(pending_model(*old(slot)), code, peer, ticket),
{
    let code = match code {
        Some(code) => code,
        None => {
            return Parked::NoCode;
        },
    };
    let busy = match slot {
        Some(pending) => pending.outcome.is_none(),
        None => false,
    };
    if busy {
        return Parked::Busy;
    }
    let mut digits = String::new();
    pairing::push_three(&mut digits, code.0 / 1000);
    pairing::push_three(&mut digits, code.0 % 1000);
    proof {
        assert(digits@ =~= six_digits(code));
    }
    let with = peer.peer_id().to_short_string();
    *slot = Some(PendingPairing { code: digits, with, peer, ticket, outcome: None });
    Parked::Showing
}

/// A pairing with an answer.
pub open spec fn answered(slot: Option<PendingModel>, outcome: bool) -> Option<PendingModel> {
    if showing(slot) {
        Some(PendingModel { outcome: Some(outcome), ..slot->0 })
    } else {
        slot
    }
}

/// Who is trusted once the digits on the page were confirmed.
pub open spec fn trusting(
    trust: Map<Seq<u8>, TrustModel>,
    slot: Option<PendingModel>,
) -> Map<Seq<u8>, TrustModel> {
    match slot {
        Some(p) => if p.outcome is None {
            trust.insert(p.peer.id(), TrustModel { fingerprint: p.peer, name: p.with })
        } else {
            trust
        },
        None => trust,
    }
}

/// The person says that the digits match: the key the other machine proved to hold is
/// trusted. Gives the peers file to save, or nothing where no digits were showing.
pub fn confirm(slot: &mut Option<PendingPairing>, trust: &mut TrustStore) -> (file: Option<String>)
    requires
        old(trust).wf(),
    ensures
        final(trust).wf(),
        pending_model(*final(slot)) == answered(pending_model(*old(slot)), true),
        file is Some <==> showing(pending_model(*old(slot))),
        final(trust)@ == trusting(old(trust)@, pending_model(*old(slot))),
        file matches Some(text) ==> text@ == text::written(
            store::peer_lines(final(trust).entries()),
        ),
{
    match slot {
        Some(pending) => {
            if pending.outcome.is_some() {
                return None;
            }
            trust.trust(pending.peer, pending.with.as_str());
            pending.outcome = Some(true);
            Some(store::save_peers(trust))
        },
        None => None,
    }
}

/// The person says that the digits differ. Says whether any were showing.
pub fn decline(slot: &mut Option<PendingPairing>) -> (ok: bool)
    ensures
        pending_model(*final(slot)) == answered(pending_model(*old(slot)), false),
        ok == showing(pending_model(*old(slot))),
{
    match slot {
        Some(pending) => {
            if pending.outcome.is_some() {
                return false;
            }
            pending.outcome = Some(false);
            true
        },
        None => false,
    }
}

/// A code that nobody answers for is a doorbell nobody answered: it is taken down, unless
/// it was answered or another link's has taken its place. Says whether it was.
pub fn expire(slot: &mut Option<PendingPairing>, ticket: u64) -> (gone: bool)
    ensures
        gone == (showing(pending_model(*old(slot))) && pending_model(*old(slot))->0.ticket
            == ticket),
        pending_model(*final(slot)) == if gone {
            None
        } else {
            pending_model(*old(slot))
        },
{
    let due = match slot {
        Some(pending) => pending.outcome.is_none() && pending.ticket == ticket,
        None => false,
    };
    if due {
        *slot = None;
    }
    due
}

/// One pairing at a time: while digits are showing, no other machine's replace them.
pub proof fn one_pairing_at_a_time(
    slot: Option<PendingModel>,
    code: Option<PairingCode>,
    peer: Fingerprint,
    ticket: u64,
)
    requires
        showing(slot),
    ensures
        parked(slot, code, peer, ticket).0 == slot,
        !(parked(slot, code, peer, ticket).1 is Showing),
{
}

/// An answer is given once: what was confirmed or declined stays so.
pub proof fn an_answer_stands(slot: Option<PendingModel>, first: bool, second: bool)
    ensures
        answered(answered(slot, first), second) == answered(slot, first),
{
}

/// What the page shows of a pairing.
pub open spec fn pairing_shown(slot: Option<PendingModel>) -> Seq<char> {
    match slot {
        None => "null"@,
        Some(p) => "{\"code\":\""@ + p.code + "\",\"with\":\""@ + text::requoted(p.with)
            + "\",\"state\":\""@ + (match p.outcome {
            None => "showing"@,
            Some(true) => "paired"@,
            Some(false) => "declined"@,
        }) + "\"}"@,
    }
}

/// What the page shows of a pairing.
pub fn pairing_json(slot: &Option<PendingPairing>) -> (s: String)
    ensures
        s@ == pairing_shown(pending_model(*slot)),
{
    match slot {
        None => String::from_str("null"),
        Some(p) => {
            let mut s = String::from_str("{\"code\":\"");
            s.append(p.code.as_str());
            s.append("\",\"with\":\"");
            s.append(text::requote(p.with.as_str()).as_str());
            s.append("\",\"state\":\"");
            s.append(
                match p.outcome {
                    None => "showing",
                    Some(true) => "paired",
                    Some(false) => "declined",
                },
            );
            s.append("\"}");
            s
        },
    }
}

/// A link that is parked is shown by its own six digits, without a space, and by the short id
/// of the machine behind it, and waits for an answer; a link without a code changes nothing.
pub proof fn a_parked_link_is_shown_as_itself(
    slot: Option<PendingModel>,
    code: PairingCode,
    peer: Fingerprint,
    ticket: u64,
)
    requires
        code.0 < 1_000_000,
        !(slot matches Some(p) && p.outcome is None),
    ensures
        parked(slot, Some(code), peer, ticket).1 is Showing,
        parked(slot, None, peer, ticket) == (slot, Parked::NoCode),
        ({
            let p = parked(slot, Some(code), peer, ticket).0->0;
            &&& parked(slot, Some(code), peer, ticket).0 is Some
            &&& p.peer == peer
            &&& p.ticket == ticket
            &&& p.outcome is None
            &&& p.with == text::hex_of(peer.id().take(4))
            &&& p.code == code.shown().take(3) + code.shown().skip(4)
        }),
{
    let p = parked(slot, Some(code), peer, ticket).0->0;
    assert(p.code =~= code.shown().take(3) + code.shown().skip(4));
}

/// An answer changes nothing but the answer, and only a pairing that waits for one takes it.
pub proof fn an_answer_is_about_what_is_shown(p: PendingModel, outcome: bool)
    requires
        p.outcome is None,
    ensures
        answered(Some(p), outcome) is Some,
        answered(None, outcome) is None,
        ({
            let q = answered(Some(p), outcome)->0;
            &&& q.outcome == Some(outcome)
            &&& (q.code, q.with, q.peer, q.ticket) == (p.code, p.with, p.peer, p.ticket)
        }),
{
}

/// Confirming the digits trusts the key that was shown, and no other: whoever else was
/// trusted or not stays so. An answered pairing, or none, trusts nobody.
pub proof fn confirming_trusts_only_who_was_shown(
    trust: Map<Seq<u8>, TrustModel>,
    p: PendingModel,
    other: Seq<u8>,
)
    ensures
        p.outcome is None ==> identity::trust_of(
            trusting(trust, Some(p)),
            p.peer,
        ) is Trusted,
        p.outcome is None ==> trusting(trust, Some(p))[p.peer.id()].name == p.with
            && trusting(trust, Some(p))[p.peer.id()].fingerprint == p.peer,
        p.outcome is Some ==> trusting(trust, Some(p)) == trust,
        trusting(trust, None) == trust,
        other != p.peer.id() ==> trusting(trust, Some(p)).dom().contains(other)
            == trust.dom().contains(other) && trusting(trust, Some(p))[other] == trust[other],
{
}

/// The page tells a pairing that waits, one that was confirmed and one that was declined
/// apart, and shows the digits.
pub proof fn the_page_tells_how_a_pairing_stands(p: PendingModel)
    ensures
        text::begins(pairing_shown(Some(p)), "{\"code\":\""@ + p.code),
        p.outcome is None ==> text::finishes(pairing_shown(Some(p)), "showing\"}"@),
        p.outcome == Some(true) ==> text::finishes(pairing_shown(Some(p)), "paired\"}"@),
        p.outcome == Some(false) ==> text::finishes(pairing_shown(Some(p)), "declined\"}"@),
{
    reveal_strlit("{\"code\":\"");
    reveal_strlit("\",\"with\":\"");
    reveal_strlit("\",\"state\":\"");
    reveal_strlit("showing");
    reveal_strlit("paired");
    reveal_strlit("declined");
    reveal_strlit("\"}");
    reveal_strlit("showing\"}");
    reveal_strlit("paired\"}");
    reveal_strlit("declined\"}");
    let s = pairing_shown(Some(p));
    let start = "{\"code\":\""@ + p.code;
    assert(s.take(start.len() as int) =~= start);
    if p.outcome is None {
        assert(s.skip(s.len() - 9) =~= "showing\"}"@);
    }
    if p.outcome == Some(true) {
        assert(s.skip(s.len() - 8) =~= "paired\"}"@);
    }
    if p.outcome == Some(false) {
        assert(s.skip(s.len() - 10) =~= "declined\"}"@);
    }
}

/// A pairing is told as it is.
pub proof fn a_pairing_is_told_as_it_is(p: PendingPairing)
    ensures
        p@.code == p.code@,
        p@.with == p.with@,
        p@.peer == p.peer,
        p@.ticket == p.ticket,
        p@.outcome == p.outcome,
{
}

/// Each fact about a pairing stands behind its own name.
pub proof fn each_fact_of_a_pairing_has_its_place(p: PendingModel, state: Seq<char>)
    requires
        p.outcome is None ==> state == "showing"@,
        p.outcome == Some(true) ==> state == "paired"@,
        p.outcome == Some(false) ==> state == "declined"@,
    ensures
        text::within(
            pairing_shown(Some(p)),
            "{\"code\":\""@ + (p.code + "\",\"with\":\""@),
        ),
        text::within(
            pairing_shown(Some(p)),
            "\",\"with\":\""@ + (text::requoted(p.with) + "\",\"state\":\""@),
        ),
        text::within(
            pairing_shown(Some(p)),
            "\",\"state\":\""@ + (state + "\"}"@),
        ),
{
    let s0 = "{\"code\":\""@;
    let s1 = s0 + p.code;
    let s2 = s1 + "\",\"with\":\""@;
    let s3 = s2 + text::requoted(p.with);
    let s4 = s3 + "\",\"state\":\""@;
    let s5 = s4 + state;
    let s6 = s5 + "\"}"@;
    let s = pairing_shown(Some(p));
    assert(s == s6);
    text::a_text_begins_with_itself(s);
    text::a_shorter_start_is_a_start(s, s5, "\"}"@);
    text::a_shorter_start_is_a_start(s, s4, state);
    text::a_shorter_start_is_a_start(s, s3, "\",\"state\":\""@);
    text::a_shorter_start_is_a_start(s, s2, text::requoted(p.with));
    text::a_shorter_start_is_a_start(s, s1, "\",\"with\":\""@);
    text::a_shorter_start_is_a_start(s, s0, p.code);
    text::a_first_part_stands_within(s, "{\"code\":\""@, p.code, "\",\"with\":\""@);
    text::a_part_stands_within(
        s,
        s1,
        "\",\"with\":\""@,
        text::requoted(p.with),
        "\",\"state\":\""@,
    );
    text::a_part_stands_within(
        s,
        s3,
        "\",\"state\":\""@,
        state,
        "\"}"@,
    );
}

} // verus!
