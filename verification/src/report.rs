//! What the command line tells a person.
use crate::discovery::{Address, DiscoveredPeer};
use crate::frame::PeerId;
use crate::identity::{Fingerprint, TrustStore, TrustedPeer};
use crate::inject::Grant;
use crate::layout::{Layout, Platform};
use crate::licence::Licence;
use crate::pairing::PairingCode;
use crate::screen::{Desktop, Display, Sides};
use crate::{licence, pairing, screen, store, text};
use vstd::prelude::*;
use vstd::string::*;

verus! {

// ---------------------------------------------------------------- this machine
/// What the report says of the machine itself.
pub struct MachineFacts {
    pub version: String,
    /// What the program was built for.
    pub target: String,
    pub name: String,
    pub id: PeerId,
    pub fingerprint: Fingerprint,
    /// Where its state is kept.
    pub state: String,
    pub os: String,
    pub arch: String,
    pub layout: Layout,
    pub platform: Platform,
}

/// What the report says of the machine itself. The version comes first: the commonest
/// question is which build this is.
pub open spec fn machine_told(m: MachineFacts) -> Seq<char> {
    "seam doctor\n\n  this machine\n    seam         v"@ + m.version@ + " ("@ + m.target@
        + ")\n    name         "@ + m.name@ + "\n    id           "@ + m.id.short()
        + "\n    fingerprint  "@ + Fingerprint::grouped(m.fingerprint@) + "\n    state        "@
        + m.state@ + "\n    protocol     v"@ + text::decimal(crate::PROTOCOL_VERSION as nat)
        + "\n    platform     "@ + m.os@ + " / "@ + m.arch@ + "\n    keyboard     "@
        + m.layout.shown() + "\n"@ + (match m.layout {
        Layout::Known { .. } => "                 composes text with "@ + (
        if m.platform is MacOs {
            "Option"@
        } else {
            "AltGr"@
        }) + "\n"@,
        Layout::Unknown { .. } => Seq::empty(),
    })
}

/// What the report says of the machine itself.
pub fn machine_report(m: &MachineFacts) -> (s: String)
    ensures
        s@ == machine_told(*m),
{
    let mut s = String::from_str("seam doctor\n\n  this machine\n    seam         v");
    s.append(m.version.as_str());
    s.append(" (");
    s.append(m.target.as_str());
    s.append(")\n    name         ");
    s.append(m.name.as_str());
    s.append("\n    id           ");
    s.append(m.id.to_short_string().as_str());
    s.append("\n    fingerprint  ");
    s.append(m.fingerprint.to_grouped_hex().as_str());
    s.append("\n    state        ");
    s.append(m.state.as_str());
    s.append("\n    protocol     v");
    s.append(text::decimal_text(crate::PROTOCOL_VERSION as u64).as_str());
    s.append("\n    platform     ");
    s.append(m.os.as_str());
    s.append(" / ");
    s.append(m.arch.as_str());
    s.append("\n    keyboard     ");
    s.append(m.layout.display());
    s.append("\n");
    let mut more = String::new();
    proof {
        assert(more@ =~= Seq::<char>::empty());
    }
    match &m.layout {
        Layout::Known { .. } => {
            more = String::from_str("                 composes text with ");
            more.append(
                if Layout::composes_with_option(m.platform) {
                    "Option"
                } else {
                    "AltGr"
                },
            );
            more.append("\n");
        },
        Layout::Unknown { .. } => {},
    }
    s.append(more.as_str());
    s
}

// ---------------------------------------------------------------- displays
/// Whole millimetres, of a length in sub-units.
pub open spec fn millimetres(v: int) -> int {
    if v >= 0 {
        v / 64
    } else {
        -((-v) / 64)
    }
}

fn whole_mm(v: i32) -> (n: i64)
    ensures
        n == millimetres(v as int),
{
    let wide: i64 = v as i64;
    if wide >= 0 {
        wide / 64
    } else {
        let back: i64 = (0 - wide) / 64;
        0 - back
    }
}

/// What the report says of a display, whose scale is printed as `scale`.
pub open spec fn display_told(d: Display, scale: Seq<char>) -> Seq<char> {
    "    "@ + (if d.primary {
        "* "@
    } else {
        "  "@
    }) + text::signed_decimal(d.pixels.width as int) + "x"@ + text::signed_decimal(
        d.pixels.height as int,
    ) + " at ("@ + text::signed_decimal(d.pixels.x as int) + ","@ + text::signed_decimal(
        d.pixels.y as int,
    ) + ")  "@ + scale + "x  "@ + text::signed_decimal(millimetres(d.width_mm as int)) + "x"@
        + text::signed_decimal(millimetres(d.height_mm as int)) + " mm\n"@
}

fn display_line(d: &Display, scale: &str) -> (s: String)
    ensures
        s@ == display_told(*d, scale@),
{
    let mut s = String::from_str("    ");
    s.append(
        if d.primary {
            "* "
        } else {
            "  "
        },
    );
    s.append(text::signed_text(d.pixels.width as i64).as_str());
    s.append("x");
    s.append(text::signed_text(d.pixels.height as i64).as_str());
    s.append(" at (");
    s.append(text::signed_text(d.pixels.x as i64).as_str());
    s.append(",");
    s.append(text::signed_text(d.pixels.y as i64).as_str());
    s.append(")  ");
    s.append(scale);
    s.append("x  ");
    s.append(text::signed_text(whole_mm(d.width_mm)).as_str());
    s.append("x");
    s.append(text::signed_text(whole_mm(d.height_mm)).as_str());
    s.append(" mm\n");
    s
}

/// What the report says of some displays, one line each.
pub open spec fn displays_told(ds: Seq<Display>, scales: Seq<String>) -> Seq<char>
    decreases ds.len(),
{
    if ds.len() == 0 {
        Seq::empty()
    } else {
        displays_told(ds.drop_last(), scales) + display_told(
            ds.last(),
            scales[ds.len() - 1]@,
        )
    }
}

/// What the report says of the displays and the cursor.
pub open spec fn desktop_told(
    desktop: Result<&Desktop, &str>,
    scales: Seq<String>,
    cursor: Option<(i32, i32)>,
) -> Seq<char> {
    "\n  displays\n"@ + match desktop {
        Err(why) => "    could not read displays: "@ + why@ + "\n"@,
        Ok(d) => displays_told(d.displays@, scales) + (match screen::hull(d.displays@) {
            Some(b) => "    desktop  "@ + text::signed_decimal(b.right - b.left) + "x"@
                + text::signed_decimal(b.bottom - b.top) + " at ("@ + text::signed_decimal(b.left)
                + ","@ + text::signed_decimal(b.top) + ")\n"@,
            None => "    desktop  "@ + text::signed_decimal(0) + "x"@ + text::signed_decimal(0)
                + " at ("@ + text::signed_decimal(0) + ","@ + text::signed_decimal(0) + ")\n"@,
        }) + (match cursor {
            Some((x, y)) => "    cursor   ("@ + text::signed_decimal(x as int) + ", "@
                + text::signed_decimal(y as int) + ")\n"@,
            None => Seq::empty(),
        }),
    }
}

/// What the report says of the displays and the cursor. `scales` holds each display's scale
/// as it is printed.
pub fn displays_report(
    desktop: Result<&Desktop, &str>,
    scales: &Vec<String>,
    cursor: Option<(i32, i32)>,
) -> (s: String)
    requires
        desktop matches Ok(d) ==> d.wf() && scales@.len() == d.displays@.len(),
    ensures
        s@ == desktop_told(desktop, scales@, cursor),
{
    let mut body = String::new();
    match desktop {
        Err(why) => {
            body = String::from_str("    could not read displays: ");
            body.append(why);
            body.append("\n");
        },
        Ok(d) => {
            let mut i: usize = 0;
            proof {
                assert(body@ =~= displays_told(d.displays@.take(0), scales@));
            }
            while i < d.displays.len()
                invariant
                    i <= d.displays@.len(),
                    scales@.len() == d.displays@.len(),
                    body@ == displays_told(d.displays@.take(i as int), scales@),
                decreases d.displays.len() - i,
            {
                proof {
                    let next = d.displays@.take(i + 1);
                    assert(next.drop_last() =~= d.displays@.take(i as int));
                    assert(next.last() == d.displays@[i as int]);
                }
                body.append(display_line(&d.displays[i], scales[i].as_str()).as_str());
                i = i + 1;
            }
            proof {
                assert(d.displays@.take(d.displays@.len() as int) =~= d.displays@);
            }
            let bb = d.bounding_box();
            let mut line = String::from_str("    desktop  ");
            line.append(text::signed_text(bb.width as i64).as_str());
            line.append("x");
            line.append(text::signed_text(bb.height as i64).as_str());
            line.append(" at (");
            line.append(text::signed_text(bb.x as i64).as_str());
            line.append(",");
            line.append(text::signed_text(bb.y as i64).as_str());
            line.append(")\n");
            body.append(line.as_str());
            let mut at = String::new();
            proof {
                assert(at@ =~= Seq::<char>::empty());
            }
            if let Some((x, y)) = cursor {
                at = String::from_str("    cursor   (");
                at.append(text::signed_text(x as i64).as_str());
                at.append(", ");
                at.append(text::signed_text(y as i64).as_str());
                at.append(")\n");
            }
            body.append(at.as_str());
        },
    }
    text::plus(String::from_str("\n  displays\n"), body.as_str())
}

// ---------------------------------------------------------------- permissions and peers
/// So many spaces.
pub open spec fn spaces(n: int) -> Seq<char> {
    Seq::new(
        if n > 0 {
            n as nat
        } else {
            0
        },
        |i: int| ' ',
    )
}

fn push_padded(s: &mut String, word: &str, width: usize)
    ensures
        final(s)@ == old(s)@ + word@ + spaces(width - word@.len()),
{
    s.append(word);
    let mut n: usize = text::chars_of(word).len();
    let ghost base = s@;
    let ghost start = n;
    proof {
        assert(base + spaces(0) =~= base);
        assert(spaces(width - word@.len()) =~= spaces(
            if width > start {
                width - start
            } else {
                0
            },
        ));
    }
    while n < width
        invariant
            start <= n,
            start <= width ==> n <= width,
            start > width ==> n == start,
            s@ == base + spaces(n - start),
        decreases width - n,
    {
        text::push(s, ' ');
        proof {
            assert((base + spaces(n - start)).push(' ') =~= base + spaces(n + 1 - start));
        }
        n = n + 1;
    }
}

/// What the report says of a permission.
pub open spec fn grant_told(g: Grant) -> Seq<char> {
    "    "@ + g.what@ + spaces(16 - g.what@.len()) + (if g.granted {
        " granted\n"@
    } else {
        " NOT GRANTED — "@ + g.where_to@ + "\n"@
    })
}

/// What the report says of some permissions.
pub open spec fn grants_told(gs: Seq<Grant>) -> Seq<char>
    decreases gs.len(),
{
    if gs.len() == 0 {
        Seq::empty()
    } else {
        grants_told(gs.drop_last()) + grant_told(gs.last())
    }
}

/// What the report says of permissions, on a system that has any.
pub open spec fn permissions_told(report: Option<Vec<Grant>>) -> Seq<char> {
    match report {
        Some(gs) => "\n  permissions\n"@ + grants_told(gs@),
        None => Seq::empty(),
    }
}

/// What the report says of permissions, on a system that has any.
pub fn permissions_report(report: &Option<Vec<Grant>>) -> (s: String)
    ensures
        s@ == permissions_told(*report),
{
    match report {
        None => {
            let s = String::new();
            proof {
                assert(s@ =~= Seq::<char>::empty());
            }
            s
        },
        Some(gs) => {
            let mut body = String::new();
            let mut i: usize = 0;
            proof {
                assert(body@ =~= grants_told(gs@.take(0)));
            }
            while i < gs.len()
                invariant
                    i <= gs@.len(),
                    body@ == grants_told(gs@.take(i as int)),
                decreases gs.len() - i,
            {
                proof {
                    let next = gs@.take(i + 1);
                    assert(next.drop_last() =~= gs@.take(i as int));
                    assert(next.last() == gs@[i as int]);
                }
                let mut line = String::from_str("    ");
                push_padded(&mut line, gs[i].what, 16);
                let mut state = String::from_str(" granted\n");
                if !gs[i].granted {
                    state = String::from_str(" NOT GRANTED — ");
                    state.append(gs[i].where_to);
                    state.append("\n");
                }
                line.append(state.as_str());
                body.append(line.as_str());
                i = i + 1;
            }
            proof {
                assert(gs@.take(gs@.len() as int) =~= gs@);
            }
            text::plus(String::from_str("\n  permissions\n"), body.as_str())
        },
    }
}

/// Paired peers, one line each.
pub open spec fn peers_told(peers: Seq<TrustedPeer>, indent: Seq<char>) -> Seq<char>
    decreases peers.len(),
{
    if peers.len() == 0 {
        Seq::empty()
    } else {
        peers_told(peers.drop_last(), indent) + indent + store::short_of(
            peers.last().fingerprint.id(),
        ) + "  "@ + peers.last().name@ + "\n"@
    }
}

fn peer_lines(peers: &Vec<TrustedPeer>, indent: &str) -> (s: String)
    ensures
        s@ == peers_told(peers@, indent@),
{
    let mut s = String::new();
    let mut i: usize = 0;
    proof {
        assert(s@ =~= peers_told(peers@.take(0), indent@));
    }
    while i < peers.len()
        invariant
            i <= peers@.len(),
            s@ == peers_told(peers@.take(i as int), indent@),
        decreases peers.len() - i,
    {
        proof {
            let next = peers@.take(i + 1);
            assert(next.drop_last() =~= peers@.take(i as int));
            assert(next.last() == peers@[i as int]);
        }
        let id = peers[i].fingerprint.peer_id();
        s.append(indent);
        s.append(id.to_short_string().as_str());
        s.append("  ");
        s.append(peers[i].name.as_str());
        s.append("\n");
        i = i + 1;
    }
    proof {
        assert(peers@.take(peers@.len() as int) =~= peers@);
    }
    s
}

/// What the report says of the paired peers.
pub open spec fn paired_told(peers: Seq<TrustedPeer>) -> Seq<char> {
    "\n  paired peers   "@ + text::decimal(peers.len()) + "\n"@ + peers_told(
        peers,
        "    "@,
    )
}

/// What the report says of the paired peers.
pub fn peers_report(store: &TrustStore) -> (s: String)
    requires
        store.wf(),
    ensures
        s@ == paired_told(store.entries()),
{
    let peers = store.iter();
    let mut s = String::from_str("\n  paired peers   ");
    s.append(text::decimal_text(peers.len() as u64).as_str());
    s.append("\n");
    s.append(peer_lines(peers, "    ").as_str());
    s
}

/// What the list of peers says.
pub fn peers_list(store: &TrustStore) -> (s: String)
    requires
        store.wf(),
    ensures
        s@ == if store.entries().len() == 0 {
            "No paired machines yet. Run `seam pair` on both machines.\n"@
        } else {
            "Paired machines:\n\n"@ + peers_told(store.entries(), "  "@)
        },
{
    let peers = store.iter();
    if peers.len() == 0 {
        return String::from_str("No paired machines yet. Run `seam pair` on both machines.\n");
    }
    text::plus(String::from_str("Paired machines:\n\n"), peer_lines(peers, "  ").as_str())
}

/// What is said once a pairing was removed.
pub fn forgotten(removed: &Option<TrustedPeer>, id: PeerId) -> (s: String)
    ensures
        s@ == match *removed {
            Some(p) => "Forgot "@ + p.name@ + " ("@ + id.short() + ")."@,
            None => "Nothing to forget."@,
        },
{
    match removed {
        Some(p) => {
            let mut s = String::from_str("Forgot ");
            s.append(p.name.as_str());
            s.append(" (");
            s.append(id.to_short_string().as_str());
            s.append(").");
            s
        },
        None => String::from_str("Nothing to forget."),
    }
}

/// What the report says of the network.
pub open spec fn network_told(outcome: Result<&str, &str>) -> Seq<char> {
    "\n  network        "@ + (match outcome {
        Ok(addr) => "ok — bound a QUIC socket on "@ + addr@,
        Err(why) => "FAILED — "@ + why@,
    }) + "\n"@
}

// ---------------------------------------------------------------- network and licence
/// What a probe of the network found: an address it could bind, or why it could not.
pub fn network_line(outcome: Result<&str, &str>) -> (s: String)
    ensures
        s@ == network_told(outcome),
{
    let mut found = String::from_str("FAILED — ");
    match outcome {
        Ok(addr) => {
            found = String::from_str("ok — bound a QUIC socket on ");
            found.append(addr);
        },
        Err(why) => found.append(why),
    }
    let mut s = String::from_str("\n  network        ");
    s.append(found.as_str());
    s.append("\n");
    s
}

/// What the report says of discovery.
pub open spec fn discovery_told(failure: Option<&str>) -> Seq<char> {
    "  discovery      "@ + (match failure {
        None => "ok — mDNS is available on this machine"@,
        Some(why) => "FAILED — "@ + why@,
    }) + "\n"@
}

/// What a probe of discovery found.
pub fn discovery_line(failure: Option<&str>) -> (s: String)
    ensures
        s@ == discovery_told(failure),
{
    let mut found = String::from_str("ok — mDNS is available on this machine");
    if let Some(why) = failure {
        found = String::from_str("FAILED — ");
        found.append(why);
    }
    let mut s = String::from_str("  discovery      ");
    s.append(found.as_str());
    s.append("\n");
    s
}

/// What the report says of the licence.
pub open spec fn licence_told(l: Option<Licence>) -> Seq<char> {
    match l {
        Some(x) => "  licence       "@ + x.name@ + " ("@ + (if x.expires_day == 0 {
            "no expiry"@
        } else {
            "day "@ + text::decimal(x.expires_day as nat)
        }) + ")\n"@,
        None => "  licence       MISSING — run 'seam activate <your-licence>'\n"@,
    }
}

/// What the report says of the licence.
pub fn licence_line(l: &Option<Licence>) -> (s: String)
    ensures
        s@ == licence_told(*l),
{
    match l {
        Some(x) => {
            let mut until = String::from_str("no expiry");
            if x.expires_day != 0 {
                until = String::from_str("day ");
                until.append(text::decimal_text(x.expires_day).as_str());
            }
            let mut s = String::from_str("  licence       ");
            s.append(x.name.as_str());
            s.append(" (");
            s.append(until.as_str());
            s.append(")\n");
            s
        },
        None => String::from_str("  licence       MISSING — run 'seam activate <your-licence>'\n"),
    }
}

// ---------------------------------------------------------------- whether input can be withheld
/// Whether something by that name is granted.
pub open spec fn granted_in(report: Seq<Grant>, name: Seq<char>) -> bool
    decreases report.len(),
{
    if report.len() == 0 {
        false
    } else if report[0].what@ == name {
        report[0].granted
    } else {
        granted_in(report.skip(1), name)
    }
}

fn is_granted(report: &Vec<Grant>, name: &str) -> (b: bool)
    ensures
        b == granted_in(report@, name@),
{
    let mut i: usize = 0;
    proof {
        assert(report@.skip(0) =~= report@);
    }
    while i < report.len()
        invariant
            i <= report@.len(),
            granted_in(report@, name@) == granted_in(report@.skip(i as int), name@),
        decreases report.len() - i,
    {
        proof {
            assert(report@.skip(i as int).skip(1) =~= report@.skip(i + 1));
        }
        if text::same(report[i].what, name) {
            return report[i].granted;
        }
        i = i + 1;
    }
    false
}

/// What the report says of forwarding input.
pub open spec fn forwarding_told(report: Option<Vec<Grant>>) -> Seq<char> {
    "\n  input forwarding\n"@ + match report {
        None => "    ready — this platform needs no input permissions\n"@,
        Some(gs) => if !granted_in(gs@, "capture input"@) {
            "    NOT WORKING — Input Monitoring is not granted, so seam cannot\n    see input at all. Grant it, then restart seam.\n"@
        } else if granted_in(gs@, "inject input"@) {
            "    ready — input can be captured, withheld and forwarded\n"@
        } else {
            "    MIRRORS INSTEAD OF SWITCHING — Accessibility is not granted.\n    seam can see and forward input, but cannot stop this machine\n    acting on it, so the pointer moves here AND on the other screen.\n    Grant System Settings > Privacy & Security > Accessibility,\n    then restart seam. macOS grants this per binary, so a newly\n    downloaded release needs it again.\n"@
        },
    }
}

/// Whether input can be withheld, and not merely seen: the failure that does not look like
/// one. With one permission but not the other, input is forwarded while this machine goes
/// on acting on it.
pub fn report_input_forwarding(report: &Option<Vec<Grant>>) -> (s: String)
    ensures
        s@ == forwarding_told(*report),
{
    let body = match report {
        None => "    ready — this platform needs no input permissions\n",
        Some(gs) => {
            if !is_granted(gs, "capture input") {
                "    NOT WORKING — Input Monitoring is not granted, so seam cannot\n    see input at all. Grant it, then restart seam.\n"
            } else if is_granted(gs, "inject input") {
                "    ready — input can be captured, withheld and forwarded\n"
            } else {
                "    MIRRORS INSTEAD OF SWITCHING — Accessibility is not granted.\n    seam can see and forward input, but cannot stop this machine\n    acting on it, so the pointer moves here AND on the other screen.\n    Grant System Settings > Privacy & Security > Accessibility,\n    then restart seam. macOS grants this per binary, so a newly\n    downloaded release needs it again.\n"
            }
        },
    };
    text::plus(String::from_str("\n  input forwarding\n"), body)
}

/// What the report says of this program's rights.
pub open spec fn elevation_told(elevated: Option<bool>) -> Seq<char> {
    match elevated {
        None => Seq::empty(),
        Some(true) =>
            "\n  elevation\n    elevated — injection reaches admin windows and Task Manager\n"@,
        Some(false) =>
            "\n  elevation\n    NOT ELEVATED — the pointer and keyboard freeze whenever an\n    elevated window (admin PowerShell, Task Manager) has focus.\n    'seam run' offers to fix this with one UAC prompt.\n"@,
    }
}

/// What the report says of this program's rights, on a system where they matter.
pub fn elevation_report(elevated: Option<bool>) -> (s: String)
    ensures
        s@ == elevation_told(elevated),
{
    match elevated {
        None => {
            let s = String::new();
            proof {
                assert(s@ =~= Seq::<char>::empty());
            }
            s
        },
        Some(true) => String::from_str(
            "\n  elevation\n    elevated — injection reaches admin windows and Task Manager\n",
        ),
        Some(false) => String::from_str(
            "\n  elevation\n    NOT ELEVATED — the pointer and keyboard freeze whenever an\n    elevated window (admin PowerShell, Task Manager) has focus.\n    'seam run' offers to fix this with one UAC prompt.\n",
        ),
    }
}

// ---------------------------------------------------------------- the whole report
/// What was looked at on this machine.
pub struct Examination<'a> {
    pub machine: &'a MachineFacts,
    pub desktop: Result<&'a Desktop, &'a str>,
    pub scales: &'a Vec<String>,
    pub cursor: Option<(i32, i32)>,
    pub permissions: &'a Option<Vec<Grant>>,
    pub store: &'a TrustStore,
    pub network: Result<&'a str, &'a str>,
    pub discovery: Option<&'a str>,
    pub licence: &'a Option<Licence>,
    pub elevated: Option<bool>,
}

/// The report on this machine's setup, and on anything that would stop seam working.
pub fn doctor(e: &Examination<'_>) -> (s: String)
    requires
        e.store.wf(),
        e.desktop matches Ok(d) ==> d.wf() && e.scales@.len() == d.displays@.len(),
    ensures
        s@ == machine_told(*e.machine) + desktop_told(e.desktop, e.scales@, e.cursor)
            + permissions_told(*e.permissions) + paired_told(e.store.entries()) + network_told(
            e.network,
        ) + discovery_told(e.discovery) + licence_told(*e.licence) + forwarding_told(*e.permissions)
            + elevation_told(e.elevated),
{
    let mut s = machine_report(e.machine);
    s.append(displays_report(e.desktop, e.scales, e.cursor).as_str());
    s.append(permissions_report(e.permissions).as_str());
    s.append(peers_report(e.store).as_str());
    s.append(network_line(e.network).as_str());
    s.append(discovery_line(e.discovery).as_str());
    s.append(licence_line(e.licence).as_str());
    s.append(report_input_forwarding(e.permissions).as_str());
    s.append(elevation_report(e.elevated).as_str());
    s
}

// ---------------------------------------------------------------- finding machines
/// The texts of some addresses.
pub open spec fn address_texts(a: Seq<Address>) -> Seq<Seq<char>> {
    Seq::new(a.len(), |i: int| a[i].text@)
}

fn addresses_of(a: &Vec<Address>) -> (texts: Vec<String>)
    ensures
        text::contents(texts@) == address_texts(a@),
{
    let mut texts: Vec<String> = Vec::new();
    let mut i: usize = 0;
    while i < a.len()
        invariant
            i <= a@.len(),
            texts@.len() == i,
            forall|k: int| 0 <= k < i ==> (#[trigger] texts@[k])@ == a@[k].text@,
        decreases a.len() - i,
    {
        texts.push(a[i].text.as_str().to_owned());
        i = i + 1;
    }
    proof {
        assert(text::contents(texts@) =~= address_texts(a@));
    }
    texts
}

/// What is said of a machine that was found.
pub fn found_report(peer: &DiscoveredPeer) -> (s: String)
    ensures
        s@ == "  "@ + peer.name@ + "\n    claims id "@ + (match peer.advertised_peer_id {
            Some(id) => id.short(),
            None => "?"@,
        }) + "   protocol "@ + (match peer.advertised_protocol {
            Some(v) => "v"@ + text::decimal(v as nat),
            None => "unknown"@,
        }) + "\n    at "@ + store::comma_separated(
            address_texts(peer.addresses@),
        ) + "\n"@,
{
    let id = match &peer.advertised_peer_id {
        Some(id) => id.to_short_string(),
        None => String::from_str("?"),
    };
    let protocol = match peer.advertised_protocol {
        Some(v) => text::plus(String::from_str("v"), text::decimal_text(v as u64).as_str()),
        None => String::from_str("unknown"),
    };
    let mut s = String::from_str("  ");
    s.append(peer.name.as_str());
    s.append("\n    claims id ");
    s.append(id.as_str());
    s.append("   protocol ");
    s.append(protocol.as_str());
    s.append("\n    at ");
    s.append(store::comma_list(&addresses_of(&peer.addresses)).as_str());
    s.append("\n");
    s
}

/// What is said once watching is over.
pub fn discover_summary(found: usize) -> (s: String)
    ensures
        s@ == if found == 0 {
            "  no other seam machines found.\n\n  If one should be running, check that both are on the same network and\n  that mDNS is not blocked. seam never needs an IP address typed in.\n"@
        } else {
            "\nFound "@ + text::decimal(found as nat) + ". Pair with: seam pair <name>\n"@
        },
{
    if found == 0 {
        return String::from_str(
            "  no other seam machines found.\n\n  If one should be running, check that both are on the same network and\n  that mDNS is not blocked. seam never needs an IP address typed in.\n",
        );
    }
    let mut s = String::from_str("\nFound ");
    s.append(text::decimal_text(found as u64).as_str());
    s.append(". Pair with: seam pair <name>\n");
    s
}

/// Whether a query names a machine that was found: its name, or the start of the id it
/// claims. Letter case does not matter.
pub open spec fn names_found(peer: DiscoveredPeer, query: Seq<char>) -> bool {
    let needle = text::lowercase(text::trimmed(query));
    ||| text::lowercase(peer.name@) == needle
    ||| peer.advertised_peer_id matches Some(id) && text::begins(id.short(), needle)
}

/// The first machine found that a query names.
pub open spec fn first_named(found: Seq<DiscoveredPeer>, query: Seq<char>) -> Option<int>
    decreases found.len(),
{
    if found.len() == 0 {
        None
    } else {
        match first_named(found.drop_last(), query) {
            Some(i) => Some(i),
            None => if names_found(found.last(), query) {
                Some(found.len() - 1)
            } else {
                None
            },
        }
    }
}

proof fn first_named_stays(found: Seq<DiscoveredPeer>, query: Seq<char>, n: int)
    requires
        0 <= n <= found.len(),
        first_named(found.take(n), query) is Some,
    ensures
        first_named(found, query) == first_named(found.take(n), query),
    decreases found.len() - n,
{
    if n < found.len() {
        assert(found.take(n + 1).drop_last() =~= found.take(n));
        first_named_stays(found, query, n + 1);
    } else {
        assert(found.take(n) =~= found);
    }
}

/// The names of some machines.
pub open spec fn found_names(found: Seq<DiscoveredPeer>) -> Seq<Seq<char>> {
    Seq::new(found.len(), |i: int| found[i].name@)
}

fn names_of(found: &Vec<DiscoveredPeer>) -> (names: Vec<String>)
    ensures
        text::contents(names@) == found_names(found@),
{
    let mut names: Vec<String> = Vec::new();
    let mut i: usize = 0;
    while i < found.len()
        invariant
            i <= found@.len(),
            names@.len() == i,
            forall|k: int| 0 <= k < i ==> (#[trigger] names@[k])@ == found@[k].name@,
        decreases found.len() - i,
    {
        names.push(found[i].name.as_str().to_owned());
        i = i + 1;
    }
    proof {
        assert(text::contents(names@) =~= found_names(found@));
    }
    names
}

/// Which of the machines found a person means, or what to tell them where none.
pub fn choose_found(found: &Vec<DiscoveredPeer>, query: &str) -> (r: Result<usize, String>)
    ensures
        match first_named(found@, query@) {
            Some(i) => r matches Ok(n) && n == i,
            None => r matches Err(why) && why@ == if found@.len() == 0 {
                "no seam machines found on the network. Start `seam pair` on "@ + text::quoted(
                    query@,
                ) + " first."@
            } else {
                "no machine called "@ + text::quoted(query@) + ". Found: "@
                    + store::comma_separated(found_names(found@))
            },
        },
{
    let chars = text::chars_of(query);
    let needle = text::string_of(text::trim(chars.as_slice()).as_slice());
    let needle = text::to_lowercase(needle.as_str());
    let mut i: usize = 0;
    while i < found.len()
        invariant
            i <= found@.len(),
            needle@ == text::lowercase(text::trimmed(query@)),
            first_named(found@.take(i as int), query@) is None,
        decreases found.len() - i,
    {
        let peer = &found[i];
        proof {
            let next = found@.take(i + 1);
            assert(next.drop_last() =~= found@.take(i as int));
            assert(next.last() == *peer);
        }
        let name = text::to_lowercase(peer.name.as_str());
        let mut hit = text::same(name.as_str(), needle.as_str());
        if !hit {
            if let Some(id) = &peer.advertised_peer_id {
                let id = id.to_short_string();
                let id = text::chars_of(id.as_str());
                hit = text::starts(id.as_slice(), needle.as_str());
            }
        }
        if hit {
            proof {
                first_named_stays(found@, query@, i + 1);
            }
            return Ok(i);
        }
        i = i + 1;
    }
    proof {
        assert(found@.take(found@.len() as int) =~= found@);
    }
    if found.len() == 0 {
        let mut s = String::from_str(
            "no seam machines found on the network. Start `seam pair` on ",
        );
        s.append(text::quote(query).as_str());
        s.append(" first.");
        Err(s)
    } else {
        let mut s = String::from_str("no machine called ");
        s.append(text::quote(query).as_str());
        s.append(". Found: ");
        s.append(store::comma_list(&names_of(found)).as_str());
        Err(s)
    }
}

/// What a person is asked to compare while pairing.
pub fn code_box(remote: &str, code: PairingCode) -> (s: String)
    requires
        code.0 < pairing::CODE_MODULUS,
    ensures
        s@ == "\n  Pairing with "@ + remote@
            + "\n\n      ┌───────────────┐\n      │   "@ + code.shown()
            + "   │\n      └───────────────┘\n\n  Check the other machine shows the SAME code, then confirm.\n  If the codes differ, something is intercepting the connection — say no.\n\n"@,
{
    let mut s = String::from_str("\n  Pairing with ");
    s.append(remote);
    s.append("\n\n      ┌───────────────┐\n      │   ");
    s.append(code.to_display_string().as_str());
    s.append(
        "   │\n      └───────────────┘\n\n  Check the other machine shows the SAME code, then confirm.\n  If the codes differ, something is intercepting the connection — say no.\n\n",
    );
    s
}

// ---------------------------------------------------------------- what is told where
/// What the report says of how text is composed, where the layout is known.
pub open spec fn composing(m: MachineFacts) -> Seq<char> {
    match m.layout {
        Layout::Known { .. } => "                 composes text with "@ + (
        if m.platform is MacOs {
            "Option"@
        } else {
            "AltGr"@
        }) + "\n"@,
        Layout::Unknown { .. } => Seq::empty(),
    }
}

/// Each fact about the machine is told behind its own name.
#[verifier::spinoff_prover]
pub proof fn each_fact_of_the_machine_is_told_in_its_place(m: MachineFacts)
    ensures
        text::within(
            machine_told(m),
            "seam doctor\n\n  this machine\n    seam         v"@ + (m.version@ + " ("@),
        ),
        text::within(
            machine_told(m),
            " ("@ + (m.target@ + ")\n    name         "@),
        ),
        text::within(
            machine_told(m),
            ")\n    name         "@ + (m.name@ + "\n    id           "@),
        ),
        text::within(
            machine_told(m),
            "\n    id           "@ + (m.id.short() + "\n    fingerprint  "@),
        ),
        text::within(
            machine_told(m),
            "\n    fingerprint  "@ + (Fingerprint::grouped(m.fingerprint@) + "\n    state        "@),
        ),
        text::within(
            machine_told(m),
            "\n    state        "@ + (m.state@ + "\n    protocol     v"@),
        ),
        text::within(
            machine_told(m),
            "\n    protocol     v"@ + (text::decimal(crate::PROTOCOL_VERSION as nat) + "\n    platform     "@),
        ),
        text::within(
            machine_told(m),
            "\n    platform     "@ + (m.os@ + " / "@),
        ),
        text::within(
            machine_told(m),
            " / "@ + (m.arch@ + "\n    keyboard     "@),
        ),
        text::within(
            machine_told(m),
            "\n    keyboard     "@ + (m.layout.shown() + "\n"@),
        ),
{
    let s0 = "seam doctor\n\n  this machine\n    seam         v"@;
    let s1 = s0 + m.version@;
    let s2 = s1 + " ("@;
    let s3 = s2 + m.target@;
    let s4 = s3 + ")\n    name         "@;
    let s5 = s4 + m.name@;
    let s6 = s5 + "\n    id           "@;
    let s7 = s6 + m.id.short();
    let s8 = s7 + "\n    fingerprint  "@;
    let s9 = s8 + Fingerprint::grouped(m.fingerprint@);
    let s10 = s9 + "\n    state        "@;
    let s11 = s10 + m.state@;
    let s12 = s11 + "\n    protocol     v"@;
    let s13 = s12 + text::decimal(crate::PROTOCOL_VERSION as nat);
    let s14 = s13 + "\n    platform     "@;
    let s15 = s14 + m.os@;
    let s16 = s15 + " / "@;
    let s17 = s16 + m.arch@;
    let s18 = s17 + "\n    keyboard     "@;
    let s19 = s18 + m.layout.shown();
    let s20 = s19 + "\n"@;
    let s21 = s20 + composing(m);
    let s = machine_told(m);
    assert(s == s21);
    text::a_text_begins_with_itself(s);
    text::a_shorter_start_is_a_start(s, s20, composing(m));
    text::a_shorter_start_is_a_start(s, s19, "\n"@);
    text::a_shorter_start_is_a_start(s, s18, m.layout.shown());
    text::a_shorter_start_is_a_start(s, s17, "\n    keyboard     "@);
    text::a_shorter_start_is_a_start(s, s16, m.arch@);
    text::a_shorter_start_is_a_start(s, s15, " / "@);
    text::a_shorter_start_is_a_start(s, s14, m.os@);
    text::a_shorter_start_is_a_start(s, s13, "\n    platform     "@);
    text::a_shorter_start_is_a_start(s, s12, text::decimal(crate::PROTOCOL_VERSION as nat));
    text::a_shorter_start_is_a_start(s, s11, "\n    protocol     v"@);
    text::a_shorter_start_is_a_start(s, s10, m.state@);
    text::a_shorter_start_is_a_start(s, s9, "\n    state        "@);
    text::a_shorter_start_is_a_start(s, s8, Fingerprint::grouped(m.fingerprint@));
    text::a_shorter_start_is_a_start(s, s7, "\n    fingerprint  "@);
    text::a_shorter_start_is_a_start(s, s6, m.id.short());
    text::a_shorter_start_is_a_start(s, s5, "\n    id           "@);
    text::a_shorter_start_is_a_start(s, s4, m.name@);
    text::a_shorter_start_is_a_start(s, s3, ")\n    name         "@);
    text::a_shorter_start_is_a_start(s, s2, m.target@);
    text::a_shorter_start_is_a_start(s, s1, " ("@);
    text::a_shorter_start_is_a_start(s, s0, m.version@);
    text::a_first_part_stands_within(s, "seam doctor\n\n  this machine\n    seam         v"@, m.version@, " ("@);
    text::a_part_stands_within(
        s,
        s1,
        " ("@,
        m.target@,
        ")\n    name         "@,
    );
    text::a_part_stands_within(
        s,
        s3,
        ")\n    name         "@,
        m.name@,
        "\n    id           "@,
    );
    text::a_part_stands_within(
        s,
        s5,
        "\n    id           "@,
        m.id.short(),
        "\n    fingerprint  "@,
    );
    text::a_part_stands_within(
        s,
        s7,
        "\n    fingerprint  "@,
        Fingerprint::grouped(m.fingerprint@),
        "\n    state        "@,
    );
    text::a_part_stands_within(
        s,
        s9,
        "\n    state        "@,
        m.state@,
        "\n    protocol     v"@,
    );
    text::a_part_stands_within(
        s,
        s11,
        "\n    protocol     v"@,
        text::decimal(crate::PROTOCOL_VERSION as nat),
        "\n    platform     "@,
    );
    text::a_part_stands_within(
        s,
        s13,
        "\n    platform     "@,
        m.os@,
        " / "@,
    );
    text::a_part_stands_within(
        s,
        s15,
        " / "@,
        m.arch@,
        "\n    keyboard     "@,
    );
    text::a_part_stands_within(
        s,
        s17,
        "\n    keyboard     "@,
        m.layout.shown(),
        "\n"@,
    );
}

/// A display is told by its size, across and then down, where it stands, its scale, and its
/// size on the desk; the main one has a star.
pub proof fn each_measure_of_a_display_is_told_in_its_place(d: Display, scale: Seq<char>, mark: Seq<char>)
    requires
        d.primary ==> mark == "* "@,
        !d.primary ==> mark == "  "@,
    ensures
        text::within(
            display_told(d, scale),
            "    "@ + (mark + text::signed_decimal(d.pixels.width as int)),
        ),
        text::within(
            display_told(d, scale),
            text::signed_decimal(d.pixels.width as int) + ("x"@ + text::signed_decimal(d.pixels.height as int)),
        ),
        text::within(
            display_told(d, scale),
            "x"@ + (text::signed_decimal(d.pixels.height as int) + " at ("@),
        ),
        text::within(
            display_told(d, scale),
            " at ("@ + (text::signed_decimal(d.pixels.x as int) + ","@),
        ),
        text::within(
            display_told(d, scale),
            text::signed_decimal(d.pixels.x as int) + (","@ + text::signed_decimal(d.pixels.y as int)),
        ),
        text::within(
            display_told(d, scale),
            text::signed_decimal(d.pixels.y as int) + (")  "@ + scale),
        ),
        text::within(
            display_told(d, scale),
            scale + ("x  "@ + text::signed_decimal(millimetres(d.width_mm as int))),
        ),
        text::within(
            display_told(d, scale),
            text::signed_decimal(millimetres(d.width_mm as int)) + ("x"@ + text::signed_decimal(millimetres(d.height_mm as int))),
        ),
        text::within(
            display_told(d, scale),
            "x"@ + (text::signed_decimal(millimetres(d.height_mm as int)) + " mm\n"@),
        ),
{
    let s0 = "    "@;
    let s1 = s0 + mark;
    let s2 = s1 + text::signed_decimal(d.pixels.width as int);
    let s3 = s2 + "x"@;
    let s4 = s3 + text::signed_decimal(d.pixels.height as int);
    let s5 = s4 + " at ("@;
    let s6 = s5 + text::signed_decimal(d.pixels.x as int);
    let s7 = s6 + ","@;
    let s8 = s7 + text::signed_decimal(d.pixels.y as int);
    let s9 = s8 + ")  "@;
    let s10 = s9 + scale;
    let s11 = s10 + "x  "@;
    let s12 = s11 + text::signed_decimal(millimetres(d.width_mm as int));
    let s13 = s12 + "x"@;
    let s14 = s13 + text::signed_decimal(millimetres(d.height_mm as int));
    let s15 = s14 + " mm\n"@;
    let s = display_told(d, scale);
    assert(s == s15);
    text::a_text_begins_with_itself(s);
    text::a_shorter_start_is_a_start(s, s14, " mm\n"@);
    text::a_shorter_start_is_a_start(s, s13, text::signed_decimal(millimetres(d.height_mm as int)));
    text::a_shorter_start_is_a_start(s, s12, "x"@);
    text::a_shorter_start_is_a_start(s, s11, text::signed_decimal(millimetres(d.width_mm as int)));
    text::a_shorter_start_is_a_start(s, s10, "x  "@);
    text::a_shorter_start_is_a_start(s, s9, scale);
    text::a_shorter_start_is_a_start(s, s8, ")  "@);
    text::a_shorter_start_is_a_start(s, s7, text::signed_decimal(d.pixels.y as int));
    text::a_shorter_start_is_a_start(s, s6, ","@);
    text::a_shorter_start_is_a_start(s, s5, text::signed_decimal(d.pixels.x as int));
    text::a_shorter_start_is_a_start(s, s4, " at ("@);
    text::a_shorter_start_is_a_start(s, s3, text::signed_decimal(d.pixels.height as int));
    text::a_shorter_start_is_a_start(s, s2, "x"@);
    text::a_shorter_start_is_a_start(s, s1, text::signed_decimal(d.pixels.width as int));
    text::a_shorter_start_is_a_start(s, s0, mark);
    text::a_first_part_stands_within(s, "    "@, mark, text::signed_decimal(d.pixels.width as int));
    text::a_part_stands_within(
        s,
        s1,
        text::signed_decimal(d.pixels.width as int),
        "x"@,
        text::signed_decimal(d.pixels.height as int),
    );
    text::a_part_stands_within(
        s,
        s2,
        "x"@,
        text::signed_decimal(d.pixels.height as int),
        " at ("@,
    );
    text::a_part_stands_within(
        s,
        s4,
        " at ("@,
        text::signed_decimal(d.pixels.x as int),
        ","@,
    );
    text::a_part_stands_within(
        s,
        s5,
        text::signed_decimal(d.pixels.x as int),
        ","@,
        text::signed_decimal(d.pixels.y as int),
    );
    text::a_part_stands_within(
        s,
        s7,
        text::signed_decimal(d.pixels.y as int),
        ")  "@,
        scale,
    );
    text::a_part_stands_within(
        s,
        s9,
        scale,
        "x  "@,
        text::signed_decimal(millimetres(d.width_mm as int)),
    );
    text::a_part_stands_within(
        s,
        s11,
        text::signed_decimal(millimetres(d.width_mm as int)),
        "x"@,
        text::signed_decimal(millimetres(d.height_mm as int)),
    );
    text::a_part_stands_within(
        s,
        s12,
        "x"@,
        text::signed_decimal(millimetres(d.height_mm as int)),
        " mm\n"@,
    );
}

/// A length is told in whole millimetres, towards nothing, and the same on either side of it.
pub proof fn lengths_are_told_in_whole_millimetres(v: int)
    ensures
        millimetres(-v) == -millimetres(v),
        v >= 0 ==> 0 <= v - 64 * millimetres(v) < 64,
{
}

/// Every permission, every paired peer and every display has its line, in order.
pub proof fn everything_has_its_line(
    a: Seq<Grant>,
    b: Seq<Grant>,
    p: Seq<TrustedPeer>,
    q: Seq<TrustedPeer>,
    indent: Seq<char>,
)
    ensures
        grants_told(a + b) == grants_told(a) + grants_told(b),
        peers_told(p + q, indent) == peers_told(p, indent) + peers_told(q, indent),
        a.len() == 1 ==> grants_told(a) == grant_told(a[0]),
        p.len() == 1 ==> peers_told(p, indent) == indent + (store::short_of(p[0].fingerprint.id()) + (
        "  "@ + (p[0].name@ + "\n"@))),
    decreases b.len(), q.len(),
{
    if a.len() == 1 {
        assert(grants_told(a.drop_last()) =~= Seq::<char>::empty());
        assert(a.last() == a[0]);
        assert(grants_told(a) =~= grant_told(a[0]));
    }
    if p.len() == 1 {
        assert(peers_told(p.drop_last(), indent) =~= Seq::<char>::empty());
        assert(p.last() == p[0]);
        assert(peers_told(p, indent) =~= indent + (store::short_of(p[0].fingerprint.id()) + ("  "@
            + (p[0].name@ + "\n"@))));
    }
    if q.len() > 0 {
        everything_has_its_line(a, b, p, q.drop_last(), indent);
        assert((p + q).drop_last() =~= p + q.drop_last());
        assert((p + q).last() == q.last());
        assert(peers_told(p + q, indent) =~= peers_told(p, indent) + peers_told(q, indent));
    } else {
        assert(p + q =~= p);
        assert(peers_told(p, indent) + peers_told(q, indent) =~= peers_told(p, indent));
    }
    if b.len() > 0 {
        everything_has_its_line(a, b.drop_last(), p, q, indent);
        assert((a + b).drop_last() =~= a + b.drop_last());
        assert((a + b).last() == b.last());
        assert(grants_told(a + b) =~= grants_told(a) + grants_told(b));
    } else {
        assert(a + b =~= a);
        assert(grants_told(a) + grants_told(b) =~= grants_told(a));
    }
}

/// A permission is told as granted or, with where to grant it, as missing.
pub proof fn a_missing_permission_is_told_with_where_to_grant_it(g: Grant)
    ensures
        text::begins(grant_told(g), "    "@ + g.what@),
        g.granted ==> text::finishes(grant_told(g), " granted\n"@),
        !g.granted ==> text::finishes(grant_told(g), " NOT GRANTED — "@ + g.where_to@ + "\n"@),
{
    let s = grant_told(g);
    let start = "    "@ + g.what@;
    assert(s.take(start.len() as int) =~= start);
    if g.granted {
        assert(s.skip(s.len() - " granted\n"@.len()) =~= " granted\n"@);
    } else {
        let tail = " NOT GRANTED — "@ + g.where_to@ + "\n"@;
        assert(s.skip(s.len() - tail.len()) =~= tail);
    }
}

/// Whether a permission is granted is what its first entry says; one that is not listed is
/// not granted.
pub proof fn a_permission_is_what_its_entry_says(report: Seq<Grant>, name: Seq<char>, i: int)
    requires
        0 <= i <= report.len(),
        forall|k: int| 0 <= k < i ==> (#[trigger] report[k]).what@ != name,
    ensures
        i < report.len() && report[i].what@ == name ==> granted_in(report, name)
            == report[i].granted,
        i == report.len() ==> !granted_in(report, name),
    decreases i,
{
    if i > 0 {
        let rest = report.skip(1);
        assert(report[0].what@ != name);
        assert forall|k: int| 0 <= k < i - 1 implies (#[trigger] rest[k]).what@ != name by {
            assert(rest[k] == report[k + 1]);
        }
        a_permission_is_what_its_entry_says(rest, name, i - 1);
        if i < report.len() {
            assert(rest[i - 1] == report[i]);
        }
    }
}

/// Input is told to be forwarded just where it can be both seen and withheld, or needs no
/// permission; each permission that is missing is told as its own failure.
pub proof fn forwarding_needs_both_permissions(gs: Vec<Grant>)
    ensures
        ({
            let told = forwarding_told(Some(gs));
            let sees = granted_in(gs@, "capture input"@);
            let withholds = granted_in(gs@, "inject input"@);
            let head = "\n  input forwarding\n"@;
            &&& sees && withholds ==> text::begins(told, head + "    ready"@)
            &&& !sees ==> text::begins(told, head + "    NOT WORKING"@)
            &&& sees && !withholds ==> text::begins(told, head + "    MIRRORS"@)
        }),
        text::begins(forwarding_told(None), "\n  input forwarding\n"@ + "    ready"@),
{
    let head = "\n  input forwarding\n"@;
    let none = "    ready — this platform needs no input permissions\n"@;
    let ready = "    ready — input can be captured, withheld and forwarded\n"@;
    let blind =
        "    NOT WORKING — Input Monitoring is not granted, so seam cannot\n    see input at all. Grant it, then restart seam.\n"@;
    let both =
        "    MIRRORS INSTEAD OF SWITCHING — Accessibility is not granted.\n    seam can see and forward input, but cannot stop this machine\n    acting on it, so the pointer moves here AND on the other screen.\n    Grant System Settings > Privacy & Security > Accessibility,\n    then restart seam. macOS grants this per binary, so a newly\n    downloaded release needs it again.\n"@;
    reveal_strlit("    ready");
    reveal_strlit("    NOT WORKING");
    reveal_strlit("    MIRRORS");
    reveal_strlit("    ready — this platform needs no input permissions\n");
    reveal_strlit("    ready — input can be captured, withheld and forwarded\n");
    reveal_strlit(
        "    NOT WORKING — Input Monitoring is not granted, so seam cannot\n    see input at all. Grant it, then restart seam.\n",
    );
    reveal_strlit(
        "    MIRRORS INSTEAD OF SWITCHING — Accessibility is not granted.\n    seam can see and forward input, but cannot stop this machine\n    acting on it, so the pointer moves here AND on the other screen.\n    Grant System Settings > Privacy & Security > Accessibility,\n    then restart seam. macOS grants this per binary, so a newly\n    downloaded release needs it again.\n",
    );
    starts_behind(head, none, "    ready"@);
    starts_behind(head, ready, "    ready"@);
    starts_behind(head, blind, "    NOT WORKING"@);
    starts_behind(head, both, "    MIRRORS"@);
}

proof fn starts_behind(head: Seq<char>, body: Seq<char>, start: Seq<char>)
    ensures
        start.len() <= body.len() && (forall|k: int|
            0 <= k < start.len() ==> #[trigger] body[k] == start[k]) ==> text::begins(
            head + body,
            head + start,
        ),
{
    if start.len() <= body.len() && (forall|k: int|
        0 <= k < start.len() ==> #[trigger] body[k] == start[k]) {
        assert((head + body).take((head + start).len() as int) =~= head + start);
    }
}

/// The machine that a query means is the first found that it names.
pub proof fn a_query_means_the_first_machine_it_names(
    found: Seq<DiscoveredPeer>,
    query: Seq<char>,
)
    ensures
        match first_named(found, query) {
            Some(i) => 0 <= i < found.len() && names_found(found[i], query) && forall|k: int|
                0 <= k < i ==> !names_found(#[trigger] found[k], query),
            None => forall|k: int| 0 <= k < found.len() ==> !names_found(#[trigger] found[k], query),
        },
    decreases found.len(),
{
    if found.len() > 0 {
        let front = found.drop_last();
        a_query_means_the_first_machine_it_names(front, query);
        match first_named(front, query) {
            Some(i) => {
                assert(front[i] == found[i]);
                assert forall|k: int| 0 <= k < i implies !names_found(#[trigger] found[k], query) by {
                    assert(front[k] == found[k]);
                }
            },
            None => {
                assert forall|k: int| 0 <= k < front.len() implies !names_found(
                    #[trigger] found[k],
                    query,
                ) by {
                    assert(front[k] == found[k]);
                }
            },
        }
    }
}

/// The desktop is told by its width and its height, and where its left upper corner is; the
/// cursor by its `x` and its `y`.
pub proof fn the_desktop_is_told_by_its_size_and_place(
    d: &Desktop,
    scales: Seq<String>,
    x: i32,
    y: i32,
    b: Sides,
)
    requires
        screen::hull(d.displays@) == Some(b),
    ensures
        text::finishes(
            desktop_told(Ok(d), scales, Some((x, y))),
            "    desktop  "@ + text::signed_decimal(b.right - b.left) + "x"@ + text::signed_decimal(
                b.bottom - b.top,
            ) + " at ("@ + text::signed_decimal(b.left) + ","@ + text::signed_decimal(b.top)
                + ")\n"@ + ("    cursor   ("@ + text::signed_decimal(x as int) + ", "@
                + text::signed_decimal(y as int) + ")\n"@),
        ),
{
    let s = desktop_told(Ok(d), scales, Some((x, y)));
    let size = "    desktop  "@ + text::signed_decimal(b.right - b.left) + "x"@
        + text::signed_decimal(b.bottom - b.top) + " at ("@ + text::signed_decimal(b.left) + ","@
        + text::signed_decimal(b.top) + ")\n"@;
    let cursor = "    cursor   ("@ + text::signed_decimal(x as int) + ", "@ + text::signed_decimal(
        y as int,
    ) + ")\n"@;
    let head = "\n  displays\n"@ + displays_told(d.displays@, scales);
    finishes_with(head, size, cursor);
    assert(s =~= head + size + cursor);
}

proof fn finishes_with(head: Seq<char>, a: Seq<char>, b: Seq<char>)
    ensures
        text::finishes(head + a + b, a + b),
{
    let s = head + a + b;
    assert(s.skip(s.len() - (a + b).len()) =~= a + b);
}

/// A licence is told with its holder, and with its last day where it has one.
pub proof fn a_licence_is_told_with_its_holder(l: Licence)
    ensures
        text::begins(licence_told(Some(l)), "  licence       "@ + l.name@ + " ("@),
        l.expires_day == 0 ==> text::finishes(licence_told(Some(l)), "no expiry"@ + ")\n"@),
        l.expires_day != 0 ==> text::finishes(
            licence_told(Some(l)),
            "day "@ + text::decimal(l.expires_day as nat) + ")\n"@,
        ),
        licence_told(None) == "  licence       MISSING — run 'seam activate <your-licence>'\n"@,
{
    let s = licence_told(Some(l));
    let start = "  licence       "@ + l.name@ + " ("@;
    let tail = if l.expires_day == 0 {
        "no expiry"@ + ")\n"@
    } else {
        "day "@ + text::decimal(l.expires_day as nat) + ")\n"@
    };
    assert(s =~= start + tail);
    assert(s.take(start.len() as int) =~= start);
    assert(s.skip(s.len() - tail.len()) =~= tail);
}

} // verus!
