//! What the page shows: recent activity, updates, the machines and this machine's state.
use crate::clipboard::Shares;
use crate::desk::Relation;
use crate::doorbell::PendingPairing;
use crate::fleet::{DiscoveredMachine, Fleet};
use crate::frame::{Edge, PeerId};
use crate::layout::Platform;
use crate::licence::{Licence, LicenceModel};
use crate::{desk, doorbell, licence, text};
use vstd::prelude::*;
use vstd::string::*;

verus! {

// ---------------------------------------------------------------- recent activity
/// What stands behind the first `m`, which ends a colour code.
pub open spec fn behind_m(s: Seq<char>) -> Seq<char>
    decreases s.len(),
{
    if s.len() == 0 {
        s
    } else if s[0] == 'm' {
        s.skip(1)
    } else {
        behind_m(s.skip(1))
    }
}

/// What is behind something is no longer than it.
pub proof fn behind_m_is_shorter(s: Seq<char>)
    ensures
        behind_m(s).len() <= s.len(),
    decreases s.len(),
{
    if s.len() > 0 && s[0] != 'm' {
        behind_m_is_shorter(s.skip(1));
    }
}

/// A line without the colour codes that a log has for terminals.
pub open spec fn colourless(s: Seq<char>) -> Seq<char>
    decreases s.len(),
{
    if s.len() == 0 {
        s
    } else if s[0] == '\u{1b}' {
        proof {
            behind_m_is_shorter(s.skip(1));
        }
        colourless(behind_m(s.skip(1)))
    } else {
        seq![s[0]] + colourless(s.skip(1))
    }
}

/// A line without the colour codes that a log has for terminals.
pub fn strip_ansi(line: &[char]) -> (out: Vec<char>)
    ensures
        out@ == colourless(line@),
{
    let mut out: Vec<char> = Vec::new();
    let mut i: usize = 0;
    proof {
        assert(line@.skip(0) =~= line@);
        assert(out@ + colourless(line@) =~= colourless(line@));
    }
    while i < line.len()
        invariant
            i <= line@.len(),
            out@ + colourless(line@.skip(i as int)) == colourless(line@),
        decreases line.len() - i,
    {
        let ghost here = line@.skip(i as int);
        let ghost so_far = out@;
        let c = line[i];
        proof {
            assert(here.skip(1) =~= line@.skip(i + 1));
        }
        if c == '\u{1b}' {
            i = i + 1;
            let ghost code = line@.skip(i as int);
            let ghost start = i;
            while i < line.len() && line[i] != 'm'
                invariant
                    start <= i <= line@.len(),
                    behind_m(code) == behind_m(line@.skip(i as int)),
                decreases line.len() - i,
            {
                proof {
                    assert(line@.skip(i as int).skip(1) =~= line@.skip(i + 1));
                }
                i = i + 1;
            }
            if i < line.len() {
                proof {
                    assert(line@.skip(i as int).skip(1) =~= line@.skip(i + 1));
                }
                i = i + 1;
            }
            proof {
                assert(behind_m(code) == line@.skip(i as int));
            }
        } else {
            out.push(c);
            i = i + 1;
            proof {
                assert(out@ + colourless(line@.skip(i as int)) =~= so_far + (seq![c] + colourless(
                    line@.skip(i as int),
                )));
            }
        }
    }
    proof {
        assert(line@.skip(i as int) =~= Seq::<char>::empty());
        assert(out@ + Seq::<char>::empty() =~= out@);
    }
    out
}

/// What a person would care about, of all that a log holds.
pub open spec fn interesting(message: Seq<char>) -> bool {
    ||| text::found(message, "moved to this peer"@, 0) is Some
    ||| text::found(message, "back on this machine"@, 0) is Some
    ||| text::found(message, "clipboard received"@, 0) is Some
    ||| text::found(message, "clipboard image received"@, 0) is Some
    ||| text::found(message, "clipboard files received"@, 0) is Some
    ||| text::found(message, "clipboard changed; sharing"@, 0) is Some
    ||| text::found(message, "found and connected"@, 0) is Some
    ||| text::found(message, "peer went away"@, 0) is Some
    ||| text::found(message, "seam is running"@, 0) is Some
    ||| text::found(message, "peer enabled"@, 0) is Some
}

fn is_interesting(message: &[char]) -> (b: bool)
    ensures
        b == interesting(message@),
{
    text::holds(message, "moved to this peer") || text::holds(message, "back on this machine")
        || text::holds(message, "clipboard received") || text::holds(
        message,
        "clipboard image received",
    ) || text::holds(message, "clipboard files received") || text::holds(
        message,
        "clipboard changed; sharing",
    ) || text::holds(message, "found and connected") || text::holds(message, "peer went away")
        || text::holds(message, "seam is running") || text::holds(message, "peer enabled")
}

/// How many bytes a character takes in UTF-8.
pub open spec fn width(c: char) -> int {
    if (c as int) < 0x80 {
        1
    } else if (c as int) < 0x800 {
        2
    } else if (c as int) < 0x1_0000 {
        3
    } else {
        4
    }
}

/// The start of a text that takes exactly so many bytes, if there is one.
pub open spec fn of_width(s: Seq<char>, n: int) -> Option<Seq<char>>
    decreases s.len(),
{
    if n == 0 {
        Some(Seq::empty())
    } else if s.len() == 0 || width(s[0]) > n {
        None
    } else {
        match of_width(s.skip(1), n - width(s[0])) {
            Some(rest) => Some(seq![s[0]] + rest),
            None => None,
        }
    }
}

fn byte_width(c: char) -> (n: usize)
    ensures
        n == width(c),
        1 <= n <= 4,
{
    let n: u32 = c as u32;
    if n < 0x80 {
        1
    } else if n < 0x800 {
        2
    } else if n < 0x1_0000 {
        3
    } else {
        4
    }
}

/// The clock time in a stamp such as `2026-07-25T18:31:21.521281Z`: the eight bytes behind
/// the first `T`.
pub open spec fn clock(stamp: Seq<char>) -> Seq<char> {
    let parts = text::pieces(text::trimmed(stamp), 'T');
    if parts.len() > 1 {
        match of_width(parts[1], 8) {
            Some(t) => t,
            None => Seq::empty(),
        }
    } else {
        Seq::empty()
    }
}

fn clock_of(given: &[char]) -> (t: Vec<char>)
    ensures
        t@ == clock(given@),
{
    let stamp = text::trim(given);
    let parts = text::split(stamp.as_slice(), 'T');
    proof {
        assert(text::views(parts@).len() == parts@.len());
    }
    let mut t: Vec<char> = Vec::new();
    if parts.len() < 2 {
        proof {
            assert(t@ =~= Seq::<char>::empty());
        }
        return t;
    }
    let s = parts[1].as_slice();
    let ghost whole = of_width(s@, 8);
    proof {
        assert(text::views(parts@)[1] == s@);
        assert(s@.skip(0) =~= s@);
        match of_width(s@, 8) {
            Some(rest) => {
                assert(t@ + rest =~= rest);
            },
            None => {},
        }
    }
    let mut left: usize = 8;
    let mut i: usize = 0;
    while left > 0
        invariant
            i <= s@.len(),
            left <= 8,
            whole == match of_width(s@.skip(i as int), left as int) {
                Some(rest) => Some(t@ + rest),
                None => None,
            },
            text::pieces(stamp@, 'T').len() > 1,
            text::pieces(stamp@, 'T')[1] == s@,
            whole == of_width(s@, 8),
            stamp@ == text::trimmed(given@),
        decreases left,
    {
        if i == s.len() {
            let none: Vec<char> = Vec::new();
            proof {
                assert(whole is None);
                assert(none@ =~= Seq::<char>::empty());
            }
            return none;
        }
        let c = s[i];
        let w: usize = byte_width(c);
        proof {
            assert(s@.skip(i as int)[0] == c);
            assert(s@.skip(i as int).skip(1) =~= s@.skip(i + 1));
        }
        if w > left {
            let none: Vec<char> = Vec::new();
            proof {
                assert(whole is None);
                assert(none@ =~= Seq::<char>::empty());
            }
            return none;
        }
        let ghost before = t@;
        t.push(c);
        proof {
            match of_width(s@.skip(i + 1), left - w) {
                Some(rest) => {
                    assert(t@ + rest =~= before + (seq![c] + rest));
                },
                None => {},
            }
        }
        left = left - w;
        i = i + 1;
    }
    proof {
        assert(t@ + Seq::<char>::empty() =~= t@);
    }
    t
}

/// What a line of the log says on the page, if it says anything.
pub open spec fn line_item(line: Seq<char>) -> Option<Seq<char>> {
    match text::cut(colourless(line), " INFO "@) {
        None => None,
        Some((stamp, message)) => if interesting(message) {
            Some(
                "{\"time\":\""@ + clock(stamp) + "\",\"what\":\""@ + text::requoted(
                    text::trimmed(message),
                ) + "\"}"@,
            )
        } else {
            None
        },
    }
}

fn item_of(line: &[char]) -> (r: Option<String>)
    ensures
        match line_item(line@) {
            Some(item) => r is Some && r->0@ == item,
            None => r is None,
        },
{
    let plain = strip_ansi(line);
    let (stamp, message) = text::cut_once(plain.as_slice(), " INFO ")?;
    if !is_interesting(message.as_slice()) {
        return None;
    }
    let time = clock_of(stamp.as_slice());
    let message = text::trim(message.as_slice());
    let message = text::string_of(message.as_slice());
    let mut s = String::from_str("{\"time\":\"");
    s.append(text::string_of(time.as_slice()).as_str());
    s.append("\",\"what\":\"");
    s.append(text::requote(message.as_str()).as_str());
    s.append("\"}");
    Some(s)
}

/// How often a brace opens.
pub open spec fn braces(s: Seq<char>) -> nat
    decreases s.len(),
{
    if s.len() == 0 {
        0
    } else if s.last() == '{' {
        braces(s.drop_last()) + 1
    } else {
        braces(s.drop_last())
    }
}

fn count_braces(s: &str) -> (n: usize)
    ensures
        n == braces(s@),
{
    let chars = text::chars_of(s);
    let mut n: usize = 0;
    let mut i: usize = 0;
    while i < chars.len()
        invariant
            i <= chars@.len(),
            n <= i,
            n == braces(chars@.take(i as int)),
        decreases chars.len() - i,
    {
        proof {
            let next = chars@.take(i + 1);
            assert(next.drop_last() =~= chars@.take(i as int));
            assert(next.last() == chars@[i as int]);
        }
        if chars[i] == '{' {
            n = n + 1;
        }
        i = i + 1;
    }
    proof {
        assert(chars@.take(chars@.len() as int) =~= chars@);
    }
    n
}

/// What some lines, newest first, add to what is on the page: until eight braces opened.
pub open spec fn told(lines: Seq<Seq<char>>, so_far: Seq<char>) -> Seq<char>
    decreases lines.len(),
{
    if lines.len() == 0 || braces(so_far) >= 8 {
        so_far
    } else {
        told(
            lines.skip(1),
            match line_item(lines[0]) {
                None => so_far,
                Some(item) => if so_far.len() == 0 {
                    item
                } else {
                    so_far.push(',') + item
                },
            },
        )
    }
}

/// The newest of some lines, newest first, four hundred at most.
pub open spec fn newest(lines: Seq<Seq<char>>) -> Seq<Seq<char>> {
    let n = lines.len() as int;
    Seq::new(
        if n < 400 {
            lines.len()
        } else {
            400
        },
        |i: int| lines[n - 1 - i],
    )
}

/// The last few things that happened, from the log that is written anyway.
pub fn recent_activity(log: &str) -> (out: String)
    ensures
        out@ == told(newest(text::lines_of(log@)), Seq::empty()),
{
    let chars = text::chars_of(log);
    let lines = text::lines(chars.as_slice());
    let ghost all = text::views(lines@);
    let ghost recent = newest(all);
    let n: usize = lines.len();
    let mut out = String::new();
    let mut i: usize = 0;
    proof {
        assert(all.len() == n);
        assert(out@ =~= Seq::<char>::empty());
        assert(recent.skip(0) =~= recent);
    }
    while i < n && i < 400 && count_braces(out.as_str()) < 8
        invariant
            i <= n,
            i <= 400,
            n == lines@.len(),
            all == text::views(lines@),
            recent == newest(all),
            told(recent, Seq::empty()) == told(recent.skip(i as int), out@),
        decreases n - i,
    {
        let line = lines[n - 1 - i].as_slice();
        let ghost here = recent.skip(i as int);
        let ghost before = out@;
        proof {
            assert(all[n - 1 - i] == line@);
            assert(here.len() > 0 && here[0] == line@);
            assert(here.skip(1) =~= recent.skip(i + 1));
        }
        if let Some(item) = item_of(line) {
            if !out.as_str().is_empty() {
                out.append(",");
            }
            out.append(item.as_str());
            proof {
                reveal_strlit(",");
                if before.len() == 0 {
                    assert(out@ =~= item@);
                } else {
                    assert(out@ =~= before.push(',') + item@);
                }
            }
        }
        i = i + 1;
    }
    proof {
        if i >= n || i >= 400 {
            assert(recent.skip(i as int).len() == 0);
        }
    }
    out
}

// ---------------------------------------------------------------- notifications
/// A text without the characters that AppleScript would trip over, in quotes.
pub open spec fn applescript(s: Seq<char>) -> Seq<char> {
    seq!['"'] + plain_of(s) + seq!['"']
}

/// A text without backslashes and double quotes.
pub open spec fn plain_of(s: Seq<char>) -> Seq<char>
    decreases s.len(),
{
    if s.len() == 0 {
        Seq::empty()
    } else if s.last() == '\\' || s.last() == '"' {
        plain_of(s.drop_last())
    } else {
        plain_of(s.drop_last()).push(s.last())
    }
}

/// Quote a text for AppleScript.
pub fn applescript_string(s: &str) -> (r: String)
    ensures
        r@ == applescript(s@),
{
    let chars = text::chars_of(s);
    let mut out: Vec<char> = Vec::new();
    out.push('"');
    let mut i: usize = 0;
    proof {
        assert(out@ =~= seq!['"'] + plain_of(chars@.take(0)));
    }
    while i < chars.len()
        invariant
            i <= chars@.len(),
            out@ == seq!['"'] + plain_of(chars@.take(i as int)),
        decreases chars.len() - i,
    {
        let c = chars[i];
        let ghost before = plain_of(chars@.take(i as int));
        proof {
            let next = chars@.take(i + 1);
            assert(next.drop_last() =~= chars@.take(i as int));
            assert(next.last() == c);
        }
        if c != '\\' && c != '"' {
            out.push(c);
            proof {
                assert(out@ =~= seq!['"'] + before.push(c));
            }
        }
        i = i + 1;
    }
    proof {
        assert(chars@.take(chars@.len() as int) =~= chars@);
    }
    out.push('"');
    proof {
        assert(out@ =~= applescript(s@));
    }
    text::string_of(out.as_slice())
}

/// The script that shows a notification on a Mac.
pub fn notification_script(title: &str, body: &str) -> (s: String)
    ensures
        s@ == "display notification "@ + applescript(body@) + " with title "@ + applescript(title@),
{
    let mut s = String::from_str("display notification ");
    s.append(applescript_string(body).as_str());
    s.append(" with title ");
    s.append(applescript_string(title).as_str());
    s
}

/// A text without its single quotes.
pub open spec fn unquoted(s: Seq<char>) -> Seq<char>
    decreases s.len(),
{
    if s.len() == 0 {
        Seq::empty()
    } else if s.last() == '\'' {
        unquoted(s.drop_last())
    } else {
        unquoted(s.drop_last()).push(s.last())
    }
}

/// What a notification says on Windows, where it stands in single quotes.
pub fn toast_text(title: &str, body: &str) -> (s: String)
    ensures
        s@ == unquoted(title@ + " — "@ + body@),
{
    let whole = text::plus(text::plus(title.to_owned(), " — "), body);
    let chars = text::chars_of(whole.as_str());
    let mut out: Vec<char> = Vec::new();
    let mut i: usize = 0;
    proof {
        assert(out@ =~= unquoted(chars@.take(0)));
    }
    while i < chars.len()
        invariant
            i <= chars@.len(),
            out@ == unquoted(chars@.take(i as int)),
        decreases chars.len() - i,
    {
        let c = chars[i];
        proof {
            let next = chars@.take(i + 1);
            assert(next.drop_last() =~= chars@.take(i as int));
            assert(next.last() == c);
        }
        if c != '\'' {
            out.push(c);
        }
        i = i + 1;
    }
    proof {
        assert(chars@.take(chars@.len() as int) =~= chars@);
    }
    text::string_of(out.as_slice())
}

/// Nothing a notification on Windows says can end the quotes it stands in.
pub proof fn a_toast_stays_in_its_quotes(s: Seq<char>)
    ensures
        !unquoted(s).contains('\''),
    decreases s.len(),
{
    if s.len() > 0 {
        a_toast_stays_in_its_quotes(s.drop_last());
        let rest = unquoted(s.drop_last());
        let all = unquoted(s);
        if all.contains('\'') {
            let i = choose|i: int| 0 <= i < all.len() && all[i] == '\'';
            if i < rest.len() {
                assert(rest[i] == '\'');
            }
        }
    }
}

/// Nothing a notification says can end the quotes it stands in.
pub proof fn a_notification_stays_in_its_quotes(s: Seq<char>)
    ensures
        !plain_of(s).contains('"'),
        !plain_of(s).contains('\\'),
    decreases s.len(),
{
    if s.len() > 0 {
        a_notification_stays_in_its_quotes(s.drop_last());
        let rest = plain_of(s.drop_last());
        let all = plain_of(s);
        if all.contains('"') {
            let i = choose|i: int| 0 <= i < all.len() && all[i] == '"';
            if i < rest.len() {
                assert(rest[i] == '"');
            }
        }
        if all.contains('\\') {
            let i = choose|i: int| 0 <= i < all.len() && all[i] == '\\';
            if i < rest.len() {
                assert(rest[i] == '\\');
            }
        }
    }
}

// ---------------------------------------------------------------- updates
/// The text of a field in what the releases page answered, however it is spaced.
pub open spec fn field_in(body: Seq<char>, key: Seq<char>) -> Option<Seq<char>> {
    match text::found(body, "\""@ + key + "\""@, 0) {
        None => None,
        Some(at) => match text::found(body, ":"@, at) {
            None => None,
            Some(colon) => match text::found(body, "\""@, colon) {
                None => None,
                Some(open) => match text::found(body, "\""@, open + 1) {
                    None => None,
                    Some(end) => Some(body.subrange(open + 1, end)),
                },
            },
        },
    }
}

/// The text of a field in what the releases page answered.
pub fn release_field(body: &[char], key: &str) -> (r: Option<String>)
    ensures
        match field_in(body@, key@) {
            Some(v) => r is Some && r->0@ == v,
            None => r is None,
        },
{
    let mut name = String::from_str("\"");
    name.append(key);
    name.append("\"");
    let name = text::chars_of(name.as_str());
    let colon = text::chars_of(":");
    let quote = text::chars_of("\"");
    proof {
        reveal_strlit("\"");
        reveal_strlit(":");
    }
    let len: usize = body.len();
    let at = text::find(body, name.as_slice(), 0)?;
    let colon_at = text::find(body, colon.as_slice(), at)?;
    let open = text::find(body, quote.as_slice(), colon_at)?;
    let end = text::find(body, quote.as_slice(), open + 1)?;
    let v = text::copy_range(body, open + 1, end);
    Some(text::string_of(v.as_slice()))
}

/// What the last look at the releases page found.
#[derive(PartialEq, Eq, Debug)]
pub struct Release {
    pub latest: String,
    pub published: String,
    pub tag: String,
}

/// A release as a value.
pub struct ReleaseModel {
    pub latest: Seq<char>,
    pub published: Seq<char>,
    pub tag: Seq<char>,
}

impl View for Release {
    type V = ReleaseModel;

    open spec fn view(&self) -> ReleaseModel {
        ReleaseModel { latest: self.latest@, published: self.published@, tag: self.tag@ }
    }
}

/// What the releases page says is the newest release, if it says so.
pub open spec fn release_in(body: Seq<char>) -> Option<ReleaseModel> {
    match field_in(body, "tag_name"@) {
        None => None,
        Some(tag) => Some(
            ReleaseModel {
                latest: text::unprefixed(tag, "v"@),
                published: match field_in(body, "published_at"@) {
                    Some(p) => p,
                    None => Seq::empty(),
                },
                tag,
            },
        ),
    }
}

/// What the releases page says is the newest release.
pub fn read_release(body: &str) -> (r: Option<Release>)
    ensures
        match release_in(body@) {
            Some(m) => r is Some && r->0@ == m,
            None => r is None,
        },
{
    let chars = text::chars_of(body);
    let tag = release_field(chars.as_slice(), "tag_name")?;
    let published = match release_field(chars.as_slice(), "published_at") {
        Some(p) => p,
        None => String::new(),
    };
    let tag_chars = text::chars_of(tag.as_str());
    let latest = text::without_prefix(tag_chars.as_slice(), "v");
    let r = Release { latest: text::string_of(latest.as_slice()), published, tag };
    proof {
        assert(r@.published =~= release_in(body@)->0.published);
    }
    Some(r)
}

/// Whether to tell the person of a release: it is not what is running, and it is not what
/// was told before. A page nobody has open cannot tell anyone anything, and saying it every
/// hour would be a bad neighbour.
pub fn worth_telling(latest: &str, running: &str, told_before: Option<&str>) -> (b: bool)
    ensures
        b == (latest@ != running@ && !(told_before matches Some(seen) && seen@ == latest@)),
{
    if text::same(latest, running) {
        return false;
    }
    match told_before {
        Some(seen) => !text::same(seen, latest),
        None => true,
    }
}

/// Where releases are.
pub open spec fn releases() -> Seq<char> {
    "https://github.com/amor-openmind/seam-releases/releases"@
}

/// The file of a release that is for this kind of system.
pub fn release_asset(platform: Platform) -> (s: &'static str)
    ensures
        s@ == if platform is Windows {
            "seam.exe"@
        } else {
            "seam-macos-arm64"@
        },
{
    if platform == Platform::Windows {
        "seam.exe"
    } else {
        "seam-macos-arm64"
    }
}

/// What the page shows of the newest release, with the links a person would follow.
pub open spec fn release_shown(r: Option<ReleaseModel>, asset: Seq<char>) -> Seq<char> {
    match r {
        None => "null"@,
        Some(m) => "{\"latest\":\""@ + m.latest + "\",\"published\":\""@ + text::pieces(
            m.published,
            'T',
        )[0] + "\",\"page\":\""@ + releases() + "/tag/"@ + m.tag + "\",\"asset\":\""@ + releases()
            + "/download/"@ + m.tag + "/"@ + asset + "\",\"checked\":\"just now\"}"@,
    }
}

/// What the page shows of the newest release.
pub fn update_json(release: &Option<Release>, asset: &str) -> (s: String)
    ensures
        s@ == release_shown(
            match *release {
                Some(r) => Some(r@),
                None => None,
            },
            asset@,
        ),
{
    match release {
        None => String::from_str("null"),
        Some(r) => {
            let published = text::chars_of(r.published.as_str());
            let parts = text::split(published.as_slice(), 'T');
            proof {
                assert(text::views(parts@)[0] == parts@[0]@);
            }
            let day = text::string_of(parts[0].as_slice());
            let mut s = String::from_str("{\"latest\":\"");
            s.append(r.latest.as_str());
            s.append("\",\"published\":\"");
            s.append(day.as_str());
            s.append("\",\"page\":\"");
            s.append("https://github.com/amor-openmind/seam-releases/releases");
            s.append("/tag/");
            s.append(r.tag.as_str());
            s.append("\",\"asset\":\"");
            s.append("https://github.com/amor-openmind/seam-releases/releases");
            s.append("/download/");
            s.append(r.tag.as_str());
            s.append("/");
            s.append(asset);
            s.append("\",\"checked\":\"just now\"}");
            s
        },
    }
}

// ---------------------------------------------------------------- the machines
/// What a machine that captures input is called, and one that only replays it.
pub open spec fn role_word(shares: bool) -> Seq<char> {
    if shares {
        "shares input"@
    } else {
        "receives input"@
    }
}

/// Where a machine was placed.
pub open spec fn placed_at(places: Seq<(PeerId, Edge)>, peer: PeerId) -> Option<Edge>
    decreases places.len(),
{
    if places.len() == 0 {
        None
    } else {
        match placed_at(places.drop_last(), peer) {
            Some(e) => Some(e),
            None => if places.last().0 == peer {
                Some(places.last().1)
            } else {
                None
            },
        }
    }
}

proof fn placed_at_stays(places: Seq<(PeerId, Edge)>, peer: PeerId, n: int)
    requires
        0 <= n <= places.len(),
        placed_at(places.take(n), peer) is Some,
    ensures
        placed_at(places, peer) == placed_at(places.take(n), peer),
    decreases places.len() - n,
{
    if n < places.len() {
        assert(places.take(n + 1).drop_last() =~= places.take(n));
        placed_at_stays(places, peer, n + 1);
    } else {
        assert(places.take(n) =~= places);
    }
}

fn find_place(places: &Vec<(PeerId, Edge)>, peer: PeerId) -> (r: Option<Edge>)
    ensures
        r == placed_at(places@, peer),
{
    let mut i: usize = 0;
    while i < places.len()
        invariant
            i <= places@.len(),
            placed_at(places@.take(i as int), peer) is None,
        decreases places.len() - i,
    {
        proof {
            let next = places@.take(i + 1);
            assert(next.drop_last() =~= places@.take(i as int));
            assert(next.last() == places@[i as int]);
        }
        if places[i].0.same(&peer) {
            proof {
                placed_at_stays(places@, peer, i + 1);
            }
            return Some(places[i].1);
        }
        i = i + 1;
    }
    proof {
        assert(places@.take(places@.len() as int) =~= places@);
    }
    None
}

/// The version a machine said it runs; nothing where it did not say.
pub open spec fn version_of(versions: Seq<(PeerId, String)>, peer: PeerId) -> Seq<char>
    decreases versions.len(),
{
    if versions.len() == 0 {
        Seq::empty()
    } else if versions[0].0 == peer {
        versions[0].1@
    } else {
        version_of(versions.skip(1), peer)
    }
}

fn find_version(versions: &Vec<(PeerId, String)>, peer: PeerId) -> (s: String)
    ensures
        s@ == version_of(versions@, peer),
{
    let mut i: usize = 0;
    proof {
        assert(versions@.skip(0) =~= versions@);
    }
    while i < versions.len()
        invariant
            i <= versions@.len(),
            version_of(versions@, peer) == version_of(versions@.skip(i as int), peer),
        decreases versions.len() - i,
    {
        proof {
            assert(versions@.skip(i as int).skip(1) =~= versions@.skip(i + 1));
        }
        if versions[i].0.same(&peer) {
            return versions[i].1.as_str().to_owned();
        }
        i = i + 1;
    }
    let s = String::new();
    proof {
        assert(s@ =~= Seq::<char>::empty());
    }
    s
}

/// What the page says about where a machine is and what it does.
#[derive(PartialEq, Eq, Debug)]
pub struct Facts {
    pub edge: String,
    pub anchor: String,
    pub role: String,
    pub enabled: bool,
}

/// The same, as a value.
pub struct FactsModel {
    pub edge: Seq<char>,
    pub anchor: Seq<char>,
    pub role: Seq<char>,
    pub enabled: bool,
}

impl View for Facts {
    type V = FactsModel;

    open spec fn view(&self) -> FactsModel {
        FactsModel {
            edge: self.edge@,
            anchor: self.anchor@,
            role: self.role@,
            enabled: self.enabled,
        }
    }
}

/// What the page says about where a machine is and what it does.
///
/// The arrangement is what a person set, and only where nobody set any, what it came to:
/// a machine whose neighbour sleeps is placed somewhere else meanwhile, and showing that
/// would look like the desk rearranging itself.
pub open spec fn facts_of(layout: Seq<Relation>, fleet: Fleet, peer: PeerId) -> FactsModel {
    let chosen = desk::first_relation(desk::models(layout), peer.short());
    FactsModel {
        edge: match chosen {
            Some(r) => desk::edge_word(r.edge),
            None => match placed_at(fleet.places@, peer) {
                Some(e) => desk::edge_word(e),
                None => Seq::empty(),
            },
        },
        anchor: match chosen {
            Some(r) => r.anchor,
            None => "self"@,
        },
        role: role_word(fleet.sharers@.contains(peer)),
        enabled: !fleet.disabled@.contains(peer),
    }
}

/// What the page says about where a machine is and what it does.
pub fn peer_facts(layout: &Vec<Relation>, fleet: &Fleet, peer: PeerId) -> (f: Facts)
    ensures
        f@ == facts_of(layout@, *fleet, peer),
{
    let (edge, anchor) = match desk::find_relation(layout, &peer) {
        Some(i) => {
            proof {
                assert(layout@[i as int]@.edge == layout@[i as int].edge);
                assert(layout@[i as int]@.anchor == layout@[i as int].anchor@);
            }
            (
                desk::word_for(layout[i].edge).to_owned(),
                layout[i].anchor.as_str().to_owned(),
            )
        },
        None => {
            let edge = match find_place(&fleet.places, peer) {
                Some(e) => desk::word_for(e).to_owned(),
                None => String::new(),
            };
            proof {
                if placed_at(fleet.places@, peer) is None {
                    assert(edge@ =~= Seq::<char>::empty());
                }
            }
            (edge, String::from_str("self"))
        },
    };
    let role = if desk::holds(&fleet.sharers, &peer) {
        String::from_str("shares input")
    } else {
        String::from_str("receives input")
    };
    Facts { edge, anchor, role, enabled: fleet.is_enabled(peer) }
}

/// A connected machine, as its link knows it.
#[derive(PartialEq, Eq, Debug)]
pub struct Connected {
    pub peer: PeerId,
    /// Its address, as printed.
    pub addr: String,
    /// The measured round trip of the path its input rides, in milliseconds.
    pub rtt_ms: u64,
}

/// What the page shows of a connected machine.
pub open spec fn peer_shown(
    peer: PeerId,
    addr: Seq<char>,
    rtt_ms: nat,
    facts: FactsModel,
    version: Seq<char>,
) -> Seq<char> {
    "{\"id\":\""@ + peer.short() + "\",\"name\":\""@ + peer.short() + "\",\"addr\":\""@ + addr
        + "\",\"edge\":\""@ + facts.edge + "\",\"anchor\":\""@ + facts.anchor
        + "\",\"role\":\""@ + facts.role + "\",\"enabled\":"@ + text::truth(facts.enabled)
        + ",\"version\":\""@ + version + "\",\"rtt_ms\":"@ + text::decimal(rtt_ms) + "}"@
}

/// What the page shows of each connected machine.
pub open spec fn peers_shown(links: Seq<Connected>, layout: Seq<Relation>, fleet: Fleet) -> Seq<
    Seq<char>,
> {
    Seq::new(
        links.len(),
        |i: int|
            peer_shown(
                links[i].peer,
                links[i].addr@,
                links[i].rtt_ms as nat,
                facts_of(layout, fleet, links[i].peer),
                version_of(fleet.versions@, links[i].peer),
            ),
    )
}

/// What the page shows of the connected machines.
pub fn peers_json(links: &Vec<Connected>, layout: &Vec<Relation>, fleet: &Fleet) -> (s: String)
    ensures
        s@ == text::listed(peers_shown(links@, layout@, *fleet)),
{
    let mut list = String::new();
    let ghost all = peers_shown(links@, layout@, *fleet);
    let mut i: usize = 0;
    proof {
        assert(list@ =~= text::listed(all.take(0)));
        reveal_strlit("{\"id\":\"");
    }
    while i < links.len()
        invariant
            i <= links@.len(),
            all == peers_shown(links@, layout@, *fleet),
            list@ == text::listed(all.take(i as int)),
            forall|k: int| 0 <= k < all.len() ==> (#[trigger] all[k]).len() > 0,
        decreases links.len() - i,
    {
        let link = &links[i];
        let id = link.peer.to_short_string();
        let facts = peer_facts(layout, fleet, link.peer);
        let mut row = String::from_str("{\"id\":\"");
        row.append(id.as_str());
        row.append("\",\"name\":\"");
        row.append(id.as_str());
        row.append("\",\"addr\":\"");
        row.append(link.addr.as_str());
        row.append("\",\"edge\":\"");
        row.append(facts.edge.as_str());
        row.append("\",\"anchor\":\"");
        row.append(facts.anchor.as_str());
        row.append("\",\"role\":\"");
        row.append(facts.role.as_str());
        row.append("\",\"enabled\":");
        row.append(text::truth_text(facts.enabled));
        row.append(",\"version\":\"");
        row.append(find_version(&fleet.versions, link.peer).as_str());
        row.append("\",\"rtt_ms\":");
        row.append(text::decimal_text(link.rtt_ms).as_str());
        row.append("}");
        proof {
            assert(row@ == all[i as int]);
            assert(all.take(i + 1) =~= all.take(i as int).push(row@));
        }
        text::push_listed(&mut list, Ghost(all.take(i as int)), row.as_str());
        i = i + 1;
    }
    proof {
        assert(all.take(all.len() as int) =~= all);
    }
    list
}

/// What the page shows of a machine in sight.
pub open spec fn machine_shown(m: DiscoveredMachine) -> Seq<char> {
    "{\"id\":\""@ + text::requoted(m.short@) + "\",\"addr\":\""@ + m.addr@ + "\",\"trusted\":"@
        + text::truth(m.trusted) + "}"@
}

/// What the page shows of the machines in sight.
pub fn discovered_json(seen: &Vec<DiscoveredMachine>) -> (s: String)
    ensures
        s@ == text::listed(Seq::new(seen@.len(), |i: int| machine_shown(seen@[i]))),
{
    let mut list = String::new();
    let ghost all = Seq::new(seen@.len(), |i: int| machine_shown(seen@[i]));
    let mut i: usize = 0;
    proof {
        assert(list@ =~= text::listed(all.take(0)));
        reveal_strlit("{\"id\":\"");
    }
    while i < seen.len()
        invariant
            i <= seen@.len(),
            all == Seq::new(seen@.len(), |i: int| machine_shown(seen@[i])),
            list@ == text::listed(all.take(i as int)),
            forall|k: int| 0 <= k < all.len() ==> (#[trigger] all[k]).len() > 0,
        decreases seen.len() - i,
    {
        let m = &seen[i];
        let mut row = String::from_str("{\"id\":\"");
        row.append(text::requote(m.short.as_str()).as_str());
        row.append("\",\"addr\":\"");
        row.append(m.addr.as_str());
        row.append("\",\"trusted\":");
        row.append(text::truth_text(m.trusted));
        row.append("}");
        proof {
            assert(row@ == all[i as int]);
            assert(all.take(i + 1) =~= all.take(i as int).push(row@));
        }
        text::push_listed(&mut list, Ghost(all.take(i as int)), row.as_str());
        i = i + 1;
    }
    proof {
        assert(all.take(all.len() as int) =~= all);
    }
    list
}

/// The machines in sight and the pairing under way, as the page shows them.
pub fn pairing_state_json(seen: &Vec<DiscoveredMachine>, slot: &Option<PendingPairing>) -> (r: (
    String,
    String,
))
    ensures
        r.0@ == text::listed(Seq::new(seen@.len(), |i: int| machine_shown(seen@[i]))),
        r.1@ == doorbell::pairing_shown(doorbell::pending_model(*slot)),
{
    (discovered_json(seen), doorbell::pairing_json(slot))
}

// ---------------------------------------------------------------- health
/// One thing that works or does not.
#[derive(PartialEq, Eq, Debug)]
pub struct Health {
    pub ok: bool,
    pub text: &'static str,
}

/// What the page shows of one thing that works or does not.
pub open spec fn health_shown(h: Health) -> Seq<char> {
    "{\"ok\":"@ + text::truth(h.ok) + ",\"text\":\""@ + h.text@ + "\"}"@
}

/// What works on this machine: its permissions, its capture, its rights.
pub fn health(
    grants: &Option<Vec<bool>>,
    capture_alive: Option<Option<bool>>,
    elevated: Option<bool>,
) -> (r: Vec<Health>)
    ensures
        ({
            let first = match *grants {
                Some(g) => g@.len(),
                None => 0,
            };
            let second = match capture_alive {
                Some(_) => 2nat,
                None => 0,
            };
            let third = match elevated {
                Some(_) => 1nat,
                None => 0,
            };
            &&& r@.len() == first + second + third
            &&& forall|i: int|
                0 <= i < first ==> (#[trigger] r@[i]).ok == grants->0@[i] && r@[i].text@ == (
                if grants->0@[i] {
                    "granted"@
                } else {
                    "missing — see doctor"@
                })
            &&& capture_alive matches Some(alive) ==> {
                &&& r@[first as int].ok
                &&& r@[first as int].text@ == "window server granted"@
                &&& r@[(first + 1) as int].ok == (alive != Some(false))
                &&& r@[(first + 1) as int].text@ == "alive"@
            }
            &&& elevated matches Some(e) ==> {
                let at = (first + second) as int;
                &&& r@[at].ok == e
                &&& r@[at].text@ == if e {
                    "elevated"@
                } else {
                    "not elevated — see doctor"@
                }
            }
        }),
{
    let mut r: Vec<Health> = Vec::new();
    match grants {
        Some(g) => {
            let mut i: usize = 0;
            while i < g.len()
                invariant
                    i <= g@.len(),
                    *grants == Some(*g),
                    r@.len() == i,
                    forall|k: int|
                        0 <= k < i ==> (#[trigger] r@[k]).ok == g@[k] && r@[k].text@ == (if g@[k] {
                            "granted"@
                        } else {
                            "missing — see doctor"@
                        }),
                decreases g.len() - i,
            {
                let granted = g[i];
                r.push(
                    Health {
                        ok: granted,
                        text: if granted {
                            "granted"
                        } else {
                            "missing — see doctor"
                        },
                    },
                );
                i = i + 1;
            }
        },
        None => {},
    }
    match capture_alive {
        Some(alive) => {
            r.push(Health { ok: true, text: "window server granted" });
            let ok = match alive {
                Some(a) => a,
                None => true,
            };
            r.push(Health { ok, text: "alive" });
        },
        None => {},
    }
    match elevated {
        Some(e) => {
            r.push(
                Health {
                    ok: e,
                    text: if e {
                        "elevated"
                    } else {
                        "not elevated — see doctor"
                    },
                },
            );
        },
        None => {},
    }
    r
}

/// What the page shows of this machine's health.
pub fn health_json(health: &Vec<Health>) -> (s: String)
    ensures
        s@ == text::listed(Seq::new(health@.len(), |i: int| health_shown(health@[i]))),
{
    let mut list = String::new();
    let ghost all = Seq::new(health@.len(), |i: int| health_shown(health@[i]));
    let mut i: usize = 0;
    proof {
        assert(list@ =~= text::listed(all.take(0)));
        reveal_strlit("{\"ok\":");
    }
    while i < health.len()
        invariant
            i <= health@.len(),
            all == Seq::new(health@.len(), |i: int| health_shown(health@[i])),
            list@ == text::listed(all.take(i as int)),
            forall|k: int| 0 <= k < all.len() ==> (#[trigger] all[k]).len() > 0,
        decreases health.len() - i,
    {
        let mut row = String::from_str("{\"ok\":");
        row.append(text::truth_text(health[i].ok));
        row.append(",\"text\":\"");
        row.append(health[i].text);
        row.append("\"}");
        proof {
            assert(row@ == all[i as int]);
            assert(all.take(i + 1) =~= all.take(i as int).push(row@));
        }
        text::push_listed(&mut list, Ghost(all.take(i as int)), row.as_str());
        i = i + 1;
    }
    proof {
        assert(all.take(all.len() as int) =~= all);
    }
    list
}

// ---------------------------------------------------------------- the state
/// What this machine calls itself. A build that cannot capture input says so; one that can
/// is the server of its fleet unless it joined another's.
pub fn own_role(platform: Platform, first_machine: bool) -> (s: &'static str)
    ensures
        s@ == if !(platform is MacOs) {
            "receives input"@
        } else if first_machine {
            "shares input"@
        } else {
            "receives input, joined this fleet"@
        },
{
    if platform != Platform::MacOs {
        "receives input"
    } else if first_machine {
        "shares input"
    } else {
        "receives input, joined this fleet"
    }
}

/// What the page needs to know of this machine.
pub struct PageState {
    pub version: String,
    pub name: String,
    pub id: PeerId,
    pub os: String,
    pub arch: String,
    pub role: String,
    pub ui_port: u16,
    pub seam_port: u16,
    /// This machine's address on the network, where it has one.
    pub lan: String,
    /// What the clipboard last did, and to what.
    pub transfer: Option<(String, String)>,
    pub shares: Shares,
    pub startup: bool,
    pub licence: Option<Licence>,
    pub release: Option<Release>,
    pub asset: String,
    /// What recently happened.
    pub activity: String,
    pub links: Vec<Connected>,
    pub layout: Vec<Relation>,
    pub health: Vec<Health>,
    pub seen: Vec<DiscoveredMachine>,
    pub pairing: Option<PendingPairing>,
}

/// Which machine the page shows as holding the pointer.
pub open spec fn focus_shown(focus: Option<PeerId>) -> Seq<char> {
    match focus {
        Some(id) => id.short(),
        None => "local"@,
    }
}

/// What the page shows of the last transfer.
pub open spec fn transfer_shown(t: Option<(String, String)>) -> Seq<char> {
    match t {
        Some((what, detail)) => "{\"what\":\""@ + what@ + "\",\"detail\":\""@ + detail@ + "\"}"@,
        None => "null"@,
    }
}

/// What the page shows.
pub open spec fn state_shown(p: PageState, fleet: Fleet) -> Seq<char> {
    "{\"version\":\""@ + p.version@ + "\",\"name\":\""@ + text::requoted(p.name@)
        + "\",\"id\":\""@ + p.id.short() + "\",\"platform\":\""@ + p.os@ + "/"@ + p.arch@
        + "\",\"role\":\""@ + p.role@ + "\",\"port\":"@ + text::decimal(p.ui_port as nat)
        + ",\"seamPort\":"@ + text::decimal(p.seam_port as nat) + ",\"lan\":\""@ + p.lan@
        + "\",\"focus\":\""@ + focus_shown(fleet.focus) + "\",\"transfer\":"@ + transfer_shown(
        p.transfer,
    ) + ",\"shares\":{\"text\":"@ + text::truth(p.shares.text) + ",\"images\":"@ + text::truth(
        p.shares.images,
    ) + ",\"files\":"@ + text::truth(p.shares.files) + "},\"startup\":"@ + text::truth(p.startup)
        + ",\"licence\":"@ + licence::licence_shown(
        match p.licence {
            Some(l) => Some(l@),
            None => None,
        },
    ) + ",\"update\":"@ + release_shown(
        match p.release {
            Some(r) => Some(r@),
            None => None,
        },
        p.asset@,
    ) + ",\"activity\":["@ + p.activity@ + "],\"peers\":["@ + text::listed(
        peers_shown(p.links@, p.layout@, fleet),
    ) + "],\"health\":["@ + text::listed(
        Seq::new(p.health@.len(), |i: int| health_shown(p.health@[i])),
    ) + "],\"discovered\":["@ + text::listed(
        Seq::new(p.seen@.len(), |i: int| machine_shown(p.seen@[i])),
    ) + "],\"pairing\":"@ + doorbell::pairing_shown(doorbell::pending_model(p.pairing)) + "}"@
}

/// What the page shows.
pub fn ui_state_json(p: &PageState, fleet: &Fleet) -> (s: String)
    ensures
        s@ == state_shown(*p, *fleet),
{
    let mut s = String::from_str("{\"version\":\"");
    s.append(p.version.as_str());
    s.append("\",\"name\":\"");
    s.append(text::requote(p.name.as_str()).as_str());
    s.append("\",\"id\":\"");
    s.append(p.id.to_short_string().as_str());
    s.append("\",\"platform\":\"");
    s.append(p.os.as_str());
    s.append("/");
    s.append(p.arch.as_str());
    s.append("\",\"role\":\"");
    s.append(p.role.as_str());
    s.append("\",\"port\":");
    s.append(text::decimal_text(p.ui_port as u64).as_str());
    s.append(",\"seamPort\":");
    s.append(text::decimal_text(p.seam_port as u64).as_str());
    s.append(",\"lan\":\"");
    s.append(p.lan.as_str());
    s.append("\",\"focus\":\"");
    match &fleet.focus {
        Some(id) => s.append(id.to_short_string().as_str()),
        None => s.append("local"),
    }
    s.append("\",\"transfer\":");
    s.append(transfer_json(&p.transfer).as_str());
    s.append(",\"shares\":{\"text\":");
    s.append(text::truth_text(p.shares.text));
    s.append(",\"images\":");
    s.append(text::truth_text(p.shares.images));
    s.append(",\"files\":");
    s.append(text::truth_text(p.shares.files));
    s.append("},\"startup\":");
    s.append(text::truth_text(p.startup));
    s.append(",\"licence\":");
    s.append(licence::licence_json(&p.licence).as_str());
    s.append(",\"update\":");
    s.append(update_json(&p.release, p.asset.as_str()).as_str());
    s.append(",\"activity\":[");
    s.append(p.activity.as_str());
    s.append("],\"peers\":[");
    s.append(peers_json(&p.links, &p.layout, fleet).as_str());
    s.append("],\"health\":[");
    s.append(health_json(&p.health).as_str());
    let (discovered, pairing) = pairing_state_json(&p.seen, &p.pairing);
    s.append("],\"discovered\":[");
    s.append(discovered.as_str());
    s.append("],\"pairing\":");
    s.append(pairing.as_str());
    s.append("}");
    s
}

/// What the page shows of the last transfer.
fn transfer_json(t: &Option<(String, String)>) -> (s: String)
    ensures
        s@ == transfer_shown(*t),
{
    match t {
        Some((what, detail)) => {
            let mut s = String::from_str("{\"what\":\"");
            s.append(what.as_str());
            s.append("\",\"detail\":\"");
            s.append(detail.as_str());
            s.append("\"}");
            s
        },
        None => String::from_str("null"),
    }
}

/// What the page shows while this machine has no licence.
pub fn activation_state_json(version: &str, os: &str, arch: &str, port: u16, l: &Option<Licence>) -> (s:
    String)
    ensures
        s@ == "{\"version\":\""@ + version@
            + "\",\"name\":\"this machine\",\"id\":\"\",\"platform\":\""@ + os@ + "/"@ + arch@
            + "\",\"role\":\"not activated\",\"port\":"@ + text::decimal(port as nat)
            + ",\"seamPort\":0,\"licence\":"@ + licence::licence_shown(
            match *l {
                Some(x) => Some(x@),
                None => None,
            },
        ) + ",\"update\":null,\"activity\":[],\"peers\":[],\"health\":[]}"@,
{
    let mut s = String::from_str("{\"version\":\"");
    s.append(version);
    s.append("\",\"name\":\"this machine\",\"id\":\"\",\"platform\":\"");
    s.append(os);
    s.append("/");
    s.append(arch);
    s.append("\",\"role\":\"not activated\",\"port\":");
    s.append(text::decimal_text(port as u64).as_str());
    s.append(",\"seamPort\":0,\"licence\":");
    s.append(licence::licence_json(l).as_str());
    s.append(",\"update\":null,\"activity\":[],\"peers\":[],\"health\":[]}");
    s
}

// ---------------------------------------------------------------- what is told where
/// Each fact about a connected machine stands behind its own name.
pub proof fn each_fact_of_a_machine_has_its_place(
    peer: PeerId,
    addr: Seq<char>,
    rtt_ms: nat,
    facts: FactsModel,
    version: Seq<char>,
)
    ensures
        text::within(
            peer_shown(peer, addr, rtt_ms, facts, version),
            "{\"id\":\""@ + (peer.short() + "\",\"name\":\""@),
        ),
        text::within(
            peer_shown(peer, addr, rtt_ms, facts, version),
            "\",\"name\":\""@ + (peer.short() + "\",\"addr\":\""@),
        ),
        text::within(
            peer_shown(peer, addr, rtt_ms, facts, version),
            "\",\"addr\":\""@ + (addr + "\",\"edge\":\""@),
        ),
        text::within(
            peer_shown(peer, addr, rtt_ms, facts, version),
            "\",\"edge\":\""@ + (facts.edge + "\",\"anchor\":\""@),
        ),
        text::within(
            peer_shown(peer, addr, rtt_ms, facts, version),
            "\",\"anchor\":\""@ + (facts.anchor + "\",\"role\":\""@),
        ),
        text::within(
            peer_shown(peer, addr, rtt_ms, facts, version),
            "\",\"role\":\""@ + (facts.role + "\",\"enabled\":"@),
        ),
        text::within(
            peer_shown(peer, addr, rtt_ms, facts, version),
            "\",\"enabled\":"@ + (text::truth(facts.enabled) + ",\"version\":\""@),
        ),
        text::within(
            peer_shown(peer, addr, rtt_ms, facts, version),
            ",\"version\":\""@ + (version + "\",\"rtt_ms\":"@),
        ),
        text::within(
            peer_shown(peer, addr, rtt_ms, facts, version),
            "\",\"rtt_ms\":"@ + (text::decimal(rtt_ms) + "}"@),
        ),
{
    let s0 = "{\"id\":\""@;
    let s1 = s0 + peer.short();
    let s2 = s1 + "\",\"name\":\""@;
    let s3 = s2 + peer.short();
    let s4 = s3 + "\",\"addr\":\""@;
    let s5 = s4 + addr;
    let s6 = s5 + "\",\"edge\":\""@;
    let s7 = s6 + facts.edge;
    let s8 = s7 + "\",\"anchor\":\""@;
    let s9 = s8 + facts.anchor;
    let s10 = s9 + "\",\"role\":\""@;
    let s11 = s10 + facts.role;
    let s12 = s11 + "\",\"enabled\":"@;
    let s13 = s12 + text::truth(facts.enabled);
    let s14 = s13 + ",\"version\":\""@;
    let s15 = s14 + version;
    let s16 = s15 + "\",\"rtt_ms\":"@;
    let s17 = s16 + text::decimal(rtt_ms);
    let s18 = s17 + "}"@;
    let s = peer_shown(peer, addr, rtt_ms, facts, version);
    assert(s == s18);
    text::a_text_begins_with_itself(s);
    text::a_shorter_start_is_a_start(s, s17, "}"@);
    text::a_shorter_start_is_a_start(s, s16, text::decimal(rtt_ms));
    text::a_shorter_start_is_a_start(s, s15, "\",\"rtt_ms\":"@);
    text::a_shorter_start_is_a_start(s, s14, version);
    text::a_shorter_start_is_a_start(s, s13, ",\"version\":\""@);
    text::a_shorter_start_is_a_start(s, s12, text::truth(facts.enabled));
    text::a_shorter_start_is_a_start(s, s11, "\",\"enabled\":"@);
    text::a_shorter_start_is_a_start(s, s10, facts.role);
    text::a_shorter_start_is_a_start(s, s9, "\",\"role\":\""@);
    text::a_shorter_start_is_a_start(s, s8, facts.anchor);
    text::a_shorter_start_is_a_start(s, s7, "\",\"anchor\":\""@);
    text::a_shorter_start_is_a_start(s, s6, facts.edge);
    text::a_shorter_start_is_a_start(s, s5, "\",\"edge\":\""@);
    text::a_shorter_start_is_a_start(s, s4, addr);
    text::a_shorter_start_is_a_start(s, s3, "\",\"addr\":\""@);
    text::a_shorter_start_is_a_start(s, s2, peer.short());
    text::a_shorter_start_is_a_start(s, s1, "\",\"name\":\""@);
    text::a_shorter_start_is_a_start(s, s0, peer.short());
    text::a_first_part_stands_within(s, "{\"id\":\""@, peer.short(), "\",\"name\":\""@);
    text::a_part_stands_within(
        s,
        s1,
        "\",\"name\":\""@,
        peer.short(),
        "\",\"addr\":\""@,
    );
    text::a_part_stands_within(
        s,
        s3,
        "\",\"addr\":\""@,
        addr,
        "\",\"edge\":\""@,
    );
    text::a_part_stands_within(
        s,
        s5,
        "\",\"edge\":\""@,
        facts.edge,
        "\",\"anchor\":\""@,
    );
    text::a_part_stands_within(
        s,
        s7,
        "\",\"anchor\":\""@,
        facts.anchor,
        "\",\"role\":\""@,
    );
    text::a_part_stands_within(
        s,
        s9,
        "\",\"role\":\""@,
        facts.role,
        "\",\"enabled\":"@,
    );
    text::a_part_stands_within(
        s,
        s11,
        "\",\"enabled\":"@,
        text::truth(facts.enabled),
        ",\"version\":\""@,
    );
    text::a_part_stands_within(
        s,
        s13,
        ",\"version\":\""@,
        version,
        "\",\"rtt_ms\":"@,
    );
    text::a_part_stands_within(
        s,
        s15,
        "\",\"rtt_ms\":"@,
        text::decimal(rtt_ms),
        "}"@,
    );
}

/// What the page shows of each thing that works or does not.
pub open spec fn health_rows(p: PageState) -> Seq<Seq<char>> {
    Seq::new(p.health@.len(), |i: int| health_shown(p.health@[i]))
}

/// What the page shows of each machine in sight.
pub open spec fn sight_rows(p: PageState) -> Seq<Seq<char>> {
    Seq::new(p.seen@.len(), |i: int| machine_shown(p.seen@[i]))
}

/// Each fact about this machine stands behind its own name.
#[verifier::spinoff_prover]
#[verifier::rlimit(80)]
pub proof fn each_fact_of_this_machine_has_its_place(
    p: PageState,
    fleet: Fleet,
    held: Option<LicenceModel>,
    found: Option<ReleaseModel>,
)
    requires
        p.licence matches Some(l) ==> held == Some(l@),
        p.licence is None ==> held is None,
        p.release matches Some(r) ==> found == Some(r@),
        p.release is None ==> found is None,
    ensures
        text::within(
            state_shown(p, fleet),
            "{\"version\":\""@ + (p.version@ + "\",\"name\":\""@),
        ),
        text::within(
            state_shown(p, fleet),
            "\",\"name\":\""@ + (text::requoted(p.name@) + "\",\"id\":\""@),
        ),
        text::within(
            state_shown(p, fleet),
            "\",\"id\":\""@ + (p.id.short() + "\",\"platform\":\""@),
        ),
        text::within(
            state_shown(p, fleet),
            "\",\"platform\":\""@ + (p.os@ + "/"@),
        ),
        text::within(
            state_shown(p, fleet),
            "/"@ + (p.arch@ + "\",\"role\":\""@),
        ),
        text::within(
            state_shown(p, fleet),
            "\",\"role\":\""@ + (p.role@ + "\",\"port\":"@),
        ),
        text::within(
            state_shown(p, fleet),
            "\",\"port\":"@ + (text::decimal(p.ui_port as nat) + ",\"seamPort\":"@),
        ),
        text::within(
            state_shown(p, fleet),
            ",\"seamPort\":"@ + (text::decimal(p.seam_port as nat) + ",\"lan\":\""@),
        ),
        text::within(
            state_shown(p, fleet),
            ",\"lan\":\""@ + (p.lan@ + "\",\"focus\":\""@),
        ),
        text::within(
            state_shown(p, fleet),
            "\",\"focus\":\""@ + (focus_shown(fleet.focus) + "\",\"transfer\":"@),
        ),
        text::within(
            state_shown(p, fleet),
            "\",\"transfer\":"@ + (transfer_shown(p.transfer) + ",\"shares\":{\"text\":"@),
        ),
        text::within(
            state_shown(p, fleet),
            ",\"shares\":{\"text\":"@ + (text::truth(p.shares.text) + ",\"images\":"@),
        ),
        text::within(
            state_shown(p, fleet),
            ",\"images\":"@ + (text::truth(p.shares.images) + ",\"files\":"@),
        ),
        text::within(
            state_shown(p, fleet),
            ",\"files\":"@ + (text::truth(p.shares.files) + "},\"startup\":"@),
        ),
        text::within(
            state_shown(p, fleet),
            "},\"startup\":"@ + (text::truth(p.startup) + ",\"licence\":"@),
        ),
        text::within(
            state_shown(p, fleet),
            ",\"licence\":"@ + (licence::licence_shown(held) + ",\"update\":"@),
        ),
        text::within(
            state_shown(p, fleet),
            ",\"update\":"@ + (release_shown(found, p.asset@) + ",\"activity\":["@),
        ),
        text::within(
            state_shown(p, fleet),
            ",\"activity\":["@ + (p.activity@ + "],\"peers\":["@),
        ),
        text::within(
            state_shown(p, fleet),
            "],\"peers\":["@ + (text::listed(peers_shown(p.links@, p.layout@, fleet)) + "],\"health\":["@),
        ),
        text::within(
            state_shown(p, fleet),
            "],\"health\":["@ + (text::listed(health_rows(p)) + "],\"discovered\":["@),
        ),
        text::within(
            state_shown(p, fleet),
            "],\"discovered\":["@ + (text::listed(sight_rows(p)) + "],\"pairing\":"@),
        ),
        text::within(
            state_shown(p, fleet),
            "],\"pairing\":"@ + (doorbell::pairing_shown(doorbell::pending_model(p.pairing)) + "}"@),
        ),
{
    let s0 = "{\"version\":\""@;
    let s1 = s0 + p.version@;
    let s2 = s1 + "\",\"name\":\""@;
    let s3 = s2 + text::requoted(p.name@);
    let s4 = s3 + "\",\"id\":\""@;
    let s5 = s4 + p.id.short();
    let s6 = s5 + "\",\"platform\":\""@;
    let s7 = s6 + p.os@;
    let s8 = s7 + "/"@;
    let s9 = s8 + p.arch@;
    let s10 = s9 + "\",\"role\":\""@;
    let s11 = s10 + p.role@;
    let s12 = s11 + "\",\"port\":"@;
    let s13 = s12 + text::decimal(p.ui_port as nat);
    let s14 = s13 + ",\"seamPort\":"@;
    let s15 = s14 + text::decimal(p.seam_port as nat);
    let s16 = s15 + ",\"lan\":\""@;
    let s17 = s16 + p.lan@;
    let s18 = s17 + "\",\"focus\":\""@;
    let s19 = s18 + focus_shown(fleet.focus);
    let s20 = s19 + "\",\"transfer\":"@;
    let s21 = s20 + transfer_shown(p.transfer);
    let s22 = s21 + ",\"shares\":{\"text\":"@;
    let s23 = s22 + text::truth(p.shares.text);
    let s24 = s23 + ",\"images\":"@;
    let s25 = s24 + text::truth(p.shares.images);
    let s26 = s25 + ",\"files\":"@;
    let s27 = s26 + text::truth(p.shares.files);
    let s28 = s27 + "},\"startup\":"@;
    let s29 = s28 + text::truth(p.startup);
    let s30 = s29 + ",\"licence\":"@;
    let s31 = s30 + licence::licence_shown(held);
    let s32 = s31 + ",\"update\":"@;
    let s33 = s32 + release_shown(found, p.asset@);
    let s34 = s33 + ",\"activity\":["@;
    let s35 = s34 + p.activity@;
    let s36 = s35 + "],\"peers\":["@;
    let s37 = s36 + text::listed(peers_shown(p.links@, p.layout@, fleet));
    let s38 = s37 + "],\"health\":["@;
    let s39 = s38 + text::listed(health_rows(p));
    let s40 = s39 + "],\"discovered\":["@;
    let s41 = s40 + text::listed(sight_rows(p));
    let s42 = s41 + "],\"pairing\":"@;
    let s43 = s42 + doorbell::pairing_shown(doorbell::pending_model(p.pairing));
    let s44 = s43 + "}"@;
    let s = state_shown(p, fleet);
    assert(s == s44);
    text::a_text_begins_with_itself(s);
    text::a_shorter_start_is_a_start(s, s43, "}"@);
    text::a_shorter_start_is_a_start(s, s42, doorbell::pairing_shown(doorbell::pending_model(p.pairing)));
    text::a_shorter_start_is_a_start(s, s41, "],\"pairing\":"@);
    text::a_shorter_start_is_a_start(s, s40, text::listed(sight_rows(p)));
    text::a_shorter_start_is_a_start(s, s39, "],\"discovered\":["@);
    text::a_shorter_start_is_a_start(s, s38, text::listed(health_rows(p)));
    text::a_shorter_start_is_a_start(s, s37, "],\"health\":["@);
    text::a_shorter_start_is_a_start(s, s36, text::listed(peers_shown(p.links@, p.layout@, fleet)));
    text::a_shorter_start_is_a_start(s, s35, "],\"peers\":["@);
    text::a_shorter_start_is_a_start(s, s34, p.activity@);
    text::a_shorter_start_is_a_start(s, s33, ",\"activity\":["@);
    text::a_shorter_start_is_a_start(s, s32, release_shown(found, p.asset@));
    text::a_shorter_start_is_a_start(s, s31, ",\"update\":"@);
    text::a_shorter_start_is_a_start(s, s30, licence::licence_shown(held));
    text::a_shorter_start_is_a_start(s, s29, ",\"licence\":"@);
    text::a_shorter_start_is_a_start(s, s28, text::truth(p.startup));
    text::a_shorter_start_is_a_start(s, s27, "},\"startup\":"@);
    text::a_shorter_start_is_a_start(s, s26, text::truth(p.shares.files));
    text::a_shorter_start_is_a_start(s, s25, ",\"files\":"@);
    text::a_shorter_start_is_a_start(s, s24, text::truth(p.shares.images));
    text::a_shorter_start_is_a_start(s, s23, ",\"images\":"@);
    text::a_shorter_start_is_a_start(s, s22, text::truth(p.shares.text));
    text::a_shorter_start_is_a_start(s, s21, ",\"shares\":{\"text\":"@);
    text::a_shorter_start_is_a_start(s, s20, transfer_shown(p.transfer));
    text::a_shorter_start_is_a_start(s, s19, "\",\"transfer\":"@);
    text::a_shorter_start_is_a_start(s, s18, focus_shown(fleet.focus));
    text::a_shorter_start_is_a_start(s, s17, "\",\"focus\":\""@);
    text::a_shorter_start_is_a_start(s, s16, p.lan@);
    text::a_shorter_start_is_a_start(s, s15, ",\"lan\":\""@);
    text::a_shorter_start_is_a_start(s, s14, text::decimal(p.seam_port as nat));
    text::a_shorter_start_is_a_start(s, s13, ",\"seamPort\":"@);
    text::a_shorter_start_is_a_start(s, s12, text::decimal(p.ui_port as nat));
    text::a_shorter_start_is_a_start(s, s11, "\",\"port\":"@);
    text::a_shorter_start_is_a_start(s, s10, p.role@);
    text::a_shorter_start_is_a_start(s, s9, "\",\"role\":\""@);
    text::a_shorter_start_is_a_start(s, s8, p.arch@);
    text::a_shorter_start_is_a_start(s, s7, "/"@);
    text::a_shorter_start_is_a_start(s, s6, p.os@);
    text::a_shorter_start_is_a_start(s, s5, "\",\"platform\":\""@);
    text::a_shorter_start_is_a_start(s, s4, p.id.short());
    text::a_shorter_start_is_a_start(s, s3, "\",\"id\":\""@);
    text::a_shorter_start_is_a_start(s, s2, text::requoted(p.name@));
    text::a_shorter_start_is_a_start(s, s1, "\",\"name\":\""@);
    text::a_shorter_start_is_a_start(s, s0, p.version@);
    text::a_first_part_stands_within(s, "{\"version\":\""@, p.version@, "\",\"name\":\""@);
    text::a_part_stands_within(
        s,
        s1,
        "\",\"name\":\""@,
        text::requoted(p.name@),
        "\",\"id\":\""@,
    );
    text::a_part_stands_within(
        s,
        s3,
        "\",\"id\":\""@,
        p.id.short(),
        "\",\"platform\":\""@,
    );
    text::a_part_stands_within(
        s,
        s5,
        "\",\"platform\":\""@,
        p.os@,
        "/"@,
    );
    text::a_part_stands_within(
        s,
        s7,
        "/"@,
        p.arch@,
        "\",\"role\":\""@,
    );
    text::a_part_stands_within(
        s,
        s9,
        "\",\"role\":\""@,
        p.role@,
        "\",\"port\":"@,
    );
    text::a_part_stands_within(
        s,
        s11,
        "\",\"port\":"@,
        text::decimal(p.ui_port as nat),
        ",\"seamPort\":"@,
    );
    text::a_part_stands_within(
        s,
        s13,
        ",\"seamPort\":"@,
        text::decimal(p.seam_port as nat),
        ",\"lan\":\""@,
    );
    text::a_part_stands_within(
        s,
        s15,
        ",\"lan\":\""@,
        p.lan@,
        "\",\"focus\":\""@,
    );
    text::a_part_stands_within(
        s,
        s17,
        "\",\"focus\":\""@,
        focus_shown(fleet.focus),
        "\",\"transfer\":"@,
    );
    text::a_part_stands_within(
        s,
        s19,
        "\",\"transfer\":"@,
        transfer_shown(p.transfer),
        ",\"shares\":{\"text\":"@,
    );
    text::a_part_stands_within(
        s,
        s21,
        ",\"shares\":{\"text\":"@,
        text::truth(p.shares.text),
        ",\"images\":"@,
    );
    text::a_part_stands_within(
        s,
        s23,
        ",\"images\":"@,
        text::truth(p.shares.images),
        ",\"files\":"@,
    );
    text::a_part_stands_within(
        s,
        s25,
        ",\"files\":"@,
        text::truth(p.shares.files),
        "},\"startup\":"@,
    );
    text::a_part_stands_within(
        s,
        s27,
        "},\"startup\":"@,
        text::truth(p.startup),
        ",\"licence\":"@,
    );
    text::a_part_stands_within(
        s,
        s29,
        ",\"licence\":"@,
        licence::licence_shown(held),
        ",\"update\":"@,
    );
    text::a_part_stands_within(
        s,
        s31,
        ",\"update\":"@,
        release_shown(found, p.asset@),
        ",\"activity\":["@,
    );
    text::a_part_stands_within(
        s,
        s33,
        ",\"activity\":["@,
        p.activity@,
        "],\"peers\":["@,
    );
    text::a_part_stands_within(
        s,
        s35,
        "],\"peers\":["@,
        text::listed(peers_shown(p.links@, p.layout@, fleet)),
        "],\"health\":["@,
    );
    text::a_part_stands_within(
        s,
        s37,
        "],\"health\":["@,
        text::listed(health_rows(p)),
        "],\"discovered\":["@,
    );
    text::a_part_stands_within(
        s,
        s39,
        "],\"discovered\":["@,
        text::listed(sight_rows(p)),
        "],\"pairing\":"@,
    );
    text::a_part_stands_within(
        s,
        s41,
        "],\"pairing\":"@,
        doorbell::pairing_shown(doorbell::pending_model(p.pairing)),
        "}"@,
    );
}

/// Each fact about a machine in sight stands behind its own name.
pub proof fn each_fact_of_a_machine_in_sight_has_its_place(m: DiscoveredMachine)
    ensures
        text::within(
            machine_shown(m),
            "{\"id\":\""@ + (text::requoted(m.short@) + "\",\"addr\":\""@),
        ),
        text::within(
            machine_shown(m),
            "\",\"addr\":\""@ + (m.addr@ + "\",\"trusted\":"@),
        ),
        text::within(
            machine_shown(m),
            "\",\"trusted\":"@ + (text::truth(m.trusted) + "}"@),
        ),
{
    let s0 = "{\"id\":\""@;
    let s1 = s0 + text::requoted(m.short@);
    let s2 = s1 + "\",\"addr\":\""@;
    let s3 = s2 + m.addr@;
    let s4 = s3 + "\",\"trusted\":"@;
    let s5 = s4 + text::truth(m.trusted);
    let s6 = s5 + "}"@;
    let s = machine_shown(m);
    assert(s == s6);
    text::a_text_begins_with_itself(s);
    text::a_shorter_start_is_a_start(s, s5, "}"@);
    text::a_shorter_start_is_a_start(s, s4, text::truth(m.trusted));
    text::a_shorter_start_is_a_start(s, s3, "\",\"trusted\":"@);
    text::a_shorter_start_is_a_start(s, s2, m.addr@);
    text::a_shorter_start_is_a_start(s, s1, "\",\"addr\":\""@);
    text::a_shorter_start_is_a_start(s, s0, text::requoted(m.short@));
    text::a_first_part_stands_within(s, "{\"id\":\""@, text::requoted(m.short@), "\",\"addr\":\""@);
    text::a_part_stands_within(
        s,
        s1,
        "\",\"addr\":\""@,
        m.addr@,
        "\",\"trusted\":"@,
    );
    text::a_part_stands_within(
        s,
        s3,
        "\",\"trusted\":"@,
        text::truth(m.trusted),
        "}"@,
    );
}

/// The rows of the page are the connected machines, in order, each with its own address, its
/// own round trip, what is known of it and the version it said it runs.
pub proof fn every_machine_has_its_row(
    links: Seq<Connected>,
    layout: Seq<Relation>,
    fleet: Fleet,
    i: int,
)
    requires
        0 <= i < links.len(),
    ensures
        peers_shown(links, layout, fleet).len() == links.len(),
        peers_shown(links, layout, fleet)[i] == peer_shown(
            links[i].peer,
            links[i].addr@,
            links[i].rtt_ms as nat,
            facts_of(layout, fleet, links[i].peer),
            version_of(fleet.versions@, links[i].peer),
        ),
{
}

/// What a person said of where a machine is comes first; only without a word does the page
/// show where it is. Whether it shares input, and whether it is switched on, is what was
/// heard and what was chosen.
pub proof fn a_persons_word_is_shown_first(layout: Seq<Relation>, fleet: Fleet, peer: PeerId)
    ensures
        ({
            let f = facts_of(layout, fleet, peer);
            let said = desk::first_relation(desk::models(layout), peer.short());
            let placed = placed_at(fleet.places@, peer);
            &&& said is Some ==> f.edge == desk::edge_word(said->0.edge) && f.anchor
                == said->0.anchor
            &&& said is None ==> f.anchor == "self"@
            &&& said is None && placed is Some ==> f.edge == desk::edge_word(placed->0)
            &&& said is None && placed is None ==> f.edge.len() == 0
            &&& f.enabled <==> !fleet.disabled@.contains(peer)
            &&& fleet.sharers@.contains(peer) ==> f.role == "shares input"@
            &&& !fleet.sharers@.contains(peer) ==> f.role == "receives input"@
        }),
{
}

/// Where a machine is shown, and which version, is the first that is known of it.
pub proof fn the_first_that_is_known_is_shown(
    places: Seq<(PeerId, Edge)>,
    versions: Seq<(PeerId, String)>,
    peer: PeerId,
    i: int,
    j: int,
)
    requires
        0 <= i <= places.len(),
        forall|k: int| 0 <= k < i ==> (#[trigger] places[k]).0 != peer,
        0 <= j <= versions.len(),
        forall|k: int| 0 <= k < j ==> (#[trigger] versions[k]).0 != peer,
    ensures
        i < places.len() && places[i].0 == peer ==> placed_at(places, peer) == Some(places[i].1),
        i == places.len() ==> placed_at(places, peer) is None,
        j < versions.len() && versions[j].0 == peer ==> version_of(versions, peer)
            == versions[j].1@,
        j == versions.len() ==> version_of(versions, peer).len() == 0,
    decreases places.len(), versions.len(),
{
    if j > 0 {
        let rest = versions.skip(1);
        assert(versions[0].0 != peer);
        assert forall|k: int| 0 <= k < j - 1 implies (#[trigger] rest[k]).0 != peer by {
            assert(rest[k] == versions[k + 1]);
        }
        the_first_that_is_known_is_shown(places, rest, peer, i, j - 1);
        if j < versions.len() {
            assert(rest[j - 1] == versions[j]);
        }
    }
    if places.len() > 0 {
        let front = places.drop_last();
        let n = if i < front.len() {
            i
        } else {
            front.len() as int
        };
        assert forall|k: int| 0 <= k < n implies (#[trigger] front[k]).0 != peer by {
            assert(front[k] == places[k]);
        }
        the_first_that_is_known_is_shown(front, versions, peer, n, j);
        if i < front.len() {
            assert(front[i] == places[i]);
        } else if i == places.len() {
            assert(places.last() == places[places.len() - 1]);
        }
    }
}

/// The newest lines of a log come first, and no more than four hundred of them.
pub proof fn the_newest_come_first(lines: Seq<Seq<char>>, i: int)
    ensures
        newest(lines).len() <= lines.len(),
        newest(lines).len() <= 400,
        lines.len() <= 400 ==> newest(lines).len() == lines.len(),
        lines.len() > 400 ==> newest(lines).len() == 400,
        0 <= i < newest(lines).len() ==> newest(lines)[i] == lines[lines.len() - 1 - i],
{
}

/// A colour code and the text it colours: the code goes, from the escape to its `m`, and the
/// text stays.
pub proof fn only_colour_codes_are_stripped(a: Seq<char>, code: Seq<char>, b: Seq<char>)
    requires
        !a.contains('\u{1b}'),
        !code.contains('m'),
    ensures
        colourless(a) == a,
        colourless(a + (seq!['\u{1b}'] + (code.push('m') + b))) == a + colourless(b),
    decreases a.len(),
{
    let rest = seq!['\u{1b}'] + (code.push('m') + b);
    let s = a + rest;
    if a.len() == 0 {
        assert(s =~= rest);
        assert(rest.skip(1) =~= code.push('m') + b);
        behind_the_code(code, b);
        assert(a + colourless(b) =~= colourless(b));
    } else {
        let tail = a.skip(1);
        assert(a[0] != '\u{1b}');
        assert(!tail.contains('\u{1b}')) by {
            if tail.contains('\u{1b}') {
                let k = choose|k: int| 0 <= k < tail.len() && tail[k] == '\u{1b}';
                assert(a[k + 1] == '\u{1b}');
            }
        }
        only_colour_codes_are_stripped(tail, code, b);
        assert(s.skip(1) =~= tail + rest);
        assert(seq![a[0]] + tail =~= a);
        assert(seq![a[0]] + (tail + colourless(b)) =~= a + colourless(b));
    }
}

proof fn behind_the_code(code: Seq<char>, b: Seq<char>)
    requires
        !code.contains('m'),
    ensures
        behind_m(code.push('m') + b) == b,
    decreases code.len(),
{
    let s = code.push('m') + b;
    if code.len() == 0 {
        assert(s.skip(1) =~= b);
    } else {
        let tail = code.skip(1);
        assert(code[0] != 'm');
        assert(!tail.contains('m')) by {
            if tail.contains('m') {
                let k = choose|k: int| 0 <= k < tail.len() && tail[k] == 'm';
                assert(code[k + 1] == 'm');
            }
        }
        behind_the_code(tail, b);
        assert(s.skip(1) =~= tail.push('m') + b);
    }
}

/// Only the characters that would end its quotes are left out of a notification; the others
/// stay, in order.
pub proof fn only_quotes_are_left_out(a: Seq<char>, b: Seq<char>)
    ensures
        plain_of(a + b) == plain_of(a) + plain_of(b),
        unquoted(a + b) == unquoted(a) + unquoted(b),
        a.len() == 0 ==> plain_of(a).len() == 0 && unquoted(a).len() == 0,
        a.len() == 1 && a[0] != '"' && a[0] != '\\' ==> plain_of(a) == a,
        a.len() == 1 && (a[0] == '"' || a[0] == '\\') ==> plain_of(a).len() == 0,
        a.len() == 1 && a[0] != '\'' ==> unquoted(a) == a,
        a.len() == 1 && a[0] == '\'' ==> unquoted(a).len() == 0,
    decreases b.len(),
{
    if a.len() == 1 {
        assert(a.last() == a[0]);
        assert(plain_of(a.drop_last()) =~= Seq::<char>::empty());
        assert(unquoted(a.drop_last()) =~= Seq::<char>::empty());
        assert(Seq::<char>::empty().push(a[0]) =~= a);
    }
    if b.len() == 0 {
        assert(a + b =~= a);
        assert(plain_of(a) + plain_of(b) =~= plain_of(a));
        assert(unquoted(a) + unquoted(b) =~= unquoted(a));
    } else {
        let front = b.drop_last();
        only_quotes_are_left_out(a, front);
        assert((a + b).drop_last() =~= a + front);
        assert((a + b).last() == b.last());
        assert((plain_of(a) + plain_of(front)).push(b.last()) =~= plain_of(a) + plain_of(
            front,
        ).push(b.last()));
        assert((unquoted(a) + unquoted(front)).push(b.last()) =~= unquoted(a) + unquoted(
            front,
        ).push(b.last()));
    }
}

/// The newest release is told by its tag, and its version is the tag without the letter
/// before it.
pub proof fn a_version_is_its_tag_without_the_letter(body: Seq<char>, version: Seq<char>)
    requires
        version.len() > 0,
        version[0] != 'v',
        field_in(body, "tag_name"@) == Some("v"@ + version),
    ensures
        release_in(body) is Some,
        release_in(body)->0.tag == "v"@ + version,
        release_in(body)->0.latest == version,
        field_in(body, "published_at"@) matches Some(day) ==> release_in(body)->0.published == day,
{
    reveal_strlit("v");
    if text::begins(version, "v"@) {
        assert(version.take(1)[0] == version[0]);
    }
    text::stripping_takes_whole_repetitions(version, "v"@);
}

/// Who holds the pointer is shown by its short id, and this machine as itself.
pub proof fn the_pointer_is_shown_where_it_is(id: PeerId)
    ensures
        focus_shown(Some(id)) == text::hex_of(id.0@.take(4)),
        focus_shown(None) == "local"@,
{
}

/// A release and the facts about a machine are told as they are.
pub proof fn releases_and_facts_are_told_as_they_are(r: Release, f: Facts)
    ensures
        r@.latest == r.latest@,
        r@.published == r.published@,
        r@.tag == r.tag@,
        f@.edge == f.edge@,
        f@.anchor == f.anchor@,
        f@.role == f.role@,
        f@.enabled == f.enabled,
{
}

/// The clock time is the eight characters behind the `T` of a stamp.
pub proof fn the_clock_is_behind_the_day(day: Seq<char>, time: Seq<char>)
    requires
        text::solid(day),
        text::solid(time),
        day.len() > 0,
        !day.contains('T'),
        !time.contains('T'),
        time.len() >= 8,
        forall|i: int| 0 <= i < time.len() ==> (#[trigger] time[i] as int) < 0x80,
    ensures
        clock(day.push('T') + time) == time.take(8),
{
    let stamp = day.push('T') + time;
    assert(stamp[0] == day[0]);
    assert(stamp.last() == time[time.len() - 1]);
    text::trimmed_already(stamp);
    text::a_separator_begins_a_piece(Seq::empty(), 'T', day);
    text::a_separator_begins_a_piece(day, 'T', time);
    assert(text::pieces(stamp, 'T') == seq![day].push(time));
    ascii_has_its_width(time, 8);
}

proof fn ascii_has_its_width(s: Seq<char>, n: int)
    requires
        0 <= n <= s.len(),
        forall|i: int| 0 <= i < s.len() ==> (#[trigger] s[i] as int) < 0x80,
    ensures
        of_width(s, n) == Some(s.take(n)),
    decreases n,
{
    if n > 0 {
        let rest = s.skip(1);
        assert forall|i: int| 0 <= i < rest.len() implies (#[trigger] rest[i] as int) < 0x80 by {
            assert(rest[i] == s[i + 1]);
        }
        assert((s[0] as int) < 0x80);
        ascii_has_its_width(rest, n - 1);
        assert(seq![s[0]] + rest.take(n - 1) =~= s.take(n));
    } else {
        assert(s.take(0) =~= Seq::empty());
    }
}

/// What is told stays told, newest first: a line that says something follows behind a comma, a
/// line that does not adds nothing, and once eight are there nothing more is added.
pub proof fn what_is_told_stays_told(lines: Seq<Seq<char>>, so_far: Seq<char>)
    ensures
        text::begins(told(lines, so_far), so_far),
        braces(so_far) >= 8 ==> told(lines, so_far) == so_far,
        lines.len() > 0 && line_item(lines[0]) is None ==> told(lines, so_far) == told(
            lines.skip(1),
            so_far,
        ),
        lines.len() > 0 && line_item(lines[0]) is Some && so_far.len() == 0 ==> told(lines, so_far)
            == told(lines.skip(1), line_item(lines[0])->0),
        lines.len() > 0 && line_item(lines[0]) is Some && so_far.len() > 0 && braces(so_far) < 8
            ==> told(lines, so_far) == told(lines.skip(1), so_far.push(',') + line_item(lines[0])->0),
    decreases lines.len(),
{
    text::a_text_begins_with_itself(so_far);
    if so_far.len() == 0 {
        assert(braces(so_far) == 0);
    }
    if lines.len() > 0 && braces(so_far) < 8 {
        let next = match line_item(lines[0]) {
            None => so_far,
            Some(item) => if so_far.len() == 0 {
                item
            } else {
                so_far.push(',') + item
            },
        };
        what_is_told_stays_told(lines.skip(1), next);
        let rest = next.skip(so_far.len() as int);
        assert(next =~= so_far + rest);
        text::a_shorter_start_is_a_start(told(lines.skip(1), next), so_far, rest);
    } else if braces(so_far) >= 8 && lines.len() > 0 {
        what_is_told_stays_told(lines.skip(1), so_far);
    }
}

/// A line of the log is shown just where it informs of something a person would care about.
pub proof fn only_what_informs_is_shown(stamp: Seq<char>, message: Seq<char>)
    requires
        text::cut(colourless(stamp + " INFO "@ + message), " INFO "@) == Some((stamp, message)),
    ensures
        line_item(stamp + " INFO "@ + message) is Some <==> interesting(message),
        interesting(message) ==> text::begins(
            line_item(stamp + " INFO "@ + message)->0,
            "{\"time\":\""@ + clock(stamp),
        ),
        interesting(message) ==> text::finishes(
            line_item(stamp + " INFO "@ + message)->0,
            "\",\"what\":\""@ + text::requoted(text::trimmed(message)) + "\"}"@,
        ),
{
    if interesting(message) {
        let s = line_item(stamp + " INFO "@ + message)->0;
        let start = "{\"time\":\""@ + clock(stamp);
        let tail = "\",\"what\":\""@ + text::requoted(text::trimmed(message)) + "\"}"@;
        assert(s =~= start + tail);
        assert(s.take(start.len() as int) =~= start);
        assert(s.skip(s.len() - tail.len()) =~= tail);
    }
}

/// The last transfer is shown by what it was and what of.
pub proof fn a_transfer_is_shown_by_what_it_was(what: String, detail: String)
    ensures
        text::begins(
            transfer_shown(Some((what, detail))),
            "{\"what\":\""@ + what@ + "\",\"detail\":\""@,
        ),
        text::finishes(
            transfer_shown(Some((what, detail))),
            "\",\"detail\":\""@ + detail@ + "\"}"@,
        ),
        transfer_shown(None) == "null"@,
{
    let s = transfer_shown(Some((what, detail)));
    let start = "{\"what\":\""@ + what@ + "\",\"detail\":\""@;
    let tail = "\",\"detail\":\""@ + detail@ + "\"}"@;
    assert(s.take(start.len() as int) =~= start);
    assert(s.skip(s.len() - tail.len()) =~= tail);
}

} // verus!
