//! The page served on this machine: which requests are let through, and what each asks for.
use crate::clipboard::Shares;
use crate::text;
use vstd::prelude::*;
use vstd::string::*;
use vstd::utf8::*;

verus! {

// ---------------------------------------------------------------- reading a request
/// What a line says of a header, if it is a line of that header.
pub open spec fn header_line(line: Seq<char>, name: Seq<char>) -> Option<Seq<char>> {
    match text::cut(line, ":"@) {
        Some((key, value)) => if text::lowered(text::trimmed(key)) == text::lowered(name) {
            Some(text::trimmed(value))
        } else {
            None
        },
        None => None,
    }
}

/// What the first line of a header says.
pub open spec fn first_header(lines: Seq<Seq<char>>, name: Seq<char>) -> Option<Seq<char>>
    decreases lines.len(),
{
    if lines.len() == 0 {
        None
    } else {
        match first_header(lines.drop_last(), name) {
            Some(v) => Some(v),
            None => header_line(lines.last(), name),
        }
    }
}

proof fn first_header_stays(lines: Seq<Seq<char>>, name: Seq<char>, n: int)
    requires
        0 <= n <= lines.len(),
        first_header(lines.take(n), name) is Some,
    ensures
        first_header(lines, name) == first_header(lines.take(n), name),
    decreases lines.len() - n,
{
    if n < lines.len() {
        assert(lines.take(n + 1).drop_last() =~= lines.take(n));
        first_header_stays(lines, name, n + 1);
    } else {
        assert(lines.take(n) =~= lines);
    }
}

/// What a request says of a header.
fn header(request: &[char], name: &str) -> (r: Option<Vec<char>>)
    ensures
        match first_header(text::lines_of(request@), name@) {
            Some(v) => r is Some && r->0@ == v,
            None => r is None,
        },
{
    let lines = text::lines(request);
    let ghost all = text::views(lines@);
    let wanted = text::chars_of(name);
    let wanted = text::lower_ascii(wanted.as_slice());
    let mut i: usize = 0;
    while i < lines.len()
        invariant
            i <= lines@.len(),
            all == text::views(lines@),
            all == text::lines_of(request@),
            wanted@ == text::lowered(name@),
            first_header(all.take(i as int), name@) is None,
        decreases lines.len() - i,
    {
        let line = lines[i].as_slice();
        proof {
            let next = all.take(i + 1);
            assert(next.drop_last() =~= all.take(i as int));
            assert(next.last() == line@);
        }
        if let Some((key, value)) = text::cut_once(line, ":") {
            let key = text::trim(key.as_slice());
            let key = text::lower_ascii(key.as_slice());
            if text::same_chars(key.as_slice(), wanted.as_slice()) {
                proof {
                    first_header_stays(all, name@, i + 1);
                }
                return Some(text::trim(value.as_slice()));
            }
        }
        i = i + 1;
    }
    proof {
        assert(all.take(all.len() as int) =~= all);
    }
    None
}

/// Whether a request really comes from the page on this machine.
///
/// A page of any site can post to a loopback port. Browsers always say where a request
/// across sites comes from, so any origin but the page's own is refused. A host that is not
/// this machine's own name is refused too, which defeats a name that was made to resolve
/// here. What sends neither is no browser, already runs as the user, and gains nothing.
pub open spec fn is_local(request: Seq<char>, port: u16) -> bool {
    let lines = text::lines_of(request);
    let number = text::decimal(port as nat);
    &&& match first_header(lines, "origin"@) {
        Some(origin) => origin == "http://127.0.0.1:"@ + number || origin == "http://localhost:"@
            + number,
        None => true,
    }
    &&& match first_header(lines, "host"@) {
        Some(host) => host == "127.0.0.1:"@ + number || host == "localhost:"@ + number,
        None => true,
    }
}

fn is_either(value: &[char], a: &str, b: &str, port: u16) -> (r: bool)
    ensures
        r == (value@ == a@ + text::decimal(port as nat) || value@ == b@ + text::decimal(
            port as nat,
        )),
{
    let number = text::decimal_text(port as u64);
    let first = text::plus(a.to_owned(), number.as_str());
    let second = text::plus(b.to_owned(), number.as_str());
    text::is_text(value, first.as_str()) || text::is_text(value, second.as_str())
}

/// Whether a request really comes from the page on this machine.
pub fn request_is_local(request: &str, port: u16) -> (b: bool)
    ensures
        b == is_local(request@, port),
{
    let chars = text::chars_of(request);
    let origin_ok = match header(chars.as_slice(), "origin") {
        Some(origin) => is_either(origin.as_slice(), "http://127.0.0.1:", "http://localhost:", port),
        None => true,
    };
    let host_ok = match header(chars.as_slice(), "host") {
        Some(host) => is_either(host.as_slice(), "127.0.0.1:", "localhost:", port),
        None => true,
    };
    origin_ok && host_ok
}

/// A page of another site cannot drive this machine: a request that names any other origin,
/// or any other host, is not let through.
pub proof fn other_sites_are_kept_out(request: Seq<char>, port: u16)
    ensures
        ({
            let origin = first_header(text::lines_of(request), "origin"@);
            let number = text::decimal(port as nat);
            origin is Some && origin->0 != "http://127.0.0.1:"@ + number && origin->0
                != "http://localhost:"@ + number ==> !is_local(request, port)
        }),
        ({
            let host = first_header(text::lines_of(request), "host"@);
            let number = text::decimal(port as nat);
            host is Some && host->0 != "127.0.0.1:"@ + number && host->0 != "localhost:"@ + number
                ==> !is_local(request, port)
        }),
{
}

/// The method a request names.
pub open spec fn method_of(request: Seq<char>) -> Seq<char> {
    let words = text::words_of(request);
    if words.len() > 0 {
        words[0]
    } else {
        "GET"@
    }
}

/// The path a request names.
pub open spec fn path_of(request: Seq<char>) -> Seq<char> {
    let words = text::words_of(request);
    if words.len() > 1 {
        words[1]
    } else {
        "/"@
    }
}

/// The path a request names.
pub fn request_path(request: &str) -> (path: String)
    ensures
        path@ == path_of(request@),
{
    let chars = text::chars_of(request);
    let words = text::words(chars.as_slice());
    proof {
        assert(words@.len() == text::words_of(request@).len());
    }
    if words.len() > 1 {
        proof {
            assert(text::views(words@)[1] == words@[1]@);
        }
        text::string_of(words[1].as_slice())
    } else {
        String::from_str("/")
    }
}

fn is_post(request: &[char]) -> (b: bool)
    ensures
        b == (method_of(request@) == "POST"@),
{
    let words = text::words(request);
    proof {
        assert(words@.len() == text::words_of(request@).len());
    }
    if words.len() > 0 {
        proof {
            assert(text::views(words@)[0] == words@[0]@);
        }
        text::is_text(words[0].as_slice(), "POST")
    } else {
        proof {
            reveal_strlit("GET");
            reveal_strlit("POST");
            assert("GET"@.len() != "POST"@.len());
        }
        false
    }
}

/// The body of a request: what stands behind the first empty line, up to the next.
pub open spec fn body_of(request: Seq<char>) -> Seq<char> {
    match text::cut(request, "\r\n\r\n"@) {
        Some((_, rest)) => match text::cut(rest, "\r\n\r\n"@) {
            Some((body, _)) => body,
            None => rest,
        },
        None => Seq::empty(),
    }
}

fn trimmed_body(request: &[char]) -> (r: Vec<char>)
    ensures
        r@ == text::trimmed(body_of(request@)),
{
    match text::cut_once(request, "\r\n\r\n") {
        Some((_, rest)) => match text::cut_once(rest.as_slice(), "\r\n\r\n") {
            Some((body, _)) => text::trim(body.as_slice()),
            None => text::trim(rest.as_slice()),
        },
        None => {
            let none: Vec<char> = Vec::new();
            proof {
                assert(none@ =~= Seq::<char>::empty());
            }
            text::trim(none.as_slice())
        },
    }
}

// ---------------------------------------------------------------- what a request asks for
/// A kind of clipboard content.
#[derive(Clone, Copy, PartialEq, Eq, Structural, Debug)]
pub enum Kind {
    Text,
    Images,
    Files,
}

/// What is shared after a kind was switched. A kind nobody knows changes nothing.
pub open spec fn switched(shares: Shares, kind: Option<Kind>, on: bool) -> Shares {
    match kind {
        Some(Kind::Text) => Shares { text: on, ..shares },
        Some(Kind::Images) => Shares { images: on, ..shares },
        Some(Kind::Files) => Shares { files: on, ..shares },
        None => shares,
    }
}

/// Share a kind of clipboard content, or stop.
pub fn switch_share(shares: &mut Shares, kind: Option<Kind>, on: bool)
    ensures
        *final(shares) == switched(*old(shares), kind, on),
{
    match kind {
        Some(Kind::Text) => {
            shares.text = on;
        },
        Some(Kind::Images) => {
            shares.images = on;
        },
        Some(Kind::Files) => {
            shares.files = on;
        },
        None => {},
    }
}

/// What a request asks for.
#[derive(PartialEq, Eq, Debug)]
pub enum Ask {
    /// It comes from another site.
    Refused,
    Quit,
    ConfirmPairing,
    DeclinePairing,
    /// Pair with a machine in sight, named by the start of its short id.
    Pair { short: String },
    /// Start at login, or do not.
    Startup { on: bool },
    /// Share a kind of clipboard content, or do not. A kind nobody knows changes nothing.
    Share { kind: Option<Kind>, on: bool },
    /// Put a machine on a side of another.
    Place { peer: String, edge: String, anchor: String },
    /// Switch a machine on or off.
    Switch { peer: String, enable: bool },
    /// Bring the input home.
    Release,
    /// Enter a licence.
    Activate { key: String },
    /// What a joining machine has to fetch.
    Join,
    /// The state the page shows.
    State,
    /// The page at this place in the list.
    Page { index: usize },
    NotFound,
}

/// What a request asks for, as a value.
pub enum AskModel {
    Refused,
    Quit,
    ConfirmPairing,
    DeclinePairing,
    Pair { short: Seq<char> },
    Startup { on: bool },
    Share { kind: Option<Kind>, on: bool },
    Place { peer: Seq<char>, edge: Seq<char>, anchor: Seq<char> },
    Switch { peer: Seq<char>, enable: bool },
    Release,
    Activate { key: Seq<char> },
    Join,
    State,
    Page { index: int },
    NotFound,
}

impl View for Ask {
    type V = AskModel;

    open spec fn view(&self) -> AskModel {
        match *self {
            Ask::Refused => AskModel::Refused,
            Ask::Quit => AskModel::Quit,
            Ask::ConfirmPairing => AskModel::ConfirmPairing,
            Ask::DeclinePairing => AskModel::DeclinePairing,
            Ask::Pair { short } => AskModel::Pair { short: short@ },
            Ask::Startup { on } => AskModel::Startup { on },
            Ask::Share { kind, on } => AskModel::Share { kind, on },
            Ask::Place { peer, edge, anchor } => AskModel::Place {
                peer: peer@,
                edge: edge@,
                anchor: anchor@,
            },
            Ask::Switch { peer, enable } => AskModel::Switch { peer: peer@, enable },
            Ask::Release => AskModel::Release,
            Ask::Activate { key } => AskModel::Activate { key: key@ },
            Ask::Join => AskModel::Join,
            Ask::State => AskModel::State,
            Ask::Page { index } => AskModel::Page { index: index as int },
            Ask::NotFound => AskModel::NotFound,
        }
    }
}

/// A page that is served.
#[derive(PartialEq, Eq, Debug)]
pub struct Page {
    pub route: String,
    pub content_type: String,
    pub body: Vec<u8>,
}

/// Where the first page with this route stands.
pub open spec fn page_at(pages: Seq<Page>, path: Seq<char>) -> Option<int>
    decreases pages.len(),
{
    if pages.len() == 0 {
        None
    } else {
        match page_at(pages.drop_last(), path) {
            Some(i) => Some(i),
            None => if pages.last().route@ == path {
                Some(pages.len() - 1)
            } else {
                None
            },
        }
    }
}

proof fn page_at_stays(pages: Seq<Page>, path: Seq<char>, n: int)
    requires
        0 <= n <= pages.len(),
        page_at(pages.take(n), path) is Some,
    ensures
        page_at(pages, path) == page_at(pages.take(n), path),
    decreases pages.len() - n,
{
    if n < pages.len() {
        assert(pages.take(n + 1).drop_last() =~= pages.take(n));
        page_at_stays(pages, path, n + 1);
    } else {
        assert(pages.take(n) =~= pages);
    }
}

/// Where the first page with this route stands.
pub fn find_page(pages: &Vec<Page>, path: &str) -> (r: Option<usize>)
    ensures
        match page_at(pages@, path@) {
            Some(i) => r is Some && r->0 == i && 0 <= i < pages@.len() && pages@[i].route@ == path@,
            None => r is None,
        },
{
    let mut i: usize = 0;
    while i < pages.len()
        invariant
            i <= pages@.len(),
            page_at(pages@.take(i as int), path@) is None,
        decreases pages.len() - i,
    {
        proof {
            let next = pages@.take(i + 1);
            assert(next.drop_last() =~= pages@.take(i as int));
            assert(next.last() == pages@[i as int]);
        }
        if text::same(pages[i].route.as_str(), path) {
            proof {
                page_at_stays(pages@, path@, i + 1);
            }
            return Some(i);
        }
        i = i + 1;
    }
    proof {
        assert(pages@.take(pages@.len() as int) =~= pages@);
    }
    None
}

/// One of the parts of a path behind its start, or what stands for it where there is none.
pub open spec fn part(path: Seq<char>, start: Seq<char>, n: int, otherwise: Seq<char>) -> Seq<char> {
    let parts = text::pieces(text::unprefixed(path, start), '/');
    if n < parts.len() {
        parts[n]
    } else {
        otherwise
    }
}

/// The kind of clipboard content a word names.
pub open spec fn kind_of(word: Seq<char>) -> Option<Kind> {
    if word == "text"@ {
        Some(Kind::Text)
    } else if word == "images"@ {
        Some(Kind::Images)
    } else if word == "files"@ {
        Some(Kind::Files)
    } else {
        None
    }
}

/// What a posted request asks for, if it asks for an action.
pub open spec fn action(request: Seq<char>, path: Seq<char>) -> Option<AskModel> {
    let none = Seq::<char>::empty();
    if path == "/action/quit"@ {
        Some(AskModel::Quit)
    } else if text::begins(path, "/action/pair/"@) {
        Some(
            if path == "/action/pair/confirm"@ {
                AskModel::ConfirmPairing
            } else if path == "/action/pair/decline"@ {
                AskModel::DeclinePairing
            } else {
                AskModel::Pair { short: text::unprefixed(path, "/action/pair/"@) }
            },
        )
    } else if text::begins(path, "/action/startup/"@) {
        Some(AskModel::Startup { on: text::finishes(path, "/on"@) })
    } else if text::begins(path, "/action/share/"@) {
        Some(
            AskModel::Share {
                kind: kind_of(part(path, "/action/share/"@, 0, none)),
                on: part(path, "/action/share/"@, 1, none) == "on"@,
            },
        )
    } else if text::begins(path, "/action/layout/"@) {
        Some(
            AskModel::Place {
                peer: part(path, "/action/layout/"@, 0, none),
                edge: part(path, "/action/layout/"@, 1, none),
                anchor: part(path, "/action/layout/"@, 2, "self"@),
            },
        )
    } else if text::begins(path, "/action/peer/"@) {
        Some(
            AskModel::Switch {
                peer: part(path, "/action/peer/"@, 0, none),
                enable: part(path, "/action/peer/"@, 1, none) == "enable"@,
            },
        )
    } else if path == "/action/release"@ {
        Some(AskModel::Release)
    } else if path == "/action/activate"@ {
        Some(AskModel::Activate { key: text::trimmed(body_of(request)) })
    } else {
        None
    }
}

/// What is asked for where it is no action.
pub open spec fn reading(path: Seq<char>, pages: Seq<Page>) -> AskModel {
    if path == "/join"@ {
        AskModel::Join
    } else if path == "/state"@ {
        AskModel::State
    } else {
        match page_at(pages, path) {
            Some(index) => AskModel::Page { index },
            None => AskModel::NotFound,
        }
    }
}

/// What a request asks for. Where it comes from is looked at before anything else, so that
/// nothing can stand outside that gate.
pub open spec fn asked(request: Seq<char>, path: Seq<char>, port: u16, pages: Seq<Page>) -> AskModel {
    if !is_local(request, port) {
        AskModel::Refused
    } else if method_of(request) == "POST"@ && action(request, path) is Some {
        action(request, path)->0
    } else {
        reading(path, pages)
    }
}

/// One of the parts of a path behind its start.
fn path_part(path: &[char], start: &str, n: usize, otherwise: &str) -> (r: String)
    ensures
        r@ == part(path@, start@, n as int, otherwise@),
{
    let rest = text::without_prefix(path, start);
    let parts = text::split(rest.as_slice(), '/');
    if n < parts.len() {
        proof {
            assert(text::views(parts@)[n as int] == parts@[n as int]@);
        }
        text::string_of(parts[n].as_slice())
    } else {
        proof {
            assert(text::views(parts@).len() == parts@.len());
        }
        otherwise.to_owned()
    }
}

fn posted(request: &[char], path: &[char]) -> (a: Option<Ask>)
    ensures
        match action(request@, path@) {
            Some(m) => a is Some && a->0@ == m,
            None => a is None,
        },
{
    proof {
        reveal_strlit("");
        assert(""@ =~= Seq::<char>::empty());
    }
    if text::is_text(path, "/action/quit") {
        Some(Ask::Quit)
    } else if text::starts(path, "/action/pair/") {
        if text::is_text(path, "/action/pair/confirm") {
            Some(Ask::ConfirmPairing)
        } else if text::is_text(path, "/action/pair/decline") {
            Some(Ask::DeclinePairing)
        } else {
            let rest = text::without_prefix(path, "/action/pair/");
            Some(Ask::Pair { short: text::string_of(rest.as_slice()) })
        }
    } else if text::starts(path, "/action/startup/") {
        Some(Ask::Startup { on: text::ends(path, "/on") })
    } else if text::starts(path, "/action/share/") {
        let word = path_part(path, "/action/share/", 0, "");
        let state = path_part(path, "/action/share/", 1, "");
        let kind = if text::same(word.as_str(), "text") {
            Some(Kind::Text)
        } else if text::same(word.as_str(), "images") {
            Some(Kind::Images)
        } else if text::same(word.as_str(), "files") {
            Some(Kind::Files)
        } else {
            None
        };
        Some(Ask::Share { kind, on: text::same(state.as_str(), "on") })
    } else if text::starts(path, "/action/layout/") {
        Some(
            Ask::Place {
                peer: path_part(path, "/action/layout/", 0, ""),
                edge: path_part(path, "/action/layout/", 1, ""),
                anchor: path_part(path, "/action/layout/", 2, "self"),
            },
        )
    } else if text::starts(path, "/action/peer/") {
        let state = path_part(path, "/action/peer/", 1, "");
        Some(
            Ask::Switch {
                peer: path_part(path, "/action/peer/", 0, ""),
                enable: text::same(state.as_str(), "enable"),
            },
        )
    } else if text::is_text(path, "/action/release") {
        Some(Ask::Release)
    } else if text::is_text(path, "/action/activate") {
        let key = trimmed_body(request);
        Some(Ask::Activate { key: text::string_of(key.as_slice()) })
    } else {
        None
    }
}

/// Decide what a request asks for.
pub fn route(request: &str, path: &str, port: u16, pages: &Vec<Page>) -> (ask: Ask)
    ensures
        ask@ == asked(request@, path@, port, pages@),
{
    if !request_is_local(request, port) {
        return Ask::Refused;
    }
    let chars = text::chars_of(request);
    let path_chars = text::chars_of(path);
    if is_post(chars.as_slice()) {
        if let Some(ask) = posted(chars.as_slice(), path_chars.as_slice()) {
            return ask;
        }
    }
    if text::same(path, "/join") {
        Ask::Join
    } else if text::same(path, "/state") {
        Ask::State
    } else {
        match find_page(pages, path) {
            Some(index) => Ask::Page { index },
            None => Ask::NotFound,
        }
    }
}

/// What a request asks of a machine that has no licence yet: it has one action.
pub open spec fn asked_before_activation(
    request: Seq<char>,
    path: Seq<char>,
    port: u16,
    pages: Seq<Page>,
) -> AskModel {
    if !is_local(request, port) {
        AskModel::Refused
    } else if method_of(request) == "POST"@ && path == "/action/activate"@ {
        AskModel::Activate { key: text::trimmed(body_of(request)) }
    } else if path == "/state"@ {
        AskModel::State
    } else {
        match page_at(pages, path) {
            Some(index) => AskModel::Page { index },
            None => AskModel::NotFound,
        }
    }
}

/// Decide what a request asks of a machine that has no licence yet.
pub fn route_before_activation(request: &str, path: &str, port: u16, pages: &Vec<Page>) -> (ask:
    Ask)
    ensures
        ask@ == asked_before_activation(request@, path@, port, pages@),
{
    if !request_is_local(request, port) {
        return Ask::Refused;
    }
    let chars = text::chars_of(request);
    if is_post(chars.as_slice()) && text::same(path, "/action/activate") {
        let key = trimmed_body(chars.as_slice());
        return Ask::Activate { key: text::string_of(key.as_slice()) };
    }
    if text::same(path, "/state") {
        Ask::State
    } else {
        match find_page(pages, path) {
            Some(index) => Ask::Page { index },
            None => Ask::NotFound,
        }
    }
}

/// Nothing is done for another site, and nothing is done without being posted.
pub proof fn only_the_page_itself_can_act(
    request: Seq<char>,
    path: Seq<char>,
    port: u16,
    pages: Seq<Page>,
)
    ensures
        !is_local(request, port) ==> asked(request, path, port, pages) is Refused
            && asked_before_activation(request, path, port, pages) is Refused,
        method_of(request) != "POST"@ && is_local(request, port) ==> asked(
            request,
            path,
            port,
            pages,
        ) == reading(path, pages),
{
}

/// A machine without a licence does one thing for anyone: take a licence.
pub proof fn without_a_licence_only_activation(
    request: Seq<char>,
    path: Seq<char>,
    port: u16,
    pages: Seq<Page>,
)
    ensures
        match asked_before_activation(request, path, port, pages) {
            AskModel::Refused => true,
            AskModel::Activate { .. } => true,
            AskModel::State => true,
            AskModel::Page { .. } => true,
            AskModel::NotFound => true,
            _ => false,
        },
{
}

// ---------------------------------------------------------------- answering
/// The head of a response.
pub open spec fn response_head(status: Seq<char>, content_type: Seq<char>, length: nat) -> Seq<char> {
    "HTTP/1.1 "@ + status + "\r\nContent-Type: "@ + content_type + "\r\nContent-Length: "@
        + text::decimal(length)
        + "\r\nCache-Control: no-store\r\nConnection: close\r\n\r\n"@
}

/// A response.
pub open spec fn response_bytes(status: Seq<char>, content_type: Seq<char>, body: Seq<u8>) -> Seq<u8> {
    encode_utf8(response_head(status, content_type, body.len())) + body
}

/// A response.
pub fn response(status: &str, content_type: &str, body: &[u8]) -> (r: Vec<u8>)
    ensures
        r@ == response_bytes(status@, content_type@, body@),
{
    let mut head = String::from_str("HTTP/1.1 ");
    head.append(status);
    head.append("\r\nContent-Type: ");
    head.append(content_type);
    head.append("\r\nContent-Length: ");
    head.append(text::decimal_text(body.len() as u64).as_str());
    head.append("\r\nCache-Control: no-store\r\nConnection: close\r\n\r\n");
    let mut r: Vec<u8> = Vec::new();
    r.extend_from_slice(head.as_str().as_bytes());
    r.extend_from_slice(body);
    proof {
        assert(r@ =~= response_bytes(status@, content_type@, body@));
    }
    r
}

/// What a request for something that is no text is answered with, if there is such a thing.
pub fn ui_asset_response(request: &str, path: &str, port: u16, assets: &Vec<Page>) -> (r: Option<
    Vec<u8>,
>)
    ensures
        match page_at(assets@, path@) {
            None => r is None,
            Some(i) => r is Some && r->0@ == if is_local(request@, port) {
                response_bytes("200 OK"@, assets@[i].content_type@, assets@[i].body@)
            } else {
                response_bytes("403 Forbidden"@, "text/plain"@, encode_utf8("refused"@))
            },
        },
{
    let index = find_page(assets, path)?;
    let asset = &assets[index];
    if request_is_local(request, port) {
        Some(response("200 OK", asset.content_type.as_str(), asset.body.as_slice()))
    } else {
        Some(response("403 Forbidden", "text/plain", "refused".as_bytes()))
    }
}

/// Whether a request has been read far enough: its headers are whole, or it is too long.
pub open spec fn is_whole(bytes: Seq<u8>) -> bool {
    bytes.len() > 16_384 || exists|i: int|
        0 <= i && i + 4 <= bytes.len() && #[trigger] bytes[i] == 13 && bytes[i + 1] == 10 && bytes[i
            + 2] == 13 && bytes[i + 3] == 10
}

/// Whether a request has been read far enough. A single read need not hold the headers, and
/// looking at the origin is only sound if they are there.
pub fn request_is_whole(bytes: &[u8]) -> (b: bool)
    ensures
        b == is_whole(bytes@),
{
    let len: usize = bytes.len();
    if len > 16_384 {
        return true;
    }
    let mut i: usize = 0;
    while len >= 4 && i <= len - 4
        invariant
            len == bytes@.len(),
            len <= 16_384,
            i <= len,
            forall|k: int|
                0 <= k < i && k + 4 <= len ==> !(#[trigger] bytes@[k] == 13 && bytes@[k + 1] == 10
                    && bytes@[k + 2] == 13 && bytes@[k + 3] == 10),
        decreases len - i,
    {
        if bytes[i] == 13 && bytes[i + 1] == 10 && bytes[i + 2] == 13 && bytes[i + 3] == 10 {
            return true;
        }
        i = i + 1;
    }
    false
}

/// The answer that says whether something worked.
pub fn ok_json(ok: bool) -> (s: String)
    ensures
        s@ == "{\"ok\":"@ + text::truth(ok) + "}"@,
{
    let mut s = String::from_str("{\"ok\":");
    s.append(text::truth_text(ok));
    s.append("}");
    s
}

/// The answer that says how starting at login stands.
pub fn startup_json(on: bool) -> (s: String)
    ensures
        s@ == "{\"ok\":true,\"on\":"@ + text::truth(on) + "}"@,
{
    let mut s = String::from_str("{\"ok\":true,\"on\":");
    s.append(text::truth_text(on));
    s.append("}");
    s
}

/// The answer to a licence that was entered: whom it is for, or why it is refused.
pub fn activation_json(outcome: Result<&str, &str>) -> (s: String)
    ensures
        s@ == match outcome {
            Ok(name) => "{\"ok\":true,\"name\":\""@ + text::requoted(name@) + "\"}"@,
            Err(why) => "{\"ok\":false,\"error\":\""@ + text::requoted(why@) + "\"}"@,
        },
{
    match outcome {
        Ok(name) => {
            let mut s = String::from_str("{\"ok\":true,\"name\":\"");
            s.append(text::requote(name).as_str());
            s.append("\"}");
            s
        },
        Err(why) => {
            let mut s = String::from_str("{\"ok\":false,\"error\":\"");
            s.append(text::requote(why).as_str());
            s.append("\"}");
            s
        },
    }
}

/// What a joining machine is told: which version to fetch, and where releases are.
pub fn join_json(version: &str) -> (s: String)
    ensures
        s@ == "{\"version\":\""@ + version@ + "\",\"repo\":\"amor-openmind/seam-releases\"}"@,
{
    let mut s = String::from_str("{\"version\":\"");
    s.append(version);
    s.append("\",\"repo\":\"amor-openmind/seam-releases\"}");
    s
}

// ---------------------------------------------------------------- where the page is
/// The port a note names.
pub open spec fn noted_port(note: Seq<char>) -> Option<u16> {
    match text::number(text::trimmed(note)) {
        Some(n) => if n <= u16::MAX {
            Some(n as u16)
        } else {
            None
        },
        None => None,
    }
}

/// The port a note names.
pub fn read_port_note(note: &str) -> (r: Option<u16>)
    ensures
        r == noted_port(note@),
{
    let chars = text::chars_of(note);
    let line = text::trim(chars.as_slice());
    match text::parse_number(line.as_slice(), 65535) {
        Some(n) => Some(n as u16),
        None => None,
    }
}

/// Whether a note about where the page is still names this program's own page, and may be
/// removed. The one that takes over writes its own note to the same place.
pub fn note_is_ours(own: u16, note: Option<&str>) -> (b: bool)
    ensures
        b == (own != 0 && (note matches Some(text) && noted_port(text@) == Some(own))),
{
    if own == 0 {
        return false;
    }
    match note {
        Some(text) => match read_port_note(text) {
            Some(port) => port == own,
            None => false,
        },
        None => false,
    }
}

/// A note names the port that was written to it.
pub proof fn a_note_names_its_port(port: u16)
    ensures
        noted_port(text::decimal(port as nat)) == Some(port),
{
    let s = text::decimal(port as nat);
    text::digits_of_decimal(port as nat);
    text::number_of_decimal(port as nat);
    assert(s.last() == s[s.len() - 1]);
    text::trimmed_already(s);
}

/// The request that asks the program already running here to stop.
pub fn quit_request(port: u16) -> (s: String)
    ensures
        s@ == "POST /action/quit HTTP/1.1\r\nHost: 127.0.0.1:"@ + text::decimal(port as nat)
            + "\r\nContent-Length: 0\r\nConnection: close\r\n\r\n"@,
{
    let mut s = String::from_str("POST /action/quit HTTP/1.1\r\nHost: 127.0.0.1:");
    s.append(text::decimal_text(port as u64).as_str());
    s.append("\r\nContent-Length: 0\r\nConnection: close\r\n\r\n");
    s
}

/// The address of a page on this machine.
pub fn page_url(port: u16, path: &str) -> (s: String)
    ensures
        s@ == "http://127.0.0.1:"@ + text::decimal(port as nat) + path@,
{
    let mut s = String::from_str("http://127.0.0.1:");
    s.append(text::decimal_text(port as u64).as_str());
    s.append(path);
    s
}

// ---------------------------------------------------------------- what requests mean
/// The first word of a request is its method and the second its path.
pub proof fn a_request_names_method_and_path(
    method: Seq<char>,
    path: Seq<char>,
    rest: Seq<char>,
)
    requires
        text::solid(method),
        text::solid(path),
        method.len() > 0,
        path.len() > 0,
    ensures
        method_of(method.push(' ') + (path.push(' ') + rest)) == method,
        path_of(method.push(' ') + (path.push(' ') + rest)) == path,
{
    text::words_stand_between_white_space(Seq::empty(), ' ', method);
    text::words_stand_between_white_space(Seq::empty(), ' ', path);
    text::white_space_parts_the_words(method, ' ', path.push(' ') + rest);
    text::white_space_parts_the_words(path, ' ', rest);
    let words = text::words_of(method.push(' ') + (path.push(' ') + rest));
    assert(words == seq![method] + (seq![path] + text::words_of(rest)));
    assert(words[0] == method && words[1] == path);
}

/// The body is what follows the first empty line.
pub proof fn the_body_follows_the_empty_line(head: Seq<char>, body: Seq<char>)
    requires
        text::found(head + "\r\n\r\n"@ + body, "\r\n\r\n"@, 0) == Some(head.len() as int),
        text::found(body, "\r\n\r\n"@, 0) is None,
    ensures
        body_of(head + "\r\n\r\n"@ + body) == body,
{
    let gap = "\r\n\r\n"@;
    let s = head + gap + body;
    let at = head.len() as int;
    assert(s.skip(at + gap.len()) =~= body);
}

/// A page of this machine is let through, by either of its names and on its own port only;
/// so is what says neither where it comes from nor where it goes.
pub proof fn the_page_itself_is_let_through(request: Seq<char>, port: u16)
    ensures
        ({
            let lines = text::lines_of(request);
            let (origin, host) = (first_header(lines, "origin"@), first_header(lines, "host"@));
            let number = text::decimal(port as nat);
            &&& origin is None && host is None ==> is_local(request, port)
            &&& (origin is None || origin == Some("http://127.0.0.1:"@ + number) || origin == Some(
                "http://localhost:"@ + number,
            )) && (host is None || host == Some("127.0.0.1:"@ + number) || host == Some(
                "localhost:"@ + number,
            )) ==> is_local(request, port)
        }),
{
}

/// A header is found by its name, whatever the case of its letters, and says what follows
/// the first colon; of several lines the first counts.
pub proof fn a_header_says_what_follows_its_colon(
    lines: Seq<Seq<char>>,
    name: Seq<char>,
    value: Seq<char>,
    wanted: Seq<char>,
    i: int,
)
    requires
        !name.contains(':'),
        0 <= i <= lines.len(),
        forall|k: int| 0 <= k < i ==> header_line(#[trigger] lines[k], wanted) is None,
    ensures
        text::lowered(text::trimmed(name)) == text::lowered(wanted) ==> header_line(
            name.push(':') + value,
            wanted,
        ) == Some(text::trimmed(value)),
        text::lowered(text::trimmed(name)) != text::lowered(wanted) ==> header_line(
            name.push(':') + value,
            wanted,
        ) is None,
        i < lines.len() && header_line(lines[i], wanted) is Some ==> first_header(lines, wanted)
            == header_line(lines[i], wanted),
        i == lines.len() ==> first_header(lines, wanted) is None,
    decreases lines.len(),
{
    reveal_strlit(":");
    let (line, colon) = (name.push(':') + value, ":"@);
    let n = name.len() as int;
    text::what_is_found_is_the_first(line, colon, 0);
    assert(line.subrange(n, n + colon.len()) =~= colon);
    let at = text::found(line, colon, 0)->0;
    if at < n {
        assert(line.subrange(at, at + colon.len())[0] == line[at]);
        assert(name[at] == ':');
    }
    assert(line.take(n) =~= name);
    assert(line.skip(n + 1) =~= value);
    if lines.len() > 0 {
        let front = lines.drop_last();
        let m = if i < front.len() {
            i
        } else {
            front.len() as int
        };
        assert forall|k: int| 0 <= k < m implies header_line(#[trigger] front[k], wanted) is None by {
            assert(front[k] == lines[k]);
        }
        a_header_says_what_follows_its_colon(front, name, value, wanted, m);
        if i < front.len() {
            assert(front[i] == lines[i]);
        } else if i == lines.len() {
            assert(lines.last() == lines[lines.len() - 1]);
        }
    }
}

/// A page is served by the first entry with its route, and only by one with it.
pub proof fn a_page_is_served_by_its_route(pages: Seq<Page>, path: Seq<char>)
    ensures
        match page_at(pages, path) {
            Some(i) => 0 <= i < pages.len() && pages[i].route@ == path && forall|k: int|
                0 <= k < i ==> (#[trigger] pages[k]).route@ != path,
            None => forall|k: int| 0 <= k < pages.len() ==> (#[trigger] pages[k]).route@ != path,
        },
    decreases pages.len(),
{
    if pages.len() > 0 {
        let front = pages.drop_last();
        a_page_is_served_by_its_route(front, path);
        match page_at(front, path) {
            Some(i) => {
                assert(front[i] == pages[i]);
                assert forall|k: int| 0 <= k < i implies (#[trigger] pages[k]).route@ != path by {
                    assert(front[k] == pages[k]);
                }
            },
            None => {
                assert forall|k: int| 0 <= k < front.len() implies (#[trigger] pages[k]).route@
                    != path by {
                    assert(front[k] == pages[k]);
                }
            },
        }
    }
}

/// A switch on the page moves the kind it names and no other; one that names no kind moves
/// none.
pub proof fn a_share_switch_moves_only_its_kind(shares: Shares, word: Seq<char>, on: bool)
    ensures
        ({
            let after = switched(shares, kind_of(word), on);
            &&& after.text == (if word == "text"@ {
                on
            } else {
                shares.text
            })
            &&& after.images == (if word == "images"@ {
                on
            } else {
                shares.images
            })
            &&& after.files == (if word == "files"@ {
                on
            } else {
                shares.files
            })
        }),
{
    reveal_strlit("text");
    reveal_strlit("images");
    reveal_strlit("files");
    assert("text"@[0] != "images"@[0] && "text"@[0] != "files"@[0] && "images"@[0] != "files"@[0]);
}

/// The parts of a path behind its start are what stands between the slashes.
proof fn parts_of_a_path(start: Seq<char>, a: Seq<char>, b: Seq<char>, c: Seq<char>, o: Seq<char>)
    requires
        start.len() > 0,
        start[0] == '/',
        a.len() > 0,
        !a.contains('/'),
        !b.contains('/'),
        !c.contains('/'),
    ensures
        ({
            let path = start + (a.push('/') + b);
            part(path, start, 0, o) == a && part(path, start, 1, o) == b && part(path, start, 2, o)
                == o
        }),
        ({
            let path = start + ((a.push('/') + b).push('/') + c);
            part(path, start, 0, o) == a && part(path, start, 1, o) == b && part(path, start, 2, o)
                == c
        }),
        text::begins(start + (a.push('/') + b), start),
        text::begins(start + ((a.push('/') + b).push('/') + c), start),
{
    let two = a.push('/') + b;
    let three = two.push('/') + c;
    assert(a[0] != '/');
    assert(two[0] == a[0] && three[0] == a[0]);
    assert(!text::begins(two, start)) by {
        if text::begins(two, start) {
            assert(two.take(start.len() as int)[0] == two[0]);
        }
    }
    assert(!text::begins(three, start)) by {
        if text::begins(three, start) {
            assert(three.take(start.len() as int)[0] == three[0]);
        }
    }
    text::stripping_takes_whole_repetitions(two, start);
    text::stripping_takes_whole_repetitions(three, start);
    assert((start + two).take(start.len() as int) =~= start);
    assert((start + three).take(start.len() as int) =~= start);
    text::a_separator_begins_a_piece(Seq::empty(), '/', a);
    text::a_separator_begins_a_piece(a, '/', b);
    text::a_separator_begins_a_piece(two, '/', c);
    assert(text::pieces(two, '/') == seq![a].push(b));
    assert(text::pieces(three, '/') == seq![a].push(b).push(c));
}

/// Whether the path starts like one of the other actions.
proof fn actions_start_apart(path: Seq<char>)
    ensures
        path == "/action/quit"@ || path == "/action/release"@ || path == "/action/activate"@
            ==> path.len() >= 12 && (path[8] == 'q' || path[8] == 'r' || path[8] == 'a'),
        text::begins(path, "/action/pair/"@) ==> path.len() >= 13 && path[8] == 'p' && path[9]
            == 'a',
        text::begins(path, "/action/startup/"@) ==> path.len() >= 16 && path[8] == 's' && path[9]
            == 't',
        text::begins(path, "/action/share/"@) ==> path.len() >= 14 && path[8] == 's' && path[9]
            == 'h',
        text::begins(path, "/action/layout/"@) ==> path.len() >= 15 && path[8] == 'l',
        text::begins(path, "/action/peer/"@) ==> path.len() >= 13 && path[8] == 'p' && path[9]
            == 'e',
        path == "/action/quit"@ ==> path[8] == 'q',
        path == "/action/release"@ ==> path[8] == 'r',
        path == "/action/activate"@ ==> path[8] == 'a',
{
    reveal_strlit("/action/quit");
    reveal_strlit("/action/release");
    reveal_strlit("/action/activate");
    reveal_strlit("/action/pair/");
    reveal_strlit("/action/startup/");
    reveal_strlit("/action/share/");
    reveal_strlit("/action/layout/");
    reveal_strlit("/action/peer/");
    if text::begins(path, "/action/pair/"@) {
        assert(path.take(13)[8] == path[8] && path.take(13)[9] == path[9]);
    }
    if text::begins(path, "/action/startup/"@) {
        assert(path.take(16)[8] == path[8] && path.take(16)[9] == path[9]);
    }
    if text::begins(path, "/action/share/"@) {
        assert(path.take(14)[8] == path[8] && path.take(14)[9] == path[9]);
    }
    if text::begins(path, "/action/layout/"@) {
        assert(path.take(15)[8] == path[8]);
    }
    if text::begins(path, "/action/peer/"@) {
        assert(path.take(13)[8] == path[8] && path.take(13)[9] == path[9]);
    }
}

/// Placing a machine names it, the side and the neighbour, in this order; without a
/// neighbour this machine is meant.
pub proof fn placing_names_machine_side_and_neighbour(
    request: Seq<char>,
    peer: Seq<char>,
    edge: Seq<char>,
    anchor: Seq<char>,
)
    requires
        peer.len() > 0,
        !peer.contains('/'),
        !edge.contains('/'),
        !anchor.contains('/'),
    ensures
        action(request, "/action/layout/"@ + ((peer.push('/') + edge).push('/') + anchor)) == Some(
            AskModel::Place { peer, edge, anchor },
        ),
        action(request, "/action/layout/"@ + (peer.push('/') + edge)) == Some(
            AskModel::Place { peer, edge, anchor: "self"@ },
        ),
{
    let start = "/action/layout/"@;
    reveal_strlit("/action/layout/");
    let none = Seq::<char>::empty();
    parts_of_a_path(start, peer, edge, anchor, none);
    parts_of_a_path(start, peer, edge, anchor, "self"@);
    actions_start_apart(start + ((peer.push('/') + edge).push('/') + anchor));
    actions_start_apart(start + (peer.push('/') + edge));
}

/// Switching a machine names it and then whether it is to be on; sharing names the kind and
/// then whether it is to be shared.
pub proof fn switches_name_what_and_how(request: Seq<char>, what: Seq<char>, how: Seq<char>)
    requires
        what.len() > 0,
        !what.contains('/'),
        !how.contains('/'),
    ensures
        action(request, "/action/peer/"@ + (what.push('/') + how)) == Some(
            AskModel::Switch { peer: what, enable: how == "enable"@ },
        ),
        action(request, "/action/share/"@ + (what.push('/') + how)) == Some(
            AskModel::Share { kind: kind_of(what), on: how == "on"@ },
        ),
{
    let none = Seq::<char>::empty();
    reveal_strlit("/action/peer/");
    reveal_strlit("/action/share/");
    parts_of_a_path("/action/peer/"@, what, how, none, none);
    parts_of_a_path("/action/share/"@, what, how, none, none);
    actions_start_apart("/action/peer/"@ + (what.push('/') + how));
    actions_start_apart("/action/share/"@ + (what.push('/') + how));
}

/// The actions that name nothing, and pairing: confirming and declining are told apart, and
/// any other name is that of the machine to pair with.
pub proof fn actions_are_told_by_their_paths(request: Seq<char>, short: Seq<char>)
    requires
        short.len() > 0,
        !short.contains('/'),
        short != "confirm"@,
        short != "decline"@,
    ensures
        action(request, "/action/quit"@) == Some(AskModel::Quit),
        action(request, "/action/release"@) == Some(AskModel::Release),
        action(request, "/action/activate"@) == Some(
            AskModel::Activate { key: text::trimmed(body_of(request)) },
        ),
        action(request, "/action/pair/confirm"@) == Some(AskModel::ConfirmPairing),
        action(request, "/action/pair/decline"@) == Some(AskModel::DeclinePairing),
        action(request, "/action/pair/"@ + short) == Some(AskModel::Pair { short }),
        action(request, "/action/startup/on"@) == Some(AskModel::Startup { on: true }),
        action(request, "/action/startup/off"@) == Some(AskModel::Startup { on: false }),
{
    reveal_strlit("/action/quit");
    reveal_strlit("/action/release");
    reveal_strlit("/action/activate");
    reveal_strlit("/action/pair/");
    reveal_strlit("/action/pair/confirm");
    reveal_strlit("/action/pair/decline");
    reveal_strlit("/action/startup/");
    reveal_strlit("/action/startup/on");
    reveal_strlit("/action/startup/off");
    reveal_strlit("confirm");
    reveal_strlit("decline");
    reveal_strlit("/on");
    let (p, c, d) = ("/action/pair/"@, "/action/pair/confirm"@, "/action/pair/decline"@);
    let n = p.len() as int;
    assert(c.take(n) =~= p && c.skip(n) =~= "confirm"@);
    assert(d.take(n) =~= p && d.skip(n) =~= "decline"@);
    assert(c[13] != d[13]);
    assert((p + short).take(n) =~= p && (p + short).skip(n) =~= short);
    assert(short[0] != '/');
    if text::begins(short, p) {
        assert(short.take(n)[0] == short[0]);
    }
    text::stripping_takes_whole_repetitions(short, p);
    let (start, on, off) = ("/action/startup/"@, "/action/startup/on"@, "/action/startup/off"@);
    assert(on.take(16) =~= start && off.take(16) =~= start);
    assert(on.skip(15) =~= "/on"@);
    assert(off.skip(16)[0] != "/on"@[0]);
    actions_start_apart("/action/quit"@);
    actions_start_apart("/action/release"@);
    actions_start_apart("/action/activate"@);
    actions_start_apart(c);
    actions_start_apart(d);
    actions_start_apart(p + short);
    actions_start_apart(on);
    actions_start_apart(off);
}

/// A response begins with its status and ends with its body, and says how long that is.
pub proof fn a_response_holds_its_body(
    status: Seq<char>,
    content_type: Seq<char>,
    body: Seq<u8>,
)
    ensures
        ({
            let (r, n) = (response_bytes(status, content_type, body), body.len());
            let head = response_head(status, content_type, n);
            &&& r.len() == encode_utf8(head).len() + n
            &&& r.skip(r.len() - n) == body
            &&& text::begins(head, "HTTP/1.1 "@ + status)
            &&& text::finishes(head, "\r\n\r\n"@)
            &&& exists|i: int|
                text::stands_at(head, "\r\nContent-Length: "@ + text::decimal(n), i)
            &&& exists|i: int| text::stands_at(head, "\r\nContent-Type: "@ + content_type, i)
        }),
{
    let n = body.len();
    let head = response_head(status, content_type, n);
    let r = response_bytes(status, content_type, body);
    assert(r.skip(r.len() - n) =~= body);
    let start = "HTTP/1.1 "@ + status;
    assert(head.take(start.len() as int) =~= start);
    let kind = "\r\nContent-Type: "@ + content_type;
    let long = "\r\nContent-Length: "@ + text::decimal(n);
    let i = start.len() as int;
    assert(head.subrange(i, i + kind.len()) =~= kind);
    assert(text::stands_at(head, kind, i));
    let j = i + kind.len();
    assert(head.subrange(j, j + long.len()) =~= long);
    assert(text::stands_at(head, long, j));
    reveal_strlit("\r\nCache-Control: no-store\r\nConnection: close\r\n\r\n");
    reveal_strlit("\r\n\r\n");
    let tail = "\r\nCache-Control: no-store\r\nConnection: close\r\n\r\n"@;
    assert(head.skip(head.len() - 4) =~= tail.skip(tail.len() - 4));
    assert(tail.skip(tail.len() - 4) =~= "\r\n\r\n"@);
}

/// What is asked for is told as it is, part by part.
pub proof fn what_is_asked_is_told_as_it_is(a: Ask)
    ensures
        match (a, a@) {
            (Ask::Pair { short }, AskModel::Pair { short: s }) => s == short@,
            (Ask::Startup { on }, AskModel::Startup { on: o }) => o == on,
            (Ask::Share { kind, on }, AskModel::Share { kind: k, on: o }) => k == kind && o == on,
            (
                Ask::Place { peer, edge, anchor },
                AskModel::Place { peer: p, edge: e, anchor: n },
            ) => p == peer@ && e == edge@ && n == anchor@,
            (Ask::Switch { peer, enable }, AskModel::Switch { peer: p, enable: e }) => p == peer@
                && e == enable,
            (Ask::Activate { key }, AskModel::Activate { key: k }) => k == key@,
            (Ask::Page { index }, AskModel::Page { index: i }) => i == index,
            (Ask::Refused, AskModel::Refused) => true,
            (Ask::Quit, AskModel::Quit) => true,
            (Ask::ConfirmPairing, AskModel::ConfirmPairing) => true,
            (Ask::DeclinePairing, AskModel::DeclinePairing) => true,
            (Ask::Release, AskModel::Release) => true,
            (Ask::Join, AskModel::Join) => true,
            (Ask::State, AskModel::State) => true,
            (Ask::NotFound, AskModel::NotFound) => true,
            _ => false,
        },
{
}

/// A request is whole as soon as its empty line is there, wherever it stands, and, short of
/// the most that is read, not before.
pub proof fn a_request_is_whole_at_its_empty_line(a: Seq<u8>, b: Seq<u8>)
    ensures
        is_whole(a + seq![13u8, 10, 13, 10] + b),
        a.len() > 16_384 ==> is_whole(a),
        a.len() <= 16_384 && !a.contains(10) ==> !is_whole(a),
{
    let s = a + seq![13u8, 10, 13, 10] + b;
    let i = a.len() as int;
    assert(s[i] == 13 && s[i + 1] == 10 && s[i + 2] == 13 && s[i + 3] == 10);
    if a.len() <= 16_384 && is_whole(a) {
        let k = choose|k: int|
            0 <= k && k + 4 <= a.len() && #[trigger] a[k] == 13 && a[k + 1] == 10 && a[k + 2] == 13
                && a[k + 3] == 10;
        assert(a.contains(10));
    }
}

/// A request of one word names its method, and the first page.
pub proof fn a_bare_request_asks_for_the_first_page(method: Seq<char>)
    requires
        text::solid(method),
        method.len() > 0,
    ensures
        method_of(method) == method,
        path_of(method) == "/"@,
        path_of(Seq::empty()) == "/"@,
        method_of(Seq::empty()) == "GET"@,
{
    text::words_stand_between_white_space(Seq::empty(), ' ', method);
}

/// Before a licence is there, a posted licence is taken as it was sent, the state is shown,
/// and pages are served as ever.
pub proof fn a_licence_can_be_entered_at_once(
    request: Seq<char>,
    path: Seq<char>,
    port: u16,
    pages: Seq<Page>,
)
    requires
        is_local(request, port),
    ensures
        method_of(request) == "POST"@ ==> asked_before_activation(
            request,
            "/action/activate"@,
            port,
            pages,
        ) == (AskModel::Activate { key: text::trimmed(body_of(request)) }),
        method_of(request) != "POST"@ && path != "/join"@ ==> asked_before_activation(
            request,
            path,
            port,
            pages,
        ) == asked(request, path, port, pages),
        reading("/state"@, pages) is State,
        reading("/join"@, pages) is Join,
{
    reveal_strlit("/state");
    reveal_strlit("/join");
    assert("/state"@[1] != "/join"@[1]);
}

} // verus!
