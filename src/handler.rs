//! One connection's decisions, as a state machine: the caller reads, probes and
//! loads files and writes bytes; each step here says what to do next.
use vstd::prelude::*;
use crate::mime::{content_type, mime};
use crate::request::{request_target, target_of};
use crate::resolve::{lemma_query_ignored, candidate, candidate_path, fallback, fallback_path, resolved, sanitize};
use crate::response::{found, found_response, not_found, not_found_response, ok, ok_response};

verus! {

/// Where a connection stands.
pub enum Phase {
    /// Nothing read yet.
    AwaitRequest,
    /// Waiting to learn whether the candidate path of `target` exists.
    Probing { target: Vec<char> },
    /// Waiting for the contents of the file at `path`.
    Reading { path: Vec<char> },
    /// Done: nothing more is read or written.
    Closed,
}

/// What the caller observed.
pub enum Event {
    /// The request text arrived (decoded from the bytes read).
    Received(Vec<char>),
    /// Reading the request failed.
    ReceiveFailed,
    /// Whether the path asked about exists.
    Probed(bool),
    /// The file asked for was read whole.
    Loaded(Vec<u8>),
    /// The file asked for could not be read.
    LoadFailed,
}

/// What the caller is to do next.
pub enum Action {
    /// Find out whether this path exists, and report `Probed`.
    Probe(Vec<char>),
    /// Read this file, and report `Loaded` or `LoadFailed`.
    Load(Vec<char>),
    /// Write these bytes, then close the connection.
    Send(Vec<u8>),
    /// Close the connection without writing anything.
    Close,
}

/// A `Phase` with its paths as character sequences.
pub enum PhaseView {
    AwaitRequest,
    Probing(Seq<char>),
    Reading(Seq<char>),
    Closed,
}

/// An `Event` with its text and bytes as sequences.
pub enum EventView {
    Received(Seq<char>),
    ReceiveFailed,
    Probed(bool),
    Loaded(Seq<u8>),
    LoadFailed,
}

/// An `Action` with its paths and bytes as sequences.
pub enum ActionView {
    Probe(Seq<char>),
    Load(Seq<char>),
    Send(Seq<u8>),
    Close,
}

impl View for Phase {
    type V = PhaseView;

    open spec fn view(&self) -> PhaseView {
        match self {
            Phase::AwaitRequest => PhaseView::AwaitRequest,
            Phase::Probing { target } => PhaseView::Probing(target@),
            Phase::Reading { path } => PhaseView::Reading(path@),
            Phase::Closed => PhaseView::Closed,
        }
    }
}

impl View for Event {
    type V = EventView;

    open spec fn view(&self) -> EventView {
        match self {
            Event::Received(text) => EventView::Received(text@),
            Event::ReceiveFailed => EventView::ReceiveFailed,
            Event::Probed(exists) => EventView::Probed(*exists),
            Event::Loaded(body) => EventView::Loaded(body@),
            Event::LoadFailed => EventView::LoadFailed,
        }
    }
}

impl View for Action {
    type V = ActionView;

    open spec fn view(&self) -> ActionView {
        match self {
            Action::Probe(path) => ActionView::Probe(path@),
            Action::Load(path) => ActionView::Load(path@),
            Action::Send(bytes) => ActionView::Send(bytes@),
            Action::Close => ActionView::Close,
        }
    }
}

/// The next phase and action of a connection serving files under `root`.
pub open spec fn next(root: Seq<char>, phase: PhaseView, event: EventView) -> (PhaseView, ActionView) {
    match (phase, event) {
        (PhaseView::AwaitRequest, EventView::Received(request)) => match target_of(request) {
            None => (PhaseView::Closed, ActionView::Close),
            Some(t) => if t == "/"@ {
                (PhaseView::Closed, ActionView::Send(found_response()))
            } else {
                match candidate(root, t) {
                    Some(c) => (PhaseView::Probing(t), ActionView::Probe(c)),
                    None => (PhaseView::Reading(fallback(root)), ActionView::Load(fallback(root))),
                }
            },
        },
        (PhaseView::Probing(t), EventView::Probed(exists)) => {
            let p = resolved(root, t, exists);
            (PhaseView::Reading(p), ActionView::Load(p))
        },
        (PhaseView::Reading(p), EventView::Loaded(body)) => (
            PhaseView::Closed,
            ActionView::Send(ok_response(body, content_type(p))),
        ),
        (PhaseView::Reading(_), EventView::LoadFailed) => (
            PhaseView::Closed,
            ActionView::Send(not_found_response()),
        ),
        _ => (PhaseView::Closed, ActionView::Close),
    }
}

/// What a caller finds on disk: the paths that exist, and the contents of those
/// that can be read as files.
pub struct Disk {
    pub present: Set<Seq<char>>,
    pub files: Map<Seq<char>, Seq<u8>>,
}

impl Disk {
    /// Every readable file exists.
    pub open spec fn valid(self) -> bool {
        self.files.dom().subset_of(self.present)
    }
}

/// The event a caller faithful to `disk` reports after doing `action`; `None`
/// when the action ends the connection.
pub open spec fn answer(disk: Disk, action: ActionView) -> Option<EventView> {
    match action {
        ActionView::Probe(path) => Some(EventView::Probed(disk.present.contains(path))),
        ActionView::Load(path) => if disk.files.contains_key(path) {
            Some(EventView::Loaded(disk.files[path]))
        } else {
            Some(EventView::LoadFailed)
        },
        _ => None,
    }
}

/// The last action of a connection under `root` that receives `request`, when
/// the caller answers every action from `disk`. A connection takes at most
/// three steps.
pub open spec fn serve(root: Seq<char>, request: Seq<char>, disk: Disk) -> ActionView {
    let (p1, a1) = next(root, PhaseView::AwaitRequest, EventView::Received(request));
    match answer(disk, a1) {
        None => a1,
        Some(e1) => {
            let (p2, a2) = next(root, p1, e1);
            match answer(disk, a2) {
                None => a2,
                Some(e2) => next(root, p2, e2).1,
            }
        },
    }
}

/// A connection always ends: it either writes a response and closes, or closes.
pub proof fn lemma_connection_ends(root: Seq<char>, request: Seq<char>, disk: Disk)
    ensures
        serve(root, request, disk) is Send || serve(root, request, disk) is Close,
{
}

/// A request for the site root `/` gets the redirect to `/intercept`.
pub proof fn lemma_site_root_redirects(root: Seq<char>, request: Seq<char>, disk: Disk)
    requires
        target_of(request) == Some("/"@),
    ensures
        serve(root, request, disk) == ActionView::Send(found_response()),
{
}

/// A request whose candidate path is a readable file gets that file, with its
/// length and the content type of its extension.
pub proof fn lemma_existing_file_served(
    root: Seq<char>,
    request: Seq<char>,
    disk: Disk,
    target: Seq<char>,
    path: Seq<char>,
)
    requires
        disk.valid(),
        target_of(request) == Some(target),
        target != "/"@,
        candidate(root, target) == Some(path),
        disk.files.contains_key(path),
    ensures
        serve(root, request, disk) == ActionView::Send(
            ok_response(disk.files[path], content_type(path)),
        ),
{
}

/// A request whose candidate path does not exist (or that has none) gets the
/// fallback file when it can be read, else the not-found response.
pub proof fn lemma_missing_file_falls_back(
    root: Seq<char>,
    request: Seq<char>,
    disk: Disk,
    target: Seq<char>,
)
    requires
        target_of(request) == Some(target),
        target != "/"@,
        candidate(root, target) matches Some(c) ==> !disk.present.contains(c),
    ensures
        serve(root, request, disk) == if disk.files.contains_key(fallback(root)) {
            ActionView::Send(ok_response(disk.files[fallback(root)], content_type(fallback(root))))
        } else {
            ActionView::Send(not_found_response())
        },
{
}

/// Two requests with the same target (the same request sent twice, say) get
/// the same bytes back from the same disk.
pub proof fn lemma_same_target_same_response(
    root: Seq<char>,
    first: Seq<char>,
    second: Seq<char>,
    disk: Disk,
)
    requires
        target_of(first) == target_of(second),
    ensures
        serve(root, first, disk) == serve(root, second, disk),
{
}

/// A query string does not change the response: a request for `path?query`
/// is answered as one for `path` (the site root `/` itself aside).
pub proof fn lemma_query_same_response(
    root: Seq<char>,
    with_query: Seq<char>,
    without_query: Seq<char>,
    disk: Disk,
    path: Seq<char>,
    query: Seq<char>,
)
    requires
        target_of(with_query) == Some(path + seq!['?'] + query),
        target_of(without_query) == Some(path),
        path != "/"@,
        !path.contains('?'),
    ensures
        serve(root, with_query, disk) == serve(root, without_query, disk),
{
    lemma_query_ignored(root, path, query);
    reveal_strlit("/");
    let t = path + seq!['?'] + query;
    assert(t[path.len() as int] == '?');
    assert(t != "/"@);
}

/// One connection of a server whose files lie under `root`.
pub struct Connection {
    pub root: Vec<char>,
    pub phase: Phase,
}

/// Whether `t` is the one-character target `/`.
fn is_site_root(t: &Vec<char>) -> (r: bool)
    ensures
        r == (t@ == "/"@),
{
    proof {
        reveal_strlit("/");
    }
    if t.len() == 1 && t[0] == '/' {
        assert(t@ =~= "/"@);
        true
    } else {
        false
    }
}

/// A copy of `v`.
fn copy_chars(v: &Vec<char>) -> (r: Vec<char>)
    ensures
        r@ == v@,
{
    let r = v.clone();
    assert(r@ =~= v@);
    r
}

impl Connection {
    /// A connection that has read nothing yet.
    pub fn new(root: Vec<char>) -> (r: Connection)
        ensures
            r.root@ == root@,
            r.phase@ == PhaseView::AwaitRequest,
    {
        Connection { root, phase: Phase::AwaitRequest }
    }

    /// Takes in what the caller observed and says what it is to do next.
    pub fn step(&mut self, event: Event) -> (r: Action)
        ensures
            final(self).root@ == old(self).root@,
            (final(self).phase@, r@) == next(old(self).root@, old(self).phase@, event@),
    {
        let action = match (&self.phase, event) {
            (Phase::AwaitRequest, Event::Received(request)) => match request_target(&request) {
                None => Action::Close,
                Some(t) => if is_site_root(&t) {
                    Action::Send(found())
                } else {
                    match candidate_path(&self.root, &t) {
                        Some(c) => {
                            self.phase = Phase::Probing { target: t };
                            return Action::Probe(c);
                        },
                        None => {
                            let p = fallback_path(&self.root);
                            self.phase = Phase::Reading { path: copy_chars(&p) };
                            return Action::Load(p);
                        },
                    }
                },
            },
            (Phase::Probing { target }, Event::Probed(exists)) => {
                let p = sanitize(&self.root, target, exists);
                self.phase = Phase::Reading { path: copy_chars(&p) };
                return Action::Load(p);
            },
            (Phase::Reading { path }, Event::Loaded(body)) => Action::Send(ok(&body, mime(path))),
            (Phase::Reading { .. }, Event::LoadFailed) => Action::Send(not_found()),
            _ => Action::Close,
        };
        self.phase = Phase::Closed;
        action
    }
}

} // verus!
