//! The session manager: the single owner of the session map, the
//! installed-program cache and the session-id counter. It is written as a
//! state machine: each event handler returns the actions (replies, queries,
//! dials, frame writes) that the surrounding event loop must perform, and its
//! contract equates the handler with a specification-level transition
//! function, over which the manager's laws are proved.
use crate::protocol::{data_msg, data_text, start_msg, start_text};
use crate::strmap::{
    assoc_contains, assoc_get, assoc_insert, assoc_remove, assoc_sorted, lemma_assoc_insert,
    lemma_assoc_remove, lemma_assoc_remove_absent, StringMap,
};
use crate::strutil::{lower_of, spec_split, split_spaces, str_eq, to_lower};
use vstd::prelude::*;
use vstd::string::StringExecFns;

verus! {

/// Where a session stands in its life cycle: reserved while the program's
/// description is looked up, reserved while its socket is dialed, or live.
#[derive(Clone, Copy, PartialEq, Eq, Structural)]
pub enum SessionPhase {
    AwaitingDesc,
    AwaitingDial,
    Live,
}

/// One session: its manager-assigned id, the hosted program's name, and the
/// phase it is in. The socket itself lives with the event loop.
pub struct AppSession {
    pub id: u64,
    pub name: String,
    pub phase: SessionPhase,
}

#[verifier::ext_equal]
pub ghost struct SessView {
    pub id: u64,
    pub name: Seq<char>,
    pub phase: SessionPhase,
}

impl View for AppSession {
    type V = SessView;

    open spec fn view(&self) -> SessView {
        SessView { id: self.id, name: self.name@, phase: self.phase }
    }
}

/// A cached program: its name and its one-line description.
pub struct AppInfo {
    pub name: String,
    pub desc: String,
}

#[verifier::ext_equal]
pub ghost struct InfoView {
    pub name: Seq<char>,
    pub desc: Seq<char>,
}

impl View for AppInfo {
    type V = InfoView;

    open spec fn view(&self) -> InfoView {
        InfoView { name: self.name@, desc: self.desc@ }
    }
}

/// A pending listing: the names whose descriptions are still being fetched
/// before the listing reply can be sent.
pub struct ListJob {
    pub waiting: Vec<String>,
}

impl View for ListJob {
    type V = Seq<Seq<char>>;

    open spec fn view(&self) -> Seq<Seq<char>> {
        self.waiting.deep_view()
    }
}

/// The events the manager consumes, all through one queue.
pub enum AppMsg {
    /// Inbound text from a user: (source key, text).
    InMsg(String, String),
    /// A session ended; removed only if the id matches the key's occupant.
    EndMsg(String, u64),
    /// Output of a session, to forward verbatim: (source key, text).
    OutMsg(String, String),
    /// Shutdown sentinel: stop consuming.
    Finish,
    /// Result of a description query: (source key, program name, description).
    DescMsg(String, String, Option<String>),
    /// Result of dialing a program's socket: (source key, session id, success).
    DialMsg(String, u64, bool),
    /// Contents of the installed-program directory: (source key, names).
    DirMsg(String, Vec<String>),
}

/// The outside work a handler asks the event loop to perform.
pub enum Action {
    /// Send text to a user: (destination key, text).
    Reply(String, String),
    /// Query a program's description: (directory, name, source key).
    Query(String, String, String),
    /// Dial a program's socket: (directory, name, source key, session id).
    Dial(String, String, String, u64),
    /// Write a frame payload on a session's socket: (source key, payload).
    SendFrame(String, String),
    /// Push the local stop sentinel into a session: (source key).
    StopSession(String),
    /// Enumerate the installed-program directory: (directory, source key).
    ListDir(String, String),
}

#[verifier::ext_equal]
pub ghost enum ActView {
    Reply(Seq<char>, Seq<char>),
    Query(Seq<char>, Seq<char>, Seq<char>),
    Dial(Seq<char>, Seq<char>, Seq<char>, u64),
    SendFrame(Seq<char>, Seq<char>),
    StopSession(Seq<char>),
    ListDir(Seq<char>, Seq<char>),
}

impl View for Action {
    type V = ActView;

    open spec fn view(&self) -> ActView {
        match self {
            Action::Reply(d, t) => ActView::Reply(d@, t@),
            Action::Query(dir, n, s) => ActView::Query(dir@, n@, s@),
            Action::Dial(dir, n, s, id) => ActView::Dial(dir@, n@, s@, *id),
            Action::SendFrame(s, p) => ActView::SendFrame(s@, p@),
            Action::StopSession(s) => ActView::StopSession(s@),
            Action::ListDir(dir, s) => ActView::ListDir(dir@, s@),
        }
    }
}

pub open spec fn acts_view(v: Vec<Action>) -> Seq<ActView> {
    Seq::new(v@.len(), |i: int| v@[i]@)
}

/// The manager's mathematical state.
#[verifier::ext_equal]
pub ghost struct StateView {
    pub app_dir: Seq<char>,
    pub app_id: u64,
    pub running: Seq<(Seq<char>, SessView)>,
    pub cache: Seq<(Seq<char>, InfoView)>,
    pub lists: Seq<(Seq<char>, Seq<Seq<char>>)>,
}

/// A transition: the state after a step, and the actions the step asks for.
#[verifier::ext_equal]
pub ghost struct Step {
    pub state: StateView,
    pub acts: Seq<ActView>,
}

/// Every cached program is filed under its own name.
pub open spec fn cache_names_match(cache: Seq<(Seq<char>, InfoView)>) -> bool {
    forall|k: Seq<char>|
        #[trigger] assoc_get(cache, k) is Some ==> assoc_get(cache, k)->Some_0.name == k
}

pub open spec fn state_wf(s: StateView) -> bool {
    &&& assoc_sorted(s.running)
    &&& assoc_sorted(s.cache)
    &&& assoc_sorted(s.lists)
    &&& cache_names_match(s.cache)
}

// The replies the manager sends, word for word.
pub open spec fn help_text() -> Seq<char> {
    "Welcome to signal-apps!"@
}

pub open spec fn no_apps_text() -> Seq<char> {
    "You have no running apps. Send `help` to learn more."@
}

pub open spec fn already_running_text() -> Seq<char> {
    "You are already running an app. See `currentapp` for more info."@
}

pub open spec fn malformed_start_text() -> Seq<char> {
    "Malformed startapp request, Expected `startapp <app>`."@
}

pub open spec fn not_found_text() -> Seq<char> {
    "Could not find app, please contact your admin if you believe this is in error."@
}

pub open spec fn could_not_start_text() -> Seq<char> {
    "Could not start app, please notify your admin."@
}

pub open spec fn stopped_text() -> Seq<char> {
    "Stopped app"@
}

pub open spec fn list_header_text() -> Seq<char> {
    "You currently have the following apps installed.\nTo install more, please contact your admin."@
}

pub fn help_msg() -> (r: String)
    ensures
        r@ == help_text(),
{
    "Welcome to signal-apps!".to_owned()
}

pub fn no_apps_msg() -> (r: String)
    ensures
        r@ == no_apps_text(),
{
    "You have no running apps. Send `help` to learn more.".to_owned()
}

pub fn already_running_msg() -> (r: String)
    ensures
        r@ == already_running_text(),
{
    "You are already running an app. See `currentapp` for more info.".to_owned()
}

pub fn malformed_start_msg() -> (r: String)
    ensures
        r@ == malformed_start_text(),
{
    "Malformed startapp request, Expected `startapp <app>`.".to_owned()
}

pub fn not_found_msg() -> (r: String)
    ensures
        r@ == not_found_text(),
{
    "Could not find app, please contact your admin if you believe this is in error.".to_owned()
}

pub fn could_not_start_msg() -> (r: String)
    ensures
        r@ == could_not_start_text(),
{
    "Could not start app, please notify your admin.".to_owned()
}

pub fn stopped_msg() -> (r: String)
    ensures
        r@ == stopped_text(),
{
    "Stopped app".to_owned()
}

pub fn list_header_msg() -> (r: String)
    ensures
        r@ == list_header_text(),
{
    "You currently have the following apps installed.\nTo install more, please contact your admin.".to_owned()
}

/// One listing line per cached program, in the cache's (sorted) order.
pub open spec fn listing_entries(cache: Seq<(Seq<char>, InfoView)>) -> Seq<char>
    decreases cache.len(),
{
    if cache.len() == 0 {
        Seq::<char>::empty()
    } else {
        "\n"@ + cache[0].1.name + " - "@ + cache[0].1.desc + listing_entries(cache.drop_first())
    }
}

pub open spec fn listing_text(cache: Seq<(Seq<char>, InfoView)>) -> Seq<char> {
    list_header_text() + listing_entries(cache)
}

pub proof fn lemma_listing_concat(a: Seq<(Seq<char>, InfoView)>, b: Seq<(Seq<char>, InfoView)>)
    ensures
        listing_entries(a + b) == listing_entries(a) + listing_entries(b),
    decreases a.len(),
{
    if a.len() == 0 {
        assert(a + b =~= b);
        assert(listing_entries(a) + listing_entries(b) =~= listing_entries(b));
    } else {
        lemma_listing_concat(a.drop_first(), b);
        assert((a + b).drop_first() =~= a.drop_first() + b);
        assert((a + b)[0] == a[0]);
        assert(listing_entries(a + b) =~= listing_entries(a) + listing_entries(b));
    }
}

/// The id counter advances until it would overflow, then stays put.
pub open spec fn next_id(n: u64) -> u64 {
    if n < u64::MAX {
        (n + 1) as u64
    } else {
        n
    }
}

/// Reserving the key and starting the lookup-then-dial sequence.
pub open spec fn spec_startapp(s: StateView, source: Seq<char>, name: Seq<char>) -> Step {
    let id = s.app_id;
    let cached = assoc_contains(s.cache, name);
    let sess = SessView {
        id,
        name,
        phase: if cached {
            SessionPhase::AwaitingDial
        } else {
            SessionPhase::AwaitingDesc
        },
    };
    let s1 = StateView {
        app_id: next_id(s.app_id),
        running: assoc_insert(s.running, source, sess),
        ..s
    };
    if cached {
        Step { state: s1, acts: seq![ActView::Dial(s.app_dir, name, source, id)] }
    } else {
        Step { state: s1, acts: seq![ActView::Query(s.app_dir, name, source)] }
    }
}

/// Ending a session: with an id, only the matching occupant is removed
/// (stale terminations fall through silently); without one, the occupant is
/// removed whoever it is, and its absence is reported.
pub open spec fn spec_endapp(s: StateView, source: Seq<char>, appid: Option<u64>) -> Step {
    let occ = assoc_get(s.running, source);
    if appid is Some && (occ is None || occ->Some_0.id != appid->0) {
        Step { state: s, acts: Seq::empty() }
    } else {
        match occ {
            None => Step { state: s, acts: seq![ActView::Reply(source, no_apps_text())] },
            Some(sess) => Step {
                state: StateView { running: assoc_remove(s.running, source), ..s },
                acts: (if sess.phase == SessionPhase::Live {
                    seq![ActView::StopSession(source)]
                } else {
                    Seq::empty()
                }) + seq![ActView::Reply(source, stopped_text())],
            },
        }
    }
}

/// Dispatching one line of inbound text. The line is split on spaces and
/// only the first token is lower-cased, for command matching; the program
/// name of a start command and forwarded payloads keep their casing.
pub open spec fn spec_dispatch(s: StateView, source: Seq<char>, raw: Seq<char>) -> Step {
    let toks = spec_split(raw, ' ');
    let cmd = lower_of(toks[0]);
    if cmd == "startapp"@ {
        if assoc_contains(s.running, source) {
            Step { state: s, acts: seq![ActView::Reply(source, already_running_text())] }
        } else if toks.len() != 2 {
            Step { state: s, acts: seq![ActView::Reply(source, malformed_start_text())] }
        } else {
            spec_startapp(s, source, toks[1])
        }
    } else if cmd == "listapps"@ {
        Step { state: s, acts: seq![ActView::ListDir(s.app_dir, source)] }
    } else if cmd == "currentapp"@ {
        match assoc_get(s.running, source) {
            None => Step { state: s, acts: seq![ActView::Reply(source, no_apps_text())] },
            Some(sess) => Step { state: s, acts: seq![ActView::Reply(source, sess.name)] },
        }
    } else if cmd == "endapp"@ {
        spec_endapp(s, source, None)
    } else if cmd == "help"@ {
        Step { state: s, acts: seq![ActView::Reply(source, help_text())] }
    } else {
        match assoc_get(s.running, source) {
            None => Step { state: s, acts: seq![ActView::Reply(source, help_text())] },
            Some(sess) => if sess.phase == SessionPhase::Live {
                Step { state: s, acts: seq![ActView::SendFrame(source, data_text(raw))] }
            } else {
                Step { state: s, acts: Seq::empty() }
            },
        }
    }
}

/// The waiting list with every occurrence of one name removed.
pub open spec fn seq_remove_all(w: Seq<Seq<char>>, x: Seq<char>) -> Seq<Seq<char>>
    decreases w.len(),
{
    if w.len() == 0 {
        w
    } else if w[0] == x {
        seq_remove_all(w.drop_first(), x)
    } else {
        seq![w[0]] + seq_remove_all(w.drop_first(), x)
    }
}

/// A description result: cache it (first answer wins), advance the source's
/// pending start, and advance the source's pending listing.
pub open spec fn spec_desc(
    s: StateView,
    source: Seq<char>,
    name: Seq<char>,
    desc: Option<Seq<char>>,
) -> Step {
    let cache1 = match desc {
        Some(d) => if assoc_contains(s.cache, name) {
            s.cache
        } else {
            assoc_insert(s.cache, name, InfoView { name, desc: d })
        },
        None => s.cache,
    };
    let occ = assoc_get(s.running, source);
    let advancing = occ matches Some(sess) && sess.phase == SessionPhase::AwaitingDesc
        && sess.name == name;
    let run1 = if advancing {
        if desc is Some {
            assoc_insert(
                s.running,
                source,
                SessView { id: occ->Some_0.id, name, phase: SessionPhase::AwaitingDial },
            )
        } else {
            assoc_remove(s.running, source)
        }
    } else {
        s.running
    };
    let sacts = if advancing {
        if desc is Some {
            seq![ActView::Dial(s.app_dir, name, source, occ->Some_0.id)]
        } else {
            seq![ActView::Reply(source, not_found_text())]
        }
    } else {
        Seq::<ActView>::empty()
    };
    let job = assoc_get(s.lists, source);
    let listing = job matches Some(w) && w.contains(name);
    let lists1 = if listing {
        if seq_remove_all(job->Some_0, name).len() == 0 {
            assoc_remove(s.lists, source)
        } else {
            assoc_insert(s.lists, source, seq_remove_all(job->Some_0, name))
        }
    } else {
        s.lists
    };
    let lacts = if listing && seq_remove_all(job->Some_0, name).len() == 0 {
        seq![ActView::Reply(source, listing_text(cache1))]
    } else {
        Seq::<ActView>::empty()
    };
    Step {
        state: StateView { running: run1, cache: cache1, lists: lists1, ..s },
        acts: sacts + lacts,
    }
}

/// A dial result: only the matching reserved occupant goes live (or is
/// discarded on failure); anything else is stale and ignored.
pub open spec fn spec_dial(s: StateView, source: Seq<char>, id: u64, ok: bool) -> Step {
    let occ = assoc_get(s.running, source);
    let advancing = occ matches Some(sess) && sess.phase == SessionPhase::AwaitingDial
        && sess.id == id;
    if advancing {
        if ok {
            Step {
                state: StateView {
                    running: assoc_insert(
                        s.running,
                        source,
                        SessView { id, name: occ->Some_0.name, phase: SessionPhase::Live },
                    ),
                    ..s
                },
                acts: seq![ActView::SendFrame(source, start_text(source))],
            }
        } else {
            Step {
                state: StateView { running: assoc_remove(s.running, source), ..s },
                acts: seq![ActView::Reply(source, could_not_start_text())],
            }
        }
    } else {
        Step { state: s, acts: Seq::empty() }
    }
}

/// The directory names that still need a description query.
pub open spec fn spec_missing(
    names: Seq<Seq<char>>,
    cache: Seq<(Seq<char>, InfoView)>,
) -> Seq<Seq<char>>
    decreases names.len(),
{
    if names.len() == 0 {
        names
    } else {
        let rest = spec_missing(names.drop_first(), cache);
        if assoc_contains(cache, names[0]) {
            rest
        } else {
            seq![names[0]] + rest
        }
    }
}

pub open spec fn spec_queries(names: Seq<Seq<char>>, dir: Seq<char>, source: Seq<char>) -> Seq<
    ActView,
> {
    Seq::new(names.len(), |i: int| ActView::Query(dir, names[i], source))
}

/// A directory listing: reply at once when every name is cached, else store
/// the waiting names and query each of them.
pub open spec fn spec_dir(s: StateView, source: Seq<char>, names: Seq<Seq<char>>) -> Step {
    let missing = spec_missing(names, s.cache);
    if missing.len() == 0 {
        Step { state: s, acts: seq![ActView::Reply(source, listing_text(s.cache))] }
    } else {
        Step {
            state: StateView { lists: assoc_insert(s.lists, source, missing), ..s },
            acts: spec_queries(missing, s.app_dir, source),
        }
    }
}

/// One manager step, for each kind of event.
pub open spec fn spec_step(s: StateView, m: AppMsg) -> Step {
    match m {
        AppMsg::InMsg(source, text) => spec_dispatch(s, source@, text@),
        AppMsg::EndMsg(source, id) => spec_endapp(s, source@, Some(id)),
        AppMsg::OutMsg(source, text) => Step {
            state: s,
            acts: seq![ActView::Reply(source@, text@)],
        },
        AppMsg::Finish => Step { state: s, acts: Seq::empty() },
        AppMsg::DescMsg(source, name, desc) => spec_desc(
            s,
            source@,
            name@,
            match desc {
                Some(d) => Some(d@),
                None => None,
            },
        ),
        AppMsg::DialMsg(source, id, ok) => spec_dial(s, source@, id, ok),
        AppMsg::DirMsg(source, names) => spec_dir(s, source@, names.deep_view()),
    }
}

/// Consuming events in order until the shutdown sentinel.
pub open spec fn spec_run(s: StateView, msgs: Seq<AppMsg>) -> Step
    decreases msgs.len(),
{
    if msgs.len() == 0 {
        Step { state: s, acts: Seq::empty() }
    } else if msgs[0] is Finish {
        Step { state: s, acts: Seq::empty() }
    } else {
        let first = spec_step(s, msgs[0]);
        let rest = spec_run(first.state, msgs.drop_first());
        Step { state: rest.state, acts: first.acts + rest.acts }
    }
}

/// Every step preserves the state's well-formedness.
pub proof fn lemma_step_wf(s: StateView, m: AppMsg)
    requires
        state_wf(s),
    ensures
        state_wf(spec_step(s, m).state),
{
    match m {
        AppMsg::InMsg(source, text) => {
            lemma_dispatch_wf(s, source@, text@);
        },
        AppMsg::EndMsg(source, id) => {
            lemma_assoc_remove(s.running, source@);
        },
        AppMsg::OutMsg(source, text) => {},
        AppMsg::Finish => {},
        AppMsg::DescMsg(source, name, desc) => {
            lemma_assoc_insert(
                s.cache,
                name@,
                InfoView {
                    name: name@,
                    desc: match desc {
                        Some(d) => d@,
                        None => Seq::empty(),
                    },
                },
            );
            let occ = assoc_get(s.running, source@);
            if occ is Some {
                lemma_assoc_insert(
                    s.running,
                    source@,
                    SessView { id: occ->Some_0.id, name: name@, phase: SessionPhase::AwaitingDial },
                );
            }
            lemma_assoc_remove(s.running, source@);
            let job = assoc_get(s.lists, source@);
            if job is Some {
                lemma_assoc_insert(s.lists, source@, seq_remove_all(job->Some_0, name@));
            }
            lemma_assoc_remove(s.lists, source@);
        },
        AppMsg::DialMsg(source, id, ok) => {
            let occ = assoc_get(s.running, source@);
            if occ is Some {
                lemma_assoc_insert(
                    s.running,
                    source@,
                    SessView { id: id, name: occ->Some_0.name, phase: SessionPhase::Live },
                );
            }
            lemma_assoc_remove(s.running, source@);
        },
        AppMsg::DirMsg(source, names) => {
            lemma_assoc_insert(
                s.lists,
                source@,
                spec_missing(names.deep_view(), s.cache),
            );
        },
    }
}

pub proof fn lemma_dispatch_wf(s: StateView, source: Seq<char>, raw: Seq<char>)
    requires
        state_wf(s),
    ensures
        state_wf(spec_dispatch(s, source, raw).state),
{
    let toks = spec_split(raw, ' ');
    if toks.len() >= 2 {
        let sess = SessView {
            id: s.app_id,
            name: toks[1],
            phase: if assoc_contains(s.cache, toks[1]) {
                SessionPhase::AwaitingDial
            } else {
                SessionPhase::AwaitingDesc
            },
        };
        lemma_assoc_insert(s.running, source, sess);
    }
    lemma_assoc_remove(s.running, source);
}

/// The session manager's state, owned by one event loop.
pub struct AppState {
    app_dir: String,
    app_id: u64,
    running_apps: StringMap<AppSession>,
    app_cache: StringMap<AppInfo>,
    list_jobs: StringMap<ListJob>,
}

impl View for AppState {
    type V = StateView;

    closed spec fn view(&self) -> StateView {
        StateView {
            app_dir: self.app_dir@,
            app_id: self.app_id,
            running: self.running_apps@,
            cache: self.app_cache@,
            lists: self.list_jobs@,
        }
    }
}

impl AppState {
    pub open spec fn wf(&self) -> bool {
        state_wf(self@)
    }

    /// A fresh manager for the given program directory: no sessions, an empty
    /// cache, and the id counter at zero.
    pub fn new(app_dir: String) -> (r: Self)
        ensures
            r@.app_dir == app_dir@,
            r@.app_id == 0,
            r@.running == Seq::<(Seq<char>, SessView)>::empty(),
            r@.cache == Seq::<(Seq<char>, InfoView)>::empty(),
            r@.lists == Seq::<(Seq<char>, Seq<Seq<char>>)>::empty(),
            r.wf(),
    {
        AppState {
            app_dir,
            app_id: 0,
            running_apps: StringMap::new(),
            app_cache: StringMap::new(),
            list_jobs: StringMap::new(),
        }
    }

    /// The next session id; the counter advances until it would overflow.
    fn get_id(&mut self) -> (id: u64)
        ensures
            id == old(self)@.app_id,
            final(self)@ == (StateView { app_id: next_id(old(self)@.app_id), ..old(self)@ }),
    {
        let id = self.app_id;
        if self.app_id < u64::MAX {
            self.app_id = self.app_id + 1;
        }
        id
    }

    /// The listing reply: the header, then one line per cached program.
    fn build_listing(&self) -> (r: String)
        ensures
            r@ == listing_text(self@.cache),
    {
        let mut r = list_header_msg();
        let n = self.app_cache.len();
        let mut i: usize = 0;
        proof {
            assert(self@.cache.take(0) =~= Seq::<(Seq<char>, InfoView)>::empty());
            assert(r@ =~= list_header_text() + listing_entries(self@.cache.take(0)));
        }
        loop
            invariant
                i <= n,
                n == self@.cache.len(),
                r@ == list_header_text() + listing_entries(self@.cache.take(i as int)),
            decreases n - i,
        {
            if i == n {
                proof {
                    assert(self@.cache.take(i as int) =~= self@.cache);
                }
                return r;
            }
            let p = self.app_cache.pair_at(i);
            r.append("\n");
            r.append(p.1.name.as_str());
            r.append(" - ");
            r.append(p.1.desc.as_str());
            proof {
                let c = self@.cache;
                let single = seq![c[i as int]];
                lemma_listing_concat(c.take(i as int), single);
                assert(c.take(i + 1) =~= c.take(i as int) + single);
                assert(single.drop_first() =~= Seq::<(Seq<char>, InfoView)>::empty());
                assert(listing_entries(single) == "\n"@ + single[0].1.name + " - "@
                    + single[0].1.desc + listing_entries(single.drop_first()));
                assert(listing_entries(single) =~= "\n"@ + c[i as int].1.name + " - "@
                    + c[i as int].1.desc);
                assert(r@ =~= list_header_text() + listing_entries(c.take(i + 1)));
            }
            i = i + 1;
        }
    }

    /// Interprets one line of inbound text: a management command, or free-form
    /// input forwarded to the live session.
    pub fn run_action(&mut self, source: &str, msg: &str) -> (acts: Vec<Action>)
        requires
            old(self).wf(),
        ensures
            final(self).wf(),
            final(self)@ == spec_dispatch(old(self)@, source@, msg@).state,
            acts_view(acts) == spec_dispatch(old(self)@, source@, msg@).acts,
    {
        let toks = split_spaces(msg);
        let ghost stoks = spec_split(msg@, ' ');
        proof {
            assert(toks.deep_view() == stoks);
            assert(toks.deep_view()[0] == toks@[0]@);
        }
        let cmd = to_lower(toks[0].as_str());
        if str_eq(cmd.as_str(), "startapp") {
            if self.running_apps.contains_key(source) {
                let acts = vec![Action::Reply(source.to_owned(), already_running_msg())];
                proof {
                    assert(acts_view(acts) =~= spec_dispatch(old(self)@, source@, msg@).acts);
                }
                acts
            } else if toks.len() != 2 {
                let acts = vec![Action::Reply(source.to_owned(), malformed_start_msg())];
                proof {
                    assert(acts_view(acts) =~= spec_dispatch(old(self)@, source@, msg@).acts);
                }
                acts
            } else {
                proof {
                    assert(toks.deep_view()[1] == toks@[1]@);
                }
                let name = &toks[1];
                self.startapp(source, name.as_str())
            }
        } else if str_eq(cmd.as_str(), "listapps") {
            let acts = vec![Action::ListDir(self.app_dir.clone(), source.to_owned())];
            proof {
                assert(acts_view(acts) =~= spec_dispatch(old(self)@, source@, msg@).acts);
            }
            acts
        } else if str_eq(cmd.as_str(), "currentapp") {
            let reply: String = match self.running_apps.get(source) {
                None => no_apps_msg(),
                Some(sess) => sess.name.clone(),
            };
            let acts = vec![Action::Reply(source.to_owned(), reply)];
            proof {
                assert(acts_view(acts) =~= spec_dispatch(old(self)@, source@, msg@).acts);
            }
            acts
        } else if str_eq(cmd.as_str(), "endapp") {
            self.endapp(source, None)
        } else if str_eq(cmd.as_str(), "help") {
            let acts = vec![Action::Reply(source.to_owned(), help_msg())];
            proof {
                assert(acts_view(acts) =~= spec_dispatch(old(self)@, source@, msg@).acts);
            }
            acts
        } else {
            let forward: bool = match self.running_apps.get(source) {
                None => false,
                Some(sess) => sess.phase == SessionPhase::Live,
            };
            let present: bool = self.running_apps.contains_key(source);
            let acts: Vec<Action> = if forward {
                vec![Action::SendFrame(source.to_owned(), data_msg(msg))]
            } else if present {
                Vec::new()
            } else {
                vec![Action::Reply(source.to_owned(), help_msg())]
            };
            proof {
                assert(acts_view(acts) =~= spec_dispatch(old(self)@, source@, msg@).acts);
            }
            acts
        }
    }

    /// Reserves the key, then asks for the description (or, on a cache hit,
    /// goes straight to dialing). The caller has checked that the key is free.
    pub fn startapp(&mut self, source: &str, app_name: &str) -> (acts: Vec<Action>)
        requires
            old(self).wf(),
        ensures
            final(self).wf(),
            final(self)@ == spec_startapp(old(self)@, source@, app_name@).state,
            acts_view(acts) == spec_startapp(old(self)@, source@, app_name@).acts,
    {
        let id = self.get_id();
        let cached = self.app_cache.contains_key(app_name);
        let phase = if cached {
            SessionPhase::AwaitingDial
        } else {
            SessionPhase::AwaitingDesc
        };
        let sess = AppSession { id, name: app_name.to_owned(), phase };
        proof {
            lemma_assoc_insert(self@.running, source@, sess@);
        }
        self.running_apps.insert(source.to_owned(), sess);
        let acts = if cached {
            vec![Action::Dial(self.app_dir.clone(), app_name.to_owned(), source.to_owned(), id)]
        } else {
            vec![Action::Query(self.app_dir.clone(), app_name.to_owned(), source.to_owned())]
        };
        proof {
            assert(self@ =~= spec_startapp(old(self)@, source@, app_name@).state);
            assert(acts_view(acts) =~= spec_startapp(old(self)@, source@, app_name@).acts);
        }
        acts
    }

    /// Ends the session at `source`. With `Some(id)` only the occupant with
    /// that id is removed, silently; with `None` the removal is authoritative
    /// and the user is told what happened.
    pub fn endapp(&mut self, source: &str, appid: Option<u64>) -> (acts: Vec<Action>)
        requires
            old(self).wf(),
        ensures
            final(self).wf(),
            final(self)@ == spec_endapp(old(self)@, source@, appid).state,
            acts_view(acts) == spec_endapp(old(self)@, source@, appid).acts,
    {
        if let Some(wanted) = appid {
            let id_matches: bool = match self.running_apps.get(source) {
                Some(sess) => sess.id == wanted,
                None => false,
            };
            if !id_matches {
                let acts: Vec<Action> = Vec::new();
                proof {
                    assert(acts_view(acts) =~= spec_endapp(old(self)@, source@, appid).acts);
                }
                return acts;
            }
        }
        proof {
            lemma_assoc_remove(self@.running, source@);
        }
        match self.running_apps.remove(source) {
            None => {
                let acts = vec![Action::Reply(source.to_owned(), no_apps_msg())];
                proof {
                    lemma_assoc_remove_absent(old(self)@.running, source@);
                    assert(self@ =~= spec_endapp(old(self)@, source@, appid).state);
                    assert(acts_view(acts) =~= spec_endapp(old(self)@, source@, appid).acts);
                }
                acts
            },
            Some(sess) => {
                let mut acts: Vec<Action> = Vec::new();
                if sess.phase == SessionPhase::Live {
                    acts.push(Action::StopSession(source.to_owned()));
                }
                acts.push(Action::Reply(source.to_owned(), stopped_msg()));
                proof {
                    assert(self@ =~= spec_endapp(old(self)@, source@, appid).state);
                    assert(acts_view(acts) =~= spec_endapp(old(self)@, source@, appid).acts);
                }
                acts
            },
        }
    }

    /// Takes the directory's names and either replies at once (all cached) or
    /// stores the waiting names and asks for each missing description.
    pub fn listapps(&mut self, source: &str, names: Vec<String>) -> (acts: Vec<Action>)
        requires
            old(self).wf(),
        ensures
            final(self).wf(),
            final(self)@ == spec_dir(old(self)@, source@, names.deep_view()).state,
            acts_view(acts) == spec_dir(old(self)@, source@, names.deep_view()).acts,
    {
        let ghost s0 = self@;
        let n = names.len();
        let mut missing: Vec<String> = Vec::new();
        let mut i: usize = 0;
        proof {
            assert(names.deep_view().skip(0) =~= names.deep_view());
            assert(missing.deep_view() + spec_missing(names.deep_view().skip(0), s0.cache)
                =~= spec_missing(names.deep_view(), s0.cache));
        }
        while i < n
            invariant
                i <= n,
                n == names@.len(),
                self@ == s0,
                state_wf(s0),
                names.deep_view().len() == n,
                spec_missing(names.deep_view(), s0.cache) == missing.deep_view() + spec_missing(
                    names.deep_view().skip(i as int),
                    s0.cache,
                ),
            decreases n - i,
        {
            proof {
                let tail = names.deep_view().skip(i as int);
                assert(tail[0] == names.deep_view()[i as int]);
                assert(tail.drop_first() =~= names.deep_view().skip(i + 1));
                assert(names.deep_view()[i as int] == names@[i as int]@);
            }
            let name = &names[i];
            if !self.app_cache.contains_key(name.as_str()) {
                missing.push(name.clone());
            }
            i = i + 1;
        }
        let ghost smissing = spec_missing(names.deep_view(), s0.cache);
        proof {
            assert(spec_missing(names.deep_view().skip(n as int), s0.cache)
                =~= Seq::<Seq<char>>::empty());
            assert(missing.deep_view() =~= smissing);
        }
        if missing.len() == 0 {
            let acts = vec![Action::Reply(source.to_owned(), self.build_listing())];
            proof {
                assert(acts_view(acts) =~= spec_dir(s0, source@, names.deep_view()).acts);
            }
            acts
        } else {
            let mut acts: Vec<Action> = Vec::new();
            let m = missing.len();
            let mut j: usize = 0;
            proof {
                assert(acts_view(acts) =~= spec_queries(smissing.take(0), s0.app_dir, source@));
            }
            while j < m
                invariant
                    j <= m,
                    m == missing@.len(),
                    self@ == s0,
                    missing.deep_view() == smissing,
                    acts_view(acts) == spec_queries(
                        smissing.take(j as int),
                        s0.app_dir,
                        source@,
                    ),
                decreases m - j,
            {
                let name = &missing[j];
                let ghost before = acts@;
                let act = Action::Query(self.app_dir.clone(), name.clone(), source.to_owned());
                let ghost gact = act@;
                proof {
                    assert(missing.deep_view()[j as int] == missing@[j as int]@);
                    assert(gact == ActView::Query(s0.app_dir, smissing[j as int], source@));
                    assert(missing.deep_view().len() == missing@.len());
                    assert(smissing.len() == m);
                    assert(smissing.take(j as int).len() == j as int);
                    assert(acts_view(acts).len() == acts@.len());
                    assert(before.len() == j);
                }
                acts.push(act);
                proof {
                    let prev = spec_queries(smissing.take(j as int), s0.app_dir, source@);
                    let next = spec_queries(smissing.take(j + 1), s0.app_dir, source@);
                    assert(acts@ == before.push(act));
                    assert(acts@.len() == j + 1);
                    assert(acts@[j as int]@ == ActView::Query(s0.app_dir, smissing[j as int], source@));
                    assert forall|i2: int| 0 <= i2 < j + 1 implies acts_view(acts)[i2] == next[i2] by {
                        if i2 < j {
                            assert(acts@[i2] == before[i2]);
                            assert(acts_view(acts)[i2] == prev[i2]);
                            assert(next[i2] == ActView::Query(
                                s0.app_dir,
                                smissing.take(j + 1)[i2],
                                source@,
                            ));
                        }
                    }
                    assert(acts_view(acts) =~= next);
                }
                j = j + 1;
            }
            proof {
                lemma_assoc_insert(s0.lists, source@, smissing);
            }
            self.list_jobs.insert(source.to_owned(), ListJob { waiting: missing });
            proof {
                assert(smissing.take(smissing.len() as int) =~= smissing);
                assert(self@ =~= spec_dir(s0, source@, names.deep_view()).state);
                assert(acts_view(acts) =~= spec_dir(s0, source@, names.deep_view()).acts);
            }
            acts
        }
    }

    /// Takes a description result: caches it, advances the source's pending
    /// start, and advances the source's pending listing.
    pub fn resolve_description(
        &mut self,
        source: &str,
        name: &str,
        desc: Option<String>,
    ) -> (acts: Vec<Action>)
        requires
            old(self).wf(),
        ensures
            final(self).wf(),
            final(self)@ == spec_desc(
                old(self)@,
                source@,
                name@,
                match desc {
                    Some(d) => Some(d@),
                    None => None,
                },
            ).state,
            acts_view(acts) == spec_desc(
                old(self)@,
                source@,
                name@,
                match desc {
                    Some(d) => Some(d@),
                    None => None,
                },
            ).acts,
    {
        let ghost s0 = self@;
        let mut acts: Vec<Action> = Vec::new();
        if let Some(d) = &desc {
            if !self.app_cache.contains_key(name) {
                proof {
                    lemma_assoc_insert(
                        s0.cache,
                        name@,
                        InfoView { name: name@, desc: d@ },
                    );
                }
                self.app_cache.insert(
                    name.to_owned(),
                    AppInfo { name: name.to_owned(), desc: d.clone() },
                );
            }
        }
        let advance: Option<u64> = match self.running_apps.get(source) {
            Some(sess) => {
                if sess.phase == SessionPhase::AwaitingDesc && str_eq(sess.name.as_str(), name) {
                    Some(sess.id)
                } else {
                    None
                }
            },
            None => None,
        };
        if let Some(id) = advance {
            if desc.is_some() {
                proof {
                    lemma_assoc_insert(
                        s0.running,
                        source@,
                        SessView { id, name: name@, phase: SessionPhase::AwaitingDial },
                    );
                }
                self.running_apps.insert(
                    source.to_owned(),
                    AppSession { id, name: name.to_owned(), phase: SessionPhase::AwaitingDial },
                );
                acts.push(
                    Action::Dial(self.app_dir.clone(), name.to_owned(), source.to_owned(), id),
                );
            } else {
                proof {
                    lemma_assoc_remove(s0.running, source@);
                }
                self.running_apps.remove(source);
                acts.push(Action::Reply(source.to_owned(), not_found_msg()));
            }
        }
        let pending: Option<Vec<String>> = match self.list_jobs.get(source) {
            Some(job) => {
                if vec_contains_str(&job.waiting, name) {
                    Some(vec_remove_all_str(&job.waiting, name))
                } else {
                    None
                }
            },
            None => None,
        };
        if let Some(rem) = pending {
            if rem.len() == 0 {
                proof {
                    lemma_assoc_remove(s0.lists, source@);
                }
                self.list_jobs.remove(source);
                acts.push(Action::Reply(source.to_owned(), self.build_listing()));
            } else {
                proof {
                    lemma_assoc_insert(s0.lists, source@, rem.deep_view());
                }
                self.list_jobs.insert(source.to_owned(), ListJob { waiting: rem });
            }
        }
        proof {
            let ghost sd = match desc {
                Some(d) => Some(d@),
                None => None,
            };
            assert(self@ =~= spec_desc(s0, source@, name@, sd).state);
            assert(acts_view(acts) =~= spec_desc(s0, source@, name@, sd).acts);
        }
        acts
    }

    /// Takes a dial result: the matching reserved occupant goes live and is
    /// sent the start frame, or is discarded with an error reply; a stale
    /// result changes nothing.
    pub fn resolve_dial(&mut self, source: &str, id: u64, ok: bool) -> (acts: Vec<Action>)
        requires
            old(self).wf(),
        ensures
            final(self).wf(),
            final(self)@ == spec_dial(old(self)@, source@, id, ok).state,
            acts_view(acts) == spec_dial(old(self)@, source@, id, ok).acts,
    {
        let ghost s0 = self@;
        let advance: Option<String> = match self.running_apps.get(source) {
            Some(sess) => {
                if sess.phase == SessionPhase::AwaitingDial && sess.id == id {
                    Some(sess.name.clone())
                } else {
                    None
                }
            },
            None => None,
        };
        match advance {
            Some(name) => {
                if ok {
                    proof {
                        lemma_assoc_insert(
                            s0.running,
                            source@,
                            SessView { id, name: name@, phase: SessionPhase::Live },
                        );
                    }
                    self.running_apps.insert(
                        source.to_owned(),
                        AppSession { id, name, phase: SessionPhase::Live },
                    );
                    let acts = vec![Action::SendFrame(source.to_owned(), start_msg(source))];
                    proof {
                        assert(self@ =~= spec_dial(s0, source@, id, ok).state);
                        assert(acts_view(acts) =~= spec_dial(s0, source@, id, ok).acts);
                    }
                    acts
                } else {
                    proof {
                        lemma_assoc_remove(s0.running, source@);
                    }
                    self.running_apps.remove(source);
                    let acts = vec![Action::Reply(source.to_owned(), could_not_start_msg())];
                    proof {
                        assert(self@ =~= spec_dial(s0, source@, id, ok).state);
                        assert(acts_view(acts) =~= spec_dial(s0, source@, id, ok).acts);
                    }
                    acts
                }
            },
            None => {
                let acts: Vec<Action> = Vec::new();
                proof {
                    assert(acts_view(acts) =~= spec_dial(s0, source@, id, ok).acts);
                }
                acts
            },
        }
    }

    /// One turn of the event loop: handle the event, and say whether the loop
    /// should keep consuming (false only for the shutdown sentinel).
    pub fn process_msg(&mut self, msg: AppMsg) -> (r: (Vec<Action>, bool))
        requires
            old(self).wf(),
        ensures
            final(self).wf(),
            final(self)@ == spec_step(old(self)@, msg).state,
            acts_view(r.0) == spec_step(old(self)@, msg).acts,
            r.1 == !(msg is Finish),
    {
        match msg {
            AppMsg::InMsg(source, text) => {
                let acts = self.run_action(source.as_str(), text.as_str());
                (acts, true)
            },
            AppMsg::EndMsg(source, id) => {
                let acts = self.endapp(source.as_str(), Some(id));
                (acts, true)
            },
            AppMsg::OutMsg(source, text) => {
                let acts = vec![Action::Reply(source, text)];
                proof {
                    assert(acts_view(acts) =~= spec_step(old(self)@, msg).acts);
                }
                (acts, true)
            },
            AppMsg::Finish => {
                let acts: Vec<Action> = Vec::new();
                proof {
                    assert(acts_view(acts) =~= spec_step(old(self)@, msg).acts);
                }
                (acts, false)
            },
            AppMsg::DescMsg(source, name, desc) => {
                let acts = self.resolve_description(source.as_str(), name.as_str(), desc);
                (acts, true)
            },
            AppMsg::DialMsg(source, id, ok) => {
                let acts = self.resolve_dial(source.as_str(), id, ok);
                (acts, true)
            },
            AppMsg::DirMsg(source, names) => {
                let acts = self.listapps(source.as_str(), names);
                (acts, true)
            },
        }
    }

    /// Consumes queued events in order until the shutdown sentinel, returning
    /// every action the handlers asked for, in order.
    pub fn process_queue(&mut self, msgs: Vec<AppMsg>) -> (acts: Vec<Action>)
        requires
            old(self).wf(),
        ensures
            final(self).wf(),
            final(self)@ == spec_run(old(self)@, msgs@).state,
            acts_view(acts) == spec_run(old(self)@, msgs@).acts,
    {
        let ghost s0 = self@;
        let ghost whole = msgs@;
        let mut q = msgs;
        let mut acts: Vec<Action> = Vec::new();
        proof {
            assert(acts_view(acts) =~= Seq::<ActView>::empty());
            assert(Seq::<ActView>::empty() + spec_run(self@, q@).acts =~= spec_run(
                self@,
                q@,
            ).acts);
        }
        loop
            invariant
                self.wf(),
                s0 == old(self)@,
                whole == msgs@,
                spec_run(s0, whole).state == spec_run(self@, q@).state,
                spec_run(s0, whole).acts == acts_view(acts) + spec_run(self@, q@).acts,
            decreases q@.len(),
        {
            if q.len() == 0 {
                proof {
                    assert(acts_view(acts) + spec_run(self@, q@).acts =~= acts_view(acts));
                }
                return acts;
            }
            let ghost qfull = q@;
            let m = q.remove(0);
            let ghost qpre = q@;
            proof {
                assert(qpre =~= qfull.drop_first());
                assert(qfull[0] == m);
            }
            let stop: bool = match &m {
                AppMsg::Finish => true,
                _ => false,
            };
            if stop {
                proof {
                    assert(spec_run(self@, qfull).state == self@);
                    assert(acts_view(acts) + spec_run(self@, qfull).acts =~= acts_view(acts));
                }
                return acts;
            }
            let ghost spre = self@;
            let (mut a, _cont) = self.process_msg(m);
            let ghost apre = acts@;
            let ghost avpre = a@;
            acts.append(&mut a);
            proof {
                assert(spec_run(spre, qfull).state == spec_run(self@, qpre).state);
                assert(spec_run(spre, qfull).acts == spec_step(spre, m).acts + spec_run(
                    self@,
                    qpre,
                ).acts);
                assert(acts@ =~= apre + avpre);
                assert(acts_view(acts) =~= Seq::new(apre.len(), |i: int| apre[i]@) + Seq::new(
                    avpre.len(),
                    |i: int| avpre[i]@,
                ));
                assert(Seq::new(avpre.len(), |i: int| avpre[i]@) == spec_step(spre, m).acts);
                assert(spec_run(s0, whole).acts =~= acts_view(acts) + spec_run(self@, q@).acts);
            }
        }
    }

    /// Shutdown leaves live sessions in place: the manager stops consuming
    /// events without walking the session map, a deliberate, documented gap.
    pub fn drain(&self) -> (acts: Vec<Action>)
        ensures
            acts@.len() == 0,
    {
        Vec::new()
    }
}

/// Whether any entry of the list equals the given text.
fn vec_contains_str(w: &Vec<String>, x: &str) -> (r: bool)
    ensures
        r == w.deep_view().contains(x@),
{
    let n = w.len();
    let mut i: usize = 0;
    loop
        invariant
            i <= n,
            n == w@.len(),
            forall|j: int| 0 <= j < i ==> w.deep_view()[j] != x@,
        decreases n - i,
    {
        if i == n {
            proof {
                assert(forall|j: int| 0 <= j < w.deep_view().len() ==> w.deep_view()[j] != x@);
            }
            return false;
        }
        if str_eq(w[i].as_str(), x) {
            proof {
                assert(w.deep_view()[i as int] == x@);
            }
            return true;
        }
        proof {
            assert(w.deep_view()[i as int] == w@[i as int]@);
        }
        i = i + 1;
    }
}

/// The list without any entry equal to the given text.
fn vec_remove_all_str(w: &Vec<String>, x: &str) -> (r: Vec<String>)
    ensures
        r.deep_view() == seq_remove_all(w.deep_view(), x@),
{
    let n = w.len();
    let mut r: Vec<String> = Vec::new();
    let mut i: usize = 0;
    proof {
        assert(w.deep_view().skip(0) =~= w.deep_view());
        assert(r.deep_view() + seq_remove_all(w.deep_view().skip(0), x@) =~= seq_remove_all(
            w.deep_view(),
            x@,
        ));
    }
    loop
        invariant
            i <= n,
            n == w@.len(),
            w.deep_view().len() == n,
            seq_remove_all(w.deep_view(), x@) == r.deep_view() + seq_remove_all(
                w.deep_view().skip(i as int),
                x@,
            ),
        decreases n - i,
    {
        if i == n {
            proof {
                assert(seq_remove_all(w.deep_view().skip(i as int), x@) =~= Seq::<Seq<char>>::empty());
                assert(r.deep_view() =~= seq_remove_all(w.deep_view(), x@));
            }
            return r;
        }
        proof {
            let tail = w.deep_view().skip(i as int);
            assert(tail[0] == w.deep_view()[i as int]);
            assert(tail.drop_first() =~= w.deep_view().skip(i + 1));
            assert(w.deep_view()[i as int] == w@[i as int]@);
        }
        if !str_eq(w[i].as_str(), x) {
            r.push(w[i].clone());
        }
        i = i + 1;
    }
}

} // verus!
