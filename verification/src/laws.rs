//! The manager's laws, proved over the specification-level transitions that
//! every exec handler is contractually equal to.
use crate::appstate::{
    already_running_text, lemma_step_wf, spec_desc, spec_dial, spec_dispatch, spec_endapp,
    spec_missing, spec_run, spec_startapp, spec_step, state_wf, stopped_text, ActView, AppMsg,
    InfoView, SessView, SessionPhase, StateView, Step,
};
use crate::protocol::start_text;
use crate::strmap::{assoc_contains, assoc_get, lemma_assoc_insert, lemma_assoc_remove};
use crate::strutil::{lower_of, spec_split};
use vstd::prelude::*;

verus! {

/// Processing a run of inbound lines for one key, in order.
pub open spec fn spec_dispatch_seq(s: StateView, source: Seq<char>, raws: Seq<Seq<char>>) -> Step
    decreases raws.len(),
{
    if raws.len() == 0 {
        Step { state: s, acts: Seq::empty() }
    } else {
        let first = spec_dispatch(s, source, raws[0]);
        let rest = spec_dispatch_seq(first.state, source, raws.drop_first());
        Step { state: rest.state, acts: first.acts + rest.acts }
    }
}

/// The texts carried by a sequence of inbound events.
pub open spec fn inbound_texts(msgs: Seq<AppMsg>) -> Seq<Seq<char>> {
    msgs.map(|i: int, m: AppMsg| m->InMsg_1@)
}

/// An event-loop run that consumes only inbound text for one key is the
/// dispatch of those texts, in order.
pub proof fn lemma_run_of_inbound(s: StateView, source: Seq<char>, msgs: Seq<AppMsg>)
    requires
        forall|i: int|
            0 <= i < msgs.len() ==> ((#[trigger] msgs[i]) matches AppMsg::InMsg(src, _)
                && src@ == source),
    ensures
        spec_run(s, msgs).state == spec_dispatch_seq(s, source, inbound_texts(msgs)).state,
        spec_run(s, msgs).acts == spec_dispatch_seq(s, source, inbound_texts(msgs)).acts,
    decreases msgs.len(),
{
    if msgs.len() == 0 {
        assert(inbound_texts(msgs).len() == 0);
    } else {
        let texts = inbound_texts(msgs);
        assert(msgs[0] matches AppMsg::InMsg(src, _) && src@ == source);
        assert(texts[0] == msgs[0]->InMsg_1@);
        let first = spec_step(s, msgs[0]);
        assert(first == spec_dispatch(s, source, texts[0]));
        lemma_run_of_inbound(first.state, source, msgs.drop_first());
        assert(inbound_texts(msgs.drop_first()) =~= texts.drop_first());
    }
}

/// A start command while the key is occupied: the state is unchanged and the
/// only effect is the "already running" reply.
pub proof fn lemma_occupied_start_rejected(s: StateView, source: Seq<char>, raw: Seq<char>)
    requires
        assoc_contains(s.running, source),
        lower_of(spec_split(raw, ' ')[0]) == "startapp"@,
    ensures
        spec_dispatch(s, source, raw).state == s,
        spec_dispatch(s, source, raw).acts == seq![
            ActView::Reply(source, already_running_text()),
        ],
{
}

/// A start command with an argument while the key is free registers a
/// session under that key.
pub proof fn lemma_free_start_registers(s: StateView, source: Seq<char>, raw: Seq<char>)
    requires
        state_wf(s),
        !assoc_contains(s.running, source),
        lower_of(spec_split(raw, ' ')[0]) == "startapp"@,
        spec_split(raw, ' ').len() == 2,
    ensures
        assoc_contains(spec_dispatch(s, source, raw).state.running, source),
        assoc_get(spec_dispatch(s, source, raw).state.running, source)->Some_0.name == spec_split(
            raw,
            ' ',
        )[1],
{
    let toks = spec_split(raw, ' ');
    let cached = assoc_contains(s.cache, toks[1]);
    let sess = SessView {
        id: s.app_id,
        name: toks[1],
        phase: if cached {
            SessionPhase::AwaitingDial
        } else {
            SessionPhase::AwaitingDesc
        },
    };
    lemma_assoc_insert(s.running, source, sess);
}

/// At-most-one-session: for any run of start commands for one key while the
/// key is occupied, every one of them is rejected with the "already running"
/// reply, and the state never changes.
pub proof fn lemma_at_most_one_session(s: StateView, source: Seq<char>, raws: Seq<Seq<char>>)
    requires
        assoc_contains(s.running, source),
        forall|i: int|
            0 <= i < raws.len() ==> lower_of(spec_split(#[trigger] raws[i], ' ')[0])
                == "startapp"@,
    ensures
        spec_dispatch_seq(s, source, raws).state == s,
        spec_dispatch_seq(s, source, raws).acts == Seq::new(
            raws.len(),
            |i: int| ActView::Reply(source, already_running_text()),
        ),
    decreases raws.len(),
{
    if raws.len() == 0 {
        assert(spec_dispatch_seq(s, source, raws).acts =~= Seq::new(
            raws.len(),
            |i: int| ActView::Reply(source, already_running_text()),
        ));
    } else {
        lemma_occupied_start_rejected(s, source, raws[0]);
        assert(forall|i: int|
            0 <= i < raws.drop_first().len() ==> lower_of(spec_split(
                #[trigger] raws.drop_first()[i],
                ' ',
            )[0]) == "startapp"@);
        lemma_at_most_one_session(s, source, raws.drop_first());
        assert(spec_dispatch_seq(s, source, raws).acts =~= Seq::new(
            raws.len(),
            |i: int| ActView::Reply(source, already_running_text()),
        ));
    }
}

/// Every occupant's session id is below the manager's counter.
pub open spec fn ids_below(s: StateView) -> bool {
    forall|k: Seq<char>|
        #[trigger] assoc_get(s.running, k) is Some ==> (assoc_get(s.running, k)->Some_0.id as int)
            < s.app_id as int
}

/// One step never lowers the counter and advances it by at most one.
pub proof fn lemma_counter_monotone(s: StateView, m: AppMsg)
    requires
        state_wf(s),
    ensures
        s.app_id <= spec_step(s, m).state.app_id <= s.app_id as int + 1,
{
}

/// Registering assigns the counter's value as the session id and advances
/// the counter past it: with `lemma_counter_monotone`, ids strictly increase
/// across registrations while the counter is below its machine limit.
pub proof fn lemma_start_assigns_counter(s: StateView, source: Seq<char>, name: Seq<char>)
    requires
        state_wf(s),
        s.app_id < u64::MAX,
    ensures
        assoc_get(spec_startapp(s, source, name).state.running, source)->Some_0.id == s.app_id,
        spec_startapp(s, source, name).state.app_id == s.app_id as int + 1,
{
    let cached = assoc_contains(s.cache, name);
    let sess = SessView {
        id: s.app_id,
        name,
        phase: if cached {
            SessionPhase::AwaitingDial
        } else {
            SessionPhase::AwaitingDesc
        },
    };
    lemma_assoc_insert(s.running, source, sess);
}

/// One step keeps every occupant's id below the counter, while the counter
/// is below its machine limit.
pub proof fn lemma_step_preserves_ids_below(s: StateView, m: AppMsg)
    requires
        state_wf(s),
        ids_below(s),
        s.app_id < u64::MAX,
    ensures
        ids_below(spec_step(s, m).state),
{
    let s1 = spec_step(s, m).state;
    match m {
        AppMsg::InMsg(source, text) => {
            let toks = spec_split(text@, ' ');
            if lower_of(toks[0]) == "startapp"@ && !assoc_contains(s.running, source@)
                && toks.len() == 2 {
                let cached = assoc_contains(s.cache, toks[1]);
                let sess = SessView {
                    id: s.app_id,
                    name: toks[1],
                    phase: if cached {
                        SessionPhase::AwaitingDial
                    } else {
                        SessionPhase::AwaitingDesc
                    },
                };
                lemma_assoc_insert(s.running, source@, sess);
            }
            lemma_assoc_remove(s.running, source@);
        },
        AppMsg::EndMsg(source, id) => {
            lemma_assoc_remove(s.running, source@);
        },
        AppMsg::DescMsg(source, nm, desc) => {
            let occ = assoc_get(s.running, source@);
            if occ is Some {
                lemma_assoc_insert(
                    s.running,
                    source@,
                    SessView { id: occ->Some_0.id, name: nm@, phase: SessionPhase::AwaitingDial },
                );
            }
            lemma_assoc_remove(s.running, source@);
        },
        AppMsg::DialMsg(source, id, ok) => {
            let occ = assoc_get(s.running, source@);
            if occ is Some {
                lemma_assoc_insert(
                    s.running,
                    source@,
                    SessView { id: id, name: occ->Some_0.name, phase: SessionPhase::Live },
                );
            }
            lemma_assoc_remove(s.running, source@);
        },
        _ => {},
    }
}

/// Session-id freshness over a whole run: while the counter stays below its
/// machine limit, every occupant's id remains below the counter, so a fresh
/// registration never reuses a live session's id. (At the limit the counter
/// saturates instead of overflowing, and freshness is no longer claimed.)
pub proof fn lemma_ids_fresh(s: StateView, msgs: Seq<AppMsg>)
    requires
        state_wf(s),
        ids_below(s),
        s.app_id as int + msgs.len() <= u64::MAX,
    ensures
        state_wf(spec_run(s, msgs).state),
        ids_below(spec_run(s, msgs).state),
        s.app_id <= spec_run(s, msgs).state.app_id <= s.app_id as int + msgs.len(),
    decreases msgs.len(),
{
    if msgs.len() == 0 {
    } else if msgs[0] is Finish {
    } else {
        let first = spec_step(s, msgs[0]);
        lemma_step_wf(s, msgs[0]);
        lemma_counter_monotone(s, msgs[0]);
        lemma_step_preserves_ids_below(s, msgs[0]);
        lemma_ids_fresh(first.state, msgs.drop_first());
    }
}

/// Stale-termination immunity: a termination event carrying an id other than
/// the occupant's removes nothing and replies nothing.
pub proof fn lemma_stale_termination_immunity(s: StateView, source: Seq<char>, stale: u64)
    requires
        assoc_get(s.running, source) is Some,
        assoc_get(s.running, source)->Some_0.id != stale,
    ensures
        spec_endapp(s, source, Some(stale)).state == s,
        spec_endapp(s, source, Some(stale)).acts == Seq::<ActView>::empty(),
{
}

/// Whether an action queries the description of the given program name.
pub open spec fn queries_name(a: ActView, name: Seq<char>) -> bool {
    a matches ActView::Query(_, n, _) && n == name
}

/// Every name that a directory listing leaves to query is absent from the
/// cache.
pub proof fn lemma_missing_misses(
    names: Seq<Seq<char>>,
    cache: Seq<(Seq<char>, InfoView)>,
    name: Seq<char>,
)
    requires
        assoc_contains(cache, name),
    ensures
        forall|i: int|
            0 <= i < spec_missing(names, cache).len() ==> #[trigger] spec_missing(names, cache)[i]
                != name,
    decreases names.len(),
{
    if names.len() == 0 {
    } else {
        lemma_missing_misses(names.drop_first(), cache, name);
        let rest = spec_missing(names.drop_first(), cache);
        if !assoc_contains(cache, names[0]) {
            assert forall|i: int|
                0 <= i < spec_missing(names, cache).len() implies #[trigger] spec_missing(
                names,
                cache,
            )[i] != name by {
                if i > 0 {
                    assert(spec_missing(names, cache)[i] == rest[i - 1]);
                }
            }
        }
    }
}

/// No step of the manager queries the description of a name that the cache
/// already holds.
pub proof fn lemma_query_only_on_miss(s: StateView, m: AppMsg, name: Seq<char>)
    requires
        state_wf(s),
        assoc_contains(s.cache, name),
    ensures
        forall|i: int|
            0 <= i < spec_step(s, m).acts.len() ==> !queries_name(
                #[trigger] spec_step(s, m).acts[i],
                name,
            ),
{
    let acts = spec_step(s, m).acts;
    match m {
        AppMsg::InMsg(source, text) => {
            let toks = spec_split(text@, ' ');
            if lower_of(toks[0]) == "startapp"@ && !assoc_contains(s.running, source@)
                && toks.len() == 2 {
                assert(toks[1] == name ==> assoc_contains(s.cache, toks[1]));
            }
        },
        AppMsg::EndMsg(source, id) => {},
        AppMsg::OutMsg(source, text) => {},
        AppMsg::Finish => {},
        AppMsg::DescMsg(source, nm, desc) => {},
        AppMsg::DialMsg(source, id, ok) => {},
        AppMsg::DirMsg(source, names) => {
            lemma_missing_misses(names.deep_view(), s.cache, name);
        },
    }
}

/// The cache is never invalidated: whatever a step does, a cached entry is
/// still there, unchanged, afterwards.
pub proof fn lemma_cache_monotone(s: StateView, m: AppMsg, name: Seq<char>)
    requires
        state_wf(s),
        assoc_contains(s.cache, name),
    ensures
        assoc_get(spec_step(s, m).state.cache, name) == assoc_get(s.cache, name),
{
    match m {
        AppMsg::DescMsg(source, nm, desc) => {
            if desc is Some && !assoc_contains(s.cache, nm@) {
                lemma_assoc_insert(
                    s.cache,
                    nm@,
                    InfoView {
                        name: nm@,
                        desc: desc->Some_0@,
                    },
                );
            }
        },
        _ => {},
    }
}

/// A successful description result leaves the name cached.
pub proof fn lemma_desc_caches(
    s: StateView,
    source: Seq<char>,
    name: Seq<char>,
    d: Seq<char>,
)
    requires
        state_wf(s),
    ensures
        assoc_contains(spec_desc(s, source, name, Some(d)).state.cache, name),
{
    if !assoc_contains(s.cache, name) {
        lemma_assoc_insert(s.cache, name, InfoView { name, desc: d });
    }
}

/// Whether an event is a successful description result for the given name.
pub open spec fn desc_success(m: AppMsg, name: Seq<char>) -> bool {
    m matches AppMsg::DescMsg(_, n, d) && n@ == name && d is Some
}

/// Listing completeness over a run: once any event of a run (before the
/// shutdown sentinel, if one comes) answers a name's description query
/// successfully, the name is cached when the run ends — and the listing
/// reply is, by `listapps`'s contract, exactly one sorted line per cached
/// name.
pub proof fn lemma_resolved_name_cached(s: StateView, msgs: Seq<AppMsg>, name: Seq<char>)
    requires
        state_wf(s),
        exists|i: int|
            0 <= i < msgs.len() && desc_success(#[trigger] msgs[i], name) && (forall|j: int|
                0 <= j <= i ==> !((#[trigger] msgs[j]) is Finish)),
    ensures
        assoc_contains(spec_run(s, msgs).state.cache, name),
    decreases msgs.len(),
{
    let i = choose|i: int|
        0 <= i < msgs.len() && desc_success(#[trigger] msgs[i], name) && (forall|j: int|
            0 <= j <= i ==> !((#[trigger] msgs[j]) is Finish));
    let first = spec_step(s, msgs[0]);
    lemma_step_wf(s, msgs[0]);
    if i == 0 {
        match msgs[0] {
            AppMsg::DescMsg(src, nm, d) => {
                lemma_desc_caches(s, src@, name, d->Some_0@);
            },
            _ => {},
        }
        lemma_cache_idempotent(first.state, msgs.drop_first(), name);
    } else {
        assert(desc_success(msgs.drop_first()[i - 1], name));
        assert(forall|j: int|
            0 <= j <= i - 1 ==> !((#[trigger] msgs.drop_first()[j]) is Finish));
        lemma_resolved_name_cached(first.state, msgs.drop_first(), name);
    }
}

/// The whole start sequence on a cache miss: reserving the key, a successful
/// lookup, then a successful dial leave the key's occupant live under the
/// requested name with the id the counter assigned, send exactly the query,
/// the dial and the start frame, touch no other key, and reply nothing.
pub proof fn lemma_start_sequence(s: StateView, source: Seq<char>, name: Seq<char>, d: Seq<char>)
    requires
        state_wf(s),
        !assoc_contains(s.running, source),
        !assoc_contains(s.cache, name),
        !assoc_contains(s.lists, source),
        s.app_id < u64::MAX,
    ensures
        ({
            let st1 = spec_startapp(s, source, name);
            let st2 = spec_desc(st1.state, source, name, Some(d));
            let st3 = spec_dial(st2.state, source, s.app_id, true);
            &&& st1.acts == seq![ActView::Query(s.app_dir, name, source)]
            &&& st2.acts == seq![ActView::Dial(s.app_dir, name, source, s.app_id)]
            &&& st3.acts == seq![ActView::SendFrame(source, start_text(source))]
            &&& assoc_get(st3.state.running, source) == Some(
                SessView { id: s.app_id, name, phase: SessionPhase::Live },
            )
            &&& forall|k: Seq<char>|
                k != source ==> #[trigger] assoc_get(st3.state.running, k) == assoc_get(
                    s.running,
                    k,
                )
            &&& st3.state.app_id == s.app_id as int + 1
            &&& assoc_contains(st3.state.cache, name)
        }),
{
    let st1 = spec_startapp(s, source, name);
    let sess1 = SessView { id: s.app_id, name, phase: SessionPhase::AwaitingDesc };
    lemma_assoc_insert(s.running, source, sess1);
    lemma_assoc_insert(s.cache, name, InfoView { name, desc: d });
    let st2 = spec_desc(st1.state, source, name, Some(d));
    let sess2 = SessView { id: s.app_id, name, phase: SessionPhase::AwaitingDial };
    lemma_assoc_insert(st1.state.running, source, sess2);
    let st3 = spec_dial(st2.state, source, s.app_id, true);
    let sess3 = SessView { id: s.app_id, name, phase: SessionPhase::Live };
    lemma_assoc_insert(st2.state.running, source, sess3);
}

/// The whole start sequence on a cache hit: no query is made; the dial and
/// the start frame alone bring the occupant live.
pub proof fn lemma_start_sequence_cached(s: StateView, source: Seq<char>, name: Seq<char>)
    requires
        state_wf(s),
        !assoc_contains(s.running, source),
        assoc_contains(s.cache, name),
        s.app_id < u64::MAX,
    ensures
        ({
            let st1 = spec_startapp(s, source, name);
            let st2 = spec_dial(st1.state, source, s.app_id, true);
            &&& st1.acts == seq![ActView::Dial(s.app_dir, name, source, s.app_id)]
            &&& st2.acts == seq![ActView::SendFrame(source, start_text(source))]
            &&& assoc_get(st2.state.running, source) == Some(
                SessView { id: s.app_id, name, phase: SessionPhase::Live },
            )
            &&& st2.state.cache == s.cache
        }),
{
    let st1 = spec_startapp(s, source, name);
    let sess1 = SessView { id: s.app_id, name, phase: SessionPhase::AwaitingDial };
    lemma_assoc_insert(s.running, source, sess1);
    let st2 = spec_dial(st1.state, source, s.app_id, true);
    let sess2 = SessView { id: s.app_id, name, phase: SessionPhase::Live };
    lemma_assoc_insert(st1.state.running, source, sess2);
}

/// A user-initiated end is authoritative: whoever occupies the key is
/// removed, no other key is touched, and the user is told "Stopped app". The
/// stop sentinel is pushed only at a live session: a reserved one has no
/// socket yet, matching a stop that is a no-op before the dial.
pub proof fn lemma_user_end_authoritative(s: StateView, source: Seq<char>)
    requires
        state_wf(s),
        assoc_contains(s.running, source),
    ensures
        ({
            let st = spec_endapp(s, source, None);
            let occ = assoc_get(s.running, source)->Some_0;
            &&& assoc_get(st.state.running, source) is None
            &&& forall|k: Seq<char>|
                k != source ==> #[trigger] assoc_get(st.state.running, k) == assoc_get(
                    s.running,
                    k,
                )
            &&& st.state.cache == s.cache
            &&& st.acts == (if occ.phase == SessionPhase::Live {
                seq![
                    ActView::StopSession(source),
                    ActView::Reply(source, stopped_text()),
                ]
            } else {
                seq![ActView::Reply(source, stopped_text())]
            })
        }),
{
    lemma_assoc_remove(s.running, source);
    let st = spec_endapp(s, source, None);
    let occ = assoc_get(s.running, source)->Some_0;
    if occ.phase == SessionPhase::Live {
        assert(st.acts =~= seq![
            ActView::StopSession(source),
            ActView::Reply(source, stopped_text()),
        ]);
    } else {
        assert(st.acts =~= seq![ActView::Reply(source, stopped_text())]);
    }
}

/// Cache idempotence: once a program's description is cached, no later run
/// of events, however long, queries its socket for the description again,
/// and the cached entry never changes.
pub proof fn lemma_cache_idempotent(s: StateView, msgs: Seq<AppMsg>, name: Seq<char>)
    requires
        state_wf(s),
        assoc_contains(s.cache, name),
    ensures
        assoc_get(spec_run(s, msgs).state.cache, name) == assoc_get(s.cache, name),
        forall|i: int|
            0 <= i < spec_run(s, msgs).acts.len() ==> !queries_name(
                #[trigger] spec_run(s, msgs).acts[i],
                name,
            ),
    decreases msgs.len(),
{
    if msgs.len() == 0 {
    } else if msgs[0] is Finish {
    } else {
        let first = spec_step(s, msgs[0]);
        lemma_query_only_on_miss(s, msgs[0], name);
        lemma_cache_monotone(s, msgs[0], name);
        lemma_step_wf(s, msgs[0]);
        lemma_cache_idempotent(first.state, msgs.drop_first(), name);
        let rest = spec_run(first.state, msgs.drop_first());
        assert forall|i: int|
            0 <= i < spec_run(s, msgs).acts.len() implies !queries_name(
            #[trigger] spec_run(s, msgs).acts[i],
            name,
        ) by {
            if i < first.acts.len() {
                assert(spec_run(s, msgs).acts[i] == first.acts[i]);
            } else {
                assert(spec_run(s, msgs).acts[i] == rest.acts[i - first.acts.len()]);
            }
        }
    }
}

} // verus!
