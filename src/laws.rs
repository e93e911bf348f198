//! Properties of the dispatcher that relate several calls.
use crate::directory::{has_current, roster_current, roster_names};
use crate::dispatcher::{apply_event, is_grant, pipe_spec, replay, update_spec, DispatcherModel};
use crate::message::{
    dispatch_lifo, dispatch_one, payload_direction, Command, Notification, SessionEntry,
};
use vstd::prelude::*;

verus! {

/// The roster among held notifications that is applied first when they are
/// popped: the most recent one with a current entry.
pub open spec fn latest_roster(evs: Seq<Notification>) -> Option<Seq<SessionEntry>>
    decreases evs.len(),
{
    if evs.len() == 0 {
        None
    } else {
        match evs.last() {
            Notification::SessionUpdate(r) => if has_current(r@) {
                Some(r@)
            } else {
                latest_roster(evs.drop_last())
            },
            _ => latest_roster(evs.drop_last()),
        }
    }
}

/// Replaying notifications dispatches the held commands exactly once, against
/// the first roster applied, and leaves none held; with no roster to apply,
/// nothing is dispatched and the commands stay held.
pub proof fn lemma_replay_dispatches_held(m: DispatcherModel, evs: Seq<Notification>)
    ensures
        replay(m, evs).1 == match latest_roster(evs) {
            Some(r) => dispatch_lifo(roster_names(r), roster_current(r), m.cached),
            None => Seq::<Seq<char>>::empty(),
        },
        replay(m, evs).0.cached == match latest_roster(evs) {
            Some(_) => Seq::<Command>::empty(),
            None => m.cached,
        },
    decreases evs.len(),
{
    if evs.len() > 0 {
        let rest = evs.drop_last();
        match evs.last() {
            Notification::SessionUpdate(r) => {
                if has_current(r@) {
                    let names = roster_names(r@);
                    let current = roster_current(r@);
                    let m1 = DispatcherModel { names, current, cached: Seq::empty(), ..m };
                    lemma_replay_dispatches_held(m1, rest);
                    assert(dispatch_lifo(names, current, m1.cached) == Seq::<Seq<char>>::empty());
                    assert(replay(m1, rest).1 == Seq::<Seq<char>>::empty()) by {
                        match latest_roster(rest) {
                            Some(r2) => {
                                assert(dispatch_lifo(
                                    roster_names(r2),
                                    roster_current(r2),
                                    m1.cached,
                                ) == Seq::<Seq<char>>::empty());
                            },
                            None => {},
                        }
                    }
                    assert(replay(m, evs).1 =~= dispatch_lifo(names, current, m.cached));
                } else {
                    lemma_replay_dispatches_held(m, rest);
                    assert(replay(m, evs).1 =~= replay(m, rest).1);
                }
            },
            _ => {
                let m1 = apply_event(m, evs.last()).0;
                assert(m1.cached == m.cached);
                lemma_replay_dispatches_held(m1, rest);
                assert(replay(m, evs).1 =~= replay(m1, rest).1);
            },
        }
    }
}

/// Until the dispatcher is ready (permission granted and some session known),
/// a command causes no switch and is held after those already held.
pub proof fn lemma_held_while_not_ready(m: DispatcherModel, c: Command)
    requires
        m.wf(),
        !m.ready(),
    ensures
        pipe_spec(m, c).1 == Seq::<Seq<char>>::empty(),
        pipe_spec(m, c).0 == (DispatcherModel { cached: m.cached.push(c), ..m }),
{
}

/// Before permission is granted, a notification other than the grant causes
/// no switch, keeps the held commands, and is itself held.
pub proof fn lemma_held_until_granted(m: DispatcherModel, ev: Notification)
    requires
        m.wf(),
        !m.granted,
        !is_grant(ev),
    ensures
        update_spec(m, ev).1 == Seq::<Seq<char>>::empty(),
        update_spec(m, ev).0 == (DispatcherModel { pending: m.pending.push(ev), ..m }),
{
}

/// The grant dispatches every command held before it exactly once, most
/// recent first, against the most recent roster held with it, and then holds
/// none; when no such roster was held, the commands stay held for the next.
pub proof fn lemma_grant_dispatches_held(m: DispatcherModel)
    requires
        m.wf(),
        !m.granted,
    ensures
        update_spec(m, Notification::PermissionResult(true)).0.granted,
        update_spec(m, Notification::PermissionResult(true)).0.pending.len() == 0,
        update_spec(m, Notification::PermissionResult(true)).1 == match latest_roster(m.pending) {
            Some(r) => dispatch_lifo(roster_names(r), roster_current(r), m.cached),
            None => Seq::<Seq<char>>::empty(),
        },
        update_spec(m, Notification::PermissionResult(true)).0.cached == match latest_roster(
            m.pending,
        ) {
            Some(_) => Seq::<Command>::empty(),
            None => m.cached,
        },
{
    let g = DispatcherModel { granted: true, pending: Seq::empty(), ..m };
    lemma_replay_dispatches_held(g, m.pending);
    crate::dispatcher::lemma_replay_keeps(g, m.pending);
}

/// Once permission is granted, the first roster with a current entry fills
/// the directory and dispatches every held command exactly once, most recent
/// first, leaving none held.
pub proof fn lemma_first_roster_releases_held(m: DispatcherModel, roster: Vec<SessionEntry>)
    requires
        m.wf(),
        m.granted,
        m.names.len() == 0,
        has_current(roster@),
    ensures
        update_spec(m, Notification::SessionUpdate(roster)) == (
            DispatcherModel {
                names: roster_names(roster@),
                current: roster_current(roster@),
                cached: Seq::empty(),
                ..m
            },
            dispatch_lifo(roster_names(roster@), roster_current(roster@), m.cached),
        ),
{
}

/// A grant that arrives when permission is already granted changes nothing
/// and dispatches nothing.
pub proof fn lemma_repeated_grant(m: DispatcherModel)
    requires
        m.wf(),
        m.granted,
    ensures
        update_spec(m, Notification::PermissionResult(true)) == (m, Seq::<Seq<char>>::empty()),
{
    assert(m.pending =~= Seq::<Notification>::empty());
    assert((DispatcherModel { granted: true, pending: Seq::empty(), ..m }) == m);
}

/// A command whose payload names no direction causes no switch; once the
/// dispatcher is ready it leaves the state as it was.
pub proof fn lemma_unrecognized_payload(m: DispatcherModel, c: Command, p: String)
    requires
        m.wf(),
        c.payload == Some(p),
        payload_direction(p@) is None,
    ensures
        dispatch_one(m.names, m.current, c) == Seq::<Seq<char>>::empty(),
        m.ready() ==> pipe_spec(m, c) == (m, Seq::<Seq<char>>::empty()),
{
    if m.ready() {
        assert(m.cached =~= Seq::<Command>::empty());
        assert(dispatch_lifo(m.names, m.current, m.cached) == Seq::<Seq<char>>::empty());
        assert(pipe_spec(m, c).1 =~= Seq::<Seq<char>>::empty());
        assert((DispatcherModel { cached: Seq::empty(), ..m }) == m);
    }
}

/// One call into a dispatcher: a notification or a command.
pub enum HostCall {
    Notify(Notification),
    Pipe(Command),
}

/// The new state and the switches caused by one call.
pub open spec fn call_spec(m: DispatcherModel, c: HostCall) -> (DispatcherModel, Seq<Seq<char>>) {
    match c {
        HostCall::Notify(ev) => update_spec(m, ev),
        HostCall::Pipe(cmd) => pipe_spec(m, cmd),
    }
}

/// The final state and all switches caused by a sequence of calls, in order.
pub open spec fn run(m: DispatcherModel, calls: Seq<HostCall>) -> (DispatcherModel, Seq<Seq<char>>)
    decreases calls.len(),
{
    if calls.len() == 0 {
        (m, Seq::empty())
    } else {
        let (m1, o1) = run(m, calls.drop_last());
        let (m2, o2) = call_spec(m1, calls.last());
        (m2, o1 + o2)
    }
}

/// The commands among the calls, in arrival order.
pub open spec fn piped(calls: Seq<HostCall>) -> Seq<Command>
    decreases calls.len(),
{
    if calls.len() == 0 {
        Seq::empty()
    } else {
        match calls.last() {
            HostCall::Pipe(cmd) => piped(calls.drop_last()).push(cmd),
            HostCall::Notify(_) => piped(calls.drop_last()),
        }
    }
}

/// The notifications among the calls, in arrival order.
pub open spec fn notified(calls: Seq<HostCall>) -> Seq<Notification>
    decreases calls.len(),
{
    if calls.len() == 0 {
        Seq::empty()
    } else {
        match calls.last() {
            HostCall::Notify(ev) => notified(calls.drop_last()).push(ev),
            HostCall::Pipe(_) => notified(calls.drop_last()),
        }
    }
}

/// The call is not the grant.
pub open spec fn is_grant_call(c: HostCall) -> bool {
    match c {
        HostCall::Notify(ev) => is_grant(ev),
        HostCall::Pipe(_) => false,
    }
}

/// Before the grant, no sequence of calls without a grant causes any switch:
/// every command is held after those already held, in arrival order, none
/// dropped and none repeated; every notification is held likewise; and no
/// session becomes known.
pub proof fn lemma_no_dispatch_before_grant(m: DispatcherModel, calls: Seq<HostCall>)
    requires
        m.wf(),
        !m.granted,
        forall|i: int| 0 <= i < calls.len() ==> !is_grant_call(#[trigger] calls[i]),
    ensures
        run(m, calls).1 == Seq::<Seq<char>>::empty(),
        run(m, calls).0.cached == m.cached + piped(calls),
        run(m, calls).0.pending == m.pending + notified(calls),
        run(m, calls).0.names == m.names,
        run(m, calls).0.current == m.current,
        !run(m, calls).0.granted,
        run(m, calls).0.wf(),
    decreases calls.len(),
{
    if calls.len() == 0 {
        assert(m.cached + piped(calls) =~= m.cached);
        assert(m.pending + notified(calls) =~= m.pending);
    } else {
        let rest = calls.drop_last();
        assert forall|i: int| 0 <= i < rest.len() implies !is_grant_call(#[trigger] rest[i]) by {
            assert(rest[i] == calls[i]);
        }
        lemma_no_dispatch_before_grant(m, rest);
        let m1 = run(m, rest).0;
        assert(!is_grant_call(calls[calls.len() - 1]));
        match calls.last() {
            HostCall::Pipe(cmd) => {
                lemma_held_while_not_ready(m1, cmd);
                assert(m.cached + piped(calls) =~= (m.cached + piped(rest)).push(cmd));
                assert(m.pending + notified(calls) =~= m.pending + notified(rest));
            },
            HostCall::Notify(ev) => {
                lemma_held_until_granted(m1, ev);
                assert(m.pending + notified(calls) =~= (m.pending + notified(rest)).push(ev));
                assert(m.cached + piped(calls) =~= m.cached + piped(rest));
            },
        }
        assert(run(m, calls).1 =~= Seq::<Seq<char>>::empty());
    }
}

} // verus!
