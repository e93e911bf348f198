use crate::directory::{has_current, roster_current, roster_names, SessionDirectory};
use crate::message::{command_dir, dispatch_lifo, dispatch_one, Command, Notification};
use crate::navigator::{compute, name_views};
use vstd::prelude::*;

verus! {

/// What a dispatcher holds, as mathematical values.
pub struct DispatcherModel {
    /// The known session names, in the host's order.
    pub names: Seq<Seq<char>>,
    /// The current session's name.
    pub current: Seq<char>,
    /// Commands held until the dispatcher is ready, oldest first.
    pub cached: Seq<Command>,
    /// Notifications held until permission is granted, oldest first.
    pub pending: Seq<Notification>,
    /// Whether permission has been granted.
    pub granted: bool,
}

impl DispatcherModel {
    /// The state a dispatcher starts in.
    pub open spec fn initial() -> DispatcherModel {
        DispatcherModel {
            names: Seq::empty(),
            current: Seq::empty(),
            cached: Seq::empty(),
            pending: Seq::empty(),
            granted: false,
        }
    }

    /// Permission is granted and some session is known: commands are acted on.
    pub open spec fn ready(self) -> bool {
        self.granted && self.names.len() > 0
    }

    /// The directory is filled only once permission is granted, notifications
    /// are held only before that, and commands are held only until ready.
    pub open spec fn wf(self) -> bool {
        &&& !self.granted ==> self.names.len() == 0
        &&& self.granted ==> self.pending.len() == 0
        &&& self.names.len() > 0 ==> self.cached.len() == 0
    }
}

/// The notification that grants permission.
pub open spec fn is_grant(ev: Notification) -> bool {
    match ev {
        Notification::PermissionResult(g) => g,
        _ => false,
    }
}

/// Applying one notification: a roster with a current entry replaces the
/// directory and then the held commands are popped and dispatched against it;
/// a roster without one is skipped; a grant records the permission; other
/// notifications change nothing.
pub open spec fn apply_event(m: DispatcherModel, ev: Notification) -> (DispatcherModel, Seq<
    Seq<char>,
>) {
    match ev {
        Notification::SessionUpdate(r) => if has_current(r@) {
            let names = roster_names(r@);
            let current = roster_current(r@);
            (
                DispatcherModel { names, current, cached: Seq::empty(), ..m },
                dispatch_lifo(names, current, m.cached),
            )
        } else {
            (m, Seq::empty())
        },
        Notification::PermissionResult(g) => if g {
            (DispatcherModel { granted: true, ..m }, Seq::empty())
        } else {
            (m, Seq::empty())
        },
        Notification::Other => (m, Seq::empty()),
    }
}

/// Applying held notifications as they are popped: the most recent first.
pub open spec fn replay(m: DispatcherModel, evs: Seq<Notification>) -> (DispatcherModel, Seq<
    Seq<char>,
>)
    decreases evs.len(),
{
    if evs.len() == 0 {
        (m, Seq::empty())
    } else {
        let (m1, o1) = apply_event(m, evs.last());
        let (m2, o2) = replay(m1, evs.drop_last());
        (m2, o1 + o2)
    }
}

/// The new state and the switches caused by a notification.
pub open spec fn update_spec(m: DispatcherModel, ev: Notification) -> (DispatcherModel, Seq<
    Seq<char>,
>) {
    if is_grant(ev) {
        replay(DispatcherModel { granted: true, pending: Seq::empty(), ..m }, m.pending)
    } else if !m.granted {
        (DispatcherModel { pending: m.pending.push(ev), ..m }, Seq::empty())
    } else {
        apply_event(m, ev)
    }
}

/// The new state and the switches caused by a command: held until ready;
/// once ready, the held commands are popped and dispatched, then this one.
pub open spec fn pipe_spec(m: DispatcherModel, c: Command) -> (DispatcherModel, Seq<Seq<char>>) {
    if !m.ready() {
        (DispatcherModel { cached: m.cached.push(c), ..m }, Seq::empty())
    } else {
        (
            DispatcherModel { cached: Seq::empty(), ..m },
            dispatch_lifo(m.names, m.current, m.cached) + dispatch_one(m.names, m.current, c),
        )
    }
}

/// Applying a notification keeps the grant, the held notifications, and
/// commands held only while no session is known.
pub proof fn lemma_apply_event_keeps(m: DispatcherModel, ev: Notification)
    ensures
        apply_event(m, ev).0.granted == (m.granted || is_grant(ev)),
        apply_event(m, ev).0.pending == m.pending,
        (m.names.len() > 0 ==> m.cached.len() == 0) ==> (apply_event(m, ev).0.names.len() > 0
            ==> apply_event(m, ev).0.cached.len() == 0),
{
}

/// Replaying notifications keeps the same facts.
pub proof fn lemma_replay_keeps(m: DispatcherModel, evs: Seq<Notification>)
    requires
        m.names.len() > 0 ==> m.cached.len() == 0,
    ensures
        m.granted ==> replay(m, evs).0.granted,
        replay(m, evs).0.pending == m.pending,
        replay(m, evs).0.names.len() > 0 ==> replay(m, evs).0.cached.len() == 0,
    decreases evs.len(),
{
    if evs.len() > 0 {
        lemma_apply_event_keeps(m, evs.last());
        lemma_replay_keeps(apply_event(m, evs.last()).0, evs.drop_last());
    }
}

/// Every notification keeps a well-formed state well-formed.
pub proof fn lemma_update_wf(m: DispatcherModel, ev: Notification)
    requires
        m.wf(),
    ensures
        update_spec(m, ev).0.wf(),
{
    if is_grant(ev) {
        lemma_replay_keeps(DispatcherModel { granted: true, pending: Seq::empty(), ..m }, m.pending);
    } else if m.granted {
        lemma_apply_event_keeps(m, ev);
    }
}

/// The control loop: routes notifications and commands, holds what cannot be
/// acted on yet, and returns the names of the sessions to switch to, in order.
/// It lives as long as the plugin does: a command is acted on as soon as the
/// dispatcher is ready, and nothing here ends the plugin after a command.
/// Held items are popped most recent first.
pub struct Dispatcher {
    directory: SessionDirectory,
    cached_cmds: Vec<Command>,
    pending_events: Vec<Notification>,
    got_permission: bool,
}

impl View for Dispatcher {
    type V = DispatcherModel;

    closed spec fn view(&self) -> DispatcherModel {
        DispatcherModel {
            names: name_views(self.directory.sessions@),
            current: self.directory.current@,
            cached: self.cached_cmds@,
            pending: self.pending_events@,
            granted: self.got_permission,
        }
    }
}

impl Default for Dispatcher {
    fn default() -> (d: Self)
        ensures
            d@ == DispatcherModel::initial(),
    {
        Dispatcher::new()
    }
}

impl Dispatcher {
    /// A dispatcher waiting for permission, with no session known.
    pub fn new() -> (d: Self)
        ensures
            d@ == DispatcherModel::initial(),
            d@.wf(),
    {
        let d = Dispatcher {
            directory: SessionDirectory::new(),
            cached_cmds: Vec::new(),
            pending_events: Vec::new(),
            got_permission: false,
        };
        assert(d@.names =~= Seq::<Seq<char>>::empty());
        assert(d@.current =~= Seq::<char>::empty());
        d
    }

    /// The switch one command asks for against the current directory, if any.
    pub fn handle_pipe(&self, cmd: &Command) -> (r: Option<String>)
        ensures
            match r {
                Some(t) => dispatch_one(self@.names, self@.current, *cmd) == seq![t@],
                None => dispatch_one(self@.names, self@.current, *cmd) == Seq::<Seq<char>>::empty(),
            },
    {
        match command_dir(cmd) {
            Some(d) => match compute(&self.directory.sessions, &self.directory.current, d) {
                Ok(t) => Some(t),
                Err(_) => None,
            },
            None => None,
        }
    }

    /// Pops every held command, most recent first, and appends the switches
    /// they cause to `out`.
    fn drain_commands(&mut self, out: &mut Vec<String>)
        ensures
            final(self)@ == (DispatcherModel { cached: Seq::empty(), ..old(self)@ }),
            name_views(final(out)@) == name_views(old(out)@) + dispatch_lifo(
                old(self)@.names,
                old(self)@.current,
                old(self)@.cached,
            ),
    {
        let ghost m0 = self@;
        let ghost out0 = name_views(out@);
        let mut cmds: Vec<Command> = Vec::new();
        std::mem::swap(&mut cmds, &mut self.cached_cmds);
        assert(self@ =~= (DispatcherModel { cached: Seq::empty(), ..m0 }));
        while cmds.len() > 0
            invariant
                self@ == (DispatcherModel { cached: Seq::empty(), ..m0 }),
                name_views(out@) + dispatch_lifo(m0.names, m0.current, cmds@) == out0
                    + dispatch_lifo(m0.names, m0.current, m0.cached),
            decreases cmds@.len(),
        {
            let ghost before = cmds@;
            let ghost out1 = out@;
            match cmds.pop() {
                Some(c) => {
                    let r = self.handle_pipe(&c);
                    match r {
                        Some(t) => {
                            out.push(t);
                            assert(name_views(out@) =~= name_views(out1) + seq![t@]);
                        },
                        None => {},
                    }
                    assert(before.drop_last() == cmds@);
                    assert(name_views(out@) + dispatch_lifo(m0.names, m0.current, cmds@)
                        =~= name_views(out1) + dispatch_lifo(m0.names, m0.current, before));
                },
                None => {},
            }
        }
        assert(name_views(out@) =~= name_views(out@) + dispatch_lifo(
            m0.names,
            m0.current,
            cmds@,
        ));
    }

    /// Applies one notification, appending the switches it causes to `out`.
    fn handle_event(&mut self, event: Notification, out: &mut Vec<String>)
        ensures
            final(self)@ == apply_event(old(self)@, event).0,
            name_views(final(out)@) == name_views(old(out)@) + apply_event(old(self)@, event).1,
    {
        match event {
            Notification::SessionUpdate(roster) => {
                match SessionDirectory::from_roster(&roster) {
                    Ok(d) => {
                        self.directory = d;
                        self.drain_commands(out);
                    },
                    Err(_) => {
                        assert(name_views(out@) =~= name_views(out@) + Seq::<Seq<char>>::empty());
                    },
                }
            },
            Notification::PermissionResult(true) => {
                self.got_permission = true;
                assert(name_views(out@) =~= name_views(out@) + Seq::<Seq<char>>::empty());
            },
            _ => {
                assert(name_views(out@) =~= name_views(out@) + Seq::<Seq<char>>::empty());
            },
        }
    }

    /// Takes in a notification from the host and returns the names of the
    /// sessions to switch to, in order. Before the grant, notifications are
    /// held; the grant replays them most recent first. A roster with no
    /// current entry is skipped and the directory kept, rather than stopping
    /// the plugin.
    pub fn update(&mut self, event: Notification) -> (r: Vec<String>)
        requires
            old(self)@.wf(),
        ensures
            final(self)@.wf(),
            (final(self)@, name_views(r@)) == update_spec(old(self)@, event),
    {
        let ghost m0 = self@;
        let ghost target = update_spec(m0, event);
        proof {
            lemma_update_wf(m0, event);
        }
        let mut out: Vec<String> = Vec::new();
        assert(name_views(out@) =~= Seq::<Seq<char>>::empty());
        let grant = match &event {
            Notification::PermissionResult(g) => *g,
            _ => false,
        };
        if grant {
            self.got_permission = true;
            let mut evs: Vec<Notification> = Vec::new();
            std::mem::swap(&mut evs, &mut self.pending_events);
            assert(self@ == (DispatcherModel { granted: true, pending: Seq::empty(), ..m0 }));
            while evs.len() > 0
                invariant
                    self@.granted,
                    replay(self@, evs@).0 == target.0,
                    name_views(out@) + replay(self@, evs@).1 == target.1,
                decreases evs@.len(),
            {
                let ghost before = evs@;
                let ghost s0 = self@;
                let ghost out1 = name_views(out@);
                match evs.pop() {
                    Some(ev) => {
                        proof {
                            lemma_apply_event_keeps(s0, ev);
                        }
                        self.handle_event(ev, &mut out);
                        assert(before.drop_last() == evs@);
                        assert(name_views(out@) + replay(self@, evs@).1 =~= out1 + replay(
                            s0,
                            before,
                        ).1);
                    },
                    None => {},
                }
            }
            assert(name_views(out@) =~= name_views(out@) + Seq::<Seq<char>>::empty());
            return out;
        }
        if !self.got_permission {
            self.pending_events.push(event);
            return out;
        }
        self.handle_event(event, &mut out);
        assert(name_views(out@) =~= apply_event(m0, event).1);
        out
    }

    /// Takes in a command and returns the names of the sessions to switch to,
    /// in order.
    pub fn pipe(&mut self, cmd: Command) -> (r: Vec<String>)
        requires
            old(self)@.wf(),
        ensures
            final(self)@.wf(),
            (final(self)@, name_views(r@)) == pipe_spec(old(self)@, cmd),
    {
        let ghost m0 = self@;
        let mut out: Vec<String> = Vec::new();
        assert(name_views(out@) =~= Seq::<Seq<char>>::empty());
        if !self.got_permission || self.directory.sessions.len() == 0 {
            self.cached_cmds.push(cmd);
            return out;
        }
        self.drain_commands(&mut out);
        let ghost out1 = name_views(out@);
        match self.handle_pipe(&cmd) {
            Some(t) => {
                out.push(t);
                assert(name_views(out@) =~= out1 + seq![t@]);
            },
            None => {
                assert(name_views(out@) =~= out1 + Seq::<Seq<char>>::empty());
            },
        }
        out
    }

    /// Whether permission has been granted.
    pub fn is_granted(&self) -> (r: bool)
        ensures
            r == self@.granted,
    {
        self.got_permission
    }

    /// The known session names, in the host's order.
    pub fn sessions(&self) -> (r: &Vec<String>)
        ensures
            name_views(r@) == self@.names,
    {
        &self.directory.sessions
    }

    /// The current session's name.
    pub fn current_session(&self) -> (r: &String)
        ensures
            r@ == self@.current,
    {
        &self.directory.current
    }

    /// How many commands are held.
    pub fn cached_command_count(&self) -> (r: usize)
        ensures
            r == self@.cached.len(),
    {
        self.cached_cmds.len()
    }

    /// How many notifications are held.
    pub fn pending_event_count(&self) -> (r: usize)
        ensures
            r == self@.pending.len(),
    {
        self.pending_events.len()
    }
}

} // verus!
