use crate::navigator::{nav_target, Direction};
use vstd::prelude::*;

verus! {

/// The command name that asks for a session switch.
pub const PIPE_NAME: &'static str = "switch_session";

/// The payload that asks for the next session.
pub const NEXT_PAYLOAD: &'static str = "next";

/// The payload that asks for the previous session.
pub const PREV_PAYLOAD: &'static str = "prev";

/// Where an inbound command came from.
pub enum Origin {
    /// An external command-line invocation, with its pipe id.
    Cli(String),
    /// A keybinding of the host.
    Keybind,
    /// Another plugin, with its id.
    Plugin(u32),
}

/// An inbound command.
pub struct Command {
    pub origin: Origin,
    pub name: String,
    pub payload: Option<String>,
}

/// One session of a roster as the host reports it.
pub struct SessionEntry {
    pub name: String,
    pub is_current: bool,
}

/// An inbound notification from the host.
pub enum Notification {
    /// The full roster of sessions, in the host's order.
    SessionUpdate(Vec<SessionEntry>),
    /// The answer to the permission request: `true` when granted.
    PermissionResult(bool),
    /// Any notification this system does not act on.
    Other,
}

/// The direction a payload asks for, if any.
pub open spec fn payload_direction(p: Seq<char>) -> Option<Direction> {
    if p == NEXT_PAYLOAD@ {
        Some(Direction::Forward)
    } else if p == PREV_PAYLOAD@ {
        Some(Direction::Backward)
    } else {
        None
    }
}

/// The direction a command asks for: only a switch command from the command
/// line or a keybinding, with a recognized payload, asks for one.
pub open spec fn command_direction(c: Command) -> Option<Direction> {
    match c.origin {
        Origin::Plugin(_) => None,
        _ => if c.name@ == PIPE_NAME@ {
            match c.payload {
                Some(p) => payload_direction(p@),
                None => None,
            }
        } else {
            None
        },
    }
}

/// The switches one command causes against a directory: none or one.
pub open spec fn dispatch_one(names: Seq<Seq<char>>, current: Seq<char>, c: Command) -> Seq<
    Seq<char>,
> {
    match command_direction(c) {
        Some(d) => match nav_target(names, current, d) {
            Ok(t) => seq![t],
            Err(_) => Seq::empty(),
        },
        None => Seq::empty(),
    }
}

/// The switches that a buffer of commands causes when it is popped to empty:
/// the most recently buffered command goes first.
pub open spec fn dispatch_lifo(names: Seq<Seq<char>>, current: Seq<char>, cmds: Seq<Command>) -> Seq<
    Seq<char>,
>
    decreases cmds.len(),
{
    if cmds.len() == 0 {
        Seq::empty()
    } else {
        dispatch_one(names, current, cmds.last()) + dispatch_lifo(names, current, cmds.drop_last())
    }
}

/// The direction `payload` asks for.
pub fn parse_payload(payload: &String) -> (r: Option<Direction>)
    ensures
        r == payload_direction(payload@),
{
    if *payload == NEXT_PAYLOAD.to_owned() {
        Some(Direction::Forward)
    } else if *payload == PREV_PAYLOAD.to_owned() {
        Some(Direction::Backward)
    } else {
        None
    }
}

/// The direction `cmd` asks for, or `None` when it is not actionable.
pub fn command_dir(cmd: &Command) -> (r: Option<Direction>)
    ensures
        r == command_direction(*cmd),
{
    match &cmd.origin {
        Origin::Plugin(_) => None,
        _ => {
            if cmd.name == PIPE_NAME.to_owned() {
                match &cmd.payload {
                    Some(p) => parse_payload(p),
                    None => None,
                }
            } else {
                None
            }
        },
    }
}

} // verus!
