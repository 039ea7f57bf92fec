//! Data model of the snapshot: clients, commands, and the protocol request
//! bodies, together with their mathematical views.

use vstd::prelude::*;

verus! {

/// A known agent: its identity string and the last time it was seen,
/// as Unix seconds.
pub struct Client {
    pub ip: String,
    pub date: i64,
}

/// A queued shell command for one agent. `output` absent means the command is
/// still pending; present means it has completed with that output. `date` is
/// the creation time, as Unix seconds.
pub struct Command {
    pub ip: String,
    pub command: String,
    pub date: i64,
    pub output: Option<String>,
}

/// The whole persisted snapshot: every known client and every command ever
/// stored. Commands are kept in insertion (creation) order and never removed.
pub struct Config {
    pub clients: Vec<Client>,
    pub commands: Vec<Command>,
}

/// A ping request body: an agent asking for its pending commands.
pub struct Ping {
    pub token: String,
}

/// A pong request body: an agent reporting results for commands it ran.
pub struct Pong {
    pub token: String,
    pub commands: Vec<Command>,
}

/// The mathematical value of a `Client`.
pub struct ClientView {
    pub ip: Seq<char>,
    pub date: i64,
}

/// The mathematical value of a `Command`.
pub struct CommandView {
    pub ip: Seq<char>,
    pub command: Seq<char>,
    pub date: i64,
    pub output: Option<Seq<char>>,
}

impl DeepView for Client {
    type V = ClientView;

    open spec fn deep_view(&self) -> ClientView {
        ClientView { ip: self.ip.deep_view(), date: self.date }
    }
}

impl DeepView for Command {
    type V = CommandView;

    open spec fn deep_view(&self) -> CommandView {
        CommandView {
            ip: self.ip.deep_view(),
            command: self.command.deep_view(),
            date: self.date,
            output: self.output.deep_view(),
        }
    }
}

impl Clone for Client {
    fn clone(&self) -> (r: Self)
        ensures
            r.deep_view() == self.deep_view(),
    {
        Client { ip: self.ip.clone(), date: self.date }
    }
}

impl Clone for Command {
    fn clone(&self) -> (r: Self)
        ensures
            r.deep_view() == self.deep_view(),
    {
        Command {
            ip: self.ip.clone(),
            command: self.command.clone(),
            date: self.date,
            output: match &self.output {
                Some(s) => Some(s.clone()),
                None => None,
            },
        }
    }
}

} // verus!
