//! One client session: the messages a client sends and what they do to the
//! session's game. The transport that carries the messages is not part of
//! this library; it hands each message over as text and sends the reply.

use crate::position::Position;
use crate::state::State;
use vstd::prelude::*;

verus! {

/// The two fields of a client message that a session reads. A field that
/// the message lacks, or that is not a string, is absent.
#[derive(Debug)]
pub struct Command {
    pub id: Option<String>,
    pub action: Option<String>,
}

/// The answer of a session to a message.
#[derive(Clone, Copy, Debug, PartialEq, Eq, Structural)]
pub enum Reply {
    /// A new game in the starting position is ready.
    Ready,
    /// The message is not a JSON text with a string `id` and a string
    /// `action`.
    Malformed,
    /// The message names another session.
    UnknownSession,
    /// The session does not know the action.
    UnknownAction,
}

/// What `serde_json` reads in a message: nothing where the text is not
/// JSON, else the string under `id` and the string under `action`, each
/// where there is one.
pub uninterp spec fn message_fields(text: Seq<char>) -> Option<(Option<Seq<char>>, Option<Seq<char>>)>;

/// The characters of a string that may be absent.
pub open spec fn chars_of(s: Option<String>) -> Option<Seq<char>> {
    match s {
        Some(s) => Some(s@),
        None => None,
    }
}

/// The fields of a command that may be absent, as characters.
pub open spec fn fields_of(command: Option<Command>) -> Option<(Option<Seq<char>>, Option<Seq<char>>)> {
    match command {
        Some(c) => Some((chars_of(c.id), chars_of(c.action))),
        None => None,
    }
}

/// The answer that a session with the given identifier owes to a message
/// with the given fields.
pub open spec fn reply_to(
    session: Seq<char>,
    fields: Option<(Option<Seq<char>>, Option<Seq<char>>)>,
) -> Reply {
    match fields {
        Some((Some(id), Some(action))) => if action != "setup"@ {
            Reply::UnknownAction
        } else if id != session {
            Reply::UnknownSession
        } else {
            Reply::Ready
        },
        _ => Reply::Malformed,
    }
}

/// Parses a message with `serde_json::from_str` into a `serde_json::Value`
/// and takes from it, with `Value`'s index operator and `Value::as_str`,
/// the strings under `id` and `action`. Trusted: that the outcome depends
/// on the text alone; what it is for a given text is left to `serde_json`.
#[verifier::external_body]
fn read_message(text: &str) -> (command: Option<Command>)
    ensures
        fields_of(command) == message_fields(text@),
{
    match serde_json::from_str::<serde_json::Value>(text) {
        Ok(data) => Some(
            Command {
                id: data["id"].as_str().map(String::from),
                action: data["action"].as_str().map(String::from),
            },
        ),
        Err(_) => None,
    }
}

/// A session: its identifier and its game, once one has been set up.
pub struct Session {
    id: String,
    game: Option<State>,
}

impl Session {
    /// The identifier of the session.
    pub closed spec fn name(&self) -> Seq<char> {
        self.id@
    }

    /// The game of the session, if one has been set up.
    pub closed spec fn current_game(&self) -> Option<State> {
        self.game
    }

    /// The game of the session, if there is one, is valid.
    pub open spec fn wf(&self) -> bool {
        self.current_game() matches Some(state) ==> state.wf()
    }

    /// A session without a game.
    pub fn new(id: String) -> (session: Session)
        ensures
            session.name() == id@,
            session.current_game() is None,
            session.wf(),
    {
        Session { id, game: None }
    }

    /// The identifier of the session.
    pub fn id(&self) -> (id: &String)
        ensures
            id@ == self.name(),
    {
        &self.id
    }

    /// The game of the session, if one has been set up.
    pub fn game(&self) -> (game: &Option<State>)
        ensures
            *game == self.current_game(),
    {
        &self.game
    }

    /// Answers a message already read. The action `setup`, sent under the
    /// session's own identifier, gives the session a new game in the
    /// starting position; every other message leaves the session as it is.
    pub fn apply(&mut self, command: Option<Command>) -> (reply: Reply)
        ensures
            reply == reply_to(old(self).name(), fields_of(command)),
            final(self).name() == old(self).name(),
            reply == Reply::Ready ==> {
                &&& final(self).current_game() matches Some(state)
                &&& state.wf()
                &&& state@ == Position::standard()
            },
            reply != Reply::Ready ==> final(self).current_game() == old(self).current_game(),
            old(self).wf() ==> final(self).wf(),
    {
        let command = match command {
            Some(command) => command,
            None => {
                return Reply::Malformed;
            },
        };
        let (id, action) = match (command.id, command.action) {
            (Some(id), Some(action)) => (id, action),
            _ => {
                return Reply::Malformed;
            },
        };
        if action != "setup".to_owned() {
            return Reply::UnknownAction;
        }
        if id != self.id {
            return Reply::UnknownSession;
        }
        self.game = Some(State::new());
        Reply::Ready
    }

    /// Reads a message and answers it.
    pub fn handle_message(&mut self, text: &str) -> (reply: Reply)
        ensures
            reply == reply_to(old(self).name(), message_fields(text@)),
            final(self).name() == old(self).name(),
            reply == Reply::Ready ==> {
                &&& final(self).current_game() matches Some(state)
                &&& state.wf()
                &&& state@ == Position::standard()
            },
            reply != Reply::Ready ==> final(self).current_game() == old(self).current_game(),
            old(self).wf() ==> final(self).wf(),
    {
        let command = read_message(text);
        self.apply(command)
    }
}

} // verus!
