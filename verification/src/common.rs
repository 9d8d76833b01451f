//! The commands a client may send and the answers the server gives.

use vstd::prelude::*;

verus! {

/// A request to the store. `SetValue` and `Remove` are also the records of the
/// log; `Get` only ever travels between client and server.
#[derive(Debug, Clone)]
pub enum Command {
    Get(String),
    SetValue(String, String),
    Remove(String),
}

/// What a command says, with its strings as sequences of characters.
pub enum CommandModel {
    Get(Seq<char>),
    SetValue(Seq<char>, Seq<char>),
    Remove(Seq<char>),
}

impl View for Command {
    type V = CommandModel;

    open spec fn view(&self) -> CommandModel {
        match *self {
            Command::Get(k) => CommandModel::Get(k@),
            Command::SetValue(k, v) => CommandModel::SetValue(k@, v@),
            Command::Remove(k) => CommandModel::Remove(k@),
        }
    }
}

/// The answer to a command that the engine carried out.
#[derive(Debug, Clone)]
pub enum CommandResponse {
    GetResponse(Option<String>),
    SetResponse,
    RemoveResponse,
}

/// What the server sends back: the answer, or the message of a failure.
pub type Response = std::result::Result<CommandResponse, String>;

/// Whether `resp` is a response that can follow `cmd`: a failure, or the
/// answer of the command's own kind.
pub open spec fn response_matches(cmd: Command, resp: Response) -> bool {
    match resp {
        Err(_) => true,
        Ok(answer) => match cmd {
            Command::Get(_) => answer is GetResponse,
            Command::SetValue(_, _) => answer is SetResponse,
            Command::Remove(_) => answer is RemoveResponse,
        },
    }
}

} // verus!
