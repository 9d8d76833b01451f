//! The client's part of the protocol: what it makes of a response.

use vstd::prelude::*;
use vstd::string::*;
use crate::common::{response_matches, Command, CommandResponse, Response};
use crate::error::{KvStoreError, Result};

verus! {

/// Whether the response can follow the command: a failure can follow any
/// command, an answer only the command of its kind.
pub fn check_response_valid(cmd: &Command, resp: &Response) -> (valid: bool)
    ensures
        valid == response_matches(*cmd, *resp),
{
    match resp {
        Err(_) => true,
        Ok(cmd_resp) => match (cmd, cmd_resp) {
            (Command::Get(_), CommandResponse::GetResponse(_)) => true,
            (Command::SetValue(_, _), CommandResponse::SetResponse) => true,
            (Command::Remove(_), CommandResponse::RemoveResponse) => true,
            _ => false,
        },
    }
}

/// Takes the response if it can follow the command, and refuses it if not.
pub fn check_response(cmd: Command, resp: Response) -> (r: Result<()>)
    ensures
        r is Ok <==> response_matches(cmd, resp),
        r matches Err(e) ==> (e matches KvStoreError::OtherError(m) && m@
            == "Response mismatches the command"@),
{
    if check_response_valid(&cmd, &resp) {
        Ok(())
    } else {
        Err(KvStoreError::OtherError(String::from_str("Response mismatches the command")))
    }
}

/// What the client does with a response.
#[derive(Debug)]
pub enum Shown {
    /// Print the text on standard output.
    Print(String),
    /// Print nothing.
    Silent,
    /// Print the text on standard error and exit with status 1.
    Fail(String),
}

/// What the client does with a response: it prints the value that a `Get`
/// found, or `Key not found`; it says nothing of a `SetValue` or a `Remove`
/// that went well; it fails with the message of a failure.
pub fn display_response(resp: Response) -> (shown: Shown)
    ensures
        match resp {
            Ok(CommandResponse::GetResponse(Some(val))) => shown == Shown::Print(val),
            Ok(CommandResponse::GetResponse(None)) => shown matches Shown::Print(text) && text@
                == "Key not found"@,
            Ok(_) => shown is Silent,
            Err(e) => shown == Shown::Fail(e),
        },
{
    match resp {
        Ok(cmd_resp) => match cmd_resp {
            CommandResponse::GetResponse(opt) => match opt {
                Some(val) => Shown::Print(val),
                None => Shown::Print(String::from_str("Key not found")),
            },
            _ => Shown::Silent,
        },
        Err(e) => Shown::Fail(e),
    }
}

} // verus!
