//! The server's part of the protocol: one command in, one response out.

use vstd::prelude::*;
use vstd::string::*;
use crate::common::{response_matches, Command, CommandResponse, Response};
use crate::engine::{option_view, value_of, KvsEngine};
use crate::error::{KvStoreError, Result};

verus! {

/// The message of a failure that is the server's own.
pub open spec fn server_error_text() -> Seq<char> {
    "Server internal error"@
}

/// The message of a `Remove` for a key that has no value.
pub open spec fn key_not_found_text() -> Seq<char> {
    "Key not found"@
}

/// Whether `resp` is the failure with the message `text`.
pub open spec fn is_failure(resp: Response, text: Seq<char>) -> bool {
    resp matches Err(m) && m@ == text
}

/// What the server made of a command: the response that goes to the client
/// and, where that is the server's own failure, the engine's error that lies
/// behind it, for the caller to log.
#[derive(Debug)]
pub struct Served {
    pub resp: Response,
    pub fault: Option<KvStoreError>,
}

/// The response to a `Get`, from what the engine gave: the value, found or
/// not, or the server's own failure with the engine's error behind it.
pub fn get_response(result: Result<Option<String>>) -> (served: Served)
    ensures
        match result {
            Ok(val) => served.resp == Ok::<CommandResponse, String>(
                CommandResponse::GetResponse(val),
            ) && served.fault is None,
            Err(e) => is_failure(served.resp, server_error_text()) && served.fault == Some(e),
        },
{
    match result {
        Ok(val) => Served { resp: Ok(CommandResponse::GetResponse(val)), fault: None },
        Err(e) => Served { resp: Err(String::from_str("Server internal error")), fault: Some(e) },
    }
}

/// The response to a `SetValue`, from what the engine gave.
pub fn set_response(result: Result<()>) -> (served: Served)
    ensures
        match result {
            Ok(_) => served.resp == Ok::<CommandResponse, String>(CommandResponse::SetResponse)
                && served.fault is None,
            Err(e) => is_failure(served.resp, server_error_text()) && served.fault == Some(e),
        },
{
    match result {
        Ok(_) => Served { resp: Ok(CommandResponse::SetResponse), fault: None },
        Err(e) => Served { resp: Err(String::from_str("Server internal error")), fault: Some(e) },
    }
}

/// The response to a `Remove`, from what the engine gave. A missing key is
/// the client's fault and told as such, with nothing to log; any other
/// failure is the server's.
pub fn remove_response(result: Result<()>) -> (served: Served)
    ensures
        match result {
            Ok(_) => served.resp == Ok::<CommandResponse, String>(
                CommandResponse::RemoveResponse,
            ) && served.fault is None,
            Err(KvStoreError::KeyNotFound) => is_failure(served.resp, key_not_found_text())
                && served.fault is None,
            Err(e) => is_failure(served.resp, server_error_text()) && served.fault == Some(e),
        },
{
    match result {
        Ok(_) => Served { resp: Ok(CommandResponse::RemoveResponse), fault: None },
        Err(e) => match e {
            KvStoreError::KeyNotFound => Served {
                resp: Err(String::from_str("Key not found")),
                fault: None,
            },
            _ => Served { resp: Err(String::from_str("Server internal error")), fault: Some(e) },
        },
    }
}

/// The two messages differ.
pub proof fn lemma_failure_texts_differ()
    ensures
        server_error_text() != key_not_found_text(),
{
    reveal_strlit("Server internal error");
    reveal_strlit("Key not found");
    assert("Server internal error"@.len() == 21);
    assert("Key not found"@.len() == 13);
}

/// What the response to `cmd` says of an engine that served `before` and
/// now serves `after`: a value that was found is the value of the key, and
/// none was found if the key has none; after a `SetResponse` the key has the
/// value; after a `RemoveResponse` the key, which had a value, has none; and
/// `Key not found` says that the key had no value and that nothing changed.
pub open spec fn response_tells(
    cmd: Command,
    resp: Response,
    before: Map<Seq<char>, Seq<char>>,
    after: Map<Seq<char>, Seq<char>>,
) -> bool {
    match cmd {
        Command::Get(key) => resp matches Ok(CommandResponse::GetResponse(found)) ==> after
            == before && option_view(found) == value_of(before, key@),
        Command::SetValue(key, val) => resp is Ok ==> after == before.insert(key@, val@),
        Command::Remove(key) => match resp {
            Ok(_) => before.contains_key(key@) && after == before.remove(key@),
            Err(m) => m@ == key_not_found_text() ==> !before.contains_key(key@) && after == before,
        },
    }
}

/// Carries out one command on the engine and gives the response to it:
/// what `get_response`, `set_response` or `remove_response` makes of the
/// engine's result.
///
/// Whatever the engine does, the response is one that the client takes for
/// the command; a failure carries one of the two messages, and `Key not
/// found` comes for a `Remove` only. The engine's error is handed on exactly
/// where the response is the server's own failure. Of an engine that states
/// what it serves, the response tells the truth.
pub fn exec_command<E: KvsEngine>(engine: &mut E, cmd: Command) -> (served: Served)
    ensures
        response_matches(cmd, served.resp),
        served.resp is Err ==> {
            ||| is_failure(served.resp, server_error_text())
            ||| cmd is Remove && is_failure(served.resp, key_not_found_text())
        },
        served.fault is Some <==> is_failure(served.resp, server_error_text()),
        old(engine).contents() is Some ==> final(engine).contents() is Some,
        old(engine).contents() matches Some(before) ==> response_tells(
            cmd,
            served.resp,
            before,
            final(engine).contents().unwrap(),
        ),
{
    proof {
        lemma_failure_texts_differ();
    }
    match cmd {
        Command::Get(key) => get_response(engine.get(key)),
        Command::SetValue(key, val) => set_response(engine.set(key, val)),
        Command::Remove(key) => remove_response(engine.remove(key)),
    }
}

} // verus!
