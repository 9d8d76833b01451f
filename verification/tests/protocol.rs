use kvs::client::{check_response, check_response_valid, display_response, Shown};
use kvs::server::{exec_command, get_response, remove_response, set_response, Served};
use kvs::{Command, CommandResponse, KvStore, KvStoreError, KvsEngine, Response, Result};

fn get(key: &str) -> Command {
    Command::Get(key.to_string())
}

fn set(key: &str, value: &str) -> Command {
    Command::SetValue(key.to_string(), value.to_string())
}

fn remove(key: &str) -> Command {
    Command::Remove(key.to_string())
}

fn found(resp: Response) -> Option<String> {
    match resp {
        Ok(CommandResponse::GetResponse(v)) => v,
        other => panic!("unexpected response {:?}", other),
    }
}

/// An engine that fails at everything, as one whose disk is gone.
struct Broken;

impl KvsEngine for Broken {
    fn get_name(&self) -> String {
        "broken".to_string()
    }

    fn set(&mut self, _key: String, _value: String) -> Result<()> {
        Err(KvStoreError::OtherError("disk".to_string()))
    }

    fn get(&mut self, _key: String) -> Result<Option<String>> {
        Err(KvStoreError::OtherError("disk".to_string()))
    }

    fn remove(&mut self, _key: String) -> Result<()> {
        Err(KvStoreError::OtherError("disk".to_string()))
    }
}

#[test]
fn server_end_to_end_on_memory_engine() {
    let mut engine = KvStore::new();
    let served = exec_command(&mut engine, set("a", "1"));
    assert!(matches!(served, Served { resp: Ok(CommandResponse::SetResponse), fault: None }));
    let served = exec_command(&mut engine, set("b", "2"));
    assert!(matches!(served.resp, Ok(CommandResponse::SetResponse)));
    assert_eq!(found(exec_command(&mut engine, get("a")).resp), Some("1".to_string()));
    let served = exec_command(&mut engine, remove("a"));
    assert!(matches!(served, Served { resp: Ok(CommandResponse::RemoveResponse), fault: None }));
    assert_eq!(found(exec_command(&mut engine, get("a")).resp), None);
    assert_eq!(found(exec_command(&mut engine, get("b")).resp), Some("2".to_string()));
}

#[test]
fn server_tells_missing_key_on_remove() {
    let mut engine = KvStore::new();
    let served = exec_command(&mut engine, remove("a"));
    assert_eq!(served.resp.unwrap_err(), "Key not found");
    assert!(served.fault.is_none());
    assert_eq!(found(exec_command(&mut engine, get("a")).resp), None);
}

#[test]
fn server_hides_engine_failures_and_hands_them_on() {
    let mut engine = Broken;
    for cmd in [get("a"), set("a", "1"), remove("a")] {
        let served = exec_command(&mut engine, cmd);
        assert_eq!(served.resp.unwrap_err(), "Server internal error");
        match served.fault {
            Some(KvStoreError::OtherError(m)) => assert_eq!(m, "disk"),
            other => panic!("unexpected {:?}", other),
        }
    }
}

#[test]
fn responses_from_engine_results() {
    let served = get_response(Ok(None));
    assert!(matches!(served, Served { resp: Ok(CommandResponse::GetResponse(None)), fault: None }));
    assert_eq!(found(get_response(Ok(Some("v".to_string()))).resp), Some("v".to_string()));
    let served = get_response(Err(KvStoreError::KeyNotFound));
    assert_eq!(served.resp.unwrap_err(), "Server internal error");
    assert!(matches!(served.fault, Some(KvStoreError::KeyNotFound)));
    let served = set_response(Ok(()));
    assert!(matches!(served, Served { resp: Ok(CommandResponse::SetResponse), fault: None }));
    let served = set_response(Err(KvStoreError::KeyNotFound));
    assert_eq!(served.resp.unwrap_err(), "Server internal error");
    assert!(matches!(served.fault, Some(KvStoreError::KeyNotFound)));
    let served = remove_response(Ok(()));
    assert!(matches!(served, Served { resp: Ok(CommandResponse::RemoveResponse), fault: None }));
    let served = remove_response(Err(KvStoreError::KeyNotFound));
    assert_eq!(served.resp.unwrap_err(), "Key not found");
    assert!(served.fault.is_none());
    let served = remove_response(Err(KvStoreError::OtherError("x".to_string())));
    assert_eq!(served.resp.unwrap_err(), "Server internal error");
    match served.fault {
        Some(KvStoreError::OtherError(m)) => assert_eq!(m, "x"),
        other => panic!("unexpected {:?}", other),
    }
}

#[test]
fn engines_tell_their_names() {
    assert_eq!(KvStore::new().get_name(), "memory");
    assert_eq!(Broken.get_name(), "broken");
}

#[test]
fn client_takes_matching_responses() {
    for cmd in [get("k"), set("k", "v"), remove("k")] {
        assert!(check_response_valid(&cmd, &Err("any".to_string())));
        assert!(check_response(cmd.clone(), Err("any".to_string())).is_ok());
    }
    assert!(check_response_valid(&get("k"), &Ok(CommandResponse::GetResponse(None))));
    let found = Ok(CommandResponse::GetResponse(Some("v".to_string())));
    assert!(check_response_valid(&get("k"), &found));
    assert!(check_response_valid(&set("k", "v"), &Ok(CommandResponse::SetResponse)));
    assert!(check_response_valid(&remove("k"), &Ok(CommandResponse::RemoveResponse)));
    assert!(check_response(get("k"), Ok(CommandResponse::GetResponse(None))).is_ok());
    assert!(check_response(set("k", "v"), Ok(CommandResponse::SetResponse)).is_ok());
    assert!(check_response(remove("k"), Ok(CommandResponse::RemoveResponse)).is_ok());
}

#[test]
fn client_refuses_mismatched_responses() {
    assert!(!check_response_valid(&get("k"), &Ok(CommandResponse::SetResponse)));
    assert!(!check_response_valid(&get("k"), &Ok(CommandResponse::RemoveResponse)));
    assert!(!check_response_valid(&set("k", "v"), &Ok(CommandResponse::GetResponse(None))));
    assert!(!check_response_valid(&set("k", "v"), &Ok(CommandResponse::RemoveResponse)));
    assert!(!check_response_valid(&remove("k"), &Ok(CommandResponse::SetResponse)));
    assert!(!check_response_valid(&remove("k"), &Ok(CommandResponse::GetResponse(None))));
    match check_response(get("k"), Ok(CommandResponse::SetResponse)) {
        Err(KvStoreError::OtherError(m)) => assert_eq!(m, "Response mismatches the command"),
        other => panic!("unexpected {:?}", other),
    }
}

#[test]
fn client_takes_every_server_response() {
    let mut engine = KvStore::new();
    for cmd in [get("a"), remove("a"), set("a", "1"), get("a"), remove("a"), get("a")] {
        let served = exec_command(&mut engine, cmd.clone());
        assert!(check_response(cmd, served.resp).is_ok());
    }
}

#[test]
fn client_shows_responses() {
    match display_response(Ok(CommandResponse::GetResponse(Some("value".to_string())))) {
        Shown::Print(text) => assert_eq!(text, "value"),
        other => panic!("unexpected {:?}", other),
    }
    match display_response(Ok(CommandResponse::GetResponse(None))) {
        Shown::Print(text) => assert_eq!(text, "Key not found"),
        other => panic!("unexpected {:?}", other),
    }
    assert!(matches!(display_response(Ok(CommandResponse::SetResponse)), Shown::Silent));
    assert!(matches!(display_response(Ok(CommandResponse::RemoveResponse)), Shown::Silent));
    match display_response(Err("Key not found".to_string())) {
        Shown::Fail(text) => assert_eq!(text, "Key not found"),
        other => panic!("unexpected {:?}", other),
    }
}
