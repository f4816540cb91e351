use kv_store::commands::{Argument, AvailableCommand, CommandError};
use kv_store::server::Server;
use kv_store::storage::Storage;
use kv_store::time_manager::TimeManager;
use kv_store::value::Value;

fn store_started_at(start_time: u64) -> Storage {
    Storage::new(TimeManager { start_time })
}

fn ok(text: &str) -> Result<String, String> {
    Ok(text.to_string())
}

fn err(text: &str) -> Result<String, String> {
    Err(text.to_string())
}

#[test]
fn set_then_get_by_line() {
    let mut s = Storage::new(TimeManager::new());
    assert_eq!(s.process_input("SET a hello"), ok("Ok"));
    assert_eq!(s.process_input("GET a"), ok("hello"));
}

#[test]
fn get_of_a_missing_key_by_line() {
    let mut s = Storage::new(TimeManager::new());
    assert_eq!(s.process_input("GET missing"), ok("(null)"));
}

#[test]
fn zero_ttl_expires_by_line() {
    let mut s = store_started_at(500);
    assert_eq!(s.process_input_at("SET b world 0", 510), ok("Ok"));
    assert_eq!(s.process_input_at("GET b", 510), ok("world"));
    assert_eq!(s.process_input_at("GET b", 511), ok("(null)"));
}

#[test]
fn zero_ttl_expires_by_the_system_clock() {
    let mut s = Storage::new(TimeManager::new());
    assert_eq!(s.process_input("SET b world 0"), ok("Ok"));
    let set_time = s.now();
    while s.now() <= set_time + 1 {}
    assert_eq!(s.process_input("GET b"), ok("(null)"));
}

#[test]
fn delete_then_get_by_line() {
    let mut s = Storage::new(TimeManager::new());
    assert_eq!(s.process_input("SET a hello"), ok("Ok"));
    assert_eq!(s.process_input("DEL a"), ok("Ok"));
    assert_eq!(s.process_input("GET a"), ok("(null)"));
}

#[test]
fn ping_by_line() {
    let mut s = Storage::new(TimeManager::new());
    assert_eq!(s.process_input("PING"), ok("PONG"));
}

#[test]
fn unknown_command_by_line() {
    let mut s = Storage::new(TimeManager::new());
    assert_eq!(s.process_input("BOGUS x"), err("Error: Unknown command - BOGUS"));
}

#[test]
fn empty_line_names_no_command() {
    let mut s = store_started_at(0);
    assert_eq!(s.process_input_at("", 0), err("Error: Unknown command - "));
    assert_eq!(s.process_input_at("  \r\n", 0), err("Error: Unknown command - "));
    assert_eq!(
        s.process_command_at("", 0),
        Err(CommandError::UnknownCommand(String::new()))
    );
}

#[test]
fn command_names_are_matched_with_case() {
    let mut s = store_started_at(0);
    assert_eq!(s.process_input_at("get a", 0), err("Error: Unknown command - get"));
    assert_eq!(s.process_input_at("Ping", 0), err("Error: Unknown command - Ping"));
    assert_eq!(
        s.process_command_at("stats", 0),
        Err(CommandError::UnknownCommand("stats".to_string()))
    );
}

#[test]
fn missing_arguments_are_named() {
    let mut s = store_started_at(0);
    assert_eq!(s.process_input_at("GET", 0), err("Error: GET: Key is not specified"));
    assert_eq!(s.process_input_at("DEL", 0), err("Error: DEL: Key is not specified"));
    assert_eq!(s.process_input_at("SET", 0), err("Error: SET: Key is not specified"));
    assert_eq!(s.process_input_at("SET k", 0), err("Error: SET: Value is not specified"));
    assert_eq!(
        s.process_command_at("SET k", 0),
        Err(CommandError::MissingArgument(AvailableCommand::SET, Argument::Value))
    );
    assert_eq!(
        s.process_command_at("GET ", 0),
        Err(CommandError::MissingArgument(AvailableCommand::GET, Argument::Key))
    );
    assert_eq!(
        s.process_command_at("DEL\n", 0),
        Err(CommandError::MissingArgument(AvailableCommand::DEL, Argument::Key))
    );
}

#[test]
fn ttl_that_is_no_number_is_refused_and_nothing_is_set() {
    let mut s = store_started_at(0);
    assert_eq!(s.process_input_at("SET k v soon", 0), err("Error: SET: TTL is not a number"));
    assert_eq!(s.process_input_at("SET k v 1.5", 0), err("Error: SET: TTL is not a number"));
    assert_eq!(
        s.process_input_at("SET k v 99999999999", 0),
        err("Error: SET: TTL is not a number")
    );
    assert_eq!(
        s.process_command_at("SET k v x", 0),
        Err(CommandError::InvalidArgument(AvailableCommand::SET, Argument::Ttl))
    );
    assert_eq!(s.process_input_at("GET k", 0), ok("(null)"));
    assert_eq!(s.process_input_at("STATS", 0), ok(""));
}

#[test]
fn set_with_and_without_ttl() {
    let mut s = store_started_at(100);
    assert_eq!(s.process_input_at("SET a 1", 105), ok("Ok"));
    assert_eq!(s.process_input_at("SET b 2 10", 105), ok("Ok"));
    assert_eq!(s.process_input_at("SET c 3 -5", 105), ok("Ok"));
    assert_eq!(s.process_input_at("SET d 4 +7", 105), ok("Ok"));
    assert_eq!(
        s.process_input_at("STATS", 105),
        ok("key=a,value=1,ttl=-1|key=b,value=2,ttl=15|key=c,value=3,ttl=-1|key=d,value=4,ttl=12")
    );
    assert_eq!(
        s.process_command_at("GET b", 105),
        Ok(Value { data: "2".to_string(), ttl: 15 })
    );
}

#[test]
fn words_beyond_the_arguments_are_ignored() {
    let mut s = store_started_at(0);
    assert_eq!(s.process_input_at("SET a 1 -1 and more", 0), ok("Ok"));
    assert_eq!(s.process_input_at("GET a b c", 0), ok("1"));
    assert_eq!(s.process_input_at("PING me", 0), ok("PONG"));
    assert_eq!(s.process_input_at("STATS now please", 0), ok("key=a,value=1,ttl=-1"));
    assert_eq!(s.process_input_at("DEL a b", 0), ok("Ok"));
    assert_eq!(s.process_input_at("GET a", 0), ok("(null)"));
}

#[test]
fn a_value_is_one_word() {
    let mut s = store_started_at(0);
    assert_eq!(
        s.process_input_at("SET greeting hello world", 0),
        err("Error: SET: TTL is not a number")
    );
    assert_eq!(s.process_input_at("GET greeting", 0), ok("(null)"));
}

#[test]
fn lines_may_end_in_a_line_break() {
    let mut s = store_started_at(0);
    assert_eq!(s.process_input_at("SET a hello\r\n", 0), ok("Ok"));
    assert_eq!(s.process_input_at("  GET   a  \n", 0), ok("hello"));
    assert_eq!(s.process_input_at("PING\r\n", 0), ok("PONG"));
}

#[test]
fn delete_is_acknowledged_whether_or_not_the_key_is_there() {
    let mut s = store_started_at(0);
    assert_eq!(s.process_input_at("DEL a", 0), ok("Ok"));
    assert_eq!(s.process_input_at("SET a 1", 0), ok("Ok"));
    assert_eq!(s.process_input_at("DEL a", 0), ok("Ok"));
    assert_eq!(s.process_input_at("DEL a", 0), ok("Ok"));
    assert_eq!(s.process_input_at("STATS", 0), ok(""));
}

#[test]
fn stats_through_the_protocol_passes_over_the_expired() {
    let mut s = store_started_at(0);
    assert_eq!(s.process_input_at("SET a 1 1", 0), ok("Ok"));
    assert_eq!(s.process_input_at("SET b 2", 0), ok("Ok"));
    assert_eq!(s.process_input_at("STATS", 1), ok("key=a,value=1,ttl=1|key=b,value=2,ttl=-1"));
    assert_eq!(s.process_input_at("STATS", 2), ok("key=b,value=2,ttl=-1"));
    assert_eq!(s.process_input_at("STATS", 1), ok("key=a,value=1,ttl=1|key=b,value=2,ttl=-1"));
    assert_eq!(s.process_input_at("GET a", 2), ok("(null)"));
    assert_eq!(s.process_input_at("STATS", 1), ok("key=b,value=2,ttl=-1"));
}

#[test]
fn system_clock_commands() {
    let mut s = Storage::new(TimeManager::new());
    assert_eq!(
        s.process_command("SET a hello"),
        Ok(Value { data: "Ok".to_string(), ttl: -1 })
    );
    assert_eq!(
        s.process_command("GET a"),
        Ok(Value { data: "hello".to_string(), ttl: -1 })
    );
    assert_eq!(s.process_input("STATS"), ok("key=a,value=hello,ttl=-1"));
    assert_eq!(
        s.process_command("NOPE"),
        Err(CommandError::UnknownCommand("NOPE".to_string()))
    );
}

#[test]
fn server_ends_every_line() {
    let mut server = Server::new(store_started_at(0));
    assert_eq!(server.reply_at("SET a hello", 0), "Ok\r\n");
    assert_eq!(server.reply_at("GET a", 0), "hello\r\n");
    assert_eq!(server.reply_at("GET b", 0), "(null)\r\n");
    assert_eq!(server.reply_at("STATS", 0), "key=a,value=hello,ttl=-1\r\n");
    assert_eq!(server.reply_at("BOGUS x", 0), "Error: Unknown command - BOGUS\r\n");
    assert_eq!(server.reply_at("GET", 0), "Error: GET: Key is not specified\r\n");
}

#[test]
fn server_by_the_system_clock() {
    let mut server = Server::new(Storage::new(TimeManager::new()));
    assert_eq!(server.reply("PING"), "PONG\r\n");
    assert_eq!(server.reply("SET k v"), "Ok\r\n");
    assert_eq!(server.reply("GET k"), "v\r\n");
    assert_eq!(server.reply("DEL k"), "Ok\r\n");
    assert_eq!(server.reply("GET k"), "(null)\r\n");
    assert_eq!(server.reply(""), "Error: Unknown command - \r\n");
}

#[test]
fn lines_that_only_read_are_answered_without_exclusive_hold() {
    let mut s = store_started_at(0);
    s.process_input_at("SET a 1 5", 0).unwrap();
    assert_eq!(s.process_input_shared_at("PING", 0), Some(ok("PONG")));
    assert_eq!(s.process_input_shared_at("STATS", 0), Some(ok("key=a,value=1,ttl=5")));
    assert_eq!(s.process_input_shared_at("GET a", 5), Some(ok("1")));
    assert_eq!(s.process_input_shared_at("GET b", 5), Some(ok("(null)")));
    assert_eq!(
        s.process_input_shared_at("GET", 5),
        Some(err("Error: GET: Key is not specified"))
    );
    assert_eq!(
        s.process_input_shared_at("BOGUS x", 5),
        Some(err("Error: Unknown command - BOGUS"))
    );
    assert_eq!(s.process_input_shared_at("", 5), Some(err("Error: Unknown command - ")));
    assert_eq!(
        s.process_command_shared_at("GET a", 5),
        Some(Ok(Value { data: "1".to_string(), ttl: 5 }))
    );
}

#[test]
fn lines_that_may_change_the_store_need_exclusive_hold() {
    let mut s = store_started_at(0);
    s.process_input_at("SET a 1 5", 0).unwrap();
    assert_eq!(s.process_input_shared_at("SET b 2", 0), None);
    assert_eq!(s.process_input_shared_at("SET", 0), None);
    assert_eq!(s.process_input_shared_at("DEL a", 0), None);
    assert_eq!(s.process_input_shared_at("DEL", 0), None);
    assert_eq!(s.process_input_shared_at("GET a", 6), None);
    assert_eq!(s.process_command_shared_at("GET a", 6), None);
    // Nothing was changed by asking.
    assert_eq!(s.process_input_at("STATS", 0), ok("key=a,value=1,ttl=5"));
    assert_eq!(s.process_input_at("GET a", 6), ok("(null)"));
    assert_eq!(s.process_input_shared_at("GET a", 6), Some(ok("(null)")));
}

#[test]
fn shared_lines_by_the_system_clock() {
    let mut s = Storage::new(TimeManager::new());
    assert_eq!(s.process_input_shared("PING"), Some(ok("PONG")));
    assert_eq!(s.process_input_shared("SET a 1"), None);
    assert_eq!(s.process_input("SET a 1"), ok("Ok"));
    assert_eq!(s.process_input_shared("GET a"), Some(ok("1")));
    assert_eq!(s.process_input_shared("STATS"), Some(ok("key=a,value=1,ttl=-1")));
}

#[test]
fn server_answers_shared_lines() {
    let mut server = Server::new(store_started_at(0));
    assert_eq!(server.reply_shared_at("SET a hello 3", 0), None);
    assert_eq!(server.reply_at("SET a hello 3", 0), "Ok\r\n");
    assert_eq!(server.reply_shared_at("GET a", 3), Some("hello\r\n".to_string()));
    assert_eq!(server.reply_shared_at("GET a", 4), None);
    assert_eq!(server.reply_at("GET a", 4), "(null)\r\n");
    assert_eq!(server.reply_shared_at("GET a", 4), Some("(null)\r\n".to_string()));
    assert_eq!(server.reply_shared_at("nope", 4), Some("Error: Unknown command - nope\r\n".to_string()));
    assert_eq!(server.reply_shared("PING"), Some("PONG\r\n".to_string()));
    assert_eq!(server.reply_shared("DEL a"), None);
}
