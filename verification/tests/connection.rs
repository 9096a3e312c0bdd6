use redis_lite::cli::Replicaof;
use redis_lite::connection::{Action, Connection, ConnectionState};
use redis_lite::server::ServerMetadata;
use redis_lite::storage::Store;

fn master_record() -> ServerMetadata {
    ServerMetadata::new("127.0.0.1", 6379, &None)
}

fn replica_record() -> ServerMetadata {
    let of = Replicaof { host: "127.0.0.1".to_string(), port: 6379 };
    ServerMetadata::new("127.0.0.1", 6380, &Some(of))
}

fn shown(actions: &[Action]) -> Vec<String> {
    actions
        .iter()
        .map(|action| match action {
            Action::Write(bytes) => format!("write {}", String::from_utf8_lossy(bytes)),
            Action::Publish(bytes) => format!("publish {}", String::from_utf8_lossy(bytes)),
            Action::Subscribe => "subscribe".to_string(),
            Action::Close => "close".to_string(),
        })
        .collect()
}

#[test]
fn new_connection_serves_and_holds_nothing() {
    let connection = Connection::new(false);
    assert_eq!(connection.state(), ConnectionState::Serving);
    assert_eq!(connection.pending_len(), 0);
}

#[test]
fn ping_exchange() {
    let mut connection = Connection::new(false);
    let mut store = Store::new();
    let actions = connection.receive(b"*1\r\n$4\r\nPING\r\n", &mut store, &master_record(), 0);
    assert_eq!(shown(&actions), vec!["write +PONG\r\n"]);
    assert_eq!(connection.state(), ConnectionState::Serving);
    assert_eq!(connection.pending_len(), 0);
}

#[test]
fn echo_exchange() {
    let mut connection = Connection::new(false);
    let mut store = Store::new();
    let actions =
        connection.receive(b"*2\r\n$4\r\nECHO\r\n$5\r\nhello\r\n", &mut store, &master_record(), 0);
    assert_eq!(shown(&actions), vec!["write +hello\r\n"]);
}

#[test]
fn set_then_get_exchange() {
    let mut connection = Connection::new(false);
    let mut store = Store::new();
    let meta = replica_record();
    let actions = connection.receive(
        b"*3\r\n$3\r\nSET\r\n$3\r\nfoo\r\n$3\r\nbar\r\n",
        &mut store,
        &meta,
        1_000,
    );
    assert_eq!(shown(&actions), vec!["write +OK\r\n"]);
    let actions = connection.receive(b"*2\r\n$3\r\nGET\r\n$3\r\nfoo\r\n", &mut store, &meta, 2_000);
    assert_eq!(shown(&actions), vec!["write $3\r\nbar\r\n"]);
}

#[test]
fn ttl_expiry_exchange() {
    let mut connection = Connection::new(false);
    let mut store = Store::new();
    let meta = replica_record();
    let actions = connection.receive(
        b"*5\r\n$3\r\nSET\r\n$1\r\nk\r\n$1\r\nv\r\n$2\r\nPX\r\n$3\r\n100\r\n",
        &mut store,
        &meta,
        10_000,
    );
    assert_eq!(shown(&actions), vec!["write +OK\r\n"]);
    let actions = connection.receive(b"*2\r\n$3\r\nGET\r\n$1\r\nk\r\n", &mut store, &meta, 10_200);
    assert_eq!(shown(&actions), vec!["write $-1\r\n"]);
}

#[test]
fn value_is_read_up_to_the_instant_of_expiry() {
    let mut connection = Connection::new(false);
    let mut store = Store::new();
    let meta = replica_record();
    let set = b"*5\r\n$3\r\nSET\r\n$1\r\nk\r\n$1\r\nv\r\n$2\r\nPX\r\n$3\r\n100\r\n";
    let get = b"*2\r\n$3\r\nGET\r\n$1\r\nk\r\n";
    connection.receive(set, &mut store, &meta, 10_000);
    assert_eq!(shown(&connection.receive(get, &mut store, &meta, 10_000)), vec!["write $1\r\nv\r\n"]);
    assert_eq!(shown(&connection.receive(get, &mut store, &meta, 10_100)), vec!["write $1\r\nv\r\n"]);
    assert_eq!(shown(&connection.receive(get, &mut store, &meta, 10_101)), vec!["write $-1\r\n"]);
    assert_eq!(shown(&connection.receive(get, &mut store, &meta, 10_050)), vec!["write $-1\r\n"]);
}

#[test]
fn info_replication_exchange_on_master() {
    let mut connection = Connection::new(false);
    let mut store = Store::new();
    let actions = connection.receive(
        b"*2\r\n$4\r\nINFO\r\n$11\r\nreplication\r\n",
        &mut store,
        &master_record(),
        0,
    );
    assert_eq!(
        shown(&actions),
        vec!["write $87\r\nmaster_replid:8371b4fb1155b71f4a04d3e1bc3e18c4a990aeeb master_repl_offset:0 role:master\r\n"]
    );
}

#[test]
fn psync_exchange_turns_the_connection_into_a_link() {
    let mut connection = Connection::new(false);
    let mut store = Store::new();
    let actions = connection.receive(
        b"*3\r\n$5\r\nPSYNC\r\n$1\r\n?\r\n$2\r\n-1\r\n*1\r\n$4\r\nPING\r\n",
        &mut store,
        &master_record(),
        0,
    );
    assert_eq!(actions.len(), 2);
    match &actions[0] {
        Action::Write(bytes) => {
            let head = b"+FULLRESYNC 8371b4fb1155b71f4a04d3e1bc3e18c4a990aeeb 0\r\n$88\r\nREDIS0011";
            assert_eq!(&bytes[..head.len()], &head[..]);
            assert_eq!(bytes.len(), 56 + 5 + 88);
            assert_eq!(&bytes[bytes.len() - 2..], &[0x5a, 0xa2]);
        }
        _ => panic!("expected a write"),
    }
    assert!(matches!(actions[1], Action::Subscribe));
    assert_eq!(connection.state(), ConnectionState::ReplicationLink);
    assert_eq!(connection.pending_len(), 0);
    let actions = connection.receive(b"*1\r\n$4\r\nPING\r\n", &mut store, &master_record(), 0);
    assert!(actions.is_empty());
    assert_eq!(connection.state(), ConnectionState::ReplicationLink);
}

#[test]
fn write_on_master_is_published_verbatim_after_the_reply() {
    let mut connection = Connection::new(false);
    let mut store = Store::new();
    let actions = connection.receive(
        b"*3\r\n$3\r\nsEt\r\n$3\r\nfoo\r\n$3\r\nbar\r\n",
        &mut store,
        &master_record(),
        0,
    );
    assert_eq!(
        shown(&actions),
        vec!["write +OK\r\n", "publish *3\r\n$3\r\nsEt\r\n$3\r\nfoo\r\n$3\r\nbar\r\n"]
    );
}

#[test]
fn writes_are_published_in_the_order_received() {
    let mut connection = Connection::new(false);
    let mut store = Store::new();
    let mut bytes = Vec::new();
    bytes.extend_from_slice(b"*3\r\n$3\r\nSET\r\n$1\r\na\r\n$1\r\n1\r\n");
    bytes.extend_from_slice(b"*2\r\n$3\r\nGET\r\n$1\r\na\r\n");
    bytes.extend_from_slice(b"*3\r\n$3\r\nSET\r\n$1\r\nb\r\n$1\r\n2\r\n");
    bytes.extend_from_slice(b"*3\r\n$3\r\nSET\r\n$1\r\na\r\n$1\r\n3\r\n");
    let actions = connection.receive(&bytes, &mut store, &master_record(), 0);
    assert_eq!(
        shown(&actions),
        vec![
            "write +OK\r\n",
            "publish *3\r\n$3\r\nSET\r\n$1\r\na\r\n$1\r\n1\r\n",
            "write $1\r\n1\r\n",
            "write +OK\r\n",
            "publish *3\r\n$3\r\nSET\r\n$1\r\nb\r\n$1\r\n2\r\n",
            "write +OK\r\n",
            "publish *3\r\n$3\r\nSET\r\n$1\r\na\r\n$1\r\n3\r\n",
        ]
    );
    assert_eq!(store.get("a", 0).unwrap().value(), "3");
}

#[test]
fn refused_write_is_not_published() {
    let mut connection = Connection::new(false);
    let mut store = Store::new();
    let actions = connection.receive(
        b"*5\r\n$3\r\nSET\r\n$1\r\nk\r\n$1\r\nv\r\n$2\r\nPX\r\n$3\r\nabc\r\n",
        &mut store,
        &master_record(),
        0,
    );
    assert_eq!(shown(&actions), vec!["write +Invalid arguments: Invalid duration provided 'abc'\r\n"]);
    assert_eq!(store.len(), 0);
}

#[test]
fn request_split_over_several_reads() {
    let mut connection = Connection::new(false);
    let mut store = Store::new();
    let meta = master_record();
    let frame = b"*2\r\n$4\r\nECHO\r\n$5\r\nhello\r\n";
    for i in 0..frame.len() - 1 {
        let actions = connection.receive(&frame[i..i + 1], &mut store, &meta, 0);
        assert!(actions.is_empty(), "after {} bytes", i + 1);
        assert_eq!(connection.pending_len(), i + 1);
        assert_eq!(connection.state(), ConnectionState::Serving);
    }
    let actions = connection.receive(&frame[frame.len() - 1..], &mut store, &meta, 0);
    assert_eq!(shown(&actions), vec!["write +hello\r\n"]);
    assert_eq!(connection.pending_len(), 0);
}

#[test]
fn bytes_after_the_last_complete_request_stay_pending() {
    let mut connection = Connection::new(false);
    let mut store = Store::new();
    let meta = master_record();
    let actions =
        connection.receive(b"*1\r\n$4\r\nPING\r\n*2\r\n$4\r\nEC", &mut store, &meta, 0);
    assert_eq!(shown(&actions), vec!["write +PONG\r\n"]);
    assert_eq!(connection.pending_len(), 10);
    let actions = connection.receive(b"HO\r\n$2\r\nhi\r\n", &mut store, &meta, 0);
    assert_eq!(shown(&actions), vec!["write +hi\r\n"]);
    assert_eq!(connection.pending_len(), 0);
}

#[test]
fn unknown_command_keeps_the_connection_open() {
    let mut connection = Connection::new(false);
    let mut store = Store::new();
    let meta = master_record();
    let actions = connection.receive(
        b"*1\r\n$3\r\nFOO\r\n*1\r\n$4\r\nPING\r\n",
        &mut store,
        &meta,
        0,
    );
    assert_eq!(shown(&actions), vec!["write +Command not found: FOO\r\n", "write +PONG\r\n"]);
    assert_eq!(connection.state(), ConnectionState::Serving);
}

#[test]
fn malformed_frame_closes_the_connection() {
    let mut connection = Connection::new(false);
    let mut store = Store::new();
    let meta = master_record();
    let actions =
        connection.receive(b"*1\r\n$4\r\nPING\r\nGET foo\r\n", &mut store, &meta, 0);
    assert_eq!(shown(&actions), vec!["write +PONG\r\n", "close"]);
    assert_eq!(connection.state(), ConnectionState::Closed);
    assert_eq!(connection.pending_len(), 0);
    let actions = connection.receive(b"*1\r\n$4\r\nPING\r\n", &mut store, &meta, 0);
    assert!(actions.is_empty());
    assert_eq!(connection.state(), ConnectionState::Closed);
}

#[test]
fn read_of_no_bytes_closes_the_connection() {
    let mut connection = Connection::new(false);
    let mut store = Store::new();
    let meta = master_record();
    connection.receive(b"*1\r\n$4", &mut store, &meta, 0);
    let actions = connection.receive(b"", &mut store, &meta, 0);
    assert_eq!(shown(&actions), vec!["close"]);
    assert_eq!(connection.state(), ConnectionState::Closed);
    assert_eq!(connection.pending_len(), 0);
}

#[test]
fn silent_connection_applies_commands_without_replies() {
    let mut connection = Connection::new(true);
    let mut store = Store::new();
    let meta = replica_record();
    let actions = connection.receive(
        b"*3\r\n$3\r\nSET\r\n$3\r\nfoo\r\n$3\r\nbar\r\n*2\r\n$3\r\nGET\r\n$3\r\nfoo\r\n*1\r\n$3\r\nFOO\r\n",
        &mut store,
        &meta,
        5,
    );
    assert!(actions.is_empty());
    assert_eq!(store.get("foo", 5).unwrap().value(), "bar");
    assert_eq!(connection.state(), ConnectionState::Serving);
}

#[test]
fn silent_connection_still_closes_on_a_malformed_frame() {
    let mut connection = Connection::new(true);
    let mut store = Store::new();
    let actions = connection.receive(b"nonsense", &mut store, &replica_record(), 0);
    assert_eq!(shown(&actions), vec!["close"]);
}

#[test]
fn reading_in_pieces_does_what_reading_at_once_does() {
    let mut stream = Vec::new();
    stream.extend_from_slice(b"*3\r\n$3\r\nSET\r\n$1\r\na\r\n$1\r\n1\r\n");
    stream.extend_from_slice(b"*2\r\n$3\r\nGET\r\n$1\r\na\r\n");
    stream.extend_from_slice(b"*1\r\n$3\r\nFOO\r\n");
    stream.extend_from_slice(b"*2\r\n$4\r\nECHO\r\n$2\r\nhi\r\n");
    let meta = master_record();
    let mut whole_store = Store::new();
    let whole = shown(&Connection::new(false).receive(&stream, &mut whole_store, &meta, 7));
    assert_eq!(whole.len(), 5);
    for cut in 1..stream.len() {
        let mut store = Store::new();
        let mut connection = Connection::new(false);
        let mut got = shown(&connection.receive(&stream[..cut], &mut store, &meta, 7));
        got.extend(shown(&connection.receive(&stream[cut..], &mut store, &meta, 7)));
        assert_eq!(got, whole, "cut at {}", cut);
        assert_eq!(connection.pending_len(), 0);
        assert_eq!(store.get("a", 7).unwrap().value(), "1");
    }
}
