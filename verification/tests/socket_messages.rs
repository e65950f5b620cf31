//! Round trips and malformed inputs of the socket multiplexer wire format.

use tap_cmio::unix_tcp_socket::{
    SocketMessage, MSG_TYPE_TCP_CONNECT, MSG_TYPE_TCP_RECEIVE, MSG_TYPE_TCP_SEND,
    MSG_TYPE_UNIX_CONNECT, MSG_TYPE_UNIX_SEND,
};

#[test]
fn test_unix_connect_message() {
    let message = SocketMessage::new(
        MSG_TYPE_UNIX_CONNECT,
        0x12345678,
        b"/tmp/test.sock".to_vec(),
        [0, 0, 0, 0], // IP not used for Unix connects
        0,            // Port not used for Unix connects
        vec![],       // No data for connect messages
    );

    let serialized = message.serialize();
    let deserialized = SocketMessage::deserialize(&serialized).unwrap();

    assert_eq!(deserialized.msg_type, MSG_TYPE_UNIX_CONNECT);
    assert_eq!(deserialized.socket_id, 0x12345678);
    assert_eq!(deserialized.path, b"/tmp/test.sock".to_vec());
    assert_eq!(deserialized.ip_addr, [0, 0, 0, 0]);
    assert_eq!(deserialized.port, 0);
    assert_eq!(deserialized.data, vec![]);
}

#[test]
fn test_tcp_connect_message() {
    let message = SocketMessage::new(
        MSG_TYPE_TCP_CONNECT,
        0x87654321,
        vec![], // Path not used for TCP connects
        [10, 0, 0, 1],
        443,
        vec![], // No data for connect messages
    );

    let serialized = message.serialize();
    let deserialized = SocketMessage::deserialize(&serialized).unwrap();

    assert_eq!(deserialized.msg_type, MSG_TYPE_TCP_CONNECT);
    assert_eq!(deserialized.socket_id, 0x87654321);
    assert_eq!(deserialized.path, vec![]);
    assert_eq!(deserialized.ip_addr, [10, 0, 0, 1]);
    assert_eq!(deserialized.port, 443);
    assert_eq!(deserialized.data, vec![]);
}

#[test]
fn test_unix_send_message() {
    let message = SocketMessage::new(
        MSG_TYPE_UNIX_SEND,
        0xdeadbeef,
        vec![],       // Path not included in non-connect messages
        [0, 0, 0, 0], // IP not included in non-connect messages
        0,            // Port not included in non-connect messages
        vec![9, 10, 11, 12],
    );

    let serialized = message.serialize();
    let deserialized = SocketMessage::deserialize(&serialized).unwrap();

    assert_eq!(deserialized.msg_type, MSG_TYPE_UNIX_SEND);
    assert_eq!(deserialized.socket_id, 0xdeadbeef);
    assert_eq!(deserialized.path, vec![]);
    assert_eq!(deserialized.ip_addr, [0, 0, 0, 0]);
    assert_eq!(deserialized.port, 0);
    assert_eq!(deserialized.data, vec![9, 10, 11, 12]);
}

#[test]
fn test_tcp_receive_message() {
    let message = SocketMessage::new(
        MSG_TYPE_TCP_RECEIVE,
        0xcafebabe,
        vec![],
        [0, 0, 0, 0],
        0,
        vec![13, 14, 15, 16],
    );

    let serialized = message.serialize();
    let deserialized = SocketMessage::deserialize(&serialized).unwrap();

    assert_eq!(deserialized.msg_type, MSG_TYPE_TCP_RECEIVE);
    assert_eq!(deserialized.socket_id, 0xcafebabe);
    assert_eq!(deserialized.path, vec![]);
    assert_eq!(deserialized.ip_addr, [0, 0, 0, 0]);
    assert_eq!(deserialized.port, 0);
    assert_eq!(deserialized.data, vec![13, 14, 15, 16]);
}

#[test]
fn test_empty_data() {
    let message = SocketMessage::new(
        MSG_TYPE_UNIX_SEND, // A send: connects carry no data at all
        0x12345678,
        vec![],
        [0, 0, 0, 0],
        0,
        vec![], // Empty data for non-connect message
    );

    let serialized = message.serialize();
    let deserialized = SocketMessage::deserialize(&serialized).unwrap();

    assert_eq!(deserialized.data, vec![]);
}

#[test]
fn test_large_data() {
    let large_data = vec![0u8; 1024]; // 1KB of data
    let message = SocketMessage::new(
        MSG_TYPE_TCP_SEND,
        0x12345678,
        vec![],
        [0, 0, 0, 0],
        0,
        large_data.clone(),
    );

    let serialized = message.serialize();
    let deserialized = SocketMessage::deserialize(&serialized).unwrap();

    assert_eq!(deserialized.data, large_data);
}

#[test]
fn test_invalid_message() {
    // Test with insufficient data for basic message
    let invalid_data = vec![0x01, 0x12, 0x34, 0x56, 0x78]; // Only 5 bytes
    assert!(SocketMessage::deserialize(&invalid_data).is_err());

    // Test with insufficient data for Unix connect
    let invalid_unix_connect = vec![
        MSG_TYPE_UNIX_CONNECT,
        0x12,
        0x34,
        0x56,
        0x78,
        5, // path length
           // Missing path data
    ];
    assert!(SocketMessage::deserialize(&invalid_unix_connect).is_err());

    // Test with insufficient data for TCP connect
    let invalid_tcp_connect = vec![
        MSG_TYPE_TCP_CONNECT,
        0x12,
        0x34,
        0x56,
        0x78,
        // Missing IP and port
    ];
    assert!(SocketMessage::deserialize(&invalid_tcp_connect).is_err());

    // Test with invalid message type
    let message = SocketMessage::new(
        0xFF, // Invalid message type
        0x12345678,
        vec![],
        [0, 0, 0, 0],
        0,
        vec![1, 2, 3],
    );

    let serialized = message.serialize();
    let deserialized = SocketMessage::deserialize(&serialized).unwrap();
    assert_eq!(deserialized.msg_type, 0xFF);
}
