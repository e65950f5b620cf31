//! The multiplexer's request dispatch: connect, send, receive and close
//! driven through `begin_request` and `finish_request`.

use tap_cmio::cmio::{Cmio, CmioBuffer, CmioError, CmioSetup};
use tap_cmio::unix_tcp_socket::{
    SocketAction, SocketManager, SocketMessage, SocketOutcome, MSG_TYPE_TCP_CLOSE,
};

fn manager() -> SocketManager {
    let setup = CmioSetup {
        tx: CmioBuffer { data: 0, length: 4096 },
        rx: CmioBuffer { data: 0, length: 4096 },
    };
    let cmio = Cmio::new(&setup).unwrap();
    SocketManager::new(cmio, 4096)
}

#[test]
fn unix_connect_send_close() {
    // Connect id 1 to /tmp/x.sock, send three bytes, close: three status-0
    // responses, each of type|id|data_len=1|00.
    let mut mgr = manager();
    let mut responses: Vec<u8> = Vec::new();

    let mut req1 = vec![0x01, 0x00, 0x00, 0x00, 0x01, 0x0B];
    req1.extend_from_slice(b"/tmp/x.sock");
    let (msg1, used1) = SocketMessage::deserialize_with_len(&req1).unwrap();
    assert_eq!(used1, req1.len());
    assert!(matches!(mgr.begin_request(&msg1).unwrap(), SocketAction::ConnectUnix));
    responses.extend_from_slice(&mgr.finish_request(&msg1, SocketOutcome::Connected));

    let req2 = vec![0x02, 0x00, 0x00, 0x00, 0x01, 0x00, 0x00, 0x00, 0x03, 0x48, 0x49, 0x21];
    let (msg2, used2) = SocketMessage::deserialize_with_len(&req2).unwrap();
    assert_eq!(used2, req2.len());
    assert_eq!(msg2.data, vec![0x48, 0x49, 0x21]);
    assert!(matches!(mgr.begin_request(&msg2).unwrap(), SocketAction::SendUnix));
    responses.extend_from_slice(&mgr.finish_request(&msg2, SocketOutcome::Sent));

    let req3 = vec![0x04, 0x00, 0x00, 0x00, 0x01, 0x00, 0x00, 0x00, 0x00];
    let (msg3, _) = SocketMessage::deserialize_with_len(&req3).unwrap();
    match mgr.begin_request(&msg3).unwrap() {
        SocketAction::CloseUnix(resp) => responses.extend_from_slice(&resp),
        _ => panic!("close must be settled by the tables alone"),
    }

    let expected = vec![
        0x01, 0x00, 0x00, 0x00, 0x01, 0x00, 0x00, 0x00, 0x01, 0x00, // connect ok
        0x02, 0x00, 0x00, 0x00, 0x01, 0x00, 0x00, 0x00, 0x01, 0x00, // send ok
        0x04, 0x00, 0x00, 0x00, 0x01, 0x00, 0x00, 0x00, 0x01, 0x00, // close ok
    ];
    assert_eq!(responses, expected);
}

#[test]
fn close_unknown_id_alters_nothing() {
    // A close on an id never connected answers status 1; the tables are
    // untouched: an id connected before still accepts a send afterwards.
    let mut mgr = manager();

    let connect = SocketMessage::new(0x01, 1, b"/tmp/a.sock".to_vec(), [0, 0, 0, 0], 0, vec![]);
    assert!(matches!(mgr.begin_request(&connect).unwrap(), SocketAction::ConnectUnix));
    mgr.finish_request(&connect, SocketOutcome::Connected);

    let close_other = SocketMessage::new(0x04, 9, vec![], [0, 0, 0, 0], 0, vec![]);
    match mgr.begin_request(&close_other).unwrap() {
        SocketAction::CloseUnix(resp) => {
            assert_eq!(resp, vec![0x04, 0x00, 0x00, 0x00, 0x09, 0x00, 0x00, 0x00, 0x01, 0x01]);
        }
        _ => panic!("close must be settled by the tables alone"),
    }

    // id 1 is still connected
    let send = SocketMessage::new(0x02, 1, vec![], [0, 0, 0, 0], 0, vec![0xFF]);
    assert!(matches!(mgr.begin_request(&send).unwrap(), SocketAction::SendUnix));

    // the TCP table is just as untouched
    let close_tcp = SocketMessage::new(MSG_TYPE_TCP_CLOSE, 1, vec![], [0, 0, 0, 0], 0, vec![]);
    match mgr.begin_request(&close_tcp).unwrap() {
        SocketAction::CloseTcp(resp) => {
            assert_eq!(resp[9], 0x01);
        }
        _ => panic!("close must be settled by the tables alone"),
    }
}

#[test]
fn send_and_receive_on_unknown_id() {
    let mut mgr = manager();
    let send = SocketMessage::new(0x02, 3, vec![], [0, 0, 0, 0], 0, vec![1, 2]);
    match mgr.begin_request(&send).unwrap() {
        SocketAction::Respond(resp) => {
            assert_eq!(resp, vec![0x02, 0x00, 0x00, 0x00, 0x03, 0x00, 0x00, 0x00, 0x01, 0x01]);
        }
        _ => panic!("a send on an unknown id must not touch a stream"),
    }
    let receive = SocketMessage::new(0x07, 3, vec![], [0, 0, 0, 0], 0, vec![]);
    match mgr.begin_request(&receive).unwrap() {
        SocketAction::Respond(resp) => {
            assert_eq!(resp, vec![0x07, 0x00, 0x00, 0x00, 0x03, 0x00, 0x00, 0x00, 0x01, 0x01]);
        }
        _ => panic!("a receive on an unknown id must not touch a stream"),
    }
}

#[test]
fn tcp_receive_with_no_data() {
    // After a TCP connect, a receive from a silent peer answers data_len 0.
    let mut mgr = manager();
    let req = vec![0x05, 0x00, 0x00, 0x00, 0x07, 10, 0, 0, 1, 0x01, 0xBB];
    let (connect, used) = SocketMessage::deserialize_with_len(&req).unwrap();
    assert_eq!(used, 11);
    assert_eq!(connect.ip_addr, [10, 0, 0, 1]);
    assert_eq!(connect.port, 443);
    assert!(matches!(mgr.begin_request(&connect).unwrap(), SocketAction::ConnectTcp));
    let resp = mgr.finish_request(&connect, SocketOutcome::Connected);
    assert_eq!(resp, vec![0x05, 0x00, 0x00, 0x00, 0x07, 0x00, 0x00, 0x00, 0x01, 0x00]);

    let receive = SocketMessage::new(0x07, 7, vec![], [0, 0, 0, 0], 0, vec![]);
    assert!(matches!(mgr.begin_request(&receive).unwrap(), SocketAction::ReceiveTcp));
    let resp2 = mgr.finish_request(&receive, SocketOutcome::Received(vec![]));
    assert_eq!(resp2, vec![0x07, 0x00, 0x00, 0x00, 0x07, 0x00, 0x00, 0x00, 0x00]);
}

#[test]
fn receive_returns_the_bytes_read() {
    let mut mgr = manager();
    let connect = SocketMessage::new(0x01, 2, b"/tmp/b.sock".to_vec(), [0, 0, 0, 0], 0, vec![]);
    mgr.begin_request(&connect).unwrap();
    mgr.finish_request(&connect, SocketOutcome::Connected);
    let receive = SocketMessage::new(0x03, 2, vec![], [0, 0, 0, 0], 0, vec![]);
    assert!(matches!(mgr.begin_request(&receive).unwrap(), SocketAction::ReceiveUnix));
    let resp = mgr.finish_request(&receive, SocketOutcome::Received(vec![0xDE, 0xAD]));
    assert_eq!(resp, vec![0x03, 0x00, 0x00, 0x00, 0x02, 0x00, 0x00, 0x00, 0x02, 0xDE, 0xAD]);
}

#[test]
fn unknown_type_is_protocol_error() {
    let mut mgr = manager();
    let msg = SocketMessage::new(0xFF, 1, vec![], [0, 0, 0, 0], 0, vec![1, 2, 3]);
    assert!(matches!(mgr.begin_request(&msg), Err(CmioError::Protocol)));
    let msg0 = SocketMessage::new(0x00, 1, vec![], [0, 0, 0, 0], 0, vec![]);
    assert!(matches!(mgr.begin_request(&msg0), Err(CmioError::Protocol)));
}

#[test]
fn declared_length_past_buffer_is_protocol_error() {
    // data_len says five bytes but only two follow
    let short = vec![0x02, 0x00, 0x00, 0x00, 0x01, 0x00, 0x00, 0x00, 0x05, 0x01, 0x02];
    assert!(matches!(
        SocketMessage::deserialize(&short),
        Err(CmioError::Protocol)
    ));
}

#[test]
fn batch_walks_message_by_message() {
    // Two concatenated requests are consumed at their exact encoded lengths.
    let mut batch = vec![0x01, 0x00, 0x00, 0x00, 0x01, 0x02];
    batch.extend_from_slice(b"ab");
    batch.extend_from_slice(&[0x04, 0x00, 0x00, 0x00, 0x02, 0x00, 0x00, 0x00, 0x00]);
    let (first, n1) = SocketMessage::deserialize_with_len(&batch).unwrap();
    assert_eq!(first.msg_type, 0x01);
    assert_eq!(first.path, b"ab".to_vec());
    assert_eq!(n1, 8);
    let (second, n2) = SocketMessage::deserialize_with_len(&batch[n1..]).unwrap();
    assert_eq!(second.msg_type, 0x04);
    assert_eq!(second.socket_id, 2);
    assert_eq!(n1 + n2, batch.len());
}
