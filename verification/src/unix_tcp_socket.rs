//! Socket multiplexer: the self-describing request/response wire format and
//! the two tables of host-driven client connections. Decoding, response
//! encoding and every table decision are verified here; the streams
//! themselves (connect, read, write) are performed by the caller between
//! `begin_request` and `finish_request`.

use vstd::prelude::*;
use crate::wire::{
    spec_be16, spec_be16_val, spec_be32, spec_be32_val, push_be16, push_be32, read_be16, read_be32,
    append_bytes,
};
use crate::cmio::{Cmio, CmioError};
use std::collections::HashMap;
use vstd::std_specs::hash::group_hash_axioms;
use vstd::array::group_array_axioms;
use vstd::slice::{slice_subrange, slice_to_vec};

verus! {

broadcast use group_hash_axioms, group_array_axioms;

/// Reason code of every socket-multiplexer yield.
pub const UNIX_SOCKET_CMD: u16 = 0x43;

pub const MSG_TYPE_UNIX_CONNECT: u8 = 0x01;
pub const MSG_TYPE_UNIX_SEND: u8 = 0x02;
pub const MSG_TYPE_UNIX_RECEIVE: u8 = 0x03;
pub const MSG_TYPE_UNIX_CLOSE: u8 = 0x04;
pub const MSG_TYPE_TCP_CONNECT: u8 = 0x05;
pub const MSG_TYPE_TCP_SEND: u8 = 0x06;
pub const MSG_TYPE_TCP_RECEIVE: u8 = 0x07;
pub const MSG_TYPE_TCP_CLOSE: u8 = 0x08;

/// Longest path a Unix-connect request may carry.
pub const MAX_PATH_LENGTH: usize = 108;

/// One request or response of the multiplexer protocol. The path is kept as
/// its raw bytes; turning it into an operating-system path is the caller's
/// step at the moment it opens the stream.
#[derive(Debug, Clone)]
pub struct SocketMessage {
    pub msg_type: u8,
    pub socket_id: u32,
    pub path: Vec<u8>,
    pub ip_addr: [u8; 4],
    pub port: u16,
    pub data: Vec<u8>,
}

/// Mathematical image of a message: every field as a plain value.
#[verifier::ext_equal]
pub ghost struct MsgModel {
    pub msg_type: u8,
    pub socket_id: u32,
    pub path: Seq<u8>,
    pub ip_addr: Seq<u8>,
    pub port: u16,
    pub data: Seq<u8>,
}

impl View for SocketMessage {
    type V = MsgModel;

    open spec fn view(&self) -> MsgModel {
        MsgModel {
            msg_type: self.msg_type,
            socket_id: self.socket_id,
            path: self.path@,
            ip_addr: self.ip_addr@,
            port: self.port,
            data: self.data@,
        }
    }
}

/// A message that can be put on the wire without loss: a Unix connect's path
/// fits its one-byte length and the documented bound, a TCP connect carries
/// four address octets, anything else counts its data with four bytes.
pub open spec fn spec_serialize_ok(m: MsgModel) -> bool {
    if m.msg_type == MSG_TYPE_UNIX_CONNECT {
        m.path.len() <= MAX_PATH_LENGTH
    } else if m.msg_type == MSG_TYPE_TCP_CONNECT {
        m.ip_addr.len() == 4
    } else {
        m.data.len() <= u32::MAX
    }
}

/// A message on the wire: type, then the id, then only what the type makes
/// meaningful -- a Unix connect carries its path, a TCP connect its address
/// and port, every other type its length-counted data.
pub open spec fn spec_msg_wire(m: MsgModel) -> Seq<u8>
    recommends
        spec_serialize_ok(m),
{
    seq![m.msg_type] + spec_be32(m.socket_id) + (if m.msg_type == MSG_TYPE_UNIX_CONNECT {
        seq![m.path.len() as u8] + m.path
    } else if m.msg_type == MSG_TYPE_TCP_CONNECT {
        m.ip_addr + spec_be16(m.port)
    } else {
        spec_be32(m.data.len() as u32) + m.data
    })
}

/// How many bytes a message occupies on the wire.
pub open spec fn spec_encoded_len(m: MsgModel) -> int {
    5 + (if m.msg_type == MSG_TYPE_UNIX_CONNECT {
        1 + m.path.len() as int
    } else if m.msg_type == MSG_TYPE_TCP_CONNECT {
        6int
    } else {
        4 + m.data.len() as int
    })
}

/// The fields a message of a given type does not put on the wire, reset to
/// their defaults: what a decoded message looks like.
pub open spec fn spec_canon(m: MsgModel) -> MsgModel {
    if m.msg_type == MSG_TYPE_UNIX_CONNECT {
        MsgModel {
            msg_type: m.msg_type,
            socket_id: m.socket_id,
            path: m.path,
            ip_addr: seq![0u8, 0u8, 0u8, 0u8],
            port: 0u16,
            data: Seq::empty(),
        }
    } else if m.msg_type == MSG_TYPE_TCP_CONNECT {
        MsgModel {
            msg_type: m.msg_type,
            socket_id: m.socket_id,
            path: Seq::empty(),
            ip_addr: m.ip_addr,
            port: m.port,
            data: Seq::empty(),
        }
    } else {
        MsgModel {
            msg_type: m.msg_type,
            socket_id: m.socket_id,
            path: Seq::empty(),
            ip_addr: seq![0u8, 0u8, 0u8, 0u8],
            port: 0u16,
            data: m.data,
        }
    }
}

/// The first message carried by a payload, if its bytes suffice for the
/// layout its type declares. An unknown type is read with the data layout;
/// whether it is acted on is the dispatcher's decision.
pub open spec fn spec_parse_msg(d: Seq<u8>) -> Option<MsgModel> {
    if d.len() < 5 {
        None
    } else {
        let t = d[0];
        let id = spec_be32_val(d[1], d[2], d[3], d[4]);
        if t == MSG_TYPE_UNIX_CONNECT {
            if d.len() < 6 {
                None
            } else {
                let n = d[5] as int;
                if d.len() < 6 + n {
                    None
                } else {
                    Some(
                        MsgModel {
                            msg_type: t,
                            socket_id: id,
                            path: d.subrange(6, 6 + n),
                            ip_addr: seq![0u8, 0u8, 0u8, 0u8],
                            port: 0u16,
                            data: Seq::empty(),
                        },
                    )
                }
            }
        } else if t == MSG_TYPE_TCP_CONNECT {
            if d.len() < 11 {
                None
            } else {
                Some(
                    MsgModel {
                        msg_type: t,
                        socket_id: id,
                        path: Seq::empty(),
                        ip_addr: d.subrange(5, 9),
                        port: spec_be16_val(d[9], d[10]),
                        data: Seq::empty(),
                    },
                )
            }
        } else {
            if d.len() < 9 {
                None
            } else {
                let n = spec_be32_val(d[5], d[6], d[7], d[8]) as int;
                if d.len() < 9 + n {
                    None
                } else {
                    Some(
                        MsgModel {
                            msg_type: t,
                            socket_id: id,
                            path: Seq::empty(),
                            ip_addr: seq![0u8, 0u8, 0u8, 0u8],
                            port: 0u16,
                            data: d.subrange(9, 9 + n),
                        },
                    )
                }
            }
        }
    }
}

/// A parsed message is canonical, fits within the bytes it was read from,
/// and can be put back on the wire.
pub proof fn lemma_parse_msg_props(d: Seq<u8>)
    ensures
        spec_parse_msg(d) matches Some(m) ==> {
            &&& 5 <= spec_encoded_len(m) <= d.len()
            &&& spec_canon(m) == m
            &&& spec_serialize_ok(m) || m.msg_type == MSG_TYPE_UNIX_CONNECT
        },
{
    if spec_parse_msg(d) is Some {
        let m = spec_parse_msg(d).unwrap();
        assert(spec_canon(m) =~= m);
    }
}

/// A message's wire form is exactly as long as its encoded length.
pub proof fn lemma_msg_wire_len(m: MsgModel)
    requires
        spec_serialize_ok(m),
    ensures
        spec_msg_wire(m).len() == spec_encoded_len(m),
{
}

/// Decoding a serialized message, with anything at all after it, reads back
/// exactly the fields its type carries; the rest are their defaults.
pub proof fn lemma_msg_round_trip_prefix(m: MsgModel, rest: Seq<u8>)
    requires
        spec_serialize_ok(m),
    ensures
        spec_parse_msg(spec_msg_wire(m) + rest) == Some(spec_canon(m)),
{
    let w = spec_msg_wire(m);
    let d = w + rest;
    let idb = spec_be32(m.socket_id);
    crate::wire::lemma_be32_round_trip(m.socket_id);
    assert(d[0] == m.msg_type);
    assert(d[1] == idb[0] && d[2] == idb[1] && d[3] == idb[2] && d[4] == idb[3]);
    assert(spec_be32_val(d[1], d[2], d[3], d[4]) == m.socket_id);
    if m.msg_type == MSG_TYPE_UNIX_CONNECT {
        let n = m.path.len() as int;
        assert(d[5] == (m.path.len() as u8));
        assert((m.path.len() as u8) as int == n);
        assert(d.len() >= 6 + n);
        assert(d.subrange(6, 6 + n) =~= m.path);
        assert(spec_parse_msg(d).unwrap() =~= spec_canon(m));
    } else if m.msg_type == MSG_TYPE_TCP_CONNECT {
        let pb = spec_be16(m.port);
        assert(d.len() >= 11);
        assert(d.subrange(5, 9) =~= m.ip_addr);
        assert(d[9] == pb[0] && d[10] == pb[1]);
        crate::wire::lemma_be16_round_trip(m.port);
        assert(spec_parse_msg(d).unwrap() =~= spec_canon(m));
    } else {
        let lb = spec_be32(m.data.len() as u32);
        assert(d[5] == lb[0] && d[6] == lb[1] && d[7] == lb[2] && d[8] == lb[3]);
        crate::wire::lemma_be32_round_trip(m.data.len() as u32);
        let n = spec_be32_val(d[5], d[6], d[7], d[8]) as int;
        assert(n == m.data.len());
        assert(d.len() >= 9 + n);
        assert(d.subrange(9, 9 + n) =~= m.data);
        assert(spec_parse_msg(d).unwrap() =~= spec_canon(m));
    }
}

/// A batch on the wire: the messages' bytes, in order, with no delimiters.
pub open spec fn spec_msgs_wire(ms: Seq<MsgModel>) -> Seq<u8>
    decreases ms.len(),
{
    if ms.len() == 0 {
        Seq::empty()
    } else {
        spec_msg_wire(ms.first()) + spec_msgs_wire(ms.drop_first())
    }
}

/// The messages carried by a payload: read one after the other; any byte
/// short of a whole message fails the batch.
pub open spec fn spec_parse_batch(d: Seq<u8>) -> Option<Seq<MsgModel>>
    decreases d.len(),
{
    if d.len() == 0 {
        Some(Seq::empty())
    } else {
        match spec_parse_msg(d) {
            None => None,
            Some(m) => {
                let n = spec_encoded_len(m);
                if n <= 0 || n > d.len() {
                    None
                } else {
                    match spec_parse_batch(d.skip(n)) {
                        None => None,
                        Some(ms) => Some(seq![m] + ms),
                    }
                }
            },
        }
    }
}

/// Round trip of a whole batch: decoding the concatenation of serialized
/// messages gives each message back componentwise, with the fields its type
/// does not carry reset to their defaults.
pub proof fn lemma_batch_round_trip(ms: Seq<MsgModel>)
    requires
        forall|i: int| 0 <= i < ms.len() ==> spec_serialize_ok(#[trigger] ms[i]),
    ensures
        spec_parse_batch(spec_msgs_wire(ms)) == Some(ms.map_values(|m: MsgModel| spec_canon(m))),
    decreases ms.len(),
{
    let canon = |m: MsgModel| spec_canon(m);
    if ms.len() == 0 {
        assert(ms.map_values(canon) =~= Seq::<MsgModel>::empty());
    } else {
        let m = ms.first();
        let rest = ms.drop_first();
        let d = spec_msgs_wire(ms);
        assert(ms[0] == m);
        lemma_msg_wire_len(m);
        lemma_msg_round_trip_prefix(m, spec_msgs_wire(rest));
        lemma_parse_msg_props(d);
        let c = spec_canon(m);
        assert(spec_encoded_len(c) == spec_encoded_len(m));
        assert(d.skip(spec_encoded_len(m)) =~= spec_msgs_wire(rest));
        assert(forall|i: int|
            0 <= i < rest.len() ==> spec_serialize_ok(#[trigger] rest[i])) by {
            assert(forall|i: int| 0 <= i < rest.len() ==> rest[i] == ms[i + 1]);
        }
        if rest.len() > 0 {
            lemma_msg_wire_len(rest.first());
            assert(spec_msgs_wire(rest).len() >= spec_msg_wire(rest.first()).len());
        }
        lemma_batch_round_trip(rest);
        assert(seq![c] + rest.map_values(canon) =~= ms.map_values(canon));
    }
}

impl SocketMessage {
    /// Builds a message from its fields.
    pub fn new(msg_type: u8, socket_id: u32, path: Vec<u8>, ip_addr: [u8; 4], port: u16, data: Vec<
        u8,
    >) -> (m: SocketMessage)
        ensures
            m@ == (MsgModel {
                msg_type,
                socket_id,
                path: path@,
                ip_addr: ip_addr@,
                port,
                data: data@,
            }),
    {
        SocketMessage { msg_type, socket_id, path, ip_addr, port, data }
    }

    /// Serializes the message: only the fields its type carries go on the
    /// wire.
    pub fn serialize(&self) -> (out: Vec<u8>)
        requires
            spec_serialize_ok(self@),
        ensures
            out@ == spec_msg_wire(self@),
            out@.len() == spec_encoded_len(self@),
    {
        proof {
            lemma_msg_wire_len(self@);
        }
        let mut out: Vec<u8> = Vec::new();
        out.push(self.msg_type);
        push_be32(&mut out, self.socket_id);
        if self.msg_type == MSG_TYPE_UNIX_CONNECT {
            out.push(self.path.len() as u8);
            append_bytes(&mut out, self.path.as_slice());
        } else if self.msg_type == MSG_TYPE_TCP_CONNECT {
            out.push(self.ip_addr[0]);
            out.push(self.ip_addr[1]);
            out.push(self.ip_addr[2]);
            out.push(self.ip_addr[3]);
            push_be16(&mut out, self.port);
            proof {
                assert(self.ip_addr@ =~= seq![
                    self.ip_addr@[0],
                    self.ip_addr@[1],
                    self.ip_addr@[2],
                    self.ip_addr@[3],
                ]);
            }
        } else {
            push_be32(&mut out, self.data.len() as u32);
            append_bytes(&mut out, self.data.as_slice());
        }
        proof {
            assert(out@ =~= spec_msg_wire(self@));
        }
        out
    }

    /// Decodes the first message of a payload together with the count of
    /// bytes it occupied, so a batch can be walked message by message; bytes
    /// short of a whole message are a protocol error.
    pub fn deserialize_with_len(data: &[u8]) -> (r: Result<(SocketMessage, usize), CmioError>)
        ensures
            match spec_parse_msg(data@) {
                Some(m) => r matches Ok((msg, n)) && msg@ == m && n == spec_encoded_len(m),
                None => r matches Err(e) && e matches CmioError::Protocol,
            },
    {
        if data.len() < 5 {
            return Err(CmioError::Protocol);
        }
        let msg_type = data[0];
        let socket_id = read_be32(data[1], data[2], data[3], data[4]);
        if msg_type == MSG_TYPE_UNIX_CONNECT {
            if data.len() < 6 {
                return Err(CmioError::Protocol);
            }
            let path_len = data[5] as usize;
            if data.len() - 6 < path_len {
                return Err(CmioError::Protocol);
            }
            let path = slice_to_vec(slice_subrange(data, 6, 6 + path_len));
            let msg = SocketMessage {
                msg_type,
                socket_id,
                path,
                ip_addr: [0u8; 4],
                port: 0,
                data: Vec::new(),
            };
            proof {
                assert(msg@ =~= spec_parse_msg(data@).unwrap());
            }
            Ok((msg, 6 + path_len))
        } else if msg_type == MSG_TYPE_TCP_CONNECT {
            if data.len() < 11 {
                return Err(CmioError::Protocol);
            }
            let mut ip_addr: [u8; 4] = [0u8; 4];
            ip_addr[0] = data[5];
            ip_addr[1] = data[6];
            ip_addr[2] = data[7];
            ip_addr[3] = data[8];
            let port = read_be16(data[9], data[10]);
            let msg = SocketMessage {
                msg_type,
                socket_id,
                path: Vec::new(),
                ip_addr,
                port,
                data: Vec::new(),
            };
            proof {
                assert(msg@.ip_addr =~= data@.subrange(5, 9));
                assert(msg@ =~= spec_parse_msg(data@).unwrap());
            }
            Ok((msg, 11))
        } else {
            if data.len() < 9 {
                return Err(CmioError::Protocol);
            }
            let data_len = read_be32(data[5], data[6], data[7], data[8]) as usize;
            if data.len() - 9 < data_len {
                return Err(CmioError::Protocol);
            }
            let message_data = slice_to_vec(slice_subrange(data, 9, 9 + data_len));
            let msg = SocketMessage {
                msg_type,
                socket_id,
                path: Vec::new(),
                ip_addr: [0u8; 4],
                port: 0,
                data: message_data,
            };
            proof {
                assert(msg@ =~= spec_parse_msg(data@).unwrap());
            }
            Ok((msg, 9 + data_len))
        }
    }

    /// Decodes the first message of a payload.
    pub fn deserialize(data: &[u8]) -> (r: Result<SocketMessage, CmioError>)
        ensures
            match spec_parse_msg(data@) {
                Some(m) => r matches Ok(msg) && msg@ == m,
                None => r matches Err(e) && e matches CmioError::Protocol,
            },
    {
        match Self::deserialize_with_len(data) {
            Ok((msg, _)) => Ok(msg),
            Err(e) => Err(e),
        }
    }
}

/// A response on the wire: the request's type and id, then its payload with
/// a four-byte count. Status responses carry one byte: 0 ok, 1 error.
pub open spec fn spec_response_wire(t: u8, id: u32, data: Seq<u8>) -> Seq<u8>
    recommends
        data.len() <= u32::MAX,
{
    seq![t] + spec_be32(id) + spec_be32(data.len() as u32) + data
}

/// Builds a one-byte status response.
pub fn status_response(msg_type: u8, socket_id: u32, status: u8) -> (out: Vec<u8>)
    ensures
        out@ == spec_response_wire(msg_type, socket_id, seq![status]),
{
    let mut out: Vec<u8> = Vec::new();
    out.push(msg_type);
    push_be32(&mut out, socket_id);
    push_be32(&mut out, 1);
    out.push(status);
    proof {
        assert(out@ =~= spec_response_wire(msg_type, socket_id, seq![status]));
    }
    out
}

/// Builds a response carrying the bytes read from a stream; empty bytes are
/// the valid "no data" answer.
pub fn data_response(msg_type: u8, socket_id: u32, data: &[u8]) -> (out: Vec<u8>)
    requires
        data@.len() <= u32::MAX,
    ensures
        out@ == spec_response_wire(msg_type, socket_id, data@),
{
    let mut out: Vec<u8> = Vec::new();
    out.push(msg_type);
    push_be32(&mut out, socket_id);
    push_be32(&mut out, data.len() as u32);
    append_bytes(&mut out, data);
    proof {
        assert(out@ =~= spec_response_wire(msg_type, socket_id, data@));
    }
    out
}

/// The stream work one request asks of the caller; `Respond` means none: the
/// response is already decided by the tables alone.
pub enum SocketAction {
    /// No stream is touched; this is the full response.
    Respond(Vec<u8>),
    /// Open a Unix stream to the message's path; report with `Connected`.
    ConnectUnix,
    /// Write the message's data, wholly, to the Unix stream of the id.
    SendUnix,
    /// One non-blocking read from the Unix stream of the id; a read that
    /// would block is an empty `Received`.
    ReceiveUnix,
    /// Open a TCP stream to the message's address and port, then make it
    /// non-blocking.
    ConnectTcp,
    /// Write the message's data, wholly, to the TCP stream of the id.
    SendTcp,
    /// One non-blocking read from the TCP stream of the id.
    ReceiveTcp,
    /// The id has already been dropped from the Unix table (or was absent,
    /// as the carried status byte says); drop the stream and answer this.
    CloseUnix(Vec<u8>),
    /// The TCP counterpart of `CloseUnix`.
    CloseTcp(Vec<u8>),
}

/// How the stream work of a request ended. A failure is not reported here:
/// a failed connect, write or read is fatal to the loop, as the transport
/// has no way to tell the host.
pub enum SocketOutcome {
    Connected,
    Sent,
    Received(Vec<u8>),
}

/// The outcome a request's type calls for.
pub open spec fn spec_outcome_fits(t: u8, outcome: SocketOutcome) -> bool {
    if t == MSG_TYPE_UNIX_CONNECT || t == MSG_TYPE_TCP_CONNECT {
        outcome is Connected
    } else if t == MSG_TYPE_UNIX_SEND || t == MSG_TYPE_TCP_SEND {
        outcome is Sent
    } else if t == MSG_TYPE_UNIX_RECEIVE || t == MSG_TYPE_TCP_RECEIVE {
        outcome matches SocketOutcome::Received(d) && d@.len() <= u32::MAX
    } else {
        false
    }
}

/// The multiplexer's verified state: the transport and the two tables of
/// live ids, Unix and TCP, each keyed by the host-chosen connection id and
/// remembering the destination it was opened with. The streams themselves
/// live with the caller, keyed by the same ids.
pub struct SocketManager {
    pub cmio: Cmio,
    unix_connections: HashMap<u32, Vec<u8>>,
    tcp_connections: HashMap<u32, Vec<u8>>,
    pub cmio_max_buffer_size: usize,
}

/// Neither table changed between two states.
pub open spec fn spec_tables_unchanged(pre: SocketManager, post: SocketManager) -> bool {
    &&& post.unix_table() == pre.unix_table()
    &&& post.tcp_table() == pre.tcp_table()
}

proof fn lemma_view_insert(pre: Map<u32, Vec<u8>>, k: u32, v: Vec<u8>)
    ensures
        pre.insert(k, v).map_values(|x: Vec<u8>| x@) == pre.map_values(|x: Vec<u8>| x@).insert(
            k,
            v@,
        ),
{
    assert(pre.insert(k, v).map_values(|x: Vec<u8>| x@) =~= pre.map_values(
        |x: Vec<u8>| x@,
    ).insert(k, v@));
}

proof fn lemma_view_remove(pre: Map<u32, Vec<u8>>, k: u32)
    ensures
        pre.remove(k).map_values(|x: Vec<u8>| x@) == pre.map_values(|x: Vec<u8>| x@).remove(k),
{
    assert(pre.remove(k).map_values(|x: Vec<u8>| x@) =~= pre.map_values(
        |x: Vec<u8>| x@,
    ).remove(k));
}

impl SocketManager {
    /// The transport, as the contracts see it.
    pub closed spec fn transport(&self) -> Cmio {
        self.cmio
    }

    /// The cached TX capacity, as the contracts see it.
    pub closed spec fn max_size(&self) -> usize {
        self.cmio_max_buffer_size
    }

    /// The Unix table: each live id, with the path bytes it was opened with.
    pub closed spec fn unix_table(&self) -> Map<u32, Seq<u8>> {
        self.unix_connections@.map_values(|x: Vec<u8>| x@)
    }

    /// The TCP table: each live id, with the path bytes of its request.
    pub closed spec fn tcp_table(&self) -> Map<u32, Seq<u8>> {
        self.tcp_connections@.map_values(|x: Vec<u8>| x@)
    }

    /// Adopts an opened transport; both tables start empty.
    pub fn new(cmio: Cmio, cmio_max_buffer_size: usize) -> (r: SocketManager)
        ensures
            r.transport() == cmio,
            r.max_size() == cmio_max_buffer_size,
            r.unix_table() == Map::<u32, Seq<u8>>::empty(),
            r.tcp_table() == Map::<u32, Seq<u8>>::empty(),
    {
        let r = SocketManager {
            cmio,
            unix_connections: HashMap::new(),
            tcp_connections: HashMap::new(),
            cmio_max_buffer_size,
        };
        proof {
            assert(r.unix_table() =~= Map::<u32, Seq<u8>>::empty());
            assert(r.tcp_table() =~= Map::<u32, Seq<u8>>::empty());
        }
        r
    }

    /// Decides a request from the tables alone. A close is settled here: a
    /// present id is removed with status 0, an absent one answered with
    /// status 1 and no table is altered. A send or receive on an absent id
    /// is answered with status 1 without touching a stream. Everything else
    /// names the stream work the caller must do before `finish_request`.
    /// A type outside the protocol is a protocol error.
    pub fn begin_request(&mut self, msg: &SocketMessage) -> (r: Result<SocketAction, CmioError>)
        ensures
            final(self).transport() == old(self).transport(),
            final(self).max_size() == old(self).max_size(),
            ({
                let t = msg.msg_type;
                let id = msg.socket_id;
                match r {
                    Err(e) => {
                        &&& e matches CmioError::Protocol
                        &&& !(MSG_TYPE_UNIX_CONNECT <= t <= MSG_TYPE_TCP_CLOSE)
                        &&& spec_tables_unchanged(*old(self), *final(self))
                    },
                    Ok(a) => {
                        &&& MSG_TYPE_UNIX_CONNECT <= t <= MSG_TYPE_TCP_CLOSE
                        &&& (t == MSG_TYPE_UNIX_CONNECT ==> a is ConnectUnix
                            && spec_tables_unchanged(*old(self), *final(self)))
                        &&& (t == MSG_TYPE_TCP_CONNECT ==> a is ConnectTcp
                            && spec_tables_unchanged(*old(self), *final(self)))
                        &&& (t == MSG_TYPE_UNIX_SEND ==> spec_tables_unchanged(
                            *old(self),
                            *final(self),
                        ) && (if old(self).unix_table().contains_key(id) {
                            a is SendUnix
                        } else {
                            a matches SocketAction::Respond(resp) && resp@ == spec_response_wire(
                                t,
                                id,
                                seq![1u8],
                            )
                        }))
                        &&& (t == MSG_TYPE_TCP_SEND ==> spec_tables_unchanged(
                            *old(self),
                            *final(self),
                        ) && (if old(self).tcp_table().contains_key(id) {
                            a is SendTcp
                        } else {
                            a matches SocketAction::Respond(resp) && resp@ == spec_response_wire(
                                t,
                                id,
                                seq![1u8],
                            )
                        }))
                        &&& (t == MSG_TYPE_UNIX_RECEIVE ==> spec_tables_unchanged(
                            *old(self),
                            *final(self),
                        ) && (if old(self).unix_table().contains_key(id) {
                            a is ReceiveUnix
                        } else {
                            a matches SocketAction::Respond(resp) && resp@ == spec_response_wire(
                                t,
                                id,
                                seq![1u8],
                            )
                        }))
                        &&& (t == MSG_TYPE_TCP_RECEIVE ==> spec_tables_unchanged(
                            *old(self),
                            *final(self),
                        ) && (if old(self).tcp_table().contains_key(id) {
                            a is ReceiveTcp
                        } else {
                            a matches SocketAction::Respond(resp) && resp@ == spec_response_wire(
                                t,
                                id,
                                seq![1u8],
                            )
                        }))
                        &&& (t == MSG_TYPE_UNIX_CLOSE ==> final(self).tcp_table() == old(
                            self,
                        ).tcp_table() && (if old(self).unix_table().contains_key(id) {
                            final(self).unix_table() == old(self).unix_table().remove(id)
                                && (a matches SocketAction::CloseUnix(resp) && resp@
                                == spec_response_wire(t, id, seq![0u8]))
                        } else {
                            final(self).unix_table() == old(self).unix_table()
                                && (a matches SocketAction::CloseUnix(resp) && resp@
                                == spec_response_wire(t, id, seq![1u8]))
                        }))
                        &&& (t == MSG_TYPE_TCP_CLOSE ==> final(self).unix_table() == old(
                            self,
                        ).unix_table() && (if old(self).tcp_table().contains_key(id) {
                            final(self).tcp_table() == old(self).tcp_table().remove(id)
                                && (a matches SocketAction::CloseTcp(resp) && resp@
                                == spec_response_wire(t, id, seq![0u8]))
                        } else {
                            final(self).tcp_table() == old(self).tcp_table()
                                && (a matches SocketAction::CloseTcp(resp) && resp@
                                == spec_response_wire(t, id, seq![1u8]))
                        }))
                    },
                }
            }),
    {
        let t = msg.msg_type;
        let id = msg.socket_id;
        if t == MSG_TYPE_UNIX_CONNECT {
            Ok(SocketAction::ConnectUnix)
        } else if t == MSG_TYPE_TCP_CONNECT {
            Ok(SocketAction::ConnectTcp)
        } else if t == MSG_TYPE_UNIX_SEND {
            if self.unix_connections.contains_key(&id) {
                Ok(SocketAction::SendUnix)
            } else {
                Ok(SocketAction::Respond(status_response(t, id, 1)))
            }
        } else if t == MSG_TYPE_TCP_SEND {
            if self.tcp_connections.contains_key(&id) {
                Ok(SocketAction::SendTcp)
            } else {
                Ok(SocketAction::Respond(status_response(t, id, 1)))
            }
        } else if t == MSG_TYPE_UNIX_RECEIVE {
            if self.unix_connections.contains_key(&id) {
                Ok(SocketAction::ReceiveUnix)
            } else {
                Ok(SocketAction::Respond(status_response(t, id, 1)))
            }
        } else if t == MSG_TYPE_TCP_RECEIVE {
            if self.tcp_connections.contains_key(&id) {
                Ok(SocketAction::ReceiveTcp)
            } else {
                Ok(SocketAction::Respond(status_response(t, id, 1)))
            }
        } else if t == MSG_TYPE_UNIX_CLOSE {
            let removed = self.unix_connections.remove(&id);
            proof {
                lemma_view_remove(old(self).unix_connections@, id);
                if !old(self).unix_connections@.contains_key(id) {
                    assert(old(self).unix_connections@.remove(id) =~= old(
                        self,
                    ).unix_connections@);
                }
            }
            match removed {
                Some(_) => Ok(SocketAction::CloseUnix(status_response(t, id, 0))),
                None => Ok(SocketAction::CloseUnix(status_response(t, id, 1))),
            }
        } else if t == MSG_TYPE_TCP_CLOSE {
            let removed = self.tcp_connections.remove(&id);
            proof {
                lemma_view_remove(old(self).tcp_connections@, id);
                if !old(self).tcp_connections@.contains_key(id) {
                    assert(old(self).tcp_connections@.remove(id) =~= old(self).tcp_connections@);
                }
            }
            match removed {
                Some(_) => Ok(SocketAction::CloseTcp(status_response(t, id, 0))),
                None => Ok(SocketAction::CloseTcp(status_response(t, id, 1))),
            }
        } else {
            Err(CmioError::Protocol)
        }
    }

    /// Settles a request whose stream work is done. A finished connect
    /// registers the id -- over any earlier entry -- and answers status 0;
    /// a finished send answers status 0; a finished read answers with the
    /// bytes it got, none meaning "no data now".
    pub fn finish_request(&mut self, msg: &SocketMessage, outcome: SocketOutcome) -> (resp: Vec<
        u8,
    >)
        requires
            spec_outcome_fits(msg.msg_type, outcome),
        ensures
            final(self).transport() == old(self).transport(),
            final(self).max_size() == old(self).max_size(),
            ({
                let t = msg.msg_type;
                let id = msg.socket_id;
                &&& (t == MSG_TYPE_UNIX_CONNECT ==> final(self).unix_table() == old(
                    self,
                ).unix_table().insert(id, msg.path@) && final(self).tcp_table() == old(
                    self,
                ).tcp_table() && resp@ == spec_response_wire(t, id, seq![0u8]))
                &&& (t == MSG_TYPE_TCP_CONNECT ==> final(self).tcp_table() == old(
                    self,
                ).tcp_table().insert(id, msg.path@) && final(self).unix_table() == old(
                    self,
                ).unix_table() && resp@ == spec_response_wire(t, id, seq![0u8]))
                &&& (t == MSG_TYPE_UNIX_SEND || t == MSG_TYPE_TCP_SEND ==> spec_tables_unchanged(
                    *old(self),
                    *final(self),
                ) && resp@ == spec_response_wire(t, id, seq![0u8]))
                &&& (t == MSG_TYPE_UNIX_RECEIVE || t == MSG_TYPE_TCP_RECEIVE ==> (
                spec_tables_unchanged(*old(self), *final(self)) && (outcome matches
                    SocketOutcome::Received(d) ==> resp@ == spec_response_wire(t, id, d@))))
            }),
    {
        let t = msg.msg_type;
        let id = msg.socket_id;
        if t == MSG_TYPE_UNIX_CONNECT {
            let path = slice_to_vec(msg.path.as_slice());
            self.unix_connections.insert(id, path);
            proof {
                lemma_view_insert(old(self).unix_connections@, id, path);
            }
            status_response(t, id, 0)
        } else if t == MSG_TYPE_TCP_CONNECT {
            let path = slice_to_vec(msg.path.as_slice());
            self.tcp_connections.insert(id, path);
            proof {
                lemma_view_insert(old(self).tcp_connections@, id, path);
            }
            status_response(t, id, 0)
        } else if t == MSG_TYPE_UNIX_SEND || t == MSG_TYPE_TCP_SEND {
            status_response(t, id, 0)
        } else {
            match outcome {
                SocketOutcome::Received(d) => data_response(t, id, d.as_slice()),
                _ => unreached(),
            }
        }
    }
}

} // verus!
