//! Guest-side I/O bridge for a deterministic VM: a yield transport over a
//! host-interface device, a TAP frame batcher, and a socket multiplexer
//! driven by a host-supplied request stream.

pub mod wire;
pub mod cmio;
pub mod network;
pub mod unix_tcp_socket;

use vstd::prelude::*;

verus! {

/// An empty yield payload is the idle signal, read the same way on both
/// paths: it carries no TAP frames to inject, and it is the empty,
/// well-formed request batch of the multiplexer. Each drive loop treats it
/// as the end of an ingress burst.
pub proof fn lemma_empty_payload_is_idle()
    ensures
        network::spec_parse_frames(Seq::<u8>::empty()) == Seq::<Seq<u8>>::empty(),
        unix_tcp_socket::spec_parse_batch(Seq::<u8>::empty()) == Some(
            Seq::<unix_tcp_socket::MsgModel>::empty(),
        ),
{
}

} // verus!
