//! Yield transport over the host-interface device: the 64-bit control word
//! and the staging of payloads into the shared TX buffer.
//!
//! The device itself (open, setup ioctl, mappings, the yield ioctl) lives
//! outside this crate; this module owns everything the guest decides: how the
//! control word is packed and unpacked, when a payload is rejected as too
//! large, how the TX buffer image looks after staging, and when a host
//! response length is rejected.

use vstd::prelude::*;

verus! {

/// Device number carried by every manual yield.
pub const HTIF_DEVICE_YIELD: u8 = 0x02;

/// Command number carried by every manual yield.
pub const HTIF_YIELD_CMD_MANUAL: u8 = 0x01;

/// One of the two shared DMA regions, as the setup ioctl reports it.
pub struct CmioBuffer {
    pub data: u64,
    pub length: u64,
}

/// What the setup ioctl returns: the TX and RX regions.
pub struct CmioSetup {
    pub tx: CmioBuffer,
    pub rx: CmioBuffer,
}

/// The four fields of the 64-bit yield control word.
pub struct CmioYield {
    pub dev: u8,
    pub cmd: u8,
    pub reason: u16,
    pub data: u32,
}

/// Everything that can go wrong in the bridge.
#[derive(Debug, Clone, Copy)]
pub enum CmioError {
    /// The host-interface device could not be opened.
    DeviceOpen(i32),
    /// The setup ioctl failed or returned implausible buffer sizes.
    DeviceSetup(i32),
    /// Mapping one of the shared buffers failed.
    DeviceMap(i32),
    /// A payload exceeded the TX or RX capacity: requested, capacity.
    BufferTooLarge(usize, usize),
    /// A yield ioctl failed after setup.
    TransportIO(i32),
    /// A non-would-block failure from the TAP interface.
    TapIO(i32),
    /// A non-would-block failure from a Unix or TCP stream.
    SocketIO(i32),
    /// A malformed request stream.
    Protocol,
}

/// The control word with `y`'s fields packed at their bit positions:
/// device in bits 63..56, command in 55..48, reason in 47..32, data in 31..0.
pub open spec fn spec_pack_yield(y: CmioYield) -> u64 {
    (y.dev as u64) << 56 | (y.cmd as u64) << 48 | (y.reason as u64) << 32 | (y.data as u64)
}

/// The fields carried by a control word, highest bits first.
pub open spec fn spec_unpack_yield(w: u64) -> CmioYield {
    CmioYield { dev: (w >> 56) as u8, cmd: (w >> 48) as u8, reason: (w >> 32) as u16, data: w as u32 }
}

/// Packs a yield descriptor into the control word handed to the device.
pub fn pack_yield(y: &CmioYield) -> (w: u64)
    ensures
        w == spec_pack_yield(*y),
{
    (y.dev as u64) << 56 | (y.cmd as u64) << 48 | (y.reason as u64) << 32 | (y.data as u64)
}

/// Unpacks the control word the device hands back.
pub fn unpack_yield(w: u64) -> (y: CmioYield)
    ensures
        y == spec_unpack_yield(w),
{
    CmioYield { dev: (w >> 56) as u8, cmd: (w >> 48) as u8, reason: (w >> 32) as u16, data: w as u32 }
}

/// Unpacking a packed descriptor gives the fields back.
pub proof fn lemma_yield_word_round_trip(y: CmioYield)
    ensures
        spec_unpack_yield(spec_pack_yield(y)) == y,
{
    let dev = y.dev;
    let cmd = y.cmd;
    let reason = y.reason;
    let data = y.data;
    let w = (dev as u64) << 56 | (cmd as u64) << 48 | (reason as u64) << 32 | (data as u64);
    assert((w >> 56) as u8 == dev && (w >> 48) as u8 == cmd && (w >> 32) as u16 == reason && w
        as u32 == data) by (bit_vector)
        requires
            w == (dev as u64) << 56 | (cmd as u64) << 48 | (reason as u64) << 32 | (data as u64),
    ;
}

/// Packing the fields of a word gives the word back: no bit of the host's
/// response is lost in the descriptor.
pub proof fn lemma_yield_word_complete(w: u64)
    ensures
        spec_pack_yield(spec_unpack_yield(w)) == w,
{
    assert(((w >> 56) as u8 as u64) << 56 | ((w >> 48) as u8 as u64) << 48 | ((w >> 32) as u16
        as u64) << 32 | (w as u32 as u64) == w) by (bit_vector);
}

/// The guest side of the yield channel: the image of the guest-owned TX
/// buffer and the capacity of the host-owned RX buffer. The device
/// descriptor and the mappings themselves stay with the caller; between
/// yields the TX region holds exactly `tx_buffer`'s bytes.
pub struct Cmio {
    tx_buffer: Vec<u8>,
    rx_length: usize,
}

/// Plausible capacities: nonzero, and countable by the 32-bit data field.
pub open spec fn spec_plausible_sizes(setup: CmioSetup) -> bool {
    &&& 0 < setup.tx.length <= u32::MAX as u64
    &&& 0 < setup.rx.length <= u32::MAX as u64
}

impl Cmio {
    /// Both capacities stay within what the data field can report.
    pub closed spec fn well_formed(&self) -> bool {
        &&& self.tx_buffer@.len() <= u32::MAX
        &&& self.rx_length <= u32::MAX
    }

    /// TX capacity.
    pub closed spec fn tx_capacity(&self) -> nat {
        self.tx_buffer@.len()
    }

    /// RX capacity.
    pub closed spec fn rx_capacity(&self) -> nat {
        self.rx_length as nat
    }

    /// The bytes currently staged in the TX buffer.
    pub closed spec fn tx_view(&self) -> Seq<u8> {
        self.tx_buffer@
    }

    /// Accepts the sizes the setup ioctl reported and builds the transport
    /// state, with the TX image zeroed; implausible sizes are rejected.
    pub fn new(setup: &CmioSetup) -> (r: Result<Cmio, CmioError>)
        ensures
            match r {
                Ok(c) => {
                    &&& spec_plausible_sizes(*setup)
                    &&& c.well_formed()
                    &&& c.tx_capacity() == setup.tx.length
                    &&& c.rx_capacity() == setup.rx.length
                    &&& c.tx_view() == Seq::new(setup.tx.length as nat, |i: int| 0u8)
                },
                Err(e) => {
                    &&& !spec_plausible_sizes(*setup)
                    &&& e matches CmioError::DeviceSetup(_)
                },
            },
    {
        if setup.tx.length == 0 || setup.tx.length > u32::MAX as u64 || setup.rx.length == 0
            || setup.rx.length > u32::MAX as u64 {
            return Err(CmioError::DeviceSetup(0));
        }
        let tx_len: usize = setup.tx.length as usize;
        let rx_len: usize = setup.rx.length as usize;
        let mut tx_buffer: Vec<u8> = Vec::new();
        let mut i: usize = 0;
        while i < tx_len
            invariant
                i <= tx_len,
                tx_buffer@ == Seq::new(i as nat, |j: int| 0u8),
            decreases tx_len - i,
        {
            tx_buffer.push(0u8);
            i = i + 1;
            assert(tx_buffer@ =~= Seq::new(i as nat, |j: int| 0u8));
        }
        Ok(Cmio { tx_buffer, rx_length: rx_len })
    }

    /// Maximum size of a TX payload.
    pub fn get_tx_length(&self) -> (n: usize)
        ensures
            n == self.tx_capacity(),
    {
        self.tx_buffer.len()
    }

    /// The bytes the TX buffer holds between yields: what the host will read.
    pub fn tx_bytes(&self) -> (b: &Vec<u8>)
        ensures
            b@ == self.tx_view(),
    {
        &self.tx_buffer
    }

    /// Stages a payload for one yield: rejects one larger than the TX
    /// capacity, otherwise copies it verbatim into the buffer's prefix --
    /// bytes from the payload's end to the capacity keep their old value --
    /// and builds the descriptor whose data field is the payload's length.
    pub fn stage_payload(&mut self, dev: u8, cmd: u8, reason: u16, tx_data: &[u8]) -> (r: Result<
        CmioYield,
        CmioError,
    >)
        requires
            old(self).well_formed(),
        ensures
            final(self).well_formed(),
            final(self).tx_capacity() == old(self).tx_capacity(),
            final(self).rx_capacity() == old(self).rx_capacity(),
            match r {
                Ok(y) => {
                    &&& tx_data@.len() <= old(self).tx_capacity()
                    &&& final(self).tx_view().subrange(0, tx_data@.len() as int) == tx_data@
                    &&& forall|i: int|
                        tx_data@.len() <= i < old(self).tx_capacity()
                            ==> final(self).tx_view()[i] == old(self).tx_view()[i]
                    &&& y.dev == dev
                    &&& y.cmd == cmd
                    &&& y.reason == reason
                    &&& y.data == tx_data@.len()
                },
                Err(e) => {
                    &&& tx_data@.len() > old(self).tx_capacity()
                    &&& e matches CmioError::BufferTooLarge(req, cap) && req == tx_data@.len()
                        && cap == old(self).tx_capacity()
                    &&& *final(self) == *old(self)
                },
            },
    {
        if tx_data.len() > self.tx_buffer.len() {
            return Err(CmioError::BufferTooLarge(tx_data.len(), self.tx_buffer.len()));
        }
        let n = tx_data.len();
        let mut i: usize = 0;
        while i < n
            invariant
                i <= n <= self.tx_buffer@.len(),
                n == tx_data@.len(),
                self.tx_buffer@.len() == old(self).tx_buffer@.len(),
                self.rx_length == old(self).rx_length,
                forall|j: int| 0 <= j < i ==> self.tx_buffer@[j] == tx_data@[j],
                forall|j: int| i <= j < self.tx_buffer@.len()
                    ==> self.tx_buffer@[j] == old(self).tx_buffer@[j],
            decreases n - i,
        {
            self.tx_buffer[i] = tx_data[i];
            i = i + 1;
        }
        assert(self.tx_buffer@.subrange(0, n as int) =~= tx_data@);
        Ok(CmioYield { dev, cmd, reason, data: n as u32 })
    }

    /// Checks the response descriptor: a data field larger than the RX
    /// capacity is rejected, otherwise it is the number of RX bytes to read.
    pub fn accept_response(&self, response: &CmioYield) -> (r: Result<usize, CmioError>)
        ensures
            match r {
                Ok(n) => n == response.data && n <= self.rx_capacity(),
                Err(e) => {
                    &&& response.data > self.rx_capacity()
                    &&& e matches CmioError::BufferTooLarge(req, cap) && req == response.data
                        && cap == self.rx_capacity()
                },
            },
    {
        let n = response.data as usize;
        if n > self.rx_length {
            return Err(CmioError::BufferTooLarge(n, self.rx_length));
        }
        Ok(n)
    }
}

} // verus!
