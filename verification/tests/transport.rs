//! The yield transport: control-word packing, payload staging, and the
//! idle cycle.

use tap_cmio::cmio::{
    pack_yield, unpack_yield, Cmio, CmioBuffer, CmioError, CmioSetup, CmioYield,
    HTIF_DEVICE_YIELD, HTIF_YIELD_CMD_MANUAL,
};
use tap_cmio::network::{parse_frames, NetworkInterface, TAP_RXTX_CMD};

fn setup(tx: u64, rx: u64) -> CmioSetup {
    CmioSetup { tx: CmioBuffer { data: 0, length: tx }, rx: CmioBuffer { data: 0, length: rx } }
}

#[test]
fn yield_word_packing() {
    let y = CmioYield { dev: HTIF_DEVICE_YIELD, cmd: HTIF_YIELD_CMD_MANUAL, reason: TAP_RXTX_CMD, data: 0 };
    assert_eq!(pack_yield(&y), 0x0201_0042_0000_0000u64);
    let back = unpack_yield(0x0201_0042_0000_0000u64);
    assert_eq!(back.dev, 0x02);
    assert_eq!(back.cmd, 0x01);
    assert_eq!(back.reason, 0x42);
    assert_eq!(back.data, 0);
    let host = unpack_yield(0xAB05_1234_0000_0400u64);
    assert_eq!(host.dev, 0xAB);
    assert_eq!(host.cmd, 0x05);
    assert_eq!(host.reason, 0x1234);
    assert_eq!(host.data, 0x0400);
}

#[test]
fn implausible_sizes_rejected() {
    assert!(matches!(Cmio::new(&setup(0, 4096)), Err(CmioError::DeviceSetup(_))));
    assert!(matches!(Cmio::new(&setup(4096, 0)), Err(CmioError::DeviceSetup(_))));
    assert!(matches!(Cmio::new(&setup(1 << 33, 4096)), Err(CmioError::DeviceSetup(_))));
    assert!(Cmio::new(&setup(4096, 4096)).is_ok());
}

#[test]
fn stage_copies_verbatim_and_leaves_rest() {
    let mut cmio = Cmio::new(&setup(8, 8)).unwrap();
    let y = cmio.stage_payload(1, 2, 3, &[1, 2, 3]).unwrap();
    assert_eq!(y.data, 3);
    assert_eq!(y.dev, 1);
    assert_eq!(y.cmd, 2);
    assert_eq!(y.reason, 3);
    assert_eq!(cmio.tx_bytes(), &vec![1, 2, 3, 0, 0, 0, 0, 0]);
    // a shorter payload leaves the bytes past it untouched
    let y2 = cmio.stage_payload(1, 2, 3, &[9]).unwrap();
    assert_eq!(y2.data, 1);
    assert_eq!(cmio.tx_bytes(), &vec![9, 2, 3, 0, 0, 0, 0, 0]);
}

#[test]
fn oversize_payload_rejected() {
    let mut cmio = Cmio::new(&setup(4, 4)).unwrap();
    let r = cmio.stage_payload(1, 2, 3, &[0, 1, 2, 3, 4]);
    assert!(matches!(r, Err(CmioError::BufferTooLarge(5, 4))));
    // the buffer image is untouched by a rejected payload
    assert_eq!(cmio.tx_bytes(), &vec![0, 0, 0, 0]);
}

#[test]
fn oversize_response_rejected() {
    let cmio = Cmio::new(&setup(4096, 16)).unwrap();
    let ok = cmio.accept_response(&CmioYield { dev: 0, cmd: 0, reason: 0, data: 16 });
    assert_eq!(ok.unwrap(), 16);
    let bad = cmio.accept_response(&CmioYield { dev: 0, cmd: 0, reason: 0, data: 17 });
    assert!(matches!(bad, Err(CmioError::BufferTooLarge(17, 16))));
}

#[test]
fn idle_cycle() {
    // Transport opened with Ctx = Crx = 4096; no TAP data, host returns empty:
    // exactly one yield, TX length 0, reason TAP_RXTX_CMD.
    let cmio = Cmio::new(&setup(4096, 4096)).unwrap();
    let mut nw = NetworkInterface::new(cmio);
    assert_eq!(nw.cmio_max_buffer_size, 4096);
    let y = nw.cmio.stage_payload(HTIF_DEVICE_YIELD, HTIF_YIELD_CMD_MANUAL, TAP_RXTX_CMD, &[])
        .unwrap();
    assert_eq!(y.data, 0);
    assert_eq!(y.reason, TAP_RXTX_CMD);
    assert_eq!(y.dev, HTIF_DEVICE_YIELD);
    assert_eq!(y.cmd, HTIF_YIELD_CMD_MANUAL);
    // host answers with an empty payload
    let resp = CmioYield { dev: y.dev, cmd: y.cmd, reason: TAP_RXTX_CMD, data: 0 };
    let n = nw.cmio.accept_response(&resp).unwrap();
    assert_eq!(n, 0);
    let frames = parse_frames(&[]);
    assert!(frames.is_empty());
}
