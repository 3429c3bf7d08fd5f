use picodox::dfu::{
    FirmwareBlock, FirmwareCmd, FirmwareRecvr, FirmwareSession, WriterOp, FLASH_WRITE_BLOCK,
};
use picodox::errors::ProtoError;
use picodox::i2c::{BusEvent, Hand, I2cMaster, I2cSlave, Received, BUS_FRAME_MAX, I2C_ADDRESS};
use picodox::key_update::KeyUpdate;
use picodox::logging::{LogRing, Logger, LOG_CAPACITY};
use picodox::neopixel::{Color, CYCLES_PER_BIT, T1, T2, T3};
use picodox::panic_handler::{
    put_decimal, record_bytes, PanicBuffer, TraceBuffer, TraceKind, BUFFER_SIZE,
};
use picodox::proto::Version;

#[test]
fn log_is_drained_in_order() {
    let mut ring = LogRing::new();
    assert_eq!(ring.len(), 0);
    assert!(!ring.write(&[]));
    assert!(ring.write(b"first,"));
    assert!(ring.write(b"second"));
    let packet = ring.take_packet();
    assert_eq!(packet.bytes, b"first,second");
    assert!(!packet.flush);
    assert_eq!(ring.len(), 0);

    // Nothing held: an empty packet, and no flush.
    let packet = ring.take_packet();
    assert_eq!(packet.bytes, b"");
    assert!(!packet.flush);
}

#[test]
fn log_packets_hold_one_mtu() {
    let mut ring = LogRing::new();
    let bytes: Vec<u8> = (0..150u8).collect();
    ring.write(&bytes);
    let packet = ring.take_packet();
    assert_eq!(packet.bytes, &bytes[..64]);
    assert!(!packet.flush);
    let packet = ring.take_packet();
    assert_eq!(packet.bytes, &bytes[64..128]);
    assert!(!packet.flush);
    let packet = ring.take_packet();
    assert_eq!(packet.bytes, &bytes[128..]);
    assert!(!packet.flush);
}

#[test]
fn log_flushes_when_it_runs_empty_on_a_full_packet() {
    let mut ring = LogRing::new();
    ring.write(&[7u8; 64]);
    let packet = ring.take_packet();
    assert_eq!(packet.bytes.len(), 64);
    assert!(packet.flush);

    ring.write(&[7u8; 128]);
    assert!(!ring.take_packet().flush);
    assert!(ring.take_packet().flush);

    ring.write(&[7u8; 63]);
    assert!(!ring.take_packet().flush);
}

#[test]
fn log_drops_the_oldest_bytes() {
    let mut ring = LogRing::new();
    let bytes: Vec<u8> = (0..700u32).map(|i| (i % 251) as u8).collect();
    ring.write(&bytes[..600]);
    ring.write(&bytes[600..]);
    assert_eq!(ring.len(), LOG_CAPACITY);
    let packet = ring.take_packet();
    assert_eq!(packet.bytes, &bytes[60..124]);

    let mut other = LogRing::new();
    other.write(&bytes);
    assert_eq!(other.take_packet().bytes, &bytes[60..124]);
}

#[test]
fn logger_lock() {
    let mut logger = Logger::new();
    assert!(!logger.is_taken());
    logger.acquire();
    assert!(logger.is_taken());
    logger.release();
    assert!(!logger.is_taken());
    logger.acquire();
    assert!(logger.is_taken());
}

#[test]
fn firmware_pages() {
    let mut session = FirmwareSession::lock(0x1000);
    assert_eq!(session.begin(), FirmwareCmd::Begin);
    assert!(session.has_room());
    let mut pages: Vec<FirmwareBlock> = Vec::new();
    // One page and a block.
    for i in 0..513u32 {
        let data = [(i % 256) as u8; 8];
        if let Some(page) = session.write(&data) {
            pages.push(page);
        }
    }
    assert_eq!(pages.len(), 1);
    assert_eq!(pages[0].offset, 0x1000);
    assert_eq!(&pages[0].data[..8], &[0u8; 8]);
    assert_eq!(&pages[0].data[8..16], &[1u8; 8]);
    assert_eq!(&pages[0].data[4088..], &[255u8; 8]);
    assert_eq!(session.pending_len(), 8);

    let last = session.finish().unwrap();
    assert_eq!(last.offset, 0x2000);
    assert_eq!(&last.data[..8], &[0u8; 8]);
    assert!(last.data[8..].iter().all(|b| *b == 0));
    assert_eq!(session.pending_len(), 0);
    assert_eq!(session.finish(), None);
}

#[test]
fn firmware_offsets() {
    let mut session = FirmwareSession::lock(0);
    assert_eq!(session.set_offset(0x8000), None);
    session.write(&[1; 8]);
    let page = session.set_offset(0x10_0000).unwrap();
    assert_eq!(page.offset, 0x8000);
    assert_eq!(&page.data[..8], &[1u8; 8]);
    session.write(&[2; 8]);
    let page = session.finish().unwrap();
    assert_eq!(page.offset, 0x10_0000);
    assert_eq!(FLASH_WRITE_BLOCK, 4096);

    assert!(FirmwareSession::lock(u32::MAX - 4096).has_room());
    assert!(!FirmwareSession::lock(u32::MAX - 4095).has_room());
}

#[test]
fn firmware_writer() {
    let page = FirmwareBlock { data: [3; 4096], offset: 64 };
    let mut writer = FirmwareRecvr::new();
    assert_eq!(writer.on_command(FirmwareCmd::Finish), WriterOp::Spurious);
    assert_eq!(writer.on_command(FirmwareCmd::Block(page)), WriterOp::Spurious);
    assert!(!writer.updating);
    assert_eq!(writer.on_command(FirmwareCmd::Begin), WriterOp::Prepare);
    assert!(writer.updating);
    assert_eq!(writer.on_command(FirmwareCmd::Begin), WriterOp::Spurious);
    assert_eq!(writer.on_command(FirmwareCmd::Block(page)), WriterOp::Write(page));
    assert_eq!(writer.on_command(FirmwareCmd::Finish), WriterOp::MarkUpdated);
    assert!(!writer.updating);
}

#[test]
fn key_updates_cross_the_bus() {
    let master = I2cMaster::new();
    let slave = I2cSlave::new();
    assert_eq!(master.address, 0x55);
    assert_eq!(slave.address, I2C_ADDRESS);

    let update = KeyUpdate::from_slice(&[9, 25]).unwrap();
    let frame = master.frame(&update).unwrap();
    assert_eq!(frame.len(), 4);
    assert_eq!(&frame[..3], &[2, 9, 25]);

    let mut buffer = [0u8; BUS_FRAME_MAX];
    buffer[..frame.len()].copy_from_slice(&frame);
    assert_eq!(
        slave.on_event(BusEvent::Write(frame.len()), &mut buffer),
        Received::Update(KeyUpdate::from_slice(&[9, 25]).unwrap())
    );
    assert_eq!(&buffer[..frame.len()], &frame[..]);

    // Anything but a write is passed over.
    assert_eq!(slave.on_event(BusEvent::Read, &mut buffer), Received::Unexpected);
    assert_eq!(slave.on_event(BusEvent::GeneralCall(4), &mut buffer), Received::Unexpected);
    assert_eq!(slave.on_event(BusEvent::WriteRead(4), &mut buffer), Received::Unexpected);

    // A write that was cut short, an empty one, one with a wrong checksum.
    assert!(matches!(
        slave.on_event(BusEvent::Write(3), &mut buffer),
        Received::Fault(ProtoError::CrcMismatch { .. })
    ));
    assert_eq!(
        slave.on_event(BusEvent::Write(0), &mut buffer),
        Received::Fault(ProtoError::BadLength { len: 0 })
    );
    buffer[3] ^= 0x10;
    assert_eq!(
        slave.on_event(BusEvent::Write(4), &mut buffer),
        Received::Fault(ProtoError::CrcMismatch { calculated: frame[3], actual: frame[3] ^ 0x10 })
    );

    // The longest update fills the bus frame.
    let full = KeyUpdate::from_slice(&(0u8..35).collect::<Vec<u8>>()).unwrap();
    assert_eq!(master.frame(&full).unwrap().len(), BUS_FRAME_MAX);
}

#[test]
fn strap_pin_tells_the_half() {
    assert_eq!(Hand::from_strap(false), Hand::Left);
    assert_eq!(Hand::from_strap(true), Hand::Right);
    assert!(Hand::Left.reports_keys());
    assert!(!Hand::Right.reports_keys());
    assert!(Hand::Right.sends_on_bus());
    assert!(!Hand::Left.sends_on_bus());
}

#[test]
fn colour_wheel() {
    assert_eq!(Color::new(1, 2, 3), Color { r: 1, g: 2, b: 3 });
    assert_eq!(Color::wheel(0), Color::new(255, 0, 0));
    assert_eq!(Color::wheel(1), Color::new(252, 3, 0));
    assert_eq!(Color::wheel(85), Color::new(0, 255, 0));
    assert_eq!(Color::wheel(86), Color::new(0, 252, 3));
    assert_eq!(Color::wheel(170), Color::new(0, 0, 255));
    assert_eq!(Color::wheel(171), Color::new(3, 0, 252));
    assert_eq!(Color::wheel(255), Color::new(255, 0, 0));
    assert_eq!(Color::new(1, 2, 3).word(), 0x0201_0300);
    assert_eq!(Color::new(0xff, 0, 0).word(), 0x00ff_0000);
    assert_eq!(u32::from(T1) + u32::from(T2) + u32::from(T3), CYCLES_PER_BIT);
}

#[test]
fn panic_buffer_fills_once() {
    let mut buffer = PanicBuffer::new();
    assert!(buffer.write_str(b"Panic: "));
    assert!(buffer.write_str(b"oh no"));
    assert_eq!(buffer.bytes(), b"Panic: oh no");
    assert!(!buffer.write_str(&[b'x'; BUFFER_SIZE]));
    assert_eq!(buffer.bytes(), b"Panic: oh no");
    assert!(buffer.write_str(&[b'x'; BUFFER_SIZE - 12]));
    assert_eq!(buffer.bytes().len(), BUFFER_SIZE);
    assert!(!buffer.write_str(b"y"));
    assert!(buffer.write_str(b""));
}

#[test]
fn trace_records() {
    assert_eq!(record_bytes(TraceKind::TaskNew, 1, Some(2)), b"{NT|exid:1,tid:2}\n");
    assert_eq!(
        record_bytes(TraceKind::TaskExecBegin, 536870920, Some(4294967295)),
        b"{TB|exid:536870920,tid:4294967295}\n"
    );
    assert_eq!(record_bytes(TraceKind::TaskExecEnd, 0, Some(10)), b"{TE|exid:0,tid:10}\n");
    assert_eq!(record_bytes(TraceKind::TaskReadyBegin, 7, Some(0)), b"{TR|exid:7,tid:0}\n");
    assert_eq!(record_bytes(TraceKind::ExecutorIdle, 42, None), b"{EI|exid:42}\n");
    let mut out = b"n=".to_vec();
    put_decimal(1009, &mut out);
    assert_eq!(out, b"n=1009");
}

#[test]
fn trace_wraps() {
    let mut trace = TraceBuffer::new();
    trace.write_str(b"abc");
    assert_eq!(&trace.bytes()[..5], b"abc@\0");
    trace.record(TraceKind::ExecutorIdle, 3, None);
    assert_eq!(&trace.bytes()[..16], b"abc{EI|exid:3}\n@");

    trace.write_str(&[b'-'; BUFFER_SIZE - 15 - 2]);
    assert_eq!(trace.bytes()[BUFFER_SIZE - 2], b'@');
    trace.write_str(b"wxyz");
    assert_eq!(&trace.bytes()[BUFFER_SIZE - 2..], b"wx");
    assert_eq!(&trace.bytes()[..3], b"yz@");
    assert_eq!(trace.bytes()[3], b'{');

    // The mark takes the first place when a record ends at the last.
    let mut trace = TraceBuffer::new();
    trace.write_str(&[b'+'; BUFFER_SIZE]);
    assert_eq!(trace.bytes()[0], b'@');
    assert_eq!(trace.bytes()[1], b'+');
}

#[test]
fn protocol_revision() {
    assert_eq!(Version::current(), Version { major: 0, minor: 0 });
}
