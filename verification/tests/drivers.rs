use nander_rs::domain::bad_block::{BadBlockTable, BlockStatus};
use nander_rs::domain::{Capacity, ChipCapabilities, ChipLayout, ChipSpec, FlashType, JedecId};
use nander_rs::infrastructure::programmer::ch341a::protocol as ch341a_protocol;
use nander_rs::infrastructure::programmer::ch341a::Ch341aState;
use nander_rs::infrastructure::programmer::ch347::Ch347State;
use nander_rs::infrastructure::programmer::device_database::UsbDeviceId;
use nander_rs::infrastructure::programmer::ch341a::Ch341a;
use nander_rs::infrastructure::programmer::ch347::Ch347;
use nander_rs::infrastructure::programmer::ftdi::{reset_requests, ControlRequest, FtdiProgrammer, FtdiState};
use nander_rs::infrastructure::programmer::usb::UsbTransport;
use nander_rs::infrastructure::programmer::Programmer;
use std::collections::VecDeque;
use nander_rs::infrastructure::programmer::serial::ch340::{
    calc_baud_divisor, configure_writes, line_control, modem_control, modem_status, Parity, SerialConfig,
    StopBits,
};
use nander_rs::infrastructure::programmer::serial::ch340::Ch340Serial;
use nander_rs::infrastructure::programmer::serial::ch347::Ch347Serial;
use nander_rs::infrastructure::programmer::serial::{discover_serial, SerialKind};
use nander_rs::presentation::cli::handlers::BbtHandler;
use nander_rs::Error;

#[test]
fn ch341a_state_tracks_outputs_and_speed() {
    let mut s = Ch341aState::new();
    assert_eq!(s.current_outputs, 0x37);
    assert_eq!(s.cs_cmd(true), vec![0xAB, 0xB6, 0x20]);
    assert_eq!(s.current_outputs, 0x36);
    assert_eq!(s.gpio_cmd(4, false), vec![0xAB, 0x80 | 0x26, 0x20]);
    assert_eq!(s.current_outputs, 0x26);
    assert_eq!(s.cs_cmd(false), vec![0xAB, 0xB7, 0x20]);
    assert_eq!(s.current_outputs, 0x27);
    assert_eq!(s.set_speed_cmd(7), vec![0xAB, 0xB7, 0x7B, 0xC7, 0x20]);
    assert_eq!(s.current_outputs, 0x37);
    assert_eq!(s.speed, ch341a_protocol::SpiSpeed::Speed12M);
    s.set_speed_cmd(42);
    assert_eq!(s.speed, ch341a_protocol::SpiSpeed::Medium);
}

#[test]
fn ch341a_i2c_commands() {
    assert_eq!(
        ch341a_protocol::build_i2c_write_cmd(0xA0, &[0x00, 0x10, 0x55]).unwrap(),
        vec![0xAA, 0x74, 0x84, 0xA0, 0x00, 0x10, 0x55, 0x75, 0x00]
    );
    assert_eq!(
        ch341a_protocol::build_i2c_write_cmd(0xA0, &[0u8; 32]),
        Err(Error::InvalidParameter("I2C write data length exceeds 31 bytes".to_string()))
    );
    assert_eq!(
        ch341a_protocol::build_i2c_read_cmd(0xA0, 4).unwrap(),
        vec![0xAA, 0x74, 0x81, 0xA1, 0xC4, 0x75, 0x00]
    );
    assert!(ch341a_protocol::build_i2c_read_cmd(0xA0, 32).is_ok());
    assert_eq!(
        ch341a_protocol::build_i2c_read_cmd(0xA0, 33),
        Err(Error::InvalidParameter("I2C read length exceeds 32 bytes".to_string()))
    );
    assert!(ch341a_protocol::gpio_input_level(&[0x08, 0x00]));
    assert!(!ch341a_protocol::gpio_input_level(&[0xF7]));
}

#[test]
fn ch341a_stream_and_transaction() {
    assert_eq!(ch341a_protocol::stream_chunk_sizes(0), Vec::<usize>::new());
    assert_eq!(ch341a_protocol::stream_chunk_sizes(100), vec![100]);
    assert_eq!(ch341a_protocol::stream_chunk_sizes(8191), vec![4095, 4095, 1]);
    assert!(!ch341a_protocol::reads_in_bulk(64));
    assert!(ch341a_protocol::reads_in_bulk(65));
    assert_eq!(
        ch341a_protocol::build_transaction_write_cmd(&[0x06]),
        vec![0xAB, 0xB6, 0x20, 0xA8, 0x06, 0xAB, 0xB7, 0x20]
    );
    assert_eq!(
        ch341a_protocol::build_transaction_write_cmd(&[]),
        vec![0xAB, 0xB6, 0x20, 0xAB, 0xB7, 0x20]
    );
}

#[test]
fn ch347_state() {
    let mut s = Ch347State::new();
    assert_eq!(s.name(), "CH347 High-Speed Programmer");
    assert_eq!(s.max_bulk_transfer_size(), 510);
    s.handshake_answered(Some(&[0xD0, 0, 0, 0]));
    assert!(s.larger_pack_supported);
    assert_eq!(s.name(), "CH347 High-Speed Programmer (Larger Pack)");
    assert_eq!(s.max_bulk_transfer_size(), 51184);
    s.handshake_answered(Some(&[]));
    assert!(!s.larger_pack_supported);
    s.handshake_answered(None);
    assert!(!s.larger_pack_supported);
    let p = s.set_speed_cmd(2);
    assert_eq!(s.current_speed, 2);
    assert_eq!(p[3 + 12], 2 << 3);
    let tx = vec![0x42u8; 1000];
    let packets = s.transfer_packets(&tx);
    assert_eq!(packets.len(), 2);
    assert_eq!(&packets[0][..3], &[0xC2, 0xFE, 0x01]);
    assert_eq!(packets[0].len(), 3 + 510);
    assert_eq!(&packets[1][..3], &[0xC2, 0xEA, 0x01]);
}

#[test]
fn ftdi_state_and_commands() {
    let reqs = reset_requests();
    assert_eq!(reqs.len(), 5);
    assert_eq!(reqs[4], ControlRequest { request: 0x0B, value: 0x0200, index: 1 });
    let mut s = FtdiState::new();
    assert_eq!(s.idle_cmd(), [0x80, 0x08, 0x1B]);
    assert_eq!(s.cs_cmd(true), [0x80, 0x00, 0x1B]);
    assert_eq!(s.cs_cmd(false), [0x80, 0x08, 0x1B]);
    // 60 MHz / (2 * 30 MHz) - 1 = 0; 60 MHz / (2 * 100 kHz) - 1 = 299
    assert_eq!(s.set_speed_cmd(7), [0x86, 0, 0]);
    assert_eq!(s.current_speed, 30_000_000);
    assert_eq!(s.set_speed_cmd(0), [0x86, 0x2B, 0x01]);
    assert_eq!(s.set_speed_cmd(99), [0x86, 29, 0]);
}

#[test]
fn serial_discovery_prefers_ch347() {
    let ch340 = UsbDeviceId { vendor_id: 0x1A86, product_id: 0x7523 };
    let ch347 = UsbDeviceId { vendor_id: 0x1A86, product_id: 0x55DB };
    let ch341_uart = UsbDeviceId { vendor_id: 0x1A86, product_id: 0x5523 };
    let other = UsbDeviceId { vendor_id: 0x1234, product_id: 0x5678 };
    assert_eq!(discover_serial(&[ch340, other, ch347]), Some((2, SerialKind::Ch347)));
    assert_eq!(discover_serial(&[other, ch340]), Some((1, SerialKind::Ch340)));
    assert_eq!(discover_serial(&[other, ch341_uart]), Some((1, SerialKind::Ch340)));
    assert_eq!(discover_serial(&[other]), None);
    assert_eq!(discover_serial(&[]), None);
}

#[test]
fn ch340_registers() {
    assert_eq!(calc_baud_divisor(115200), (0x1A00, 0x09));
    assert_eq!(calc_baud_divisor(9600), (0x2710, 0x05));
    assert_eq!(calc_baud_divisor(3000000), (0x180F, 0x0E));
    // 12 MHz / 250000 = 48
    assert_eq!(calc_baud_divisor(250000), (48, 0x0C));
    // 12 MHz / 100 = 120000: too slow, falls back to 9600 settings
    assert_eq!(calc_baud_divisor(100), (0x2710, 0x05));
    assert_eq!(line_control(8, StopBits::One, Parity::NoParity), 0x03);
    assert_eq!(line_control(7, StopBits::Two, Parity::Even), 0x02 | 0x04 | 0x18);
    assert_eq!(line_control(9, StopBits::OnePointFive, Parity::Space), 0x03 | 0x04 | 0x38);
    let w = configure_writes(&SerialConfig { baud_rate: 57600, data_bits: 5, parity: Parity::Odd, stop_bits: StopBits::One });
    assert_eq!(w.len(), 4);
    assert_eq!((w[0].request, w[0].value, w[0].index), (0x9A, 0x1312, 0x1A00));
    assert_eq!((w[1].value, w[1].index), (0x0F2C, 0x08));
    assert_eq!((w[2].value, w[2].index), (0x2518, 0x08));
    assert_eq!((w[3].value, w[3].index), (0x0C00, 0));
    assert_eq!(modem_control(false, false), 0xFF);
    assert_eq!(modem_control(true, false), 0xDF);
    assert_eq!(modem_control(true, true), 0x9F);
    assert_eq!(modem_status(0x0F), (false, false, false, false));
    assert_eq!(modem_status(0x0A), (true, false, true, false));
}

#[test]
fn bbt_handler_decisions() {
    let h = BbtHandler::new();
    assert_eq!(h.check_flash_type(FlashType::Nand), Ok(()));
    assert_eq!(
        h.check_flash_type(FlashType::Nor),
        Err(Error::NotSupported("BBT scan is only available for NAND flash".to_string()))
    );
    let spec = ChipSpec {
        name: "GD5F1GQ4".to_string(),
        manufacturer: "GigaDevice".to_string(),
        jedec_id: JedecId::new([0xC8, 0xF1, 0x00]),
        flash_type: FlashType::Nand,
        capacity: Capacity::megabytes(128),
        layout: ChipLayout { page_size: 2048, block_size: 128 * 1024, oob_size: Some(64), is_dataflash: false },
        capabilities: ChipCapabilities::default(),
        otp: None,
    };
    assert_eq!(h.block_count(&spec), 1024);
    let bbt = BadBlockTable {
        blocks: vec![
            BlockStatus::Good,
            BlockStatus::BadFactory,
            BlockStatus::Good,
            BlockStatus::BadRuntime,
            BlockStatus::BadFactory,
        ],
    };
    assert_eq!(
        h.bad_blocks(&bbt, 5),
        vec![(1, BlockStatus::BadFactory), (3, BlockStatus::BadRuntime), (4, BlockStatus::BadFactory)]
    );
    assert_eq!(h.bad_blocks(&bbt, 4), vec![(1, BlockStatus::BadFactory), (3, BlockStatus::BadRuntime)]);
    assert_eq!(h.bad_blocks(&bbt, 100).len(), 3);
    assert!(h.bad_blocks(&bbt, 0).is_empty());
}

/// A USB link that records what is written and answers reads from a queue
/// (or with 0xFF bytes when the queue is empty).
struct FakeUsb {
    outs: Vec<(u8, Vec<u8>)>,
    controls: Vec<(u8, u16, u16)>,
    answers: VecDeque<Vec<u8>>,
    delays: u64,
}

impl FakeUsb {
    fn new() -> Self {
        FakeUsb { outs: Vec::new(), controls: Vec::new(), answers: VecDeque::new(), delays: 0 }
    }
}

impl UsbTransport for FakeUsb {
    fn bulk_out(&mut self, endpoint: u8, data: &[u8]) -> nander_rs::Result<()> {
        self.outs.push((endpoint, data.to_vec()));
        Ok(())
    }

    fn bulk_in(&mut self, _endpoint: u8, len: usize) -> nander_rs::Result<Vec<u8>> {
        Ok(self.answers.pop_front().unwrap_or_else(|| vec![0xFF; len]))
    }

    fn control_out(&mut self, request: u8, value: u16, index: u16) -> nander_rs::Result<()> {
        self.controls.push((request, value, index));
        Ok(())
    }

    fn control_in(&mut self, request: u8, value: u16, index: u16, len: usize) -> nander_rs::Result<Vec<u8>> {
        self.controls.push((request, value, index));
        Ok(self.answers.pop_front().unwrap_or_else(|| vec![0; len]))
    }

    fn bulk_in_timeout(&mut self, _endpoint: u8, _len: usize, micros: u32) -> nander_rs::Result<Option<Vec<u8>>> {
        self.delays += micros as u64;
        Ok(self.answers.pop_front())
    }

    fn delay_us(&mut self, micros: u32) {
        self.delays += micros as u64;
    }
}

/// A link whose writes and reads all fail.
struct DeadUsb;

impl UsbTransport for DeadUsb {
    fn bulk_out(&mut self, _endpoint: u8, _data: &[u8]) -> nander_rs::Result<()> {
        Err(Error::Other("unplugged".to_string()))
    }

    fn bulk_in(&mut self, _endpoint: u8, _len: usize) -> nander_rs::Result<Vec<u8>> {
        Err(Error::Other("unplugged".to_string()))
    }

    fn control_out(&mut self, _request: u8, _value: u16, _index: u16) -> nander_rs::Result<()> {
        Err(Error::Other("unplugged".to_string()))
    }

    fn delay_us(&mut self, _micros: u32) {}
}

#[test]
fn ch341a_driver_transfers_in_pieces_of_32() {
    let mut usb = FakeUsb::new();
    let answer: Vec<u8> = (0..40u8).collect();
    usb.answers.push_back(answer[..32].to_vec());
    usb.answers.push_back(answer[32..].to_vec());
    let mut p = Ch341a::new(usb).unwrap();
    assert_eq!(p.name(), "CH341A USB Programmer");
    let tx = vec![0x5Au8; 40];
    let mut rx = vec![0u8; 40];
    p.spi_transfer(&tx, &mut rx).unwrap();
    assert_eq!(rx, answer);
    assert_eq!(p.max_bulk_transfer_size(), 4095);
}

#[test]
fn ch341a_driver_rejects_short_answers_and_bad_pins() {
    let mut usb = FakeUsb::new();
    usb.answers.push_back(vec![1, 2]);
    let mut p = Ch341a::new(usb).unwrap();
    let mut rx = vec![0u8; 4];
    assert!(matches!(p.spi_transfer(&[1, 2, 3, 4], &mut rx), Err(Error::Other(_))));
    assert!(matches!(p.gpio_set(8, true), Err(Error::InvalidParameter(_))));
    assert!(matches!(p.i2c_write(0x50, &[0u8; 32]), Err(Error::InvalidParameter(_))));
    assert!(matches!(p.i2c_read(0x50, 33), Err(Error::InvalidParameter(_))));
}

#[test]
fn ch341a_driver_transactions_i2c_and_gpio() {
    let mut usb = FakeUsb::new();
    usb.answers.push_back(vec![0xFF]); // while the opcode is sent
    usb.answers.push_back(vec![0xEF, 0x40, 0x17]);
    let mut p = Ch341a::new(usb).unwrap();
    assert_eq!(p.spi_transaction(&[0x9F], 3).unwrap(), vec![0xEF, 0x40, 0x17]);
    p.spi_transaction_write(&[0x06]).unwrap();
    p.i2c_write(0xA0, &[0x00]).unwrap();
    p.gpio_set(4, false).unwrap();
    p.set_speed(2).unwrap();
    p.delay_us(250);
    // stream read of 100 bytes: one stream command, answered by one read
    let bulk = p.spi_read_bulk(100).unwrap();
    assert_eq!(bulk, vec![0xFF; 100]);
    assert!(p.gpio_get(0).unwrap());
    assert_eq!(p.i2c_read(0xA0, 2).unwrap(), vec![0xFF, 0xFF]);
}

#[test]
fn ch341a_driver_reports_link_failure() {
    assert!(Ch341a::new(DeadUsb).is_err());
}

#[test]
fn ch347_driver_handshake_and_transfer() {
    let mut usb = FakeUsb::new();
    usb.answers.push_back(vec![0xD0, 0, 0, 0]); // handshake accepted
    let mut p = Ch347::new(usb).unwrap();
    assert_eq!(p.name(), "CH347 High-Speed Programmer (Larger Pack)");
    assert_eq!(p.max_bulk_transfer_size(), 51184);
    let mut usb = FakeUsb::new();
    usb.answers.push_back(vec![0x00]); // handshake refused
    usb.answers.push_back(vec![9, 8, 7]);
    let mut p = Ch347::new(usb).unwrap();
    assert_eq!(p.name(), "CH347 High-Speed Programmer");
    let mut rx = vec![0u8; 3];
    p.spi_transfer(&[1, 2, 3], &mut rx).unwrap();
    assert_eq!(rx, vec![9, 8, 7]);
    p.set_cs(true).unwrap();
    p.set_speed(1).unwrap();
    let mut rx = vec![0u8; 2];
    // the fake answers 0xFF twice; a 3-byte answer would be a mismatch
    p.spi_transfer(&[1, 2], &mut rx).unwrap();
    assert_eq!(rx, vec![0xFF, 0xFF]);
}

#[test]
fn ftdi_driver_reset_and_transfer() {
    let mut usb = FakeUsb::new();
    usb.answers.push_back(vec![]); // nothing queued after the reset
    usb.answers.push_back(vec![0x12, 0x34]);
    let mut p = FtdiProgrammer::new(usb, 0x02, 0x81).unwrap();
    assert_eq!(p.name(), "FTDI High-Speed Programmer (MPSSE)");
    let mut rx = vec![0u8; 2];
    p.spi_transfer(&[0x9F, 0x00], &mut rx).unwrap();
    assert_eq!(rx, vec![0x12, 0x34]);
    // a short answer leaves the rest of the buffer as it was
    let mut usb = FakeUsb::new();
    usb.answers.push_back(vec![]);
    usb.answers.push_back(vec![0xAB]);
    let mut p = FtdiProgrammer::new(usb, 0x02, 0x81).unwrap();
    let mut rx = vec![7u8, 7];
    p.spi_transfer(&[1, 2], &mut rx).unwrap();
    assert_eq!(rx, vec![0xAB, 7]);
    p.set_cs(true).unwrap();
    p.set_speed(7).unwrap();
    assert!(FtdiProgrammer::new(DeadUsb, 0x02, 0x81).is_err());
}

fn line_8n1(baud: u32) -> SerialConfig {
    SerialConfig { baud_rate: baud, data_bits: 8, parity: Parity::NoParity, stop_bits: StopBits::One }
}

#[test]
fn ch340_serial_port() {
    let mut usb = FakeUsb::new();
    usb.answers.push_back(vec![0x30, 0x00]); // chip version
    let mut port = Ch340Serial::new(usb, line_8n1(115200)).unwrap();
    assert_eq!(port.name(), "CH340 Serial Port");
    assert_eq!(port.get_dtr(), Some(false));
    port.set_dtr(true).unwrap();
    port.set_rts(true).unwrap();
    assert_eq!(port.get_dtr(), Some(true));
    assert_eq!(port.get_rts(), Some(true));
    // nothing arrives: zero bytes, buffer untouched
    let mut buf = [7u8; 4];
    assert_eq!(port.read(&mut buf).unwrap(), 0);
    assert_eq!(buf, [7u8; 4]);
    assert_eq!(port.write(b"AT\r\n").unwrap(), 4);
    port.configure(&line_8n1(9600)).unwrap();
    assert_eq!(port.bytes_available().unwrap(), 0);
    port.flush().unwrap();
}

#[test]
fn ch340_serial_reads_and_modem_status() {
    let mut usb = FakeUsb::new();
    usb.answers.push_back(vec![0x30, 0x00]); // chip version
    usb.answers.push_back(vec![0x0A, 0x00]); // modem status
    usb.answers.push_back(b"hello".to_vec()); // received data
    let mut port = Ch340Serial::new(usb, line_8n1(57600)).unwrap();
    assert_eq!(port.read_modem_status().unwrap(), (true, false, true, false));
    let mut buf = [0u8; 3];
    assert_eq!(port.read(&mut buf).unwrap(), 3);
    assert_eq!(&buf, b"hel");
}

#[test]
fn ch347_serial_port() {
    let mut usb = FakeUsb::new();
    usb.answers.push_back(b"ok".to_vec());
    let mut port = Ch347Serial::new(usb, line_8n1(115200)).unwrap();
    assert_eq!(port.name(), "CH347 UART");
    let mut buf = [0u8; 8];
    assert_eq!(port.read(&mut buf).unwrap(), 2);
    assert_eq!(&buf[..2], b"ok");
    assert_eq!(port.write(&[1, 2, 3]).unwrap(), 3);
    port.set_dtr(true).unwrap();
    port.set_rts(false).unwrap();
    // a failing link reads nothing
    let mut port = Ch347Serial::new(DeadUsb, line_8n1(9600)).unwrap();
    assert_eq!(port.read(&mut buf).unwrap(), 0);
    assert!(port.write(&[1]).is_err());
}
