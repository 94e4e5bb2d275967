use nander_rs::domain::{
    Address, BadBlockStrategy, Capacity, ChipCapabilities, ChipLayout, ChipSpec, EraseRequest,
    FlashOperation, FlashType, JedecId, OobMode, ReadRequest, WriteRequest,
};
use nander_rs::infrastructure::flash_protocol::eeprom::SpiEeprom;
use nander_rs::infrastructure::flash_protocol::nand::SpiNand;
use nander_rs::infrastructure::flash_protocol::nor::SpiNor;
use nander_rs::infrastructure::programmer::device_database::UsbDeviceId;
use nander_rs::infrastructure::programmer::mock::MockProgrammer;
use nander_rs::infrastructure::programmer::simulator::SimulatedProgrammer;
use nander_rs::infrastructure::programmer::{discover, Discovery, ProgrammerKind};
use nander_rs::Error;

const PAGE: u32 = 2048;
const BLOCK: u32 = 64 * 1024;
const CAPACITY: usize = 1024 * 1024;

fn nand_spec() -> ChipSpec {
    ChipSpec {
        name: "Simulated NAND".to_string(),
        manufacturer: "Simulated".to_string(),
        jedec_id: JedecId::new([0xEF, 0xAA, 0x21]),
        flash_type: FlashType::Nand,
        capacity: Capacity::bytes(CAPACITY as u32),
        layout: ChipLayout { page_size: PAGE, block_size: BLOCK, oob_size: Some(64), is_dataflash: false },
        capabilities: ChipCapabilities::default(),
        otp: None,
    }
}

fn nand() -> SpiNand<SimulatedProgrammer> {
    SpiNand::new(SimulatedProgrammer::new(CAPACITY, PAGE, BLOCK), nand_spec())
}

fn read_req(address: u32, length: u32) -> ReadRequest {
    ReadRequest {
        address: Address::new(address),
        length,
        use_ecc: true,
        ignore_ecc_errors: false,
        oob_mode: OobMode::Excluded,
        bad_block_strategy: BadBlockStrategy::Fail,
        bbt: None,
        retry_count: 0,
    }
}

fn write_req(address: u32, data: &[u8], verify: bool) -> WriteRequest<'_> {
    WriteRequest {
        address: Address::new(address),
        data,
        use_ecc: true,
        verify,
        ignore_ecc_errors: false,
        oob_mode: OobMode::Excluded,
        bad_block_strategy: BadBlockStrategy::Fail,
        bbt: None,
        retry_count: 0,
    }
}

#[test]
fn nand_write_then_read_spans_pages() {
    let mut flash = nand();
    let data: Vec<u8> = (0..5000u32).map(|i| (i * 7 + 3) as u8).collect();
    flash.write(write_req(2 * PAGE, &data, true), &|_| {}).unwrap();
    let back = flash.read(read_req(2 * PAGE, 5000), &|_| {}).unwrap();
    assert_eq!(back, data);
    // the rest of the last page written was padded with 0xFF
    let whole = flash.read(read_req(2 * PAGE, 3 * PAGE), &|_| {}).unwrap();
    assert_eq!(&whole[..5000], &data[..]);
    assert!(whole[5000..].iter().all(|b| *b == 0xFF));
    // the page before was left alone
    let before = flash.read(read_req(PAGE, PAGE), &|_| {}).unwrap();
    assert!(before.iter().all(|b| *b == 0xFF));
}

#[test]
fn nand_erase_clears_a_written_block() {
    let mut flash = nand();
    let data = vec![0x5Au8; 3000];
    flash.write(write_req(BLOCK, &data, false), &|_| {}).unwrap();
    assert_eq!(flash.read(read_req(BLOCK, 3000), &|_| {}).unwrap(), data);
    let erase = EraseRequest {
        address: Address::new(BLOCK),
        length: BLOCK,
        bad_block_strategy: BadBlockStrategy::Fail,
        bbt: None,
    };
    flash.erase(erase, &|_| {}).unwrap();
    let back = flash.read(read_req(BLOCK, 3000), &|_| {}).unwrap();
    assert!(back.iter().all(|b| *b == 0xFF));
}

#[test]
fn nand_rejects_misaligned_write_and_erase() {
    let mut flash = nand();
    let data = vec![1u8, 2, 3];
    assert!(matches!(
        flash.write(write_req(100, &data, false), &|_| {}),
        Err(Error::InvalidParameter(_))
    ));
    let erase = EraseRequest {
        address: Address::new(PAGE),
        length: BLOCK,
        bad_block_strategy: BadBlockStrategy::Fail,
        bbt: None,
    };
    assert!(matches!(flash.erase(erase, &|_| {}), Err(Error::InvalidParameter(_))));
}

#[test]
fn nand_read_reports_progress_per_page() {
    let mut flash = nand();
    let calls = std::cell::RefCell::new(Vec::new());
    flash
        .read(read_req(0, 2 * PAGE + 10), &|p| calls.borrow_mut().push((p.current, p.total)))
        .unwrap();
    let calls = calls.into_inner();
    assert_eq!(calls.last(), Some(&((2 * PAGE + 10) as u64, (2 * PAGE + 10) as u64)));
    assert_eq!(calls.len(), 3);
}

fn nor_spec() -> ChipSpec {
    ChipSpec {
        name: "W25Q64".to_string(),
        manufacturer: "Winbond".to_string(),
        jedec_id: JedecId::new([0xEF, 0x40, 0x17]),
        flash_type: FlashType::Nor,
        capacity: Capacity::megabytes(8),
        layout: ChipLayout { page_size: 256, block_size: 64 * 1024, oob_size: None, is_dataflash: false },
        capabilities: ChipCapabilities::default(),
        otp: None,
    }
}

/// Responses for one page program: WRITE ENABLE, the command, the data, one status poll.
fn expect_program(mock: &mut MockProgrammer, len: usize) {
    mock.expect_read(vec![0xFF]);
    mock.expect_read(vec![0xFF; 4]);
    mock.expect_read(vec![0xFF; len]);
    mock.expect_read(vec![0xFF]);
    mock.expect_read(vec![0x00]);
}

#[test]
fn nor_write_sends_page_program_and_verifies() {
    let mut mock = MockProgrammer::new();
    let data = vec![0x11u8, 0x22, 0x33, 0x44];
    expect_program(&mut mock, 4);
    mock.expect_read(vec![0xFF; 5]); // read command
    mock.expect_read(data.clone()); // read back
    let mut nor = SpiNor::new(mock, nor_spec());
    nor.write(write_req(0x10, &data, true), &|_| {}).unwrap();
    let writes = nor.programmer_mut().get_writes();
    assert_eq!(writes[0], vec![0x06]);
    assert_eq!(writes[1], vec![0x02, 0x00, 0x00, 0x10]);
    assert_eq!(writes[2], data);
}

#[test]
fn nor_write_splits_at_page_boundaries() {
    let mut mock = MockProgrammer::new();
    let data = vec![0xA5u8; 20];
    expect_program(&mut mock, 6);
    expect_program(&mut mock, 14);
    let mut nor = SpiNor::new(mock, nor_spec());
    nor.write(write_req(250, &data, false), &|_| {}).unwrap();
    let writes = nor.programmer_mut().get_writes();
    let programs: Vec<&Vec<u8>> = writes.iter().filter(|w| w.len() == 4 && w[0] == 0x02).collect();
    assert_eq!(programs, vec![&vec![0x02, 0x00, 0x00, 250], &vec![0x02, 0x00, 0x01, 0x00]]);
}

#[test]
fn nor_verify_mismatch_is_reported() {
    let mut mock = MockProgrammer::new();
    let data = vec![0x11u8, 0x22, 0x33, 0x44];
    expect_program(&mut mock, 4);
    mock.expect_read(vec![0xFF; 5]);
    mock.expect_read(vec![0x11, 0x22, 0x30, 0x44]);
    let mut nor = SpiNor::new(mock, nor_spec());
    assert_eq!(
        nor.write(write_req(0x100, &data, true), &|_| {}),
        Err(Error::VerificationFailed { address: 0x102, expected: 0x33, actual: 0x30 })
    );
}

#[test]
fn nor_erase_alignment() {
    let mut nor = SpiNor::new(MockProgrammer::new(), nor_spec());
    let erase = EraseRequest {
        address: Address::new(0x1000),
        length: 64 * 1024,
        bad_block_strategy: BadBlockStrategy::Fail,
        bbt: None,
    };
    assert_eq!(
        nor.erase(erase, &|_| {}),
        Err(Error::InvalidParameter("NOR erase address must be block-aligned".to_string()))
    );
    assert!(nor.programmer_mut().get_writes().is_empty());

    let mut mock = MockProgrammer::new();
    mock.expect_read(vec![0xFF]); // WRITE ENABLE
    mock.expect_read(vec![0xFF; 4]); // BLOCK ERASE
    mock.expect_read(vec![0xFF]);
    mock.expect_read(vec![0x00]); // ready
    let mut nor = SpiNor::new(mock, nor_spec());
    let erase = EraseRequest {
        address: Address::new(0x20000),
        length: 64 * 1024,
        bad_block_strategy: BadBlockStrategy::Fail,
        bbt: None,
    };
    nor.erase(erase, &|_| {}).unwrap();
    assert!(nor.programmer_mut().get_writes().contains(&vec![0xD8, 0x02, 0x00, 0x00]));
}

#[test]
fn spi_eeprom_read_uses_two_address_bytes() {
    let spec = ChipSpec {
        name: "25LC256".to_string(),
        manufacturer: "Microchip".to_string(),
        jedec_id: JedecId::new([0x00, 0x00, 0x00]),
        flash_type: FlashType::SpiEeprom,
        capacity: Capacity::bytes(32 * 1024),
        layout: ChipLayout { page_size: 64, block_size: 64, oob_size: None, is_dataflash: false },
        capabilities: ChipCapabilities::default(),
        otp: None,
    };
    let mut mock = MockProgrammer::new();
    mock.expect_read(vec![0xFF; 3]);
    mock.expect_read(vec![1, 2, 3, 4]);
    let mut eeprom = SpiEeprom::new(mock, spec);
    let r = ReadRequest { oob_mode: OobMode::Excluded, ..read_req(0x0100, 4) };
    assert_eq!(eeprom.read(r, &|_| {}).unwrap(), vec![1, 2, 3, 4]);
}

#[test]
fn discover_picks_the_first_supported_programmer() {
    let other = UsbDeviceId { vendor_id: 0x046D, product_id: 0xC077 };
    let uart = UsbDeviceId { vendor_id: 0x1A86, product_id: 0x5523 };
    let ch341a = UsbDeviceId { vendor_id: 0x1A86, product_id: 0x5512 };
    let ch347 = UsbDeviceId { vendor_id: 0x1A86, product_id: 0x55DB };
    assert_eq!(
        discover(&[other, uart, ch347, ch341a]),
        Discovery::Found { index: 2, kind: ProgrammerKind::Ch347 }
    );
    assert_eq!(
        discover(&[ch341a, ch347]),
        Discovery::Found { index: 0, kind: ProgrammerKind::Ch341a }
    );
    assert_eq!(discover(&[]), Discovery::NoUsbDevices);
    assert_eq!(discover(&[other, uart]), Discovery::WchNotSupported);
    assert_eq!(discover(&[other, other]), Discovery::NoWchProgrammer { others: 2 });
}

use nander_rs::domain::FlashOptions;
use nander_rs::presentation::cli::handlers::{EraseHandler, ReadHandler, VerifyHandler, WriteHandler};

fn options(address: u32, length: Option<u32>) -> FlashOptions {
    FlashOptions {
        address,
        length,
        use_ecc: true,
        ignore_ecc_errors: false,
        bad_block_strategy: BadBlockStrategy::Fail,
        oob_mode: OobMode::Excluded,
        speed: None,
        verify: false,
    }
}

#[test]
fn handler_requests_default_to_the_rest_of_the_chip() {
    let spec = nand_spec();
    let r = ReadHandler::new().request(&options(0x1000, None), &spec);
    assert_eq!(r.address, Address::new(0x1000));
    assert_eq!(r.length, CAPACITY as u32 - 0x1000);
    assert!(r.use_ecc);
    let r = ReadHandler::new().request(&options(0x1000, Some(16)), &spec);
    assert_eq!(r.length, 16);
    let e = EraseHandler::new().request(&options(BLOCK, None), &spec);
    assert_eq!(e.address, Address::new(BLOCK));
    assert_eq!(e.length, CAPACITY as u32 - BLOCK);
    let data = [1u8, 2, 3];
    let w = WriteHandler::new().request(&FlashOptions { verify: true, ..options(8, None) }, &data);
    assert_eq!(w.address, Address::new(8));
    assert_eq!(w.data, &data[..]);
    assert!(w.verify);
    let v = VerifyHandler::new().request(&options(4, None), &data);
    assert_eq!(v.length, 3);
}

#[test]
fn verify_check_reports_the_first_difference() {
    let h = VerifyHandler::new();
    assert_eq!(h.check(0x100, &[1, 2, 3], &[1, 2, 3]), Ok(()));
    assert_eq!(
        h.check(0x100, &[1, 2, 3, 4], &[1, 9, 3, 8]),
        Err(Error::VerificationFailed { address: 0x101, expected: 2, actual: 9 })
    );
    assert!(matches!(h.check(0, &[1, 2, 3], &[1, 2]), Err(Error::Other(_))));
    assert!(matches!(h.check(0, &[], &[0xFF]), Err(Error::Other(_))));
    assert_eq!(h.check(0, &[], &[]), Ok(()));
}

#[test]
fn handlers_write_read_verify_erase_on_the_simulator() {
    let spec = nand_spec();
    let mut flash = nand();
    let data: Vec<u8> = (0..3000u32).map(|i| (i % 251) as u8).collect();
    WriteHandler::new().handle(&mut flash, &data, options(PAGE, None), &|_| {}).unwrap();
    let back = ReadHandler::new().handle(&mut flash, &spec, options(PAGE, Some(3000)), &|_| {}).unwrap();
    assert_eq!(back, data);
    VerifyHandler::new().handle(&mut flash, &data, options(PAGE, None), &|_| {}).unwrap();
    let mut other = data.clone();
    other[10] ^= 0xFF;
    assert_eq!(
        VerifyHandler::new().handle(&mut flash, &other, options(PAGE, None), &|_| {}),
        Err(Error::VerificationFailed { address: PAGE + 10, expected: other[10], actual: data[10] })
    );
    EraseHandler::new().handle(&mut flash, &spec, options(0, Some(BLOCK)), &|_| {}).unwrap();
    let back = ReadHandler::new().handle(&mut flash, &spec, options(PAGE, Some(3000)), &|_| {}).unwrap();
    assert!(back.iter().all(|b| *b == 0xFF));
}
