use std::cell::RefCell;

use nander_rs::domain::bad_block::BadBlockStrategy;
use nander_rs::domain::chip::{ChipCapabilities, ChipLayout, ChipSpec};
use nander_rs::domain::types::{Capacity, FlashType, JedecId};
use nander_rs::domain::{
    Address, EraseRequest, FlashOperation, OobMode, Progress, ReadRequest, WriteRequest,
};
use nander_rs::Error;
use nander_rs::infrastructure::flash_protocol::nor::SpiNor;
use nander_rs::infrastructure::programmer::mock::MockProgrammer;
use nander_rs::infrastructure::programmer::Programmer;

/// Create a test chip spec for a typical NOR flash (W25Q64)
fn create_test_nor_spec() -> ChipSpec {
    ChipSpec {
        name: "W25Q64".to_string(),
        manufacturer: "Winbond".to_string(),
        jedec_id: JedecId::new([0xEF, 0x40, 0x17]),
        flash_type: FlashType::Nor,
        capacity: Capacity::megabytes(8),
        layout: ChipLayout {
            page_size: 256,
            block_size: 64 * 1024, // 64KB
            oob_size: None,
            is_dataflash: false,
        },
        capabilities: ChipCapabilities::default(),
        otp: None,
    }
}

#[test]
fn test_nor_read_basic() {
    let mut mock = MockProgrammer::new();
    let spec = create_test_nor_spec();

    // spi_transaction sends the command (one transfer, answer ignored) and
    // then reads the data (one transfer, answer returned).
    mock.expect_read(vec![0xFF; 5]); // command + address + dummy, ignored
    let test_data = vec![0xDE, 0xAD, 0xBE, 0xEF];
    mock.expect_read(test_data.clone()); // the data

    let mut nor = SpiNor::new(mock, spec);

    let request = ReadRequest {
        address: Address::new(0),
        length: 4,
        use_ecc: false,
        ignore_ecc_errors: false,
        oob_mode: OobMode::Excluded,
        bad_block_strategy: BadBlockStrategy::Fail,
        bbt: None,
        retry_count: 0,
    };

    let result = nor.read(request, &|_| {}).unwrap();

    assert_eq!(result, vec![0xDE, 0xAD, 0xBE, 0xEF]);
}

#[test]
fn test_nor_read_progress_callback() {
    let mut mock = MockProgrammer::new();
    let spec = create_test_nor_spec();

    // Chunk 1: command (5 bytes) + data
    mock.expect_read(vec![0xFF; 5]);
    mock.expect_read(vec![0x00; 4095]);
    // Chunk 2: command (5 bytes) + data
    mock.expect_read(vec![0xFF; 5]);
    mock.expect_read(vec![0x00; 4095]);

    let mut nor = SpiNor::new(mock, spec);

    let request = ReadRequest {
        address: Address::new(0),
        length: 8190, // Two chunks worth
        use_ecc: false,
        ignore_ecc_errors: false,
        oob_mode: OobMode::Excluded,
        bad_block_strategy: BadBlockStrategy::Fail,
        bbt: None,
        retry_count: 0,
    };

    let progress_calls = RefCell::new(Vec::new());
    let result = nor.read(request, &|p: Progress| {
        progress_calls.borrow_mut().push((p.current, p.total));
    });

    assert!(result.is_ok());
    let calls = progress_calls.borrow();
    assert!(
        calls.len() >= 2,
        "Expected at least 2 progress calls, got {}",
        calls.len()
    );
    if let Some(last) = calls.last() {
        assert_eq!(last.0, last.1, "Final progress should show completion");
    }
}

#[test]
fn test_nor_spec_access() {
    let mock = MockProgrammer::new();
    let spec = create_test_nor_spec();
    let nor = SpiNor::new(mock, spec);

    assert_eq!(nor.spec().name, "W25Q64");
    assert_eq!(nor.spec().flash_type, FlashType::Nor);
    assert_eq!(nor.spec().capacity.as_megabytes(), 8);
}

#[test]
fn test_mock_programmer_transactions() {
    let mut mock = MockProgrammer::new();

    // Verify CS control logging
    mock.set_cs(true).unwrap();
    assert!(mock.is_cs_active());
    mock.set_cs(false).unwrap();
    assert!(!mock.is_cs_active());

    // Verify transfers are logged
    mock.expect_read(vec![0xAB, 0xCD]);
    let mut rx = [0u8; 2];
    mock.spi_transfer(&[0x9F, 0x00], &mut rx).unwrap();
    assert_eq!(rx, [0xAB, 0xCD]);

    let writes = mock.get_writes();
    assert!(!writes.is_empty());
}

#[test]
fn nor_read_reports_each_piece() {
    let mut mock = MockProgrammer::new();
    mock.expect_read(vec![0xFF; 5]);
    mock.expect_read(vec![0x00; 4095]);
    mock.expect_read(vec![0xFF; 5]);
    mock.expect_read(vec![0x00; 4095]);
    let mut nor = SpiNor::new(mock, create_test_nor_spec());
    let request = ReadRequest {
        address: Address::new(0),
        length: 8190,
        use_ecc: false,
        ignore_ecc_errors: false,
        oob_mode: OobMode::Excluded,
        bad_block_strategy: BadBlockStrategy::Fail,
        bbt: None,
        retry_count: 0,
    };
    let calls = RefCell::new(Vec::new());
    let result = nor.read(request, &|p: Progress| calls.borrow_mut().push((p.current, p.total)));
    assert!(result.is_ok());
    assert_eq!(*calls.borrow(), vec![(4096, 8190), (8190, 8190)]);
}

#[test]
fn nor_unaligned_erase_reports_nothing() {
    let mock = MockProgrammer::new();
    let mut nor = SpiNor::new(mock, create_test_nor_spec());
    let request = EraseRequest {
        address: Address::new(0x100),
        length: 0x10000,
        bad_block_strategy: BadBlockStrategy::Fail,
        bbt: None,
    };
    let calls = RefCell::new(Vec::new());
    let result = nor.erase(request, &|p: Progress| calls.borrow_mut().push((p.current, p.total)));
    assert!(matches!(result, Err(Error::InvalidParameter(_))));
    assert!(calls.borrow().is_empty());
    assert!(nor.into_device().get_writes().is_empty());
}

#[test]
fn nor_write_reports_each_page_piece() {
    let mut mock = MockProgrammer::new();
    // Empty answers leave the receive buffers zeroed: every status poll reads "ready"
    mock.expect_reads(vec![Vec::new(); 32]);
    let mut nor = SpiNor::new(mock, create_test_nor_spec());
    let data = vec![0x5A; 32];
    let request = WriteRequest {
        address: Address::new(0xF0),
        data: &data,
        use_ecc: false,
        verify: false,
        ignore_ecc_errors: false,
        oob_mode: OobMode::Excluded,
        bad_block_strategy: BadBlockStrategy::Fail,
        bbt: None,
        retry_count: 0,
    };
    let calls = RefCell::new(Vec::new());
    let result = nor.write(request, &|p: Progress| calls.borrow_mut().push((p.current, p.total)));
    assert!(result.is_ok());
    assert_eq!(*calls.borrow(), vec![(16, 32), (32, 32)]);
    let writes = nor.into_device().get_writes();
    // The two page programs start at 0xF0 and at the next page, 0x100
    assert!(writes.contains(&vec![0x02, 0x00, 0x00, 0xF0]));
    assert!(writes.contains(&vec![0x02, 0x00, 0x01, 0x00]));
    assert_eq!(writes.iter().filter(|w| **w == vec![0x5A; 16]).count(), 2);
}
