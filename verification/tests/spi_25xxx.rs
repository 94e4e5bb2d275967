use std::cell::RefCell;

use nander_rs::domain::bad_block::BadBlockStrategy;
use nander_rs::domain::{
    Address, Capacity, ChipCapabilities, ChipLayout, ChipSpec, EraseRequest, FlashOperation, FlashType,
    JedecId, Progress,
};
use nander_rs::infrastructure::flash_protocol::eeprom::spi_25xxx::SpiEeprom;
use nander_rs::infrastructure::programmer::mock::MockProgrammer;
use nander_rs::infrastructure::flash_protocol::eeprom::spi_25xxx::AddressMode;

#[test]
fn test_address_mode_from_capacity() {
    // 1-byte address devices
    assert_eq!(AddressMode::from_capacity(128), AddressMode::OneByte);
    assert_eq!(AddressMode::from_capacity(256), AddressMode::OneByte);
    assert_eq!(AddressMode::from_capacity(512), AddressMode::OneByte);

    // 2-byte address devices
    assert_eq!(AddressMode::from_capacity(1024), AddressMode::TwoByte);
    assert_eq!(AddressMode::from_capacity(2048), AddressMode::TwoByte);
    assert_eq!(AddressMode::from_capacity(65536), AddressMode::TwoByte);

    // 3-byte address devices
    assert_eq!(AddressMode::from_capacity(131072), AddressMode::ThreeByte);
}

#[test]
fn test_address_bytes() {
    assert_eq!(AddressMode::OneByte.address_bytes(), 1);
    assert_eq!(AddressMode::TwoByte.address_bytes(), 2);
    assert_eq!(AddressMode::ThreeByte.address_bytes(), 3);
}

fn small_eeprom_spec() -> ChipSpec {
    ChipSpec {
        name: "25LC512-like".to_string(),
        manufacturer: "Test".to_string(),
        jedec_id: JedecId::new([0x00, 0x00, 0x00]),
        flash_type: FlashType::SpiEeprom,
        capacity: Capacity::bytes(64),
        layout: ChipLayout { page_size: 16, block_size: 16, oob_size: None, is_dataflash: false },
        capabilities: ChipCapabilities::default(),
        otp: None,
    }
}

#[test]
fn spi_eeprom_erase_reports_each_page() {

    let mut mock = MockProgrammer::new();
    // Empty answers leave the receive buffers zeroed: every status poll reads "ready"
    mock.expect_reads(vec![Vec::new(); 64]);
    let mut eeprom = SpiEeprom::new(mock, small_eeprom_spec());
    let request = EraseRequest {
        address: Address::new(0),
        length: 64,
        bad_block_strategy: BadBlockStrategy::Fail,
        bbt: None,
    };
    let calls = RefCell::new(Vec::new());
    let result = eeprom.erase(request, &|p: Progress| calls.borrow_mut().push((p.current, p.total)));
    assert!(result.is_ok());
    assert_eq!(*calls.borrow(), vec![(16, 64), (32, 64), (48, 64), (64, 64)]);
}
