use nander_rs::domain::chip::{ChipCapabilities, ChipLayout, ChipSpec};
use nander_rs::domain::types::{Capacity, FlashType, JedecId};
use nander_rs::infrastructure::flash_protocol::nor::SpiNor;
use nander_rs::infrastructure::programmer::mock::MockProgrammer;
use nander_rs::presentation::cli::handlers::passthrough_handler::PassthroughOutcome;
use nander_rs::presentation::cli::handlers::protect_handler::{ProtectReport, StatusReport};
use nander_rs::presentation::cli::handlers::{PassthroughHandler, ProtectHandler};
use nander_rs::Error;

fn nor_spec() -> ChipSpec {
    ChipSpec {
        name: "W25Q64".to_string(),
        manufacturer: "Winbond".to_string(),
        jedec_id: JedecId::new([0xEF, 0x40, 0x17]),
        flash_type: FlashType::Nor,
        capacity: Capacity::megabytes(8),
        layout: ChipLayout {
            page_size: 256,
            block_size: 64 * 1024,
            oob_size: None,
            is_dataflash: false,
        },
        capabilities: ChipCapabilities::default(),
        otp: None,
    }
}

/// A NOR chip whose status register reads `status` once.
fn nor_with_status(status: u8) -> SpiNor<MockProgrammer> {
    let mut mock = MockProgrammer::new();
    mock.expect_read(vec![0xFF]); // answer to the READ STATUS opcode
    mock.expect_read(vec![status]);
    SpiNor::new(mock, nor_spec())
}

#[test]
fn protect_status_reports_bp_bits() {
    let handler = ProtectHandler::new();
    let mut nor = nor_with_status(0x1C);
    match handler.handle_protect(&mut nor, FlashType::Nor, "status").unwrap() {
        ProtectReport::Status { registers, locked } => {
            assert_eq!(registers, vec![0x1C]);
            assert!(locked);
        }
        other => panic!("unexpected report {:?}", other),
    }
    let mut nor = nor_with_status(0x02);
    match handler.handle_protect(&mut nor, FlashType::Nor, "status").unwrap() {
        ProtectReport::Status { locked, .. } => assert!(!locked),
        other => panic!("unexpected report {:?}", other),
    }
}

#[test]
fn protect_enable_sets_bp_bits_and_writes_them() {
    let handler = ProtectHandler::new();
    let mut mock = MockProgrammer::new();
    mock.expect_read(vec![0xFF]);
    mock.expect_read(vec![0x02]); // status before: WEL only
    mock.expect_read(vec![0xFF]); // WRITE ENABLE
    mock.expect_read(vec![0xFF, 0xFF]); // WRITE STATUS
    mock.expect_read(vec![0xFF]);
    mock.expect_read(vec![0x00]); // ready
    let mut nor = SpiNor::new(mock, nor_spec());
    match handler.handle_protect(&mut nor, FlashType::Nor, "enable").unwrap() {
        ProtectReport::Changed { enable, before, written } => {
            assert!(enable);
            assert_eq!(before, vec![0x02]);
            assert_eq!(written, vec![0x3E]);
        }
        other => panic!("unexpected report {:?}", other),
    }
    let writes = nor.programmer_mut().get_writes();
    assert!(writes.contains(&vec![0x01, 0x3E]));
}

#[test]
fn protect_disable_clears_bp_bits() {
    let handler = ProtectHandler::new();
    let mut mock = MockProgrammer::new();
    mock.expect_read(vec![0xFF]);
    mock.expect_read(vec![0xBC]);
    mock.expect_read(vec![0xFF]);
    mock.expect_read(vec![0xFF, 0xFF]);
    mock.expect_read(vec![0xFF]);
    mock.expect_read(vec![0x00]);
    let mut nor = SpiNor::new(mock, nor_spec());
    match handler.handle_protect(&mut nor, FlashType::Nor, "disable").unwrap() {
        ProtectReport::Changed { enable, written, .. } => {
            assert!(!enable);
            assert_eq!(written, vec![0x80]);
        }
        other => panic!("unexpected report {:?}", other),
    }
}

#[test]
fn protect_rejects_unknown_operation_and_unsupported_chips() {
    let handler = ProtectHandler::new();
    let mut nor = nor_with_status(0x00);
    assert!(handler.handle_protect(&mut nor, FlashType::Nor, "toggle").is_err());
    let mut nor = nor_with_status(0x00);
    assert_eq!(
        handler.handle_protect(&mut nor, FlashType::I2cEeprom, "status").unwrap_err(),
        Error::NotSupported("Protect command not supported for this flash type".to_string())
    );
    // nothing was sent for an unsupported chip kind
    assert!(nor.programmer_mut().get_writes().is_empty());
}

#[test]
fn status_read_and_write() {
    let handler = ProtectHandler::new();
    let mut nor = nor_with_status(0x40);
    match handler.handle_status(&mut nor, FlashType::Nor, None).unwrap() {
        StatusReport::Read(v) => assert_eq!(v, vec![0x40]),
        other => panic!("unexpected report {:?}", other),
    }

    let mut mock = MockProgrammer::new();
    mock.expect_read(vec![0xFF]);
    mock.expect_read(vec![0xFF, 0xFF]);
    mock.expect_read(vec![0xFF]);
    mock.expect_read(vec![0x00]);
    let mut nor = SpiNor::new(mock, nor_spec());
    match handler.handle_status(&mut nor, FlashType::Nor, Some("0x02".to_string())).unwrap() {
        StatusReport::Written(v) => assert_eq!(v, vec![0x02]),
        other => panic!("unexpected report {:?}", other),
    }
    assert!(nor.programmer_mut().get_writes().contains(&vec![0x01, 0x02]));
}

#[test]
fn status_rejects_bad_hex_and_unsupported_chips() {
    let handler = ProtectHandler::new();
    let mut nor = nor_with_status(0x00);
    assert_eq!(
        handler.handle_status(&mut nor, FlashType::Nor, Some("0x2".to_string())).unwrap_err(),
        Error::Validation("Invalid hex value: Odd number of digits".to_string())
    );
    assert!(matches!(
        handler.handle_status(&mut nor, FlashType::Nor, Some("zz".to_string())),
        Err(Error::Validation(_))
    ));
    assert_eq!(
        handler.handle_status(&mut nor, FlashType::MicrowireEeprom, None).unwrap_err(),
        Error::NotSupported("Status access not implemented for this flash type".to_string())
    );
}

#[test]
fn passthrough_spi_write_then_read() {
    let handler = PassthroughHandler::new();
    let mut mock = MockProgrammer::new();
    mock.expect_read(vec![0xFF]); // answer while the opcode is sent
    mock.expect_read(vec![0xEF, 0x40, 0x17]);
    let out = handler
        .handle(&mut mock, Some(3), "SPI", Some("0x9F".to_string()), 3, None)
        .unwrap();
    match out {
        PassthroughOutcome::Spi { tx_len, rx } => {
            assert_eq!(tx_len, 1);
            assert_eq!(rx, vec![0xEF, 0x40, 0x17]);
        }
        other => panic!("unexpected outcome {:?}", other),
    }
    assert_eq!(mock.get_writes()[0], vec![0x9F]);
}

#[test]
fn passthrough_spi_write_only_read_only_and_idle() {
    let handler = PassthroughHandler::new();
    let mut mock = MockProgrammer::new();
    let out = handler
        .handle(&mut mock, None, "spi", Some("06".to_string()), 0, None)
        .unwrap();
    assert!(matches!(out, PassthroughOutcome::Spi { tx_len: 1, ref rx } if rx.is_empty()));
    assert_eq!(mock.get_writes(), vec![vec![0x06]]);

    let mut mock = MockProgrammer::new();
    mock.expect_read(vec![0x12, 0x34]);
    let out = handler.handle(&mut mock, None, "spi", None, 2, None).unwrap();
    assert!(matches!(out, PassthroughOutcome::Spi { tx_len: 0, ref rx } if *rx == vec![0x12, 0x34]));

    let mut mock = MockProgrammer::new();
    let out = handler.handle(&mut mock, None, "spi", None, 0, None).unwrap();
    assert!(matches!(out, PassthroughOutcome::Idle));
    assert!(mock.get_writes().is_empty());
}

#[test]
fn passthrough_errors() {
    let handler = PassthroughHandler::new();
    let mut mock = MockProgrammer::new();
    assert_eq!(
        handler
            .handle(&mut mock, None, "spi", Some("0xABC".to_string()), 0, None)
            .unwrap_err(),
        Error::InvalidParameter("Invalid hex string: Odd number of digits".to_string())
    );
    assert!(matches!(
        handler.handle(&mut mock, None, "uart", None, 1, None),
        Err(Error::InvalidParameter(_))
    ));
    assert!(matches!(
        handler.handle(&mut mock, None, "i2c", None, 1, None),
        Err(Error::InvalidParameter(_))
    ));
    assert!(matches!(
        handler.handle(&mut mock, None, "i2c", None, 1, Some("0xZZ".to_string())),
        Err(Error::InvalidParameter(_))
    ));
    // the mock has no I2C bus
    assert!(matches!(
        handler.handle(&mut mock, None, "i2c", Some("00".to_string()), 0, Some("0x50".to_string())),
        Err(Error::NotSupported(_))
    ));
    assert!(mock.get_writes().is_empty());
}

#[test]
fn passthrough_i2c_address_forms() {
    let handler = PassthroughHandler::new();
    let mut mock = MockProgrammer::new();
    let out = handler
        .handle(&mut mock, None, "I2C", None, 0, Some("0x50".to_string()))
        .unwrap();
    assert!(matches!(out, PassthroughOutcome::I2c { addr: 0x50, tx_len: 0, rx: None }));
    let out = handler
        .handle(&mut mock, None, "i2c", None, 0, Some("80".to_string()))
        .unwrap();
    assert!(matches!(out, PassthroughOutcome::I2c { addr: 80, tx_len: 0, rx: None }));
    assert!(handler
        .handle(&mut mock, None, "i2c", None, 0, Some("300".to_string()))
        .is_err());
}
