use nander_rs::infrastructure::programmer::mock::MockProgrammer;
use nander_rs::infrastructure::programmer::Programmer;

#[test]
fn test_mock_programmer_basic() {
    let mut mock = MockProgrammer::new();

    // Test CS control
    assert!(!mock.is_cs_active());
    mock.set_cs(true).unwrap();
    assert!(mock.is_cs_active());
    mock.set_cs(false).unwrap();
    assert!(!mock.is_cs_active());
}

#[test]
fn test_mock_programmer_transfer() {
    let mut mock = MockProgrammer::new();

    // Configure expected read response
    mock.expect_read(vec![0x9F, 0xEF, 0xAA, 0x21]);

    // Do transfer
    let mut rx = [0u8; 4];
    mock.spi_transfer(&[0x9F, 0x00, 0x00, 0x00], &mut rx).unwrap();

    // Verify response
    assert_eq!(rx, [0x9F, 0xEF, 0xAA, 0x21]);

    // Verify write was logged
    let writes = mock.get_writes();
    assert_eq!(writes.len(), 1);
    assert_eq!(writes[0], vec![0x9F, 0x00, 0x00, 0x00]);
}

#[test]
fn test_mock_programmer_multiple_reads() {
    let mut mock = MockProgrammer::new();

    // Configure multiple responses
    mock.expect_reads(vec![vec![0x01], vec![0x02], vec![0x03]]);

    // Read them in order
    let r1 = mock.spi_read(1).unwrap();
    let r2 = mock.spi_read(1).unwrap();
    let r3 = mock.spi_read(1).unwrap();

    assert_eq!(r1, vec![0x01]);
    assert_eq!(r2, vec![0x02]);
    assert_eq!(r3, vec![0x03]);
}
