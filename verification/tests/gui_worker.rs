use nander_rs::domain::{
    Address, BadBlockStrategy, Capacity, ChipCapabilities, ChipLayout, ChipSpec, FlashOperation,
    FlashType, JedecId, OobMode, ReadRequest, WriteRequest,
};
use nander_rs::infrastructure::flash_protocol::nand::SpiNand;
use nander_rs::infrastructure::programmer::simulator::SimulatedProgrammer;
use nander_rs::presentation::cli::input::parse_hex_bytes;
use nander_rs::presentation::gui::messages::GuiMessage;
use nander_rs::presentation::gui::worker::{
    apply_worker_message, decimal_text, gui_read_request, operation_reply, read_reply, worker_step,
    GuiState, WorkerAction, WorkerMessage,
};

fn nand_spec(capacity: u32, page: u32, block: u32) -> ChipSpec {
    ChipSpec {
        name: "Simulated NAND".to_string(),
        manufacturer: "Simulated".to_string(),
        jedec_id: JedecId::new([0xEF, 0xAA, 0x21]),
        flash_type: FlashType::Nand,
        capacity: Capacity::bytes(capacity),
        layout: ChipLayout { page_size: page, block_size: block, oob_size: Some(64), is_dataflash: false },
        capabilities: ChipCapabilities::default(),
        otp: None,
    }
}

fn empty_state() -> GuiState {
    GuiState {
        status_text: "Ready".to_string(),
        programmer_name: None,
        chip_spec: None,
        is_busy: true,
        logs: Vec::new(),
        logs_open: false,
        preview_data: Vec::new(),
        serial_connected: false,
        serial_port_name: None,
        console_rx_buffer: Vec::new(),
        console_tx_count: 0,
        console_rx_count: 0,
        console_timestamp: false,
    }
}

#[test]
fn nand_read_starts_at_unaligned_address() {
    let mut flash = SpiNand::new(SimulatedProgrammer::new(4 * 1024 * 1024, 2048, 128 * 1024), nand_spec(4 * 1024 * 1024, 2048, 128 * 1024));
    let data: Vec<u8> = (0..4096u32).map(|i| (i % 251) as u8).collect();
    let w = WriteRequest {
        address: Address::new(0),
        data: &data,
        use_ecc: false,
        verify: false,
        ignore_ecc_errors: false,
        oob_mode: OobMode::Excluded,
        bad_block_strategy: BadBlockStrategy::Fail,
        bbt: None,
        retry_count: 0,
    };
    flash.write(w, &|_| {}).expect("write");
    let r = ReadRequest {
        address: Address::new(2000),
        length: 100,
        use_ecc: false,
        ignore_ecc_errors: false,
        oob_mode: OobMode::Excluded,
        bad_block_strategy: BadBlockStrategy::Fail,
        bbt: None,
        retry_count: 0,
    };
    let got = flash.read(r, &|_| {}).expect("read");
    assert_eq!(got, data[2000..2100].to_vec());
}

#[test]
fn worker_without_programmer_answers_not_connected() {
    match worker_step(false, &GuiMessage::DetectChip) {
        WorkerAction::Reply(WorkerMessage::ConnectionFailed(t)) => assert_eq!(t, "Not connected"),
        _ => panic!("unexpected action"),
    }
    match worker_step(false, &GuiMessage::EraseFlash { start: 0, length: None }) {
        WorkerAction::Reply(WorkerMessage::OperationFailed(t)) => assert_eq!(t, "Not connected"),
        _ => panic!("unexpected action"),
    }
    assert!(matches!(worker_step(false, &GuiMessage::SetSpeed(3)), WorkerAction::Nothing));
    match worker_step(true, &GuiMessage::Cancel) {
        WorkerAction::Reply(WorkerMessage::Log(t)) => {
            assert_eq!(t, "Cancellation ignored (not implemented)")
        }
        _ => panic!("unexpected action"),
    }
    assert!(matches!(
        worker_step(true, &GuiMessage::ReadFlash { path: "a.bin".to_string(), start: 16, length: None }),
        WorkerAction::Read { start: 16, length: None, .. }
    ));
}

#[test]
fn worker_reads_rest_of_chip_with_fixed_settings() {
    let spec = nand_spec(1 << 20, 2048, 128 * 1024);
    let r = gui_read_request(&spec, 0x1000, None);
    assert_eq!(r.length, (1 << 20) - 0x1000);
    assert!(r.use_ecc);
    assert_eq!(r.retry_count, 3);
    assert_eq!(r.bad_block_strategy, BadBlockStrategy::Skip);
}

#[test]
fn worker_replies() {
    assert!(matches!(operation_reply(Ok(())), WorkerMessage::OperationComplete));
    match read_reply(Ok(vec![1, 2]), Some("disk full".to_string())) {
        WorkerMessage::OperationFailed(t) => assert_eq!(t, "File error: disk full"),
        _ => panic!("unexpected reply"),
    }
    assert!(matches!(read_reply(Ok(vec![1, 2]), None), WorkerMessage::DataRead(_)));
}

#[test]
fn window_takes_in_answers() {
    let mut s = empty_state();
    let next = apply_worker_message(&mut s, WorkerMessage::Connected("CH341A".to_string()), "[t] ", b"");
    assert!(matches!(next, Some(GuiMessage::DetectChip)));
    assert_eq!(s.programmer_name.as_deref(), Some("CH341A"));
    assert_eq!(s.logs, vec!["[t] Programmer connected".to_string()]);
    apply_worker_message(&mut s, WorkerMessage::DataRead(vec![0u8; 1234]), "[t] ", b"");
    assert_eq!(s.logs[1], "[t] Read 1234 bytes successfully");
    assert_eq!(s.status_text, "Ready");
    assert!(!s.is_busy);
    apply_worker_message(&mut s, WorkerMessage::OperationFailed("boom".to_string()), "", b"");
    assert_eq!(s.logs[2], "Operation failed: boom");
    assert!(s.logs_open);
    for _ in 0..1200 {
        apply_worker_message(&mut s, WorkerMessage::Log("x".to_string()), "", b"");
    }
    assert_eq!(s.logs.len(), 1000);
    s.console_timestamp = true;
    apply_worker_message(&mut s, WorkerMessage::SerialDataReceived(vec![7; 70000]), "", b"TS ");
    assert_eq!(s.console_rx_buffer.len(), 65536);
    assert_eq!(s.console_rx_count, 70000);
}

#[test]
fn decimal_text_writes_numbers() {
    assert_eq!(decimal_text(0), "0");
    assert_eq!(decimal_text(1234), "1234");
    assert_eq!(decimal_text(u64::MAX), u64::MAX.to_string());
}

#[test]
fn hex_errors_carry_the_crate_text() {
    assert_eq!(parse_hex_bytes("abc", false), Err("Odd number of digits".to_string()));
    assert_eq!(
        parse_hex_bytes("zz", false),
        Err("Invalid character 'z' at position 0".to_string())
    );
}
