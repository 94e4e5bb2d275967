use nander_rs::domain::{
    Address, BadBlockStrategy, Capacity, ChipCapabilities, ChipLayout, ChipSpec, EraseRequest,
    FlashOperation, FlashType, JedecId, OobMode, ReadRequest, WriteRequest,
};
use nander_rs::infrastructure::flash_protocol::nand::SpiNand;
use nander_rs::infrastructure::programmer::simulator::SimulatedProgrammer;

#[test]
fn test_e2e_nand_lifecycle() {
    // 1. Setup Simulator
    // 128MB Flash, 2KB Page, 128KB Block
    let page_size = 2048;
    let block_size = 128 * 1024;
    let capacity_bytes = 128 * 1024 * 1024;

    let programmer = SimulatedProgrammer::new(capacity_bytes, page_size, block_size);

    // 2. Setup Chip Spec
    let spec = ChipSpec {
        name: "Simulated NAND".to_string(),
        manufacturer: "Simulated".to_string(),
        jedec_id: JedecId::new([0xEF, 0xAA, 0x21]), // ID matched by simulator
        flash_type: FlashType::Nand,
        capacity: Capacity::bytes(capacity_bytes as u32),
        layout: ChipLayout {
            page_size,
            block_size,
            oob_size: Some(64),
            is_dataflash: false,
        },
        capabilities: ChipCapabilities::default(),
        otp: None,
    };

    // 3. Create Protocol Layer
    let mut flash = SpiNand::new(programmer, spec);

    // Erase Block 0
    println!("Step 1: Erasing Block 0");
    let erase_request = EraseRequest {
        address: Address::new(0),
        length: block_size,
        bad_block_strategy: BadBlockStrategy::Fail,
        bbt: None,
    };
    flash.erase(erase_request, &|_| {}).expect("Erase failed");

    // Write Data to Page 0
    println!("Step 2: Writing Data to Page 0");
    let test_data = vec![0xAB; 512]; // Partial page write
    let write_request = WriteRequest {
        address: Address::new(0),
        data: &test_data,
        use_ecc: true,
        verify: true,
        ignore_ecc_errors: false,
        oob_mode: OobMode::Excluded,
        bad_block_strategy: BadBlockStrategy::Fail,
        bbt: None,
        retry_count: 0,
    };
    flash.write(write_request, &|_| {}).expect("Write failed");

    // Read Back
    println!("Step 3: Reading Back");
    let read_request = ReadRequest {
        address: Address::new(0),
        length: 512,
        use_ecc: true,
        ignore_ecc_errors: false,
        oob_mode: OobMode::Excluded,
        bad_block_strategy: BadBlockStrategy::Fail,
        bbt: None,
        retry_count: 0,
    };
    let read_data = flash.read(read_request, &|_| {}).expect("Read failed");

    assert_eq!(read_data, test_data, "Read data mismatch");
}
