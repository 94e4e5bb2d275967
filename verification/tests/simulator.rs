use nander_rs::infrastructure::programmer::simulator::SimulatedProgrammer;
use nander_rs::infrastructure::programmer::Programmer;

#[test]
fn simulator_transfer_fills_a_shorter_buffer() {
    let mut sim = SimulatedProgrammer::new(4096, 256, 1024);
    sim.set_cs(true).unwrap();
    let mut rx = [0u8; 2];
    sim.spi_transfer(&[0x9F, 0x00, 0x00, 0x00], &mut rx).unwrap();
    sim.set_cs(false).unwrap();
    assert_eq!(rx, [0xFF, 0xEF]);
}

#[test]
fn simulator_transfer_leaves_the_rest_of_a_longer_buffer() {
    let mut sim = SimulatedProgrammer::new(4096, 256, 1024);
    sim.set_cs(true).unwrap();
    let mut rx = [0xAAu8; 5];
    sim.spi_transfer(&[0x9F, 0x00], &mut rx).unwrap();
    sim.set_cs(false).unwrap();
    assert_eq!(rx, [0xFF, 0xEF, 0xAA, 0xAA, 0xAA]);
}

#[test]
fn simulator_program_execute_needs_write_enable() {
    let mut sim = SimulatedProgrammer::new(4096, 256, 1024);
    // Load a page image of zeros into the cache
    let mut load = vec![0x02, 0x00, 0x00];
    load.extend(std::iter::repeat(0x00).take(256));
    sim.set_cs(true).unwrap();
    sim.spi_write(&load).unwrap();
    sim.set_cs(false).unwrap();
    // PROGRAM EXECUTE of page 1 without WRITE ENABLE changes nothing
    sim.set_cs(true).unwrap();
    sim.spi_write(&[0x10, 0x00, 0x00, 0x01]).unwrap();
    sim.set_cs(false).unwrap();
    assert_eq!(sim.get_memory(), vec![0xFF; 4096]);
    // WRITE DISABLE after WRITE ENABLE clears the latch again
    sim.set_cs(true).unwrap();
    sim.spi_write(&[0x06]).unwrap();
    sim.set_cs(false).unwrap();
    sim.set_cs(true).unwrap();
    sim.spi_write(&[0x04]).unwrap();
    sim.set_cs(false).unwrap();
    sim.set_cs(true).unwrap();
    sim.spi_write(&[0x10, 0x00, 0x00, 0x01]).unwrap();
    sim.set_cs(false).unwrap();
    assert_eq!(sim.get_memory(), vec![0xFF; 4096]);
    // With the latch set, the page is programmed and the latch clears
    sim.set_cs(true).unwrap();
    sim.spi_write(&[0x06]).unwrap();
    sim.set_cs(false).unwrap();
    sim.set_cs(true).unwrap();
    sim.spi_write(&[0x10, 0x00, 0x00, 0x01]).unwrap();
    sim.set_cs(false).unwrap();
    let mem = sim.get_memory();
    assert!(mem[256..512].iter().all(|&b| b == 0x00));
    assert!(mem[..256].iter().all(|&b| b == 0xFF));
    sim.set_cs(true).unwrap();
    sim.spi_write(&[0x10, 0x00, 0x00, 0x02]).unwrap();
    sim.set_cs(false).unwrap();
    assert!(sim.get_memory()[512..768].iter().all(|&b| b == 0xFF));
}
