use nander_rs::infrastructure::programmer::ch341a::protocol as ch341a;
use nander_rs::infrastructure::programmer::ch347::protocol as ch347;
use nander_rs::infrastructure::programmer::ftdi::mpsse;

#[test]
fn ch341a_speed_from_u8_and_default() {
    assert_eq!(ch341a::SpiSpeed::from_u8(0), ch341a::SpiSpeed::Speed208K);
    assert_eq!(ch341a::SpiSpeed::from_u8(7), ch341a::SpiSpeed::Speed12M);
    assert_eq!(ch341a::SpiSpeed::from_u8(8), ch341a::SpiSpeed::Medium);
    assert_eq!(ch341a::SpiSpeed::from_u8(255), ch341a::SpiSpeed::default());
    assert_eq!(ch341a::SpiSpeed::from_u8(4).code(), 4);
    assert_eq!(ch341a::SpiSpeed::Medium.description(), "~3 MHz");
    assert_eq!(ch341a::SpiSpeed::Speed208K.description(), "~21 kHz");
}

#[test]
fn ch341a_set_mode_cmd_bytes() {
    let cmd = ch341a::build_set_mode_cmd(ch341a::SpiSpeed::Medium);
    assert_eq!(cmd, vec![0xAB, 0x80 | 0x37, 0x40 | 0x3B, 0xC0 | 5, 0x20]);
    let cmd = ch341a::build_set_mode_cmd(ch341a::SpiSpeed::Speed12M);
    assert_eq!(cmd[3], 0xC7);
}

#[test]
fn ch341a_cs_and_uio_cmds() {
    assert_eq!(ch341a::build_cs_cmd(true), vec![0xAB, 0xB6, 0x20]);
    assert_eq!(ch341a::build_cs_cmd(false), vec![0xAB, 0xB7, 0x20]);
    assert_eq!(ch341a::build_uio_out_cmd(0xFF), vec![0xAB, 0x80 | 0x3F, 0x20]);
}

#[test]
fn ch341a_gpio_cmd_sets_and_clears_one_pin() {
    assert_eq!(ch341a::build_gpio_cmd(4, true, 0x07), vec![0xAB, 0x80 | 0x17, 0x20]);
    assert_eq!(ch341a::build_gpio_cmd(0, false, 0x37), vec![0xAB, 0x80 | 0x36, 0x20]);
    // bits above the six outputs are masked off
    assert_eq!(ch341a::build_gpio_cmd(7, true, 0x00), vec![0xAB, 0x80, 0x20]);
}

#[test]
fn ch341a_transfer_and_stream_cmds() {
    assert_eq!(ch341a::build_spi_transfer_cmd(&[1, 2, 3]), vec![0xA8, 1, 2, 3]);
    assert_eq!(ch341a::build_spi_transfer_cmd(&[]), vec![0xA8]);
    assert_eq!(ch341a::build_spi_stream_cmd(3), vec![0xA8, 0xFF, 0xFF, 0xFF]);
}

#[test]
fn ch341a_chunking() {
    let data: Vec<u8> = (0..70u8).collect();
    let chunks = ch341a::chunk_transfer(&data);
    assert_eq!(chunks.len(), 3);
    assert_eq!(chunks[0].len(), 32);
    assert_eq!(chunks[1].len(), 32);
    assert_eq!(chunks[2], (64..70u8).collect::<Vec<u8>>());
    assert_eq!(chunks.concat(), data);
    assert!(ch341a::chunk_transfer(&[]).is_empty());

    let big = vec![0x5Au8; 4095 * 2 + 1];
    let bulk = ch341a::chunk_transfer_bulk(&big);
    assert_eq!(bulk.len(), 3);
    assert_eq!(bulk[0].len(), 4095);
    assert_eq!(bulk[2].len(), 1);
}

#[test]
fn ch347_speed_from_u8_and_default() {
    assert_eq!(ch347::SpiSpeed::from_u8(0), ch347::SpiSpeed::Speed60M);
    assert_eq!(ch347::SpiSpeed::from_u8(7), ch347::SpiSpeed::Speed468K);
    assert_eq!(ch347::SpiSpeed::from_u8(99), ch347::SpiSpeed::Medium);
    assert_eq!(ch347::SpiSpeed::default().code(), 5);
}

#[test]
fn ch347_set_cfg_cmd_layout() {
    let p = ch347::build_set_cfg_cmd(ch347::SpiSpeed::Speed15M);
    assert_eq!(p.len(), 29);
    assert_eq!(&p[0..3], &[0xC0, 26, 0]);
    assert_eq!(p[3 + 12], 2 << 3);
    assert!(p.iter().enumerate().all(|(i, b)| i < 3 || i == 15 || *b == 0));
}

#[test]
fn ch347_cs_cmd_layout() {
    let on = ch347::build_cs_cmd(true);
    let off = ch347::build_cs_cmd(false);
    assert_eq!(on.len(), 13);
    assert_eq!(&on[0..4], &[0xC1, 10, 0, 0x80]);
    assert_eq!(&off[0..4], &[0xC1, 10, 0, 0xC0]);
    assert!(on[4..].iter().all(|b| *b == 0));
}

#[test]
fn ch347_transfer_and_handshake() {
    let tx = vec![0x11u8; 300];
    let p = ch347::build_spi_transfer_cmd(&tx);
    assert_eq!(&p[0..3], &[0xC2, 0x2C, 0x01]);
    assert_eq!(&p[3..], &tx[..]);
    assert_eq!(ch347::build_handshake_cmd(), vec![0xD0, 0x06, 0, 0x09, 0, 0, 0, 0, 0]);
}

#[test]
fn mpsse_command_bytes() {
    assert_eq!(mpsse::build_set_divisor_cmd(0x1234), [0x86, 0x34, 0x12]);
    assert_eq!(mpsse::build_set_low_gpio_cmd(0x08, 0x0B), [0x80, 0x08, 0x0B]);
    assert_eq!(mpsse::build_set_high_gpio_cmd(0x01, 0xFF), [0x82, 0x01, 0xFF]);
    assert_eq!(mpsse::build_write_bytes_cmd(&[0xAA, 0xBB]), vec![0x11, 1, 0, 0xAA, 0xBB]);
    assert!(mpsse::build_write_bytes_cmd(&[]).is_empty());
    assert_eq!(mpsse::build_read_bytes_cmd(256), vec![0x20, 0xFF, 0x00]);
    assert!(mpsse::build_read_bytes_cmd(0).is_empty());
    assert_eq!(mpsse::build_rw_bytes_cmd(&[7]), vec![0x31, 0, 0, 7]);
    assert_eq!(mpsse::build_loopback_cmd(true), 0x84);
    assert_eq!(mpsse::build_loopback_cmd(false), 0x85);
}
