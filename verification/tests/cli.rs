use nander_rs::domain::{BadBlockStrategy, OobMode};
use nander_rs::presentation::cli::args::{Args, BbtCommand, Command};
use nander_rs::presentation::cli::input::{
    bytes_equal, equals_ignoring_case, joined, parse_hex_bytes, parse_u8_radix, remove_all,
};
use nander_rs::presentation::cli::{execute, get_bad_block_strategy, get_oob_mode, HandlerCall};

#[test]
fn bad_block_strategy_from_flags() {
    assert_eq!(get_bad_block_strategy(false, false), BadBlockStrategy::Fail);
    assert_eq!(get_bad_block_strategy(true, false), BadBlockStrategy::Skip);
    assert_eq!(get_bad_block_strategy(false, true), BadBlockStrategy::Include);
    // including bad blocks wins over skipping them
    assert_eq!(get_bad_block_strategy(true, true), BadBlockStrategy::Include);
}

#[test]
fn oob_mode_from_flags() {
    assert_eq!(get_oob_mode(false, false), OobMode::Excluded);
    assert_eq!(get_oob_mode(true, false), OobMode::Included);
    assert_eq!(get_oob_mode(false, true), OobMode::Only);
    assert_eq!(get_oob_mode(true, true), OobMode::Only);
}

#[test]
fn execute_read_carries_the_flags() {
    let args = Args {
        verbose: false,
        spi_speed: 3,
        command: Command::Read {
            output: "dump.bin".to_string(),
            length: Some(4096),
            start: 0x800,
            disable_ecc: true,
            skip_bad: true,
            include_bad: false,
            oob: true,
            oob_only: false,
            ignore_ecc: true,
        },
    };
    match execute(args) {
        HandlerCall::Read { output, options } => {
            assert_eq!(output, "dump.bin");
            assert_eq!(options.address, 0x800);
            assert_eq!(options.length, Some(4096));
            assert!(!options.use_ecc);
            assert!(options.ignore_ecc_errors);
            assert_eq!(options.bad_block_strategy, BadBlockStrategy::Skip);
            assert_eq!(options.oob_mode, OobMode::Included);
            assert_eq!(options.speed, Some(3));
            assert!(!options.verify);
        }
        other => panic!("unexpected call {:?}", other),
    }
}

#[test]
fn execute_write_keeps_verify_and_reads_whole_file() {
    let args = Args {
        verbose: true,
        spi_speed: 5,
        command: Command::Write {
            input: "fw.bin".to_string(),
            start: 0,
            verify: true,
            disable_ecc: false,
            skip_bad: false,
            include_bad: true,
            oob: false,
            oob_only: true,
            ignore_ecc: false,
        },
    };
    match execute(args) {
        HandlerCall::Write { input, options } => {
            assert_eq!(input, "fw.bin");
            assert_eq!(options.length, None);
            assert!(options.use_ecc);
            assert!(options.verify);
            assert_eq!(options.bad_block_strategy, BadBlockStrategy::Include);
            assert_eq!(options.oob_mode, OobMode::Only);
        }
        other => panic!("unexpected call {:?}", other),
    }
}

#[test]
fn execute_erase_and_other_commands() {
    let erase = Args {
        verbose: false,
        spi_speed: 7,
        command: Command::Erase {
            length: None,
            start: 0x20000,
            disable_ecc: true,
            skip_bad: true,
            include_bad: false,
        },
    };
    match execute(erase) {
        HandlerCall::Erase { options } => {
            assert_eq!(options.address, 0x20000);
            assert_eq!(options.length, None);
            assert_eq!(options.bad_block_strategy, BadBlockStrategy::Skip);
            assert_eq!(options.oob_mode, OobMode::Excluded);
            assert_eq!(options.speed, Some(7));
        }
        other => panic!("unexpected call {:?}", other),
    }
    let info = Args { verbose: false, spi_speed: 2, command: Command::Info };
    assert!(matches!(execute(info), HandlerCall::Info { speed: Some(2) }));
    let list = Args { verbose: false, spi_speed: 2, command: Command::List };
    assert!(matches!(execute(list), HandlerCall::List));
    let bbt = Args { verbose: false, spi_speed: 1, command: Command::Bbt { command: BbtCommand::Scan } };
    assert!(matches!(execute(bbt), HandlerCall::BbtScan { speed: Some(1) }));
    let status = Args {
        verbose: false,
        spi_speed: 0,
        command: Command::Status { value: Some("02".to_string()) },
    };
    match execute(status) {
        HandlerCall::Status { value, speed } => {
            assert_eq!(value, Some("02".to_string()));
            assert_eq!(speed, Some(0));
        }
        other => panic!("unexpected call {:?}", other),
    }
}

#[test]
fn hex_parsing_strips_prefixes_and_spaces() {
    assert_eq!(parse_hex_bytes("0x9F 0x00", true), Ok(vec![0x9F, 0x00]));
    assert_eq!(parse_hex_bytes("DEADbeef", false), Ok(vec![0xDE, 0xAD, 0xBE, 0xEF]));
    assert_eq!(parse_hex_bytes("", true), Ok(vec![]));
    // spaces are kept when not asked to drop them, and then fail
    assert!(parse_hex_bytes("9F 00", false).is_err());
}

#[test]
fn hex_parsing_errors_carry_the_hex_crate_text() {
    assert_eq!(parse_hex_bytes("ABC", true), Err("Odd number of digits".to_string()));
    assert_eq!(
        parse_hex_bytes("0xZZ", true),
        Err("Invalid character 'Z' at position 0".to_string())
    );
    assert_eq!(
        parse_hex_bytes("12g4", true),
        Err("Invalid character 'g' at position 2".to_string())
    );
}

#[test]
fn u8_parsing_in_a_radix() {
    assert_eq!(parse_u8_radix(b"50", 16), Some(0x50));
    assert_eq!(parse_u8_radix(b"ff", 16), Some(255));
    assert_eq!(parse_u8_radix(b"+12", 10), Some(12));
    assert_eq!(parse_u8_radix(b"256", 10), None);
    assert_eq!(parse_u8_radix(b"", 10), None);
    assert_eq!(parse_u8_radix(b"+", 10), None);
    assert_eq!(parse_u8_radix(b"1g", 16), None);
    assert_eq!(parse_u8_radix(b"-1", 10), None);
}

#[test]
fn text_helpers() {
    assert_eq!(remove_all(b"0x120x34", b"0x"), b"1234".to_vec());
    assert_eq!(remove_all(b"a b  c", b" "), b"abc".to_vec());
    assert_eq!(remove_all(b"000x1", b"0x"), b"001".to_vec());
    assert_eq!(joined("Invalid: ", "oops"), "Invalid: oops");
    assert!(bytes_equal(b"abc", b"abc"));
    assert!(!bytes_equal(b"abc", b"abd"));
    assert!(!bytes_equal(b"ab", b"abc"));
    assert!(equals_ignoring_case(b"SpI", b"spi"));
    assert!(!equals_ignoring_case(b"spix", b"spi"));
}
