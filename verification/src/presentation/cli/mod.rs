//! CLI Presentation Module
//!
//! Turns the command-line arguments into the handler call that carries the
//! command out, with the flash options it implies.

pub mod args;
pub mod handlers;
pub mod input;

use vstd::prelude::*;

use crate::domain::bad_block::BadBlockStrategy;
use crate::domain::{FlashOptions, OobMode};
use args::{Args, BbtCommand, Command};

verus! {

/// The bad-block strategy chosen by the `--skip-bad` and `--include-bad`
/// flags: including wins over skipping; failing is the default.
pub open spec fn strategy_for(skip_bad: bool, include_bad: bool) -> BadBlockStrategy {
    if include_bad {
        BadBlockStrategy::Include
    } else if skip_bad {
        BadBlockStrategy::Skip
    } else {
        BadBlockStrategy::Fail
    }
}

/// The OOB mode chosen by the `--oob` and `--oob-only` flags: OOB only wins
/// over OOB included; the main area only is the default.
pub open spec fn oob_mode_for(oob: bool, oob_only: bool) -> OobMode {
    if oob_only {
        OobMode::Only
    } else if oob {
        OobMode::Included
    } else {
        OobMode::Excluded
    }
}

/// Bad-block strategy from the command-line flags.
pub fn get_bad_block_strategy(skip_bad: bool, include_bad: bool) -> (s: BadBlockStrategy)
    ensures
        s == strategy_for(skip_bad, include_bad),
{
    if include_bad {
        BadBlockStrategy::Include
    } else if skip_bad {
        BadBlockStrategy::Skip
    } else {
        BadBlockStrategy::Fail
    }
}

/// OOB mode from the command-line flags.
pub fn get_oob_mode(oob: bool, oob_only: bool) -> (m: OobMode)
    ensures
        m == oob_mode_for(oob, oob_only),
{
    if oob_only {
        OobMode::Only
    } else if oob {
        OobMode::Included
    } else {
        OobMode::Excluded
    }
}

/// The handler call that carries out a command.
#[derive(Debug, Clone)]
pub enum HandlerCall {
    Info { speed: Option<u8> },
    List,
    Read { output: String, options: FlashOptions },
    Write { input: String, options: FlashOptions },
    Erase { options: FlashOptions },
    Verify { input: String, options: FlashOptions },
    Protect { operation: String, speed: Option<u8> },
    Status { value: Option<String>, speed: Option<u8> },
    BbtScan { speed: Option<u8> },
}

/// Options of a command that reads, writes or verifies data.
pub open spec fn data_options(
    start: u32,
    length: Option<u32>,
    disable_ecc: bool,
    ignore_ecc: bool,
    skip_bad: bool,
    include_bad: bool,
    oob: bool,
    oob_only: bool,
    speed: u8,
    verify: bool,
) -> FlashOptions {
    FlashOptions {
        address: start,
        length,
        use_ecc: !disable_ecc,
        ignore_ecc_errors: ignore_ecc,
        bad_block_strategy: strategy_for(skip_bad, include_bad),
        oob_mode: oob_mode_for(oob, oob_only),
        speed: Some(speed),
        verify,
    }
}

/// The handler call for `args`.
pub open spec fn call_for(args: Args) -> HandlerCall {
    let speed = args.spi_speed;
    match args.command {
        Command::Info => HandlerCall::Info { speed: Some(speed) },
        Command::List => HandlerCall::List,
        Command::Read {
            output,
            length,
            start,
            disable_ecc,
            skip_bad,
            include_bad,
            oob,
            oob_only,
            ignore_ecc,
        } => HandlerCall::Read {
            output,
            options: data_options(
                start,
                length,
                disable_ecc,
                ignore_ecc,
                skip_bad,
                include_bad,
                oob,
                oob_only,
                speed,
                false,
            ),
        },
        Command::Write {
            input,
            start,
            verify,
            disable_ecc,
            skip_bad,
            include_bad,
            oob,
            oob_only,
            ignore_ecc,
        } => HandlerCall::Write {
            input,
            options: data_options(
                start,
                None,
                disable_ecc,
                ignore_ecc,
                skip_bad,
                include_bad,
                oob,
                oob_only,
                speed,
                verify,
            ),
        },
        Command::Erase { length, start, disable_ecc, skip_bad, include_bad } => HandlerCall::Erase {
            options: FlashOptions {
                address: start,
                length,
                use_ecc: false,
                ignore_ecc_errors: false,
                bad_block_strategy: strategy_for(skip_bad, include_bad),
                oob_mode: OobMode::Excluded,
                speed: Some(speed),
                verify: false,
            },
        },
        Command::Verify {
            input,
            start,
            disable_ecc,
            skip_bad,
            include_bad,
            oob,
            oob_only,
            ignore_ecc,
        } => HandlerCall::Verify {
            input,
            options: data_options(
                start,
                None,
                disable_ecc,
                ignore_ecc,
                skip_bad,
                include_bad,
                oob,
                oob_only,
                speed,
                false,
            ),
        },
        Command::Protect { operation } => HandlerCall::Protect { operation, speed: Some(speed) },
        Command::Status { value } => HandlerCall::Status { value, speed: Some(speed) },
        Command::Bbt { command } => match command {
            BbtCommand::Scan => HandlerCall::BbtScan { speed: Some(speed) },
        },
    }
}

/// The handler call that executes the command of `args`, with the flash
/// options its flags select (erase keeps the defaults for everything but
/// the range, the bad-block strategy and the speed).
pub fn execute(args: Args) -> (call: HandlerCall)
    ensures
        call == call_for(args),
{
    let speed = args.spi_speed;
    match args.command {
        Command::Info => HandlerCall::Info { speed: Some(speed) },
        Command::List => HandlerCall::List,
        Command::Read {
            output,
            length,
            start,
            disable_ecc,
            skip_bad,
            include_bad,
            oob,
            oob_only,
            ignore_ecc,
        } => {
            let options = FlashOptions {
                address: start,
                length,
                use_ecc: !disable_ecc,
                ignore_ecc_errors: ignore_ecc,
                bad_block_strategy: get_bad_block_strategy(skip_bad, include_bad),
                oob_mode: get_oob_mode(oob, oob_only),
                speed: Some(speed),
                verify: false,
            };
            HandlerCall::Read { output, options }
        },
        Command::Write {
            input,
            start,
            verify,
            disable_ecc,
            skip_bad,
            include_bad,
            oob,
            oob_only,
            ignore_ecc,
        } => {
            let options = FlashOptions {
                address: start,
                length: None,  // Write uses input file length
                use_ecc: !disable_ecc,
                ignore_ecc_errors: ignore_ecc,
                bad_block_strategy: get_bad_block_strategy(skip_bad, include_bad),
                oob_mode: get_oob_mode(oob, oob_only),
                speed: Some(speed),
                verify,
            };
            HandlerCall::Write { input, options }
        },
        Command::Erase { length, start, disable_ecc: _, skip_bad, include_bad } => {
            let options = FlashOptions {
                address: start,
                length,
                use_ecc: false,
                ignore_ecc_errors: false,
                bad_block_strategy: get_bad_block_strategy(skip_bad, include_bad),
                oob_mode: OobMode::Excluded,
                speed: Some(speed),
                verify: false,
            };
            HandlerCall::Erase { options }
        },
        Command::Verify {
            input,
            start,
            disable_ecc,
            skip_bad,
            include_bad,
            oob,
            oob_only,
            ignore_ecc,
        } => {
            let options = FlashOptions {
                address: start,
                length: None,
                use_ecc: !disable_ecc,
                ignore_ecc_errors: ignore_ecc,
                bad_block_strategy: get_bad_block_strategy(skip_bad, include_bad),
                oob_mode: get_oob_mode(oob, oob_only),
                speed: Some(speed),
                verify: false,
            };
            HandlerCall::Verify { input, options }
        },
        Command::Protect { operation } => HandlerCall::Protect { operation, speed: Some(speed) },
        Command::Status { value } => HandlerCall::Status { value, speed: Some(speed) },
        Command::Bbt { command } => match command {
            BbtCommand::Scan => HandlerCall::BbtScan { speed: Some(speed) },
        },
    }
}

} // verus!
