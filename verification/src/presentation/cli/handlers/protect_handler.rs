//! CLI Handler - Protect and Status
//!
//! The 'protect' command reads the block-protect (BP) bits of a chip's
//! status register and sets or clears them; the 'status' command reads the
//! status register(s) or writes values given in hex.

use vstd::prelude::*;

use crate::domain::flash_operation::{get_status_call, set_status_call, FlashCall};
use crate::domain::{FlashOperation, FlashType};
use crate::error::{Error, Result};
use crate::presentation::cli::input::{
    all_hex, cleaned_hex, hex_decoded, joined, parse_hex_bytes, text_bytes,
};

verus! {

/// The block-protect bits of the first status register, by chip kind: BP0-BP3
/// for NOR, the protection register bits for NAND, BP0-BP1 for 25xxx EEPROMs.
pub open spec fn bp_mask(flash_type: FlashType) -> Option<u8> {
    match flash_type {
        FlashType::Nor => Some(0x3Cu8),
        FlashType::Nand => Some(0x7Cu8),
        FlashType::SpiEeprom => Some(0x0Cu8),
        _ => None,
    }
}

/// Status registers read by `get_status`: three for NAND (protection,
/// configuration, status), one for the others.
pub open spec fn register_count(flash_type: FlashType) -> nat {
    if flash_type == FlashType::Nand {
        3
    } else {
        1
    }
}

/// The registers to write to switch protection on (`enable`) or off: the
/// first register with the BP bits set or cleared, the others unchanged.
pub open spec fn protected_registers(flash_type: FlashType, mask: u8, enable: bool, before: Seq<u8>) -> Seq<u8> {
    let first = if enable {
        before[0] | mask
    } else {
        before[0] & !mask
    };
    if flash_type == FlashType::Nand {
        seq![first, before[1], before[2]]
    } else {
        seq![first]
    }
}

/// What the 'protect' command found or did.
#[derive(Debug, Clone)]
pub enum ProtectReport {
    /// The status register(s), and whether write protection is on.
    Status { registers: Vec<u8>, locked: bool },
    /// Protection switched on (`enable`) or off: the registers read before,
    /// and those written.
    Changed { enable: bool, before: Vec<u8>, written: Vec<u8> },
}

/// What the 'status' command did.
#[derive(Debug, Clone)]
pub enum StatusReport {
    /// The status register(s) read.
    Read(Vec<u8>),
    /// The bytes written to the status register(s).
    Written(Vec<u8>),
}

/// What the 'protect' command answers once the status registers read back
/// as `before`, given the calls it made on the chip afterwards (`rest`): too
/// few registers is an error; "status" reports them without writing;
/// "enable" and "disable" write the registers with the BP bits set or
/// cleared and report both; any other operation is a validation error.
pub open spec fn protect_outcome(
    flash_type: FlashType,
    operation: Seq<char>,
    before: Seq<u8>,
    rest: Seq<FlashCall>,
    r: Result<ProtectReport>,
) -> bool {
    let mask = bp_mask(flash_type)->0;
    let op = text_bytes(operation);
    if before.len() < register_count(flash_type) {
        rest.len() == 0 && r matches Err(Error::Other(_))
    } else if op == text_bytes("status"@) {
        &&& rest.len() == 0
        &&& r matches Ok(ProtectReport::Status { registers, locked })
        &&& registers@ == before
        &&& locked == (before[0] & mask != 0)
    } else if op == text_bytes("enable"@) || op == text_bytes("disable"@) {
        let enable = op == text_bytes("enable"@);
        let written = protected_registers(flash_type, mask, enable, before);
        &&& rest.len() == 1
        &&& rest[0] matches FlashCall::SetStatus { status, result }
        &&& status == written
        &&& match result {
            Err(e) => r matches Err(e2) && e2 == e,
            Ok(_) => r matches Ok(ProtectReport::Changed { enable: en, before: b, written: w })
                && en == enable && b@ == before && w@ == written,
        }
    } else {
        rest.len() == 0 && r matches Err(Error::Validation(_))
    }
}

/// Handler of the 'protect' and 'status' commands.
#[derive(Debug, Clone, Copy, PartialEq, Eq)]
pub struct ProtectHandler;

impl Default for ProtectHandler {
    fn default() -> (h: Self)
        ensures
            h == ProtectHandler,
    {
        Self::new()
    }
}

impl ProtectHandler {
    pub fn new() -> (h: Self)
        ensures
            h == ProtectHandler,
    {
        ProtectHandler
    }

    /// Read or write the status register(s) of a chip of `flash_type`
    /// reached through `protocol`: with a `value`, decode it as hex (every
    /// "0x" removed) and write it; without, read them. Only NOR, NAND and SPI
    /// EEPROM chips have status access.
    pub fn handle_status<F: FlashOperation>(
        &self,
        protocol: &mut F,
        flash_type: FlashType,
        value: Option<String>,
    ) -> (r: Result<StatusReport>)
        requires
            old(protocol).inv(),
        ensures
            final(protocol).inv(),
            bp_mask(flash_type) is None ==> r is Err && r->Err_0 is NotSupported
                && r->Err_0->NotSupported_0@ == "Status access not implemented for this flash type"@
                && *final(protocol) == *old(protocol),
            bp_mask(flash_type) is Some && value is Some && !(cleaned_hex(text_bytes(value->0@), false).len() % 2 == 0
                && all_hex(cleaned_hex(text_bytes(value->0@), false))) ==> r is Err && r->Err_0 is Validation
                && *final(protocol) == *old(protocol),
            r is Ok && value is Some ==> r->Ok_0 is Written && r->Ok_0->Written_0@ == hex_decoded(
                cleaned_hex(text_bytes(value->0@), false),
            ),
            r is Ok && value is None ==> r->Ok_0 is Read,
            bp_mask(flash_type) is Some && value is Some && cleaned_hex(
                text_bytes(value->0@),
                false,
            ).len() % 2 == 0 && all_hex(cleaned_hex(text_bytes(value->0@), false)) ==> (exists|
                sr: Result<()>,
            |
                {
                    &&& final(protocol).calls() == old(protocol).calls().push(
                        #[trigger] set_status_call(
                            hex_decoded(cleaned_hex(text_bytes(value->0@), false)),
                            sr,
                        ),
                    )
                    &&& match sr {
                        Err(e) => r matches Err(e2) && e2 == e,
                        Ok(_) => r is Ok,
                    }
                }),
            bp_mask(flash_type) is Some && value is None ==> (exists|gr: Result<Vec<u8>>|
                {
                    &&& final(protocol).calls() == old(protocol).calls().push(
                        #[trigger] get_status_call(gr),
                    )
                    &&& match gr {
                        Err(e) => r matches Err(e2) && e2 == e,
                        Ok(v) => r matches Ok(StatusReport::Read(w)) && w@ == v@,
                    }
                }),
    {
        match flash_type {
            FlashType::Nor | FlashType::Nand | FlashType::SpiEeprom => {},
            _ => {
                return Err(
                    Error::NotSupported(
                        "Status access not implemented for this flash type".to_string(),
                    ),
                );
            },
        }
        match value {
            Some(hex_val) => {
                let bytes = match parse_hex_bytes(hex_val.as_str(), false) {
                    Ok(b) => b,
                    Err(text) => {
                        return Err(Error::Validation(joined("Invalid hex value: ", text.as_str())));
                    },
                };
                let sr = protocol.set_status(bytes.as_slice());
                let ghost gsr = sr;
                assert(set_status_call(hex_decoded(cleaned_hex(text_bytes(hex_val@), false)), gsr)
                    == set_status_call(bytes@, gsr));
                match sr {
                    Ok(()) => Ok(StatusReport::Written(bytes)),
                    Err(e) => Err(e),
                }
            },
            None => {
                let gr = protocol.get_status();
                let ghost ggr = gr;
                assert(get_status_call(ggr) == get_status_call(ggr));
                match gr {
                    Ok(status) => Ok(StatusReport::Read(status)),
                    Err(e) => Err(e),
                }
            },
        }
    }

    /// Report, enable or disable the write protection of a chip of
    /// `flash_type` reached through `protocol`: `operation` is "status",
    /// "enable" or "disable". The status register(s) are read first; enabling
    /// sets the BP bits of the first register, disabling clears them, and the
    /// other registers are written back unchanged.
    pub fn handle_protect<F: FlashOperation>(
        &self,
        protocol: &mut F,
        flash_type: FlashType,
        operation: &str,
    ) -> (r: Result<ProtectReport>)
        requires
            old(protocol).inv(),
        ensures
            final(protocol).inv(),
            bp_mask(flash_type) is None ==> r is Err && r->Err_0 is NotSupported
                && r->Err_0->NotSupported_0@ == "Protect command not supported for this flash type"@
                && *final(protocol) == *old(protocol),
            r is Ok && r->Ok_0 is Status ==> text_bytes(operation@) == text_bytes("status"@)
                && r->Ok_0->registers@.len() >= register_count(flash_type) && r->Ok_0->locked == (
            r->Ok_0->registers@[0] & bp_mask(flash_type)->0 != 0),
            r is Ok && r->Ok_0 is Changed ==> (if r->Ok_0->enable {
                text_bytes(operation@) == text_bytes("enable"@)
            } else {
                text_bytes(operation@) == text_bytes("disable"@)
            }) && r->Ok_0->before@.len() >= register_count(flash_type) && r->Ok_0->written@
                == protected_registers(
                flash_type,
                bp_mask(flash_type)->0,
                r->Ok_0->enable,
                r->Ok_0->before@,
            ),
            bp_mask(flash_type) is Some && text_bytes(operation@) != text_bytes("status"@)
                && text_bytes(operation@) != text_bytes("enable"@) && text_bytes(operation@)
                != text_bytes("disable"@) ==> r is Err,
            bp_mask(flash_type) is Some ==> (exists|gr: Result<Vec<u8>>|
                {
                    let o = old(protocol).calls();
                    let c = final(protocol).calls();
                    &&& c.len() >= o.len() + 1
                    &&& c.subrange(0, o.len() + 1int) == o.push(#[trigger] get_status_call(gr))
                    &&& match gr {
                        Err(e) => (r matches Err(e2) && e2 == e) && c.len() == o.len() + 1,
                        Ok(before) => protect_outcome(
                            flash_type,
                            operation@,
                            before@,
                            c.skip(o.len() + 1int),
                            r,
                        ),
                    }
                }),
    {
        let mask: u8 = match flash_type {
            FlashType::Nor => 0x3C,  // BP0-BP3
            FlashType::Nand => 0x7C,  // BP0-BP3, CMP, INV
            FlashType::SpiEeprom => 0x0C,  // BP0-BP1 for most 25xxx
            _ => {
                return Err(
                    Error::NotSupported(
                        "Protect command not supported for this flash type".to_string(),
                    ),
                );
            },
        };
        let needed: usize = match flash_type {
            FlashType::Nand => 3,
            _ => 1,
        };
        let ghost o = protocol.calls();
        let gr = protocol.get_status();
        let ghost ggr = gr;
        let ghost c1 = protocol.calls();
        assert(c1.subrange(0, o.len() + 1int) =~= c1);
        let status = match gr {
            Ok(v) => v,
            Err(e) => {
                return Err(e);
            },
        };
        assert(c1.skip(o.len() + 1int) =~= Seq::<FlashCall>::empty());
        if status.len() < needed {
            return Err(Error::Other("status register read returned too few bytes".to_string()));
        }
        let op = operation.as_bytes();
        if crate::presentation::cli::input::bytes_equal(op, "status".as_bytes()) {
            let locked = (status[0] & mask) != 0;
            return Ok(ProtectReport::Status { registers: status, locked });
        }
        let enable = if crate::presentation::cli::input::bytes_equal(op, "enable".as_bytes()) {
            true
        } else if crate::presentation::cli::input::bytes_equal(op, "disable".as_bytes()) {
            false
        } else {
            return Err(Error::Validation(joined("Unknown operation: ", operation)));
        };
        let first = if enable {
            status[0] | mask
        } else {
            status[0] & !mask
        };
        let written = match flash_type {
            FlashType::Nand => vec![first, status[1], status[2]],
            _ => vec![first],
        };
        assert(written@ =~= protected_registers(flash_type, mask, enable, status@));
        let sr = protocol.set_status(written.as_slice());
        proof {
            let c = protocol.calls();
            assert(c.subrange(0, o.len() + 1int) =~= c1);
            assert(c.skip(o.len() + 1int) =~= seq![set_status_call(written@, sr)]);
        }
        match sr {
            Ok(()) => Ok(ProtectReport::Changed { enable, before: status, written }),
            Err(e) => Err(e),
        }
    }
}

} // verus!
