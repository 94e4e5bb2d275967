//! CLI Handler - Passthrough
//!
//! Raw SPI or I2C communication with whatever is attached to the programmer:
//! the bytes to send are given in hex, the number of bytes to receive as a
//! count, and for I2C the device address in decimal or `0x` hex.

use vstd::prelude::*;

use vstd::string::StringSliceAdditionalSpecFns;

use crate::error::{Error, Result};
use crate::infrastructure::programmer::traits::{
    added, clocked_in, clocked_out, extends, faulted, query_frame, BusOp, Programmer,
};
use crate::presentation::cli::input::{
    all_hex, ascii_lower, cleaned_hex, eq_ignoring_case, equals_ignoring_case, hex_decoded, joined,
    parse_hex_bytes, parse_u8_radix, parsed_u8, text_bytes,
};

verus! {

/// The bytes to send: none without a hex string; else the decoded string
/// (every "0x" and space removed), or `None` when it is not valid hex.
pub open spec fn tx_bytes_of(tx: Option<String>) -> Option<Seq<u8>> {
    match tx {
        None => Some(Seq::empty()),
        Some(s) => {
            let c = cleaned_hex(text_bytes(s@), true);
            if c.len() % 2 == 0 && all_hex(c) {
                Some(hex_decoded(c))
            } else {
                None
            }
        },
    }
}

/// The I2C address spelled by `s`: hex after a leading "0x", else decimal.
pub open spec fn i2c_address_of(s: Seq<u8>) -> Option<u8> {
    if s.len() >= 2 && s[0] == 0x30u8 && s[1] == 0x78u8 {
        parsed_u8(s.skip(2), 16)
    } else {
        parsed_u8(s, 10)
    }
}

/// The mode names, in lower case.
pub open spec fn spi_word() -> Seq<u8> {
    seq![0x73u8, 0x70u8, 0x69u8]
}

/// See [`spi_word`].
pub open spec fn i2c_word() -> Seq<u8> {
    seq![0x69u8, 0x32u8, 0x63u8]
}

/// The SPI traffic of a passthrough: send `tx` then receive `rx` in one
/// frame, or only send, or only receive.
pub open spec fn spi_passthrough_traffic(ops: Seq<BusOp>, tx: Seq<u8>, rx_len: nat, rx: Seq<u8>) -> bool {
    &&& rx.len() == rx_len
    &&& if tx.len() > 0 && rx_len > 0 {
        query_frame(ops, tx, rx)
    } else if tx.len() > 0 {
        clocked_out(ops, tx)
    } else {
        clocked_in(ops, rx)
    }
}

/// The I2C traffic of a passthrough at `addr`: write `tx` if there is
/// something to send, then read `rx_len` bytes if asked.
pub open spec fn i2c_passthrough_traffic(
    ops: Seq<BusOp>,
    addr: u8,
    tx: Seq<u8>,
    rx_len: nat,
    rx: Option<Vec<u8>>,
) -> bool {
    let w = if tx.len() > 0 {
        seq![BusOp::I2cWrite { addr, data: tx }]
    } else {
        Seq::empty()
    };
    &&& rx is Some <==> rx_len > 0
    &&& match rx {
        Some(v) => v@.len() == rx_len && ops == w.push(BusOp::I2cRead { addr, data: v@ }),
        None => ops == w,
    }
}

/// What a passthrough did.
#[derive(Debug, Clone)]
#[allow(inconsistent_fields)]
pub enum PassthroughOutcome {
    /// SPI mode with nothing to send and nothing to receive.
    Idle,
    /// SPI: `tx_len` bytes sent, `rx` received.
    Spi { tx_len: usize, rx: Vec<u8> },
    /// I2C at `addr`: `tx_len` bytes written, `rx` read when bytes were asked for.
    I2c { addr: u8, tx_len: usize, rx: Option<Vec<u8>> },
}

/// Handler of the 'passthrough' command.
#[derive(Debug, Clone, Copy, PartialEq, Eq)]
pub struct PassthroughHandler;

impl Default for PassthroughHandler {
    fn default() -> (h: Self)
        ensures
            h == PassthroughHandler,
    {
        Self::new()
    }
}

impl PassthroughHandler {
    pub fn new() -> (h: Self)
        ensures
            h == PassthroughHandler,
    {
        PassthroughHandler
    }

    /// Raw communication through `prog`: set the speed if one is given,
    /// decode `tx`, then in "spi" mode (any case) send `tx` and receive
    /// `rx_len` bytes, and in "i2c" mode write `tx` to and read `rx_len`
    /// bytes from the device at `addr`.
    pub fn handle<P: Programmer>(
        &self,
        prog: &mut P,
        speed: Option<u8>,
        mode: &str,
        tx: Option<String>,
        rx_len: usize,
        addr: Option<String>,
    ) -> (r: Result<PassthroughOutcome>)
        requires
            old(prog).wf(),
        ensures
            final(prog).wf(),
            extends(old(prog).log(), final(prog).log()),
            r is Ok ==> tx_bytes_of(tx) is Some,
            r is Ok && r->Ok_0 is Idle ==> eq_ignoring_case(text_bytes(mode@), spi_word())
                && tx_bytes_of(tx) == Some(Seq::<u8>::empty()) && rx_len == 0 && final(prog).log()
                == old(prog).log(),
            r is Ok && r->Ok_0 is Spi ==> eq_ignoring_case(text_bytes(mode@), spi_word())
                && r->Ok_0->Spi_tx_len == tx_bytes_of(tx)->0.len() && (tx_bytes_of(tx)->0.len() > 0
                || rx_len > 0) && spi_passthrough_traffic(
                added(old(prog).log(), final(prog).log()),
                tx_bytes_of(tx)->0,
                rx_len as nat,
                r->Ok_0->Spi_rx@,
            ),
            r is Ok && r->Ok_0 is I2c ==> eq_ignoring_case(text_bytes(mode@), i2c_word())
                && addr is Some && i2c_address_of(text_bytes(addr->0@)) == Some(r->Ok_0->I2c_addr)
                && r->Ok_0->I2c_tx_len == tx_bytes_of(tx)->0.len() && i2c_passthrough_traffic(
                added(old(prog).log(), final(prog).log()),
                r->Ok_0->I2c_addr,
                tx_bytes_of(tx)->0,
                rx_len as nat,
                r->Ok_0->I2c_rx,
            ),
            tx_bytes_of(tx) is None ==> r is Err,
            !eq_ignoring_case(text_bytes(mode@), spi_word()) && !eq_ignoring_case(
                text_bytes(mode@),
                i2c_word(),
            ) ==> r is Err,
            eq_ignoring_case(text_bytes(mode@), i2c_word()) && (addr is None || i2c_address_of(
                text_bytes(addr->0@),
            ) is None) ==> r is Err,
            r is Err ==> faulted(old(prog).log(), final(prog).log()) || (r matches Err(
                Error::NotSupported(_),
            ) && eq_ignoring_case(text_bytes(mode@), i2c_word()) && !P::has_i2c() && (tx_bytes_of(
                tx,
            )->0.len() > 0 || rx_len > 0)) || (r matches Err(Error::InvalidParameter(_))
                && final(prog).log() == old(prog).log() && (tx_bytes_of(tx) is None || (!eq_ignoring_case(
                text_bytes(mode@),
                spi_word(),
            ) && !eq_ignoring_case(text_bytes(mode@), i2c_word())) || (eq_ignoring_case(
                text_bytes(mode@),
                i2c_word(),
            ) && (addr is None || i2c_address_of(text_bytes(addr->0@)) is None)))),
    {
        // 1. Speed
        if let Some(s) = speed {
            prog.set_speed(s)?;
        }
        let ghost l0 = prog.log();
        // 2. Parse inputs
        let tx_bytes: Vec<u8> = match tx {
            Some(hex_str) => match parse_hex_bytes(hex_str.as_str(), true) {
                Ok(b) => b,
                Err(text) => {
                    return Err(Error::InvalidParameter(joined("Invalid hex string: ", text.as_str())));
                },
            },
            None => Vec::new(),
        };

        // 3. Execute based on mode
        let mode_bytes = mode.as_bytes();
        proof {
            reveal_strlit("spi");
            reveal_strlit("i2c");
            vstd::string::is_ascii_spec_bytes("spi");
            vstd::string::is_ascii_spec_bytes("i2c");
            assert(vstd::string::is_ascii("spi"));
            assert(vstd::string::is_ascii("i2c"));
            assert("spi".spec_bytes() =~= spi_word());
            assert("i2c".spec_bytes() =~= i2c_word());
            if eq_ignoring_case(text_bytes(mode@), i2c_word()) {
                assert(ascii_lower(text_bytes(mode@)[0]) == i2c_word()[0]);
            }
        }
        if equals_ignoring_case(mode_bytes, "spi".as_bytes()) {
            if tx_bytes.len() > 0 {
                if rx_len > 0 {
                    // Write then read (sequential)
                    let rx = prog.spi_transaction(tx_bytes.as_slice(), rx_len)?;
                    Ok(PassthroughOutcome::Spi { tx_len: tx_bytes.len(), rx })
                } else {
                    // Write only
                    prog.spi_write(tx_bytes.as_slice())?;
                    Ok(PassthroughOutcome::Spi { tx_len: tx_bytes.len(), rx: Vec::new() })
                }
            } else if rx_len > 0 {
                // Read only
                let rx = prog.spi_read(rx_len)?;
                Ok(PassthroughOutcome::Spi { tx_len: 0, rx })
            } else {
                Ok(PassthroughOutcome::Idle)
            }
        } else if equals_ignoring_case(mode_bytes, "i2c".as_bytes()) {
            let addr_str = match addr {
                Some(a) => a,
                None => {
                    return Err(
                        Error::InvalidParameter("I2C Address required for I2C mode".to_string()),
                    );
                },
            };
            let a = addr_str.as_str().as_bytes();
            let parsed = if a.len() >= 2 && a[0] == 0x30 && a[1] == 0x78 {
                let digits = vstd::slice::slice_subrange(a, 2, a.len());
                assert(digits@ =~= a@.skip(2));
                parse_u8_radix(digits, 16)
            } else {
                parse_u8_radix(a, 10)
            };
            let addr_val = match parsed {
                Some(v) => v,
                None => {
                    return Err(Error::InvalidParameter("Invalid I2C address".to_string()));
                },
            };
            let ghost l1 = prog.log();
            if tx_bytes.len() > 0 {
                prog.i2c_write(addr_val, tx_bytes.as_slice())?;
            }
            let ghost l2 = prog.log();
            let rx = if rx_len > 0 {
                Some(prog.i2c_read(addr_val, rx_len)?)
            } else {
                None
            };
            proof {
                let le = prog.log();
                assert(le.subrange(0, l0.len() as int) =~= l0);
                if tx_bytes@.len() > 0 {
                    assert(added(l0, l2) =~= seq![BusOp::I2cWrite { addr: addr_val, data: tx_bytes@ }]);
                } else {
                    assert(added(l0, l2) =~= Seq::<BusOp>::empty());
                }
                match &rx {
                    Some(v) => {
                        assert(added(l0, le) =~= added(l0, l2).push(
                            BusOp::I2cRead { addr: addr_val, data: v@ },
                        ));
                    },
                    None => {
                        assert(added(l0, le) =~= added(l0, l2));
                    },
                }
            }
            Ok(PassthroughOutcome::I2c { addr: addr_val, tx_len: tx_bytes.len(), rx })
        } else {
            let head = joined("Unknown mode: '", mode);
            Err(Error::InvalidParameter(joined(head.as_str(), "'. Supported: spi, i2c")))
        }
    }
}

} // verus!
