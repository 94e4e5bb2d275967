# nander-rs

A programmer for SPI NAND, SPI NOR and serial EEPROM chips, driven through
USB programmers (CH341A, CH347, FTDI MPSSE), written in Rust and verified
with Verus.

## Layout

- `src/` — the library, verified by Verus.
  - `domain/` — chip geometry, requests, bad-block policy, and the
    `FlashOperation` interface every chip protocol provides, with the
    record of the calls made on a chip and their answers.
  - `infrastructure/flash_protocol/` — the SPI NAND, SPI NOR, 25xxx, 24Cxx
    and 93Cxx protocols. Each operation states the bus traffic it produces;
    `nand/roundtrip.rs` proves, over the simulated chip, that reading back
    a written range gives the data written and that an erased range reads
    as 0xFF.
  - `infrastructure/programmer/` — the `Programmer` interface with its bus
    record, the USB drivers (command packets and driver state; the USB link
    itself is supplied by the application), the device database and
    programmer discovery, a mock and a simulated SPI NAND chip.
  - `presentation/` — command dispatch, argument handling and the handlers
    that decide what each command does with a chip; for the graphical
    front end, what its background worker does with each request and how
    the window takes the answers in.
- `tests/` — tests run against the compiled library.
- `app/` — the command-line program: argument parsing, USB access through
  `nusb`, files, progress display, and the worker thread of the graphical
  front end (the window itself is not part of this build).
