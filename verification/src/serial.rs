//! The serial port: its registers, the steps that set it up and test it,
//! and the bytes that go out for a string.

use vstd::prelude::*;

use vstd::string::StringSliceAdditionalSpecFns;

verus! {

/// A 16550 serial port at the I/O port `port`.
#[derive(Debug, Clone, Copy, PartialEq, Eq, Structural)]
pub struct SerialPort {
    pub port: u16,
}

/// Why the serial port cannot be used.
#[derive(Debug, Clone, Copy, PartialEq, Eq, Structural)]
pub enum Error {
    /// The byte written in loopback mode did not come back.
    InitializationFailed,
}

impl Error {
    /// The message that describes the error.
    pub fn message(&self) -> (r: &'static str)
        ensures
            r@ == "Serial port initialization failed"@,
    {
        match self {
            Error::InitializationFailed => "Serial port initialization failed",
        }
    }
}

/// The byte that the loopback test sends.
pub const LOOPBACK_TEST_BYTE: u8 = 0xAE;

/// The steps that set up a serial port at `port`, each a register and the
/// byte to write to it: interrupts off, the baud rate divisor 3 (38400 baud),
/// 8 bits without parity and with one stop bit, the FIFOs on and cleared with
/// a 14-byte threshold, the modem lines set, then loopback mode and the test
/// byte.
pub open spec fn setup_steps(port: u16) -> Seq<(u16, u8)> {
    seq![
        ((port + 1) as u16, 0x00u8),
        ((port + 3) as u16, 0x80u8),
        (port, 0x03u8),
        ((port + 1) as u16, 0x00u8),
        ((port + 3) as u16, 0x03u8),
        ((port + 2) as u16, 0xC7u8),
        ((port + 4) as u16, 0x0Bu8),
        ((port + 4) as u16, 0x1Eu8),
        (port, LOOPBACK_TEST_BYTE),
    ]
}

/// The setup of a 16550 UART: interrupts off first (0 to `port + 1`); the
/// port runs at 38400 baud: with the divisor latch opened (bit 7 of the line
/// control register at `port + 3` set), the divisor that goes to the data
/// register (low byte) and `port + 1` (high byte) is the 115200 Hz base
/// rate over 38400; then the latch is closed again with 8 data bits (bits 0
/// and 1 set), no parity and one stop bit.  The FIFO control register at
/// `port + 2` enables and clears both FIFOs (bits 0 to 2) with the 14-byte
/// threshold (bits 6 and 7); the modem control register at `port + 4` is
/// first set without loopback (bit 4 clear), then with it, and the test byte
/// goes out last.
pub proof fn lemma_setup_runs_at_38400_baud(port: u16)
    requires
        port <= u16::MAX - 5,
    ensures
        setup_steps(port)[1].0 == port + 3,
        setup_steps(port)[1].1 & 0x80 == 0x80,
        setup_steps(port)[2].0 == port,
        setup_steps(port)[3].0 == port + 1,
        setup_steps(port)[2].1 + 256 * setup_steps(port)[3].1 == 115200int / 38400int,
        setup_steps(port)[4].0 == port + 3,
        setup_steps(port)[4].1 & 0x80 == 0,
        setup_steps(port)[4].1 & 0x3F == 0x03,
        setup_steps(port)[0] == ((port + 1) as u16, 0u8),
        setup_steps(port)[5].0 == port + 2,
        setup_steps(port)[5].1 & 0x07 == 0x07,
        setup_steps(port)[5].1 & 0xC0 == 0xC0,
        setup_steps(port)[6].0 == port + 4,
        setup_steps(port)[6].1 & 0x10 == 0,
        setup_steps(port)[7].0 == port + 4,
        setup_steps(port)[7].1 & 0x10 == 0x10,
        setup_steps(port)[8] == (port, LOOPBACK_TEST_BYTE),
{
    let s = setup_steps(port);
    let lcr_open = s[1].1;
    let lcr_closed = s[4].1;
    assert(lcr_open == 0x80u8 ==> lcr_open & 0x80 == 0x80) by (bit_vector);
    assert(lcr_closed == 0x03u8 ==> lcr_closed & 0x80 == 0 && lcr_closed & 0x3F == 0x03) by (bit_vector);
    let fcr = s[5].1;
    let mcr = s[6].1;
    let loopback = s[7].1;
    assert(fcr == 0xC7u8 ==> fcr & 0x07 == 0x07 && fcr & 0xC0 == 0xC0) by (bit_vector);
    assert(mcr == 0x0Bu8 ==> mcr & 0x10 == 0) by (bit_vector);
    assert(loopback == 0x1Eu8 ==> loopback & 0x10 == 0x10) by (bit_vector);
}

/// The steps after a passed test: normal operation, and the interrupt for
/// received data on.
pub open spec fn finish_steps(port: u16) -> Seq<(u16, u8)> {
    seq![((port + 4) as u16, 0x0Fu8), ((port + 1) as u16, 0x01u8)]
}

impl SerialPort {
    /// The first serial port.
    pub fn com1() -> (r: Self)
        ensures
            r.port == 0x3F8,
    {
        SerialPort { port: 0x3F8 }
    }

    /// The writes that set the port up and start its loopback test; after
    /// them the data register is read back for [`SerialPort::init_result`].
    pub fn setup(&self) -> (r: Vec<(u16, u8)>)
        requires
            self.port <= u16::MAX - 5,
        ensures
            r@ == setup_steps(self.port),
    {
        let p = self.port;
        let r = vec![
            (p + 1, 0x00u8),
            (p + 3, 0x80u8),
            (p, 0x03u8),
            (p + 1, 0x00u8),
            (p + 3, 0x03u8),
            (p + 2, 0xC7u8),
            (p + 4, 0x0Bu8),
            (p + 4, 0x1Eu8),
            (p, LOOPBACK_TEST_BYTE),
        ];
        assert(r@ =~= setup_steps(self.port));
        r
    }

    /// Whether the port passed its loopback test, given the byte read back
    /// from its data register.
    pub fn init_result(&self, read_back: u8) -> (r: Result<(), Error>)
        ensures
            read_back == LOOPBACK_TEST_BYTE ==> r == Ok::<(), Error>(()),
            read_back != LOOPBACK_TEST_BYTE ==> r == Err::<(), Error>(Error::InitializationFailed),
    {
        if read_back != LOOPBACK_TEST_BYTE {
            Err(Error::InitializationFailed)
        } else {
            Ok(())
        }
    }

    /// The writes after a passed test.
    pub fn finish(&self) -> (r: Vec<(u16, u8)>)
        requires
            self.port <= u16::MAX - 5,
        ensures
            r@ == finish_steps(self.port),
    {
        let p = self.port;
        let r = vec![(p + 4, 0x0Fu8), (p + 1, 0x01u8)];
        assert(r@ =~= finish_steps(self.port));
        r
    }

    /// The line status register.
    pub fn line_status_port(&self) -> (r: u16)
        requires
            self.port <= u16::MAX - 5,
        ensures
            r == self.port + 5,
    {
        self.port + 5
    }

    /// Whether the line status says the port can take a byte to send.
    pub fn transmit_ready(status: u8) -> (r: bool)
        ensures
            r == (status & 0x20 != 0),
    {
        status & 0x20 != 0
    }

    /// Whether the line status says a received byte waits.
    pub fn data_ready(status: u8) -> (r: bool)
        ensures
            r == (status & 1 != 0),
    {
        status & 1 != 0
    }

    /// A writer for the port that sends `\r\n` for each `\n`.
    pub fn writer(&self) -> (r: SerialPortWriter)
        ensures
            r.port == *self,
    {
        SerialPortWriter { port: *self }
    }
}

/// What setting up the first serial port gives when its loopback test
/// reads back `read_back`: the port when the test byte came back, else the
/// error of the test.
pub open spec fn com1_result(read_back: u8) -> Result<SerialPort, Error> {
    if read_back == LOOPBACK_TEST_BYTE {
        Ok(SerialPort { port: 0x3F8 })
    } else {
        Err(Error::InitializationFailed)
    }
}

/// The first serial port once its loopback test is over, given the byte
/// read back from its data register: the port, or the error of its test.
/// The result is a function of that byte alone, so every call that sees
/// the same byte gives the same result.
pub fn com1(read_back: u8) -> (r: Result<SerialPort, Error>)
    ensures
        r == com1_result(read_back),
        read_back == LOOPBACK_TEST_BYTE ==> r == Ok::<SerialPort, Error>(SerialPort { port: 0x3F8 }),
        read_back != LOOPBACK_TEST_BYTE ==> r == Err::<SerialPort, Error>(Error::InitializationFailed),
{
    let port = SerialPort::com1();
    match port.init_result(read_back) {
        Ok(()) => Ok(port),
        Err(e) => Err(e),
    }
}

/// A writer for a serial port that sends `\r\n` for each `\n`.
#[derive(Debug, Clone, Copy)]
pub struct SerialPortWriter {
    pub port: SerialPort,
}

/// The bytes that go out for `bytes`: each `\n` becomes `\r\n`.
pub open spec fn line_bytes(bytes: Seq<u8>) -> Seq<u8>
    decreases bytes.len(),
{
    if bytes.len() == 0 {
        Seq::empty()
    } else {
        let rest = line_bytes(bytes.drop_last());
        if bytes.last() == 10u8 {
            rest.push(13u8).push(10u8)
        } else {
            rest.push(bytes.last())
        }
    }
}

impl SerialPortWriter {
    /// The bytes that go out for `s`, in order.
    pub fn encode(&self, s: &str) -> (r: Vec<u8>)
        ensures
            r@ == line_bytes(s.spec_bytes()),
    {
        let bytes = s.as_bytes();
        let mut r: Vec<u8> = Vec::new();
        let mut i: usize = 0;
        while i < bytes.len()
            invariant
                i <= bytes@.len(),
                r@ == line_bytes(bytes@.take(i as int)),
            decreases bytes@.len() - i,
        {
            proof {
                assert(bytes@.take(i + 1).drop_last() =~= bytes@.take(i as int));
            }
            if bytes[i] == 10u8 {
                r.push(13u8);
                r.push(10u8);
            } else {
                r.push(bytes[i]);
            }
            i = i + 1;
        }
        assert(bytes@.take(i as int) =~= bytes@);
        r
    }
}

} // verus!
