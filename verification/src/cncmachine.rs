//! Machine controller: owns the serial connection parameters, sends
//! single instructions over the link, and tracks the logical head
//! position of the tool.

use vstd::prelude::*;
use vstd::string::StringSliceAdditionalSpecFns;

use crate::errors::CoreError;

verus! {

/// A session bound to one serial endpoint at one baud rate.  The head
/// position is logical: it changes only on a transmission the
/// transport reported successful, so it may lag reality when a send
/// fails.
pub struct CNCMachine {
    pub port_path: String,
    pub baud_rate: u32,
    pub head_state: bool,
}

/// The machine with its head position set and all else kept.
pub open spec fn with_head(m: CNCMachine, state: bool) -> CNCMachine {
    CNCMachine { head_state: state, ..m }
}

/// The label of a head position: lifted when true, descended when
/// false.
pub open spec fn head_label(state: bool) -> Seq<char> {
    if state {
        "Lifted"@
    } else {
        "Descended"@
    }
}

/// An instruction as it goes over the wire: its text followed by a
/// single carriage-return terminator.
pub fn frame_instruction(instruction: &str) -> (r: Vec<u8>)
    ensures
        r@ == instruction.spec_bytes() + seq![13u8],
{
    let mut data = instruction.as_bytes_vec();
    data.push(13);
    proof {
        assert(data@ =~= instruction.spec_bytes() + seq![13u8]);
    }
    data
}

/// Relies on `serialport::new`, `SerialPortBuilder::timeout` and
/// `SerialPortBuilder::open` to open the named endpoint at the given
/// baud rate with a 10 ms timeout, and on `std::io::Write::write_all`
/// on the opened port to write the whole buffer.  Whether the endpoint
/// opens and the write completes depends on the host, so success is
/// not promised; every failure is reported as the transport kind.
#[verifier::external_body]
fn serial_transmit(port_path: &str, baud_rate: u32, data: &Vec<u8>) -> (r: Result<(), CoreError>)
    ensures
        r is Err ==> r->Err_0 is TransportError,
{
    let opened = serialport::new(port_path, baud_rate)
        .timeout(std::time::Duration::from_millis(10))
        .open();
    match opened {
        Ok(mut port) => match std::io::Write::write_all(&mut port, data.as_slice()) {
            Ok(()) => Ok(()),
            Err(e) => Err(CoreError::TransportError { message: e.to_string() }),
        },
        Err(e) => Err(CoreError::TransportError { message: e.to_string() }),
    }
}

impl CNCMachine {
    /// A session on the given endpoint and baud rate; the head starts
    /// descended.
    pub fn new(port_path: &str, baud_rate: u32) -> (m: Self)
        ensures
            m.port_path@ == port_path@,
            m.baud_rate == baud_rate,
            m.head_state == false,
    {
        CNCMachine { port_path: String::from_str(port_path), baud_rate, head_state: false }
    }

    /// Sends the tool-off pulse.  On success the head is lifted; on a
    /// transport failure the whole session, head position included, is
    /// left as it was.
    pub fn lift_the_head(&mut self) -> (r: Result<(), CoreError>)
        ensures
            r is Ok ==> *final(self) == with_head(*old(self), true),
            r is Err ==> *final(self) == *old(self) && r->Err_0 is TransportError,
    {
        let result = self.send_instruction("M300 S50");
        match result {
            Ok(_) => {
                self.set_head_state(true);
                Ok(())
            },
            Err(e) => Err(e),
        }
    }

    /// Sends the tool-on pulse.  On success the head is descended; on
    /// a transport failure the whole session is left as it was.
    pub fn descend_the_head(&mut self) -> (r: Result<(), CoreError>)
        ensures
            r is Ok ==> *final(self) == with_head(*old(self), false),
            r is Err ==> *final(self) == *old(self) && r->Err_0 is TransportError,
    {
        let result = self.send_instruction("M300 S30.00");
        match result {
            Ok(_) => {
                self.set_head_state(false);
                Ok(())
            },
            Err(e) => Err(e),
        }
    }

    /// Logical head position: true when lifted, false when descended.
    pub fn get_head_state(&self) -> (r: bool)
        ensures
            r == self.head_state,
    {
        self.head_state
    }

    /// The head position's label.
    pub fn get_head_state_as_str(&self) -> (r: &str)
        ensures
            r@ == head_label(self.head_state),
    {
        if self.get_head_state() {
            "Lifted"
        } else {
            "Descended"
        }
    }

    fn set_head_state(&mut self, state: bool)
        ensures
            *final(self) == with_head(*old(self), state),
    {
        self.head_state = state;
    }

    /// The configured baud rate.
    pub fn get_baud_rate(&self) -> (r: u32)
        ensures
            r == self.baud_rate,
    {
        self.baud_rate
    }

    /// The bound endpoint's name.
    pub fn get_port_path(&self) -> (r: &str)
        ensures
            r@ == self.port_path@,
    {
        self.port_path.as_str()
    }

    /// Opens the bound endpoint, writes the instruction with its
    /// carriage-return terminator as one buffer, and releases the
    /// endpoint before returning: one full open-write-close cycle per
    /// instruction, no connection held across calls.  A failure to
    /// open or to complete the write is a transport error; the session
    /// itself is untouched either way.
    pub fn send_instruction(&self, instruction: &str) -> (r: Result<(), CoreError>)
        ensures
            r is Err ==> r->Err_0 is TransportError,
    {
        let data = frame_instruction(instruction);
        serial_transmit(self.port_path.as_str(), self.baud_rate, &data)
    }
}

impl Default for CNCMachine {
    /// A session bound to no endpoint, at baud rate zero, head
    /// descended.
    fn default() -> (m: Self)
        ensures
            m.port_path@ == Seq::<char>::empty(),
            m.baud_rate == 0,
            m.head_state == false,
    {
        CNCMachine { port_path: String::new(), baud_rate: 0, head_state: false }
    }
}

/// Actuation is idempotent: setting the head a second time to the same
/// position is no change, and never touches the endpoint binding.  So
/// two successful lifts in a row leave the head lifted after either
/// call, with no toggling; likewise for two descents.
pub proof fn lemma_actuation_idempotent(m: CNCMachine, state: bool)
    ensures
        with_head(with_head(m, state), state) == with_head(m, state),
        with_head(m, state).head_state == state,
        with_head(m, state).port_path == m.port_path,
        with_head(m, state).baud_rate == m.baud_rate,
{
}

} // verus!
