use plotter_core::cncmachine::frame_instruction;
use plotter_core::cncmachine::CNCMachine;

const BOGUS_PORT: &str = "/dev/plotter-port-that-does-not-exist";

#[test]
fn new_machine_starts_descended() {
    let m = CNCMachine::new("/dev/ttyUSB0", 115200);
    assert_eq!(m.get_head_state(), false);
    assert_eq!(m.get_head_state_as_str(), "Descended");
    assert_eq!(m.get_baud_rate(), 115200);
    assert_eq!(m.get_port_path(), "/dev/ttyUSB0");
}

#[test]
fn default_machine_is_unbound_and_descended() {
    let m = CNCMachine::default();
    assert_eq!(m.get_port_path(), "");
    assert_eq!(m.get_baud_rate(), 0);
    assert_eq!(m.get_head_state_as_str(), "Descended");
}

#[test]
fn frame_appends_carriage_return() {
    assert_eq!(frame_instruction("G0"), vec![b'G', b'0', b'\r']);
    assert_eq!(frame_instruction(""), vec![b'\r']);
    assert_eq!(frame_instruction("M300 S50"), b"M300 S50\r".to_vec());
}

#[test]
fn send_against_unopenable_endpoint_is_transport_error() {
    let m = CNCMachine::new(BOGUS_PORT, 9600);
    let r = m.send_instruction("G0");
    match r {
        Ok(()) => panic!("an unopenable endpoint must not accept a write"),
        Err(e) => {
            assert!(e.is_transport());
            let _ = e.message();
        }
    }
    // The session itself is untouched.
    assert_eq!(m.get_head_state(), false);
    assert_eq!(m.get_port_path(), BOGUS_PORT);
    assert_eq!(m.get_baud_rate(), 9600);
}

#[test]
fn failed_lift_leaves_head_state_unchanged() {
    let mut m = CNCMachine::new(BOGUS_PORT, 9600);
    let r = m.lift_the_head();
    assert!(r.is_err());
    assert!(r.unwrap_err().is_transport());
    assert_eq!(m.get_head_state(), false);
    assert_eq!(m.get_head_state_as_str(), "Descended");
}

#[test]
fn failed_descend_leaves_head_state_unchanged() {
    let mut m = CNCMachine::new(BOGUS_PORT, 9600);
    let r = m.descend_the_head();
    assert!(r.is_err());
    assert_eq!(m.get_head_state(), false);
}

// A pseudoterminal master is a tty the transport can usually open, so
// these tests see the success path where the host allows it and the
// failure path where it does not; either way the head state must agree
// with the reported outcome.

#[test]
fn successful_lift_transitions_to_lifted() {
    let mut m = CNCMachine::new("/dev/ptmx", 9600);
    match m.lift_the_head() {
        Ok(()) => {
            assert_eq!(m.get_head_state(), true);
            assert_eq!(m.get_head_state_as_str(), "Lifted");
        }
        Err(e) => {
            assert!(e.is_transport());
            assert_eq!(m.get_head_state(), false);
        }
    }
}

#[test]
fn lift_twice_does_not_toggle() {
    let mut m = CNCMachine::new("/dev/ptmx", 9600);
    let first = m.lift_the_head();
    let after_first = m.get_head_state();
    if first.is_ok() {
        assert_eq!(after_first, true);
    }
    let second = m.lift_the_head();
    if second.is_ok() {
        assert_eq!(m.get_head_state(), true);
    } else {
        assert_eq!(m.get_head_state(), after_first);
    }
}

#[test]
fn descend_after_lift_returns_head() {
    let mut m = CNCMachine::new("/dev/ptmx", 9600);
    if m.lift_the_head().is_ok() {
        assert_eq!(m.get_head_state_as_str(), "Lifted");
        if m.descend_the_head().is_ok() {
            assert_eq!(m.get_head_state_as_str(), "Descended");
        } else {
            assert_eq!(m.get_head_state_as_str(), "Lifted");
        }
    }
}
