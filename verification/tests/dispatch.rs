//! Dispatcher scenarios, actuation, sampling, and the store and mailbox.

use eload::actuation::{actuation_events, pack_dac_frame, pwm_duty, shutdown_high, DacEvent};
use eload::coms::{QControl, QRequest, QResponse, QState};
use eload::rpc::{handle_frame, process_request, on_transport_error, Commands, Errors, LinkState, TransportError};
use eload::sampling::temp_from_raw;
use eload::state::{LoadControl, LoadState, Mailbox, Store};

fn state_with_defaults() -> LoadState {
    LoadState { ch0: 0, ch1: 0, ch2: 0, ch3: 0, cal: 0, v: 0, temp: 0, sdn: 0 }
}

#[test]
fn scenario_control_request() {
    // request {id:5, op:1, data: Control{shutdown:1, pwm:50, dac0:1000}}
    let control = QControl { sdn: 1, pwm: 50, dac0: 1000, dac1: 0, dac2: 0, dac3: 0 };
    let request = QRequest { id: 5, op: 1, data: control.to_framed() };
    let packet = request.to_framed();
    let state = state_with_defaults();
    let (reply, cmd) = handle_frame(&packet, &state);
    // response {id:5, error:0, data:empty}
    let expected = QResponse { id: 5, error: 0, data: Vec::new() }.to_framed();
    assert_eq!(reply, Some(expected));
    // the command for the actuation task
    let cmd = cmd.expect("a control request carries a command");
    assert_eq!(
        cmd,
        LoadControl { sdn: 1, pwm: 50, dac0: 1000, dac1: 0, dac2: 0, dac3: 0 }
    );
    // the actuation: shutdown high, DAC0 frame for (1000<<6)&0xFFFFFF, duty 50%
    assert!(shutdown_high(cmd.sdn));
    assert_eq!(pack_dac_frame(cmd.dac0), (0x00, 0xFA, 0x00));
    let events = actuation_events(&cmd);
    assert_eq!(events.len(), 12);
    assert_eq!(events[0], DacEvent::Select(0));
    assert_eq!(events[1], DacEvent::Transfer(0x00, 0xFA, 0x00));
    assert_eq!(events[2], DacEvent::Deselect(0));
    assert_eq!(events[3], DacEvent::Select(1));
    assert_eq!(events[11], DacEvent::Deselect(3));
    assert_eq!(pwm_duty(480, cmd.pwm), 240);
}

#[test]
fn scenario_unparseable_envelope() {
    // a continuation bit with nothing after it: no envelope at all
    let packet: Vec<u8> = vec![0xFF];
    let state = state_with_defaults();
    let (reply, cmd) = handle_frame(&packet, &state);
    assert_eq!(cmd, None);
    let expected = QResponse { id: 0, error: 2, data: Vec::new() }.to_framed();
    assert_eq!(reply, Some(expected));
    // the exact bytes: one-byte length, then field 2 = 2
    assert_eq!(reply.unwrap(), vec![0x02, 0x10, 0x02]);
}

#[test]
fn scenario_status_request() {
    let state = LoadState {
        ch0: 100,
        ch1: 101,
        ch2: 102,
        ch3: 103,
        cal: 1650,
        v: 3300,
        temp: -40,
        sdn: 1,
    };
    let request = QRequest { id: 9, op: 2, data: Vec::new() };
    let (reply, cmd) = handle_frame(&request.to_framed(), &state);
    assert_eq!(cmd, None);
    let reply = reply.expect("a fitting status reply is sent");
    // the reply's one-byte length prefix, then the response envelope
    assert_eq!(reply[0] as usize, reply.len() - 1);
    let response = QResponse::from_reader(&reply[1..]).expect("the reply is well-formed");
    let (id, error, data) = (response.id, response.error, response.data);
    assert_eq!(id, 9);
    assert_eq!(error, 0);
    // the payload is the framed status: its body decodes to the snapshot
    let expected = QState {
        ch0: 100,
        ch1: 101,
        ch2: 102,
        ch3: 103,
        cal: 1650,
        v: 3300,
        temp: -40,
        sdn: 1,
    };
    assert_eq!(data, expected.to_framed());
    assert_eq!(QState::from_reader(&data[1..]), Some(expected));
}

#[test]
fn invalid_operation_echoes_identifier() {
    let request = QRequest { id: 7, op: 99, data: Vec::new() };
    let state = state_with_defaults();
    let (reply, cmd) = handle_frame(&request.to_framed(), &state);
    assert_eq!(cmd, None);
    let expected = QResponse { id: 7, error: 1, data: Vec::new() }.to_framed();
    assert_eq!(reply, Some(expected));
}

#[test]
fn malformed_control_payload_is_an_error() {
    let request = QRequest { id: 3, op: 1, data: vec![9] };
    let state = state_with_defaults();
    let (reply, cmd) = handle_frame(&request.to_framed(), &state);
    assert_eq!(cmd, None);
    let expected = QResponse { id: 3, error: 4, data: Vec::new() }.to_framed();
    assert_eq!(reply, Some(expected));
}

#[test]
fn oversized_status_is_an_error() {
    // eight negative fields take eleven bytes each: far past the 32-byte
    // payload buffer
    let state = LoadState {
        ch0: -1,
        ch1: -1,
        ch2: -1,
        ch3: -1,
        cal: -1,
        v: -1,
        temp: -1,
        sdn: -1,
    };
    let request = QRequest { id: 4, op: 2, data: Vec::new() };
    let (reply, cmd) = handle_frame(&request.to_framed(), &state);
    assert_eq!(cmd, None);
    let expected = QResponse { id: 4, error: 5, data: Vec::new() }.to_framed();
    assert_eq!(reply, Some(expected));
}

#[test]
fn nop_request_is_acknowledged() {
    let request = QRequest { id: 11, op: 0, data: Vec::new() };
    let state = state_with_defaults();
    let (reply, cmd) = handle_frame(&request.to_framed(), &state);
    assert_eq!(cmd, None);
    let expected = QResponse { id: 11, error: 0, data: Vec::new() }.to_framed();
    assert_eq!(reply, Some(expected));
}

#[test]
fn process_request_rejects_unknown_operation() {
    let request = QRequest { id: 1, op: -3, data: Vec::new() };
    let state = state_with_defaults();
    let mut response = QResponse::default();
    let r = process_request(&request, &state, &mut response);
    assert_eq!(r, Err(Errors::InvalidCommand));
    // the response is untouched on failure
    assert_eq!(response.id, 0);
    assert_eq!(response.error, 0);
    assert!(response.data.is_empty());
}

#[test]
fn commands_from_i32_taxonomy() {
    assert_eq!(Commands::from_i32(0), Some(Commands::NOP));
    assert_eq!(Commands::from_i32(1), Some(Commands::Control));
    assert_eq!(Commands::from_i32(2), Some(Commands::Status));
    assert_eq!(Commands::from_i32(3), None);
    assert_eq!(Commands::from_i32(-1), None);
    assert_eq!(Commands::from_i32(99), None);
}

#[test]
fn error_codes_and_names() {
    assert_eq!(Errors::NoError.code(), 0);
    assert_eq!(Errors::InvalidCommand.code(), 1);
    assert_eq!(Errors::ErrorDeserializingRequest.code(), 2);
    assert_eq!(Errors::ErrorSerializingResponse.code(), 3);
    assert_eq!(Errors::ErrorDeserializingRequestData.code(), 4);
    assert_eq!(Errors::ErrorSerializingResponseData.code(), 5);
    assert_eq!(Errors::to_string(&Errors::InvalidCommand), "invalid command");
    assert_eq!(
        Errors::to_string(&Errors::ErrorDeserializingRequest),
        "error deserializing request"
    );
    assert_eq!(
        Errors::to_string(&Errors::ErrorSerializingResponse),
        "error serializing response"
    );
    assert_eq!(
        Errors::to_string(&Errors::ErrorDeserializingRequestData),
        "error deserializing request data"
    );
    assert_eq!(
        Errors::to_string(&Errors::ErrorSerializingResponseData),
        "error serializing response data"
    );
}

#[test]
fn duty_boundaries() {
    assert_eq!(pwm_duty(480, 0), 0);
    assert_eq!(pwm_duty(480, 100), 480);
    assert_eq!(pwm_duty(1000, 50), 500);
    assert_eq!(pwm_duty(u16::MAX, 100), u16::MAX);
    // the duty is rounded to the nearest timer step, not truncated
    assert_eq!(pwm_duty(3, 50), 2);
    assert_eq!(pwm_duty(3, 52), 2);
    assert_eq!(pwm_duty(3, 33), 1);
}

#[test]
fn dac_frames_mask_to_sixteen_bits() {
    assert_eq!(pack_dac_frame(0), (0, 0, 0));
    assert_eq!(pack_dac_frame(1), (0x00, 0x00, 0x40));
    assert_eq!(pack_dac_frame(0xFFFF), (0x3F, 0xFF, 0xC0));
    // only the low sixteen bits of the set-point reach the bus
    assert_eq!(pack_dac_frame(0x1_0000), (0, 0, 0));
    assert_eq!(pack_dac_frame(-1), (0x3F, 0xFF, 0xC0));
}

#[test]
fn mailbox_is_single_slot_with_backpressure() {
    let mut mb = Mailbox::new();
    assert_eq!(mb.try_receive(), None);
    let cmd = LoadControl { sdn: 1, pwm: 10, dac0: 1, dac1: 2, dac2: 3, dac3: 4 };
    assert!(mb.try_send(cmd));
    // the slot is full: the same send again has to wait
    assert!(!mb.try_send(cmd));
    assert_eq!(mb.try_receive(), Some(cmd));
    // after consumption the repeat goes through and delivers the same command
    assert!(mb.try_send(cmd));
    assert_eq!(mb.try_receive(), Some(cmd));
    assert_eq!(mb.try_receive(), None);
}

#[test]
fn same_command_twice_actuates_identically() {
    let cmd = LoadControl { sdn: 1, pwm: 75, dac0: 10, dac1: 20, dac2: 30, dac3: 40 };
    let first = actuation_events(&cmd);
    let second = actuation_events(&cmd);
    assert_eq!(first, second);
    assert_eq!(pwm_duty(480, cmd.pwm), pwm_duty(480, cmd.pwm));
}

#[test]
fn store_updates_are_per_pass() {
    let mut store = Store::new();
    let samples: [u16; 6] = [10, 20, 30, 40, 50, 60];
    store.apply_adc_samples(&samples);
    let s = store.read();
    assert_eq!(s.ch0, 10);
    assert_eq!(s.ch1, 20);
    assert_eq!(s.ch2, 30);
    assert_eq!(s.ch3, 40);
    assert_eq!(s.cal, 50);
    assert_eq!(s.v, 60);
    assert_eq!(s.temp, 0);
    store.apply_temp_reading(-40);
    let s2 = store.read();
    assert_eq!(s2.temp, -40);
    // the ADC fields are untouched by a temperature write
    assert_eq!(s2.ch0, 10);
    assert_eq!(s2.v, 60);
}

#[test]
fn transport_errors_end_or_halt_the_session() {
    // a disconnect sends the dispatcher back to waiting; an overflow is fatal
    assert_eq!(
        on_transport_error(TransportError::Disabled),
        Some(LinkState::WaitingForConnection)
    );
    assert_eq!(on_transport_error(TransportError::BufferOverflow), None);
}

#[test]
fn temperature_decoding() {
    // 0x028 = 40: positive reading
    assert_eq!(temp_from_raw(0x02, 0x80), 40);
    // 0xFD8 = 4056: two's complement for -40
    assert_eq!(temp_from_raw(0xFD, 0x80), -40);
    assert_eq!(temp_from_raw(0x00, 0x00), 0);
    assert_eq!(temp_from_raw(0x7F, 0xF0), 2047);
    assert_eq!(temp_from_raw(0x80, 0x00), -2048);
    // the low four bits of the second byte are not part of the reading
    assert_eq!(temp_from_raw(0x02, 0x8F), 40);
}
