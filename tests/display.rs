use lcd_i2c::bus::{
    flag_raised, i2c_address, i2c_start, i2c_stop, i2c_write, i2c_write_multi, Action, SR1_ADDR,
    SR1_BTF, SR1_SB, SR1_TXE,
};
use lcd_i2c::lcd::{
    encode, lcd_clear, lcd_init, lcd_put_cur, lcd_send_cmd, lcd_send_data, lcd_write,
    lcd_write_str, DISPLAY_ADDRESS,
};

#[derive(Debug, PartialEq)]
enum Event {
    Transfer(u8, Vec<u8>),
    DelayMs(u32),
    DelayUs(u32),
}

/// Groups a script into bus transactions and delays.
fn events(script: &[Action]) -> Vec<Event> {
    let mut out = Vec::new();
    let mut current: Option<Vec<u8>> = None;
    for a in script {
        match *a {
            Action::GenerateStart => current = Some(Vec::new()),
            Action::LoadData(b) => current.as_mut().expect("byte outside a transaction").push(b),
            Action::GenerateStop => {
                let bytes = current.take().expect("stop outside a transaction");
                out.push(Event::Transfer(bytes[0], bytes[1..].to_vec()));
            }
            Action::DelayMs(n) => out.push(Event::DelayMs(n)),
            Action::DelayUs(n) => out.push(Event::DelayUs(n)),
            _ => {}
        }
    }
    assert!(current.is_none());
    out
}

fn decode(packet: &[u8]) -> u8 {
    (packet[0] & 0xf0) | (packet[2] >> 4)
}

#[test]
fn encode_command_nibbles() {
    assert_eq!(encode(0xA5, false), [0xAC, 0xA8, 0x5C, 0x58]);
    assert_eq!(encode(0x00, false), [0x0C, 0x08, 0x0C, 0x08]);
    assert_eq!(encode(0xFF, false), [0xFC, 0xF8, 0xFC, 0xF8]);
}

#[test]
fn encode_shape_for_every_byte() {
    for c in 0..=255u8 {
        for data in [false, true] {
            let p = encode(c, data);
            assert_eq!(p.len(), 4);
            assert!(p[0] & 0x04 != 0 && p[2] & 0x04 != 0);
            assert!(p[1] & 0x04 == 0 && p[3] & 0x04 == 0);
            assert_eq!(p[0] >> 4, c >> 4);
            assert_eq!(p[1] >> 4, c >> 4);
            assert_eq!(p[2] >> 4, c & 0x0f);
            assert_eq!(p[3] >> 4, c & 0x0f);
            assert!(p.iter().all(|b| b & 0x08 != 0));
            assert!(p.iter().all(|b| (b & 0x01 != 0) == data));
        }
    }
}

#[test]
fn command_and_data_use_different_mode_bits() {
    let mut cmd = Vec::new();
    lcd_send_cmd(0x41, &mut cmd);
    let mut data = Vec::new();
    lcd_send_data(0x41, &mut data);
    assert_ne!(cmd, data);
    assert_eq!(events(&cmd), vec![Event::Transfer(DISPLAY_ADDRESS, vec![0x4C, 0x48, 0x1C, 0x18])]);
    assert_eq!(events(&data), vec![Event::Transfer(DISPLAY_ADDRESS, vec![0x4D, 0x49, 0x1D, 0x19])]);
}

#[test]
fn cursor_rows() {
    let mut s = Vec::new();
    assert_eq!(lcd_put_cur(0, 5, &mut s), 0x85);
    assert_eq!(events(&s), vec![Event::Transfer(DISPLAY_ADDRESS, encode(0x85, false).to_vec())]);
    let mut s = Vec::new();
    assert_eq!(lcd_put_cur(1, 5, &mut s), 0xC5);
    assert_eq!(events(&s), vec![Event::Transfer(DISPLAY_ADDRESS, encode(0xC5, false).to_vec())]);
    let mut s = Vec::new();
    assert_eq!(lcd_put_cur(2, 5, &mut s), 5);
    assert_eq!(events(&s), vec![Event::Transfer(DISPLAY_ADDRESS, encode(5, false).to_vec())]);
    let mut s = Vec::new();
    assert_eq!(lcd_put_cur(0, 0, &mut s), 0x80);
}

#[test]
fn clear_sends_one_command_then_seventy_blanks() {
    let mut s = Vec::new();
    lcd_clear(&mut s);
    let ev = events(&s);
    assert_eq!(ev.len(), 71);
    assert_eq!(ev[0], Event::Transfer(DISPLAY_ADDRESS, encode(0x01, false).to_vec()));
    for e in &ev[1..] {
        assert_eq!(*e, Event::Transfer(DISPLAY_ADDRESS, encode(b' ', true).to_vec()));
    }
}

#[test]
fn write_string_hello() {
    let mut s = Vec::new();
    lcd_write_str("hello", &mut s);
    let ev = events(&s);
    assert_eq!(ev.len(), 5);
    let mut total = 0;
    for (e, ch) in ev.iter().zip("hello".bytes()) {
        match e {
            Event::Transfer(addr, payload) => {
                assert_eq!(*addr, DISPLAY_ADDRESS);
                assert_eq!(payload.len(), 4);
                assert_eq!(*payload, encode(ch, true).to_vec());
                total += payload.len();
            }
            other => panic!("unexpected {:?}", other),
        }
    }
    assert_eq!(total, 20);
}

#[test]
fn write_empty_string() {
    let mut s = vec![Action::DelayMs(3)];
    lcd_write_str("", &mut s);
    assert_eq!(s, vec![Action::DelayMs(3)]);
}

#[test]
fn init_order_and_delays() {
    let mut s = Vec::new();
    lcd_init(&mut s);
    let ev = events(&s);
    let mut expected = vec![Event::DelayMs(50)];
    let steps = [
        (0x30, Event::DelayMs(5)),
        (0x30, Event::DelayUs(150)),
        (0x30, Event::DelayMs(10)),
        (0x20, Event::DelayMs(10)),
        (0x28, Event::DelayMs(1)),
        (0x08, Event::DelayMs(1)),
        (0x01, Event::DelayMs(2)),
        (0x06, Event::DelayMs(1)),
        (0x0C, Event::DelayMs(1)),
    ];
    for (cmd, delay) in steps {
        expected.push(Event::Transfer(DISPLAY_ADDRESS, encode(cmd, false).to_vec()));
        expected.push(delay);
    }
    assert_eq!(ev, expected);
    let commands: Vec<u8> = ev
        .iter()
        .filter_map(|e| match e {
            Event::Transfer(_, p) => Some(decode(p)),
            _ => None,
        })
        .collect();
    assert_eq!(commands, vec![0x30, 0x30, 0x30, 0x20, 0x28, 0x08, 0x01, 0x06, 0x0C]);
}

#[test]
fn write_multi_forward_order() {
    let mut s = Vec::new();
    i2c_write_multi(&[1, 2, 3], &mut s);
    assert_eq!(
        s,
        vec![
            Action::AwaitFlag(SR1_TXE),
            Action::AwaitFlag(SR1_TXE),
            Action::LoadData(1),
            Action::AwaitFlag(SR1_TXE),
            Action::LoadData(2),
            Action::AwaitFlag(SR1_TXE),
            Action::LoadData(3),
            Action::AwaitFlag(SR1_BTF),
        ]
    );
}

#[test]
fn write_multi_each_byte_once() {
    let payload: Vec<u8> = (0..=255u8).collect();
    let mut s = Vec::new();
    i2c_write_multi(&payload, &mut s);
    let sent: Vec<u8> = s
        .iter()
        .filter_map(|a| match a {
            Action::LoadData(b) => Some(*b),
            _ => None,
        })
        .collect();
    assert_eq!(sent, payload);
}

#[test]
fn write_multi_empty() {
    let mut s = Vec::new();
    i2c_write_multi(&[], &mut s);
    assert_eq!(s, vec![Action::AwaitFlag(SR1_TXE), Action::AwaitFlag(SR1_BTF)]);
}

#[test]
fn bus_phases() {
    let mut s = vec![Action::DelayUs(1)];
    i2c_start(&mut s);
    i2c_address(0x27, &mut s);
    i2c_write(0x9A, &mut s);
    i2c_stop(&mut s);
    assert_eq!(
        s,
        vec![
            Action::DelayUs(1),
            Action::EnableAck,
            Action::GenerateStart,
            Action::AwaitFlag(SR1_SB),
            Action::LoadData(0x27),
            Action::AwaitFlag(SR1_ADDR),
            Action::ClearAddr,
            Action::AwaitFlag(SR1_TXE),
            Action::LoadData(0x9A),
            Action::AwaitFlag(SR1_BTF),
            Action::GenerateStop,
        ]
    );
}

#[test]
fn transaction_with_empty_payload() {
    let mut s = Vec::new();
    lcd_write(0x3F, &[], &mut s);
    assert_eq!(events(&s), vec![Event::Transfer(0x3F, vec![])]);
    assert_eq!(s.len(), 7);
}

#[test]
fn flags_from_status_register() {
    assert!(flag_raised(0x0001, SR1_SB));
    assert!(!flag_raised(0x0080, SR1_SB));
    assert!(flag_raised(0x0082, SR1_ADDR));
    assert!(flag_raised(0x0084, SR1_TXE));
    assert!(!flag_raised(0x0000, SR1_BTF));
    assert!(flag_raised(0xFFFF, SR1_BTF));
}
