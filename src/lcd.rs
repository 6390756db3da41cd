//! Display controller: encodes command and character bytes as nibble
//! packets for the expander and composes them into bus transactions,
//! with the settle delays that the controller's datasheet asks for.
use vstd::prelude::*;
use vstd::string::StringSliceAdditionalSpecFns;
use crate::bus::{
    Action, address_script, lemma_loaded_bytes_append, lemma_loaded_bytes_single, loaded_bytes, i2c_address, i2c_start, i2c_stop, i2c_write, start_script,
    stop_script, write_script, writes_script,
};

verus! {

/// The expander's 7-bit bus address, the 8-bit address 0x4E shifted right by one.
pub const DISPLAY_ADDRESS: u8 = 0x27;

/// Expander bit 3: backlight, kept on.
pub const BACKLIGHT: u8 = 0x08;

/// Expander bit 2: the enable line that latches a nibble.
pub const ENABLE: u8 = 0x04;

/// Expander bit 0: register select, clear for commands and set for
/// character data.
pub const REGISTER_SELECT: u8 = 0x01;

/// The controller's clear-display command.
pub const CLEAR_DISPLAY: u8 = 0x01;

/// The character that `lcd_clear` writes over the cells.
pub const BLANK: u8 = 0x20;

/// How many cells `lcd_clear` overwrites.
pub const CLEAR_CELLS: u32 = 70;

/// One expander byte: a nibble on bits 4 to 7, the backlight on, and the
/// enable and register-select lines as given.
pub open spec fn lane(nibble: u8, enable: bool, data: bool) -> u8 {
    (nibble * 16 + BACKLIGHT + (if enable { ENABLE } else { 0u8 }) + (if data {
        REGISTER_SELECT
    } else {
        0u8
    })) as u8
}

/// The four expander bytes for one byte: high nibble then low nibble, each
/// with enable asserted and then released.
pub open spec fn packet(byte: u8, data: bool) -> Seq<u8> {
    let high = byte / 16;
    let low = byte % 16;
    seq![lane(high, true, data), lane(high, false, data), lane(low, true, data), lane(low, false, data)]
}

/// One bus transaction: START, the address, each payload byte, STOP.
pub open spec fn transaction_script(address: u8, payload: Seq<u8>) -> Seq<Action> {
    start_script() + address_script(address) + writes_script(payload) + stop_script()
}

pub open spec fn command_script(cmd: u8) -> Seq<Action> {
    transaction_script(DISPLAY_ADDRESS, packet(cmd, false))
}

pub open spec fn data_script(data: u8) -> Seq<Action> {
    transaction_script(DISPLAY_ADDRESS, packet(data, true))
}

/// One character transaction for each byte of `text`, in order.
pub open spec fn text_script(text: Seq<u8>) -> Seq<Action>
    decreases text.len(),
{
    if text.len() == 0 {
        Seq::empty()
    } else {
        text_script(text.drop_last()) + data_script(text.last())
    }
}

/// `n` transactions of the same character.
pub open spec fn repeat_data_script(data: u8, n: nat) -> Seq<Action>
    decreases n,
{
    if n == 0 {
        Seq::empty()
    } else {
        repeat_data_script(data, (n - 1) as nat) + data_script(data)
    }
}

pub open spec fn clear_script() -> Seq<Action> {
    command_script(CLEAR_DISPLAY) + repeat_data_script(BLANK, CLEAR_CELLS as nat)
}

/// The DDRAM address for a cell: row 0 starts at 0x80, row 1 at 0xC0; on
/// any other row the column is used as it is.
pub open spec fn cursor_address(row: u8, col: u8) -> u8 {
    if row == 0 {
        col | 0x80
    } else if row == 1 {
        col | 0xC0
    } else {
        col
    }
}

/// A command followed by its settle delay.
pub open spec fn init_step(cmd: u8, settle: Action) -> Seq<Action> {
    command_script(cmd).push(settle)
}

/// The power-on sequence: a wait for the supply, three "8-bit interface"
/// commands with decreasing waits, the switch to the 4-bit interface,
/// function set (two lines), display off, clear, entry mode (increment,
/// no shift) and display on without cursor or blink.
pub open spec fn init_script() -> Seq<Action> {
    seq![Action::DelayMs(50)] + init_step(0x30, Action::DelayMs(5)) + init_step(
        0x30,
        Action::DelayUs(150),
    ) + init_step(0x30, Action::DelayMs(10)) + init_step(0x20, Action::DelayMs(10)) + init_step(
        0x28,
        Action::DelayMs(1),
    ) + init_step(0x08, Action::DelayMs(1)) + init_step(0x01, Action::DelayMs(2)) + init_step(
        0x06,
        Action::DelayMs(1),
    ) + init_step(0x0C, Action::DelayMs(1))
}

/// The nibble packet for `byte`; `data` selects character data rather
/// than a command.
pub fn encode(byte: u8, data: bool) -> (r: [u8; 4])
    ensures
        r@ == packet(byte, data),
{
    let rs: u8 = if data { REGISTER_SELECT } else { 0 };
    let high: u8 = byte & 0xf0;
    let low: u8 = (byte << 4) & 0xf0;
    let r: [u8; 4] = [
        high | BACKLIGHT | ENABLE | rs,
        high | BACKLIGHT | rs,
        low | BACKLIGHT | ENABLE | rs,
        low | BACKLIGHT | rs,
    ];
    proof {
        assert(rs == 0 || rs == 1);
        assert(high | 0x08 | 0x04 | rs == ((byte / 16) * 16 + 8 + 4 + rs) as u8) by (bit_vector)
            requires
                high == byte & 0xf0,
                rs == 0 || rs == 1,
        ;
        assert(high | 0x08 | rs == ((byte / 16) * 16 + 8 + rs) as u8) by (bit_vector)
            requires
                high == byte & 0xf0,
                rs == 0 || rs == 1,
        ;
        assert(low | 0x08 | 0x04 | rs == ((byte % 16) * 16 + 8 + 4 + rs) as u8) by (bit_vector)
            requires
                low == (byte << 4) & 0xf0,
                rs == 0 || rs == 1,
        ;
        assert(low | 0x08 | rs == ((byte % 16) * 16 + 8 + rs) as u8) by (bit_vector)
            requires
                low == (byte << 4) & 0xf0,
                rs == 0 || rs == 1,
        ;
        assert(r@ =~= packet(byte, data));
    }
    r
}

/// One bus transaction to `address` carrying `payload`, one byte write
/// at a time.
pub fn lcd_write(address: u8, payload: &[u8], script: &mut Vec<Action>)
    ensures
        final(script)@ == old(script)@ + transaction_script(address, payload@),
{
    i2c_start(script);
    i2c_address(address, script);
    let ghost head = old(script)@ + start_script() + address_script(address);
    assert(script@ =~= head + writes_script(payload@.subrange(0, 0)));
    let mut i: usize = 0;
    while i < payload.len()
        invariant
            i <= payload@.len(),
            script@ == head + writes_script(payload@.subrange(0, i as int)),
        decreases payload@.len() - i,
    {
        i2c_write(payload[i], script);
        assert(payload@.subrange(0, i + 1).drop_last() =~= payload@.subrange(0, i as int));
        i = i + 1;
        assert(script@ =~= head + writes_script(payload@.subrange(0, i as int)));
    }
    assert(payload@.subrange(0, payload@.len() as int) =~= payload@);
    i2c_stop(script);
    assert(script@ =~= old(script)@ + transaction_script(address, payload@));
}

/// Sends one command byte to the display controller.
pub fn lcd_send_cmd(cmd: u8, script: &mut Vec<Action>)
    ensures
        final(script)@ == old(script)@ + command_script(cmd),
{
    let packet = encode(cmd, false);
    lcd_write(DISPLAY_ADDRESS, &packet, script);
}

/// Sends one character byte to the display controller.
pub fn lcd_send_data(data: u8, script: &mut Vec<Action>)
    ensures
        final(script)@ == old(script)@ + data_script(data),
{
    let packet = encode(data, true);
    lcd_write(DISPLAY_ADDRESS, &packet, script);
}

/// Clears the display and writes a blank over each of the first cells.
/// The command is the controller's dedicated clear-display command rather
/// than a cursor-position command.
pub fn lcd_clear(script: &mut Vec<Action>)
    ensures
        final(script)@ == old(script)@ + clear_script(),
{
    lcd_send_cmd(CLEAR_DISPLAY, script);
    let ghost head = old(script)@ + command_script(CLEAR_DISPLAY);
    assert(script@ =~= head + repeat_data_script(BLANK, 0));
    let mut n: u32 = 0;
    while n < CLEAR_CELLS
        invariant
            n <= CLEAR_CELLS,
            script@ == head + repeat_data_script(BLANK, n as nat),
        decreases CLEAR_CELLS - n,
    {
        lcd_send_data(BLANK, script);
        n = n + 1;
        assert(script@ =~= head + repeat_data_script(BLANK, n as nat));
    }
    assert(script@ =~= old(script)@ + clear_script());
}

/// Moves the cursor to `col` on `row` (0 or 1; on other rows the column
/// is sent as it is) and returns the DDRAM address that was sent.
pub fn lcd_put_cur(row: u8, col: u8, script: &mut Vec<Action>) -> (address: u8)
    ensures
        address == cursor_address(row, col),
        final(script)@ == old(script)@ + command_script(address),
{
    let address: u8 = if row == 0 {
        col | 0x80
    } else if row == 1 {
        col | 0xC0
    } else {
        col
    };
    lcd_send_cmd(address, script);
    address
}

/// Runs the power-on initialisation for the 4-bit interface. It must
/// complete before any character or cursor command is sent.
pub fn lcd_init(script: &mut Vec<Action>)
    ensures
        final(script)@ == old(script)@ + init_script(),
{
    script.push(Action::DelayMs(50));
    lcd_send_cmd(0x30, script);
    script.push(Action::DelayMs(5));
    lcd_send_cmd(0x30, script);
    script.push(Action::DelayUs(150));
    lcd_send_cmd(0x30, script);
    script.push(Action::DelayMs(10));
    lcd_send_cmd(0x20, script);
    script.push(Action::DelayMs(10));
    lcd_send_cmd(0x28, script);
    script.push(Action::DelayMs(1));
    lcd_send_cmd(0x08, script);
    script.push(Action::DelayMs(1));
    lcd_send_cmd(0x01, script);
    script.push(Action::DelayMs(2));
    lcd_send_cmd(0x06, script);
    script.push(Action::DelayMs(1));
    lcd_send_cmd(0x0C, script);
    script.push(Action::DelayMs(1));
    assert(script@ =~= old(script)@ + init_script());
}

/// Writes each byte of `input` as a character, in order, with no wrapping
/// at the display's width.
pub fn lcd_write_str(input: &str, script: &mut Vec<Action>)
    ensures
        final(script)@ == old(script)@ + text_script(input.spec_bytes()),
{
    let bytes: &[u8] = input.as_bytes();
    let ghost text = bytes@;
    assert(script@ =~= old(script)@ + text_script(text.subrange(0, 0)));
    let mut i: usize = 0;
    while i < bytes.len()
        invariant
            i <= text.len(),
            text == bytes@,
            script@ == old(script)@ + text_script(text.subrange(0, i as int)),
        decreases text.len() - i,
    {
        lcd_send_data(bytes[i], script);
        assert(text.subrange(0, i + 1).drop_last() =~= text.subrange(0, i as int));
        i = i + 1;
        assert(script@ =~= old(script)@ + text_script(text.subrange(0, i as int)));
    }
    assert(text.subrange(0, text.len() as int) =~= text);
}

/// Every nibble packet has four bytes. The first and third assert the
/// enable line and the second and fourth release it; the first two carry
/// the high nibble of the byte on bits 4 to 7, the last two its low nibble.
/// The backlight bit is on in all four.
pub proof fn lemma_packet_shape(byte: u8, data: bool)
    ensures
        packet(byte, data).len() == 4,
        packet(byte, data)[0] & ENABLE != 0,
        packet(byte, data)[1] & ENABLE == 0,
        packet(byte, data)[2] & ENABLE != 0,
        packet(byte, data)[3] & ENABLE == 0,
        packet(byte, data)[0] >> 4u8 == byte >> 4u8,
        packet(byte, data)[1] >> 4u8 == byte >> 4u8,
        packet(byte, data)[2] >> 4u8 == byte & 0x0f,
        packet(byte, data)[3] >> 4u8 == byte & 0x0f,
        forall|i: int| 0 <= i < 4 ==> #[trigger] packet(byte, data)[i] & BACKLIGHT != 0,
{
    let rs: u8 = if data { 1 } else { 0 };
    lemma_lane_bits(byte / 16, rs);
    lemma_lane_bits(byte % 16, rs);
    assert(((byte / 16) as u8) == byte >> 4u8) by (bit_vector);
    assert(((byte % 16) as u8) == byte & 0x0f) by (bit_vector);
}

/// The lane layout, bit by bit, for a nibble and a register-select value.
proof fn lemma_lane_bits(nibble: u8, rs: u8)
    requires
        nibble < 16,
        rs == 0 || rs == 1,
    ensures
        lane(nibble, true, rs == 1) & ENABLE != 0,
        lane(nibble, false, rs == 1) & ENABLE == 0,
        lane(nibble, true, rs == 1) >> 4u8 == nibble,
        lane(nibble, false, rs == 1) >> 4u8 == nibble,
        lane(nibble, true, rs == 1) & BACKLIGHT != 0,
        lane(nibble, false, rs == 1) & BACKLIGHT != 0,
        lane(nibble, true, rs == 1) & REGISTER_SELECT == rs,
        lane(nibble, false, rs == 1) & REGISTER_SELECT == rs,
{
    let on = lane(nibble, true, rs == 1);
    let off = lane(nibble, false, rs == 1);
    assert(on == (nibble * 16 + 12 + rs) as u8);
    assert(off == (nibble * 16 + 8 + rs) as u8);
    assert(((nibble * 16 + 12 + rs) as u8) & 4 != 0 && ((nibble * 16 + 12 + rs) as u8) >> 4u8
        == nibble && ((nibble * 16 + 12 + rs) as u8) & 8 != 0 && ((nibble * 16 + 12 + rs) as u8)
        & 1 == rs) by (bit_vector)
        requires
            nibble < 16,
            rs == 0 || rs == 1,
    ;
    assert(((nibble * 16 + 8 + rs) as u8) & 4 == 0 && ((nibble * 16 + 8 + rs) as u8) >> 4u8
        == nibble && ((nibble * 16 + 8 + rs) as u8) & 8 != 0 && ((nibble * 16 + 8 + rs) as u8) & 1
        == rs) by (bit_vector)
        requires
            nibble < 16,
            rs == 0 || rs == 1,
    ;
}

/// Commands and character data differ in the register-select bit of
/// every expander byte: clear for a command, set for data.
pub proof fn lemma_register_select(byte: u8)
    ensures
        forall|i: int| 0 <= i < 4 ==> #[trigger] packet(byte, false)[i] & REGISTER_SELECT == 0,
        forall|i: int| 0 <= i < 4 ==> #[trigger] packet(byte, true)[i] & REGISTER_SELECT != 0,
{
    lemma_lane_bits(byte / 16, 0);
    lemma_lane_bits(byte % 16, 0);
    lemma_lane_bits(byte / 16, 1);
    lemma_lane_bits(byte % 16, 1);
}

/// A transaction puts the address on the bus and then the payload, each
/// byte once and in order.
pub proof fn lemma_transaction_bytes(address: u8, payload: Seq<u8>)
    ensures
        loaded_bytes(transaction_script(address, payload)) == seq![address] + payload,
{
    let a = start_script();
    let b = address_script(address);
    let c = writes_script(payload);
    let d = stop_script();
    lemma_loaded_bytes_append(a, b);
    lemma_loaded_bytes_append(a + b, c);
    lemma_loaded_bytes_append(a + b + c, d);
    lemma_writes_bytes(payload);
    assert(loaded_bytes(a) =~= Seq::<u8>::empty()) by {
        lemma_loaded_bytes_append(seq![a[0], a[1]], seq![a[2]]);
        lemma_loaded_bytes_append(seq![a[0]], seq![a[1]]);
        lemma_loaded_bytes_single(a[0]);
        lemma_loaded_bytes_single(a[1]);
        lemma_loaded_bytes_single(a[2]);
        assert(seq![a[0]] + seq![a[1]] =~= seq![a[0], a[1]]);
        assert(seq![a[0], a[1]] + seq![a[2]] =~= a);
    }
    assert(loaded_bytes(b) =~= seq![address]) by {
        lemma_loaded_bytes_append(seq![b[0], b[1]], seq![b[2]]);
        lemma_loaded_bytes_append(seq![b[0]], seq![b[1]]);
        lemma_loaded_bytes_single(b[0]);
        lemma_loaded_bytes_single(b[1]);
        lemma_loaded_bytes_single(b[2]);
        assert(seq![b[0]] + seq![b[1]] =~= seq![b[0], b[1]]);
        assert(seq![b[0], b[1]] + seq![b[2]] =~= b);
    }
    lemma_loaded_bytes_single(Action::GenerateStop);
    assert(Seq::<u8>::empty() + seq![address] + payload + Seq::<u8>::empty() =~= seq![address]
        + payload);
}

proof fn lemma_writes_bytes(payload: Seq<u8>)
    ensures
        loaded_bytes(writes_script(payload)) == payload,
    decreases payload.len(),
{
    if payload.len() == 0 {
        assert(payload =~= Seq::<u8>::empty());
    } else {
        let w = write_script(payload.last());
        lemma_writes_bytes(payload.drop_last());
        lemma_loaded_bytes_append(writes_script(payload.drop_last()), w);
        lemma_loaded_bytes_append(seq![w[0], w[1]], seq![w[2]]);
        lemma_loaded_bytes_append(seq![w[0]], seq![w[1]]);
        lemma_loaded_bytes_single(w[0]);
        lemma_loaded_bytes_single(w[1]);
        lemma_loaded_bytes_single(w[2]);
        assert(seq![w[0]] + seq![w[1]] =~= seq![w[0], w[1]]);
        assert(seq![w[0], w[1]] + seq![w[2]] =~= w);
        assert(payload.drop_last() + seq![payload.last()] =~= payload);
    }
}

/// A command and a character never put the same bytes on the bus, so the
/// controller can always tell them apart.
pub proof fn lemma_command_differs_from_data(cmd: u8, data: u8)
    ensures
        loaded_bytes(command_script(cmd))[1] & REGISTER_SELECT == 0,
        loaded_bytes(data_script(data))[1] & REGISTER_SELECT != 0,
        command_script(cmd) != data_script(data),
{
    lemma_transaction_bytes(DISPLAY_ADDRESS, packet(cmd, false));
    lemma_transaction_bytes(DISPLAY_ADDRESS, packet(data, true));
    lemma_register_select(cmd);
    lemma_register_select(data);
    assert((seq![DISPLAY_ADDRESS] + packet(cmd, false))[1] == packet(cmd, false)[0]);
    assert((seq![DISPLAY_ADDRESS] + packet(data, true))[1] == packet(data, true)[0]);
}

} // verus!
