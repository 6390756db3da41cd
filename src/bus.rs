//! I2C master bus driver: START, address, data and STOP phases as
//! register-level actions, each wait expressed as a poll on an SR1 flag.
use vstd::prelude::*;

verus! {

/// SR1 bit 0: the START condition has been generated.
pub const SR1_SB: u32 = 0x0001;

/// SR1 bit 1: the target address has been sent and acknowledged.
pub const SR1_ADDR: u32 = 0x0002;

/// SR1 bit 2: the byte transfer has finished.
pub const SR1_BTF: u32 = 0x0004;

/// SR1 bit 7: the data register is empty.
pub const SR1_TXE: u32 = 0x0080;

/// One step for the executor, in the order the hardware must see them.
#[derive(Clone, Copy, Debug, PartialEq, Eq, Structural)]
pub enum Action {
    /// Set the ACK bit of CR1, keeping the other bits.
    EnableAck,
    /// Set the START bit of CR1, keeping the other bits.
    GenerateStart,
    /// Read SR1 until `flag_raised(sr1, mask)` holds. There is no timeout:
    /// if the flag never rises, the wait never ends.
    AwaitFlag(u32),
    /// Write one byte to the data register.
    LoadData(u8),
    /// Read SR1 and then SR2, which clears the address-sent condition.
    ClearAddr,
    /// Write CR1 with only STOP set. The executor does not wait for the
    /// bus to go idle afterwards.
    GenerateStop,
    /// Block for the given number of milliseconds.
    DelayMs(u32),
    /// Block for the given number of microseconds.
    DelayUs(u32),
}

pub open spec fn start_script() -> Seq<Action> {
    seq![Action::EnableAck, Action::GenerateStart, Action::AwaitFlag(SR1_SB)]
}

pub open spec fn address_script(address: u8) -> Seq<Action> {
    seq![Action::LoadData(address), Action::AwaitFlag(SR1_ADDR), Action::ClearAddr]
}

pub open spec fn write_script(data: u8) -> Seq<Action> {
    seq![Action::AwaitFlag(SR1_TXE), Action::LoadData(data), Action::AwaitFlag(SR1_BTF)]
}

pub open spec fn stop_script() -> Seq<Action> {
    seq![Action::GenerateStop]
}

/// One single-byte write per element of `data`, first element first.
pub open spec fn writes_script(data: Seq<u8>) -> Seq<Action>
    decreases data.len(),
{
    if data.len() == 0 {
        Seq::empty()
    } else {
        writes_script(data.drop_last()) + write_script(data.last())
    }
}

/// The body of a burst write: for each byte, first to last, a wait for an
/// empty data register and then the load.
pub open spec fn burst_body(data: Seq<u8>) -> Seq<Action>
    decreases data.len(),
{
    if data.len() == 0 {
        Seq::empty()
    } else {
        burst_body(data.drop_last()) + seq![Action::AwaitFlag(SR1_TXE), Action::LoadData(data.last())]
    }
}

pub open spec fn burst_script(data: Seq<u8>) -> Seq<Action> {
    seq![Action::AwaitFlag(SR1_TXE)] + burst_body(data) + seq![Action::AwaitFlag(SR1_BTF)]
}

/// The bytes that a script puts on the bus, in order.
pub open spec fn loaded_bytes(script: Seq<Action>) -> Seq<u8>
    decreases script.len(),
{
    if script.len() == 0 {
        Seq::empty()
    } else {
        match script.last() {
            Action::LoadData(b) => loaded_bytes(script.drop_last()).push(b),
            _ => loaded_bytes(script.drop_last()),
        }
    }
}

/// Whether the flag bits `mask` show in a value read from SR1.
pub fn flag_raised(sr1: u32, mask: u32) -> (r: bool)
    ensures
        r == (sr1 & mask != 0),
{
    sr1 & mask != 0
}

/// Emits the START condition with acknowledgement enabled, then waits for it.
pub fn i2c_start(script: &mut Vec<Action>)
    ensures
        final(script)@ == old(script)@ + start_script(),
{
    script.push(Action::EnableAck);
    script.push(Action::GenerateStart);
    script.push(Action::AwaitFlag(SR1_SB));
    assert(script@ =~= old(script)@ + start_script());
}

/// Sends the target address, already in its transmission position, waits
/// for it to be acknowledged and clears the address condition.
pub fn i2c_address(address: u8, script: &mut Vec<Action>)
    ensures
        final(script)@ == old(script)@ + address_script(address),
{
    script.push(Action::LoadData(address));
    script.push(Action::AwaitFlag(SR1_ADDR));
    script.push(Action::ClearAddr);
    assert(script@ =~= old(script)@ + address_script(address));
}

/// Writes one payload byte once the data register is empty, then waits
/// until the transfer has finished.
pub fn i2c_write(data: u8, script: &mut Vec<Action>)
    ensures
        final(script)@ == old(script)@ + write_script(data),
{
    script.push(Action::AwaitFlag(SR1_TXE));
    script.push(Action::LoadData(data));
    script.push(Action::AwaitFlag(SR1_BTF));
    assert(script@ =~= old(script)@ + write_script(data));
}

/// Emits the STOP condition; nothing waits for the bus to go idle.
pub fn i2c_stop(script: &mut Vec<Action>)
    ensures
        final(script)@ == old(script)@ + stop_script(),
{
    script.push(Action::GenerateStop);
    assert(script@ =~= old(script)@ + stop_script());
}

/// Writes every byte of `data` once, from the first to the last, waiting
/// for an empty data register before each, and for the end of the
/// transfer after the last. The slice is the payload: there is no separate
/// count that could run past its end.
pub fn i2c_write_multi(data: &[u8], script: &mut Vec<Action>)
    ensures
        final(script)@ == old(script)@ + burst_script(data@),
{
    script.push(Action::AwaitFlag(SR1_TXE));
    let mut i: usize = 0;
    while i < data.len()
        invariant
            i <= data@.len(),
            script@ == old(script)@ + seq![Action::AwaitFlag(SR1_TXE)] + burst_body(
                data@.subrange(0, i as int),
            ),
        decreases data@.len() - i,
    {
        script.push(Action::AwaitFlag(SR1_TXE));
        script.push(Action::LoadData(data[i]));
        assert(data@.subrange(0, i + 1).drop_last() =~= data@.subrange(0, i as int));
        i = i + 1;
        assert(script@ =~= old(script)@ + seq![Action::AwaitFlag(SR1_TXE)] + burst_body(
            data@.subrange(0, i as int),
        ));
    }
    script.push(Action::AwaitFlag(SR1_BTF));
    assert(data@.subrange(0, data@.len() as int) =~= data@);
    assert(script@ =~= old(script)@ + burst_script(data@));
}

/// The bytes that two scripts run one after the other put on the bus are
/// those of the first followed by those of the second.
pub proof fn lemma_loaded_bytes_append(a: Seq<Action>, b: Seq<Action>)
    ensures
        loaded_bytes(a + b) == loaded_bytes(a) + loaded_bytes(b),
    decreases b.len(),
{
    if b.len() == 0 {
        assert(a + b =~= a);
        assert(loaded_bytes(a) + loaded_bytes(b) =~= loaded_bytes(a));
    } else {
        assert((a + b).drop_last() =~= a + b.drop_last());
        lemma_loaded_bytes_append(a, b.drop_last());
        match b.last() {
            Action::LoadData(x) => {
                assert(loaded_bytes(a + b.drop_last()).push(x) =~= loaded_bytes(a) + loaded_bytes(
                    b.drop_last(),
                ).push(x));
            },
            _ => {},
        }
    }
}

/// A burst write puts each byte of its payload on the bus exactly once, in
/// the payload's own order, and nothing else.
pub proof fn lemma_burst_sends_payload_in_order(data: Seq<u8>)
    ensures
        loaded_bytes(burst_script(data)) == data,
    decreases data.len(),
{
    lemma_burst_body_bytes(data);
    let head = seq![Action::AwaitFlag(SR1_TXE)];
    let tail = seq![Action::AwaitFlag(SR1_BTF)];
    lemma_loaded_bytes_append(head, burst_body(data));
    lemma_loaded_bytes_append(head + burst_body(data), tail);
    lemma_loaded_bytes_single(Action::AwaitFlag(SR1_TXE));
    lemma_loaded_bytes_single(Action::AwaitFlag(SR1_BTF));
    assert(Seq::<u8>::empty() + data + Seq::<u8>::empty() =~= data);
}

pub(crate) proof fn lemma_loaded_bytes_single(a: Action)
    ensures
        loaded_bytes(seq![a]) == (match a {
            Action::LoadData(b) => seq![b],
            _ => Seq::<u8>::empty(),
        }),
{
    let s = seq![a];
    assert(s.drop_last() =~= Seq::<Action>::empty());
    assert(loaded_bytes(s.drop_last()) == Seq::<u8>::empty());
    match a {
        Action::LoadData(b) => {
            assert(Seq::<u8>::empty().push(b) =~= seq![b]);
        },
        _ => {},
    }
}

proof fn lemma_burst_body_bytes(data: Seq<u8>)
    ensures
        loaded_bytes(burst_body(data)) == data,
    decreases data.len(),
{
    if data.len() > 0 {
        lemma_burst_body_bytes(data.drop_last());
        let pair = seq![Action::AwaitFlag(SR1_TXE), Action::LoadData(data.last())];
        lemma_loaded_bytes_append(burst_body(data.drop_last()), pair);
        lemma_loaded_bytes_single(Action::AwaitFlag(SR1_TXE));
        lemma_loaded_bytes_single(Action::LoadData(data.last()));
        lemma_loaded_bytes_append(seq![Action::AwaitFlag(SR1_TXE)], seq![Action::LoadData(data.last())]);
        assert(pair =~= seq![Action::AwaitFlag(SR1_TXE)] + seq![Action::LoadData(data.last())]);
        assert(loaded_bytes(pair) =~= seq![data.last()]);
        assert(data.drop_last() + seq![data.last()] =~= data);
    } else {
        assert(data =~= Seq::<u8>::empty());
    }
}

} // verus!
