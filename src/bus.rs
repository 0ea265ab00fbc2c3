//! The transport and delay capabilities a handle is built on, and the record
//! of transfers that the contracts speak of.
use vstd::prelude::*;

use crate::addresses::{CONFIG_LOCK_REGISTER, CONFIG_WRITE_ENABLE, PAGE_SELECT_REGISTER};

verus! {

/// One transfer as the transport made it: its slave address, the bytes
/// written or read back, and the error the transport returned, if any.
pub enum Transfer<E> {
    Write { address: u8, bytes: Seq<u8>, error: Option<E> },
    Read { address: u8, bytes: Seq<u8>, error: Option<E> },
}

/// The error in a transport's result.
pub open spec fn error_of<E>(r: Result<(), E>) -> Option<E> {
    match r {
        Ok(_) => None,
        Err(e) => Some(e),
    }
}

/// The record of a bus: every transfer made through it, in order.
pub type TransferLog<E> = Seq<Transfer<E>>;

/// The record of a delay: every wait, in milliseconds, in order.
pub type WaitLog = Seq<u8>;

/// A two-wire bus that writes a buffer to a 7-bit slave address. Its record
/// holds every transfer made through it, in order. The record is ghost: it
/// states what `write` does and is never evaluated, so an implementation
/// outside verified code gives `transfers` an unreachable body.
pub trait I2cWrite {
    type Error;

    spec fn transfers(&self) -> TransferLog<Self::Error>;

    fn write(&mut self, address: u8, bytes: &[u8]) -> (r: Result<(), Self::Error>)
        ensures
            final(self).transfers() == old(self).transfers().push(
                Transfer::Write { address, bytes: bytes@, error: error_of(r) },
            ),
    ;
}

/// A bus that can also fill a buffer from a slave address. Reads go into
/// the same record as writes, so that their order is kept.
pub trait I2cRead: I2cWrite {
    fn read(&mut self, address: u8, buffer: &mut [u8]) -> (r: Result<(), Self::Error>)
        ensures
            final(buffer)@.len() == old(buffer)@.len(),
            final(self).transfers() == old(self).transfers().push(
                Transfer::Read { address, bytes: final(buffer)@, error: error_of(r) },
            ),
    ;
}

/// A blocking millisecond delay. Its record holds every wait, in order; like
/// a bus's record it is ghost.
pub trait DelayMs {
    spec fn waits(&self) -> WaitLog;

    fn delay_ms(&mut self, ms: u8)
        ensures
            final(self).waits() == old(self).waits().push(ms),
    ;
}

/// One transfer that an operation intends: bytes to write, or bytes it
/// expects to read back.
pub enum Step {
    Write(Seq<u8>),
    Read(Seq<u8>),
}

/// `step` made to `address`, and succeeded.
pub open spec fn done<E>(address: u8, step: Step) -> Transfer<E> {
    match step {
        Step::Write(bytes) => Transfer::Write { address, bytes, error: None },
        Step::Read(bytes) => Transfer::Read { address, bytes, error: None },
    }
}

/// The steps of `plan` made to `address`, all succeeding.
pub open spec fn done_all<E>(address: u8, plan: Seq<Step>) -> Seq<Transfer<E>> {
    Seq::new(plan.len(), |i: int| done::<E>(address, plan[i]))
}

/// `t` is `step` made to `address`, failing with `e` (a failed read leaves
/// the buffer's contents open, not its length).
pub open spec fn failed<E>(t: Transfer<E>, address: u8, step: Step, e: E) -> bool {
    match step {
        Step::Write(bytes) => t == Transfer::Write { address, bytes, error: Some(e) },
        Step::Read(bytes) => match t {
            Transfer::Read { address: a, bytes: got, error } => a == address && got.len()
                == bytes.len() && error == Some(e),
            _ => false,
        },
    }
}

/// The record went from `before` to `after` by making the steps of `plan`
/// to `address` in order. On `Ok`, all of them succeeded. On `Err(e)`, a
/// prefix of them succeeded and the next one failed with `e`; nothing was
/// made after it.
pub open spec fn sends<E>(
    before: Seq<Transfer<E>>,
    after: Seq<Transfer<E>>,
    address: u8,
    plan: Seq<Step>,
    outcome: Result<(), E>,
) -> bool {
    match outcome {
        Ok(()) => after == before + done_all::<E>(address, plan),
        Err(e) => {
            let k = after.len() - before.len() - 1;
            &&& before.len() < after.len() <= before.len() + plan.len()
            &&& after.drop_last() == before + done_all::<E>(address, plan.take(k))
            &&& failed(after.last(), address, plan[k], e)
        },
    }
}

/// The transfer that unlocks the page-select register.
pub open spec fn unlock_transfer() -> Seq<u8> {
    seq![CONFIG_LOCK_REGISTER, CONFIG_WRITE_ENABLE]
}

/// Unlock, then select the page numbered `code`.
pub open spec fn select_plan(code: u8) -> Seq<Step> {
    seq![Step::Write(unlock_transfer()), Step::Write(seq![PAGE_SELECT_REGISTER, code])]
}

/// Waits of the bring-up sequence made once `n` of its transfers were made:
/// one after the reset command, one after entering shutdown.
pub open spec fn setup_waits(n: int) -> Seq<u8> {
    if n <= 3 {
        seq![]
    } else if n <= 6 {
        seq![10u8]
    } else {
        seq![10u8, 10u8]
    }
}

proof fn lemma_done_all_concat<E>(address: u8, p: Seq<Step>, q: Seq<Step>)
    ensures
        done_all::<E>(address, p + q) == done_all::<E>(address, p) + done_all::<E>(address, q),
{
    assert(done_all::<E>(address, p + q) =~= done_all::<E>(address, p) + done_all::<E>(address, q));
}

/// One write, as the transport recorded it.
pub proof fn lemma_sends_write<E>(before: Seq<Transfer<E>>, address: u8, bytes: Seq<u8>, r: Result<(), E>)
    ensures
        sends(
            before,
            before.push(Transfer::Write { address, bytes, error: error_of(r) }),
            address,
            seq![Step::Write(bytes)],
            r,
        ),
{
    let after = before.push(Transfer::Write { address, bytes, error: error_of(r) });
    assert(done_all::<E>(address, seq![Step::Write(bytes)]) =~= seq![done::<E>(address, Step::Write(bytes))]);
    assert(done_all::<E>(address, seq![Step::Write(bytes)].take(0)) =~= Seq::<Transfer<E>>::empty());
    assert(after.drop_last() =~= before);
    match r {
        Ok(()) => {
            assert(after =~= before + done_all::<E>(address, seq![Step::Write(bytes)]));
        },
        Err(_) => {},
    }
}

/// One read, as the transport recorded it.
pub proof fn lemma_sends_read<E>(before: Seq<Transfer<E>>, address: u8, bytes: Seq<u8>, r: Result<(), E>)
    ensures
        sends(
            before,
            before.push(Transfer::Read { address, bytes, error: error_of(r) }),
            address,
            seq![Step::Read(bytes)],
            r,
        ),
{
    let after = before.push(Transfer::Read { address, bytes, error: error_of(r) });
    assert(done_all::<E>(address, seq![Step::Read(bytes)]) =~= seq![done::<E>(address, Step::Read(bytes))]);
    assert(done_all::<E>(address, seq![Step::Read(bytes)].take(0)) =~= Seq::<Transfer<E>>::empty());
    assert(after.drop_last() =~= before);
    match r {
        Ok(()) => {
            assert(after =~= before + done_all::<E>(address, seq![Step::Read(bytes)]));
        },
        Err(_) => {},
    }
}

/// Making `p` and then `q` is making `p + q`.
pub proof fn lemma_sends_then<E>(
    a: Seq<Transfer<E>>,
    b: Seq<Transfer<E>>,
    c: Seq<Transfer<E>>,
    address: u8,
    p: Seq<Step>,
    q: Seq<Step>,
    outcome: Result<(), E>,
)
    requires
        sends(a, b, address, p, Ok(())),
        sends(b, c, address, q, outcome),
    ensures
        sends(a, c, address, p + q, outcome),
{
    lemma_done_all_concat::<E>(address, p, q);
    match outcome {
        Ok(()) => {
            assert(c =~= a + done_all::<E>(address, p + q));
        },
        Err(e) => {
            let k = c.len() - b.len() - 1;
            assert((p + q).take(p.len() + k) =~= p + q.take(k));
            lemma_done_all_concat::<E>(address, p, q.take(k));
            assert((p + q)[p.len() + k] == q[k]);
            assert(c.drop_last() =~= a + done_all::<E>(address, (p + q).take(c.len() - a.len() - 1)));
        },
    }
}

/// A making of `p` that failed is a failed making of any plan that starts with `p`.
pub proof fn lemma_sends_failed<E>(
    a: Seq<Transfer<E>>,
    b: Seq<Transfer<E>>,
    address: u8,
    p: Seq<Step>,
    q: Seq<Step>,
    e: E,
)
    requires
        sends(a, b, address, p, Err(e)),
    ensures
        sends(a, b, address, p + q, Err(e)),
{
    let k = b.len() - a.len() - 1;
    assert((p + q).take(k) =~= p.take(k));
    assert((p + q)[k] == p[k]);
}

} // verus!
