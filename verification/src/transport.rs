//! The bus as the driver sees it: the two operations it asks of a transport,
//! and the record of the transactions handed to one.

use vstd::prelude::*;

verus! {

/// A byte-oriented bus that addresses its devices. The driver asks nothing
/// of an implementation but that its calls return: whatever a call answers,
/// the driver's contracts say what it does with the answer.
pub trait Transport {
    /// What the bus reports when a transaction fails.
    type Error;

    /// Writes `bytes` to the device at `address` in one transaction.
    fn write(&mut self, address: u8, bytes: &[u8]) -> Result<(), Self::Error>;

    /// Writes `bytes` to the device at `address`, then reads enough bytes to
    /// fill `buffer`, in one transaction.
    /// The driver has no use for it yet.
    fn write_then_read(
        &mut self,
        address: u8,
        bytes: &[u8],
        buffer: &mut [u8],
    ) -> Result<(), Self::Error>;
}

/// One write transaction handed to the bus, with what the bus answered.
pub struct Transfer<E> {
    /// The device the transaction was addressed to.
    pub address: u8,
    /// The bytes of the transaction, control byte first.
    pub bytes: Seq<u8>,
    /// What the bus returned for it.
    pub outcome: Result<(), E>,
}

/// The frames of a sequence of transfers, in order.
pub open spec fn frames_of<E>(made: Seq<Transfer<E>>) -> Seq<Seq<u8>> {
    Seq::new(made.len(), |i: int| made[i].bytes)
}

/// What an operation returns after making the transfers `made`: the answer
/// to the last of them, or success where it had nothing to send.
pub open spec fn run_result<E>(made: Seq<Transfer<E>>) -> Result<(), E> {
    if made.len() == 0 {
        Ok(())
    } else {
        made.last().outcome
    }
}

/// `made` is a fail-fast run through `plan` on the device at `address`: the
/// frames of `plan` in order, one transfer each, every transfer but the last
/// accepted by the bus, and the whole of `plan` unless the last was refused.
pub open spec fn is_run<E>(made: Seq<Transfer<E>>, address: u8, plan: Seq<Seq<u8>>) -> bool {
    &&& made.len() <= plan.len()
    &&& forall|i: int|
        0 <= i < made.len() ==> (#[trigger] made[i]).address == address && made[i].bytes == plan[i]
    &&& forall|i: int| 0 <= i < made.len() - 1 ==> (#[trigger] made[i]).outcome is Ok
    &&& run_result(made) is Ok ==> made.len() == plan.len()
}

/// The record `after` is the record `before` followed by a fail-fast run
/// through `plan`, and `r` is what that run returns.
pub open spec fn extends_by<E>(
    before: Seq<Transfer<E>>,
    after: Seq<Transfer<E>>,
    address: u8,
    plan: Seq<Seq<u8>>,
    r: Result<(), E>,
) -> bool {
    &&& before.is_prefix_of(after)
    &&& is_run(after.skip(before.len() as int), address, plan)
    &&& r == run_result(after.skip(before.len() as int))
}

/// A success of the bus carries nothing, so there is only one.
pub proof fn lemma_ok_unit<E>(r: Result<(), E>)
    requires
        r is Ok,
    ensures
        r == Ok::<(), E>(()),
{
    let unit = r->Ok_0;
    assert(unit == ());
}

/// A run through nothing leaves the record as it was and succeeds.
pub proof fn lemma_run_nothing<E>(log: Seq<Transfer<E>>, address: u8)
    ensures
        extends_by(log, log, address, Seq::<Seq<u8>>::empty(), Ok(())),
{
    assert(log.skip(log.len() as int) =~= Seq::<Transfer<E>>::empty());
}

/// One transfer is a run through the plan of that one frame.
pub proof fn lemma_run_one<E>(log: Seq<Transfer<E>>, address: u8, bytes: Seq<u8>, r: Result<(), E>)
    ensures
        extends_by(
            log,
            log.push(Transfer { address, bytes, outcome: r }),
            address,
            seq![bytes],
            r,
        ),
{
    let after = log.push(Transfer { address, bytes, outcome: r });
    assert(after.skip(log.len() as int) =~= seq![Transfer { address, bytes, outcome: r }]);
}

/// A run that succeeded, followed by a second run, is a run through the two
/// plans joined, and returns what the second returned.
pub proof fn lemma_run_then<E>(
    a: Seq<Transfer<E>>,
    b: Seq<Transfer<E>>,
    c: Seq<Transfer<E>>,
    address: u8,
    first: Seq<Seq<u8>>,
    second: Seq<Seq<u8>>,
    r: Result<(), E>,
)
    requires
        extends_by(a, b, address, first, Ok(())),
        extends_by(b, c, address, second, r),
    ensures
        extends_by(a, c, address, first + second, r),
{
    let m1 = b.skip(a.len() as int);
    let m2 = c.skip(b.len() as int);
    let m = c.skip(a.len() as int);
    assert(m =~= m1 + m2);
    assert(m1.len() == first.len());
    assert forall|i: int| 0 <= i < m.len() implies (#[trigger] m[i]).address == address && m[i].bytes
        == (first + second)[i] by {
        if i < m1.len() {
            assert(m[i] == m1[i]);
        } else {
            assert(m[i] == m2[i - m1.len()]);
        }
    }
    assert forall|i: int| 0 <= i < m.len() - 1 implies (#[trigger] m[i]).outcome is Ok by {
        if i < m1.len() {
            assert(m[i] == m1[i]);
            if i == m1.len() - 1 {
                assert(m1.last() == m1[i]);
            }
        } else {
            assert(m[i] == m2[i - m1.len()]);
        }
    }
    if m2.len() > 0 {
        assert(m.last() == m2.last());
    } else {
        assert(m =~= m1);
    }
}

/// A run that the bus stopped is also a run through any longer plan.
pub proof fn lemma_run_stopped<E>(
    a: Seq<Transfer<E>>,
    b: Seq<Transfer<E>>,
    address: u8,
    plan: Seq<Seq<u8>>,
    longer: Seq<Seq<u8>>,
    r: Result<(), E>,
)
    requires
        extends_by(a, b, address, plan, r),
        r is Err,
        plan.is_prefix_of(longer),
    ensures
        extends_by(a, b, address, longer, r),
{
    let m = b.skip(a.len() as int);
    assert forall|i: int| 0 <= i < m.len() implies (#[trigger] m[i]).address == address && m[i].bytes
        == longer[i] by {
        assert(plan[i] == longer[i]);
    }
}

/// One more frame of a plan: after a run through the first `k` frames of
/// `plan` that succeeded, a run through frame `k` alone makes a run through
/// the first `k + 1` frames; and if the bus refused that frame, the whole is
/// a run through all of `plan`.
pub proof fn lemma_run_step<E>(
    a: Seq<Transfer<E>>,
    b: Seq<Transfer<E>>,
    c: Seq<Transfer<E>>,
    address: u8,
    plan: Seq<Seq<u8>>,
    k: int,
    r: Result<(), E>,
)
    requires
        0 <= k < plan.len(),
        extends_by(a, b, address, plan.take(k), Ok(())),
        extends_by(b, c, address, seq![plan[k]], r),
    ensures
        extends_by(a, c, address, plan.take(k + 1), r),
        r is Err ==> extends_by(a, c, address, plan, r),
{
    lemma_run_then(a, b, c, address, plan.take(k), seq![plan[k]], r);
    assert(plan.take(k) + seq![plan[k]] =~= plan.take(k + 1));
    if r is Err {
        lemma_run_stopped(a, c, address, plan.take(k + 1), plan, r);
    }
}

/// A run that succeeded sent its whole plan: one transfer per frame, in
/// order, each to the device and each accepted by the bus.
pub proof fn lemma_run_completed<E>(
    before: Seq<Transfer<E>>,
    after: Seq<Transfer<E>>,
    address: u8,
    plan: Seq<Seq<u8>>,
)
    requires
        extends_by(before, after, address, plan, Ok(())),
    ensures
        after.len() == before.len() + plan.len(),
        after.take(before.len() as int) == before,
        frames_of(after.skip(before.len() as int)) == plan,
        forall|j: int|
            before.len() <= j < after.len() ==> {
                &&& (#[trigger] after[j]).bytes == plan[j - before.len()]
                &&& after[j].address == address
                &&& after[j].outcome is Ok
            },
{
    let made = after.skip(before.len() as int);
    assert(after.take(before.len() as int) =~= before);
    assert(frames_of(made) =~= plan);
    assert forall|j: int| before.len() <= j < after.len() implies {
        &&& (#[trigger] after[j]).bytes == plan[j - before.len()]
        &&& after[j].address == address
        &&& after[j].outcome is Ok
    } by {
        let i = j - before.len();
        assert(after[j] == made[i]);
        if i == made.len() - 1 {
            assert(made[i] == made.last());
        }
    }
}

/// A run that failed stopped at the transfer that the bus refused: that
/// transfer is the last on record and its error is the one returned; the
/// transfers of the run before it were accepted; and what was sent is the
/// plan's frames up to that one, nothing beyond it.
pub proof fn lemma_run_failed<E>(
    before: Seq<Transfer<E>>,
    after: Seq<Transfer<E>>,
    address: u8,
    plan: Seq<Seq<u8>>,
    e: E,
)
    requires
        extends_by(before, after, address, plan, Err(e)),
    ensures
        before.len() < after.len() <= before.len() + plan.len(),
        after.take(before.len() as int) == before,
        after.last().outcome == Err::<(), E>(e),
        frames_of(after.skip(before.len() as int)) == plan.take(after.len() - before.len()),
        forall|j: int|
            before.len() <= j < after.len() ==> {
                &&& (#[trigger] after[j]).bytes == plan[j - before.len()]
                &&& after[j].address == address
                &&& j < after.len() - 1 ==> after[j].outcome is Ok
            },
{
    let made = after.skip(before.len() as int);
    assert(made.len() > 0);
    assert(after.last() == made.last());
    assert(after.take(before.len() as int) =~= before);
    assert(frames_of(made) =~= plan.take(made.len() as int));
    assert forall|j: int| before.len() <= j < after.len() implies {
        &&& (#[trigger] after[j]).bytes == plan[j - before.len()]
        &&& after[j].address == address
        &&& j < after.len() - 1 ==> after[j].outcome is Ok
    } by {
        assert(after[j] == made[j - before.len()]);
    }
}

} // verus!
