use vstd::prelude::*;
use crate::account::CounterAccount;
use crate::ledger::{same_identity, CounterStore, Identity};

verus! {

/// Why an instruction was rejected. A rejected instruction changes nothing.
#[derive(Clone, Copy, Debug, PartialEq, Eq)]
pub enum CounterError {
    /// `initialize` for an identity that already has a record.
    RecordAlreadyExists,
    /// `increment` of a record that was never created.
    RecordNotFound,
    /// `increment` signed by someone other than the record's owner.
    Unauthorized,
    /// `increment` of a count that is already `u64::MAX`.
    ArithmeticOverflow,
}

/// Accounts of `initialize`: the signer, who creates and pays for their own
/// record.
#[derive(Clone, Copy, Debug, PartialEq, Eq)]
pub struct Initialize {
    pub user: Identity,
}

/// Accounts of `increment`: the owner of the record addressed (`counter`)
/// and the identity that signed the instruction (`user`).
#[derive(Clone, Copy, Debug, PartialEq, Eq)]
pub struct Increment {
    pub counter: Identity,
    pub user: Identity,
}

/// The records after `initialize` signed by `user`, and its outcome.
pub open spec fn initialize_step(m: Map<Seq<u8>, CounterAccount>, user: Seq<u8>) -> (
    Map<Seq<u8>, CounterAccount>,
    Result<(), CounterError>,
) {
    if m.contains_key(user) {
        (m, Err(CounterError::RecordAlreadyExists))
    } else {
        (m.insert(user, CounterAccount { count: 0 }), Ok(()))
    }
}

/// The records after `increment` of the record of `counter`, signed by
/// `user`, and its outcome.
pub open spec fn increment_step(
    m: Map<Seq<u8>, CounterAccount>,
    counter: Seq<u8>,
    user: Seq<u8>,
) -> (Map<Seq<u8>, CounterAccount>, Result<(), CounterError>) {
    if !m.contains_key(counter) {
        (m, Err(CounterError::RecordNotFound))
    } else if user != counter {
        (m, Err(CounterError::Unauthorized))
    } else if m[counter].count == u64::MAX {
        (m, Err(CounterError::ArithmeticOverflow))
    } else {
        (m.insert(counter, CounterAccount { count: (m[counter].count + 1) as u64 }), Ok(()))
    }
}

/// Creates the record of the signer with a count of zero.
pub fn initialize(store: &mut CounterStore, accounts: &Initialize) -> (r: Result<(), CounterError>)
    requires
        old(store).wf(),
    ensures
        final(store).wf(),
        (final(store)@, r) == initialize_step(old(store)@, accounts.user@),
        old(store)@.contains_key(accounts.user@) ==> r == Err::<(), CounterError>(
            CounterError::RecordAlreadyExists,
        ) && final(store)@ == old(store)@,
        !old(store)@.contains_key(accounts.user@) ==> r is Ok && final(store)@[accounts.user@].count
            == 0,
{
    if store.contains(&accounts.user) {
        return Err(CounterError::RecordAlreadyExists);
    }
    store.insert_new(&accounts.user, CounterAccount::new());
    Ok(())
}

/// Adds one to the count of the addressed record, which only its owner may
/// do.
pub fn increment(store: &mut CounterStore, accounts: &Increment) -> (r: Result<(), CounterError>)
    requires
        old(store).wf(),
    ensures
        final(store).wf(),
        (final(store)@, r) == increment_step(old(store)@, accounts.counter@, accounts.user@),
        !old(store)@.contains_key(accounts.counter@) ==> r == Err::<(), CounterError>(
            CounterError::RecordNotFound,
        ) && final(store)@ == old(store)@,
        old(store)@.contains_key(accounts.counter@) && accounts.user@ != accounts.counter@ ==> r
            == Err::<(), CounterError>(CounterError::Unauthorized) && final(store)@ == old(store)@,
        r is Ok ==> final(store)@[accounts.counter@].count == old(store)@[accounts.counter@].count
            + 1,
{
    let rec = match store.get(&accounts.counter) {
        Some(rec) => rec,
        None => return Err(CounterError::RecordNotFound),
    };
    if !same_identity(&accounts.user, &accounts.counter) {
        return Err(CounterError::Unauthorized);
    }
    if rec.count == u64::MAX {
        return Err(CounterError::ArithmeticOverflow);
    }
    store.replace(&accounts.counter, CounterAccount { count: rec.count + 1 });
    Ok(())
}

/// The records after `n` increments of `user`'s record, each signed by
/// `user`.
pub open spec fn increment_times(m: Map<Seq<u8>, CounterAccount>, user: Seq<u8>, n: nat) -> Map<
    Seq<u8>,
    CounterAccount,
>
    decreases n,
{
    if n == 0 {
        m
    } else {
        increment_step(increment_times(m, user, (n - 1) as nat), user, user).0
    }
}

/// An increment before any initialize fails with `RecordNotFound`, whoever
/// signs it, and changes nothing.
pub proof fn lemma_increment_before_initialize(
    m: Map<Seq<u8>, CounterAccount>,
    counter: Seq<u8>,
    user: Seq<u8>,
)
    requires
        !m.contains_key(counter),
    ensures
        increment_step(m, counter, user) == (m, Err::<(), CounterError>(CounterError::RecordNotFound)),
{
}

/// Initializing twice: the first call creates a zero count, the second fails
/// with `RecordAlreadyExists` and leaves the record as the first made it.
pub proof fn lemma_initialize_twice(m: Map<Seq<u8>, CounterAccount>, user: Seq<u8>)
    requires
        !m.contains_key(user),
    ensures
        initialize_step(m, user).1 is Ok,
        initialize_step(m, user).0[user].count == 0,
        initialize_step(initialize_step(m, user).0, user) == (
            initialize_step(m, user).0,
            Err::<(), CounterError>(CounterError::RecordAlreadyExists),
        ),
{
}

/// After initialize and `n` increments by the owner, every increment has
/// succeeded and the count is `n`.
pub proof fn lemma_count_after_increments(m: Map<Seq<u8>, CounterAccount>, user: Seq<u8>, n: nat)
    requires
        !m.contains_key(user),
        n <= u64::MAX,
    ensures
        increment_times(initialize_step(m, user).0, user, n).contains_key(user),
        increment_times(initialize_step(m, user).0, user, n)[user].count == n,
        forall|k: nat|
            k < n ==> (#[trigger] increment_step(
                increment_times(initialize_step(m, user).0, user, k),
                user,
                user,
            )).1 is Ok,
    decreases n,
{
    if n > 0 {
        lemma_count_after_increments(m, user, (n - 1) as nat);
    }
}

/// An increment of one identity's record never changes another identity's
/// record, nor whether it has one.
pub proof fn lemma_increment_leaves_others(
    m: Map<Seq<u8>, CounterAccount>,
    counter: Seq<u8>,
    user: Seq<u8>,
    other: Seq<u8>,
)
    requires
        other != counter,
    ensures
        increment_step(m, counter, user).0.contains_key(other) == m.contains_key(other),
        m.contains_key(other) ==> increment_step(m, counter, user).0[other] == m[other],
{
}

/// Initializing one identity's record never changes another identity's
/// record, nor whether it has one.
pub proof fn lemma_initialize_leaves_others(
    m: Map<Seq<u8>, CounterAccount>,
    user: Seq<u8>,
    other: Seq<u8>,
)
    requires
        other != user,
    ensures
        initialize_step(m, user).0.contains_key(other) == m.contains_key(other),
        m.contains_key(other) ==> initialize_step(m, user).0[other] == m[other],
{
}

/// What an increment does to a record, and its outcome, depend on that
/// record alone: two stores that agree on it give the same result there.
pub proof fn lemma_increment_sees_own_record(
    m1: Map<Seq<u8>, CounterAccount>,
    m2: Map<Seq<u8>, CounterAccount>,
    counter: Seq<u8>,
    user: Seq<u8>,
)
    requires
        m1.contains_key(counter) == m2.contains_key(counter),
        m1.contains_key(counter) ==> m1[counter] == m2[counter],
    ensures
        increment_step(m1, counter, user).1 == increment_step(m2, counter, user).1,
        increment_step(m1, counter, user).0.contains_key(counter) == increment_step(
            m2,
            counter,
            user,
        ).0.contains_key(counter),
        increment_step(m1, counter, user).0.contains_key(counter) ==> increment_step(
            m1,
            counter,
            user,
        ).0[counter] == increment_step(m2, counter, user).0[counter],
{
}

/// An increment signed by anyone but the record's owner fails with
/// `Unauthorized` and leaves the record as it was.
pub proof fn lemma_unauthorized_increment(
    m: Map<Seq<u8>, CounterAccount>,
    counter: Seq<u8>,
    user: Seq<u8>,
)
    requires
        m.contains_key(counter),
        user != counter,
    ensures
        increment_step(m, counter, user) == (m, Err::<(), CounterError>(CounterError::Unauthorized)),
{
}

} // verus!
