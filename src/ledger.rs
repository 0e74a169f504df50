use vstd::prelude::*;
use crate::account::CounterAccount;

verus! {

/// The public identity a record is bound to: a 32-byte key.
pub type Identity = [u8; 32];

/// Whether two identities are the same key.
pub fn same_identity(a: &Identity, b: &Identity) -> (r: bool)
    ensures
        r == (a@ == b@),
{
    let mut i: usize = 0;
    while i < 32
        invariant
            i <= 32,
            forall|j: int| 0 <= j < i ==> a@[j] == b@[j],
        decreases 32 - i,
    {
        if a[i] != b[i] {
            return false;
        }
        i = i + 1;
    }
    assert(a@ =~= b@);
    true
}

/// The records made by the first `n` entries, later entries replacing earlier
/// ones under the same key.
spec fn map_upto(owners: Seq<Identity>, records: Seq<CounterAccount>, n: nat) -> Map<
    Seq<u8>,
    CounterAccount,
>
    decreases n,
{
    if n == 0 {
        Map::empty()
    } else {
        map_upto(owners, records, (n - 1) as nat).insert(
            owners[n - 1]@,
            records[n - 1],
        )
    }
}

spec fn keys_unique(owners: Seq<Identity>) -> bool {
    forall|i: int, j: int|
        0 <= i < owners.len() && 0 <= j < owners.len() && i != j ==> owners[i]@ != owners[j]@
}

proof fn lemma_map_upto_absent(
    owners: Seq<Identity>,
    records: Seq<CounterAccount>,
    n: nat,
    k: Seq<u8>,
)
    requires
        n <= owners.len(),
        forall|i: int| 0 <= i < n ==> owners[i]@ != k,
    ensures
        !map_upto(owners, records, n).contains_key(k),
    decreases n,
{
    if n > 0 {
        lemma_map_upto_absent(owners, records, (n - 1) as nat, k);
    }
}

proof fn lemma_map_upto_lookup(
    owners: Seq<Identity>,
    records: Seq<CounterAccount>,
    n: nat,
    i: int,
)
    requires
        n <= owners.len(),
        n <= records.len(),
        0 <= i < n,
        keys_unique(owners),
    ensures
        map_upto(owners, records, n).contains_key(owners[i]@),
        map_upto(owners, records, n)[owners[i]@] == records[i],
    decreases n,
{
    if i < n - 1 {
        lemma_map_upto_lookup(owners, records, (n - 1) as nat, i);
    }
}

proof fn lemma_map_upto_prefix(
    owners1: Seq<Identity>,
    records1: Seq<CounterAccount>,
    owners2: Seq<Identity>,
    records2: Seq<CounterAccount>,
    n: nat,
)
    requires
        n <= owners1.len(),
        n <= owners2.len(),
        n <= records1.len(),
        n <= records2.len(),
        forall|i: int| 0 <= i < n ==> owners1[i] == owners2[i] && records1[i] == records2[i],
    ensures
        map_upto(owners1, records1, n) == map_upto(owners2, records2, n),
    decreases n,
{
    if n > 0 {
        lemma_map_upto_prefix(owners1, records1, owners2, records2, (n - 1) as nat);
    }
}

proof fn lemma_map_upto_update(
    owners: Seq<Identity>,
    records: Seq<CounterAccount>,
    n: nat,
    i: int,
    rec: CounterAccount,
)
    requires
        n <= owners.len(),
        n <= records.len(),
        0 <= i < n,
        keys_unique(owners),
    ensures
        map_upto(owners, records.update(i, rec), n) == map_upto(owners, records, n).insert(
            owners[i]@,
            rec,
        ),
    decreases n,
{
    let updated = records.update(i, rec);
    if i == n - 1 {
        lemma_map_upto_prefix(owners, records, owners, updated, (n - 1) as nat);
        assert forall|j: int| 0 <= j < n - 1 implies owners[j]@ != owners[i]@ by {}
        lemma_map_upto_absent(owners, records, (n - 1) as nat, owners[i]@);
        assert(map_upto(owners, updated, n) =~= map_upto(owners, records, n).insert(
            owners[i]@,
            rec,
        ));
    } else {
        lemma_map_upto_update(owners, records, (n - 1) as nat, i, rec);
        assert(owners[n - 1]@ != owners[i]@);
        assert(map_upto(owners, updated, n) =~= map_upto(owners, records, n).insert(
            owners[i]@,
            rec,
        ));
    }
}

/// Every counter record, each under the identity it is bound to; at most
/// one record per identity.
pub struct CounterStore {
    owners: Vec<Identity>,
    records: Vec<CounterAccount>,
}

impl View for CounterStore {
    type V = Map<Seq<u8>, CounterAccount>;

    closed spec fn view(&self) -> Map<Seq<u8>, CounterAccount> {
        map_upto(self.owners@, self.records@, self.owners@.len())
    }
}

impl CounterStore {
    /// One record per identity, each stored beside its owner.
    pub closed spec fn wf(&self) -> bool {
        &&& self.owners@.len() == self.records@.len()
        &&& keys_unique(self.owners@)
    }

    /// A store that holds no record.
    pub fn new() -> (r: CounterStore)
        ensures
            r.wf(),
            r@ == Map::<Seq<u8>, CounterAccount>::empty(),
    {
        CounterStore { owners: Vec::new(), records: Vec::new() }
    }

    /// A store that holds one record, `rec`, bound to `user`.
    pub fn from_record(user: &Identity, rec: CounterAccount) -> (r: CounterStore)
        ensures
            r.wf(),
            r@ == Map::<Seq<u8>, CounterAccount>::empty().insert(user@, rec),
    {
        let mut r = CounterStore::new();
        r.insert_new(user, rec);
        r
    }

    /// Where the record of `user` is kept, if it has one.
    fn position(&self, user: &Identity) -> (r: Option<usize>)
        requires
            self.wf(),
        ensures
            r.is_some() == self@.contains_key(user@),
            r matches Some(i) ==> i < self.records@.len() && self.owners@[i as int]@ == user@
                && self@[user@] == self.records@[i as int],
    {
        let mut i: usize = 0;
        while i < self.owners.len()
            invariant
                self.wf(),
                i <= self.owners@.len(),
                forall|j: int| 0 <= j < i ==> self.owners@[j]@ != user@,
            decreases self.owners@.len() - i,
        {
            if same_identity(&self.owners[i], user) {
                proof {
                    lemma_map_upto_lookup(
                        self.owners@,
                        self.records@,
                        self.owners@.len(),
                        i as int,
                    );
                }
                return Some(i);
            }
            i = i + 1;
        }
        proof {
            lemma_map_upto_absent(self.owners@, self.records@, self.owners@.len(), user@);
        }
        None
    }

    /// The record bound to `user`, if there is one.
    pub fn get(&self, user: &Identity) -> (r: Option<CounterAccount>)
        requires
            self.wf(),
        ensures
            r == (if self@.contains_key(user@) {
                Some(self@[user@])
            } else {
                None
            }),
    {
        match self.position(user) {
            Some(i) => Some(self.records[i]),
            None => None,
        }
    }

    /// Whether `user` has a record.
    pub fn contains(&self, user: &Identity) -> (r: bool)
        requires
            self.wf(),
        ensures
            r == self@.contains_key(user@),
    {
        self.position(user).is_some()
    }

    /// Binds `rec` to `user`, who has no record yet.
    pub(crate) fn insert_new(&mut self, user: &Identity, rec: CounterAccount)
        requires
            old(self).wf(),
            !old(self)@.contains_key(user@),
        ensures
            final(self).wf(),
            final(self)@ == old(self)@.insert(user@, rec),
    {
        proof {
            let n: nat = self.owners@.len();
            assert forall|j: int| 0 <= j < n implies self.owners@[j]@ != user@ by {
                if self.owners@[j]@ == user@ {
                    lemma_map_upto_lookup(self.owners@, self.records@, n, j);
                }
            }
        }
        let ghost owners0 = self.owners@;
        let ghost records0 = self.records@;
        self.owners.push(*user);
        self.records.push(rec);
        proof {
            lemma_map_upto_prefix(owners0, records0, self.owners@, self.records@, owners0.len());
        }
    }

    /// Replaces the record of `user`, who has one.
    pub(crate) fn replace(&mut self, user: &Identity, rec: CounterAccount)
        requires
            old(self).wf(),
            old(self)@.contains_key(user@),
        ensures
            final(self).wf(),
            final(self)@ == old(self)@.insert(user@, rec),
    {
        let i: usize = self.position(user).unwrap();
        proof {
            lemma_map_upto_update(self.owners@, self.records@, self.owners@.len(), i as int, rec);
        }
        self.records.set(i, rec);
    }
}

} // verus!
