use counter::{
    increment, initialize, CounterAccount, CounterError, CounterStore, Identity, Increment,
    Initialize,
};

fn id(b: u8) -> Identity {
    let mut k = [0u8; 32];
    k[0] = b;
    k[31] = b.wrapping_mul(7);
    k
}

fn init(store: &mut CounterStore, user: Identity) -> Result<(), CounterError> {
    initialize(store, &Initialize { user })
}

fn bump(store: &mut CounterStore, counter: Identity, user: Identity) -> Result<(), CounterError> {
    increment(store, &Increment { counter, user })
}

#[test]
fn increment_before_initialize_is_not_found() {
    let mut store = CounterStore::new();
    let u = id(1);
    assert_eq!(bump(&mut store, u, u), Err(CounterError::RecordNotFound));
    assert_eq!(bump(&mut store, u, id(2)), Err(CounterError::RecordNotFound));
    assert_eq!(store.get(&u), None);
    assert!(!store.contains(&u));
}

#[test]
fn initialize_twice_keeps_first_record() {
    let mut store = CounterStore::new();
    let u = id(3);
    assert_eq!(init(&mut store, u), Ok(()));
    assert_eq!(store.get(&u), Some(CounterAccount { count: 0 }));
    assert_eq!(init(&mut store, u), Err(CounterError::RecordAlreadyExists));
    assert_eq!(store.get(&u), Some(CounterAccount { count: 0 }));
}

#[test]
fn initialize_twice_after_increments_keeps_count() {
    let mut store = CounterStore::new();
    let u = id(4);
    init(&mut store, u).unwrap();
    bump(&mut store, u, u).unwrap();
    bump(&mut store, u, u).unwrap();
    assert_eq!(init(&mut store, u), Err(CounterError::RecordAlreadyExists));
    assert_eq!(store.get(&u), Some(CounterAccount { count: 2 }));
}

#[test]
fn n_increments_give_count_n() {
    for n in [0u64, 1, 2, 17, 300] {
        let mut store = CounterStore::new();
        let u = id(5);
        init(&mut store, u).unwrap();
        for _ in 0..n {
            assert_eq!(bump(&mut store, u, u), Ok(()));
        }
        assert_eq!(store.get(&u), Some(CounterAccount { count: n }));
    }
}

#[test]
fn identities_do_not_affect_each_other() {
    let mut store = CounterStore::new();
    let a = id(6);
    let b = id(7);
    init(&mut store, a).unwrap();
    init(&mut store, b).unwrap();
    bump(&mut store, a, a).unwrap();
    bump(&mut store, a, a).unwrap();
    bump(&mut store, a, a).unwrap();
    bump(&mut store, b, b).unwrap();
    assert_eq!(store.get(&a), Some(CounterAccount { count: 3 }));
    assert_eq!(store.get(&b), Some(CounterAccount { count: 1 }));
}

#[test]
fn initialize_of_one_identity_leaves_another_absent() {
    let mut store = CounterStore::new();
    let a = id(8);
    let b = id(9);
    init(&mut store, a).unwrap();
    assert!(store.contains(&a));
    assert!(!store.contains(&b));
    assert_eq!(bump(&mut store, b, b), Err(CounterError::RecordNotFound));
    assert_eq!(store.get(&a), Some(CounterAccount { count: 0 }));
}

#[test]
fn scenario_two_users() {
    let mut store = CounterStore::new();
    let u = id(10);
    let v = id(11);
    assert_eq!(init(&mut store, u), Ok(()));
    assert_eq!(store.get(&u).unwrap().count, 0);
    assert_eq!(bump(&mut store, u, u), Ok(()));
    assert_eq!(store.get(&u).unwrap().count, 1);
    assert_eq!(bump(&mut store, u, u), Ok(()));
    assert_eq!(store.get(&u).unwrap().count, 2);
    assert_eq!(bump(&mut store, v, v), Err(CounterError::RecordNotFound));
    assert_eq!(store.get(&v), None);
}

#[test]
fn increment_signed_by_other_is_unauthorized() {
    let mut store = CounterStore::new();
    let u = id(12);
    let w = id(13);
    init(&mut store, u).unwrap();
    bump(&mut store, u, u).unwrap();
    assert_eq!(bump(&mut store, u, w), Err(CounterError::Unauthorized));
    assert_eq!(store.get(&u), Some(CounterAccount { count: 1 }));
    init(&mut store, w).unwrap();
    assert_eq!(bump(&mut store, u, w), Err(CounterError::Unauthorized));
    assert_eq!(store.get(&u), Some(CounterAccount { count: 1 }));
    assert_eq!(store.get(&w), Some(CounterAccount { count: 0 }));
}

#[test]
fn identities_differing_in_last_byte_are_distinct() {
    let mut store = CounterStore::new();
    let a = [9u8; 32];
    let mut b = [9u8; 32];
    b[31] = 10;
    init(&mut store, a).unwrap();
    assert_eq!(bump(&mut store, a, b), Err(CounterError::Unauthorized));
    assert_eq!(bump(&mut store, b, b), Err(CounterError::RecordNotFound));
    assert_eq!(init(&mut store, b), Ok(()));
}

#[test]
fn increment_at_max_overflows_and_keeps_count() {
    let u = id(14);
    let mut store = CounterStore::from_record(&u, CounterAccount { count: u64::MAX });
    assert_eq!(bump(&mut store, u, u), Err(CounterError::ArithmeticOverflow));
    assert_eq!(store.get(&u), Some(CounterAccount { count: u64::MAX }));
}

#[test]
fn increment_just_below_max_succeeds() {
    let u = id(15);
    let mut store = CounterStore::from_record(&u, CounterAccount { count: u64::MAX - 1 });
    assert_eq!(bump(&mut store, u, u), Ok(()));
    assert_eq!(store.get(&u), Some(CounterAccount { count: u64::MAX }));
    assert_eq!(bump(&mut store, u, u), Err(CounterError::ArithmeticOverflow));
}

#[test]
fn from_record_holds_only_that_record() {
    let u = id(16);
    let store = CounterStore::from_record(&u, CounterAccount { count: 41 });
    assert_eq!(store.get(&u), Some(CounterAccount { count: 41 }));
    assert_eq!(store.get(&id(17)), None);
}

#[test]
fn new_account_is_zero() {
    assert_eq!(CounterAccount::new(), CounterAccount { count: 0 });
}
