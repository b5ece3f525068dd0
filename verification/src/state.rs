//! The state store: the process-wide `ProcessState` (a counter and the
//! user records) behind an explicit present/absent slot, so that the
//! save/restore lifecycle around a planned restart can be stated exactly.
//! While the state has been taken for serialization the slot is absent and
//! every operation fails fast with `StateNotReady` instead of reading
//! stale state.

use vstd::prelude::*;

use crate::codec::{decode_state, encode_state, spec_decode, spec_encode};
use crate::user::{
    hist_wf, hybrid_ok, EMOTION_DIM, SPIRAL_DIM, User,
};

verus! {

/// The failure conditions of the store.
#[derive(Clone, Copy, PartialEq, Eq, Structural, Debug)]
pub enum StoreError {
    /// Incrementing the counter would exceed its representable range.
    Overflow,
    /// A durable blob exists but does not decode to a valid state.
    CorruptState,
    /// An operation ran before startup or restore made the state present.
    StateNotReady,
}

/// The mathematical value of one user profile: every independent field,
/// with strings as character sequences.  The two hybrid scores are not
/// part of the model; a well-formed profile derives them from the
/// current vectors.
#[verifier::ext_equal]
pub ghost struct UserModel {
    pub id: Seq<char>,
    pub email: Seq<char>,
    pub name: Seq<char>,
    pub telegram: Seq<char>,
    pub instegram: Seq<char>,
    pub x_account: Seq<char>,
    pub emotion: Seq<i64>,
    pub spiral: Seq<i64>,
    pub emotion_history: Seq<Seq<i64>>,
    pub spiral_history: Seq<Seq<i64>>,
}

impl UserModel {
    pub open spec fn wf(self) -> bool {
        &&& self.emotion.len() == EMOTION_DIM
        &&& self.spiral.len() == SPIRAL_DIM
        &&& hist_wf(self.emotion_history, EMOTION_DIM as int)
        &&& hist_wf(self.spiral_history, SPIRAL_DIM as int)
    }

    /// Every variable-length part is small enough for a 64-bit length
    /// prefix in the durable encoding.
    pub open spec fn bounded(self) -> bool {
        &&& self.id.len() <= u64::MAX
        &&& self.email.len() <= u64::MAX
        &&& self.name.len() <= u64::MAX
        &&& self.telegram.len() <= u64::MAX
        &&& self.instegram.len() <= u64::MAX
        &&& self.x_account.len() <= u64::MAX
        &&& self.emotion_history.len() <= u64::MAX
        &&& self.spiral_history.len() <= u64::MAX
    }
}

pub open spec fn user_model(u: User) -> UserModel {
    UserModel {
        id: u.id@,
        email: u.email@,
        name: u.name@,
        telegram: u.telegram@,
        instegram: u.instegram@,
        x_account: u.x_account@,
        emotion: u.current_emotion@,
        spiral: u.current_spiral@,
        emotion_history: u.emotion_history.deep_view(),
        spiral_history: u.spiral_history.deep_view(),
    }
}

/// No two user records carry the same id.
pub open spec fn ids_unique(users: Seq<UserModel>) -> bool {
    forall|i: int, j: int|
        0 <= i < users.len() && 0 <= j < users.len() && i != j ==> (#[trigger] users[i]).id != (
        #[trigger] users[j]).id
}

/// The mathematical value of the whole process state.
#[verifier::ext_equal]
pub ghost struct StateModel {
    pub counter: u32,
    pub users: Seq<UserModel>,
}

impl StateModel {
    pub open spec fn wf(self) -> bool {
        &&& forall|i: int| 0 <= i < self.users.len() ==> (#[trigger] self.users[i]).wf()
        &&& ids_unique(self.users)
    }

    pub open spec fn bounded(self) -> bool {
        &&& self.users.len() <= u64::MAX
        &&& forall|i: int| 0 <= i < self.users.len() ==> (#[trigger] self.users[i]).bounded()
    }
}

/// The process-wide state: the counter and the user records, keyed by
/// their unique ids.
#[derive(Debug)]
pub struct ProcessState {
    pub counter: u32,
    pub users: Vec<User>,
}

/// The models of a sequence of user records, in order.
pub open spec fn models_of(us: Seq<User>) -> Seq<UserModel> {
    Seq::new(us.len(), |i: int| user_model(us[i]))
}

impl ProcessState {
    pub open spec fn model(self) -> StateModel {
        StateModel { counter: self.counter, users: models_of(self.users@) }
    }

    pub open spec fn wf(self) -> bool {
        &&& forall|i: int| 0 <= i < self.users@.len() ==> (#[trigger] self.users@[i]).wf()
        &&& ids_unique(self.model().users)
    }
}

impl Default for ProcessState {
    /// The state of a first-ever startup: counter zero, no users.
    fn default() -> (s: ProcessState)
        ensures
            s.counter == 0,
            s.users@.len() == 0,
            s.wf(),
    {
        ProcessState { counter: 0, users: Vec::new() }
    }
}

/// The store: an explicitly absent-or-present slot holding the process
/// state.  The slot is absent before startup, after the state has been
/// taken for shutdown serialization, and again only until a restore.
#[derive(Debug)]
pub struct Store {
    pub state: Option<ProcessState>,
}

impl Store {
    pub open spec fn inv(self) -> bool {
        match self.state {
            Some(st) => st.wf(),
            None => true,
        }
    }

    pub open spec fn ready(self) -> bool {
        self.state is Some
    }

    /// A store whose slot is still absent: no operation may run yet.
    pub fn new() -> (s: Store)
        ensures
            s.state is None,
            s.inv(),
    {
        Store { state: None }
    }

    /// First-startup initialization: fills the absent slot with the
    /// default state.  It may only run on an absent slot, so it cannot
    /// discard live state later in the process's life.
    pub fn startup(&mut self)
        requires
            old(self).state is None,
        ensures
            final(self).inv(),
            final(self).state matches Some(st) && st.counter == 0 && st.users@.len() == 0,
    {
        self.state = Some(ProcessState::default());
    }

    /// Pure read of the counter; `StateNotReady` exactly when the slot
    /// is absent.
    pub fn get_counter(&self) -> (r: Result<u32, StoreError>)
        ensures
            match self.state {
                Some(st) => r == Ok::<u32, StoreError>(st.counter),
                None => r == Err::<u32, StoreError>(StoreError::StateNotReady),
            },
    {
        match &self.state {
            Some(st) => Ok(st.counter),
            None => Err(StoreError::StateNotReady),
        }
    }

    /// Adds one to the counter.  At the maximum representable value the
    /// call fails with `Overflow` and the counter is left unchanged; no
    /// partial mutation is possible.
    pub fn increment_counter(&mut self) -> (r: Result<(), StoreError>)
        requires
            old(self).inv(),
        ensures
            final(self).inv(),
            match old(self).state {
                None => {
                    &&& final(self).state is None
                    &&& r == Err::<(), StoreError>(StoreError::StateNotReady)
                },
                Some(st) => {
                    if st.counter == u32::MAX {
                        &&& final(self).state == old(self).state
                        &&& r == Err::<(), StoreError>(StoreError::Overflow)
                    } else {
                        &&& final(self).state matches Some(st2) && st2.counter == st.counter + 1
                            && st2.users == st.users
                        &&& r == Ok::<(), StoreError>(())
                    }
                },
            },
    {
        match self.state.take() {
            None => Err(StoreError::StateNotReady),
            Some(mut st) => {
                if st.counter == u32::MAX {
                    self.state = Some(st);
                    Err(StoreError::Overflow)
                } else {
                    st.counter = st.counter + 1;
                    self.state = Some(st);
                    Ok(())
                }
            },
        }
    }

    /// Unconditional overwrite of the counter.
    pub fn set_counter(&mut self, value: u32) -> (r: Result<(), StoreError>)
        requires
            old(self).inv(),
        ensures
            final(self).inv(),
            match old(self).state {
                None => {
                    &&& final(self).state is None
                    &&& r == Err::<(), StoreError>(StoreError::StateNotReady)
                },
                Some(st) => {
                    &&& final(self).state matches Some(st2) && st2.counter == value && st2.users
                        == st.users
                    &&& r == Ok::<(), StoreError>(())
                },
            },
    {
        match self.state.take() {
            None => Err(StoreError::StateNotReady),
            Some(mut st) => {
                st.counter = value;
                self.state = Some(st);
                Ok(())
            },
        }
    }

    /// Inserts a user record; `Ok(true)` when it was inserted, `Ok(false)`
    /// when a record with the same id is already present (the store is
    /// left unchanged: records are never replaced or deleted).
    #[verifier::loop_isolation(false)]
    pub fn add_user(&mut self, u: User) -> (r: Result<bool, StoreError>)
        requires
            old(self).inv(),
            u.wf(),
        ensures
            final(self).inv(),
            match old(self).state {
                None => {
                    &&& final(self).state is None
                    &&& r == Err::<bool, StoreError>(StoreError::StateNotReady)
                },
                Some(st) => {
                    if exists|i: int|
                        0 <= i < st.users@.len() && (#[trigger] st.users@[i]).id@ == u.id@ {
                        &&& final(self).state == old(self).state
                        &&& r == Ok::<bool, StoreError>(false)
                    } else {
                        &&& final(self).state matches Some(st2) && st2.counter == st.counter
                            && st2.users@ == st.users@.push(u)
                        &&& r == Ok::<bool, StoreError>(true)
                    }
                },
            },
    {
        match self.state.take() {
            None => Err(StoreError::StateNotReady),
            Some(mut st) => {
                let n = st.users.len();
                let mut i: usize = 0;
                while i < n
                    invariant
                        n == st.users@.len(),
                        i <= n,
                        forall|k: int|
                            0 <= k < i ==> (#[trigger] st.users@[k]).id@ != u.id@,
                    decreases n - i,
                {
                    if st.users[i].id.eq(&u.id) {
                        proof {
                            assert((st.users@[i as int]).id@ == u.id@);
                        }
                        self.state = Some(st);
                        return Ok(false);
                    }
                    i = i + 1;
                }
                let ghost gu = u;
                let ghost old_users = st.users@;
                st.users.push(u);
                proof {
                    assert(models_of(st.users@) =~= models_of(old_users).push(user_model(gu)));
                    assert(ids_unique(models_of(st.users@)));
                }
                self.state = Some(st);
                Ok(true)
            },
        }
    }

    /// Looks a user record up by its id.
    #[verifier::loop_isolation(false)]
    pub fn get_user(&self, id: &String) -> (r: Result<Option<&User>, StoreError>)
        ensures
            match self.state {
                None => r matches Err(e) && e == StoreError::StateNotReady,
                Some(st) => match r {
                    Ok(Some(u)) => u.id@ == id@ && (exists|i: int|
                        0 <= i < st.users@.len() && (#[trigger] st.users@[i]) == *u),
                    Ok(None) => forall|i: int|
                        0 <= i < st.users@.len() ==> (#[trigger] st.users@[i]).id@ != id@,
                    Err(_) => false,
                },
            },
    {
        match &self.state {
            None => Err(StoreError::StateNotReady),
            Some(st) => {
                let n = st.users.len();
                let mut i: usize = 0;
                while i < n
                    invariant
                        n == st.users@.len(),
                        i <= n,
                        forall|k: int|
                            0 <= k < i ==> (#[trigger] st.users@[k]).id@ != id@,
                    decreases n - i,
                {
                    if st.users[i].id.eq(id) {
                        return Ok(Some(&st.users[i]));
                    }
                    i = i + 1;
                }
                Ok(None)
            },
        }
    }

    /// Takes the whole state out of the slot and returns its durable
    /// blob.  The slot is left absent, so after this call no operation
    /// can observe the state that now lives only in the blob.
    pub fn serialize_for_shutdown(&mut self) -> (r: Result<Vec<u8>, StoreError>)
        requires
            old(self).inv(),
        ensures
            final(self).inv(),
            final(self).state is None,
            match old(self).state {
                Some(st) => {
                    &&& r matches Ok(b) && b@ == spec_encode(st.model())
                    &&& st.model().wf() && st.model().bounded()
                },
                None => r matches Err(e) && e == StoreError::StateNotReady,
            },
    {
        match self.state.take() {
            None => Err(StoreError::StateNotReady),
            Some(st) => {
                proof {
                    lemma_state_wf_model(st);
                }
                Ok(encode_state(&st))
            },
        }
    }

    /// Decodes a durable blob and installs the state it holds, replacing
    /// the slot wholesale.  Fails with `CorruptState`, leaving the slot
    /// as it was, exactly when the blob does not decode to a valid
    /// state; a corrupt blob is never silently replaced by defaults.
    pub fn restore_from_blob(&mut self, blob: &Vec<u8>) -> (r: Result<(), StoreError>)
        requires
            old(self).inv(),
        ensures
            final(self).inv(),
            match spec_decode(blob@) {
                Some(m) => {
                    &&& r == Ok::<(), StoreError>(())
                    &&& final(self).state matches Some(st) && st.wf() && st.model() == m
                },
                None => {
                    &&& r matches Err(e) && e == StoreError::CorruptState
                    &&& final(self).state == old(self).state
                },
            },
    {
        match decode_state(blob) {
            Some(st) => {
                self.state = Some(st);
                Ok(())
            },
            None => Err(StoreError::CorruptState),
        }
    }
}

/// A well-formed state has a well-formed model.
pub proof fn lemma_state_wf_model(st: ProcessState)
    requires
        st.wf(),
    ensures
        st.model().wf(),
{
    assert forall|i: int|
        0 <= i < st.model().users.len() implies (#[trigger] st.model().users[i]).wf() by {
        assert(st.users@[i].wf());
    }
}

/// Round trip at the store level: the blob that `serialize_for_shutdown`
/// makes of a well-formed state decodes, via `restore_from_blob`, to
/// exactly the model that was serialized — counter, identity fields,
/// current vectors and full histories alike.
pub proof fn lemma_store_round_trip(st: ProcessState)
    requires
        st.wf(),
        st.model().bounded(),
    ensures
        spec_decode(spec_encode(st.model())) == Some(st.model()),
{
    lemma_state_wf_model(st);
    crate::codec::lemma_round_trip(st.model());
}

/// Between two well-formed profiles with the same model, the derived
/// hybrid scores agree as well: the model pins every field.
pub proof fn lemma_hybrids_determined(u1: User, u2: User)
    requires
        u1.wf(),
        u2.wf(),
        user_model(u1) == user_model(u2),
    ensures
        u1.current_emotion_hybrid == u2.current_emotion_hybrid,
        u1.current_spiral_hybrid == u2.current_spiral_hybrid,
{
    assert(u1.current_emotion@ == u2.current_emotion@);
    assert(u1.current_spiral@ == u2.current_spiral@);
}

} // verus!
