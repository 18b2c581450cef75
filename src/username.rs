use vstd::prelude::*;
use crate::identity::Identity;
use crate::keyed::{keys_unique, has_key, pairs_map, lemma_pairs_map_at, lemma_pairs_map_push, lemma_pairs_map_update};

verus! {

/// One registration: the actor that owns a user.
#[derive(Debug, Clone)]
pub struct RegistryEntry {
    pub user_principal_id: Identity,
    pub canister_id: Identity,
}

/// Mapping from a user's identity to the address of the actor that owns it.
#[derive(Debug, Clone)]
pub struct CanisterRegistry {
    pub entries: Vec<RegistryEntry>,
}

impl CanisterRegistry {
    pub open spec fn pairs(&self) -> Seq<(Seq<u8>, Seq<u8>)> {
        self.entries@.map_values(|e: RegistryEntry| (e.user_principal_id@, e.canister_id@))
    }

    pub open spec fn wf(&self) -> bool {
        keys_unique(self.pairs())
    }
}

impl View for CanisterRegistry {
    type V = Map<Seq<u8>, Seq<u8>>;

    open spec fn view(&self) -> Map<Seq<u8>, Seq<u8>> {
        pairs_map(self.pairs())
    }
}

impl CanisterRegistry {
    pub fn new() -> (r: CanisterRegistry)
        ensures
            r.wf(),
            r@ == Map::<Seq<u8>, Seq<u8>>::empty(),
    {
        let r = CanisterRegistry { entries: Vec::new() };
        assert(r@ =~= Map::<Seq<u8>, Seq<u8>>::empty());
        r
    }

    fn find(&self, user: &Identity) -> (r: Option<usize>)
        requires
            self.wf(),
        ensures
            r is None ==> !has_key(self.pairs(), user@),
            r matches Some(i) ==> i < self.entries@.len() && self.pairs()[i as int].0 == user@,
    {
        let mut i: usize = 0;
        while i < self.entries.len()
            invariant
                0 <= i <= self.entries@.len(),
                forall|k: int| 0 <= k < i ==> self.pairs()[k].0 != user@,
            decreases self.entries@.len() - i,
        {
            if self.entries[i].user_principal_id.same_as(user) {
                return Some(i);
            }
            i = i + 1;
        }
        None
    }

    /// Records that `canister_id` owns `user_principal_id`, replacing an
    /// earlier record for that user.
    pub fn insert(&mut self, user_principal_id: Identity, canister_id: Identity)
        requires
            old(self).wf(),
        ensures
            final(self).wf(),
            final(self)@ == old(self)@.insert(user_principal_id@, canister_id@),
    {
        let ghost s = self.pairs();
        let ghost e = (user_principal_id@, canister_id@);
        match self.find(&user_principal_id) {
            None => {
                self.entries.push(RegistryEntry { user_principal_id, canister_id });
                proof {
                    assert(self.pairs() =~= s.push(e));
                    lemma_pairs_map_push(s, e);
                }
            },
            Some(i) => {
                self.entries.remove(i);
                self.entries.insert(i, RegistryEntry { user_principal_id, canister_id });
                proof {
                    assert(self.pairs() =~= s.update(i as int, (s[i as int].0, e.1)));
                    lemma_pairs_map_update(s, i as int, e.1);
                }
            },
        }
    }

    /// The owner recorded for `user_principal_id`, if any.
    pub fn get(&self, user_principal_id: &Identity) -> (r: Option<&Identity>)
        requires
            self.wf(),
        ensures
            r is None <==> !self@.contains_key(user_principal_id@),
            r matches Some(c) ==> c@ == self@[user_principal_id@],
    {
        match self.find(user_principal_id) {
            None => None,
            Some(i) => {
                proof {
                    lemma_pairs_map_at(self.pairs(), i as int);
                }
                Some(&self.entries[i].canister_id)
            },
        }
    }
}

/// Why a username claim was refused.
#[derive(Debug, Clone, Copy, PartialEq, Eq, Hash, Structural)]
pub enum SetUniqueUsernameError {
    UsernameAlreadyTaken,
    UserCanisterEntryDoesNotExist,
    SendingCanisterDoesNotMatchUserCanisterId,
}

/// One claimed username and the actor that claimed it.
#[derive(Debug, Clone)]
pub struct UsernameEntry {
    pub unique_user_name: String,
    pub owner: Identity,
}

/// Mapping from claimed usernames to the actors that claimed them. Entries
/// are only ever added, by a successful claim.
#[derive(Debug, Clone)]
pub struct UsernameDirectory {
    entries: Vec<UsernameEntry>,
}

impl UsernameDirectory {
    pub closed spec fn pairs(&self) -> Seq<(Seq<char>, Seq<u8>)> {
        self.entries@.map_values(|e: UsernameEntry| (e.unique_user_name@, e.owner@))
    }

    pub closed spec fn wf(&self) -> bool {
        keys_unique(self.pairs())
    }
}

impl View for UsernameDirectory {
    type V = Map<Seq<char>, Seq<u8>>;

    closed spec fn view(&self) -> Map<Seq<char>, Seq<u8>> {
        pairs_map(self.pairs())
    }
}

/// The outcome of a claim of `name` for `user` by `caller`: the first check
/// that fails decides the error.
pub open spec fn claim_result(
    directory: Map<Seq<char>, Seq<u8>>,
    registry: Map<Seq<u8>, Seq<u8>>,
    caller: Seq<u8>,
    name: Seq<char>,
    user: Seq<u8>,
) -> Result<(), SetUniqueUsernameError> {
    if directory.contains_key(name) {
        Err(SetUniqueUsernameError::UsernameAlreadyTaken)
    } else if !registry.contains_key(user) {
        Err(SetUniqueUsernameError::UserCanisterEntryDoesNotExist)
    } else if registry[user] != caller {
        Err(SetUniqueUsernameError::SendingCanisterDoesNotMatchUserCanisterId)
    } else {
        Ok(())
    }
}

/// The directory after that claim: the name is bound to the caller on success
/// and nothing changes on failure.
pub open spec fn directory_after_claim(
    directory: Map<Seq<char>, Seq<u8>>,
    registry: Map<Seq<u8>, Seq<u8>>,
    caller: Seq<u8>,
    name: Seq<char>,
    user: Seq<u8>,
) -> Map<Seq<char>, Seq<u8>> {
    if claim_result(directory, registry, caller, name, user) is Ok {
        directory.insert(name, caller)
    } else {
        directory
    }
}

impl UsernameDirectory {
    pub fn new() -> (r: UsernameDirectory)
        ensures
            r.wf(),
            r@ == Map::<Seq<char>, Seq<u8>>::empty(),
    {
        let r = UsernameDirectory { entries: Vec::new() };
        assert(pairs_map(r.pairs()) =~= Map::<Seq<char>, Seq<u8>>::empty());
        r
    }

    pub fn contains_key(&self, unique_user_name: &String) -> (r: bool)
        requires
            self.wf(),
        ensures
            r == self@.contains_key(unique_user_name@),
    {
        self.find(unique_user_name).is_some()
    }

    /// The actor that claimed `unique_user_name`, if any.
    pub fn get(&self, unique_user_name: &String) -> (r: Option<&Identity>)
        requires
            self.wf(),
        ensures
            r is None <==> !self@.contains_key(unique_user_name@),
            r matches Some(c) ==> c@ == self@[unique_user_name@],
    {
        match self.find(unique_user_name) {
            None => None,
            Some(i) => {
                proof {
                    lemma_pairs_map_at(self.pairs(), i as int);
                }
                Some(&self.entries[i].owner)
            },
        }
    }

    fn find(&self, unique_user_name: &String) -> (r: Option<usize>)
        requires
            self.wf(),
        ensures
            r is None ==> !self@.contains_key(unique_user_name@),
            r matches Some(i) ==> i < self.entries@.len() && self.pairs()[i as int].0
                == unique_user_name@,
    {
        let mut i: usize = 0;
        while i < self.entries.len()
            invariant
                0 <= i <= self.entries@.len(),
                forall|k: int| 0 <= k < i ==> self.pairs()[k].0 != unique_user_name@,
            decreases self.entries@.len() - i,
        {
            if self.entries[i].unique_user_name == *unique_user_name {
                return Some(i);
            }
            i = i + 1;
        }
        None
    }

    fn insert_new(&mut self, unique_user_name: String, owner: Identity)
        requires
            old(self).wf(),
            !old(self)@.contains_key(unique_user_name@),
        ensures
            final(self).wf(),
            final(self)@ == old(self)@.insert(unique_user_name@, owner@),
    {
        let ghost s = self.pairs();
        let ghost e = (unique_user_name@, owner@);
        self.entries.push(UsernameEntry { unique_user_name, owner });
        proof {
            assert(self.pairs() =~= s.push(e));
            lemma_pairs_map_push(s, e);
        }
    }
}

/// Claims `unique_user_name` on behalf of `user_principal_id`, for the actor
/// `caller` that sent the request. The claim succeeds only for a free name,
/// a registered user, and the caller that the registry records as the user's
/// owner; the name is then bound to `caller`.
pub fn update_index_with_unique_user_name_corresponding_to_user_principal_id(
    directory: &mut UsernameDirectory,
    registry: &CanisterRegistry,
    caller: &Identity,
    unique_user_name: String,
    user_principal_id: Identity,
) -> (r: Result<(), SetUniqueUsernameError>)
    requires
        old(directory).wf(),
        registry.wf(),
    ensures
        final(directory).wf(),
        r == claim_result(old(directory)@, registry@, caller@, unique_user_name@, user_principal_id@),
        final(directory)@ == directory_after_claim(
            old(directory)@,
            registry@,
            caller@,
            unique_user_name@,
            user_principal_id@,
        ),
{
    if directory.contains_key(&unique_user_name) {
        return Err(SetUniqueUsernameError::UsernameAlreadyTaken);
    }
    match registry.get(&user_principal_id) {
        None => Err(SetUniqueUsernameError::UserCanisterEntryDoesNotExist),
        Some(owner) => {
            if !owner.same_as(caller) {
                return Err(SetUniqueUsernameError::SendingCanisterDoesNotMatchUserCanisterId);
            }
            directory.insert_new(unique_user_name, caller.duplicate());
            Ok(())
        },
    }
}

/// Once a claim of a name succeeds, the name stays bound to that caller
/// through any later claims, and every later claim of it, by any caller and
/// for any user, is refused as already taken.
pub proof fn lemma_claim_is_final(
    directory: Map<Seq<char>, Seq<u8>>,
    registry: Map<Seq<u8>, Seq<u8>>,
    caller: Seq<u8>,
    name: Seq<char>,
    user: Seq<u8>,
    later_registry: Map<Seq<u8>, Seq<u8>>,
    later_caller: Seq<u8>,
    later_name: Seq<char>,
    later_user: Seq<u8>,
)
    requires
        claim_result(directory, registry, caller, name, user) is Ok,
    ensures
        ({
            let claimed = directory_after_claim(directory, registry, caller, name, user);
            &&& claimed.contains_key(name) && claimed[name] == caller
            &&& claim_result(claimed, later_registry, later_caller, name, later_user)
                == Err::<(), SetUniqueUsernameError>(SetUniqueUsernameError::UsernameAlreadyTaken)
            &&& directory_after_claim(claimed, later_registry, later_caller, later_name, later_user)[name]
                == caller
        }),
{
}

/// A claim for a free name fails as unauthenticated whenever the registry
/// records an owner for the user other than the caller.
pub proof fn lemma_claim_needs_owner(
    directory: Map<Seq<char>, Seq<u8>>,
    registry: Map<Seq<u8>, Seq<u8>>,
    caller: Seq<u8>,
    name: Seq<char>,
    user: Seq<u8>,
)
    requires
        !directory.contains_key(name),
        registry.contains_key(user),
        registry[user] != caller,
    ensures
        claim_result(directory, registry, caller, name, user) == Err::<(), SetUniqueUsernameError>(
            SetUniqueUsernameError::SendingCanisterDoesNotMatchUserCanisterId,
        ),
        directory_after_claim(directory, registry, caller, name, user) == directory,
{
}

/// A claim for a user the registry does not know never succeeds, and for a
/// free name it fails as unregistered.
pub proof fn lemma_claim_needs_registration(
    directory: Map<Seq<char>, Seq<u8>>,
    registry: Map<Seq<u8>, Seq<u8>>,
    caller: Seq<u8>,
    name: Seq<char>,
    user: Seq<u8>,
)
    requires
        !registry.contains_key(user),
    ensures
        claim_result(directory, registry, caller, name, user) is Err,
        directory_after_claim(directory, registry, caller, name, user) == directory,
        !directory.contains_key(name) ==> claim_result(directory, registry, caller, name, user)
            == Err::<(), SetUniqueUsernameError>(SetUniqueUsernameError::UserCanisterEntryDoesNotExist),
{
}

} // verus!
