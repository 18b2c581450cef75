use vstd::prelude::*;
use crate::identity::Identity;
use crate::keyed::{keys_unique, has_key, pairs_map, lemma_pairs_map_at, lemma_pairs_map_push, lemma_pairs_map_update};

verus! {

/// A capability tag that an identity may hold.
#[derive(Debug, Clone, Copy, PartialEq, Eq, Hash, Structural)]
pub enum UserAccessRole {
    CanisterController,
    ProfileOwner,
    CanisterAdmin,
    ProjectCanister,
    Moderator,
}

/// The roles held by one identity.
#[derive(Debug, Clone)]
pub struct RoleEntry {
    pub principal_id: Identity,
    pub roles: Vec<UserAccessRole>,
}

impl View for RoleEntry {
    type V = (Seq<u8>, Seq<UserAccessRole>);

    open spec fn view(&self) -> (Seq<u8>, Seq<UserAccessRole>) {
        (self.principal_id@, self.roles@)
    }
}

/// No identity has two entries, and no entry lists a role twice.
pub open spec fn entries_wf(s: Seq<(Seq<u8>, Seq<UserAccessRole>)>) -> bool {
    &&& keys_unique(s)
    &&& forall|i: int| 0 <= i < s.len() ==> (#[trigger] s[i]).1.no_duplicates()
}

/// Each identity paired with the set of roles its entry lists.
pub open spec fn role_sets(s: Seq<(Seq<u8>, Seq<UserAccessRole>)>) -> Seq<(Seq<u8>, Set<UserAccessRole>)> {
    s.map_values(|e: (Seq<u8>, Seq<UserAccessRole>)| (e.0, e.1.to_set()))
}

/// The identity-to-role-set map that a list of entries stands for.
pub open spec fn role_map(s: Seq<(Seq<u8>, Seq<UserAccessRole>)>) -> Map<Seq<u8>, Set<UserAccessRole>> {
    pairs_map(role_sets(s))
}

proof fn lemma_role_map_at(s: Seq<(Seq<u8>, Seq<UserAccessRole>)>, i: int)
    requires
        entries_wf(s),
        0 <= i < s.len(),
    ensures
        role_map(s).contains_key(s[i].0),
        role_map(s)[s[i].0] == s[i].1.to_set(),
{
    lemma_pairs_map_at(role_sets(s), i);
}

proof fn lemma_role_map_update(s: Seq<(Seq<u8>, Seq<UserAccessRole>)>, i: int, roles: Seq<UserAccessRole>)
    requires
        entries_wf(s),
        0 <= i < s.len(),
        roles.no_duplicates(),
    ensures
        entries_wf(s.update(i, (s[i].0, roles))),
        role_map(s.update(i, (s[i].0, roles))) == role_map(s).insert(s[i].0, roles.to_set()),
{
    let t = s.update(i, (s[i].0, roles));
    assert(entries_wf(t));
    assert(role_sets(t) =~= role_sets(s).update(i, (s[i].0, roles.to_set())));
    lemma_pairs_map_update(role_sets(s), i, roles.to_set());
}

proof fn lemma_role_map_push(s: Seq<(Seq<u8>, Seq<UserAccessRole>)>, e: (Seq<u8>, Seq<UserAccessRole>))
    requires
        entries_wf(s),
        !has_key(s, e.0),
        e.1.no_duplicates(),
    ensures
        entries_wf(s.push(e)),
        role_map(s.push(e)) == role_map(s).insert(e.0, e.1.to_set()),
{
    let t = s.push(e);
    assert(t[s.len() as int] == e);
    assert(entries_wf(t));
    assert(role_sets(t) =~= role_sets(s).push((e.0, e.1.to_set())));
    if has_key(role_sets(s), e.0) {
        let k = choose|k: int| 0 <= k < role_sets(s).len() && role_sets(s)[k].0 == e.0;
        assert(s[k].0 == e.0);
    }
    lemma_pairs_map_push(role_sets(s), (e.0, e.1.to_set()));
}

/// The roles of `id` in `m`: none for an identity `m` does not know.
pub open spec fn roles_in(m: Map<Seq<u8>, Set<UserAccessRole>>, id: Seq<u8>) -> Set<UserAccessRole> {
    if m.contains_key(id) {
        m[id]
    } else {
        Set::empty()
    }
}

/// `m` after `id` is given `role`.
pub open spec fn granted(
    m: Map<Seq<u8>, Set<UserAccessRole>>,
    id: Seq<u8>,
    role: UserAccessRole,
) -> Map<Seq<u8>, Set<UserAccessRole>> {
    m.insert(id, roles_in(m, id).insert(role))
}

/// `m` after `role` is taken from `id`; an unknown identity stays unknown.
pub open spec fn revoked(
    m: Map<Seq<u8>, Set<UserAccessRole>>,
    id: Seq<u8>,
    role: UserAccessRole,
) -> Map<Seq<u8>, Set<UserAccessRole>> {
    if m.contains_key(id) {
        m.insert(id, m[id].remove(role))
    } else {
        m
    }
}

/// Granting a role twice leaves the same map as granting it once.
pub proof fn lemma_grant_idempotent(
    m: Map<Seq<u8>, Set<UserAccessRole>>,
    id: Seq<u8>,
    role: UserAccessRole,
)
    ensures
        granted(granted(m, id, role), id, role) == granted(m, id, role),
        roles_in(granted(m, id, role), id) == roles_in(m, id).insert(role),
{
    assert(roles_in(m, id).insert(role).insert(role) =~= roles_in(m, id).insert(role));
    assert(granted(granted(m, id, role), id, role) =~= granted(m, id, role));
}

/// Revoking a role that an identity does not hold changes nothing.
pub proof fn lemma_revoke_unheld_is_noop(
    m: Map<Seq<u8>, Set<UserAccessRole>>,
    id: Seq<u8>,
    role: UserAccessRole,
)
    requires
        !roles_in(m, id).contains(role),
    ensures
        revoked(m, id, role) == m,
{
    if m.contains_key(id) {
        assert(m[id].remove(role) =~= m[id]);
        assert(revoked(m, id, role) =~= m);
    }
}

/// Mapping from identity to the set of roles it holds.
#[derive(Debug, Clone)]
pub struct AccessControlMap {
    pub entries: Vec<RoleEntry>,
}

impl View for AccessControlMap {
    type V = Map<Seq<u8>, Set<UserAccessRole>>;

    open spec fn view(&self) -> Map<Seq<u8>, Set<UserAccessRole>> {
        role_map(self.entry_views())
    }
}

impl AccessControlMap {
    pub open spec fn entry_views(&self) -> Seq<(Seq<u8>, Seq<UserAccessRole>)> {
        self.entries@.map_values(|e: RoleEntry| e@)
    }

    pub open spec fn wf(&self) -> bool {
        entries_wf(self.entry_views())
    }

    pub fn new() -> (r: AccessControlMap)
        ensures
            r.wf(),
            r@ == Map::<Seq<u8>, Set<UserAccessRole>>::empty(),
    {
        let r = AccessControlMap { entries: Vec::new() };
        assert(r.entry_views() =~= Seq::empty());
        assert(r@ =~= Map::<Seq<u8>, Set<UserAccessRole>>::empty());
        r
    }

    /// Position of the entry of `id`, if it has one.
    fn find(&self, id: &Identity) -> (r: Option<usize>)
        requires
            self.wf(),
        ensures
            r is None ==> !has_key(self.entry_views(), id@),
            r matches Some(i) ==> i < self.entries@.len() && self.entry_views()[i as int].0 == id@,
    {
        let mut i: usize = 0;
        while i < self.entries.len()
            invariant
                0 <= i <= self.entries@.len(),
                forall|k: int| 0 <= k < i ==> self.entry_views()[k].0 != id@,
            decreases self.entries@.len() - i,
        {
            if self.entries[i].principal_id.same_as(id) {
                return Some(i);
            }
            i = i + 1;
        }
        None
    }

    /// Gives `role` to `principal_id`; nothing changes if it already holds it.
    pub fn add_role_to_principal_id(&mut self, principal_id: Identity, role: UserAccessRole)
        requires
            old(self).wf(),
        ensures
            final(self).wf(),
            final(self)@ == granted(old(self)@, principal_id@, role),
    {
        let ghost s = self.entry_views();
        match self.find(&principal_id) {
            None => {
                let mut roles: Vec<UserAccessRole> = Vec::new();
                roles.push(role);
                let ghost e = (principal_id@, roles@);
                self.entries.push(RoleEntry { principal_id, roles });
                proof {
                    assert(self.entry_views() =~= s.push(e));
                    assert(e.1.len() == 1 && e.1[0] == role);
                    assert(e.1.to_set() =~= Set::<UserAccessRole>::empty().insert(role));
                    lemma_role_map_push(s, e);
                }
            },
            Some(i) => {
                proof {
                    lemma_role_map_at(s, i as int);
                }
                match position_of_role(&self.entries[i].roles, role) {
                    Some(_) => {
                        assert(s[i as int].1.to_set().insert(role) =~= s[i as int].1.to_set());
                        assert(self@ =~= granted(old(self)@, principal_id@, role));
                    },
                    None => {
                        let mut e = self.entries.remove(i);
                        let ghost before_roles = e.roles@;
                        e.roles.push(role);
                        let ghost ev = e@;
                        self.entries.insert(i, e);
                        proof {
                            assert(self.entry_views() =~= s.update(i as int, (s[i as int].0, ev.1)));
                            lemma_push_role_to_set(before_roles, role);
                            lemma_role_map_update(s, i as int, ev.1);
                        }
                    },
                }
            },
        }
    }

    /// Takes `role` from `principal_id`; nothing changes if it does not hold it,
    /// and an identity the map does not know stays unknown.
    pub fn remove_role_from_principal_id(&mut self, principal_id: &Identity, role: UserAccessRole)
        requires
            old(self).wf(),
        ensures
            final(self).wf(),
            final(self)@ == revoked(old(self)@, principal_id@, role),
    {
        let ghost s = self.entry_views();
        match self.find(principal_id) {
            None => {},
            Some(i) => {
                proof {
                    lemma_role_map_at(s, i as int);
                }
                match position_of_role(&self.entries[i].roles, role) {
                    None => {
                        assert(s[i as int].1.to_set().remove(role) =~= s[i as int].1.to_set());
                        assert(self@ =~= revoked(old(self)@, principal_id@, role));
                    },
                    Some(k) => {
                        let mut e = self.entries.remove(i);
                        let ghost before_roles = e.roles@;
                        e.roles.remove(k);
                        let ghost ev = e@;
                        self.entries.insert(i, e);
                        proof {
                            assert(self.entry_views() =~= s.update(i as int, (s[i as int].0, ev.1)));
                            lemma_remove_role_to_set(before_roles, k as int);
                            lemma_role_map_update(s, i as int, ev.1);
                        }
                    },
                }
            },
        }
    }

    /// The roles of `principal_id`, each listed once.
    pub fn get_role_for_principal_id(&self, principal_id: &Identity) -> (r: Vec<UserAccessRole>)
        requires
            self.wf(),
        ensures
            r@.no_duplicates(),
            r@.to_set() == roles_in(self@, principal_id@),
    {
        let ghost s = self.entry_views();
        match self.find(principal_id) {
            None => {
                let r: Vec<UserAccessRole> = Vec::new();
                assert(r@.to_set() =~= Set::<UserAccessRole>::empty());
                r
            },
            Some(i) => {
                proof {
                    lemma_role_map_at(s, i as int);
                }
                let roles = &self.entries[i].roles;
                let mut r: Vec<UserAccessRole> = Vec::new();
                let mut k: usize = 0;
                while k < roles.len()
                    invariant
                        0 <= k <= roles@.len(),
                        r@ =~= roles@.take(k as int),
                    decreases roles@.len() - k,
                {
                    r.push(roles[k]);
                    k = k + 1;
                }
                assert(r@ =~= roles@);
                r
            },
        }
    }
}

/// Position of `role` in `roles`, if it is there.
fn position_of_role(roles: &Vec<UserAccessRole>, role: UserAccessRole) -> (r: Option<usize>)
    ensures
        r is None ==> !roles@.contains(role),
        r matches Some(k) ==> k < roles@.len() && roles@[k as int] == role,
{
    let mut k: usize = 0;
    while k < roles.len()
        invariant
            0 <= k <= roles@.len(),
            forall|j: int| 0 <= j < k ==> roles@[j] != role,
        decreases roles@.len() - k,
    {
        if roles[k] == role {
            return Some(k);
        }
        k = k + 1;
    }
    None
}

proof fn lemma_push_role_to_set(roles: Seq<UserAccessRole>, role: UserAccessRole)
    requires
        roles.no_duplicates(),
        !roles.contains(role),
    ensures
        roles.push(role).no_duplicates(),
        roles.push(role).to_set() == roles.to_set().insert(role),
{
    let t = roles.push(role);
    assert(t[roles.len() as int] == role);
    assert forall|x: UserAccessRole| t.contains(x) <==> (roles.contains(x) || x == role) by {
        if t.contains(x) {
            let j = choose|j: int| 0 <= j < t.len() && t[j] == x;
            if j < roles.len() {
                assert(roles[j] == x);
            }
        }
        if roles.contains(x) {
            let j = choose|j: int| 0 <= j < roles.len() && roles[j] == x;
            assert(t[j] == x);
        }
    }
    assert(t.to_set() =~= roles.to_set().insert(role));
}

proof fn lemma_remove_role_to_set(roles: Seq<UserAccessRole>, k: int)
    requires
        roles.no_duplicates(),
        0 <= k < roles.len(),
    ensures
        roles.remove(k).no_duplicates(),
        roles.remove(k).to_set() == roles.to_set().remove(roles[k]),
{
    let t = roles.remove(k);
    assert forall|i: int, j: int| 0 <= i < t.len() && 0 <= j < t.len() && i != j implies t[i] != t[j] by {
        let i2 = if i >= k { i + 1 } else { i };
        let j2 = if j >= k { j + 1 } else { j };
        assert(t[i] == roles[i2] && t[j] == roles[j2]);
    }
    assert forall|x: UserAccessRole| t.contains(x) <==> (roles.contains(x) && x != roles[k]) by {
        if t.contains(x) {
            let j = choose|j: int| 0 <= j < t.len() && t[j] == x;
            let j2 = if j >= k { j + 1 } else { j };
            assert(roles[j2] == x);
        }
        if roles.contains(x) && x != roles[k] {
            let j = choose|j: int| 0 <= j < roles.len() && roles[j] == x;
            if j > k {
                assert(t[j - 1] == x);
            } else {
                assert(t[j] == x);
            }
        }
    }
    assert(t.to_set() =~= roles.to_set().remove(roles[k]));
}

/// Gives `role` to `principal_id` in the actor's role map.
pub fn update_user_add_role(map: &mut AccessControlMap, role: UserAccessRole, principal_id: Identity)
    requires
        old(map).wf(),
    ensures
        final(map).wf(),
        final(map)@ == granted(old(map)@, principal_id@, role),
{
    map.add_role_to_principal_id(principal_id, role);
}

/// Takes `role` from `principal_id` in the actor's role map.
pub fn update_user_remove_role(map: &mut AccessControlMap, role: UserAccessRole, principal_id: Identity)
    requires
        old(map).wf(),
    ensures
        final(map).wf(),
        final(map)@ == revoked(old(map)@, principal_id@, role),
{
    map.remove_role_from_principal_id(&principal_id, role);
}

/// The roles that `principal_id` holds in the actor's role map, each once.
pub fn get_user_roles(map: &AccessControlMap, principal_id: Identity) -> (r: Vec<UserAccessRole>)
    requires
        map.wf(),
    ensures
        r@.no_duplicates(),
        r@.to_set() == roles_in(map@, principal_id@),
{
    map.get_role_for_principal_id(&principal_id)
}

} // verus!
