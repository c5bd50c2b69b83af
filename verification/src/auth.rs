use vstd::prelude::*;
use crate::privilege::Privilege;
use crate::store::Store;

verus! {

impl Store {
    /// The guild exists and its relation assigns privilege `p` to `role`.
    /// Membership is presence-based: a nonexistent guild or an unassigned
    /// role simply does not hold the privilege, which is not an error.
    pub open spec fn role_holds(self, guild: u64, role: u64, p: Privilege) -> bool {
        self.has_config(guild) && self.config_of(guild).holds(role, p)
    }

    /// The set of privileges directly assigned to the role within the guild;
    /// empty if the guild does not exist.
    pub open spec fn spec_privileges_for(self, guild: u64, role: u64) -> Set<Privilege> {
        Set::new(|p: Privilege| self.role_holds(guild, role, p))
    }

    /// ALL semantics over one role: the role holds every required privilege.
    pub open spec fn spec_has_privileges(
        self,
        guild: u64,
        role: u64,
        required: Seq<Privilege>,
    ) -> bool {
        forall|i: int| 0 <= i < required.len() ==> self.role_holds(guild, role, #[trigger] required[i])
    }

    /// ANY semantics over one privilege: some role of the list holds it.
    pub open spec fn spec_have_privilege(self, guild: u64, roles: Seq<u64>, p: Privilege) -> bool {
        exists|i: int| 0 <= i < roles.len() && self.role_holds(guild, #[trigger] roles[i], p)
    }

    /// Whether the role holds the privilege within the guild.
    pub fn role_has(&self, guild: u64, role: u64, privilege: Privilege) -> (r: bool)
        requires
            self.wf(),
        ensures
            r == self.role_holds(guild, role, privilege),
    {
        match self.find_config(guild) {
            Some(ci) => {
                let cfg = &self.configs[ci];
                let mut k: usize = 0;
                while k < cfg.role_privileges.len()
                    invariant
                        self.has_config(guild),
                        *cfg == self.config_of(guild),
                        k <= cfg.role_privileges@.len(),
                        forall|j: int|
                            0 <= j < k ==> cfg.role_privileges@[j] != (role, privilege),
                    decreases cfg.role_privileges@.len() - k,
                {
                    let pair = cfg.role_privileges[k];
                    if pair.0 == role && pair.1 == privilege {
                        proof {
                            assert(cfg.role_privileges@[k as int] == (role, privilege));
                            assert(cfg.holds(role, privilege));
                            assert(*cfg == self.config_of(guild));
                        }
                        return true;
                    }
                    k += 1;
                }
                false
            },
            None => false,
        }
    }

    /// All privileges directly assigned to the role in the guild; empty if
    /// the guild does not exist or the role has none (never an error). No
    /// privilege repeats.
    pub fn privileges_for(&self, guild: u64, role: u64) -> (r: Vec<Privilege>)
        requires
            self.wf(),
        ensures
            forall|p: Privilege| r@.contains(p) <==> self.spec_privileges_for(guild, role).contains(
                p,
            ),
            forall|i: int, j: int| 0 <= i < j < r@.len() ==> r@[i] != r@[j],
    {
        let mut out: Vec<Privilege> = Vec::new();
        if self.role_has(guild, role, Privilege::Admin) {
            out.push(Privilege::Admin);
        }
        if self.role_has(guild, role, Privilege::Manager) {
            out.push(Privilege::Manager);
        }
        if self.role_has(guild, role, Privilege::Event) {
            out.push(Privilege::Event);
        }
        proof {
            assert forall|p: Privilege| out@.contains(p) <==> self.spec_privileges_for(
                guild,
                role,
            ).contains(p) by {
                match p {
                    Privilege::Admin => {
                        if self.role_holds(guild, role, p) {
                            assert(out@[0] == p);
                        }
                    },
                    Privilege::Manager => {
                        if self.role_holds(guild, role, p) {
                            assert(out@.last() == p || out@[out@.len() - 2] == p);
                        }
                    },
                    Privilege::Event => {
                        if self.role_holds(guild, role, p) {
                            assert(out@.last() == p);
                        }
                    },
                }
            }
        }
        out
    }

    /// All roles in the guild holding the privilege; empty if the guild does
    /// not exist (never an error). No role repeats.
    pub fn roles_with(&self, guild: u64, privilege: Privilege) -> (r: Vec<u64>)
        requires
            self.wf(),
        ensures
            forall|role: u64| r@.contains(role) <==> self.role_holds(guild, role, privilege),
            forall|i: int, j: int| 0 <= i < j < r@.len() ==> r@[i] != r@[j],
    {
        match self.find_config(guild) {
            Some(ci) => {
                let cfg = &self.configs[ci];
                let mut out: Vec<u64> = Vec::new();
                let mut k: usize = 0;
                while k < cfg.role_privileges.len()
                    invariant
                        self.wf(),
                        self.has_config(guild),
                        cfg == self.configs@[self.config_index(guild)],
                        cfg.wf(),
                        k <= cfg.role_privileges@.len(),
                        forall|idx: int|
                            0 <= idx < out@.len() ==> exists|j: int|
                                0 <= j < k && cfg.role_privileges@[j] == (
                                #[trigger] out@[idx],
                                privilege,
                                ),
                        forall|j: int|
                            0 <= j < k && (#[trigger] cfg.role_privileges@[j]).1 == privilege
                                ==> out@.contains(cfg.role_privileges@[j].0),
                        forall|i: int, j: int| 0 <= i < j < out@.len() ==> out@[i] != out@[j],
                    decreases cfg.role_privileges@.len() - k,
                {
                    let pair = cfg.role_privileges[k];
                    let ghost out0 = out@;
                    if pair.1 == privilege {
                        proof {
                            assert(cfg.role_privileges@[k as int] == (pair.0, privilege));
                            if out@.contains(pair.0) {
                                let idx = choose|idx: int|
                                    0 <= idx < out@.len() && out@[idx] == pair.0;
                                let j = choose|j: int|
                                    0 <= j < k && cfg.role_privileges@[j] == (pair.0, privilege);
                                assert(cfg.role_privileges@[j] == cfg.role_privileges@[k as int]);
                                assert(false);
                            }
                        }
                        out.push(pair.0);
                    }
                    proof {
                        assert(forall|idx: int| 0 <= idx < out0.len() ==> out@[idx] == out0[idx]);
                        assert forall|j: int|
                            0 <= j < k + 1 && (#[trigger] cfg.role_privileges@[j]).1
                                == privilege implies out@.contains(
                            cfg.role_privileges@[j].0,
                        ) by {
                            if j < k {
                                assert(out0.contains(cfg.role_privileges@[j].0));
                                let idx = choose|idx: int|
                                    0 <= idx < out0.len() && out0[idx] == cfg.role_privileges@[j].0;
                                assert(out@[idx] == cfg.role_privileges@[j].0);
                            } else {
                                assert(out@.last() == pair.0);
                            }
                        }
                        assert forall|idx: int| 0 <= idx < out@.len() implies exists|j: int|
                            0 <= j < k + 1 && cfg.role_privileges@[j] == (
                            #[trigger] out@[idx],
                            privilege,
                        ) by {
                            if idx < out0.len() {
                                let j = choose|j: int|
                                    0 <= j < k && cfg.role_privileges@[j] == (out0[idx], privilege);
                                assert(cfg.role_privileges@[j] == (out@[idx], privilege));
                            } else {
                                assert(out@[idx] == pair.0);
                                assert(cfg.role_privileges@[k as int] == (out@[idx], privilege));
                            }
                        }
                    }
                    k += 1;
                }
                proof {
                    assert forall|role: u64| out@.contains(role) <==> self.role_holds(
                        guild,
                        role,
                        privilege,
                    ) by {
                        if out@.contains(role) {
                            let idx = choose|idx: int|
                                0 <= idx < out@.len() && out@[idx] == role;
                            assert(exists|j: int|
                                0 <= j < cfg.role_privileges@.len() && cfg.role_privileges@[j] == (
                                out@[idx],
                                privilege,
                                ));
                            assert(cfg.holds(role, privilege));
                        }
                        if self.role_holds(guild, role, privilege) {
                            let j = choose|j: int|
                                0 <= j < cfg.role_privileges@.len() && cfg.role_privileges@[j] == (
                                role,
                                privilege,
                                );
                            assert((#[trigger] cfg.role_privileges@[j]).1 == privilege);
                            assert(out@.contains(cfg.role_privileges@[j].0));
                        }
                    }
                }
                out
            },
            None => Vec::new(),
        }
    }

    /// ALL semantics: true iff the role holds every privilege of `required`;
    /// an empty `required` list is vacuously true.
    pub fn has_privileges(&self, guild: u64, role: u64, required: &Vec<Privilege>) -> (r: bool)
        requires
            self.wf(),
        ensures
            r == self.spec_has_privileges(guild, role, required@),
    {
        let mut i: usize = 0;
        while i < required.len()
            invariant
                self.wf(),
                i <= required@.len(),
                forall|k: int| 0 <= k < i ==> self.role_holds(guild, role, #[trigger] required@[k]),
            decreases required@.len() - i,
        {
            if !self.role_has(guild, role, required[i]) {
                return false;
            }
            i += 1;
        }
        true
    }

    /// ANY semantics: true iff any role of `roles` holds the privilege. This
    /// is a materially different combinator from `has_privileges`.
    pub fn have_privilege(&self, guild: u64, roles: &Vec<u64>, privilege: Privilege) -> (r: bool)
        requires
            self.wf(),
        ensures
            r == self.spec_have_privilege(guild, roles@, privilege),
    {
        let mut i: usize = 0;
        while i < roles.len()
            invariant
                self.wf(),
                i <= roles@.len(),
                forall|k: int|
                    0 <= k < i ==> !self.role_holds(guild, #[trigger] roles@[k], privilege),
            decreases roles@.len() - i,
        {
            if self.role_has(guild, roles[i], privilege) {
                return true;
            }
            i += 1;
        }
        false
    }
}

/// Law: the empty requirement list is vacuously satisfied, for every store,
/// guild and role.
pub proof fn lemma_has_privileges_vacuous(store: Store, guild: u64, role: u64)
    ensures
        store.spec_has_privileges(guild, role, Seq::<Privilege>::empty()),
{
}

/// Law: ANY-of-roles semantics. If role `r1` holds exactly {Admin} and a
/// distinct role `r2` holds no privilege, then the list [r1, r2]
/// collectively holds Admin while [r2] alone does not.
pub proof fn lemma_have_privilege_any(store: Store, guild: u64, r1: u64, r2: u64)
    requires
        r1 != r2,
        store.spec_privileges_for(guild, r1) =~= set![Privilege::Admin],
        store.spec_privileges_for(guild, r2) =~= Set::<Privilege>::empty(),
    ensures
        store.spec_have_privilege(guild, seq![r1, r2], Privilege::Admin),
        !store.spec_have_privilege(guild, seq![r2], Privilege::Admin),
{
    assert(store.spec_privileges_for(guild, r1).contains(Privilege::Admin));
    assert(store.role_holds(guild, r1, Privilege::Admin));
    assert(seq![r1, r2][0] == r1);
    assert(!store.spec_privileges_for(guild, r2).contains(Privilege::Admin));
    assert(!store.role_holds(guild, r2, Privilege::Admin));
    assert(forall|i: int| 0 <= i < seq![r2].len() ==> #[trigger] seq![r2][i] == r2);
}

/// Law: ALL-of-privileges semantics over [Admin, Manager] is satisfied
/// exactly when the role's privilege set is a superset of {Admin, Manager}.
pub proof fn lemma_has_privileges_superset(store: Store, guild: u64, role: u64)
    ensures
        store.spec_has_privileges(guild, role, seq![Privilege::Admin, Privilege::Manager])
            <==> set![Privilege::Admin, Privilege::Manager].subset_of(
            store.spec_privileges_for(guild, role),
        ),
{
    let req = seq![Privilege::Admin, Privilege::Manager];
    assert(req[0] == Privilege::Admin && req[1] == Privilege::Manager);
    if store.spec_has_privileges(guild, role, req) {
        assert(store.role_holds(guild, role, Privilege::Admin));
        assert(store.role_holds(guild, role, Privilege::Manager));
        assert forall|p: Privilege|
            set![Privilege::Admin, Privilege::Manager].contains(p) implies store
            .spec_privileges_for(guild, role)
            .contains(p) by {
            assert(p == Privilege::Admin || p == Privilege::Manager);
        }
    }
    if set![Privilege::Admin, Privilege::Manager].subset_of(
        store.spec_privileges_for(guild, role),
    ) {
        assert(set![Privilege::Admin, Privilege::Manager].contains(Privilege::Admin));
        assert(set![Privilege::Admin, Privilege::Manager].contains(Privilege::Manager));
        assert forall|i: int| 0 <= i < req.len() implies store.role_holds(
            guild,
            role,
            #[trigger] req[i],
        ) by {
            assert(i == 0 || i == 1);
        }
    }
}

} // verus!
