use vstd::prelude::*;
use vstd::string::StrSliceExecFns;
use crate::errors::Error;
use crate::ledger::SlapReport;
use crate::privilege::Privilege;

verus! {

/// Maximum length, in characters, of a welcome or goodbye message.
pub const MAX_MESSAGE_LEN: usize = 2000;

/// Whether a message text is acceptable to store.
pub open spec fn valid_message(s: Seq<char>) -> bool {
    s.len() <= MAX_MESSAGE_LEN
}

/// Whether an optional message is absent or acceptable text. An empty
/// string is a valid message, distinct from absence.
pub open spec fn valid_message_opt(m: Option<String>) -> bool {
    m matches Some(s) ==> valid_message(s@)
}

/// Check a message against the length constraint.
pub fn check_message(s: &str) -> (r: bool)
    ensures
        r == valid_message(s@),
{
    s.unicode_len() <= MAX_MESSAGE_LEN
}

/// Per-guild configuration together with the guild's role-to-privilege
/// relation. At most one exists per guild id.
pub struct GuildConfig {
    pub id: u64,
    pub admin_channel: Option<u64>,
    pub advertise: bool,
    pub welcome_message: Option<String>,
    pub goodbye_message: Option<String>,
    /// The role-privilege relation of this guild: each (role, privilege)
    /// pair is present at most once.
    pub role_privileges: Vec<(u64, Privilege)>,
}

impl GuildConfig {
    /// The relation assigns privilege `p` to `role`.
    pub open spec fn holds(self, role: u64, p: Privilege) -> bool {
        exists|j: int|
            0 <= j < self.role_privileges@.len() && self.role_privileges@[j] == (role, p)
    }

    /// Internal invariant: no (role, privilege) pair repeats.
    pub open spec fn wf(self) -> bool {
        forall|i: int, j: int|
            0 <= i < j < self.role_privileges@.len()
                ==> self.role_privileges@[i] != self.role_privileges@[j]
    }

    /// The configuration fields of `self` and `other` agree; says nothing
    /// about the role-privilege relation.
    pub open spec fn same_settings(self, other: GuildConfig) -> bool {
        &&& self.id == other.id
        &&& self.admin_channel == other.admin_channel
        &&& self.advertise == other.advertise
        &&& self.welcome_message == other.welcome_message
        &&& self.goodbye_message == other.goodbye_message
    }
}

/// The state any persistence backend must maintain for this core: the guild
/// configurations and the append-only moderation ledger. Every operation of
/// the core is specified and verified against this model.
pub struct Store {
    /// Guild configurations; at most one per guild id.
    pub configs: Vec<GuildConfig>,
    /// The moderation ledger, all guilds interleaved, ordered by assigned id.
    /// Entries are appended, never mutated or deleted.
    pub ledger: Vec<SlapReport>,
}

impl Store {
    /// A configuration exists for the guild.
    pub open spec fn has_config(self, guild: u64) -> bool {
        exists|i: int| 0 <= i < self.configs@.len() && self.configs@[i].id == guild
    }

    /// The position of the guild's configuration; meaningful only when one
    /// exists (under `wf` it is then unique).
    pub open spec fn config_index(self, guild: u64) -> int {
        choose|i: int| 0 <= i < self.configs@.len() && self.configs@[i].id == guild
    }

    /// The guild's configuration; meaningful only when one exists.
    pub open spec fn config_of(self, guild: u64) -> GuildConfig
        recommends
            self.has_config(guild),
    {
        self.configs@[self.config_index(guild)]
    }

    /// Store invariant: guild ids are unique, each configuration's relation
    /// holds no repeated pair, and ledger ids are exactly the append order.
    pub open spec fn wf(self) -> bool {
        &&& forall|i: int, j: int|
            0 <= i < j < self.configs@.len()
                ==> self.configs@[i].id != self.configs@[j].id
        &&& forall|i: int| 0 <= i < self.configs@.len() ==> (#[trigger] self.configs@[i]).wf()
        &&& forall|i: int| 0 <= i < self.ledger@.len() ==> (#[trigger] self.ledger@[i]).id == i
    }

    /// Create an empty store: no guild has a configuration and the ledger
    /// holds no entry.
    pub fn new() -> (s: Store)
        ensures
            s.wf(),
            s.configs@ =~= Seq::<GuildConfig>::empty(),
            s.ledger@ =~= Seq::<SlapReport>::empty(),
    {
        Store { configs: Vec::new(), ledger: Vec::new() }
    }

    /// Locate the guild's configuration, if any.
    pub(crate) fn find_config(&self, guild: u64) -> (r: Option<usize>)
        requires
            self.wf(),
        ensures
            match r {
                Some(i) => self.has_config(guild) && self.config_index(guild) == i
                    && i < self.configs@.len() && self.configs@[i as int].id == guild,
                None => !self.has_config(guild),
            },
    {
        let mut i: usize = 0;
        while i < self.configs.len()
            invariant
                self.wf(),
                i <= self.configs@.len(),
                forall|k: int| 0 <= k < i ==> self.configs@[k].id != guild,
            decreases self.configs@.len() - i,
        {
            if self.configs[i].id == guild {
                proof {
                    assert(self.has_config(guild));
                    let j = self.config_index(guild);
                    assert(0 <= j < self.configs@.len() && self.configs@[j].id == guild);
                    assert(j == i);
                }
                return Some(i);
            }
            i += 1;
        }
        None
    }

    /// Whether a configuration exists for the guild; querying never fails,
    /// so the engine is total over all guild ids.
    pub fn guild_exists(&self, guild: u64) -> (r: bool)
        requires
            self.wf(),
        ensures
            r == self.has_config(guild),
    {
        self.find_config(guild).is_some()
    }

    /// Read the guild's admin channel. `Ok(None)` means the field is unset,
    /// which is distinct from the guild having no configuration (`NotFound`).
    pub fn get_admin_chan(&self, guild: u64) -> (r: Result<Option<u64>, Error>)
        requires
            self.wf(),
        ensures
            self.has_config(guild) ==> r == Ok::<Option<u64>, Error>(
                self.config_of(guild).admin_channel,
            ),
            !self.has_config(guild) ==> r == Err::<Option<u64>, Error>(Error::NotFound(guild)),
    {
        match self.find_config(guild) {
            Some(i) => Ok(self.configs[i].admin_channel),
            None => Err(Error::NotFound(guild)),
        }
    }

    /// Read the guild's advertising flag.
    pub fn get_advertise(&self, guild: u64) -> (r: Result<bool, Error>)
        requires
            self.wf(),
        ensures
            self.has_config(guild) ==> r == Ok::<bool, Error>(self.config_of(guild).advertise),
            !self.has_config(guild) ==> r == Err::<bool, Error>(Error::NotFound(guild)),
    {
        match self.find_config(guild) {
            Some(i) => Ok(self.configs[i].advertise),
            None => Err(Error::NotFound(guild)),
        }
    }

    /// Read the guild's welcome message; `Ok(None)` means the field is unset.
    pub fn get_welcome_message(&self, guild: u64) -> (r: Result<Option<String>, Error>)
        requires
            self.wf(),
        ensures
            self.has_config(guild) ==> r == Ok::<Option<String>, Error>(
                self.config_of(guild).welcome_message,
            ),
            !self.has_config(guild) ==> r == Err::<Option<String>, Error>(Error::NotFound(guild)),
    {
        match self.find_config(guild) {
            Some(i) => Ok(clone_message(&self.configs[i].welcome_message)),
            None => Err(Error::NotFound(guild)),
        }
    }

    /// Read the guild's goodbye message; `Ok(None)` means the field is unset.
    pub fn get_goodbye_message(&self, guild: u64) -> (r: Result<Option<String>, Error>)
        requires
            self.wf(),
        ensures
            self.has_config(guild) ==> r == Ok::<Option<String>, Error>(
                self.config_of(guild).goodbye_message,
            ),
            !self.has_config(guild) ==> r == Err::<Option<String>, Error>(Error::NotFound(guild)),
    {
        match self.find_config(guild) {
            Some(i) => Ok(clone_message(&self.configs[i].goodbye_message)),
            None => Err(Error::NotFound(guild)),
        }
    }
    /// Create the configuration for a guild, validating each provided
    /// message independently. Fails with `AlreadyExists` if the guild
    /// already has one and with `MessageTooLong` if a provided message
    /// exceeds the maximum length; on failure the store is unchanged. On
    /// success exactly one configuration is appended, holding the given
    /// fields, no admin channel and an empty role-privilege relation.
    pub fn guild_new(
        &mut self,
        id: u64,
        advertise: bool,
        welcome_message: Option<String>,
        goodbye_message: Option<String>,
    ) -> (r: Result<(), Error>)
        requires
            old(self).wf(),
        ensures
            final(self).wf(),
            old(self).has_config(id) ==> r == Err::<(), Error>(Error::AlreadyExists(id))
                && *final(self) == *old(self),
            !old(self).has_config(id) && !(valid_message_opt(welcome_message)
                && valid_message_opt(goodbye_message)) ==> r == Err::<(), Error>(
                Error::MessageTooLong,
            ) && *final(self) == *old(self),
            !old(self).has_config(id) && valid_message_opt(welcome_message) && valid_message_opt(
                goodbye_message,
            ) ==> {
                &&& r is Ok
                &&& final(self).ledger == old(self).ledger
                &&& final(self).configs@.len() == old(self).configs@.len() + 1
                &&& final(self).configs@.subrange(0, old(self).configs@.len() as int) =~= old(
                    self,
                ).configs@
                &&& final(self).configs@.last().id == id
                &&& final(self).configs@.last().admin_channel is None
                &&& final(self).configs@.last().advertise == advertise
                &&& final(self).configs@.last().welcome_message == welcome_message
                &&& final(self).configs@.last().goodbye_message == goodbye_message
                &&& final(self).configs@.last().role_privileges@ =~= Seq::<(u64, Privilege)>::empty()
                &&& final(self).has_config(id)
                &&& final(self).config_of(id) == final(self).configs@.last()
            },
    {
        if self.find_config(id).is_some() {
            return Err(Error::AlreadyExists(id));
        }
        match &welcome_message {
            Some(m) => {
                if !check_message(m.as_str()) {
                    return Err(Error::MessageTooLong);
                }
            },
            None => {},
        }
        match &goodbye_message {
            Some(m) => {
                if !check_message(m.as_str()) {
                    return Err(Error::MessageTooLong);
                }
            },
            None => {},
        }
        let cfg = GuildConfig {
            id,
            admin_channel: None,
            advertise,
            welcome_message,
            goodbye_message,
            role_privileges: Vec::new(),
        };
        self.configs.push(cfg);
        proof {
            let n = old(self).configs@.len() as int;
            assert(self.configs@.subrange(0, n) =~= old(self).configs@);
            assert(self.configs@[n].id == id);
            assert(self.has_config(id));
            let j = self.config_index(id);
            assert(0 <= j < self.configs@.len() && self.configs@[j].id == id);
            assert(j == n);
        }
        Ok(())
    }

    /// Overwrite exactly the admin-channel field of the guild's
    /// configuration; `None` clears it. Fails with `NotFound` if the guild
    /// has no configuration, leaving the store unchanged.
    pub fn set_admin_chan(&mut self, guild: u64, chan: Option<u64>) -> (r: Result<(), Error>)
        requires
            old(self).wf(),
        ensures
            final(self).wf(),
            !old(self).has_config(guild) ==> r == Err::<(), Error>(Error::NotFound(guild))
                && *final(self) == *old(self),
            old(self).has_config(guild) ==> {
                &&& r is Ok
                &&& final(self).ledger == old(self).ledger
                &&& final(self).configs@ =~= old(self).configs@.update(
                    old(self).config_index(guild),
                    (GuildConfig { admin_channel: chan, ..old(self).config_of(guild) }),
                )
                &&& final(self).has_config(guild)
                &&& final(self).config_of(guild) == (GuildConfig {
                    admin_channel: chan,
                    ..old(self).config_of(guild)
                })
            },
    {
        match self.find_config(guild) {
            Some(i) => {
                let mut cfg = self.configs.remove(i);
                cfg.admin_channel = chan;
                self.configs.insert(i, cfg);
                proof {
                    self.lemma_update_keeps_lookup(*old(self), guild, i as int);
                }
                Ok(())
            },
            None => Err(Error::NotFound(guild)),
        }
    }

    /// Overwrite exactly the advertising flag of the guild's configuration.
    /// Fails with `NotFound` if the guild has no configuration, leaving the
    /// store unchanged.
    pub fn set_advertise(&mut self, guild: u64, advertise: bool) -> (r: Result<(), Error>)
        requires
            old(self).wf(),
        ensures
            final(self).wf(),
            !old(self).has_config(guild) ==> r == Err::<(), Error>(Error::NotFound(guild))
                && *final(self) == *old(self),
            old(self).has_config(guild) ==> {
                &&& r is Ok
                &&& final(self).ledger == old(self).ledger
                &&& final(self).configs@ =~= old(self).configs@.update(
                    old(self).config_index(guild),
                    (GuildConfig { advertise, ..old(self).config_of(guild) }),
                )
                &&& final(self).has_config(guild)
                &&& final(self).config_of(guild) == (GuildConfig {
                    advertise,
                    ..old(self).config_of(guild)
                })
            },
    {
        match self.find_config(guild) {
            Some(i) => {
                let mut cfg = self.configs.remove(i);
                cfg.advertise = advertise;
                self.configs.insert(i, cfg);
                proof {
                    self.lemma_update_keeps_lookup(*old(self), guild, i as int);
                }
                Ok(())
            },
            None => Err(Error::NotFound(guild)),
        }
    }

    /// Overwrite exactly the welcome message of the guild's configuration;
    /// `None` clears it. Fails with `NotFound` if the guild has no
    /// configuration, leaving the store unchanged.
    pub fn set_welcome_message(&mut self, guild: u64, message: Option<String>) -> (r: Result<
        (),
        Error,
    >)
        requires
            old(self).wf(),
        ensures
            final(self).wf(),
            !old(self).has_config(guild) ==> r == Err::<(), Error>(Error::NotFound(guild))
                && *final(self) == *old(self),
            old(self).has_config(guild) ==> {
                &&& r is Ok
                &&& final(self).ledger == old(self).ledger
                &&& final(self).configs@ =~= old(self).configs@.update(
                    old(self).config_index(guild),
                    (GuildConfig { welcome_message: message, ..old(self).config_of(guild) }),
                )
                &&& final(self).has_config(guild)
                &&& final(self).config_of(guild) == (GuildConfig {
                    welcome_message: message,
                    ..old(self).config_of(guild)
                })
            },
    {
        match self.find_config(guild) {
            Some(i) => {
                let mut cfg = self.configs.remove(i);
                cfg.welcome_message = message;
                self.configs.insert(i, cfg);
                proof {
                    self.lemma_update_keeps_lookup(*old(self), guild, i as int);
                }
                Ok(())
            },
            None => Err(Error::NotFound(guild)),
        }
    }

    /// Overwrite exactly the goodbye message of the guild's configuration;
    /// `None` clears it. Fails with `NotFound` if the guild has no
    /// configuration, leaving the store unchanged.
    pub fn set_goodbye_message(&mut self, guild: u64, message: Option<String>) -> (r: Result<
        (),
        Error,
    >)
        requires
            old(self).wf(),
        ensures
            final(self).wf(),
            !old(self).has_config(guild) ==> r == Err::<(), Error>(Error::NotFound(guild))
                && *final(self) == *old(self),
            old(self).has_config(guild) ==> {
                &&& r is Ok
                &&& final(self).ledger == old(self).ledger
                &&& final(self).configs@ =~= old(self).configs@.update(
                    old(self).config_index(guild),
                    (GuildConfig { goodbye_message: message, ..old(self).config_of(guild) }),
                )
                &&& final(self).has_config(guild)
                &&& final(self).config_of(guild) == (GuildConfig {
                    goodbye_message: message,
                    ..old(self).config_of(guild)
                })
            },
    {
        match self.find_config(guild) {
            Some(i) => {
                let mut cfg = self.configs.remove(i);
                cfg.goodbye_message = message;
                self.configs.insert(i, cfg);
                proof {
                    self.lemma_update_keeps_lookup(*old(self), guild, i as int);
                }
                Ok(())
            },
            None => Err(Error::NotFound(guild)),
        }
    }

    /// After replacing the configuration at the guild's position with one
    /// that keeps the same id, the store still looks the guild up at that
    /// position, other entries are untouched, and uniqueness is preserved.
    proof fn lemma_update_keeps_lookup(self, pre: Store, guild: u64, i: int)
        requires
            pre.wf(),
            0 <= i < pre.configs@.len(),
            pre.configs@[i].id == guild,
            pre.config_index(guild) == i,
            self.configs@.len() == pre.configs@.len(),
            forall|k: int| 0 <= k < pre.configs@.len() && k != i ==> self.configs@[k]
                == pre.configs@[k],
            self.configs@[i].id == guild,
            self.configs@[i].wf(),
        ensures
            forall|j1: int, j2: int|
                0 <= j1 < j2 < self.configs@.len() ==> self.configs@[j1].id
                    != self.configs@[j2].id,
            forall|k: int| 0 <= k < self.configs@.len() ==> (#[trigger] self.configs@[k]).wf(),
            self.has_config(guild),
            self.config_index(guild) == i,
            self.configs@ =~= pre.configs@.update(i, self.configs@[i]),
    {
        assert(forall|k: int|
            0 <= k < self.configs@.len() ==> (#[trigger] self.configs@[k]).id
                == pre.configs@[k].id);
        assert(self.has_config(guild));
        let j = self.config_index(guild);
        assert(0 <= j < self.configs@.len() && self.configs@[j].id == guild);
        assert(pre.configs@[j].id == guild);
        assert(j == i);
    }

    /// Add a privilege to a role within the guild: the relation gains the
    /// (role, privilege) pair; a pair already present is kept once, so the
    /// call changes nothing then. Fails with `NotFound` if the guild has no
    /// configuration, leaving the store unchanged. All other configuration
    /// fields, all other guilds and the ledger are untouched.
    pub fn grant_privilege(&mut self, guild: u64, role: u64, privilege: Privilege) -> (r: Result<
        (),
        Error,
    >)
        requires
            old(self).wf(),
        ensures
            final(self).wf(),
            !old(self).has_config(guild) ==> r == Err::<(), Error>(Error::NotFound(guild))
                && *final(self) == *old(self),
            old(self).has_config(guild) ==> {
                &&& r is Ok
                &&& final(self).ledger == old(self).ledger
                &&& final(self).configs@.len() == old(self).configs@.len()
                &&& forall|k: int|
                    0 <= k < old(self).configs@.len() && k != old(self).config_index(guild)
                        ==> final(self).configs@[k] == old(self).configs@[k]
                &&& final(self).has_config(guild)
                &&& final(self).config_index(guild) == old(self).config_index(guild)
                &&& final(self).config_of(guild).same_settings(old(self).config_of(guild))
                &&& forall|r2: u64, p2: Privilege|
                    final(self).config_of(guild).holds(r2, p2) <==> old(self).config_of(
                        guild,
                    ).holds(r2, p2) || (r2 == role && p2 == privilege)
            },
    {
        match self.find_config(guild) {
            Some(i) => {
                let mut cfg = self.configs.remove(i);
                let ghost pre_cfg = cfg;
                let mut present = false;
                let mut k: usize = 0;
                while k < cfg.role_privileges.len()
                    invariant
                        k <= cfg.role_privileges@.len(),
                        present <==> exists|j: int|
                            0 <= j < k && cfg.role_privileges@[j] == (role, privilege),
                    decreases cfg.role_privileges@.len() - k,
                {
                    let pair = cfg.role_privileges[k];
                    if pair.0 == role && pair.1 == privilege {
                        present = true;
                    }
                    k += 1;
                }
                if !present {
                    cfg.role_privileges.push((role, privilege));
                }
                proof {
                    assert(cfg.same_settings(pre_cfg));
                    assert(cfg.wf());
                    assert(forall|r2: u64, p2: Privilege|
                        cfg.holds(r2, p2) <==> pre_cfg.holds(r2, p2) || (r2 == role && p2
                            == privilege)) by {
                        if !present {
                            assert(forall|r2: u64, p2: Privilege|
                                pre_cfg.holds(r2, p2) ==> #[trigger] cfg.holds(r2, p2)) by {
                                assert(forall|j: int|
                                    0 <= j < pre_cfg.role_privileges@.len()
                                        ==> cfg.role_privileges@[j]
                                        == pre_cfg.role_privileges@[j]);
                            }
                            assert(cfg.role_privileges@.last() == (role, privilege));
                            assert(cfg.holds(role, privilege));
                        }
                    }
                }
                self.configs.insert(i, cfg);
                proof {
                    self.lemma_update_keeps_lookup(*old(self), guild, i as int);
                }
                Ok(())
            },
            None => Err(Error::NotFound(guild)),
        }
    }
}

/// Clone an optional message, preserving the value exactly.
fn clone_message(m: &Option<String>) -> (r: Option<String>)
    ensures
        r == *m,
{
    match m {
        Some(s) => Some(s.clone()),
        None => None,
    }
}

} // verus!
