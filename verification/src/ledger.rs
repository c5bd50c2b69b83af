use vstd::prelude::*;
use crate::errors::Error;
use crate::store::Store;

verus! {

/// An immutable moderation-ledger entry. The store assigns `id`
/// (monotonically increasing with append order); `sentence` is an opaque
/// severity value; the caller supplies the creation timestamp. Entries are
/// never mutated or deleted by this core.
#[derive(Debug, PartialEq, Eq)]
pub struct SlapReport {
    pub id: u64,
    pub guild: u64,
    pub offender: u64,
    pub enforcer: Option<u64>,
    pub sentence: u64,
    pub reason: Option<String>,
    pub created_at: u64,
}

impl Clone for SlapReport {
    /// Cloning preserves the entry exactly.
    fn clone(&self) -> (r: Self)
        ensures
            r == *self,
    {
        SlapReport {
            id: self.id,
            guild: self.guild,
            offender: self.offender,
            enforcer: self.enforcer,
            sentence: self.sentence,
            reason: match &self.reason {
                Some(s) => Some(s.clone()),
                None => None,
            },
            created_at: self.created_at,
        }
    }
}

/// The guild-wide view of the ledger: the entries belonging to the guild,
/// in ledger (ascending id) order.
pub open spec fn guild_entries(ledger: Seq<SlapReport>, guild: u64) -> Seq<SlapReport> {
    ledger.filter(|s: SlapReport| s.guild == guild)
}

/// The member-scoped view: the guild's entries whose offender is the member,
/// in the same order.
pub open spec fn member_entries(ledger: Seq<SlapReport>, guild: u64, member: u64) -> Seq<
    SlapReport,
> {
    ledger.filter(|s: SlapReport| s.guild == guild && s.offender == member)
}

/// The first `limit` elements of a sequence, or all of them when fewer
/// exist.
pub open spec fn take_up_to<A>(s: Seq<A>, limit: int) -> Seq<A> {
    s.take(
        if limit <= s.len() {
            limit
        } else {
            s.len() as int
        },
    )
}

/// Appending an entry extends the guild view exactly when the entry belongs
/// to the guild.
proof fn lemma_guild_entries_push(ledger: Seq<SlapReport>, guild: u64, e: SlapReport)
    ensures
        guild_entries(ledger.push(e), guild) == if e.guild == guild {
            guild_entries(ledger, guild).push(e)
        } else {
            guild_entries(ledger, guild)
        },
{
    ledger.lemma_filter_push(e, |s: SlapReport| s.guild == guild);
}

/// The guild view splits at any position of the ledger.
proof fn lemma_guild_entries_split(ledger: Seq<SlapReport>, guild: u64, i: int)
    requires
        0 <= i <= ledger.len(),
    ensures
        guild_entries(ledger, guild) == guild_entries(ledger.take(i), guild) + guild_entries(
            ledger.skip(i),
            guild,
        ),
{
    assert(ledger =~= ledger.take(i) + ledger.skip(i));
    Seq::filter_distributes_over_add(
        ledger.take(i),
        ledger.skip(i),
        |s: SlapReport| s.guild == guild,
    );
}

/// Appending an entry extends the member view exactly when the entry
/// belongs to the guild and the member.
proof fn lemma_member_entries_push(ledger: Seq<SlapReport>, guild: u64, member: u64, e: SlapReport)
    ensures
        member_entries(ledger.push(e), guild, member) == if e.guild == guild && e.offender
            == member {
            member_entries(ledger, guild, member).push(e)
        } else {
            member_entries(ledger, guild, member)
        },
{
    ledger.lemma_filter_push(e, |s: SlapReport| s.guild == guild && s.offender == member);
}

/// The member view splits at any position of the ledger.
proof fn lemma_member_entries_split(ledger: Seq<SlapReport>, guild: u64, member: u64, i: int)
    requires
        0 <= i <= ledger.len(),
    ensures
        member_entries(ledger, guild, member) == member_entries(ledger.take(i), guild, member)
            + member_entries(ledger.skip(i), guild, member),
{
    assert(ledger =~= ledger.take(i) + ledger.skip(i));
    Seq::filter_distributes_over_add(
        ledger.take(i),
        ledger.skip(i),
        |s: SlapReport| s.guild == guild && s.offender == member,
    );
}

/// Filtering a ledger whose ids strictly increase keeps them strictly
/// increasing: a filter preserves the relative order of the entries it
/// keeps.
proof fn lemma_filter_keeps_increasing_ids(
    ledger: Seq<SlapReport>,
    pred: spec_fn(SlapReport) -> bool,
)
    requires
        forall|i: int, j: int| 0 <= i < j < ledger.len() ==> ledger[i].id < ledger[j].id,
    ensures
        forall|i: int, j: int|
            0 <= i < j < ledger.filter(pred).len() ==> ledger.filter(pred)[i].id < ledger.filter(
                pred,
            )[j].id,
    decreases ledger.len(),
{
    if ledger.len() > 0 {
        let prefix = ledger.drop_last();
        let last = ledger.last();
        assert(ledger =~= prefix.push(last));
        lemma_filter_keeps_increasing_ids(prefix, pred);
        prefix.lemma_filter_push(last, pred);
        if pred(last) {
            assert forall|i: int|
                0 <= i < prefix.filter(pred).len() implies prefix.filter(pred)[i].id
                < last.id by {
                let e = prefix.filter(pred)[i];
                assert(prefix.filter(pred).contains(e));
                prefix.lemma_filter_contains_rev(pred, e);
                let k = choose|k: int| 0 <= k < prefix.len() && prefix[k] == e;
                assert(ledger[k] == e && ledger[ledger.len() - 1] == last);
            }
        }
    }
}

/// Law: the member view is exactly the guild view restricted to the
/// offender, so a member's entries are independent of other members'
/// entries in the same guild.
pub proof fn lemma_member_view_refines_guild_view(
    ledger: Seq<SlapReport>,
    guild: u64,
    member: u64,
)
    ensures
        member_entries(ledger, guild, member) == guild_entries(ledger, guild).filter(
            |s: SlapReport| s.offender == member,
        ),
    decreases ledger.len(),
{
    reveal(Seq::filter);
    let by_member = |s: SlapReport| s.offender == member;
    if ledger.len() == 0 {
        assert(ledger =~= Seq::<SlapReport>::empty());
    } else {
        let prefix = ledger.drop_last();
        let last = ledger.last();
        assert(ledger =~= prefix.push(last));
        lemma_member_view_refines_guild_view(prefix, guild, member);
        lemma_member_entries_push(prefix, guild, member, last);
        lemma_guild_entries_push(prefix, guild, last);
        guild_entries(prefix, guild).lemma_filter_push(last, by_member);
    }
}

/// Law: the store assigns ledger ids strictly increasing in append order.
pub proof fn lemma_ledger_ids_monotonic(store: Store)
    requires
        store.wf(),
    ensures
        forall|i: int, j: int|
            0 <= i < j < store.ledger@.len() ==> store.ledger@[i].id < store.ledger@[j].id,
{
}

/// Law: the guild view holds entries of that guild only, in strictly
/// ascending id order (insertion order).
pub proof fn lemma_guild_view_ordered(store: Store, guild: u64)
    requires
        store.wf(),
    ensures
        forall|i: int|
            0 <= i < guild_entries(store.ledger@, guild).len() ==> (#[trigger] guild_entries(
                store.ledger@,
                guild,
            )[i]).guild == guild,
        forall|i: int, j: int|
            0 <= i < j < guild_entries(store.ledger@, guild).len() ==> guild_entries(
                store.ledger@,
                guild,
            )[i].id < guild_entries(store.ledger@, guild)[j].id,
{
    broadcast use vstd::seq_lib::group_filter_ensures;

    lemma_filter_keeps_increasing_ids(store.ledger@, |s: SlapReport| s.guild == guild);
}

/// Law: the member view holds entries of that guild and offender only, in
/// strictly ascending id order (insertion order).
pub proof fn lemma_member_view_ordered(store: Store, guild: u64, member: u64)
    requires
        store.wf(),
    ensures
        forall|i: int|
            0 <= i < member_entries(store.ledger@, guild, member).len() ==> (
            #[trigger] member_entries(store.ledger@, guild, member)[i]).guild == guild
                && member_entries(store.ledger@, guild, member)[i].offender == member,
        forall|i: int, j: int|
            0 <= i < j < member_entries(store.ledger@, guild, member).len() ==> member_entries(
                store.ledger@,
                guild,
                member,
            )[i].id < member_entries(store.ledger@, guild, member)[j].id,
{
    broadcast use vstd::seq_lib::group_filter_ensures;

    lemma_filter_keeps_increasing_ids(
        store.ledger@,
        |s: SlapReport| s.guild == guild && s.offender == member,
    );
}

/// A query parameterization over the ledger for one guild; holds no state
/// between calls.
pub struct GuildSlapRecord(pub u64);

/// A query parameterization over the ledger for one member within one
/// guild; holds no state between calls.
pub struct MemberSlapRecord(pub u64, pub u64);

impl GuildSlapRecord {
    /// Append one immutable entry to the ledger. The store assigns the id
    /// (one past the previous one); the caller supplies the creation
    /// timestamp. Appending never fails, and repeated identical calls create
    /// distinct entries: there is no deduplication.
    pub fn new_slap(
        &self,
        store: &mut Store,
        sentence: u64,
        offender: u64,
        enforcer: Option<u64>,
        reason: Option<String>,
        created_at: u64,
    ) -> (r: SlapReport)
        requires
            old(store).wf(),
        ensures
            final(store).wf(),
            final(store).configs == old(store).configs,
            final(store).ledger@ =~= old(store).ledger@.push(r),
            r == (SlapReport {
                id: old(store).ledger@.len() as u64,
                guild: self.0,
                offender,
                enforcer,
                sentence,
                reason,
                created_at,
            }),
    {
        let id = store.ledger.len() as u64;
        let entry = SlapReport { id, guild: self.0, offender, enforcer, sentence, reason, created_at };
        let report = entry.clone();
        store.ledger.push(entry);
        report
    }

    /// Total number of ledger entries for the guild (all-time, not
    /// paginated).
    pub fn len(&self, store: &Store) -> (n: usize)
        requires
            store.wf(),
        ensures
            n == guild_entries(store.ledger@, self.0).len(),
    {
        let mut n: usize = 0;
        let mut i: usize = 0;
        while i < store.ledger.len()
            invariant
                i <= store.ledger@.len(),
                n <= i,
                n == guild_entries(store.ledger@.take(i as int), self.0).len(),
            decreases store.ledger@.len() - i,
        {
            let ghost pre = store.ledger@.take(i as int);
            if store.ledger[i].guild == self.0 {
                n += 1;
            }
            proof {
                lemma_guild_entries_push(pre, self.0, store.ledger@[i as int]);
                assert(store.ledger@.take(i as int + 1) =~= pre.push(store.ledger@[i as int]));
            }
            i += 1;
        }
        proof {
            assert(store.ledger@.take(store.ledger@.len() as int) =~= store.ledger@);
        }
        n
    }

    /// Up to `limit` of the guild's entries, in ascending id order starting
    /// from the oldest; when fewer than `limit` exist, all of them (no
    /// error). Every call re-scans from the start of the ordering, so equal
    /// limits give equal answers. A limit that does not fit the platform's
    /// count type fails with `LimitOutOfRange` instead of being truncated.
    pub fn slaps(&self, store: &Store, limit: u64) -> (r: Result<Vec<SlapReport>, Error>)
        requires
            store.wf(),
        ensures
            limit as int > usize::MAX as int ==> r == Err::<Vec<SlapReport>, Error>(
                Error::LimitOutOfRange,
            ),
            limit as int <= usize::MAX as int ==> (r matches Ok(v) && v@ == take_up_to(
                guild_entries(store.ledger@, self.0),
                limit as int,
            )),
    {
        if limit > usize::MAX as u64 {
            return Err(Error::LimitOutOfRange);
        }
        let lim: usize = limit as usize;
        let mut out: Vec<SlapReport> = Vec::new();
        let mut i: usize = 0;
        while i < store.ledger.len() && out.len() < lim
            invariant
                i <= store.ledger@.len(),
                out@.len() <= lim,
                out@ == guild_entries(store.ledger@.take(i as int), self.0),
            decreases store.ledger@.len() - i,
        {
            let ghost pre = store.ledger@.take(i as int);
            if store.ledger[i].guild == self.0 {
                out.push(store.ledger[i].clone());
            }
            proof {
                lemma_guild_entries_push(pre, self.0, store.ledger@[i as int]);
                assert(store.ledger@.take(i as int + 1) =~= pre.push(store.ledger@[i as int]));
            }
            i += 1;
        }
        proof {
            let full = guild_entries(store.ledger@, self.0);
            let part = guild_entries(store.ledger@.take(i as int), self.0);
            lemma_guild_entries_split(store.ledger@, self.0, i as int);
            if i < store.ledger@.len() {
                assert(out@.len() == lim as int);
                assert(full.take(part.len() as int) =~= part);
            } else {
                assert(store.ledger@.take(i as int) =~= store.ledger@);
                assert(full.take(full.len() as int) =~= full);
            }
        }
        Ok(out)
    }

    /// The offender of each of the first `limit` guild entries, in the same
    /// ordering; a member who offended several times appears several times.
    pub fn offenders(&self, store: &Store, limit: u64) -> (r: Result<Vec<u64>, Error>)
        requires
            store.wf(),
        ensures
            limit as int > usize::MAX as int ==> r == Err::<Vec<u64>, Error>(
                Error::LimitOutOfRange,
            ),
            limit as int <= usize::MAX as int ==> (r matches Ok(v) && v@ == take_up_to(
                guild_entries(store.ledger@, self.0),
                limit as int,
            ).map_values(|s: SlapReport| s.offender)),
    {
        let reports = match self.slaps(store, limit) {
            Ok(v) => v,
            Err(e) => {
                return Err(e);
            },
        };
        let mut out: Vec<u64> = Vec::new();
        let mut i: usize = 0;
        while i < reports.len()
            invariant
                i <= reports@.len(),
                out@.len() == i,
                forall|j: int| 0 <= j < i ==> out@[j] == (#[trigger] reports@[j]).offender,
            decreases reports@.len() - i,
        {
            out.push(reports[i].offender);
            i += 1;
        }
        proof {
            assert(out@ =~= reports@.map_values(|s: SlapReport| s.offender));
        }
        Ok(out)
    }
}

impl MemberSlapRecord {
    /// Total number of the guild's ledger entries whose offender is the
    /// member, independent of other members' entries.
    pub fn len(&self, store: &Store) -> (n: usize)
        requires
            store.wf(),
        ensures
            n == member_entries(store.ledger@, self.0, self.1).len(),
    {
        let mut n: usize = 0;
        let mut i: usize = 0;
        while i < store.ledger.len()
            invariant
                i <= store.ledger@.len(),
                n <= i,
                n == member_entries(store.ledger@.take(i as int), self.0, self.1).len(),
            decreases store.ledger@.len() - i,
        {
            let ghost pre = store.ledger@.take(i as int);
            if store.ledger[i].guild == self.0 && store.ledger[i].offender == self.1 {
                n += 1;
            }
            proof {
                lemma_member_entries_push(pre, self.0, self.1, store.ledger@[i as int]);
                assert(store.ledger@.take(i as int + 1) =~= pre.push(store.ledger@[i as int]));
            }
            i += 1;
        }
        proof {
            assert(store.ledger@.take(store.ledger@.len() as int) =~= store.ledger@);
        }
        n
    }

    /// Up to `limit` of the member's entries within the guild, in ascending
    /// id order from the oldest; the same pagination contract as the
    /// guild-wide view, filtered to the member.
    pub fn slaps(&self, store: &Store, limit: u64) -> (r: Result<Vec<SlapReport>, Error>)
        requires
            store.wf(),
        ensures
            limit as int > usize::MAX as int ==> r == Err::<Vec<SlapReport>, Error>(
                Error::LimitOutOfRange,
            ),
            limit as int <= usize::MAX as int ==> (r matches Ok(v) && v@ == take_up_to(
                member_entries(store.ledger@, self.0, self.1),
                limit as int,
            )),
    {
        if limit > usize::MAX as u64 {
            return Err(Error::LimitOutOfRange);
        }
        let lim: usize = limit as usize;
        let mut out: Vec<SlapReport> = Vec::new();
        let mut i: usize = 0;
        while i < store.ledger.len() && out.len() < lim
            invariant
                i <= store.ledger@.len(),
                out@.len() <= lim,
                out@ == member_entries(store.ledger@.take(i as int), self.0, self.1),
            decreases store.ledger@.len() - i,
        {
            let ghost pre = store.ledger@.take(i as int);
            if store.ledger[i].guild == self.0 && store.ledger[i].offender == self.1 {
                out.push(store.ledger[i].clone());
            }
            proof {
                lemma_member_entries_push(pre, self.0, self.1, store.ledger@[i as int]);
                assert(store.ledger@.take(i as int + 1) =~= pre.push(store.ledger@[i as int]));
            }
            i += 1;
        }
        proof {
            let full = member_entries(store.ledger@, self.0, self.1);
            let part = member_entries(store.ledger@.take(i as int), self.0, self.1);
            lemma_member_entries_split(store.ledger@, self.0, self.1, i as int);
            if i < store.ledger@.len() {
                assert(out@.len() == lim as int);
                assert(full.take(part.len() as int) =~= part);
            } else {
                assert(store.ledger@.take(i as int) =~= store.ledger@);
                assert(full.take(full.len() as int) =~= full);
            }
        }
        Ok(out)
    }
}

} // verus!
