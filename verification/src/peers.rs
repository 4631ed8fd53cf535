//! Peer bans with escalating duration: one hour for a first offence, a day
//! for a second, a week for a third, and for good from the fourth on (or at
//! once for a severe violation such as a fake proof of work).
use vstd::prelude::*;
use vstd::string::StringExecFns;

verus! {

/// A ban of one peer.
#[derive(Debug, Clone)]
pub struct BanRecord {
    /// Why the peer was banned.
    pub reason: String,
    /// Unix time of the latest ban.
    pub banned_at: u64,
    /// How many times the peer has been banned.
    pub ban_count: u32,
    /// Whether the ban never expires.
    pub permanent: bool,
}

/// The length of a temporary ban by how many bans the peer has had.
pub open spec fn ban_duration_spec(ban_count: u32) -> u64 {
    if ban_count == 1 {
        3_600
    } else if ban_count == 2 {
        86_400
    } else if ban_count == 3 {
        604_800
    } else {
        u64::MAX
    }
}

/// The length of a temporary ban by how many bans the peer has had.
pub fn ban_duration_secs(ban_count: u32) -> (d: u64)
    ensures
        d == ban_duration_spec(ban_count),
{
    match ban_count {
        1 => 3_600,
        2 => 86_400,
        3 => 604_800,
        _ => u64::MAX,
    }
}

/// Whether a ban is in force at `now`.
pub open spec fn ban_in_force(r: BanRecord, now: u64) -> bool {
    r.permanent || (now as int) < (if r.banned_at + ban_duration_spec(r.ban_count) > u64::MAX {
        u64::MAX as int
    } else {
        r.banned_at + ban_duration_spec(r.ban_count)
    })
}

/// The record of a peer: the first entry with its id.
pub open spec fn record_of(s: Seq<(String, BanRecord)>, peer: Seq<char>) -> Option<BanRecord>
    decreases s.len(),
{
    if s.len() == 0 {
        None
    } else if s[0].0@ == peer {
        Some(s[0].1)
    } else {
        record_of(s.drop_first(), peer)
    }
}

/// The banned peers and their records.
pub struct BanList {
    entries: Vec<(String, BanRecord)>,
}

proof fn lemma_record_first(s: Seq<(String, BanRecord)>, peer: Seq<char>, i: int)
    requires
        0 <= i < s.len(),
        s[i].0@ == peer,
        forall|j: int| 0 <= j < i ==> s[j].0@ != peer,
    ensures
        record_of(s, peer) == Some(s[i].1),
    decreases i,
{
    if i > 0 {
        lemma_record_first(s.drop_first(), peer, i - 1);
    }
}

proof fn lemma_record_absent(s: Seq<(String, BanRecord)>, peer: Seq<char>)
    requires
        forall|j: int| 0 <= j < s.len() ==> s[j].0@ != peer,
    ensures
        record_of(s, peer) is None,
    decreases s.len(),
{
    if s.len() > 0 {
        lemma_record_absent(s.drop_first(), peer);
    }
}

proof fn lemma_record_update(s: Seq<(String, BanRecord)>, peer: Seq<char>, i: int, e: (String, BanRecord), k: Seq<char>)
    requires
        0 <= i < s.len(),
        s[i].0@ == peer,
        forall|j: int| 0 <= j < i ==> s[j].0@ != peer,
        e.0@ == peer,
    ensures
        record_of(s.update(i, e), k) == (if k == peer {
            Some(e.1)
        } else {
            record_of(s, k)
        }),
    decreases i,
{
    let t = s.update(i, e);
    if i == 0 {
        if k != peer {
            assert(t.drop_first() =~= s.drop_first());
        }
    } else {
        assert(t.drop_first() =~= s.drop_first().update(i - 1, e));
        lemma_record_update(s.drop_first(), peer, i - 1, e, k);
    }
}

proof fn lemma_record_push(s: Seq<(String, BanRecord)>, peer: Seq<char>, e: (String, BanRecord), k: Seq<char>)
    requires
        forall|j: int| 0 <= j < s.len() ==> s[j].0@ != peer,
        e.0@ == peer,
    ensures
        record_of(s.push(e), k) == (if k == peer {
            Some(e.1)
        } else {
            record_of(s, k)
        }),
    decreases s.len(),
{
    let t = s.push(e);
    if s.len() == 0 {
        if k != peer {
            assert(t.drop_first() =~= Seq::<(String, BanRecord)>::empty());
            assert(record_of(t, k) == record_of(t.drop_first(), k));
        }
    } else {
        assert(t.drop_first() =~= s.drop_first().push(e));
        if s[0].0@ != k {
            assert(record_of(t, k) == record_of(t.drop_first(), k));
        }
        lemma_record_push(s.drop_first(), peer, e, k);
    }
}

impl BanList {
    /// The record of a peer, if it was ever banned.
    pub closed spec fn record(&self, peer: Seq<char>) -> Option<BanRecord> {
        record_of(self.entries@, peer)
    }

    /// An empty list.
    pub fn new() -> (l: Self)
        ensures
            forall|p: Seq<char>| (#[trigger] l.record(p)) is None,
    {
        BanList { entries: Vec::new() }
    }

    /// The index of the first entry of `peer`, if any.
    fn find(&self, peer: &str) -> (r: Option<usize>)
        ensures
            r matches Some(i) ==> 0 <= i < self.entries@.len() && self.entries@[i as int].0@ == peer@
                && forall|j: int| 0 <= j < i ==> self.entries@[j].0@ != peer@,
            r is None ==> forall|j: int| 0 <= j < self.entries@.len() ==> self.entries@[j].0@ != peer@,
    {
        let key = String::from_str(peer);
        let mut i: usize = 0;
        while i < self.entries.len()
            invariant
                i <= self.entries@.len(),
                key@ == peer@,
                forall|j: int| 0 <= j < i ==> self.entries@[j].0@ != peer@,
            decreases self.entries.len() - i,
        {
            if self.entries[i].0 == key {
                return Some(i);
            }
            i = i + 1;
        }
        None
    }

    /// Whether `peer` is banned at `now`: permanently, or by a temporary ban
    /// that has not yet run out.
    pub fn is_banned_at(&self, peer: &str, now: u64) -> (b: bool)
        ensures
            b == (self.record(peer@) matches Some(r) && ban_in_force(r, now)),
    {
        match self.find(peer) {
            None => {
                proof {
                    lemma_record_absent(self.entries@, peer@);
                }
                false
            },
            Some(i) => {
                proof {
                    lemma_record_first(self.entries@, peer@, i as int);
                }
                let r = &self.entries[i].1;
                if r.permanent {
                    return true;
                }
                let d = ban_duration_secs(r.ban_count);
                now < r.banned_at.saturating_add(d)
            },
        }
    }

    /// Bans `peer` at `now`: its ban count goes up by one (saturating), and
    /// the ban is permanent when asked for or from the fourth ban on. Other
    /// peers' records are untouched.
    pub fn ban_at(&mut self, peer: &str, reason: &str, permanent: bool, now: u64)
        ensures
            final(self).record(peer@) matches Some(r) && {
                let count = match old(self).record(peer@) {
                    Some(o) => if o.ban_count == u32::MAX { u32::MAX } else { (o.ban_count + 1) as u32 },
                    None => 1u32,
                };
                &&& r.ban_count == count
                &&& r.banned_at == now
                &&& r.reason@ == reason@
                &&& r.permanent == (permanent || count >= 4)
            },
            forall|p: Seq<char>| p != peer@ ==> #[trigger] final(self).record(p) == old(self).record(p),
    {
        let found = self.find(peer);
        let ghost s0 = self.entries@;
        let previous: u32 = match found {
            Some(i) => self.entries[i].1.ban_count,
            None => 0,
        };
        proof {
            match found {
                Some(i) => lemma_record_first(s0, peer@, i as int),
                None => lemma_record_absent(s0, peer@),
            }
        }
        let count = previous.saturating_add(1);
        let record = BanRecord {
            reason: String::from_str(reason),
            banned_at: now,
            ban_count: count,
            permanent: permanent || count >= 4,
        };
        let e = (String::from_str(peer), record);
        match found {
            Some(i) => {
                self.entries.set(i, e);
                proof {
                    assert forall|p: Seq<char>| #[trigger] record_of(self.entries@, p) == (if p == peer@ {
                        Some(e.1)
                    } else {
                        record_of(s0, p)
                    }) by {
                        lemma_record_update(s0, peer@, i as int, e, p);
                    }
                }
            },
            None => {
                self.entries.push(e);
                proof {
                    assert forall|p: Seq<char>| #[trigger] record_of(self.entries@, p) == (if p == peer@ {
                        Some(e.1)
                    } else {
                        record_of(s0, p)
                    }) by {
                        lemma_record_push(s0, peer@, e, p);
                    }
                }
            },
        }
    }
}

/// A permanent ban stays in force: once a peer is banned permanently, every
/// later check finds it banned, whenever it is made.
pub proof fn lemma_permanent_ban_never_expires(r: BanRecord, now: u64)
    requires
        r.permanent,
    ensures
        ban_in_force(r, now),
{
}

} // verus!
