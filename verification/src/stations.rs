//! The station registry: three typed station tables (pickup, dropoff,
//! charger), each with an exclusive-booking flag per station, and the
//! first-found-wins reservation scan.

use crate::geometry::Vec2;
use vstd::pervasive::VecAdditionalExecFns;
use vstd::prelude::*;

verus! {

/// The three station pools.
#[derive(Clone, Copy, PartialEq, Eq, Structural, Debug)]
pub enum StationKind {
    Pickup,
    Dropoff,
    Charger,
}

/// A stable identity into one of the three station tables.
#[derive(Clone, Copy, PartialEq, Eq, Structural, Debug)]
pub struct StationId {
    pub kind: StationKind,
    pub index: usize,
}

/// One station: a fixed position and an exclusive booking flag.
#[derive(Clone, Copy, PartialEq, Eq, Structural, Debug)]
pub struct Station {
    pub pos: Vec2,
    pub booked: bool,
}

/// Index of the first unbooked station in registration order, if any.
pub open spec fn first_free(s: Seq<Station>) -> Option<int>
    decreases s.len(),
{
    if s.len() == 0 {
        None
    } else if !s[0].booked {
        Some(0)
    } else {
        match first_free(s.skip(1)) {
            Some(i) => Some(i + 1),
            None => None,
        }
    }
}

pub proof fn lemma_first_free_at(s: Seq<Station>, i: int)
    requires
        0 <= i < s.len(),
        !s[i].booked,
        forall|j: int| 0 <= j < i ==> s[j].booked,
    ensures
        first_free(s) == Some(i),
    decreases i,
{
    if i == 0 {
    } else {
        assert(forall|j: int| 0 <= j < i - 1 ==> s.skip(1)[j] == s[j + 1]);
        lemma_first_free_at(s.skip(1), i - 1);
    }
}

pub proof fn lemma_first_free_none(s: Seq<Station>)
    requires
        forall|j: int| 0 <= j < s.len() ==> s[j].booked,
    ensures
        first_free(s) is None,
    decreases s.len(),
{
    if s.len() > 0 {
        assert(forall|j: int| 0 <= j < s.len() - 1 ==> s.skip(1)[j] == s[j + 1]);
        lemma_first_free_none(s.skip(1));
    }
}

pub proof fn lemma_first_free_some(s: Seq<Station>)
    ensures
        first_free(s) matches Some(i) ==> 0 <= i < s.len() && !s[i].booked,
    decreases s.len(),
{
    if s.len() > 0 && s[0].booked {
        lemma_first_free_some(s.skip(1));
    }
}

/// The pool a station id is drawn from, replacing the flag of one entry.
pub open spec fn release_pool(s: Seq<Station>, sid: StationId, kind: StationKind) -> Seq<
    Station,
> {
    if sid.kind == kind && sid.index < s.len() {
        s.update(sid.index as int, Station { pos: s[sid.index as int].pos, booked: false })
    } else {
        s
    }
}

/// The three station tables, keyed by `StationId`.
pub struct StationRegistry {
    pub pickups: Vec<Station>,
    pub dropoffs: Vec<Station>,
    pub chargers: Vec<Station>,
}

impl StationRegistry {
    /// The table a kind tag names.
    pub open spec fn pool(self, kind: StationKind) -> Seq<Station> {
        match kind {
            StationKind::Pickup => self.pickups@,
            StationKind::Dropoff => self.dropoffs@,
            StationKind::Charger => self.chargers@,
        }
    }

    /// Whether a station id names an entry of its table.
    pub open spec fn sid_valid(self, sid: StationId) -> bool {
        sid.index < self.pool(sid.kind).len()
    }

    /// The station an id names.
    pub open spec fn station_at(self, sid: StationId) -> Station {
        self.pool(sid.kind)[sid.index as int]
    }

    /// Scans the requested pool in registration order, books the first
    /// unbooked station within the same scan, and returns its id; `None`
    /// when every station of that kind is booked.
    pub fn reserve(&mut self, kind: StationKind) -> (r: Option<StationId>)
        ensures
            final(self).pool(kind) == (match first_free(old(self).pool(kind)) {
                Some(i) => old(self).pool(kind).update(
                    i,
                    Station { pos: old(self).pool(kind)[i].pos, booked: true },
                ),
                None => old(self).pool(kind),
            }),
            r == (match first_free(old(self).pool(kind)) {
                Some(i) => Some(StationId { kind, index: i as usize }),
                None => None::<StationId>,
            }),
            kind != StationKind::Pickup ==> final(self).pickups@ == old(self).pickups@,
            kind != StationKind::Dropoff ==> final(self).dropoffs@ == old(self).dropoffs@,
            kind != StationKind::Charger ==> final(self).chargers@ == old(self).chargers@,
    {
        let r = match kind {
            StationKind::Pickup => scan_reserve(&mut self.pickups),
            StationKind::Dropoff => scan_reserve(&mut self.dropoffs),
            StationKind::Charger => scan_reserve(&mut self.chargers),
        };
        match r {
            Some(i) => Some(StationId { kind, index: i }),
            None => None,
        }
    }

    /// Frees the station a reservation names; an id that no longer names a
    /// valid station is a silent no-op, since a robot may hold a stale
    /// reference.
    pub fn release(&mut self, sid: StationId)
        ensures
            final(self).pickups@ == release_pool(old(self).pickups@, sid, StationKind::Pickup),
            final(self).dropoffs@ == release_pool(old(self).dropoffs@, sid, StationKind::Dropoff),
            final(self).chargers@ == release_pool(old(self).chargers@, sid, StationKind::Charger),
    {
        match sid.kind {
            StationKind::Pickup => scan_release(&mut self.pickups, sid.index),
            StationKind::Dropoff => scan_release(&mut self.dropoffs, sid.index),
            StationKind::Charger => scan_release(&mut self.chargers, sid.index),
        }
    }
}

/// One pass of the first-found-wins booking scan over a single pool.
fn scan_reserve(v: &mut Vec<Station>) -> (r: Option<usize>)
    ensures
        final(v)@ == (match first_free(old(v)@) {
            Some(i) => old(v)@.update(i, Station { pos: old(v)@[i].pos, booked: true }),
            None => old(v)@,
        }),
        r == (match first_free(old(v)@) {
            Some(i) => Some(i as usize),
            None => None::<usize>,
        }),
{
    let n = v.len();
    let mut i: usize = 0;
    while i < n
        invariant
            i <= n,
            n == v@.len(),
            v@ == old(v)@,
            forall|j: int| 0 <= j < i ==> v@[j].booked,
        decreases n - i,
    {
        if !v[i].booked {
            proof {
                lemma_first_free_at(v@, i as int);
            }
            let pos = v[i].pos;
            v.set(i, Station { pos, booked: true });
            return Some(i);
        }
        i += 1;
    }
    proof {
        lemma_first_free_none(v@);
    }
    None
}

/// Clears the booking flag of one entry; out-of-range indices do nothing.
fn scan_release(v: &mut Vec<Station>, index: usize)
    ensures
        final(v)@ == (if index < old(v)@.len() {
            old(v)@.update(index as int, Station { pos: old(v)@[index as int].pos, booked: false })
        } else {
            old(v)@
        }),
{
    if index < v.len() {
        let pos = v[index].pos;
        v.set(index, Station { pos, booked: false });
    }
}

} // verus!
