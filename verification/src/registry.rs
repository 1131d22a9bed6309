use vstd::prelude::*;

use crate::address::{derive_beat_addr, spec_beat_addr};
use crate::errors::{DimiError, OpError};
use crate::records::{
    beat_fields_valid, beat_valid, display_name_valid, patch_valid, spec_archived, spec_patched,
    spec_toggled, Beat, BeatUpdateArgs, Config, Identity, Track, User, MAX_DISPLAY_NAME, MAX_TAGS,
    MAX_TITLE, MAX_URI,
};
use crate::roles::{has_role, spec_has_role, Role};

verus! {

// ---------------------------------------------------------------------------
// Lookup model: each record kind lives in a sequence, keyed by the fields its
// slot is derived from. Keys are unique, so lookup is a partial function.
// ---------------------------------------------------------------------------

/// Some user with this authority is present.
pub open spec fn users_has(s: Seq<User>, a: Seq<u8>) -> bool {
    exists|i: int| #![trigger s[i]] 0 <= i < s.len() && s[i].authority@ == a
}

/// The user with this authority, if present.
pub open spec fn users_get(s: Seq<User>, a: Seq<u8>) -> Option<User> {
    if users_has(s, a) {
        Some(s[choose|i: int| #![trigger s[i]] 0 <= i < s.len() && s[i].authority@ == a])
    } else {
        None
    }
}

/// No two users share an authority.
pub open spec fn users_unique(s: Seq<User>) -> bool {
    forall|i: int, j: int| #![trigger s[i], s[j]]
        0 <= i < s.len() && 0 <= j < s.len() && i != j ==> s[i].authority@ != s[j].authority@
}

/// Some beat with this owner and number is present.
pub open spec fn beats_has(s: Seq<Beat>, o: Seq<u8>, k: u16) -> bool {
    exists|i: int| #![trigger s[i]] 0 <= i < s.len() && s[i].owner@ == o && s[i].beat_id == k
}

/// The beat addressed by (owner, number), if present.
pub open spec fn beats_get(s: Seq<Beat>, o: Seq<u8>, k: u16) -> Option<Beat> {
    if beats_has(s, o, k) {
        Some(
            s[choose|i: int| #![trigger s[i]]
                0 <= i < s.len() && s[i].owner@ == o && s[i].beat_id == k],
        )
    } else {
        None
    }
}

/// No two beats share an (owner, number) pair.
pub open spec fn beats_unique(s: Seq<Beat>) -> bool {
    forall|i: int, j: int| #![trigger s[i], s[j]]
        0 <= i < s.len() && 0 <= j < s.len() && i != j ==> !(s[i].owner@ == s[j].owner@
            && s[i].beat_id == s[j].beat_id)
}

/// Some track with this (beat slot, artist, take) triple is present.
pub open spec fn tracks_has(s: Seq<Track>, b: Seq<u8>, a: Seq<u8>, t: u16) -> bool {
    exists|i: int| #![trigger s[i]]
        0 <= i < s.len() && s[i].beat@ == b && s[i].artist@ == a && s[i].take == t
}

/// The track addressed by (beat slot, artist, take), if present.
pub open spec fn tracks_get(s: Seq<Track>, b: Seq<u8>, a: Seq<u8>, t: u16) -> Option<Track> {
    if tracks_has(s, b, a, t) {
        Some(
            s[choose|i: int| #![trigger s[i]]
                0 <= i < s.len() && s[i].beat@ == b && s[i].artist@ == a && s[i].take == t],
        )
    } else {
        None
    }
}

/// No two tracks share a (beat slot, artist, take) triple.
pub open spec fn tracks_unique(s: Seq<Track>) -> bool {
    forall|i: int, j: int| #![trigger s[i], s[j]]
        0 <= i < s.len() && 0 <= j < s.len() && i != j ==> !(s[i].beat@ == s[j].beat@
            && s[i].artist@ == s[j].artist@ && s[i].take == s[j].take)
}

// ---------------------------------------------------------------------------
// Lemmas about lookups under the mutations the operations perform.
// ---------------------------------------------------------------------------

proof fn lemma_users_get_at(s: Seq<User>, i: int)
    requires
        users_unique(s),
        0 <= i < s.len(),
    ensures
        users_get(s, s[i].authority@) == Some(s[i]),
{
    let a = s[i].authority@;
    assert(users_has(s, a));
    let j = choose|j: int| #![trigger s[j]] 0 <= j < s.len() && s[j].authority@ == a;
    assert(s[j].authority@ == s[i].authority@);
}

proof fn lemma_users_push(s: Seq<User>, u: User)
    requires
        users_unique(s),
        !users_has(s, u.authority@),
    ensures
        users_unique(s.push(u)),
        users_get(s.push(u), u.authority@) == Some(u),
        forall|x: Seq<u8>| x != u.authority@ ==> users_get(s.push(u), x) == users_get(s, x),
{
    let t = s.push(u);
    assert forall|i: int, j: int| #![trigger t[i], t[j]]
        0 <= i < t.len() && 0 <= j < t.len() && i != j implies t[i].authority@
        != t[j].authority@ by {
        if i < s.len() && j < s.len() {
            assert(t[i] == s[i] && t[j] == s[j]);
        } else if i == s.len() && j < s.len() {
            assert(t[i] == u && t[j] == s[j]);
        } else {
            assert(t[j] == u && t[i] == s[i]);
        }
    }
    assert(t[s.len() as int] == u);
    lemma_users_get_at(t, s.len() as int);
    assert forall|x: Seq<u8>| x != u.authority@ implies users_get(t, x) == users_get(s, x) by {
        if users_has(s, x) {
            let i = choose|i: int| #![trigger s[i]] 0 <= i < s.len() && s[i].authority@ == x;
            assert(t[i] == s[i]);
            lemma_users_get_at(s, i);
            lemma_users_get_at(t, i);
        } else if users_has(t, x) {
            let i = choose|i: int| #![trigger t[i]] 0 <= i < t.len() && t[i].authority@ == x;
            if i < s.len() {
                assert(s[i] == t[i]);
                assert(users_has(s, x));
            } else {
                assert(t[i] == u);
            }
            assert(false);
        }
    }
}

proof fn lemma_users_update(s: Seq<User>, i: int, u: User)
    requires
        users_unique(s),
        0 <= i < s.len(),
        u.authority@ == s[i].authority@,
    ensures
        users_unique(s.update(i, u)),
        users_get(s.update(i, u), u.authority@) == Some(u),
        forall|x: Seq<u8>| x != u.authority@ ==> users_get(s.update(i, u), x) == users_get(s, x),
{
    let t = s.update(i, u);
    assert forall|p: int, q: int| #![trigger t[p], t[q]]
        0 <= p < t.len() && 0 <= q < t.len() && p != q implies t[p].authority@
        != t[q].authority@ by {
        assert(t[p] == if p == i { u } else { s[p] });
        assert(t[q] == if q == i { u } else { s[q] });
        assert(s[p].authority@ != s[q].authority@);
    }
    assert(t[i] == u);
    lemma_users_get_at(t, i);
    assert forall|x: Seq<u8>| x != u.authority@ implies users_get(t, x) == users_get(s, x) by {
        if users_has(s, x) {
            let p = choose|p: int| #![trigger s[p]] 0 <= p < s.len() && s[p].authority@ == x;
            assert(p != i);
            assert(t[p] == s[p]);
            lemma_users_get_at(s, p);
            lemma_users_get_at(t, p);
        } else if users_has(t, x) {
            let p = choose|p: int| #![trigger t[p]] 0 <= p < t.len() && t[p].authority@ == x;
            assert(p != i);
            assert(t[p] == s[p]);
            assert(users_has(s, x));
            assert(false);
        }
    }
}

proof fn lemma_beats_get_at(s: Seq<Beat>, i: int)
    requires
        beats_unique(s),
        0 <= i < s.len(),
    ensures
        beats_get(s, s[i].owner@, s[i].beat_id) == Some(s[i]),
{
    let o = s[i].owner@;
    let k = s[i].beat_id;
    assert(beats_has(s, o, k));
    let j = choose|j: int| #![trigger s[j]] 0 <= j < s.len() && s[j].owner@ == o && s[j].beat_id == k;
    assert(s[j].owner@ == s[i].owner@ && s[j].beat_id == s[i].beat_id);
}

proof fn lemma_beats_push(s: Seq<Beat>, b: Beat)
    requires
        beats_unique(s),
        !beats_has(s, b.owner@, b.beat_id),
    ensures
        beats_unique(s.push(b)),
        beats_get(s.push(b), b.owner@, b.beat_id) == Some(b),
        forall|o: Seq<u8>, k: u16|
            !(o == b.owner@ && k == b.beat_id) ==> beats_get(s.push(b), o, k) == beats_get(s, o, k),
{
    let t = s.push(b);
    assert forall|i: int, j: int| #![trigger t[i], t[j]]
        0 <= i < t.len() && 0 <= j < t.len() && i != j implies !(t[i].owner@ == t[j].owner@
        && t[i].beat_id == t[j].beat_id) by {
        if i < s.len() && j < s.len() {
            assert(t[i] == s[i] && t[j] == s[j]);
        } else if i == s.len() && j < s.len() {
            assert(t[i] == b && t[j] == s[j]);
        } else {
            assert(t[j] == b && t[i] == s[i]);
        }
    }
    assert(t[s.len() as int] == b);
    lemma_beats_get_at(t, s.len() as int);
    assert forall|o: Seq<u8>, k: u16| !(o == b.owner@ && k == b.beat_id) implies beats_get(
        t,
        o,
        k,
    ) == beats_get(s, o, k) by {
        if beats_has(s, o, k) {
            let i = choose|i: int| #![trigger s[i]]
                0 <= i < s.len() && s[i].owner@ == o && s[i].beat_id == k;
            assert(t[i] == s[i]);
            lemma_beats_get_at(s, i);
            lemma_beats_get_at(t, i);
        } else if beats_has(t, o, k) {
            let i = choose|i: int| #![trigger t[i]]
                0 <= i < t.len() && t[i].owner@ == o && t[i].beat_id == k;
            if i < s.len() {
                assert(s[i] == t[i]);
                assert(beats_has(s, o, k));
            } else {
                assert(t[i] == b);
            }
            assert(false);
        }
    }
}

proof fn lemma_beats_update(s: Seq<Beat>, i: int, b: Beat)
    requires
        beats_unique(s),
        0 <= i < s.len(),
        b.owner@ == s[i].owner@,
        b.beat_id == s[i].beat_id,
    ensures
        beats_unique(s.update(i, b)),
        beats_get(s.update(i, b), b.owner@, b.beat_id) == Some(b),
        forall|o: Seq<u8>, k: u16|
            !(o == b.owner@ && k == b.beat_id) ==> beats_get(s.update(i, b), o, k) == beats_get(
                s,
                o,
                k,
            ),
{
    let t = s.update(i, b);
    assert forall|p: int, q: int| #![trigger t[p], t[q]]
        0 <= p < t.len() && 0 <= q < t.len() && p != q implies !(t[p].owner@ == t[q].owner@
        && t[p].beat_id == t[q].beat_id) by {
        assert(t[p] == if p == i { b } else { s[p] });
        assert(t[q] == if q == i { b } else { s[q] });
        assert(!(s[p].owner@ == s[q].owner@ && s[p].beat_id == s[q].beat_id));
    }
    assert(t[i] == b);
    lemma_beats_get_at(t, i);
    assert forall|o: Seq<u8>, k: u16| !(o == b.owner@ && k == b.beat_id) implies beats_get(t, o, k)
        == beats_get(s, o, k) by {
        if beats_has(s, o, k) {
            let p = choose|p: int| #![trigger s[p]]
                0 <= p < s.len() && s[p].owner@ == o && s[p].beat_id == k;
            assert(p != i);
            assert(t[p] == s[p]);
            lemma_beats_get_at(s, p);
            lemma_beats_get_at(t, p);
        } else if beats_has(t, o, k) {
            let p = choose|p: int| #![trigger t[p]]
                0 <= p < t.len() && t[p].owner@ == o && t[p].beat_id == k;
            assert(p != i);
            assert(t[p] == s[p]);
            assert(beats_has(s, o, k));
            assert(false);
        }
    }
}

proof fn lemma_tracks_get_at(s: Seq<Track>, i: int)
    requires
        tracks_unique(s),
        0 <= i < s.len(),
    ensures
        tracks_get(s, s[i].beat@, s[i].artist@, s[i].take) == Some(s[i]),
{
    let b = s[i].beat@;
    let a = s[i].artist@;
    let t = s[i].take;
    assert(tracks_has(s, b, a, t));
    let j = choose|j: int| #![trigger s[j]]
        0 <= j < s.len() && s[j].beat@ == b && s[j].artist@ == a && s[j].take == t;
    assert(s[j].beat@ == s[i].beat@ && s[j].artist@ == s[i].artist@ && s[j].take == s[i].take);
}

proof fn lemma_tracks_push(s: Seq<Track>, tr: Track)
    requires
        tracks_unique(s),
        !tracks_has(s, tr.beat@, tr.artist@, tr.take),
    ensures
        tracks_unique(s.push(tr)),
        tracks_get(s.push(tr), tr.beat@, tr.artist@, tr.take) == Some(tr),
        forall|b: Seq<u8>, a: Seq<u8>, t: u16|
            !(b == tr.beat@ && a == tr.artist@ && t == tr.take) ==> tracks_get(s.push(tr), b, a, t)
                == tracks_get(s, b, a, t),
{
    let u = s.push(tr);
    assert forall|i: int, j: int| #![trigger u[i], u[j]]
        0 <= i < u.len() && 0 <= j < u.len() && i != j implies !(u[i].beat@ == u[j].beat@
        && u[i].artist@ == u[j].artist@ && u[i].take == u[j].take) by {
        if i < s.len() && j < s.len() {
            assert(u[i] == s[i] && u[j] == s[j]);
        } else if i == s.len() && j < s.len() {
            assert(u[i] == tr && u[j] == s[j]);
        } else {
            assert(u[j] == tr && u[i] == s[i]);
        }
    }
    assert(u[s.len() as int] == tr);
    lemma_tracks_get_at(u, s.len() as int);
    assert forall|b: Seq<u8>, a: Seq<u8>, t: u16|
        !(b == tr.beat@ && a == tr.artist@ && t == tr.take) implies tracks_get(u, b, a, t)
        == tracks_get(s, b, a, t) by {
        if tracks_has(s, b, a, t) {
            let i = choose|i: int| #![trigger s[i]]
                0 <= i < s.len() && s[i].beat@ == b && s[i].artist@ == a && s[i].take == t;
            assert(u[i] == s[i]);
            lemma_tracks_get_at(s, i);
            lemma_tracks_get_at(u, i);
        } else if tracks_has(u, b, a, t) {
            let i = choose|i: int| #![trigger u[i]]
                0 <= i < u.len() && u[i].beat@ == b && u[i].artist@ == a && u[i].take == t;
            if i < s.len() {
                assert(s[i] == u[i]);
                assert(tracks_has(s, b, a, t));
            } else {
                assert(u[i] == tr);
            }
            assert(false);
        }
    }
}

proof fn lemma_tracks_remove(s: Seq<Track>, i: int)
    requires
        tracks_unique(s),
        0 <= i < s.len(),
    ensures
        tracks_unique(s.remove(i)),
        tracks_get(s.remove(i), s[i].beat@, s[i].artist@, s[i].take) is None,
        forall|b: Seq<u8>, a: Seq<u8>, t: u16|
            !(b == s[i].beat@ && a == s[i].artist@ && t == s[i].take) ==> tracks_get(
                s.remove(i),
                b,
                a,
                t,
            ) == tracks_get(s, b, a, t),
{
    let u = s.remove(i);
    assert forall|p: int, q: int| #![trigger u[p], u[q]]
        0 <= p < u.len() && 0 <= q < u.len() && p != q implies !(u[p].beat@ == u[q].beat@
        && u[p].artist@ == u[q].artist@ && u[p].take == u[q].take) by {
        let p0: int = if p < i { p } else { p + 1 };
        let q0: int = if q < i { q } else { q + 1 };
        assert(u[p] == s[p0] && u[q] == s[q0]);
    }
    if tracks_has(u, s[i].beat@, s[i].artist@, s[i].take) {
        let p = choose|p: int| #![trigger u[p]]
            0 <= p < u.len() && u[p].beat@ == s[i].beat@ && u[p].artist@ == s[i].artist@
                && u[p].take == s[i].take;
        let p0: int = if p < i { p } else { p + 1 };
        assert(u[p] == s[p0]);
        assert(p0 != i);
        assert(false);
    }
    assert forall|b: Seq<u8>, a: Seq<u8>, t: u16|
        !(b == s[i].beat@ && a == s[i].artist@ && t == s[i].take) implies tracks_get(u, b, a, t)
        == tracks_get(s, b, a, t) by {
        if tracks_has(s, b, a, t) {
            let p = choose|p: int| #![trigger s[p]]
                0 <= p < s.len() && s[p].beat@ == b && s[p].artist@ == a && s[p].take == t;
            assert(p != i);
            let q: int = if p < i { p } else { p - 1 };
            assert(u[q] == s[p]);
            lemma_tracks_get_at(s, p);
            lemma_tracks_get_at(u, q);
        } else if tracks_has(u, b, a, t) {
            let p = choose|p: int| #![trigger u[p]]
                0 <= p < u.len() && u[p].beat@ == b && u[p].artist@ == a && u[p].take == t;
            let p0: int = if p < i { p } else { p + 1 };
            assert(u[p] == s[p0]);
            assert(tracks_has(s, b, a, t));
            assert(false);
        }
    }
}

// ---------------------------------------------------------------------------
// The registry itself.
// ---------------------------------------------------------------------------

/// The addressed store of all records. Mirrors an atomic, single-call,
/// account-oriented substrate: every operation either completes fully or
/// aborts with one error and no partial mutation.
pub struct Registry {
    pub config: Option<Config>,
    pub users: Vec<User>,
    pub beats: Vec<Beat>,
    pub tracks: Vec<Track>,
}

impl Registry {
    /// The configuration singleton, if created.
    pub open spec fn spec_config(self) -> Option<Config> {
        self.config
    }

    /// The user registered under an authority, if any.
    pub open spec fn spec_user(self, a: Seq<u8>) -> Option<User> {
        users_get(self.users@, a)
    }

    /// The beat addressed by (owner, number), if any.
    pub open spec fn spec_beat(self, o: Seq<u8>, k: u16) -> Option<Beat> {
        beats_get(self.beats@, o, k)
    }

    /// The track addressed by (beat slot, artist, take), if any.
    pub open spec fn spec_track(self, b: Seq<u8>, a: Seq<u8>, t: u16) -> Option<Track> {
        tracks_get(self.tracks@, b, a, t)
    }

    /// Well-formedness: keys are unique, every sized field respects its
    /// budget, every beat belongs to a registered owner, and each owner's
    /// beat numbers are exactly those below the owner's counter.
    pub open spec fn wf(self) -> bool {
        &&& users_unique(self.users@)
        &&& beats_unique(self.beats@)
        &&& tracks_unique(self.tracks@)
        &&& forall|i: int|
            0 <= i < self.users@.len() ==> display_name_valid(
                (#[trigger] self.users@[i]).display_name@,
            )
        &&& forall|i: int| 0 <= i < self.beats@.len() ==> beat_valid(#[trigger] self.beats@[i])
        &&& forall|i: int|
            0 <= i < self.tracks@.len() ==> (#[trigger] self.tracks@[i]).uri@.len() <= MAX_URI
        &&& forall|i: int|
            0 <= i < self.beats@.len() ==> users_has(
                self.users@,
                (#[trigger] self.beats@[i]).owner@,
            ) && self.beats@[i].beat_id < users_get(
                self.users@,
                self.beats@[i].owner@,
            )->0.next_beat_id
        &&& forall|i: int, k: u16|
            0 <= i < self.users@.len() && k < (#[trigger] self.users@[i]).next_beat_id
                ==> #[trigger] beats_has(self.beats@, self.users@[i].authority@, k)
    }

    /// An empty registry: nothing is stored yet.
    pub fn new() -> (reg: Registry)
        ensures
            reg.wf(),
            reg.spec_config() is None,
            forall|a: Seq<u8>| reg.spec_user(a) is None,
            forall|o: Seq<u8>, k: u16| reg.spec_beat(o, k) is None,
            forall|b: Seq<u8>, a: Seq<u8>, t: u16| reg.spec_track(b, a, t) is None,
    {
        Registry { config: None, users: Vec::new(), beats: Vec::new(), tracks: Vec::new() }
    }

    /// Index of the user registered under `a`, if any.
    fn find_user(&self, a: &Identity) -> (r: Option<usize>)
        requires
            self.wf(),
        ensures
            match r {
                Some(i) => 0 <= i < self.users@.len() && self.users@[i as int].authority@ == a@
                    && self.spec_user(a@) == Some(self.users@[i as int]),
                None => self.spec_user(a@) is None,
            },
    {
        let mut i: usize = 0;
        while i < self.users.len()
            invariant
                self.wf(),
                i <= self.users@.len(),
                forall|j: int| 0 <= j < i ==> (#[trigger] self.users@[j]).authority@ != a@,
            decreases self.users@.len() - i,
        {
            if self.users[i].authority.equals(a) {
                proof {
                    lemma_users_get_at(self.users@, i as int);
                }
                return Some(i);
            }
            i += 1;
        }
        None
    }

    /// Index of the beat addressed by (owner, number), if any.
    fn find_beat(&self, o: &Identity, k: u16) -> (r: Option<usize>)
        requires
            self.wf(),
        ensures
            match r {
                Some(i) => 0 <= i < self.beats@.len() && self.beats@[i as int].owner@ == o@
                    && self.beats@[i as int].beat_id == k && self.spec_beat(o@, k) == Some(
                    self.beats@[i as int],
                ),
                None => self.spec_beat(o@, k) is None,
            },
    {
        let mut i: usize = 0;
        while i < self.beats.len()
            invariant
                self.wf(),
                i <= self.beats@.len(),
                forall|j: int|
                    0 <= j < i ==> !((#[trigger] self.beats@[j]).owner@ == o@
                        && self.beats@[j].beat_id == k),
            decreases self.beats@.len() - i,
        {
            if self.beats[i].beat_id == k && self.beats[i].owner.equals(o) {
                proof {
                    lemma_beats_get_at(self.beats@, i as int);
                }
                return Some(i);
            }
            i += 1;
        }
        None
    }

    /// Index of the track addressed by (beat slot, artist, take), if any.
    fn find_track(&self, b: &Vec<u8>, a: &Identity, t: u16) -> (r: Option<usize>)
        requires
            self.wf(),
        ensures
            match r {
                Some(i) => 0 <= i < self.tracks@.len() && self.tracks@[i as int].beat@ == b@
                    && self.tracks@[i as int].artist@ == a@ && self.tracks@[i as int].take == t
                    && self.spec_track(b@, a@, t) == Some(self.tracks@[i as int]),
                None => self.spec_track(b@, a@, t) is None,
            },
    {
        let mut i: usize = 0;
        while i < self.tracks.len()
            invariant
                self.wf(),
                i <= self.tracks@.len(),
                forall|j: int|
                    0 <= j < i ==> !((#[trigger] self.tracks@[j]).beat@ == b@
                        && self.tracks@[j].artist@ == a@ && self.tracks@[j].take == t),
            decreases self.tracks@.len() - i,
        {
            if self.tracks[i].take == t && self.tracks[i].artist.equals(a) && bytes_equal(
                &self.tracks[i].beat,
                b,
            ) {
                proof {
                    lemma_tracks_get_at(self.tracks@, i as int);
                }
                return Some(i);
            }
            i += 1;
        }
        None
    }

    /// The configuration singleton, if created.
    pub fn get_config(&self) -> (r: Option<&Config>)
        ensures
            match r {
                Some(c) => self.spec_config() == Some(*c),
                None => self.spec_config() is None,
            },
    {
        match &self.config {
            Some(c) => Some(c),
            None => None,
        }
    }

    /// The user registered under an authority, if any.
    pub fn get_user(&self, a: &Identity) -> (r: Option<&User>)
        requires
            self.wf(),
        ensures
            match r {
                Some(u) => self.spec_user(a@) == Some(*u),
                None => self.spec_user(a@) is None,
            },
    {
        match self.find_user(a) {
            Some(i) => Some(&self.users[i]),
            None => None,
        }
    }

    /// The beat addressed by (owner, number), if any.
    pub fn get_beat(&self, o: &Identity, k: u16) -> (r: Option<&Beat>)
        requires
            self.wf(),
        ensures
            match r {
                Some(b) => self.spec_beat(o@, k) == Some(*b),
                None => self.spec_beat(o@, k) is None,
            },
    {
        match self.find_beat(o, k) {
            Some(i) => Some(&self.beats[i]),
            None => None,
        }
    }

    /// The track addressed by (parent beat owner, beat number, artist, take),
    /// if any. The parent beat's slot is derived on the way.
    pub fn get_track(&self, o: &Identity, k: u16, artist: &Identity, take: u16) -> (r: Option<
        &Track,
    >)
        requires
            self.wf(),
        ensures
            match r {
                Some(t) => self.spec_track(spec_beat_addr(o@, k), artist@, take) == Some(*t),
                None => self.spec_track(spec_beat_addr(o@, k), artist@, take) is None,
            },
    {
        let addr = derive_beat_addr(o, k);
        match self.find_track(&addr, artist, take) {
            Some(i) => Some(&self.tracks[i]),
            None => None,
        }
    }
}

/// Byte-for-byte equality of two keys.
fn bytes_equal(x: &Vec<u8>, y: &Vec<u8>) -> (eq: bool)
    ensures
        eq <==> x@ == y@,
{
    if x.len() != y.len() {
        return false;
    }
    let mut i: usize = 0;
    while i < x.len()
        invariant
            x@.len() == y@.len(),
            i <= x@.len(),
            forall|j: int| 0 <= j < i ==> x@[j] == y@[j],
        decreases x@.len() - i,
    {
        if x[i] != y[i] {
            return false;
        }
        i += 1;
    }
    assert(x@ =~= y@);
    true
}


// ---------------------------------------------------------------------------
// Operation argument bundles: each names the slots an operation addresses and
// carries its payload, mirroring the records the substrate would resolve.
// ---------------------------------------------------------------------------

/// Arguments of `init_config`.
pub struct InitConfig {
    /// The identity that becomes the registry's admin.
    pub admin: Identity,
}

/// Arguments of `register_user`.
pub struct RegisterUser {
    pub display_name: Vec<u8>,
    pub roles: u8,
}

/// Arguments of `set_roles`: which user record to re-role.
pub struct SetRoles {
    pub user: Identity,
    pub roles: u8,
}

/// Arguments of `beat_create`: the payload of the new beat.
pub struct BeatCreate {
    pub title: Vec<u8>,
    pub bpm: u16,
    pub musical_key: [u8; 8],
    pub tags: Vec<[u8; 16]>,
    pub uri: Vec<u8>,
    pub content_hash: [u8; 32],
    pub content_type: [u8; 16],
    pub byte_len: u32,
}

/// Addressing of `beat_update`: which beat to patch.
pub struct BeatUpdate {
    pub owner: Identity,
    pub beat_id: u16,
}

/// Addressing of the owner-gated sharing operations.
pub struct BeatOwner {
    pub owner: Identity,
    pub beat_id: u16,
}

/// Arguments of `track_create`: the parent beat, the take, and the payload.
pub struct TrackCreate {
    pub beat_owner: Identity,
    pub beat_id: u16,
    pub take: u16,
    pub uri: Vec<u8>,
    pub content_hash: [u8; 32],
    pub content_type: [u8; 16],
    pub byte_len: u32,
}

/// Addressing of `track_delete`.
pub struct TrackDelete {
    pub beat_owner: Identity,
    pub beat_id: u16,
    pub artist: Identity,
    pub take: u16,
}

// ---------------------------------------------------------------------------
// Shared pieces of the operations' proofs.
// ---------------------------------------------------------------------------

/// Replacing one beat with another of the same key and valid fields keeps the
/// registry well-formed and moves exactly that one slot.
proof fn lemma_wf_beats_update(r0: Registry, r1: Registry, i: int, b: Beat)
    requires
        r0.wf(),
        0 <= i < r0.beats@.len(),
        b.owner@ == r0.beats@[i].owner@,
        b.beat_id == r0.beats@[i].beat_id,
        beat_valid(b),
        r1.users == r0.users,
        r1.tracks == r0.tracks,
        r1.beats@ == r0.beats@.update(i, b),
    ensures
        r1.wf(),
        r1.spec_beat(b.owner@, b.beat_id) == Some(b),
        forall|o: Seq<u8>, k: u16|
            !(o == b.owner@ && k == b.beat_id) ==> r1.spec_beat(o, k) == r0.spec_beat(o, k),
{
    lemma_beats_update(r0.beats@, i, b);
    assert forall|j: int| 0 <= j < r1.beats@.len() implies beat_valid(#[trigger] r1.beats@[j]) by {
        if j != i {
            assert(r1.beats@[j] == r0.beats@[j]);
        }
    }
    assert forall|j: int| 0 <= j < r1.beats@.len() implies users_has(
        r1.users@,
        (#[trigger] r1.beats@[j]).owner@,
    ) && r1.beats@[j].beat_id < users_get(r1.users@, r1.beats@[j].owner@)->0.next_beat_id by {
        if j != i {
            assert(r1.beats@[j] == r0.beats@[j]);
        } else {
            assert(r0.beats@[i].owner@ == b.owner@ && r0.beats@[i].beat_id == b.beat_id);
        }
    }
    assert forall|j: int, k: u16|
        0 <= j < r1.users@.len() && k < (#[trigger] r1.users@[j]).next_beat_id
        implies #[trigger] beats_has(r1.beats@, r1.users@[j].authority@, k) by {
        let a = r1.users@[j].authority@;
        assert(beats_has(r0.beats@, a, k));
        if a == b.owner@ && k == b.beat_id {
            assert(beats_get(r1.beats@, a, k) == Some(b));
        } else {
            assert(beats_get(r1.beats@, a, k) == beats_get(r0.beats@, a, k));
        }
    }
}

// ---------------------------------------------------------------------------
// The operations. Each is one atomic request: it either applies fully or
// returns one error having changed nothing.
// ---------------------------------------------------------------------------

/// Creates the configuration singleton; `ctx.admin` becomes the admin, which
/// no later operation can change. Re-invocation finds the slot occupied and
/// fails.
pub fn init_config(reg: &mut Registry, ctx: InitConfig) -> (r: Result<(), OpError>)
    requires
        old(reg).wf(),
    ensures
        final(reg).wf(),
        old(reg).spec_config() is Some ==> r == Err::<(), OpError>(OpError::SlotOccupied)
            && *final(reg) == *old(reg),
        old(reg).spec_config() is None ==> {
            &&& r == Ok::<(), OpError>(())
            &&& final(reg).spec_config() == Some(
                Config { admin: ctx.admin, derivation_tag: crate::address::TAG_CONFIG },
            )
            &&& final(reg).users == old(reg).users
            &&& final(reg).beats == old(reg).beats
            &&& final(reg).tracks == old(reg).tracks
        },
{
    if reg.config.is_some() {
        return Err(OpError::SlotOccupied);
    }
    reg.config = Some(Config { admin: ctx.admin, derivation_tag: crate::address::TAG_CONFIG });
    Ok(())
}

/// Registers the caller: one user record per identity, display name within
/// its byte budget, counter starting at zero.
pub fn register_user(reg: &mut Registry, caller: Identity, ctx: RegisterUser, now: i64) -> (r:
    Result<(), OpError>)
    requires
        old(reg).wf(),
    ensures
        final(reg).wf(),
        ctx.display_name@.len() > MAX_DISPLAY_NAME ==> r == Err::<(), OpError>(
            OpError::Rejected(DimiError::NameTooLong),
        ) && *final(reg) == *old(reg),
        ctx.display_name@.len() <= MAX_DISPLAY_NAME && old(reg).spec_user(caller@) is Some ==> r
            == Err::<(), OpError>(OpError::SlotOccupied) && *final(reg) == *old(reg),
        ctx.display_name@.len() <= MAX_DISPLAY_NAME && old(reg).spec_user(caller@) is None ==> {
            &&& r == Ok::<(), OpError>(())
            &&& final(reg).spec_user(caller@) == Some(
                User {
                    authority: caller,
                    roles: ctx.roles,
                    created_at: now,
                    next_beat_id: 0,
                    display_name: ctx.display_name,
                },
            )
            &&& forall|x: Seq<u8>|
                x != caller@ ==> final(reg).spec_user(x) == old(reg).spec_user(x)
            &&& final(reg).beats == old(reg).beats
            &&& final(reg).tracks == old(reg).tracks
            &&& final(reg).config == old(reg).config
        },
{
    if ctx.display_name.len() > MAX_DISPLAY_NAME {
        return Err(OpError::Rejected(DimiError::NameTooLong));
    }
    if reg.find_user(&caller).is_some() {
        return Err(OpError::SlotOccupied);
    }
    let user = User {
        authority: caller,
        roles: ctx.roles,
        created_at: now,
        next_beat_id: 0,
        display_name: ctx.display_name,
    };
    let ghost users0 = reg.users@;
    proof {
        lemma_users_push(users0, user);
    }
    reg.users.push(user);
    proof {
        assert forall|j: int| 0 <= j < reg.users@.len() implies display_name_valid(
            (#[trigger] reg.users@[j]).display_name@,
        ) by {
            if j < users0.len() {
                assert(reg.users@[j] == users0[j]);
            }
        }
        assert forall|j: int| 0 <= j < reg.beats@.len() implies users_has(
            reg.users@,
            (#[trigger] reg.beats@[j]).owner@,
        ) && reg.beats@[j].beat_id < users_get(reg.users@, reg.beats@[j].owner@)->0.next_beat_id by {
            let o = reg.beats@[j].owner@;
            assert(users_has(users0, o));
            assert(o != caller@);
            assert(users_get(reg.users@, o) == users_get(users0, o));
        }
        assert forall|j: int, k: u16|
            0 <= j < reg.users@.len() && k < (#[trigger] reg.users@[j]).next_beat_id
            implies #[trigger] beats_has(reg.beats@, reg.users@[j].authority@, k) by {
            if j < users0.len() {
                assert(reg.users@[j] == users0[j]);
            } else {
                assert(reg.users@[j].next_beat_id == 0);
            }
        }
    }
    Ok(())
}

/// Reassigns a user's capability bitmask. Only the configuration's admin may
/// do this: a producer or artist cannot escalate roles.
pub fn set_roles(reg: &mut Registry, caller: Identity, ctx: SetRoles) -> (r: Result<(), OpError>)
    requires
        old(reg).wf(),
    ensures
        final(reg).wf(),
        old(reg).spec_config() is None ==> r == Err::<(), OpError>(OpError::MissingRecord)
            && *final(reg) == *old(reg),
        old(reg).spec_config() matches Some(c) ==> {
            &&& c.admin@ != caller@ ==> r == Err::<(), OpError>(
                OpError::Rejected(DimiError::Unauthorized),
            ) && *final(reg) == *old(reg)
            &&& c.admin@ == caller@ ==> {
                &&& old(reg).spec_user(ctx.user@) is None ==> r == Err::<(), OpError>(
                    OpError::MissingRecord,
                ) && *final(reg) == *old(reg)
                &&& (old(reg).spec_user(ctx.user@) matches Some(u) ==> {
                    &&& r == Ok::<(), OpError>(())
                    &&& final(reg).spec_user(ctx.user@) == Some(User { roles: ctx.roles, ..u })
                    &&& forall|x: Seq<u8>|
                        x != ctx.user@ ==> final(reg).spec_user(x) == old(reg).spec_user(x)
                    &&& final(reg).beats == old(reg).beats
                    &&& final(reg).tracks == old(reg).tracks
                    &&& final(reg).config == old(reg).config
                })
            }
        },
{
    let is_admin: bool;
    match reg.get_config() {
        None => {
            return Err(OpError::MissingRecord);
        },
        Some(c) => {
            is_admin = c.admin.equals(&caller);
        },
    }
    if !is_admin {
        return Err(OpError::Rejected(DimiError::Unauthorized));
    }
    let i = match reg.find_user(&ctx.user) {
        None => {
            return Err(OpError::MissingRecord);
        },
        Some(i) => i,
    };
    let ghost users0 = reg.users@;
    reg.users[i].roles = ctx.roles;
    proof {
        lemma_users_update(users0, i as int, reg.users@[i as int]);
        assert forall|j: int| 0 <= j < reg.users@.len() implies display_name_valid(
            (#[trigger] reg.users@[j]).display_name@,
        ) by {
            if j != i {
                assert(reg.users@[j] == users0[j]);
            }
        }
        assert forall|j: int| 0 <= j < reg.beats@.len() implies users_has(
            reg.users@,
            (#[trigger] reg.beats@[j]).owner@,
        ) && reg.beats@[j].beat_id < users_get(reg.users@, reg.beats@[j].owner@)->0.next_beat_id by {
            let o = reg.beats@[j].owner@;
            assert(users_has(users0, o));
            if o == ctx.user@ {
                assert(users_get(reg.users@, o) == Some(reg.users@[i as int]));
                assert(users_get(users0, o) == Some(users0[i as int]));
                assert(reg.users@[i as int].next_beat_id == users0[i as int].next_beat_id);
            } else {
                assert(users_get(reg.users@, o) == users_get(users0, o));
            }
        }
        assert forall|j: int, k: u16|
            0 <= j < reg.users@.len() && k < (#[trigger] reg.users@[j]).next_beat_id
            implies #[trigger] beats_has(reg.beats@, reg.users@[j].authority@, k) by {
            assert(reg.users@[j].authority@ == users0[j].authority@ && reg.users@[j].next_beat_id
                == users0[j].next_beat_id);
        }
    }
    Ok(())
}

/// Creates a beat for the caller, who must hold the producer capability.
/// The beat's number is drawn from the caller's monotonic counter, which is
/// then advanced with an overflow check; the beat starts private and active.
pub fn beat_create(reg: &mut Registry, caller: Identity, ctx: BeatCreate, now: i64) -> (r: Result<
    u16,
    OpError,
>)
    requires
        old(reg).wf(),
    ensures
        final(reg).wf(),
        old(reg).spec_user(caller@) is None ==> r == Err::<u16, OpError>(OpError::MissingRecord)
            && *final(reg) == *old(reg),
        old(reg).spec_user(caller@) matches Some(u) ==> {
            &&& !spec_has_role(u.roles, Role::Producer) ==> r == Err::<u16, OpError>(
                OpError::Rejected(DimiError::Unauthorized),
            ) && *final(reg) == *old(reg)
            &&& spec_has_role(u.roles, Role::Producer) ==> {
                &&& ctx.title@.len() > MAX_TITLE ==> r == Err::<u16, OpError>(
                    OpError::Rejected(DimiError::TitleTooLong),
                ) && *final(reg) == *old(reg)
                &&& ctx.title@.len() <= MAX_TITLE && ctx.uri@.len() > MAX_URI ==> r == Err::<
                    u16,
                    OpError,
                >(OpError::Rejected(DimiError::UriTooLong)) && *final(reg) == *old(reg)
                &&& ctx.title@.len() <= MAX_TITLE && ctx.uri@.len() <= MAX_URI && ctx.tags@.len()
                    > MAX_TAGS ==> r == Err::<u16, OpError>(
                    OpError::Rejected(DimiError::TooManyTags),
                ) && *final(reg) == *old(reg)
                &&& beat_fields_valid(ctx.title@, ctx.uri@, ctx.tags@) && u.next_beat_id
                    == u16::MAX ==> r == Err::<u16, OpError>(OpError::Rejected(DimiError::Overflow))
                    && *final(reg) == *old(reg)
                &&& beat_fields_valid(ctx.title@, ctx.uri@, ctx.tags@) && u.next_beat_id
                    < u16::MAX ==> {
                    &&& r == Ok::<u16, OpError>(u.next_beat_id)
                    &&& final(reg).spec_beat(caller@, u.next_beat_id) == Some(
                        Beat {
                            owner: caller,
                            beat_id: u.next_beat_id,
                            bpm: ctx.bpm,
                            shared: false,
                            archived: false,
                            byte_len: ctx.byte_len,
                            created_at: now,
                            updated_at: now,
                            musical_key: ctx.musical_key,
                            content_hash: ctx.content_hash,
                            content_type: ctx.content_type,
                            title: ctx.title,
                            uri: ctx.uri,
                            tags: ctx.tags,
                        },
                    )
                    &&& final(reg).spec_user(caller@) == Some(
                        User { next_beat_id: (u.next_beat_id + 1) as u16, ..u },
                    )
                    &&& forall|o: Seq<u8>, k: u16|
                        !(o == caller@ && k == u.next_beat_id) ==> final(reg).spec_beat(o, k)
                            == old(reg).spec_beat(o, k)
                    &&& forall|x: Seq<u8>|
                        x != caller@ ==> final(reg).spec_user(x) == old(reg).spec_user(x)
                    &&& final(reg).tracks == old(reg).tracks
                    &&& final(reg).config == old(reg).config
                }
            }
        },
{
    let i = match reg.find_user(&caller) {
        None => {
            return Err(OpError::MissingRecord);
        },
        Some(i) => i,
    };
    if !has_role(reg.users[i].roles, Role::Producer) {
        return Err(OpError::Rejected(DimiError::Unauthorized));
    }
    if ctx.title.len() > MAX_TITLE {
        return Err(OpError::Rejected(DimiError::TitleTooLong));
    }
    if ctx.uri.len() > MAX_URI {
        return Err(OpError::Rejected(DimiError::UriTooLong));
    }
    if ctx.tags.len() > MAX_TAGS {
        return Err(OpError::Rejected(DimiError::TooManyTags));
    }
    let next = reg.users[i].next_beat_id;
    if next == u16::MAX {
        return Err(OpError::Rejected(DimiError::Overflow));
    }
    let beat = Beat {
        owner: caller,
        beat_id: next,
        bpm: ctx.bpm,
        shared: false,
        archived: false,
        byte_len: ctx.byte_len,
        created_at: now,
        updated_at: now,
        musical_key: ctx.musical_key,
        content_hash: ctx.content_hash,
        content_type: ctx.content_type,
        title: ctx.title,
        uri: ctx.uri,
        tags: ctx.tags,
    };
    let ghost users0 = reg.users@;
    let ghost beats0 = reg.beats@;
    proof {
        if beats_has(beats0, beat.owner@, beat.beat_id) {
            let j = choose|j: int| #![trigger beats0[j]]
                0 <= j < beats0.len() && beats0[j].owner@ == beat.owner@ && beats0[j].beat_id
                    == beat.beat_id;
            assert(users_get(users0, beats0[j].owner@) == Some(users0[i as int]));
            assert(false);
        }
        lemma_beats_push(beats0, beat);
    }
    reg.beats.push(beat);
    let ghost user1 = User { next_beat_id: (next + 1) as u16, ..users0[i as int] };
    reg.users[i].next_beat_id = next + 1;
    proof {
        assert(reg.users@[i as int] == user1);
        lemma_users_update(users0, i as int, user1);
        assert forall|j: int| 0 <= j < reg.users@.len() implies display_name_valid(
            (#[trigger] reg.users@[j]).display_name@,
        ) by {
            if j != i {
                assert(reg.users@[j] == users0[j]);
            }
        }
        assert forall|j: int| 0 <= j < reg.beats@.len() implies beat_valid(
            #[trigger] reg.beats@[j],
        ) by {
            if j < beats0.len() {
                assert(reg.beats@[j] == beats0[j]);
            } else {
                assert(reg.beats@[j] == beat);
            }
        }
        assert forall|j: int| 0 <= j < reg.beats@.len() implies users_has(
            reg.users@,
            (#[trigger] reg.beats@[j]).owner@,
        ) && reg.beats@[j].beat_id < users_get(reg.users@, reg.beats@[j].owner@)->0.next_beat_id by {
            let o = reg.beats@[j].owner@;
            if j < beats0.len() {
                assert(reg.beats@[j] == beats0[j]);
                assert(users_has(users0, o));
                if o == caller@ {
                    assert(users_get(users0, o) == Some(users0[i as int]));
                    assert(users_get(reg.users@, o) == Some(user1));
                } else {
                    assert(users_get(reg.users@, o) == users_get(users0, o));
                }
            } else {
                assert(reg.beats@[j] == beat);
                assert(users_get(reg.users@, caller@) == Some(user1));
            }
        }
        assert forall|j: int, k: u16|
            0 <= j < reg.users@.len() && k < (#[trigger] reg.users@[j]).next_beat_id
            implies #[trigger] beats_has(reg.beats@, reg.users@[j].authority@, k) by {
            let a = reg.users@[j].authority@;
            if j == i {
                assert(a == caller@);
                if k < next {
                    assert(beats_has(beats0, a, k));
                    assert(beats_get(reg.beats@, a, k) == beats_get(beats0, a, k));
                } else {
                    assert(k == next);
                    assert(beats_get(reg.beats@, beat.owner@, beat.beat_id) == Some(beat));
                }
            } else {
                assert(reg.users@[j] == users0[j]);
                assert(beats_has(beats0, a, k));
                assert(!(a == caller@ && k == next));
                assert(beats_get(reg.beats@, a, k) == beats_get(beats0, a, k));
            }
        }
    }
    Ok(next)
}


/// Patches a beat: the caller must own it; every present field is
/// re-validated against the limits that creation enforces and overwrites its
/// counterpart; absent fields stay; `updated_at` is refreshed even by an
/// empty patch. The fields outside the patch are immutable here.
pub fn beat_update(
    reg: &mut Registry,
    caller: Identity,
    ctx: BeatUpdate,
    args: BeatUpdateArgs,
    now: i64,
) -> (r: Result<(), OpError>)
    requires
        old(reg).wf(),
    ensures
        final(reg).wf(),
        old(reg).spec_beat(ctx.owner@, ctx.beat_id) is None ==> r == Err::<(), OpError>(
            OpError::MissingRecord,
        ) && *final(reg) == *old(reg),
        old(reg).spec_beat(ctx.owner@, ctx.beat_id) matches Some(b) ==> {
            &&& caller@ != ctx.owner@ ==> r == Err::<(), OpError>(
                OpError::Rejected(DimiError::Unauthorized),
            ) && *final(reg) == *old(reg)
            &&& caller@ == ctx.owner@ ==> {
                &&& (args.title matches Some(t) && t@.len() > MAX_TITLE ==> r == Err::<
                    (),
                    OpError,
                >(OpError::Rejected(DimiError::TitleTooLong)) && *final(reg) == *old(reg))
                &&& (args.title matches Some(t) ==> t@.len() <= MAX_TITLE) && (args.tags
                    matches Some(t) && t@.len() > MAX_TAGS) ==> r == Err::<(), OpError>(
                    OpError::Rejected(DimiError::TooManyTags),
                ) && *final(reg) == *old(reg)
                &&& (args.title matches Some(t) ==> t@.len() <= MAX_TITLE) && (args.tags
                    matches Some(t) ==> t@.len() <= MAX_TAGS) && (args.uri matches Some(v)
                    && v@.len() > MAX_URI) ==> r == Err::<(), OpError>(
                    OpError::Rejected(DimiError::UriTooLong),
                ) && *final(reg) == *old(reg)
                &&& patch_valid(args) ==> {
                    &&& r == Ok::<(), OpError>(())
                    &&& final(reg).spec_beat(ctx.owner@, ctx.beat_id) == Some(
                        spec_patched(b, args, now),
                    )
                    &&& forall|o: Seq<u8>, k: u16|
                        !(o == ctx.owner@ && k == ctx.beat_id) ==> final(reg).spec_beat(o, k)
                            == old(reg).spec_beat(o, k)
                    &&& final(reg).users == old(reg).users
                    &&& final(reg).tracks == old(reg).tracks
                    &&& final(reg).config == old(reg).config
                }
            }
        },
{
    let i = match reg.find_beat(&ctx.owner, ctx.beat_id) {
        None => {
            return Err(OpError::MissingRecord);
        },
        Some(i) => i,
    };
    if !caller.equals(&ctx.owner) {
        return Err(OpError::Rejected(DimiError::Unauthorized));
    }
    if let Some(t) = &args.title {
        if t.len() > MAX_TITLE {
            return Err(OpError::Rejected(DimiError::TitleTooLong));
        }
    }
    if let Some(t) = &args.tags {
        if t.len() > MAX_TAGS {
            return Err(OpError::Rejected(DimiError::TooManyTags));
        }
    }
    if let Some(v) = &args.uri {
        if v.len() > MAX_URI {
            return Err(OpError::Rejected(DimiError::UriTooLong));
        }
    }
    let ghost r0 = *reg;
    let ghost b0 = reg.beats@[i as int];
    let ghost args0 = args;
    let BeatUpdateArgs { title, bpm, musical_key, tags, uri, content_hash, content_type, byte_len }
        = args;
    if let Some(v) = title {
        reg.beats[i].title = v;
    }
    if let Some(v) = bpm {
        reg.beats[i].bpm = v;
    }
    if let Some(v) = musical_key {
        reg.beats[i].musical_key = v;
    }
    if let Some(v) = tags {
        reg.beats[i].tags = v;
    }
    if let Some(v) = uri {
        reg.beats[i].uri = v;
    }
    if let Some(v) = content_hash {
        reg.beats[i].content_hash = v;
    }
    if let Some(v) = content_type {
        reg.beats[i].content_type = v;
    }
    if let Some(v) = byte_len {
        reg.beats[i].byte_len = v;
    }
    reg.beats[i].updated_at = now;
    proof {
        assert(reg.beats@[i as int] == spec_patched(b0, args0, now));
        assert(reg.beats@ =~= r0.beats@.update(i as int, reg.beats@[i as int]));
        lemma_wf_beats_update(r0, *reg, i as int, reg.beats@[i as int]);
    }
    Ok(())
}

/// Sets a beat's `shared` flag, in either direction and even while archived;
/// owner-only, and `updated_at` is refreshed.
pub fn beat_toggle_shared(
    reg: &mut Registry,
    caller: Identity,
    ctx: BeatOwner,
    shared: bool,
    now: i64,
) -> (r: Result<(), OpError>)
    requires
        old(reg).wf(),
    ensures
        final(reg).wf(),
        old(reg).spec_beat(ctx.owner@, ctx.beat_id) is None ==> r == Err::<(), OpError>(
            OpError::MissingRecord,
        ) && *final(reg) == *old(reg),
        old(reg).spec_beat(ctx.owner@, ctx.beat_id) matches Some(b) ==> {
            &&& caller@ != ctx.owner@ ==> r == Err::<(), OpError>(
                OpError::Rejected(DimiError::Unauthorized),
            ) && *final(reg) == *old(reg)
            &&& caller@ == ctx.owner@ ==> {
                &&& r == Ok::<(), OpError>(())
                &&& final(reg).spec_beat(ctx.owner@, ctx.beat_id) == Some(
                    spec_toggled(b, shared, now),
                )
                &&& forall|o: Seq<u8>, k: u16|
                    !(o == ctx.owner@ && k == ctx.beat_id) ==> final(reg).spec_beat(o, k) == old(
                        reg,
                    ).spec_beat(o, k)
                &&& final(reg).users == old(reg).users
                &&& final(reg).tracks == old(reg).tracks
                &&& final(reg).config == old(reg).config
            }
        },
{
    let i = match reg.find_beat(&ctx.owner, ctx.beat_id) {
        None => {
            return Err(OpError::MissingRecord);
        },
        Some(i) => i,
    };
    if !caller.equals(&ctx.owner) {
        return Err(OpError::Rejected(DimiError::Unauthorized));
    }
    let ghost r0 = *reg;
    let ghost b0 = reg.beats@[i as int];
    reg.beats[i].shared = shared;
    reg.beats[i].updated_at = now;
    proof {
        assert(reg.beats@[i as int] == spec_toggled(b0, shared, now));
        assert(reg.beats@ =~= r0.beats@.update(i as int, reg.beats@[i as int]));
        lemma_wf_beats_update(r0, *reg, i as int, reg.beats@[i as int]);
    }
    Ok(())
}

/// Archives a beat: owner-only, one-way. No operation clears `archived`, so
/// re-archiving succeeds and leaves the flag set.
pub fn beat_archive(reg: &mut Registry, caller: Identity, ctx: BeatOwner, now: i64) -> (r: Result<
    (),
    OpError,
>)
    requires
        old(reg).wf(),
    ensures
        final(reg).wf(),
        old(reg).spec_beat(ctx.owner@, ctx.beat_id) is None ==> r == Err::<(), OpError>(
            OpError::MissingRecord,
        ) && *final(reg) == *old(reg),
        old(reg).spec_beat(ctx.owner@, ctx.beat_id) matches Some(b) ==> {
            &&& caller@ != ctx.owner@ ==> r == Err::<(), OpError>(
                OpError::Rejected(DimiError::Unauthorized),
            ) && *final(reg) == *old(reg)
            &&& caller@ == ctx.owner@ ==> {
                &&& r == Ok::<(), OpError>(())
                &&& final(reg).spec_beat(ctx.owner@, ctx.beat_id) == Some(spec_archived(b, now))
                &&& forall|o: Seq<u8>, k: u16|
                    !(o == ctx.owner@ && k == ctx.beat_id) ==> final(reg).spec_beat(o, k) == old(
                        reg,
                    ).spec_beat(o, k)
                &&& final(reg).users == old(reg).users
                &&& final(reg).tracks == old(reg).tracks
                &&& final(reg).config == old(reg).config
            }
        },
{
    let i = match reg.find_beat(&ctx.owner, ctx.beat_id) {
        None => {
            return Err(OpError::MissingRecord);
        },
        Some(i) => i,
    };
    if !caller.equals(&ctx.owner) {
        return Err(OpError::Rejected(DimiError::Unauthorized));
    }
    let ghost r0 = *reg;
    let ghost b0 = reg.beats@[i as int];
    reg.beats[i].archived = true;
    reg.beats[i].updated_at = now;
    proof {
        assert(reg.beats@[i as int] == spec_archived(b0, now));
        assert(reg.beats@ =~= r0.beats@.update(i as int, reg.beats@[i as int]));
        lemma_wf_beats_update(r0, *reg, i as int, reg.beats@[i as int]);
    }
    Ok(())
}

/// Creates a track against a beat. The beat must be shared or the caller's
/// own — a private beat of another owner is rejected as BeatNotShared for
/// every caller, whatever roles the caller holds. Past that, the caller must
/// hold the artist capability and the beat must not be archived; one track
/// per (beat, artist, take), duplicates find the slot occupied.
pub fn track_create(reg: &mut Registry, caller: Identity, ctx: TrackCreate, now: i64) -> (r:
    Result<(), OpError>)
    requires
        old(reg).wf(),
    ensures
        final(reg).wf(),
        old(reg).spec_user(caller@) is None ==> r == Err::<(), OpError>(OpError::MissingRecord)
            && *final(reg) == *old(reg),
        old(reg).spec_user(caller@) is Some && old(reg).spec_beat(ctx.beat_owner@, ctx.beat_id)
            is None ==> r == Err::<(), OpError>(OpError::MissingRecord) && *final(reg) == *old(reg),
        old(reg).spec_user(caller@) matches Some(u) ==> (old(reg).spec_beat(
            ctx.beat_owner@,
            ctx.beat_id,
        ) matches Some(b) ==> {
            &&& !(b.shared || ctx.beat_owner@ == caller@) ==> r == Err::<(), OpError>(
                OpError::Rejected(DimiError::BeatNotShared),
            ) && *final(reg) == *old(reg)
            &&& (b.shared || ctx.beat_owner@ == caller@) ==> {
                &&& !spec_has_role(u.roles, Role::Artist) ==> r == Err::<(), OpError>(
                    OpError::Rejected(DimiError::Unauthorized),
                ) && *final(reg) == *old(reg)
                &&& spec_has_role(u.roles, Role::Artist) && b.archived ==> r == Err::<
                    (),
                    OpError,
                >(OpError::Rejected(DimiError::BeatArchived)) && *final(reg) == *old(reg)
                &&& spec_has_role(u.roles, Role::Artist) && !b.archived ==> {
                    &&& ctx.uri@.len() > MAX_URI ==> r == Err::<(), OpError>(
                        OpError::Rejected(DimiError::UriTooLong),
                    ) && *final(reg) == *old(reg)
                    &&& ctx.uri@.len() <= MAX_URI && old(reg).spec_track(
                        spec_beat_addr(ctx.beat_owner@, ctx.beat_id),
                        caller@,
                        ctx.take,
                    ) is Some ==> r == Err::<(), OpError>(OpError::SlotOccupied) && *final(reg)
                        == *old(reg)
                    &&& ctx.uri@.len() <= MAX_URI && old(reg).spec_track(
                        spec_beat_addr(ctx.beat_owner@, ctx.beat_id),
                        caller@,
                        ctx.take,
                    ) is None ==> {
                        &&& r == Ok::<(), OpError>(())
                        &&& final(reg).spec_track(
                            spec_beat_addr(ctx.beat_owner@, ctx.beat_id),
                            caller@,
                            ctx.take,
                        ) matches Some(t) && t.beat@ == spec_beat_addr(
                            ctx.beat_owner@,
                            ctx.beat_id,
                        ) && t.artist == caller && t.take == ctx.take && t.uri == ctx.uri
                            && t.content_hash == ctx.content_hash && t.content_type
                            == ctx.content_type && t.byte_len == ctx.byte_len && t.created_at
                            == now
                        &&& forall|bk: Seq<u8>, ak: Seq<u8>, tk: u16|
                            !(bk == spec_beat_addr(ctx.beat_owner@, ctx.beat_id) && ak == caller@
                                && tk == ctx.take) ==> final(reg).spec_track(bk, ak, tk) == old(
                                reg,
                            ).spec_track(bk, ak, tk)
                        &&& final(reg).users == old(reg).users
                        &&& final(reg).beats == old(reg).beats
                        &&& final(reg).config == old(reg).config
                    }
                }
            }
        }),
{
    let u = match reg.find_user(&caller) {
        None => {
            return Err(OpError::MissingRecord);
        },
        Some(i) => i,
    };
    let b = match reg.find_beat(&ctx.beat_owner, ctx.beat_id) {
        None => {
            return Err(OpError::MissingRecord);
        },
        Some(i) => i,
    };
    if !(reg.beats[b].shared || reg.beats[b].owner.equals(&caller)) {
        return Err(OpError::Rejected(DimiError::BeatNotShared));
    }
    if !has_role(reg.users[u].roles, Role::Artist) {
        return Err(OpError::Rejected(DimiError::Unauthorized));
    }
    if reg.beats[b].archived {
        return Err(OpError::Rejected(DimiError::BeatArchived));
    }
    if ctx.uri.len() > MAX_URI {
        return Err(OpError::Rejected(DimiError::UriTooLong));
    }
    let beat_addr = derive_beat_addr(&ctx.beat_owner, ctx.beat_id);
    if reg.find_track(&beat_addr, &caller, ctx.take).is_some() {
        return Err(OpError::SlotOccupied);
    }
    let track = Track {
        beat: beat_addr,
        artist: caller,
        take: ctx.take,
        uri: ctx.uri,
        content_hash: ctx.content_hash,
        content_type: ctx.content_type,
        byte_len: ctx.byte_len,
        created_at: now,
    };
    let ghost tracks0 = reg.tracks@;
    proof {
        lemma_tracks_push(tracks0, track);
    }
    reg.tracks.push(track);
    proof {
        assert forall|j: int| 0 <= j < reg.tracks@.len() implies (
        #[trigger] reg.tracks@[j]).uri@.len() <= MAX_URI by {
            if j < tracks0.len() {
                assert(reg.tracks@[j] == tracks0[j]);
            } else {
                assert(reg.tracks@[j] == track);
            }
        }
    }
    Ok(())
}

/// Deletes a track: the caller must be the artist the slot was derived
/// under, checked before anything is touched. The slot is freed and can be
/// created again.
pub fn track_delete(reg: &mut Registry, caller: Identity, ctx: TrackDelete) -> (r: Result<
    (),
    OpError,
>)
    requires
        old(reg).wf(),
    ensures
        final(reg).wf(),
        caller@ != ctx.artist@ ==> r == Err::<(), OpError>(
            OpError::Rejected(DimiError::Unauthorized),
        ) && *final(reg) == *old(reg),
        caller@ == ctx.artist@ && old(reg).spec_track(
            spec_beat_addr(ctx.beat_owner@, ctx.beat_id),
            ctx.artist@,
            ctx.take,
        ) is None ==> r == Err::<(), OpError>(OpError::MissingRecord) && *final(reg) == *old(reg),
        caller@ == ctx.artist@ && old(reg).spec_track(
            spec_beat_addr(ctx.beat_owner@, ctx.beat_id),
            ctx.artist@,
            ctx.take,
        ) is Some ==> {
            &&& r == Ok::<(), OpError>(())
            &&& final(reg).spec_track(
                spec_beat_addr(ctx.beat_owner@, ctx.beat_id),
                ctx.artist@,
                ctx.take,
            ) is None
            &&& forall|bk: Seq<u8>, ak: Seq<u8>, tk: u16|
                !(bk == spec_beat_addr(ctx.beat_owner@, ctx.beat_id) && ak == ctx.artist@ && tk
                    == ctx.take) ==> final(reg).spec_track(bk, ak, tk) == old(reg).spec_track(
                    bk,
                    ak,
                    tk,
                )
            &&& final(reg).users == old(reg).users
            &&& final(reg).beats == old(reg).beats
            &&& final(reg).config == old(reg).config
        },
{
    if !caller.equals(&ctx.artist) {
        return Err(OpError::Rejected(DimiError::Unauthorized));
    }
    let beat_addr = derive_beat_addr(&ctx.beat_owner, ctx.beat_id);
    let i = match reg.find_track(&beat_addr, &ctx.artist, ctx.take) {
        None => {
            return Err(OpError::MissingRecord);
        },
        Some(i) => i,
    };
    let ghost tracks0 = reg.tracks@;
    proof {
        lemma_tracks_remove(tracks0, i as int);
    }
    reg.tracks.remove(i);
    proof {
        assert forall|j: int| 0 <= j < reg.tracks@.len() implies (
        #[trigger] reg.tracks@[j]).uri@.len() <= MAX_URI by {
            let j0: int = if j < i { j } else { j + 1 };
            assert(reg.tracks@[j] == tracks0[j0]);
        }
    }
    Ok(())
}

} // verus!
