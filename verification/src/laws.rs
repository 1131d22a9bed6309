use vstd::prelude::*;

use crate::records::{spec_archived, spec_patched, spec_toggled, Beat, BeatUpdateArgs};
use crate::registry::{beats_has, users_has, Registry};

verus! {

/// A registered owner's beat numbers are exactly those below the owner's
/// counter: strictly increasing from zero with no gaps and no repeats, and
/// after N successful creations the counter — and so the count of beats —
/// equals N.
pub proof fn lemma_beat_ids_exact(reg: Registry, owner: Seq<u8>)
    requires
        reg.wf(),
        reg.spec_user(owner) is Some,
    ensures
        forall|k: u16|
            reg.spec_beat(owner, k) is Some <==> k < reg.spec_user(owner)->0.next_beat_id,
{
    let u = reg.spec_user(owner)->0;
    let s = reg.users@;
    let j = choose|i: int| #![trigger s[i]] 0 <= i < s.len() && s[i].authority@ == owner;
    assert(s[j] == u);
    assert forall|k: u16| reg.spec_beat(owner, k) is Some <==> k < u.next_beat_id by {
        if k < u.next_beat_id {
            assert(beats_has(reg.beats@, s[j].authority@, k));
        }
        if reg.spec_beat(owner, k) is Some {
            let bs = reg.beats@;
            let jb = choose|i: int| #![trigger bs[i]]
                0 <= i < bs.len() && bs[i].owner@ == owner && bs[i].beat_id == k;
            assert(users_has(reg.users@, bs[jb].owner@));
        }
    }
}

/// An empty patch changes nothing but `updated_at`: every other field of the
/// patched beat is the original one, bit for bit.
pub proof fn lemma_empty_patch_bumps_only_updated_at(b: Beat, now: i64)
    ensures
        spec_patched(b, BeatUpdateArgs::spec_none(), now) == (Beat { updated_at: now, ..b }),
{
}

/// Archiving is idempotent in effect: after a successful archive the beat
/// still exists under its key with the same owner — so the guards of a second
/// archive by the same caller pass again — and a second archive at any time
/// produces the very record the first-state beat would have produced then,
/// with `archived` still set.
pub proof fn lemma_archive_idempotent(
    r0: Registry,
    r1: Registry,
    owner: Seq<u8>,
    beat_id: u16,
    now: i64,
)
    requires
        r0.spec_beat(owner, beat_id) is Some,
        r1.spec_beat(owner, beat_id) == Some(spec_archived(r0.spec_beat(owner, beat_id)->0, now)),
    ensures
        r1.spec_beat(owner, beat_id) is Some,
        r1.spec_beat(owner, beat_id)->0.archived,
        r1.spec_beat(owner, beat_id)->0.owner == r0.spec_beat(owner, beat_id)->0.owner,
        forall|now2: i64|
            spec_archived(#[trigger] spec_archived(r0.spec_beat(owner, beat_id)->0, now), now2)
                == spec_archived(r0.spec_beat(owner, beat_id)->0, now2),
{
}

/// The fields a patch cannot carry are immutable through an update: owner,
/// number, sharing state, archive state and creation time survive any patch.
pub proof fn lemma_patch_preserves_fixed_fields(b: Beat, args: BeatUpdateArgs, now: i64)
    ensures
        spec_patched(b, args, now).owner == b.owner,
        spec_patched(b, args, now).beat_id == b.beat_id,
        spec_patched(b, args, now).shared == b.shared,
        spec_patched(b, args, now).archived == b.archived,
        spec_patched(b, args, now).created_at == b.created_at,
{
}

/// The sharing flag and the archive flag move independently: a toggle never
/// touches `archived` — sharing stays reversible while archived — and
/// archiving never touches `shared`.
pub proof fn lemma_sharing_and_archiving_independent(b: Beat, shared: bool, now: i64)
    ensures
        spec_toggled(b, shared, now).archived == b.archived,
        spec_archived(b, now).shared == b.shared,
{
}

} // verus!
