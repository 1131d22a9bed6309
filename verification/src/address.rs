use vstd::prelude::*;

verus! {

/// Namespace tag of the configuration singleton's slot.
pub const TAG_CONFIG: u8 = 0;
/// Namespace tag of user slots.
pub const TAG_USER: u8 = 1;
/// Namespace tag of beat slots.
pub const TAG_BEAT: u8 = 2;
/// Namespace tag of track slots.
pub const TAG_TRACK: u8 = 3;

/// A 16-bit key field, little-endian.
pub open spec fn spec_le16(x: u16) -> Seq<u8> {
    seq![(x % 256) as u8, (x / 256) as u8]
}

/// The configuration singleton's slot: the bare namespace tag.
pub open spec fn spec_config_addr() -> Seq<u8> {
    seq![TAG_CONFIG]
}

/// A user slot: tag plus the identity's bytes.
pub open spec fn spec_user_addr(authority: Seq<u8>) -> Seq<u8> {
    seq![TAG_USER] + authority
}

/// A beat slot: tag, owner identity, little-endian beat number.
pub open spec fn spec_beat_addr(owner: Seq<u8>, beat_id: u16) -> Seq<u8> {
    seq![TAG_BEAT] + owner + spec_le16(beat_id)
}

/// A track slot: tag, the parent beat's slot, artist identity,
/// little-endian take number.
pub open spec fn spec_track_addr(beat_addr: Seq<u8>, artist: Seq<u8>, take: u16) -> Seq<u8> {
    seq![TAG_TRACK] + beat_addr + artist + spec_le16(take)
}

/// The configuration singleton's slot.
pub fn derive_config_addr() -> (addr: Vec<u8>)
    ensures
        addr@ == spec_config_addr(),
{
    let mut addr: Vec<u8> = Vec::new();
    addr.push(TAG_CONFIG);
    assert(addr@ =~= spec_config_addr());
    addr
}

/// The slot of the user record owned by `authority`.
pub fn derive_user_addr(authority: &crate::records::Identity) -> (addr: Vec<u8>)
    ensures
        addr@ == spec_user_addr(authority@),
{
    broadcast use vstd::array::group_array_axioms;

    let mut addr: Vec<u8> = Vec::new();
    addr.push(TAG_USER);
    push_identity(&mut addr, authority);
    assert(addr@ =~= spec_user_addr(authority@));
    addr
}

/// The slot of the beat `(owner, beat_id)`.
pub fn derive_beat_addr(owner: &crate::records::Identity, beat_id: u16) -> (addr: Vec<u8>)
    ensures
        addr@ == spec_beat_addr(owner@, beat_id),
{
    broadcast use vstd::array::group_array_axioms;

    let mut addr: Vec<u8> = Vec::new();
    addr.push(TAG_BEAT);
    push_identity(&mut addr, owner);
    push_le16(&mut addr, beat_id);
    assert(addr@ =~= spec_beat_addr(owner@, beat_id));
    addr
}

/// The slot of the track `(beat, artist, take)`, keyed by the parent beat's
/// already-derived slot.
pub fn derive_track_addr(
    beat_addr: &Vec<u8>,
    artist: &crate::records::Identity,
    take: u16,
) -> (addr: Vec<u8>)
    ensures
        addr@ == spec_track_addr(beat_addr@, artist@, take),
{
    broadcast use vstd::array::group_array_axioms;

    let mut addr: Vec<u8> = Vec::new();
    addr.push(TAG_TRACK);
    let mut i: usize = 0;
    while i < beat_addr.len()
        invariant
            i <= beat_addr@.len(),
            addr@ == seq![TAG_TRACK] + beat_addr@.take(i as int),
        decreases beat_addr@.len() - i,
    {
        addr.push(beat_addr[i]);
        i += 1;
        assert(addr@ =~= seq![TAG_TRACK] + beat_addr@.take(i as int));
    }
    assert(beat_addr@.take(beat_addr@.len() as int) =~= beat_addr@);
    push_identity(&mut addr, artist);
    push_le16(&mut addr, take);
    assert(addr@ =~= spec_track_addr(beat_addr@, artist@, take));
    addr
}

/// Appends an identity's 32 bytes.
fn push_identity(addr: &mut Vec<u8>, id: &crate::records::Identity)
    ensures
        final(addr)@ == old(addr)@ + id@,
{
    broadcast use vstd::array::group_array_axioms;

    let mut i: usize = 0;
    while i < 32
        invariant
            i <= 32,
            id@.len() == 32,
            addr@ == old(addr)@ + id@.take(i as int),
        decreases 32 - i,
    {
        addr.push(id.bytes[i]);
        i += 1;
        assert(addr@ =~= old(addr)@ + id@.take(i as int));
    }
    assert(id@.take(32) =~= id@);
}

/// Appends a 16-bit key field, little-endian.
fn push_le16(addr: &mut Vec<u8>, x: u16)
    ensures
        final(addr)@ == old(addr)@ + spec_le16(x),
{
    addr.push((x % 256) as u8);
    addr.push((x / 256) as u8);
    assert(addr@ =~= old(addr)@ + spec_le16(x));
}

/// Little-endian encoding of a 16-bit field loses nothing.
pub proof fn lemma_le16_injective(x: u16, y: u16)
    ensures
        spec_le16(x) == spec_le16(y) ==> x == y,
{
    if spec_le16(x) == spec_le16(y) {
        assert(spec_le16(x)[0] == spec_le16(y)[0]);
        assert(spec_le16(x)[1] == spec_le16(y)[1]);
        assert(x % 256 == y % 256);
        assert(x / 256 == y / 256);
        assert(x == 256 * (x / 256) + x % 256);
        assert(y == 256 * (y / 256) + y % 256);
    }
}

/// Two user slots coincide only for the same identity.
pub proof fn lemma_user_addr_injective(a1: Seq<u8>, a2: Seq<u8>)
    requires
        a1.len() == 32,
        a2.len() == 32,
        spec_user_addr(a1) == spec_user_addr(a2),
    ensures
        a1 == a2,
{
    assert forall|i: int| 0 <= i < 32 implies a1[i] == a2[i] by {
        assert(spec_user_addr(a1)[i + 1] == a1[i]);
        assert(spec_user_addr(a2)[i + 1] == a2[i]);
    }
    assert(a1 =~= a2);
}

/// Two beat slots coincide only for the same owner and beat number.
pub proof fn lemma_beat_addr_injective(o1: Seq<u8>, k1: u16, o2: Seq<u8>, k2: u16)
    requires
        o1.len() == 32,
        o2.len() == 32,
        spec_beat_addr(o1, k1) == spec_beat_addr(o2, k2),
    ensures
        o1 == o2,
        k1 == k2,
{
    let s1 = spec_beat_addr(o1, k1);
    let s2 = spec_beat_addr(o2, k2);
    assert forall|i: int| 0 <= i < 32 implies o1[i] == o2[i] by {
        assert(s1[i + 1] == o1[i]);
        assert(s2[i + 1] == o2[i]);
    }
    assert(o1 =~= o2);
    assert(s1[33] == spec_le16(k1)[0] && s2[33] == spec_le16(k2)[0]);
    assert(s1[34] == spec_le16(k1)[1] && s2[34] == spec_le16(k2)[1]);
    assert(spec_le16(k1) =~= spec_le16(k2));
    lemma_le16_injective(k1, k2);
}

/// Two track slots coincide only for the same beat slot, artist and take,
/// provided the beat slots have the fixed beat-slot length.
pub proof fn lemma_track_addr_injective(
    b1: Seq<u8>,
    a1: Seq<u8>,
    t1: u16,
    b2: Seq<u8>,
    a2: Seq<u8>,
    t2: u16,
)
    requires
        b1.len() == 35,
        b2.len() == 35,
        a1.len() == 32,
        a2.len() == 32,
        spec_track_addr(b1, a1, t1) == spec_track_addr(b2, a2, t2),
    ensures
        b1 == b2,
        a1 == a2,
        t1 == t2,
{
    let s1 = spec_track_addr(b1, a1, t1);
    let s2 = spec_track_addr(b2, a2, t2);
    assert forall|i: int| 0 <= i < 35 implies b1[i] == b2[i] by {
        assert(s1[i + 1] == b1[i]);
        assert(s2[i + 1] == b2[i]);
    }
    assert(b1 =~= b2);
    assert forall|i: int| 0 <= i < 32 implies a1[i] == a2[i] by {
        assert(s1[i + 36] == a1[i]);
        assert(s2[i + 36] == a2[i]);
    }
    assert(a1 =~= a2);
    assert(s1[68] == spec_le16(t1)[0] && s2[68] == spec_le16(t2)[0]);
    assert(s1[69] == spec_le16(t1)[1] && s2[69] == spec_le16(t2)[1]);
    assert(spec_le16(t1) =~= spec_le16(t2));
    lemma_le16_injective(t1, t2);
}

/// Slots of distinct record kinds never collide: the namespace tag is the
/// first byte of every slot and differs between the four kinds.
pub proof fn lemma_namespaces_disjoint(a: Seq<u8>, o: Seq<u8>, k: u16, b: Seq<u8>, ar: Seq<u8>, t: u16)
    ensures
        spec_config_addr() != spec_user_addr(a),
        spec_config_addr() != spec_beat_addr(o, k),
        spec_config_addr() != spec_track_addr(b, ar, t),
        spec_user_addr(a) != spec_beat_addr(o, k),
        spec_user_addr(a) != spec_track_addr(b, ar, t),
        spec_beat_addr(o, k) != spec_track_addr(b, ar, t),
{
    assert(spec_config_addr()[0] == TAG_CONFIG);
    assert(spec_user_addr(a)[0] == TAG_USER);
    assert(spec_beat_addr(o, k)[0] == TAG_BEAT);
    assert(spec_track_addr(b, ar, t)[0] == TAG_TRACK);
}

} // verus!
