use vstd::prelude::*;

verus! {

/// Byte budget for a user's display name.
pub const MAX_DISPLAY_NAME: usize = 32;
/// Byte budget for a beat title.
pub const MAX_TITLE: usize = 64;
/// Byte budget for a beat or track URI.
pub const MAX_URI: usize = 200;
/// Maximum number of tags on a beat.
pub const MAX_TAGS: usize = 6;

/// An externally authenticated caller reference. The registry never
/// authenticates: it only compares identities for equality and feeds their
/// bytes into address derivation.
#[derive(Clone, Copy, Debug)]
pub struct Identity {
    pub bytes: [u8; 32],
}

impl View for Identity {
    type V = Seq<u8>;

    open spec fn view(&self) -> Seq<u8> {
        self.bytes@
    }
}

impl Identity {
    pub fn new(bytes: [u8; 32]) -> (id: Identity)
        ensures
            id@ == bytes@,
    {
        Identity { bytes }
    }

    /// Identities are compared byte for byte.
    pub fn equals(&self, other: &Identity) -> (eq: bool)
        ensures
            eq <==> self@ == other@,
    {
        broadcast use vstd::array::group_array_axioms;

        let mut i: usize = 0;
        while i < 32
            invariant
                i <= 32,
                forall|j: int| 0 <= j < i ==> self.bytes@[j] == other.bytes@[j],
            decreases 32 - i,
        {
            if self.bytes[i] != other.bytes[i] {
                assert(self@ != other@);
                return false;
            }
            i += 1;
        }
        assert(self@ =~= other@);
        true
    }
}

/// The singleton configuration record: who administers role assignment.
/// The admin is immutable after creation.
pub struct Config {
    pub admin: Identity,
    /// Opaque byte kept with the record so its own address can be re-derived.
    pub derivation_tag: u8,
}

/// One record per registered identity.
pub struct User {
    pub authority: Identity,
    pub roles: u8,
    pub created_at: i64,
    /// Monotonic counter feeding beat identifiers; only beat creation moves it.
    pub next_beat_id: u16,
    pub display_name: Vec<u8>,
}

/// An owned content record, addressed by (owner, beat_id).
///
/// The field order is part of the record's layout: `shared` sits directly
/// after `owner`, `beat_id` and `bpm`, so raw-byte range filters over stored
/// records can select shared beats at a fixed offset without deserializing.
pub struct Beat {
    pub owner: Identity,
    pub beat_id: u16,
    pub bpm: u16,
    pub shared: bool,
    pub archived: bool,
    pub byte_len: u32,
    pub created_at: i64,
    pub updated_at: i64,
    pub musical_key: [u8; 8],
    pub content_hash: [u8; 32],
    pub content_type: [u8; 16],
    pub title: Vec<u8>,
    pub uri: Vec<u8>,
    pub tags: Vec<[u8; 16]>,
}

/// A per-performer derivative of a beat, addressed by
/// (beat address, artist, take).
pub struct Track {
    /// The derived address of the parent beat; a weak reference.
    pub beat: Vec<u8>,
    pub artist: Identity,
    pub take: u16,
    pub uri: Vec<u8>,
    pub content_hash: [u8; 32],
    pub content_type: [u8; 16],
    pub byte_len: u32,
    pub created_at: i64,
}

/// A patch for a beat: one independent optional value per mutable field.
/// Fields left `None` are untouched by an update.
pub struct BeatUpdateArgs {
    pub title: Option<Vec<u8>>,
    pub bpm: Option<u16>,
    pub musical_key: Option<[u8; 8]>,
    pub tags: Option<Vec<[u8; 16]>>,
    pub uri: Option<Vec<u8>>,
    pub content_hash: Option<[u8; 32]>,
    pub content_type: Option<[u8; 16]>,
    pub byte_len: Option<u32>,
}

impl BeatUpdateArgs {
    /// The patch that touches no field.
    pub fn none() -> (args: BeatUpdateArgs)
        ensures
            args == BeatUpdateArgs::spec_none(),
    {
        BeatUpdateArgs {
            title: None,
            bpm: None,
            musical_key: None,
            tags: None,
            uri: None,
            content_hash: None,
            content_type: None,
            byte_len: None,
        }
    }

    pub open spec fn spec_none() -> BeatUpdateArgs {
        BeatUpdateArgs {
            title: None,
            bpm: None,
            musical_key: None,
            tags: None,
            uri: None,
            content_hash: None,
            content_type: None,
            byte_len: None,
        }
    }
}

/// A display name respects its byte budget.
pub open spec fn display_name_valid(name: Seq<u8>) -> bool {
    name.len() <= MAX_DISPLAY_NAME
}

/// A beat's sized fields respect their budgets.
pub open spec fn beat_fields_valid(title: Seq<u8>, uri: Seq<u8>, tags: Seq<[u8; 16]>) -> bool {
    &&& title.len() <= MAX_TITLE
    &&& uri.len() <= MAX_URI
    &&& tags.len() <= MAX_TAGS
}

/// A stored beat respects every field budget.
pub open spec fn beat_valid(b: Beat) -> bool {
    beat_fields_valid(b.title@, b.uri@, b.tags@)
}

/// Every field of a patch that is present respects its budget.
pub open spec fn patch_valid(args: BeatUpdateArgs) -> bool {
    &&& args.title matches Some(t) ==> t@.len() <= MAX_TITLE
    &&& args.tags matches Some(t) ==> t@.len() <= MAX_TAGS
    &&& args.uri matches Some(u) ==> u@.len() <= MAX_URI
}

/// The beat a patch produces: every present field overwrites its counterpart,
/// absent fields stay, `updated_at` is refreshed unconditionally, and the
/// fields outside the patch (`owner`, `beat_id`, `shared`, `archived`,
/// `created_at`) are untouched.
pub open spec fn spec_patched(b: Beat, args: BeatUpdateArgs, now: i64) -> Beat {
    Beat {
        title: if args.title is Some { args.title->0 } else { b.title },
        bpm: if args.bpm is Some { args.bpm->0 } else { b.bpm },
        musical_key: if args.musical_key is Some { args.musical_key->0 } else { b.musical_key },
        tags: if args.tags is Some { args.tags->0 } else { b.tags },
        uri: if args.uri is Some { args.uri->0 } else { b.uri },
        content_hash: if args.content_hash is Some { args.content_hash->0 } else { b.content_hash },
        content_type: if args.content_type is Some { args.content_type->0 } else { b.content_type },
        byte_len: if args.byte_len is Some { args.byte_len->0 } else { b.byte_len },
        updated_at: now,
        ..b
    }
}

/// The beat after a sharing toggle: only `shared` and `updated_at` move.
pub open spec fn spec_toggled(b: Beat, shared: bool, now: i64) -> Beat {
    Beat { shared, updated_at: now, ..b }
}

/// The beat after archiving: `archived` is set and `updated_at` refreshed;
/// nothing ever clears `archived` again.
pub open spec fn spec_archived(b: Beat, now: i64) -> Beat {
    Beat { archived: true, updated_at: now, ..b }
}

} // verus!
