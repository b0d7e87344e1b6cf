//! The `State` type: one source's contribution to one device.
use vstd::prelude::*;
use crate::match_spec::{empty_match_view, Match, MatchView};
use crate::source::{spec_default_priority, Source};
use crate::fields::{field_entries, fields_eq, new_fields};
use crate::value::{Value, ValueModel};

verus! {

#[verifier::external_type_specification]
#[verifier::external_body]
pub struct ExUuid(uuid::Uuid);

#[verifier::external_type_specification]
#[verifier::external_body]
pub struct ExSystemTime(std::time::SystemTime);

/// The variant of a UUID (the layout its variant bits select), as
/// `uuid::Uuid::get_variant` reports it.
#[derive(Clone, Copy, Debug, PartialEq, Eq, Structural)]
pub enum UuidVariant {
    /// Reserved by the NCS for backward compatibility.
    Ncs,
    /// The layout of RFC 4122 / RFC 9562, which almost every UUID uses.
    Rfc4122,
    /// Reserved by Microsoft for backward compatibility.
    Microsoft,
    /// Reserved for future expansion.
    Future,
}

/// The version number of a UUID, as `uuid::Uuid::get_version_num` reports
/// it (the high four bits of its seventh byte). It depends on the UUID alone.
pub uninterp spec fn uuid_version(u: uuid::Uuid) -> usize;

/// The variant of a UUID, as `uuid::Uuid::get_variant` reports it. It
/// depends on the UUID alone.
pub uninterp spec fn uuid_variant(u: uuid::Uuid) -> UuidVariant;

/// `uuid::Uuid::get_version_num`: the version number of a UUID.
#[verifier::external_body]
fn version_num_of(u: &uuid::Uuid) -> (n: usize)
    ensures
        n == uuid_version(*u),
{
    u.get_version_num()
}

/// `uuid::Uuid::get_variant`: the variant of a UUID, one library variant for
/// each of the crate's. The crate's enum is open to later variants; none
/// exists beyond `Future`, which the last arm covers.
#[verifier::external_body]
fn variant_of(u: &uuid::Uuid) -> (v: UuidVariant)
    ensures
        v == uuid_variant(*u),
{
    match u.get_variant() {
        uuid::Variant::NCS => UuidVariant::Ncs,
        uuid::Variant::RFC4122 => UuidVariant::Rfc4122,
        uuid::Variant::Microsoft => UuidVariant::Microsoft,
        _ => UuidVariant::Future,
    }
}

/// `uuid::Uuid::now_v7`: a fresh UUID built from the clock and random bits.
/// Claimed: it is a version-7 UUID of the RFC 4122 variant, as the crate
/// documents for this call and its encoder writes (version bits `0111`,
/// variant bits `10`). Nothing else is stated of it: its value depends on
/// the time and on chance.
#[verifier::external_body]
fn fresh_uuid_v7() -> (u: uuid::Uuid)
    ensures
        uuid_version(u) == 7,
        uuid_variant(u) == UuidVariant::Rfc4122,
{
    uuid::Uuid::now_v7()
}

/// `std::time::SystemTime::now`: the current time. Nothing is stated of it.
#[verifier::external_body]
fn system_time_now() -> std::time::SystemTime {
    std::time::SystemTime::now()
}

/// Runtime-only bookkeeping for a [`State`]. Never part of the YAML format:
/// a fresh instance is created on every deserialization.
#[derive(Clone, Copy, Debug)]
pub struct StateMetadata {
    /// A unique in-memory handle, generated as a UUIDv7.
    pub id: uuid::Uuid,
    /// When this in-memory state object was built.
    pub created_at: std::time::SystemTime,
}

impl StateMetadata {
    /// Fresh metadata with a new UUIDv7 and the current time.
    pub fn new() -> (m: StateMetadata)
        ensures
            uuid_version(m.id) == 7,
            uuid_variant(m.id) == UuidVariant::Rfc4122,
    {
        StateMetadata { id: fresh_uuid_v7(), created_at: system_time_now() }
    }

    /// The version number of the id (7 for every id this library makes).
    pub fn id_version(&self) -> (n: usize)
        ensures
            n == uuid_version(self.id),
    {
        version_num_of(&self.id)
    }

    /// The variant of the id (RFC 4122 for every id this library makes).
    pub fn id_variant(&self) -> (v: UuidVariant)
        ensures
            v == uuid_variant(self.id),
    {
        variant_of(&self.id)
    }
}

impl Default for StateMetadata {
    fn default() -> (m: StateMetadata)
        ensures
            uuid_version(m.id) == 7,
            uuid_variant(m.id) == UuidVariant::Rfc4122,
    {
        StateMetadata::new()
    }
}

/// One source's contribution to one device.
///
/// Configuration is a plain ordered `Vec<State>`: contributions to the same
/// device coexist and are never merged, deduplicated, or rejected here.
/// Compare non-runtime model content with [`State::content_eq`].
#[derive(Clone, Debug)]
pub struct State {
    /// The technology type of the device (e.g. `"ethernet"`); empty when unknown.
    pub device_type: String,
    /// Which device this state targets.
    pub match_spec: Match,
    /// The contributed configuration, in insertion order.
    pub fields: indexmap::IndexMap<String, Value>,
    /// Which source produced this contribution.
    pub source: Source,
    /// Conflict-resolution weight: higher wins.
    pub priority: i32,
    /// Runtime-only bookkeeping.
    pub metadata: StateMetadata,
}

/// The non-runtime model content of a state: device type, selector and
/// fields (with their order).
pub struct StateContent {
    pub device_type: Seq<char>,
    pub match_spec: MatchView,
    pub fields: Seq<(Seq<char>, ValueModel)>,
}

/// The model content of a state.
pub open spec fn state_content(s: State) -> StateContent {
    StateContent { device_type: s.device_type@, match_spec: s.match_spec@, fields: field_entries(s.fields) }
}

impl State {
    /// A state with the given source, that source's default priority, fresh
    /// metadata, and no device type, match, or fields.
    pub fn new(source: Source) -> (s: State)
        ensures
            s.device_type@ == Seq::<char>::empty(),
            s.match_spec@ == empty_match_view(),
            field_entries(s.fields) == Seq::<(Seq<char>, ValueModel)>::empty(),
            s.source == source,
            s.priority == spec_default_priority(source),
            uuid_version(s.metadata.id) == 7,
            uuid_variant(s.metadata.id) == UuidVariant::Rfc4122,
    {
        let priority = source.default_priority();
        State {
            device_type: String::new(),
            match_spec: Match::empty(),
            fields: new_fields(),
            source,
            priority,
            metadata: StateMetadata::new(),
        }
    }

    /// Whether the two states carry the same non-runtime model content:
    /// `device_type`, `match_spec` and `fields` (field order included).
    /// `source`, `priority` and `metadata` are deliberately excluded.
    pub fn content_eq(&self, other: &State) -> (r: bool)
        ensures
            r == (state_content(*self) == state_content(*other)),
    {
        self.device_type.eq(&other.device_type) && self.match_spec == other.match_spec
            && fields_eq(&self.fields, &other.fields)
    }
}

/// Content equality is an equivalence: reflexive, symmetric and transitive.
pub proof fn lemma_content_eq_equivalence(a: State, b: State, c: State)
    ensures
        state_content(a) == state_content(a),
        state_content(a) == state_content(b) ==> state_content(b) == state_content(a),
        state_content(a) == state_content(b) && state_content(b) == state_content(c)
            ==> state_content(a) == state_content(c),
{
}

} // verus!
