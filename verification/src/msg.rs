//! Representations that may cross a process boundary, and their run-time
//! classifiers.

use crate::schema::{compose_schema, rotate64, schema_id, SchemaKey};
use vstd::prelude::*;

verus! {

pub type TypeId = u64;

/// A value whose initialized representation may cross a process boundary.
///
/// The key identifies one stable representation across every admitted build.
/// Every observable byte is initialized, and a value holds no process-local
/// pointer, reference, handle or other local authority.
pub trait Repr: Send + 'static {
    spec fn repr_spec() -> SchemaKey;

    fn repr_schema() -> (key: SchemaKey)
        ensures
            key == Self::repr_spec(),
    ;
}

/// The first revision of a named representation.
pub open spec fn named(name: &str) -> SchemaKey {
    SchemaKey { id: crate::schema::schema_id_spec(name), revision: 1 }
}

fn named_schema(name: &str) -> (key: SchemaKey)
    ensures
        key == named(name),
{
    SchemaKey::new(schema_id(name), 1)
}

impl Repr for u8 {
    open spec fn repr_spec() -> SchemaKey {
        named("core.u8")
    }

    fn repr_schema() -> (key: SchemaKey) {
        named_schema("core.u8")
    }
}

impl Repr for u16 {
    open spec fn repr_spec() -> SchemaKey {
        named("core.u16")
    }

    fn repr_schema() -> (key: SchemaKey) {
        named_schema("core.u16")
    }
}

impl Repr for u32 {
    open spec fn repr_spec() -> SchemaKey {
        named("core.u32")
    }

    fn repr_schema() -> (key: SchemaKey) {
        named_schema("core.u32")
    }
}

impl Repr for u64 {
    open spec fn repr_spec() -> SchemaKey {
        named("core.u64")
    }

    fn repr_schema() -> (key: SchemaKey) {
        named_schema("core.u64")
    }
}

impl Repr for i8 {
    open spec fn repr_spec() -> SchemaKey {
        named("core.i8")
    }

    fn repr_schema() -> (key: SchemaKey) {
        named_schema("core.i8")
    }
}

impl Repr for i16 {
    open spec fn repr_spec() -> SchemaKey {
        named("core.i16")
    }

    fn repr_schema() -> (key: SchemaKey) {
        named_schema("core.i16")
    }
}

impl Repr for i32 {
    open spec fn repr_spec() -> SchemaKey {
        named("core.i32")
    }

    fn repr_schema() -> (key: SchemaKey) {
        named_schema("core.i32")
    }
}

impl Repr for i64 {
    open spec fn repr_spec() -> SchemaKey {
        named("core.i64")
    }

    fn repr_schema() -> (key: SchemaKey) {
        named_schema("core.i64")
    }
}

impl Repr for bool {
    open spec fn repr_spec() -> SchemaKey {
        named("core.bool")
    }

    fn repr_schema() -> (key: SchemaKey) {
        named_schema("core.bool")
    }
}

impl Repr for () {
    open spec fn repr_spec() -> SchemaKey {
        named("core.unit")
    }

    fn repr_schema() -> (key: SchemaKey) {
        named_schema("core.unit")
    }
}

impl<T: Repr> Repr for [T] {
    open spec fn repr_spec() -> SchemaKey {
        crate::schema::compose_spec(named("evering.slice"), T::repr_spec())
    }

    fn repr_schema() -> (key: SchemaKey) {
        compose_schema(named_schema("evering.slice"), T::repr_schema())
    }
}

/// The protocol domain of payloads that are classified at run time. Only a
/// block that is being encoded makes this marker.
#[derive(Clone, Copy, Debug, PartialEq, Eq)]
pub struct Encoded(pub(crate) ());

impl Encoded {
    /// The stable classifier of `T` under `schema`.
    pub fn id<T: Repr + ?Sized>(schema: SchemaKey) -> (id: TypeId)
        ensures
            id == encoded_id::<T>(schema),
    {
        type_id_for(compose_schema(Self::repr_schema(), schema), T::repr_schema())
    }
}

pub open spec fn encoded_id<T: Repr + ?Sized>(schema: SchemaKey) -> TypeId {
    type_id_spec(crate::schema::compose_spec(Encoded::repr_spec(), schema), T::repr_spec())
}

impl Repr for Encoded {
    open spec fn repr_spec() -> SchemaKey {
        SchemaKey { id: crate::schema::schema_id_spec("evering.encoded"), revision: 2 }
    }

    fn repr_schema() -> (key: SchemaKey) {
        SchemaKey::new(schema_id("evering.encoded"), 2)
    }
}

/// The classifier of a body inside a protocol.
pub open spec fn type_id_spec(protocol: SchemaKey, body: SchemaKey) -> TypeId {
    (crate::schema::schema_id_spec("evering.type").0 ^ crate::schema::rotl64(protocol.id.0, 7)
        ^ crate::schema::rotl64(protocol.revision as u64, 19) ^ crate::schema::rotl64(
        body.id.0,
        31,
    ) ^ crate::schema::rotl64(body.revision as u64, 47)).wrapping_mul(crate::schema::MIX)
}

pub fn type_id_for(protocol: SchemaKey, body: SchemaKey) -> (id: TypeId)
    ensures
        id == type_id_spec(protocol, body),
{
    let domain = schema_id("evering.type");
    (domain.0 ^ rotate64(protocol.id.0, 7) ^ rotate64(protocol.revision as u64, 19) ^ rotate64(
        body.id.0,
        31,
    ) ^ rotate64(body.revision as u64, 47)).wrapping_mul(crate::schema::MIX)
}

/// The run-time classifier of `T` under the protocol `P`.
pub fn type_id<P: Repr + ?Sized, T: Repr + ?Sized>() -> (id: TypeId)
    ensures
        id == type_id_spec(P::repr_spec(), T::repr_spec()),
{
    type_id_for(P::repr_schema(), T::repr_schema())
}

/// Two protocols of one revision never classify one body alike.
pub proof fn law_protocol_scopes_body_identity(
    first: u64,
    second: u64,
    revision: u32,
    body: SchemaKey,
)
    requires
        first != second,
    ensures
        type_id_spec((SchemaKey { id: crate::schema::SchemaId(first), revision }), body)
            != type_id_spec((SchemaKey { id: crate::schema::SchemaId(second), revision }), body),
{
    let domain = crate::schema::schema_id_spec("evering.type").0;
    let r = crate::schema::rotl64(revision as u64, 19);
    let i = crate::schema::rotl64(body.id.0, 31);
    let v = crate::schema::rotl64(body.revision as u64, 47);
    assert(domain ^ ((first << 7) | (first >> 57)) ^ r ^ i ^ v != domain ^ ((second << 7) | (second
        >> 57)) ^ r ^ i ^ v) by (bit_vector)
        requires
            first != second,
    ;
    crate::schema::lemma_mix_is_injective(
        domain ^ crate::schema::rotl64(first, 7) ^ r ^ i ^ v,
        domain ^ crate::schema::rotl64(second, 7) ^ r ^ i ^ v,
    );
}

/// Two bodies of one revision are never classified alike under one protocol.
pub proof fn law_body_schema_changes_identity(
    protocol: SchemaKey,
    first: u64,
    second: u64,
    revision: u32,
)
    requires
        first != second,
    ensures
        type_id_spec(protocol, (SchemaKey { id: crate::schema::SchemaId(first), revision }))
            != type_id_spec(
            protocol,
            (SchemaKey { id: crate::schema::SchemaId(second), revision }),
        ),
{
    let domain = crate::schema::schema_id_spec("evering.type").0;
    let p = crate::schema::rotl64(protocol.id.0, 7);
    let r = crate::schema::rotl64(protocol.revision as u64, 19);
    let v = crate::schema::rotl64(revision as u64, 47);
    assert(domain ^ p ^ r ^ ((first << 31) | (first >> 33)) ^ v != domain ^ p ^ r ^ ((second << 31)
        | (second >> 33)) ^ v) by (bit_vector)
        requires
            first != second,
    ;
    crate::schema::lemma_mix_is_injective(
        domain ^ p ^ r ^ crate::schema::rotl64(first, 31) ^ v,
        domain ^ p ^ r ^ crate::schema::rotl64(second, 31) ^ v,
    );
}

/// Two revisions of one protocol, and two of one body, are never classified alike.
pub proof fn law_revisions_change_identity(protocol: u64, body: u64, first: u32, second: u32, kept: u32)
    requires
        first != second,
    ensures
        type_id_spec(
            (SchemaKey { id: crate::schema::SchemaId(protocol), revision: first }),
            (SchemaKey { id: crate::schema::SchemaId(body), revision: kept }),
        ) != type_id_spec(
            (SchemaKey { id: crate::schema::SchemaId(protocol), revision: second }),
            (SchemaKey { id: crate::schema::SchemaId(body), revision: kept }),
        ),
        type_id_spec(
            (SchemaKey { id: crate::schema::SchemaId(protocol), revision: kept }),
            (SchemaKey { id: crate::schema::SchemaId(body), revision: first }),
        ) != type_id_spec(
            (SchemaKey { id: crate::schema::SchemaId(protocol), revision: kept }),
            (SchemaKey { id: crate::schema::SchemaId(body), revision: second }),
        ),
{
    let domain = crate::schema::schema_id_spec("evering.type").0;
    let p = crate::schema::rotl64(protocol, 7);
    let b = crate::schema::rotl64(body, 31);
    let kp = crate::schema::rotl64(kept as u64, 19);
    let kb = crate::schema::rotl64(kept as u64, 47);
    let f = first as u64;
    let s = second as u64;
    assert(domain ^ p ^ ((f << 19) | (f >> 45)) ^ b ^ kb != domain ^ p ^ ((s << 19) | (s >> 45)) ^ b
        ^ kb) by (bit_vector)
        requires
            f != s,
    ;
    crate::schema::lemma_mix_is_injective(
        domain ^ p ^ crate::schema::rotl64(f, 19) ^ b ^ kb,
        domain ^ p ^ crate::schema::rotl64(s, 19) ^ b ^ kb,
    );
    assert(domain ^ p ^ kp ^ b ^ ((f << 47) | (f >> 17)) != domain ^ p ^ kp ^ b ^ ((s << 47) | (s
        >> 17))) by (bit_vector)
        requires
            f != s,
    ;
    crate::schema::lemma_mix_is_injective(
        domain ^ p ^ kp ^ b ^ crate::schema::rotl64(f, 47),
        domain ^ p ^ kp ^ b ^ crate::schema::rotl64(s, 47),
    );
}

/// Payloads that are classified at run time are told apart by the schema that they
/// are classified under.
pub proof fn law_encoded_schemas_change_identity<T: Repr + ?Sized>(
    first: u64,
    second: u64,
    revision: u32,
)
    requires
        first != second,
    ensures
        encoded_id::<T>((SchemaKey { id: crate::schema::SchemaId(first), revision }))
            != encoded_id::<T>((SchemaKey { id: crate::schema::SchemaId(second), revision })),
{
    let domain = Encoded::repr_spec();
    let one = crate::schema::compose_spec(
        domain,
        (SchemaKey { id: crate::schema::SchemaId(first), revision }),
    );
    let other = crate::schema::compose_spec(
        domain,
        (SchemaKey { id: crate::schema::SchemaId(second), revision }),
    );
    crate::schema::law_child_identity_changes_composite_key(domain, first, second, revision);
    assert(one.revision == other.revision);
    assert(one.id.0 != other.id.0);
    law_protocol_scopes_body_identity(one.id.0, other.id.0, one.revision, T::repr_spec());
}

} // verus!
