//! Identity of regions, layouts and shared representations.

use vstd::prelude::*;
#[allow(unused_imports)]
use vstd::string::*;

verus! {

/// Identity of one mapped region.
#[derive(Clone, Copy, Debug, PartialEq, Eq, Structural)]
pub struct RegionId {
    pub high: u64,
    pub low: u64,
}

impl RegionId {
    pub fn new(high: u64, low: u64) -> (id: Self)
        ensures
            id == (RegionId { high, low }),
    {
        Self { high, low }
    }
}

impl Default for RegionId {
    fn default() -> (id: Self)
        ensures
            id == (RegionId { high: 0, low: 0 }),
    {
        RegionId { high: 0, low: 0 }
    }
}

/// A layout, named by its region and the offset of its header there.
#[derive(Clone, Copy, Debug, PartialEq, Eq, Structural)]
pub struct LayoutId {
    pub region: RegionId,
    pub offset: u64,
}

/// How a mapping relates to the identity of its region.
#[derive(Clone, Copy, Debug, PartialEq, Eq, Structural)]
pub enum RegionAdmission {
    Create(RegionId),
    Expect(RegionId),
    Discover,
}

#[derive(Clone, Copy, Debug, PartialEq, Eq, Structural)]
pub struct SchemaId(pub u64);

/// A representation and the revision of it.
#[derive(Clone, Copy, Debug, PartialEq, Eq, Structural)]
pub struct SchemaKey {
    pub id: SchemaId,
    pub revision: u32,
}

impl SchemaKey {
    pub fn new(id: SchemaId, revision: u32) -> (key: Self)
        ensures
            key == (SchemaKey { id, revision }),
    {
        Self { id, revision }
    }
}

/// A type whose shared representation has a key.
pub trait SharedSchema {
    spec fn schema_spec() -> SchemaKey;

    fn schema() -> (key: SchemaKey)
        ensures
            key == Self::schema_spec(),
    ;
}

/// A fully initialized value that is stored beside a layout and compared when
/// the layout is admitted. It holds no process-local pointer or handle.
pub trait LayoutInfo: SharedSchema + Sized {
    /// Whether two recorded values are the same.
    fn same(&self, other: &Self) -> (same: bool)
        ensures
            same == (*self == *other),
    ;
}

/// Where a layout is admitted, and whether it may be initialized there.
#[derive(Clone, Copy, Debug)]
pub struct LayoutContext {
    pub region: RegionId,
    pub offset: u64,
    pub allow_init: bool,
}

pub const FNV_OFFSET: u64 = 0xcbf29ce484222325;

pub const FNV_PRIME: u64 = 0x100000001b3;

pub const MIX: u64 = 0x9E3779B97F4A7C15;

pub const MIX_REVISION: u32 = 0x9E3779B9;

/// The hash of the first bytes, with one more byte folded in at a time: FNV-1a
/// over 64 bits.
pub open spec fn fnv(bytes: Seq<u8>) -> u64
    decreases bytes.len(),
{
    if bytes.len() == 0 {
        FNV_OFFSET
    } else {
        (fnv(bytes.drop_last()) ^ (bytes.last() as u64)).wrapping_mul(FNV_PRIME)
    }
}

/// The stable identity of a schema name.
pub open spec fn schema_id_spec(name: &str) -> SchemaId {
    SchemaId(fnv(name.spec_bytes()))
}

pub fn schema_id(name: &str) -> (id: SchemaId)
    ensures
        id == schema_id_spec(name),
{
    let mut hash: u64 = FNV_OFFSET;
    let bytes = name.as_bytes();
    let mut i: usize = 0;
    while i < bytes.len()
        invariant
            i <= bytes@.len(),
            hash == fnv(bytes@.take(i as int)),
        decreases bytes@.len() - i,
    {
        hash = (hash ^ (bytes[i] as u64)).wrapping_mul(FNV_PRIME);
        assert(bytes@.take(i + 1).drop_last() =~= bytes@.take(i as int));
        i = i + 1;
    }
    assert(bytes@.take(i as int) =~= bytes@);
    SchemaId(hash)
}

/// `x` turned left by `n` of its 64 bits.
pub open spec fn rotl64(x: u64, n: u64) -> u64 {
    (x << n) | (x >> ((64 - n) as u64))
}

pub open spec fn rotl32(x: u32, n: u32) -> u32 {
    (x << n) | (x >> ((32 - n) as u32))
}

pub fn rotate64(x: u64, n: u64) -> (r: u64)
    requires
        0 < n < 64,
    ensures
        r == rotl64(x, n),
{
    (x << n) | (x >> (64 - n))
}

pub fn rotate32(x: u32, n: u32) -> (r: u32)
    requires
        0 < n < 32,
    ensures
        r == rotl32(x, n),
{
    (x << n) | (x >> (32 - n))
}

pub open spec fn compose_spec(domain: SchemaKey, part: SchemaKey) -> SchemaKey {
    SchemaKey {
        id: SchemaId(
            (domain.id.0 ^ rotl64(part.id.0, 17) ^ rotl64(part.revision as u64, 41)).wrapping_mul(
                MIX,
            ),
        ),
        revision: rotl32(domain.revision, 7).wrapping_mul(MIX_REVISION) ^ part.revision,
    }
}

/// The key of `part` inside `domain`.
pub fn compose_schema(domain: SchemaKey, part: SchemaKey) -> (key: SchemaKey)
    ensures
        key == compose_spec(domain, part),
{
    let id = SchemaId(
        (domain.id.0 ^ rotate64(part.id.0, 17) ^ rotate64(
            part.revision as u64,
            41,
        )).wrapping_mul(MIX),
    );
    let revision: u32 = rotate32(domain.revision, 7).wrapping_mul(MIX_REVISION) ^ part.revision;
    SchemaKey::new(id, revision)
}

/// The key of a number inside `domain`.
pub fn compose_const(domain: SchemaKey, value: u64) -> (key: SchemaKey)
    ensures
        key == compose_spec(domain, (SchemaKey { id: SchemaId(value), revision: 0 })),
{
    compose_schema(domain, SchemaKey::new(SchemaId(value), 0))
}

impl SharedSchema for () {
    open spec fn schema_spec() -> SchemaKey {
        SchemaKey { id: schema_id_spec("evering.unit"), revision: 1 }
    }

    fn schema() -> (key: SchemaKey) {
        SchemaKey::new(schema_id("evering.unit"), 1)
    }
}

impl LayoutInfo for () {
    fn same(&self, other: &Self) -> (same: bool) {
        true
    }
}

/// Two revisions of one part never share a key inside a domain.
pub proof fn law_child_revision_changes_composite_key(
    domain: SchemaKey,
    part: SchemaId,
    first: u32,
    second: u32,
)
    requires
        first != second,
    ensures
        compose_spec(domain, (SchemaKey { id: part, revision: first })) != compose_spec(
            domain,
            (SchemaKey { id: part, revision: second }),
        ),
{
    let mixed = rotl32(domain.revision, 7).wrapping_mul(MIX_REVISION);
    assert(mixed ^ first != mixed ^ second) by (bit_vector)
        requires
            first != second,
    ;
}

/// Two parts of one revision never share a key inside a domain.
pub proof fn law_child_identity_changes_composite_key(
    domain: SchemaKey,
    first: u64,
    second: u64,
    revision: u32,
)
    requires
        first != second,
    ensures
        compose_spec(domain, (SchemaKey { id: SchemaId(first), revision })) != compose_spec(
            domain,
            (SchemaKey { id: SchemaId(second), revision }),
        ),
{
    let base = domain.id.0;
    let turned = rotl64(revision as u64, 41);
    let a = base ^ rotl64(first, 17) ^ turned;
    let b = base ^ rotl64(second, 17) ^ turned;
    assert(base ^ ((first << 17) | (first >> 47)) ^ turned != base ^ ((second << 17) | (second
        >> 47)) ^ turned) by (bit_vector)
        requires
            first != second,
    ;
    lemma_mix_is_injective(a, b);
}

/// Multiplying by the odd mixing constant loses nothing.
pub proof fn lemma_mix_is_injective(a: u64, b: u64)
    requires
        a != b,
    ensures
        a.wrapping_mul(MIX) != b.wrapping_mul(MIX),
{
    lemma_mix_inverse(a);
    lemma_mix_inverse(b);
}

proof fn lemma_mix_inverse(a: u64)
    ensures
        (a.wrapping_mul(MIX) as int * 0xF1DE83E19937733D) % 0x10000000000000000 == a,
{
    let size: int = 0x10000000000000000;
    let inverse: int = 0xF1DE83E19937733D;
    let mix: int = MIX as int;
    let product: int = a as int * mix;
    assert(a.wrapping_mul(MIX) as int == product % size);
    vstd::arithmetic::div_mod::lemma_mul_mod_noop_left(product, inverse, size);
    assert(product * inverse == a as int * (mix * inverse)) by (nonlinear_arith)
        requires
            product == a as int * mix,
    ;
    assert((mix * inverse) % size == 1);
    vstd::arithmetic::div_mod::lemma_mul_mod_noop_right(a as int, mix * inverse, size);
    assert((a as int * 1) % size == a);
}

/// Turning a word left moves each of its bits up, and those at the top to the
/// bottom: the lowest bit comes to lie at the place that the word was turned by,
/// the highest one below it, and turning it the rest of the way gives it back.
pub proof fn law_turning_moves_bits_up(x: u64, n: u64, y: u32, m: u32)
    requires
        0 < n < 64,
        0 < m < 32,
    ensures
        (rotl64(x, n) >> n) & 1 == x & 1,
        (rotl64(x, n) >> ((n - 1) as u64)) & 1 == x >> 63,
        rotl64(rotl64(x, n), (64 - n) as u64) == x,
        (rotl32(y, m) >> m) & 1 == y & 1,
        (rotl32(y, m) >> ((m - 1) as u32)) & 1 == y >> 31,
        rotl32(rotl32(y, m), (32 - m) as u32) == y,
{
    let k = (64 - n) as u64;
    let l = (n - 1) as u64;
    assert((((x << n) | (x >> k)) >> n) & 1 == x & 1 && (((x << n) | (x >> k)) >> l) & 1 == x >> 63
        && (((x << n) | (x >> k)) << k) | (((x << n) | (x >> k)) >> n) == x) by (bit_vector)
        requires
            0 < n < 64,
            k == 64 - n,
            l == n - 1,
    ;
    assert((64 - k) as u64 == n);
    let j = (32 - m) as u32;
    let i = (m - 1) as u32;
    assert((((y << m) | (y >> j)) >> m) & 1 == y & 1 && (((y << m) | (y >> j)) >> i) & 1 == y >> 31
        && (((y << m) | (y >> j)) << j) | (((y << m) | (y >> j)) >> m) == y) by (bit_vector)
        requires
            0 < m < 32,
            j == 32 - m,
            i == m - 1,
    ;
    assert((32 - j) as u32 == m);
}

/// Two domains never share the key of a part, whether they differ in their
/// identity or in their revision.
pub proof fn law_domains_change_composite_key(
    first: u64,
    second: u64,
    revision: u32,
    other: u32,
    part: SchemaKey,
)
    ensures
        first != second ==> compose_spec(
            (SchemaKey { id: SchemaId(first), revision }),
            part,
        ) != compose_spec((SchemaKey { id: SchemaId(second), revision: other }), part),
        revision != other ==> compose_spec(
            (SchemaKey { id: SchemaId(first), revision }),
            part,
        ) != compose_spec((SchemaKey { id: SchemaId(second), revision: other }), part),
{
    let identity = rotl64(part.id.0, 17);
    let turned = rotl64(part.revision as u64, 41);
    if first != second {
        let a = first ^ identity ^ turned;
        let b = second ^ identity ^ turned;
        assert(first ^ identity ^ turned != second ^ identity ^ turned) by (bit_vector)
            requires
                first != second,
        ;
        lemma_mix_is_injective(a, b);
    }
    if revision != other {
        law_turning_moves_bits_up(0, 1, revision, 7);
        law_turning_moves_bits_up(0, 1, other, 7);
        let a = rotl32(revision, 7);
        let b = rotl32(other, 7);
        assert(a != b);
        lemma_revision_inverse(a);
        lemma_revision_inverse(b);
        let c = a.wrapping_mul(MIX_REVISION);
        let d = b.wrapping_mul(MIX_REVISION);
        let last = part.revision;
        assert(c ^ last != d ^ last) by (bit_vector)
            requires
                c != d,
        ;
    }
}

/// Multiplying a revision by the odd mixing constant loses nothing.
proof fn lemma_revision_inverse(a: u32)
    ensures
        (a.wrapping_mul(MIX_REVISION) as int * 0x144CBC89) % 0x100000000 == a,
{
    let size: int = 0x100000000;
    let inverse: int = 0x144CBC89;
    let mix: int = MIX_REVISION as int;
    let product: int = a as int * mix;
    assert(a.wrapping_mul(MIX_REVISION) as int == product % size);
    vstd::arithmetic::div_mod::lemma_mul_mod_noop_left(product, inverse, size);
    assert(product * inverse == a as int * (mix * inverse)) by (nonlinear_arith)
        requires
            product == a as int * mix,
    ;
    assert((mix * inverse) % size == 1);
    vstd::arithmetic::div_mod::lemma_mul_mod_noop_right(a as int, mix * inverse, size);
    assert((a as int * 1) % size == a);
}

/// Names that differ in their last byte alone have different identities, and a
/// byte of zeros at the end multiplies the identity once more.
pub proof fn law_names_are_folded_byte_by_byte(bytes: Seq<u8>, first: u8, second: u8)
    ensures
        fnv(Seq::<u8>::empty()) == FNV_OFFSET,
        fnv(bytes.push(0)) == fnv(bytes).wrapping_mul(FNV_PRIME),
        first != second ==> fnv(bytes.push(first)) != fnv(bytes.push(second)),
        fnv(bytes.push(first)) == (fnv(bytes) ^ (first as u64)).wrapping_mul(FNV_PRIME),
{
    let hash = fnv(bytes);
    assert(bytes.push(0).drop_last() =~= bytes);
    assert(bytes.push(first).drop_last() =~= bytes);
    assert(bytes.push(second).drop_last() =~= bytes);
    assert(hash ^ 0u64 == hash) by (bit_vector);
    if first != second {
        let a = first as u64;
        let b = second as u64;
        assert(hash ^ a != hash ^ b) by (bit_vector)
            requires
                a != b,
        ;
        lemma_prime_inverse(hash ^ a);
        lemma_prime_inverse(hash ^ b);
    }
}

/// Multiplying by the odd prime loses nothing.
proof fn lemma_prime_inverse(a: u64)
    ensures
        (a.wrapping_mul(FNV_PRIME) as int * 0xCE965057AFF6957B) % 0x10000000000000000 == a,
{
    let size: int = 0x10000000000000000;
    let inverse: int = 0xCE965057AFF6957B;
    let prime: int = FNV_PRIME as int;
    let product: int = a as int * prime;
    assert(a.wrapping_mul(FNV_PRIME) as int == product % size);
    vstd::arithmetic::div_mod::lemma_mul_mod_noop_left(product, inverse, size);
    assert(product * inverse == a as int * (prime * inverse)) by (nonlinear_arith)
        requires
            product == a as int * prime,
    ;
    assert((prime * inverse) % size == 1);
    vstd::arithmetic::div_mod::lemma_mul_mod_noop_right(a as int, prime * inverse, size);
    assert((a as int * 1) % size == a);
}

} // verus!
