//! Identifiers: 128-bit unique ids and the replica ids made of them.

use std::cmp::Ordering;
use vstd::prelude::*;

verus! {

/// A 128-bit universally unique identifier, read as one big-endian number.
///
/// The order of ids is the order of these numbers, which is the byte-wise
/// order of their big-endian encodings.
#[derive(Debug, Clone, Copy, PartialEq, Eq, Structural, Ord, Hash)]
pub struct Uuid {
    /// The sixteen bytes of the id as one number.
    pub bits: u128,
}

/// The bits of an id that was made at random: the version nibble is 4 and the
/// two variant bits are `10`.
pub open spec fn is_random_uuid(bits: u128) -> bool {
    &&& (bits >> 76) & 0xf == 4
    &&& (bits >> 62) & 0x3 == 2
}

/// The lower-case hexadecimal digit of a nibble.
pub open spec fn hex_digit(nibble: int) -> char {
    if nibble < 10 {
        (48 + nibble) as char
    } else {
        (87 + nibble) as char
    }
}

/// The text form of an id: thirty-two hexadecimal digits, most significant
/// first, in groups of 8, 4, 4, 4 and 12 with a hyphen between two groups.
pub open spec fn hyphenated(bits: u128) -> Seq<char> {
    Seq::new(
        36,
        |i: int|
            if i == 8 || i == 13 || i == 18 || i == 23 {
                '-'
            } else {
                let skipped: int = if i < 8 {
                    0
                } else if i < 13 {
                    1
                } else if i < 18 {
                    2
                } else if i < 23 {
                    3
                } else {
                    4
                };
                hex_digit(((bits >> ((124 - 4 * (i - skipped)) as u128)) & 0xf) as int)
            },
    )
}

/// The bits of `uuid::Uuid::new_v4()`. Of the id, which is random, only the
/// version and the variant are known.
#[verifier::external_body]
fn random_uuid_bits() -> (bits: u128)
    ensures
        is_random_uuid(bits),
{
    uuid::Uuid::new_v4().as_u128()
}

/// What `uuid::Uuid` displays: the hyphenated lower-case form.
#[verifier::external_body]
fn uuid_text(bits: u128) -> (text: String)
    ensures
        text@ == hyphenated(bits),
{
    uuid::Uuid::from_u128(bits).to_string()
}

impl Uuid {
    /// The id whose bits are all zero.
    pub open spec fn spec_nil() -> Uuid {
        Uuid { bits: 0 }
    }

    /// Whether this id comes before another.
    pub open spec fn before(self, other: Uuid) -> bool {
        self.bits < other.bits
    }

    /// Makes a random id. It is never the nil id.
    pub fn new_v4() -> (id: Uuid)
        ensures
            is_random_uuid(id.bits),
            id != Uuid::spec_nil(),
    {
        let bits: u128 = random_uuid_bits();
        assert(bits != 0) by (bit_vector)
            requires
                (bits >> 76) & 0xf == 4,
        ;
        Uuid { bits }
    }

    /// The id whose bits are all zero.
    pub fn nil() -> (id: Uuid)
        ensures
            id == Uuid::spec_nil(),
    {
        Uuid { bits: 0 }
    }

    /// The hyphenated text form of the id.
    pub fn to_string(&self) -> (text: String)
        ensures
            text@ == hyphenated(self.bits),
    {
        uuid_text(self.bits)
    }
}

impl PartialOrd for Uuid {
    fn partial_cmp(&self, other: &Self) -> (ordering: Option<Ordering>) {
        if self.bits < other.bits {
            Some(Ordering::Less)
        } else if self.bits == other.bits {
            Some(Ordering::Equal)
        } else {
            Some(Ordering::Greater)
        }
    }
}

impl vstd::std_specs::cmp::PartialOrdSpecImpl for Uuid {
    open spec fn obeys_partial_cmp_spec() -> bool {
        true
    }

    open spec fn partial_cmp_spec(&self, other: &Self) -> Option<Ordering> {
        if self.before(*other) {
            Some(Ordering::Less)
        } else if *self == *other {
            Some(Ordering::Equal)
        } else {
            Some(Ordering::Greater)
        }
    }
}

/// Unique identifier for a replica (client or node).
#[derive(Debug, Clone, Copy, PartialEq, Eq, Structural, Ord, Hash)]
pub struct ReplicaId(pub Uuid);

impl ReplicaId {
    /// Whether this replica's id comes before another's.
    pub open spec fn before(self, other: ReplicaId) -> bool {
        self.0.before(other.0)
    }

    /// Create a new random replica ID.
    pub fn new() -> (id: ReplicaId)
        ensures
            is_random_uuid(id.0.bits),
            id.0 != Uuid::spec_nil(),
    {
        ReplicaId(Uuid::new_v4())
    }

    /// Create from a UUID.
    pub fn from_uuid(uuid: Uuid) -> (id: ReplicaId)
        ensures
            id == ReplicaId(uuid),
    {
        ReplicaId(uuid)
    }

    /// The text form of the id: that of its UUID.
    pub fn to_string(&self) -> (text: String)
        ensures
            text@ == hyphenated(self.0.bits),
    {
        self.0.to_string()
    }
}

impl Default for ReplicaId {
    fn default() -> (id: ReplicaId)
        ensures
            is_random_uuid(id.0.bits),
    {
        ReplicaId::new()
    }
}

impl PartialOrd for ReplicaId {
    fn partial_cmp(&self, other: &Self) -> (ordering: Option<Ordering>) {
        self.0.partial_cmp(&other.0)
    }
}

impl vstd::std_specs::cmp::PartialOrdSpecImpl for ReplicaId {
    open spec fn obeys_partial_cmp_spec() -> bool {
        true
    }

    open spec fn partial_cmp_spec(&self, other: &Self) -> Option<Ordering> {
        if self.before(*other) {
            Some(Ordering::Less)
        } else if *self == *other {
            Some(Ordering::Equal)
        } else {
            Some(Ordering::Greater)
        }
    }
}

/// Ids are ordered as the numbers that they are, and replicas by their ids.
pub proof fn ids_are_ordered_as_numbers(a: Uuid, b: Uuid)
    ensures
        a.bits < b.bits ==> a.before(b) && ReplicaId(a).before(ReplicaId(b)),
        a.bits >= b.bits ==> !a.before(b) && !ReplicaId(a).before(ReplicaId(b)),
        Uuid::spec_nil().bits == 0,
{
}

/// The text of an id has thirty-two hexadecimal digits and four hyphens; its last digit
/// tells the last four bits of the id.
pub proof fn texts_of_ids_have_their_shape(bits: u128, i: int)
    requires
        0 <= i < hyphenated(bits).len(),
    ensures
        hyphenated(bits).len() == 36,
        (hyphenated(bits)[i] == '-') == (i == 8 || i == 13 || i == 18 || i == 23),
        hyphenated(bits)[i] == '-' || '0' <= hyphenated(bits)[i] <= '9' || 'a' <= hyphenated(
            bits,
        )[i] <= 'f',
        bits % 16 < 10 ==> hyphenated(bits)[35] as int == '0' as int + bits % 16,
        bits % 16 >= 10 ==> hyphenated(bits)[35] as int == 'a' as int + bits % 16 - 10,
{
    assert((bits >> 0u128) & 0xf == bits % 16) by (bit_vector);
    let text = hyphenated(bits);
    if text[i] != '-' || !(i == 8 || i == 13 || i == 18 || i == 23) {
        let skipped: int = if i < 8 {
            0
        } else if i < 13 {
            1
        } else if i < 18 {
            2
        } else if i < 23 {
            3
        } else {
            4
        };
        let shifted = bits >> ((124 - 4 * (i - skipped)) as u128);
        assert(shifted & 0xf < 16) by (bit_vector);
    }
}

} // verus!
