use vstd::prelude::*;

use crate::error::Error;
use crate::types::Uuid;

verus! {

/// The shape of a property's raw value, telling a reader how to interpret
/// its bytes.
#[derive(Clone, Copy, Debug, PartialEq, Eq, Structural)]
pub enum PropType {
    Unknown,
    String,
    UInt32,
    UInt64,
    UInt128,
    Document,
    VecString,
    VecUint32,
    VecUint64,
    VecUint128,
}

impl Default for PropType {
    fn default() -> (r: PropType)
        ensures
            r == PropType::Unknown,
    {
        PropType::Unknown
    }
}

/// The bytes of a random (version 4, RFC 4122 variant) UUID: the high nibble
/// of byte 6 is 4 and the two high bits of byte 8 are `10`.
pub open spec fn is_random_uuid(u: Seq<u8>) -> bool {
    u.len() == 16 && u[6] / 16 == 4 && u[8] / 64 == 2
}

/// Relies on uuid's `Uuid::new_v4`: random bytes with the version nibble set
/// to 4 and the variant bits set to `10`.
#[verifier::external_body]
fn new_random_uuid() -> (r: Uuid)
    ensures
        is_random_uuid(r@),
{
    Uuid { bytes: uuid::Uuid::new_v4().into_bytes() }
}

/// A named, typed property slot.
#[derive(Clone, Debug, PartialEq, Eq, Default)]
pub struct Property {
    pub id: Uuid,
    pub t: PropType,
    pub name: String,
}

impl Property {
    /// A property slot with a fresh random id.
    pub fn new(name: &str, t: PropType) -> (r: Result<Property, Error>)
        ensures
            r matches Ok(p) && p.name@ == name@ && p.t == t && is_random_uuid(p.id@),
    {
        Ok(Property { id: new_random_uuid(), name: name.to_owned(), t })
    }
}

} // verus!
