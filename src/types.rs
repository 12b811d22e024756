use vstd::prelude::*;
use vstd::string::StringSliceAdditionalSpecFns;

use crate::error::Error;

verus! {

/// A 128-bit identifier held as its 16 raw bytes.
#[derive(Clone, Copy, Debug, Default, PartialEq, Eq, Hash)]
pub struct Uuid {
    pub bytes: [u8; 16],
}

impl View for Uuid {
    type V = Seq<u8>;

    open spec fn view(&self) -> Seq<u8> {
        self.bytes@
    }
}

impl Uuid {
    pub fn from_bytes(bytes: [u8; 16]) -> (r: Uuid)
        ensures
            r@ == bytes@,
    {
        Uuid { bytes }
    }

    pub fn as_bytes(&self) -> (r: &[u8; 16])
        ensures
            r@ == self@,
    {
        &self.bytes
    }
}

/// A printable ASCII byte other than space.
pub open spec fn is_name_byte(b: u8) -> bool {
    0x21 <= b <= 0x7e
}

/// What a valid identifier name is: one to 255 printable, non-blank ASCII bytes.
pub open spec fn is_valid_name(s: Seq<u8>) -> bool {
    &&& 1 <= s.len() <= 255
    &&& forall|i: int| 0 <= i < s.len() ==> is_name_byte(#[trigger] s[i])
}

/// A validated short name, used as an edge or vertex type label.
#[derive(Debug, PartialEq, Eq, Hash)]
pub struct Identifier {
    name: Vec<u8>,
}

impl View for Identifier {
    type V = Seq<u8>;

    closed spec fn view(&self) -> Seq<u8> {
        self.name@
    }
}

impl Identifier {
    #[verifier::type_invariant]
    closed spec fn inv(&self) -> bool {
        is_valid_name(self.name@)
    }

    /// Validates `name`; it is never truncated.
    pub fn new(name: &str) -> (r: Result<Identifier, Error>)
        ensures
            is_valid_name(name.spec_bytes()) ==> (r matches Ok(id) && id@ == name.spec_bytes()),
            !is_valid_name(name.spec_bytes()) ==> r == Err::<Identifier, Error>(Error::Validation),
    {
        let b = name.as_bytes();
        if b.len() < 1 || b.len() > 255 {
            return Err(Error::Validation);
        }
        let mut v: Vec<u8> = Vec::new();
        let mut i: usize = 0;
        while i < b.len()
            invariant
                i <= b@.len(),
                b@ == name.spec_bytes(),
                v@ == b@.take(i as int),
                forall|j: int| 0 <= j < i ==> is_name_byte(#[trigger] b@[j]),
            decreases b@.len() - i,
        {
            let c = b[i];
            if c < 0x21 || c > 0x7e {
                return Err(Error::Validation);
            }
            v.push(c);
            i = i + 1;
            assert(v@ =~= b@.take(i as int));
        }
        assert(v@ =~= b@);
        Ok(Identifier { name: v })
    }

    pub fn len(&self) -> (r: usize)
        ensures
            r == self@.len(),
            1 <= r <= 255,
    {
        proof {
            use_type_invariant(self);
        }
        self.name.len()
    }

    pub fn as_bytes(&self) -> (r: &[u8])
        ensures
            r@ == self@,
            is_valid_name(r@),
    {
        proof {
            use_type_invariant(self);
        }
        self.name.as_slice()
    }
}

impl Clone for Identifier {
    fn clone(&self) -> (r: Identifier)
        ensures
            r@ == self@,
    {
        proof {
            use_type_invariant(self);
        }
        let mut v: Vec<u8> = Vec::new();
        let mut i: usize = 0;
        while i < self.name.len()
            invariant
                i <= self.name@.len(),
                v@ == self.name@.take(i as int),
            decreases self.name@.len() - i,
        {
            v.push(self.name[i]);
            i = i + 1;
            assert(v@ =~= self.name@.take(i as int));
        }
        assert(v@ =~= self.name@);
        Identifier { name: v }
    }
}

/// A point in time as whole seconds since the Unix epoch and the nanoseconds
/// past that second (up to 1_999_999_999, for a leap second).
#[derive(Clone, Copy, Debug, PartialEq, Eq, Hash)]
pub struct Timestamp {
    pub secs: i64,
    pub subsec_nanos: u32,
}

impl Timestamp {
    /// Nanoseconds since the epoch.
    pub open spec fn nanos(&self) -> int {
        self.secs * 1_000_000_000 + self.subsec_nanos
    }
}

} // verus!
