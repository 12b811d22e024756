use vstd::prelude::*;
use vstd::string::StringSliceAdditionalSpecFns;

use byteorder::ByteOrder;
use rand::Rng;

use crate::error::Error;
use crate::types::{Identifier, Timestamp, Uuid};

verus! {

/// Whole seconds of the largest timestamp: `i32::MAX`.
pub const MAX_TIMESTAMP_SECS: u64 = 2147483647;

/// Sub-second nanoseconds of the largest timestamp. The value lies in the
/// leap-second range (at or past one second), as the stored layout has it.
pub const MAX_TIMESTAMP_SUBSEC_NANOS: u64 = 1999999999;

/// Nanoseconds since the epoch of the largest timestamp: the fixed point that
/// timestamps are subtracted from, so that later instants encode smaller.
pub const MAX_TIMESTAMP_NANOS: u64 = MAX_TIMESTAMP_SECS * 1000000000 + MAX_TIMESTAMP_SUBSEC_NANOS;

/// The `k` low-order bytes of `n`, most significant first.
pub open spec fn big_endian(n: nat, k: nat) -> Seq<u8>
    decreases k,
{
    if k == 0 {
        Seq::empty()
    } else {
        big_endian(n / 256, (k - 1) as nat).push((n % 256) as u8)
    }
}

/// `a` sorts after `b` in unsigned byte-wise (lexicographic) order, at a
/// position where both have a byte.
pub open spec fn bytes_greater(a: Seq<u8>, b: Seq<u8>) -> bool {
    exists|i: int|
        0 <= i < a.len() && i < b.len() && a.take(i) == b.take(i) && #[trigger] a[i] > #[trigger] b[i]
}

pub open spec fn pow256(k: nat) -> nat
    decreases k,
{
    if k == 0 {
        1
    } else {
        256 * pow256((k - 1) as nat)
    }
}

/// Relies on byteorder's `BigEndian::write_u64`: it writes `n.to_be_bytes()`,
/// the eight bytes of `n` with the most significant first.
#[verifier::external_body]
fn u64_to_big_endian(n: u64) -> (r: [u8; 8])
    ensures
        r@ == big_endian(n as nat, 8),
{
    let mut buf = [0u8; 8];
    byteorder::BigEndian::write_u64(&mut buf, n);
    buf
}

/// Relies on rand's `thread_rng().gen::<i32>()`: any `i32` may come back.
#[verifier::external_body]
fn random_i32() -> (r: i32) {
    rand::thread_rng().gen::<i32>()
}

/// A random 32-bit integer.
pub fn generate_random_i32() -> i32 {
    random_i32()
}

/// Whether a timestamp can be encoded: not before the epoch and not after the
/// largest timestamp.
pub open spec fn timestamp_in_window(t: Timestamp) -> bool {
    t.secs >= 0 && t.nanos() <= MAX_TIMESTAMP_NANOS
}

/// The inverted encoding of an in-window timestamp: the distance to the
/// largest timestamp in nanoseconds, as eight big-endian bytes.
pub open spec fn timestamp_bytes(t: Timestamp) -> Seq<u8> {
    big_endian((MAX_TIMESTAMP_NANOS - t.nanos()) as nat, 8)
}

/// Nanoseconds since the epoch of a timestamp not before the epoch.
fn nanos_since_epoch(t: Timestamp) -> (r: u64)
    requires
        t.secs >= 0,
        t.nanos() <= u64::MAX,
    ensures
        r == t.nanos(),
{
    t.secs as u64 * 1000000000 + t.subsec_nanos as u64
}

/// One typed field of a key or value.
pub enum Component<'a> {
    /// Sixteen raw bytes.
    Uuid(Uuid),
    /// A property entry: its id, one byte of data length, then the data.
    Property(&'a Uuid, &'a [u8]),
    /// The string's bytes, with no prefix.
    FixedLengthString(&'a str),
    /// One byte of name length, then the name.
    Identifier(&'a Identifier),
    /// Eight bytes: the inverted timestamp, big-endian.
    DateTime(Timestamp),
    /// The bytes verbatim.
    Bytes(&'a [u8]),
}

impl<'a> Component<'a> {
    /// The number of bytes the component occupies.
    pub open spec fn spec_len(&self) -> nat {
        match *self {
            Component::Uuid(_) => 16,
            Component::Property(_, d) => 17 + d@.len(),
            Component::FixedLengthString(s) => s.spec_bytes().len(),
            Component::Identifier(t) => t@.len() + 1,
            Component::DateTime(_) => 8,
            Component::Bytes(b) => b@.len(),
        }
    }

    /// Whether the component can be written: a timestamp in its window, a
    /// property whose data length fits its length byte.
    pub open spec fn writable(&self) -> bool {
        match *self {
            Component::Property(_, d) => d@.len() <= 255,
            Component::DateTime(t) => timestamp_in_window(t),
            _ => true,
        }
    }

    /// The bytes a writable component stands for.
    pub open spec fn spec_bytes(&self) -> Seq<u8> {
        match *self {
            Component::Uuid(u) => u@,
            Component::Property(id, d) => id@.push(d@.len() as u8) + d@,
            Component::FixedLengthString(s) => s.spec_bytes(),
            Component::Identifier(t) => seq![t@.len() as u8] + t@,
            Component::DateTime(t) => timestamp_bytes(t),
            Component::Bytes(b) => b@,
        }
    }

    pub fn len(&self) -> (r: usize)
        requires
            self.spec_len() <= usize::MAX,
        ensures
            r == self.spec_len(),
    {
        match *self {
            Component::Uuid(_) => 16,
            Component::Property(_, d) => 17 + d.len(),
            Component::FixedLengthString(s) => s.len(),
            Component::Identifier(t) => t.len() + 1,
            Component::DateTime(_) => 8,
            Component::Bytes(b) => b.len(),
        }
    }

    /// Appends the component's bytes to `buf`. On an unwritable component
    /// `buf` is left unchanged.
    pub fn write(&self, buf: &mut Vec<u8>) -> (r: Result<(), Error>)
        ensures
            self.writable() ==> r == Ok::<(), Error>(()) && final(buf)@ == old(buf)@ + self.spec_bytes(),
            !self.writable() ==> r == Err::<(), Error>(Error::Encoding) && final(buf)@ == old(buf)@,
            self.writable() ==> self.spec_bytes().len() == self.spec_len(),
    {
        match *self {
            Component::Uuid(u) => {
                append_bytes(buf, u.as_bytes().as_slice());
            },
            Component::Property(id, d) => {
                if d.len() > 255 {
                    return Err(Error::Encoding);
                }
                append_bytes(buf, id.as_bytes().as_slice());
                buf.push(d.len() as u8);
                append_bytes(buf, d);
            },
            Component::FixedLengthString(s) => {
                append_bytes(buf, s.as_bytes());
            },
            Component::Identifier(t) => {
                buf.push(t.len() as u8);
                append_bytes(buf, t.as_bytes());
            },
            Component::DateTime(t) => {
                if t.secs < 0 || t.secs as u64 > MAX_TIMESTAMP_SECS + 1 {
                    return Err(Error::Encoding);
                }
                let n = nanos_since_epoch(t);
                if n > MAX_TIMESTAMP_NANOS {
                    return Err(Error::Encoding);
                }
                let b = u64_to_big_endian(MAX_TIMESTAMP_NANOS - n);
                proof {
                    lemma_big_endian_len((MAX_TIMESTAMP_NANOS - n) as nat, 8);
                }
                append_bytes(buf, b.as_slice());
            },
            Component::Bytes(b) => {
                append_bytes(buf, b);
            },
        }
        proof {
            assert(final(buf)@ =~= old(buf)@ + self.spec_bytes());
        }
        Ok(())
    }

    /// Reads the first 16 bytes of `bytes` as an identifier.
    pub fn read_uuid(bytes: &[u8]) -> (r: Result<Uuid, Error>)
        ensures
            bytes@.len() >= 16 ==> (r matches Ok(u) && u@ == bytes@.take(16)),
            bytes@.len() < 16 ==> r == Err::<Uuid, Error>(Error::Decoding),
    {
        if bytes.len() < 16 {
            return Err(Error::Decoding);
        }
        let mut fix = [0u8; 16];
        let mut i: usize = 0;
        while i < 16
            invariant
                i <= 16,
                bytes@.len() >= 16,
                forall|j: int| 0 <= j < i ==> fix@[j] == bytes@[j],
            decreases 16 - i,
        {
            fix[i] = bytes[i];
            i = i + 1;
        }
        let u = Uuid::from_bytes(fix);
        assert(u@ =~= bytes@.take(16));
        Ok(u)
    }
}

/// Every component of `s` can be written.
pub open spec fn all_writable(s: Seq<Component>) -> bool {
    forall|i: int| 0 <= i < s.len() ==> (#[trigger] s[i]).writable()
}

/// The bytes of the components of `s`, concatenated in order.
pub open spec fn components_bytes(s: Seq<Component>) -> Seq<u8>
    decreases s.len(),
{
    if s.len() == 0 {
        Seq::empty()
    } else {
        components_bytes(s.drop_last()) + s.last().spec_bytes()
    }
}

/// Concatenates the components, in the given order, into one buffer. Fails
/// on the first component that cannot be written.
pub fn build_bytes(components: &[Component]) -> (r: Result<Vec<u8>, Error>)
    ensures
        all_writable(components@) ==> (r matches Ok(v) && v@ == components_bytes(components@)),
        !all_writable(components@) ==> r == Err::<Vec<u8>, Error>(Error::Encoding),
{
    let mut buf: Vec<u8> = Vec::new();
    let mut i: usize = 0;
    while i < components.len()
        invariant
            i <= components@.len(),
            all_writable(components@.take(i as int)),
            buf@ == components_bytes(components@.take(i as int)),
        decreases components@.len() - i,
    {
        match components[i].write(&mut buf) {
            Ok(()) => {},
            Err(e) => {
                assert(!components@[i as int].writable());
                return Err(e);
            },
        }
        i = i + 1;
        proof {
            let t = components@.take(i as int);
            assert(t.drop_last() =~= components@.take(i - 1));
            assert(all_writable(t)) by {
                assert forall|j: int| 0 <= j < t.len() implies (#[trigger] t[j]).writable() by {
                    if j < i - 1 {
                        assert(components@.take(i - 1)[j] == t[j]);
                    }
                }
            }
        }
    }
    assert(components@.take(components@.len() as int) =~= components@);
    Ok(buf)
}

/// Reads a UUID from the first 16 bytes of `bytes`.
pub fn from_uuid_bytes(bytes: &[u8]) -> (r: Result<Uuid, Error>)
    ensures
        bytes@.len() >= 16 ==> (r matches Ok(u) && u@ == bytes@.take(16)),
        bytes@.len() < 16 ==> r == Err::<Uuid, Error>(Error::Decoding),
{
    Component::read_uuid(bytes)
}

/// The two-byte header `[count, entry_length]` of a group of fixed-length
/// entries.
pub fn build_meta(size: u8, length: usize) -> (r: Vec<u8>)
    requires
        length <= 255,
    ensures
        r@ == seq![size, length as u8],
{
    let r = vec![size, length as u8];
    assert(r@ =~= seq![size, length as u8]);
    r
}

/// Reading a UUID back from the bytes written for `Component::Uuid(u)`
/// gives `u`.
pub proof fn lemma_uuid_round_trip(u: Uuid)
    ensures
        Component::Uuid(u).writable(),
        Component::Uuid(u).spec_bytes().len() >= 16,
        Component::Uuid(u).spec_bytes().take(16) == u@,
{
    assert(u@.take(16) =~= u@);
}

/// Of two timestamps, the earlier encodes to the greater bytes: timestamps are
/// stored inverted, so a forward scan meets the newest first.
pub proof fn lemma_timestamp_order_inverted(t1: Timestamp, t2: Timestamp)
    requires
        timestamp_in_window(t1),
        timestamp_in_window(t2),
        t1.nanos() < t2.nanos(),
    ensures
        bytes_greater(
            Component::DateTime(t1).spec_bytes(),
            Component::DateTime(t2).spec_bytes(),
        ),
{
    reveal_with_fuel(pow256, 9);
    assert(pow256(8) == 18446744073709551616nat);
    lemma_big_endian_greater(
        (MAX_TIMESTAMP_NANOS - t1.nanos()) as nat,
        (MAX_TIMESTAMP_NANOS - t2.nanos()) as nat,
        8,
    );
}

proof fn lemma_big_endian_greater(a: nat, b: nat, k: nat)
    requires
        a > b,
        a < pow256(k),
    ensures
        bytes_greater(big_endian(a, k), big_endian(b, k)),
    decreases k,
{
    let ka = (k - 1) as nat;
    let qa = a / 256;
    let qb = b / 256;
    let pa = big_endian(qa, ka);
    let pb = big_endian(qb, ka);
    let ea = big_endian(a, k);
    let eb = big_endian(b, k);
    lemma_big_endian_len(qa, ka);
    lemma_big_endian_len(qb, ka);
    assert(qa >= qb) by (nonlinear_arith)
        requires a > b, qa == a / 256, qb == b / 256;
    assert(qa < pow256(ka)) by (nonlinear_arith)
        requires a < 256 * pow256(ka), qa == a / 256;
    if qa > qb {
        lemma_big_endian_greater(qa, qb, ka);
        let i = choose|i: int|
            0 <= i < pa.len() && i < pb.len() && pa.take(i) == pb.take(i) && #[trigger] pa[i] > #[trigger] pb[i];
        assert(ea.take(i) =~= pa.take(i));
        assert(eb.take(i) =~= pb.take(i));
        assert(ea[i] == pa[i]);
        assert(eb[i] == pb[i]);
    } else {
        assert(a % 256 > b % 256) by (nonlinear_arith)
            requires a > b, qa == a / 256, qb == b / 256, qa == qb;
        let i = ka as int;
        assert(ea.take(i) =~= pa);
        assert(eb.take(i) =~= pb);
        assert(ea[i] > eb[i]);
    }
}

proof fn lemma_big_endian_len(n: nat, k: nat)
    ensures
        big_endian(n, k).len() == k,
    decreases k,
{
    if k > 0 {
        lemma_big_endian_len(n / 256, (k - 1) as nat);
    }
}

/// Appends `src` to `buf` byte by byte.
fn append_bytes(buf: &mut Vec<u8>, src: &[u8])
    ensures
        final(buf)@ == old(buf)@ + src@,
{
    let mut i: usize = 0;
    while i < src.len()
        invariant
            i <= src@.len(),
            buf@ == old(buf)@ + src@.take(i as int),
        decreases src@.len() - i,
    {
        buf.push(src[i]);
        i = i + 1;
        assert(buf@ =~= old(buf)@ + src@.take(i as int));
    }
    assert(src@.take(src@.len() as int) =~= src@);
}

} // verus!
