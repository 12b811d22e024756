use vstd::prelude::*;

use crate::byte::Component;
use crate::error::Error;
use crate::types::Uuid;

verus! {

/// The tag before a group's meta header, naming how its entries are laid out.
#[derive(Clone, Copy, Debug, PartialEq, Eq, Structural)]
pub enum AccountDiscriminator {
    /// Fixed-length entries, sliced by the meta header.
    Fixed,
    /// Variable-length property entries: id, length byte, data.
    Property,
}

/// The little-endian unsigned value of four bytes.
pub open spec fn le_u32(b: Seq<u8>) -> nat {
    b[0] as nat + b[1] as nat * 256 + b[2] as nat * 65536 + b[3] as nat * 16777216
}

/// The variant index that stands for a discriminator in its four tag bytes.
pub open spec fn discriminator_index(d: AccountDiscriminator) -> nat {
    match d {
        AccountDiscriminator::Fixed => 0,
        AccountDiscriminator::Property => 1,
    }
}

/// The four tag bytes of a discriminator: its variant index, little-endian.
pub open spec fn tag_bytes(d: AccountDiscriminator) -> Seq<u8> {
    seq![discriminator_index(d) as u8, 0u8, 0u8, 0u8]
}

/// The discriminator that the first four bytes of `b` name, if any.
pub open spec fn discriminator_of(b: Seq<u8>) -> Option<AccountDiscriminator> {
    if le_u32(b) == 0 {
        Some(AccountDiscriminator::Fixed)
    } else if le_u32(b) == 1 {
        Some(AccountDiscriminator::Property)
    } else {
        None
    }
}

impl AccountDiscriminator {
    /// The four tag bytes of the discriminator.
    pub fn serialize(&self) -> (r: Vec<u8>)
        ensures
            r@ == tag_bytes(*self),
    {
        let i: u8 = match *self {
            AccountDiscriminator::Fixed => 0,
            AccountDiscriminator::Property => 1,
        };
        let r = vec![i, 0u8, 0u8, 0u8];
        assert(r@ =~= tag_bytes(*self));
        r
    }

    /// Reads a discriminator from the first four bytes of `b`.
    pub fn deserialize(b: &[u8]) -> (r: Result<AccountDiscriminator, Error>)
        ensures
            b@.len() < 4 ==> r == Err::<AccountDiscriminator, Error>(Error::Decoding),
            b@.len() >= 4 ==> (discriminator_of(b@) matches Some(d) ==> r == Ok::<AccountDiscriminator, Error>(d)),
            b@.len() >= 4 && discriminator_of(b@) is None ==> r == Err::<AccountDiscriminator, Error>(Error::Decoding),
    {
        if b.len() < 4 {
            return Err(Error::Decoding);
        }
        let v: u32 = b[0] as u32 + b[1] as u32 * 256 + b[2] as u32 * 65536 + b[3] as u32 * 16777216;
        if v == 0 {
            Ok(AccountDiscriminator::Fixed)
        } else if v == 1 {
            Ok(AccountDiscriminator::Property)
        } else {
            Err(Error::Decoding)
        }
    }
}

/// Header length of a group: the meta bytes, after a four-byte tag if there is one.
pub open spec fn header_len(has_discriminator: bool) -> nat {
    if has_discriminator {
        6
    } else {
        2
    }
}

/// The `count` entries of `len` bytes each that start at `h`.
pub open spec fn fixed_records(d: Seq<u8>, h: nat, count: nat, len: nat) -> Seq<Seq<u8>> {
    Seq::new(count, |i: int| d.subrange(h + i * len, h + (i + 1) * len))
}

/// The property entries from `pos` to the end of `d`, each as its id followed
/// by its data; `None` where an entry runs past the end.
pub open spec fn property_records(d: Seq<u8>, pos: nat) -> Option<Seq<Seq<u8>>>
    decreases d.len() - pos,
{
    if pos >= d.len() {
        Some(Seq::empty())
    } else if pos + 17 > d.len() {
        None
    } else {
        let next = pos + 17 + d[pos + 16int] as nat;
        if next > d.len() {
            None
        } else {
            match property_records(d, next) {
                Some(rest) => Some(
                    seq![d.subrange(pos as int, pos + 16int) + d.subrange(pos + 17int, next as int)] + rest,
                ),
                None => None,
            }
        }
    }
}

/// One decoded group: its records, the bytes it took, and its tag bytes.
pub open spec fn decode_group(d: Seq<u8>, has_discriminator: bool) -> Option<
    (Seq<Seq<u8>>, nat, Seq<u8>),
> {
    let h = header_len(has_discriminator);
    if d.len() < h {
        None
    } else {
        let disc = if has_discriminator {
            discriminator_of(d)
        } else {
            Some(AccountDiscriminator::Fixed)
        };
        match disc {
            None => None,
            Some(AccountDiscriminator::Property) => match property_records(d, h) {
                Some(recs) => Some((recs, d.len(), tag_bytes(AccountDiscriminator::Property))),
                None => None,
            },
            Some(AccountDiscriminator::Fixed) => {
                let count = d[h - 2] as nat;
                let len = d[h - 1] as nat;
                if h + count * len > d.len() {
                    None
                } else {
                    Some(
                        (
                            fixed_records(d, h, count, len),
                            h + count * len,
                            tag_bytes(AccountDiscriminator::Fixed),
                        ),
                    )
                }
            },
        }
    }
}

/// The byte contents of each record.
pub open spec fn records_view(v: Seq<Vec<u8>>) -> Seq<Seq<u8>> {
    v.map_values(|x: Vec<u8>| x@)
}

/// Spec view of what `deserialize_data_with_meta` returns.
pub open spec fn group_view(v: (Vec<Vec<u8>>, usize, Vec<u8>)) -> (Seq<Seq<u8>>, nat, Seq<u8>) {
    (records_view(v.0@), v.1 as nat, v.2@)
}

/// Puts `acc` before the records of `o`, if `o` holds any.
pub open spec fn prepend_records(acc: Seq<Seq<u8>>, o: Option<Seq<Seq<u8>>>) -> Option<Seq<Seq<u8>>> {
    match o {
        Some(r) => Some(acc + r),
        None => None,
    }
}

/// A copy of `d[start..end]`.
fn copy_range(d: &Vec<u8>, start: usize, end: usize) -> (r: Vec<u8>)
    requires
        start <= end <= d@.len(),
    ensures
        r@ == d@.subrange(start as int, end as int),
{
    let mut r: Vec<u8> = Vec::new();
    let mut i: usize = start;
    while i < end
        invariant
            start <= i <= end <= d@.len(),
            r@ == d@.subrange(start as int, i as int),
        decreases end - i,
    {
        r.push(d[i]);
        i = i + 1;
        assert(r@ =~= d@.subrange(start as int, i as int));
    }
    r
}

/// Decodes the property entries of `data` from `h` to its end.
fn decode_property_entries(data: &Vec<u8>, h: usize) -> (r: Result<Vec<Vec<u8>>, Error>)
    requires
        h <= data@.len(),
    ensures
        property_records(data@, h as nat) matches Some(recs) ==> (r matches Ok(v) && records_view(v@) == recs),
        property_records(data@, h as nat) is None ==> r == Err::<Vec<Vec<u8>>, Error>(Error::Decoding),
{
    let ghost d = data@;
    let mut ans: Vec<Vec<u8>> = Vec::new();
    let mut pos: usize = h;
    assert(prepend_records(records_view(ans@), property_records(d, pos as nat)) == property_records(d, h as nat)) by {
        if let Some(rs) = property_records(d, pos as nat) {
            assert(records_view(ans@) + rs =~= rs);
        }
    }
    while pos < data.len()
        invariant
            d == data@,
            h <= pos <= d.len(),
            property_records(d, h as nat) == prepend_records(records_view(ans@), property_records(d, pos as nat)),
        decreases d.len() - pos,
    {
        if data.len() - pos < 17 {
            return Err(Error::Decoding);
        }
        let l = data[pos + 16] as usize;
        if data.len() - pos - 17 < l {
            return Err(Error::Decoding);
        }
        let next = pos + 17 + l;
        let mut rec = copy_range(data, pos, pos + 16);
        let data_part = copy_range(data, pos + 17, next);
        let mut k: usize = 0;
        while k < data_part.len()
            invariant
                k <= data_part@.len(),
                data_part@ == d.subrange(pos + 17, next as int),
                rec@ == d.subrange(pos as int, pos + 16) + data_part@.take(k as int),
            decreases data_part@.len() - k,
        {
            rec.push(data_part[k]);
            k = k + 1;
            assert(rec@ =~= d.subrange(pos as int, pos + 16) + data_part@.take(k as int));
        }
        assert(data_part@.take(k as int) =~= data_part@);
        let ghost prev = records_view(ans@);
        ans.push(rec);
        proof {
            assert(records_view(ans@) =~= prev.push(rec@));
            if let Some(rest) = property_records(d, next as nat) {
                assert(prev.push(rec@) + rest =~= prev + (seq![rec@] + rest));
            }
        }
        pos = next;
    }
    assert(records_view(ans@) + Seq::<Seq<u8>>::empty() =~= records_view(ans@));
    Ok(ans)
}

/// Decodes the fixed-length entries of `data` after a header of `h` bytes.
fn decode_fixed_entries(data: &Vec<u8>, h: usize, count: u8, len: u8) -> (r: Vec<Vec<u8>>)
    requires
        h + count * len <= data@.len(),
    ensures
        records_view(r@) == fixed_records(data@, h as nat, count as nat, len as nat),
{
    let ghost d = data@;
    let mut ans: Vec<Vec<u8>> = Vec::new();
    let mut i: usize = 0;
    let mut pos: usize = h;
    let n = data.len();
    while i < count as usize
        invariant
            d == data@,
            n == d.len(),
            i <= count,
            pos == h + i * len,
            h + count * len <= d.len(),
            records_view(ans@) == fixed_records(d, h as nat, count as nat, len as nat).take(i as int),
        decreases count - i,
    {
        assert(pos + len <= h + count * len) by (nonlinear_arith)
            requires
                pos == h + i * len,
                i < count,
                0 <= len,
        ;
        let rec = copy_range(data, pos, pos + len as usize);
        let ghost prev = records_view(ans@);
        ans.push(rec);
        proof {
            assert(pos + len == h + (i + 1) * len) by (nonlinear_arith)
                requires pos == h + i * len;
            let f = fixed_records(d, h as nat, count as nat, len as nat);
            assert(records_view(ans@) =~= prev.push(rec@));
            assert(f[i as int] == rec@);
            assert(f.take(i as int).push(f[i as int]) =~= f.take(i + 1));
        }
        pos = pos + len as usize;
        i = i + 1;
    }
    assert(records_view(ans@) =~= fixed_records(d, h as nat, count as nat, len as nat));
    ans
}

/// Decodes one group at the start of `data`: its records, the number of
/// bytes it took, and the tag bytes of its discriminator.
pub fn deserialize_data_with_meta(data: Vec<u8>, has_discriminator: bool) -> (r: Result<
    (Vec<Vec<u8>>, usize, Vec<u8>),
    Error,
>)
    ensures
        decode_group(data@, has_discriminator) matches Some(g) ==> (r matches Ok(v) && group_view(v) == g),
        decode_group(data@, has_discriminator) is None ==> r == Err::<(Vec<Vec<u8>>, usize, Vec<u8>), Error>(Error::Decoding),
        r matches Ok(v) ==> 0 < v.1 <= data@.len(),
{
    let h: usize = if has_discriminator {
        6
    } else {
        2
    };
    if data.len() < h {
        return Err(Error::Decoding);
    }
    let discriminator = if has_discriminator {
        match AccountDiscriminator::deserialize(data.as_slice()) {
            Ok(d) => d,
            Err(e) => {
                return Err(e);
            },
        }
    } else {
        AccountDiscriminator::Fixed
    };
    match discriminator {
        AccountDiscriminator::Property => {
            let recs = match decode_property_entries(&data, h) {
                Ok(v) => v,
                Err(e) => {
                    return Err(e);
                },
            };
            Ok((recs, data.len(), discriminator.serialize()))
        },
        AccountDiscriminator::Fixed => {
            let count = data[h - 2];
            let len = data[h - 1];
            assert(count * len <= 65025) by (nonlinear_arith)
                requires
                    0 <= count <= 255,
                    0 <= len <= 255,
            ;
            let total = count as usize * len as usize;
            if data.len() - h < total {
                return Err(Error::Decoding);
            }
            let recs = decode_fixed_entries(&data, h, count, len);
            Ok((recs, h + total, discriminator.serialize()))
        },
    }
}

/// All groups of `d`, decoded one after the other until no byte is left;
/// `None` where a group fails or the groups do not use up `d` exactly.
pub open spec fn decode_all(d: Seq<u8>, has_discriminator: bool) -> Option<Seq<(Seq<Seq<u8>>, Seq<u8>)>>
    decreases d.len(),
{
    if d.len() == 0 {
        Some(Seq::empty())
    } else {
        match decode_group(d, has_discriminator) {
            Some(g) => if 0 < g.1 <= d.len() {
                match decode_all(d.skip(g.1 as int), has_discriminator) {
                    Some(rest) => Some(seq![(g.0, g.2)] + rest),
                    None => None,
                }
            } else {
                None
            },
            None => None,
        }
    }
}

/// The records and tag bytes of each decoded group.
pub open spec fn groups_view(v: Seq<(Vec<Vec<u8>>, Vec<u8>)>) -> Seq<(Seq<Seq<u8>>, Seq<u8>)> {
    v.map_values(|g: (Vec<Vec<u8>>, Vec<u8>)| (records_view(g.0@), g.1@))
}

/// Puts `acc` before the groups of `o`, if `o` holds any.
pub open spec fn prepend_groups(
    acc: Seq<(Seq<Seq<u8>>, Seq<u8>)>,
    o: Option<Seq<(Seq<Seq<u8>>, Seq<u8>)>>,
) -> Option<Seq<(Seq<Seq<u8>>, Seq<u8>)>> {
    match o {
        Some(r) => Some(acc + r),
        None => None,
    }
}

/// Decodes every group of `data`, in order, until its bytes are used up.
pub fn deserialize_byte_data(data: Vec<u8>, has_discriminator: bool) -> (r: Result<
    Vec<(Vec<Vec<u8>>, Vec<u8>)>,
    Error,
>)
    ensures
        decode_all(data@, has_discriminator) matches Some(gs) ==> (r matches Ok(v) && groups_view(v@) == gs),
        decode_all(data@, has_discriminator) is None ==> r == Err::<Vec<(Vec<Vec<u8>>, Vec<u8>)>, Error>(Error::Decoding),
{
    let ghost d = data@;
    let mut result: Vec<(Vec<Vec<u8>>, Vec<u8>)> = Vec::new();
    let mut total_length: usize = data.len();
    let mut start: usize = 0;
    assert(d.skip(0) =~= d);
    assert(prepend_groups(groups_view(result@), decode_all(d.skip(start as int), has_discriminator))
        == decode_all(d, has_discriminator)) by {
        if let Some(gs) = decode_all(d, has_discriminator) {
            assert(groups_view(result@) + gs =~= gs);
        }
    }
    while total_length > 0
        invariant
            d == data@,
            start + total_length == d.len(),
            decode_all(d, has_discriminator) == prepend_groups(
                groups_view(result@),
                decode_all(d.skip(start as int), has_discriminator),
            ),
        decreases total_length,
    {
        let slice = copy_range(&data, start, data.len());
        assert(slice@ =~= d.skip(start as int));
        let (recs, length, discriminator) = match deserialize_data_with_meta(slice, has_discriminator) {
            Ok(g) => g,
            Err(e) => {
                return Err(e);
            },
        };
        let ghost prev = groups_view(result@);
        let ghost g = (records_view(recs@), discriminator@);
        result.push((recs, discriminator));
        proof {
            let rest = d.skip(start as int);
            assert(rest.skip(length as int) =~= d.skip(start + length));
            assert(groups_view(result@) =~= prev.push(g));
            if let Some(tail) = decode_all(d.skip(start + length), has_discriminator) {
                assert(prev.push(g) + tail =~= prev + (seq![g] + tail));
            }
        }
        start = start + length;
        total_length = total_length - length;
    }
    assert(d.skip(start as int) =~= Seq::<u8>::empty());
    assert(groups_view(result@) + Seq::<(Seq<Seq<u8>>, Seq<u8>)>::empty() =~= groups_view(result@));
    Ok(result)
}

/// The bytes of a group of fixed-length entries: the tag of
/// `AccountDiscriminator::Fixed` where the group has one, the meta header
/// `[count, entry_length]`, then the entries back to back.
pub open spec fn fixed_group_bytes(entries: Seq<Seq<u8>>, len: nat, has_discriminator: bool) -> Seq<u8> {
    let tag = if has_discriminator {
        tag_bytes(AccountDiscriminator::Fixed)
    } else {
        Seq::empty()
    };
    tag + seq![entries.len() as u8, len as u8] + entries.flatten()
}

/// The bytes of property entries, each an id, one byte of data length, and
/// the data.
pub open spec fn property_entries_bytes(es: Seq<(Seq<u8>, Seq<u8>)>) -> Seq<u8>
    decreases es.len(),
{
    if es.len() == 0 {
        Seq::empty()
    } else {
        es[0].0.push(es[0].1.len() as u8) + es[0].1 + property_entries_bytes(es.drop_first())
    }
}

/// The bytes of a property group: the tag of `AccountDiscriminator::Property`,
/// two meta bytes, then the entries.
pub open spec fn property_group_bytes(es: Seq<(Seq<u8>, Seq<u8>)>, meta: Seq<u8>) -> Seq<u8> {
    tag_bytes(AccountDiscriminator::Property) + meta + property_entries_bytes(es)
}

/// The record each property entry decodes to: its id followed by its data.
pub open spec fn property_entry_records(es: Seq<(Seq<u8>, Seq<u8>)>) -> Seq<Seq<u8>> {
    es.map_values(|e: (Seq<u8>, Seq<u8>)| e.0 + e.1)
}

/// Property entries whose ids are 16 bytes and whose data fits a length byte.
pub open spec fn well_formed_entries(es: Seq<(Seq<u8>, Seq<u8>)>) -> bool {
    forall|i: int| 0 <= i < es.len() ==> (#[trigger] es[i]).0.len() == 16 && es[i].1.len() <= 255
}

proof fn lemma_flatten_uniform(e: Seq<Seq<u8>>, len: nat)
    requires
        forall|i: int| 0 <= i < e.len() ==> (#[trigger] e[i]).len() == len,
    ensures
        e.flatten().len() == e.len() * len,
        forall|i: int|
            0 <= i < e.len() ==> e.flatten().subrange(i * len, (i + 1) * len) == #[trigger] e[i],
    decreases e.len(),
{
    if e.len() > 0 {
        let r = e.drop_first();
        assert forall|i: int| 0 <= i < r.len() implies (#[trigger] r[i]).len() == len by {
            assert(r[i] == e[i + 1]);
        }
        lemma_flatten_uniform(r, len);
        let f = e.flatten();
        assert(f == e[0] + r.flatten());
        assert(len + r.len() * len == e.len() * len) by (nonlinear_arith)
            requires r.len() + 1 == e.len();
        assert forall|i: int| 0 <= i < e.len() implies f.subrange(i * len, (i + 1) * len) == #[trigger] e[i] by {
            if i == 0 {
                assert(f.subrange(0, len as int) =~= e[0]);
                assert(0 * len == 0 && (0 + 1) * len == len) by (nonlinear_arith);
            } else {
                assert(i * len == len + (i - 1) * len && (i + 1) * len == len + i * len) by (nonlinear_arith);
                assert(i * len <= r.len() * len && 0 <= (i - 1) * len) by (nonlinear_arith)
                    requires
                        1 <= i <= r.len(),
                        0 <= len,
                ;
                assert(r[i - 1] == e[i]);
                assert(r.flatten().subrange((i - 1) * len, (i - 1 + 1) * len) == r[i - 1]);
                assert(f.subrange(i * len, (i + 1) * len) =~= r.flatten().subrange((i - 1) * len, i * len));
            }
        }
    }
}

/// A group of `count` entries of `len` bytes, under a header built with
/// `build_meta(count, len)`, decodes to exactly those entries and takes
/// `header + count * len` bytes, whatever follows it.
pub proof fn lemma_fixed_group_round_trip(
    entries: Seq<Seq<u8>>,
    len: nat,
    has_discriminator: bool,
    tail: Seq<u8>,
)
    requires
        entries.len() <= 255,
        len <= 255,
        forall|i: int| 0 <= i < entries.len() ==> (#[trigger] entries[i]).len() == len,
    ensures
        fixed_group_bytes(entries, len, has_discriminator).len() == header_len(has_discriminator)
            + entries.len() * len,
        decode_group(fixed_group_bytes(entries, len, has_discriminator) + tail, has_discriminator)
            == Some(
            (
                entries,
                fixed_group_bytes(entries, len, has_discriminator).len(),
                tag_bytes(AccountDiscriminator::Fixed),
            ),
        ),
{
    lemma_flatten_uniform(entries, len);
    let tag = if has_discriminator {
        tag_bytes(AccountDiscriminator::Fixed)
    } else {
        Seq::empty()
    };
    let pre = tag + seq![entries.len() as u8, len as u8];
    let flat = entries.flatten();
    let g = fixed_group_bytes(entries, len, has_discriminator);
    let d = g + tail;
    let h = header_len(has_discriminator);
    let count = entries.len();
    assert(pre.len() == h);
    assert(d[h - 2] == count as u8);
    assert(d[h - 1] == len as u8);
    if has_discriminator {
        assert(le_u32(d) == 0);
    }
    assert forall|i: int| 0 <= i < count implies #[trigger] fixed_records(d, h, count, len)[i] == entries[i] by {
        assert((i + 1) * len <= count * len) by (nonlinear_arith)
            requires i < count;
        assert(0 <= i * len) by (nonlinear_arith)
            requires 0 <= i;
        assert(i * len <= (i + 1) * len) by (nonlinear_arith);
        assert(d.subrange(h + i * len, h + (i + 1) * len) =~= flat.subrange(i * len, (i + 1) * len));
    }
    assert(fixed_records(d, h, count, len) =~= entries);
}

proof fn lemma_property_records_of_entries(p: Seq<u8>, es: Seq<(Seq<u8>, Seq<u8>)>)
    requires
        well_formed_entries(es),
    ensures
        property_records(p + property_entries_bytes(es), p.len())
            == Some(property_entry_records(es)),
    decreases es.len(),
{
    if es.len() == 0 {
        assert(p + property_entries_bytes(es) =~= p);
        assert(property_entry_records(es) =~= Seq::<Seq<u8>>::empty());
    } else {
        let e = es[0];
        let rest = es.drop_first();
        assert(well_formed_entries(rest)) by {
            assert forall|i: int| 0 <= i < rest.len() implies (#[trigger] rest[i]).0.len() == 16 && rest[i].1.len() <= 255 by {
                assert(rest[i] == es[i + 1]);
            }
        }
        let l = e.1.len();
        let entry = e.0.push(l as u8) + e.1;
        let d = p + property_entries_bytes(es);
        let pos = p.len() as int;
        let next = pos + 17 + l;
        let p2 = p + entry;
        assert(d =~= p2 + property_entries_bytes(rest));
        lemma_property_records_of_entries(p2, rest);
        assert(d[pos + 16] == l as u8);
        assert(d.subrange(pos as int, pos + 16) =~= e.0);
        assert(d.subrange(pos + 17, next as int) =~= e.1);
        assert(property_entry_records(es) =~= seq![e.0 + e.1] + property_entry_records(rest));
    }
}

/// A property group decodes to the id and data of each entry, and takes the
/// whole buffer.
pub proof fn lemma_property_group_round_trip(es: Seq<(Seq<u8>, Seq<u8>)>, meta: Seq<u8>)
    requires
        well_formed_entries(es),
        meta.len() == 2,
    ensures
        decode_group(property_group_bytes(es, meta), true) == Some(
            (
                property_entry_records(es),
                property_group_bytes(es, meta).len(),
                tag_bytes(AccountDiscriminator::Property),
            ),
        ),
{
    let p = tag_bytes(AccountDiscriminator::Property) + meta;
    let d = property_group_bytes(es, meta);
    assert(d =~= p + property_entries_bytes(es));
    lemma_property_records_of_entries(p, es);
    assert(le_u32(d) == 1);
}

/// A fixed group followed by a property group, both tagged, decode into
/// exactly two groups, with no byte left over.
pub proof fn lemma_two_groups_decode_all(
    entries: Seq<Seq<u8>>,
    len: nat,
    es: Seq<(Seq<u8>, Seq<u8>)>,
    meta: Seq<u8>,
)
    requires
        entries.len() <= 255,
        len <= 255,
        forall|i: int| 0 <= i < entries.len() ==> (#[trigger] entries[i]).len() == len,
        well_formed_entries(es),
        meta.len() == 2,
    ensures
        decode_all(fixed_group_bytes(entries, len, true) + property_group_bytes(es, meta), true)
            == Some(
            seq![
                (entries, tag_bytes(AccountDiscriminator::Fixed)),
                (property_entry_records(es), tag_bytes(AccountDiscriminator::Property)),
            ],
        ),
{
    let g1 = fixed_group_bytes(entries, len, true);
    let g2 = property_group_bytes(es, meta);
    let d = g1 + g2;
    lemma_fixed_group_round_trip(entries, len, true, g2);
    lemma_property_group_round_trip(es, meta);
    assert(d.skip(g1.len() as int) =~= g2);
    assert(g2.skip(g2.len() as int) =~= Seq::<u8>::empty());
    assert(decode_all(Seq::<u8>::empty(), true) == Some(Seq::<(Seq<Seq<u8>>, Seq<u8>)>::empty()));
    let r2 = seq![(property_entry_records(es), tag_bytes(AccountDiscriminator::Property))];
    assert(r2 + Seq::<(Seq<Seq<u8>>, Seq<u8>)>::empty() =~= r2);
    assert(decode_all(g2, true) == Some(r2));
    assert(seq![(entries, tag_bytes(AccountDiscriminator::Fixed))] + r2 =~= seq![
        (entries, tag_bytes(AccountDiscriminator::Fixed)),
        (property_entry_records(es), tag_bytes(AccountDiscriminator::Property)),
    ]);
}

/// The bytes written for `Component::Property(id, data)` are one entry of a
/// property group, in the layout that the property decoding reads.
pub proof fn lemma_property_component_is_entry(id: Uuid, data: &[u8])
    ensures
        Component::Property(&id, data).spec_bytes() == property_entries_bytes(seq![(id@, data@)]),
{
    let es = seq![(id@, data@)];
    assert(es.drop_first() =~= Seq::<(Seq<u8>, Seq<u8>)>::empty());
    assert(property_entries_bytes(es.drop_first()) == Seq::<u8>::empty());
    assert(Component::Property(&id, data).spec_bytes() =~= property_entries_bytes(es));
}

} // verus!
