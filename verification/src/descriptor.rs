//! PSD "class descriptor" trees: the recursive, self-describing typed-value
//! format certain layer effects and adjustment payloads are stored in.
//!
//! A descriptor is a class-id string plus an ordered list of (key, value)
//! pairs, where a value is a tagged variant: integer, double, bool,
//! unit-tagged double, UTF-16 text, enum pair, nested descriptor, or a
//! variable-length list.  An unrecognized tag becomes an error sentinel leaf
//! so the surrounding structure can still be consumed.

use vstd::prelude::*;
use crate::text::{utf8_lossy_of, utf16_lossy_of, utf8_lossy, utf16_lossy};
use crate::cursor::{be_u16_at, be_u32_at, be_u64_at, be_i32_at};

verus! {

/// PSD Class Descriptor value.  Only used by certain PSD features.
///
/// Variant names follow the four-character type tags the file format uses.
/// A `doub` or the number half of an `UntF` is an IEEE 754 double stored as
/// its big-endian bit pattern (`f64::from_bits` recovers the number).
#[derive(Debug)]
pub enum DescItem {
    #[allow(non_camel_case_types)]
    long(i32),
    /// A 64-bit float, kept as its raw bit pattern.
    #[allow(non_camel_case_types)]
    doub(u64),
    /// Float that carries unit system metadata (for example "#Ang" or
    /// "#Pxl"), kept as its raw bit pattern.
    UntF(String, u64),
    #[allow(non_camel_case_types)]
    bool(bool),
    TEXT(String),
    /// An unrecognized type tag was found here: the sentinel records it.
    Errant(String),
    /// Entire sub-object.
    Objc(Box<Descriptor>),
    /// Enums, which are stringly typed in PSDs.
    #[allow(non_camel_case_types)]
    _enum(String, String),
    /// Variable-length list.
    VlLs(Vec<DescItem>),
    /// Dummy non-data data.
    Xxx,
}

/// A descriptor: a class-id string and its ordered (key, value) pairs.
pub type Descriptor = (String, Vec<(String, DescItem)>);

/// The mathematical shape of a [`DescItem`]: the same tree over sequences.
pub enum DescValue {
    Long(i32),
    Doub(u64),
    Unit(Seq<char>, u64),
    Bool(bool),
    Text(Seq<char>),
    ErrTag(Seq<char>),
    Obj(Seq<char>, Seq<(Seq<char>, DescValue)>),
    Enum(Seq<char>, Seq<char>),
    List(Seq<DescValue>),
    Nothing,
}

/// The mathematical value of a [`DescItem`]: the same tree over sequences.
pub open spec fn view_item(d: DescItem) -> DescValue
    decreases d,
    via view_item_decreases
{
    match d {
        DescItem::long(x) => DescValue::Long(x),
        DescItem::doub(x) => DescValue::Doub(x),
        DescItem::UntF(u, x) => DescValue::Unit(u@, x),
        DescItem::bool(b) => DescValue::Bool(b),
        DescItem::TEXT(s) => DescValue::Text(s@),
        DescItem::Errant(s) => DescValue::ErrTag(s@),
        DescItem::Objc(d2) => DescValue::Obj(d2.0@, view_fields(d2.1@)),
        DescItem::_enum(a, b) => DescValue::Enum(a@, b@),
        DescItem::VlLs(v) => DescValue::List(view_list(v@)),
        DescItem::Xxx => DescValue::Nothing,
    }
}

/// The mathematical values of a list of descriptor values, in order.
pub open spec fn view_list(v: Seq<DescItem>) -> Seq<DescValue>
    decreases v,
{
    if v.len() == 0 {
        Seq::empty()
    } else {
        seq![view_item(v[0])] + view_list(v.subrange(1, v.len() as int))
    }
}

/// The mathematical values of a descriptor's (key, value) pairs, in order.
pub open spec fn view_fields(fields: Seq<(String, DescItem)>) -> Seq<(Seq<char>, DescValue)>
    decreases fields,
{
    if fields.len() == 0 {
        Seq::empty()
    } else {
        seq![(fields[0].0@, view_item(fields[0].1))] + view_fields(
            fields.subrange(1, fields.len() as int),
        )
    }
}

#[via_fn]
proof fn view_item_decreases(d: DescItem) {
    match d {
        DescItem::Objc(d2) => {
            assert(decreases_to!(d => d2));
            assert(decreases_to!(d2 => d2.1));
            assert(decreases_to!(d2.1 => d2.1@));
        },
        DescItem::VlLs(v) => {
            assert(decreases_to!(d => v));
            assert(decreases_to!(v => v@));
        },
        _ => {},
    }
}

/// A [`view_list`] is pointwise the [`view_item`] of its elements.
pub proof fn lemma_view_list_index(v: Seq<DescItem>)
    ensures
        view_list(v).len() == v.len(),
        forall|i: int| 0 <= i < v.len() ==> view_list(v)[i] == view_item(v[i]),
    decreases v,
{
    if v.len() > 0 {
        lemma_view_list_index(v.subrange(1, v.len() as int));
    }
}

/// A [`view_fields`] is pointwise the key view and [`view_item`] of its
/// pairs.
pub proof fn lemma_view_fields_index(fields: Seq<(String, DescItem)>)
    ensures
        view_fields(fields).len() == fields.len(),
        forall|i: int|
            0 <= i < fields.len() ==> view_fields(fields)[i] == (
            fields[i].0@,
            view_item(fields[i].1),
            ),
    decreases fields,
{
    if fields.len() > 0 {
        lemma_view_fields_index(fields.subrange(1, fields.len() as int));
    }
}

/// A deep copy of one descriptor value, equal to the original as a tree.
fn clone_item(d: &DescItem) -> (r: DescItem)
    ensures
        view_item(r) == view_item(*d),
    decreases *d,
{
    match d {
        DescItem::long(x) => DescItem::long(*x),
        DescItem::doub(x) => DescItem::doub(*x),
        DescItem::UntF(u, x) => DescItem::UntF(u.clone(), *x),
        DescItem::bool(b) => DescItem::bool(*b),
        DescItem::TEXT(s) => DescItem::TEXT(s.clone()),
        DescItem::Errant(s) => DescItem::Errant(s.clone()),
        DescItem::Objc(d2) => DescItem::Objc(Box::new(clone_descriptor(&*d2))),
        DescItem::_enum(a, b) => DescItem::_enum(a.clone(), b.clone()),
        DescItem::VlLs(v) => {
            let mut out: Vec<DescItem> = Vec::new();
            let mut i: usize = 0;
            while i < v.len()
                invariant
                    d is VlLs,
                    d->VlLs_0 == *v,
                    i <= v@.len(),
                    out@.len() == i,
                    forall|k: int| 0 <= k < i ==> view_item(out@[k]) == view_item(v@[k]),
                decreases v@.len() - i,
            {
                proof {
                    assert(decreases_to!(*d => d->VlLs_0));
                    assert(decreases_to!(d->VlLs_0 => v@));
                    assert(decreases_to!(v@ => v@[i as int]));
                }
                let item = clone_item(&v[i]);
                out.push(item);
                i = i + 1;
            }
            proof {
                lemma_view_list_index(out@);
                lemma_view_list_index(v@);
                assert(view_list(out@) =~= view_list(v@));
            }
            DescItem::VlLs(out)
        },
        DescItem::Xxx => DescItem::Xxx,
    }
}

/// A deep copy of a descriptor, equal to the original as a tree.
fn clone_descriptor(d: &Descriptor) -> (r: Descriptor)
    ensures
        r.0@ == d.0@,
        view_fields(r.1@) == view_fields(d.1@),
    decreases *d,
{
    let id = d.0.clone();
    let mut out: Vec<(String, DescItem)> = Vec::new();
    let mut i: usize = 0;
    while i < d.1.len()
        invariant
            i <= d.1@.len(),
            out@.len() == i,
            forall|k: int|
                0 <= k < i ==> out@[k].0@ == d.1@[k].0@ && view_item(out@[k].1) == view_item(
                    d.1@[k].1,
                ),
        decreases d.1@.len() - i,
    {
        let name = d.1[i].0.clone();
        let val = clone_item(&d.1[i].1);
        out.push((name, val));
        i = i + 1;
    }
    proof {
        lemma_view_fields_index(out@);
        lemma_view_fields_index(d.1@);
        assert(view_fields(out@) =~= view_fields(d.1@));
    }
    (id, out)
}

impl Clone for DescItem {
    /// A deep copy, equal to the original as a tree.
    fn clone(&self) -> (r: Self)
        ensures
            view_item(r) == view_item(*self),
    {
        clone_item(self)
    }
}

impl DescItem {
    /// Get the given item if the enum is of that kind.
    pub fn long(&self) -> (r: i32)
        requires
            self is long,
        ensures
            view_item(*self) == DescValue::Long(r),
    {
        match self {
            DescItem::long(x) => *x,
            _ => {
                proof {
                    assert(false);
                }
                0
            },
        }
    }

    /// Get the given item (a double's raw bit pattern) if the enum is of
    /// that kind.
    pub fn doub(&self) -> (r: u64)
        requires
            self is doub,
        ensures
            view_item(*self) == DescValue::Doub(r),
    {
        match self {
            DescItem::doub(x) => *x,
            _ => {
                proof {
                    assert(false);
                }
                0
            },
        }
    }

    /// Get the given item if the enum is of that kind.
    pub fn bool(&self) -> (r: bool)
        requires
            self is bool,
        ensures
            view_item(*self) == DescValue::Bool(r),
    {
        match self {
            DescItem::bool(x) => *x,
            _ => {
                proof {
                    assert(false);
                }
                false
            },
        }
    }

    /// Get the given item if the enum is of that kind.
    pub fn _enum(&self) -> (r: (String, String))
        requires
            self is _enum,
        ensures
            view_item(*self) == DescValue::Enum(r.0@, r.1@),
    {
        match self {
            DescItem::_enum(a, b) => (a.clone(), b.clone()),
            _ => {
                proof {
                    assert(false);
                }
                (String::new(), String::new())
            },
        }
    }

    /// Get the given item (unit tag and raw double bits) if the enum is of
    /// that kind.
    #[allow(non_snake_case)]
    pub fn UntF(&self) -> (r: (String, u64))
        requires
            self is UntF,
        ensures
            view_item(*self) == DescValue::Unit(r.0@, r.1),
    {
        match self {
            DescItem::UntF(a, x) => (a.clone(), *x),
            _ => {
                proof {
                    assert(false);
                }
                (String::new(), 0)
            },
        }
    }

    /// Get the given item if the enum is of that kind.
    #[allow(non_snake_case)]
    pub fn Objc(&self) -> (r: Box<Descriptor>)
        requires
            self is Objc,
        ensures
            view_item(*self) == DescValue::Obj(r.0@, view_fields(r.1@)),
    {
        match self {
            DescItem::Objc(d) => Box::new(clone_descriptor(&*d)),
            _ => {
                proof {
                    assert(false);
                }
                Box::new((String::new(), Vec::new()))
            },
        }
    }

    /// Get the given item if the enum is of that kind.
    #[allow(non_snake_case)]
    pub fn TEXT(&self) -> (r: String)
        requires
            self is TEXT,
        ensures
            view_item(*self) == DescValue::Text(r@),
    {
        match self {
            DescItem::TEXT(s) => s.clone(),
            _ => {
                proof {
                    assert(false);
                }
                String::new()
            },
        }
    }

    /// Get the given item if the enum is of that kind.
    #[allow(non_snake_case)]
    pub fn VlLs(&self) -> (r: Vec<DescItem>)
        requires
            self is VlLs,
        ensures
            view_item(*self) == DescValue::List(view_list(r@)),
    {
        match self {
            DescItem::VlLs(v) => {
                match clone_item(self) {
                    DescItem::VlLs(out) => out,
                    _ => {
                        proof {
                            assert(false);
                        }
                        Vec::new()
                    },
                }
            },
            _ => {
                proof {
                    assert(false);
                }
                Vec::new()
            },
        }
    }
}

/// An ASCII identifier with the "length 0 means 4" convention: a 32-bit
/// length, then that many bytes (four of them when the length reads zero).
pub open spec fn spec_read_ascii(data: Seq<u8>, pos: int) -> Option<(Seq<char>, int)> {
    if pos + 4 <= data.len() {
        let n = be_u32_at(data, pos);
        let l: int = if n == 0 {
            4
        } else {
            n as int
        };
        if pos + 4 + l <= data.len() {
            Some((utf8_lossy_of(data.subrange(pos + 4, pos + 4 + l)), pos + 4 + l))
        } else {
            None
        }
    } else {
        None
    }
}

/// `units` with its trailing zero code units removed.
pub open spec fn trim_zeros(units: Seq<u16>) -> Seq<u16>
    decreases units.len(),
{
    if units.len() > 0 && units.last() == 0 {
        trim_zeros(units.drop_last())
    } else {
        units
    }
}

/// One descriptor value at `pos`: a four-byte type tag, then the payload the
/// tag calls for.  An unrecognized tag yields the error sentinel and leaves
/// the position right after the tag.  `None` means a short read.
pub open spec fn spec_read_value(data: Seq<u8>, pos: int) -> Option<(DescValue, int)>
    decreases data.len() - pos, 0int,
{
    if pos + 4 <= data.len() {
        let tag = be_u32_at(data, pos);
        let p = pos + 4;
        if tag == 0x6C6F6E67 {  // "long"
            if p + 4 <= data.len() {
                Some((DescValue::Long(be_i32_at(data, p)), p + 4))
            } else {
                None
            }
        } else if tag == 0x646F7562 {  // "doub"
            if p + 8 <= data.len() {
                Some((DescValue::Doub(be_u64_at(data, p)), p + 8))
            } else {
                None
            }
        } else if tag == 0x4F626A63 {  // "Objc"
            match spec_read_descriptor(data, p) {
                Some((dv, q)) => Some((DescValue::Obj(dv.0, dv.1), q)),
                None => None,
            }
        } else if tag == 0x626F6F6C {  // "bool"
            if p + 1 <= data.len() {
                Some((DescValue::Bool(data[p] != 0), p + 1))
            } else {
                None
            }
        } else if tag == 0x54455854 {  // "TEXT"
            if p + 4 <= data.len() {
                let n = be_u32_at(data, p);
                if p + 4 + 2 * n <= data.len() {
                    let units = Seq::new(n as nat, |i: int| be_u16_at(data, p + 4 + 2 * i));
                    Some((DescValue::Text(utf16_lossy_of(trim_zeros(units))), p + 4 + 2 * n))
                } else {
                    None
                }
            } else {
                None
            }
        } else if tag == 0x556E7446 {  // "UntF"
            if p + 12 <= data.len() {
                Some((
                    DescValue::Unit(utf8_lossy_of(data.subrange(p, p + 4)), be_u64_at(data, p + 4)),
                    p + 12,
                ))
            } else {
                None
            }
        } else if tag == 0x656E756D {  // "enum"
            match spec_read_ascii(data, p) {
                Some((n1, p1)) => match spec_read_ascii(data, p1) {
                    Some((n2, p2)) => Some((DescValue::Enum(n1, n2), p2)),
                    None => None,
                },
                None => None,
            }
        } else if tag == 0x566C4C73 {  // "VlLs"
            if p + 4 <= data.len() {
                let n = be_u32_at(data, p);
                match spec_read_list(data, p + 4, n as int) {
                    Some((items, q)) => Some((DescValue::List(items), q)),
                    None => None,
                }
            } else {
                None
            }
        } else {
            Some((
                DescValue::ErrTag(
                    "!!! errant descriptor subobject type... "@ + utf8_lossy_of(
                        data.subrange(pos, pos + 4),
                    ),
                ),
                p,
            ))
        }
    } else {
        None
    }
}

/// `n` descriptor values in sequence, each starting where the previous one
/// stopped.
pub open spec fn spec_read_list(data: Seq<u8>, pos: int, n: int) -> Option<(Seq<DescValue>, int)>
    decreases data.len() - pos, 1int,
{
    if n <= 0 {
        Some((Seq::empty(), pos))
    } else {
        match spec_read_value(data, pos) {
            Some((v, p2)) => if pos < p2 <= data.len() {
                match spec_read_list(data, p2, n - 1) {
                    Some((rest, q)) => Some((seq![v] + rest, q)),
                    None => None,
                }
            } else {
                None
            },
            None => None,
        }
    }
}

/// A whole descriptor at `pos`: a UTF-16 name (length-prefixed, skipped), an
/// ASCII class id, a 32-bit pair count, then that many (key, value) pairs.
pub open spec fn spec_read_descriptor(data: Seq<u8>, pos: int) -> Option<(
    (Seq<char>, Seq<(Seq<char>, DescValue)>),
    int,
)>
    decreases data.len() - pos, 1int,
{
    if pos + 4 <= data.len() {
        let n = be_u32_at(data, pos);
        let p1 = pos + 4 + 2 * n;
        match spec_read_ascii(data, p1) {
            Some((id, p2)) => {
                if p2 + 4 <= data.len() {
                    let cnt = be_u32_at(data, p2);
                    match spec_read_fields(data, p2 + 4, cnt as int) {
                        Some((fields, q)) => Some(((id, fields), q)),
                        None => None,
                    }
                } else {
                    None
                }
            },
            None => None,
        }
    } else {
        None
    }
}

/// `n` (key, value) pairs in sequence: an ASCII key, then one value each.
pub open spec fn spec_read_fields(data: Seq<u8>, pos: int, n: int) -> Option<(
    Seq<(Seq<char>, DescValue)>,
    int,
)>
    decreases data.len() - pos, 1int,
{
    if n <= 0 {
        Some((Seq::empty(), pos))
    } else {
        match spec_read_ascii(data, pos) {
            Some((key, p1)) => match spec_read_value(data, p1) {
                Some((v, p2)) => if p1 < p2 <= data.len() {
                    match spec_read_fields(data, p2, n - 1) {
                        Some((rest, q)) => Some((seq![(key, v)] + rest, q)),
                        None => None,
                    }
                } else {
                    None
                },
                None => None,
            },
            None => None,
        }
    }
}

/// Read an ASCII identifier with the "length 0 means 4" convention.
pub(crate) fn read_ascii_at(data: &[u8], pos: usize) -> (r: Result<(String, usize), String>)
    requires
        pos <= data@.len(),
    ensures
        r is Ok <==> spec_read_ascii(data@, pos as int) is Some,
        r matches Ok((s, p)) ==> spec_read_ascii(data@, pos as int) == Some((s@, p as int)) && pos
            < p <= data@.len(),
        r matches Err(e) ==> e@ == "Unexpected end of stream"@,
{
    let dlen = data.len();
    if dlen < 4 || pos > dlen - 4 {
        return Err("Unexpected end of stream".to_owned());
    }
    let n = crate::cursor::get_u32(data, pos);
    let l: usize = if n == 0 {
        4
    } else {
        n as usize
    };
    if l > dlen - (pos + 4) {
        return Err("Unexpected end of stream".to_owned());
    }
    let s = utf8_lossy(&data[pos + 4..pos + 4 + l]);
    Ok((s, pos + 4 + l))
}

/// Read one descriptor value: the four-byte type tag, then its payload.
/// An unrecognized tag becomes the error sentinel, recorded in place; a
/// short read is the only failure.
pub(crate) fn read_value_at(data: &[u8], pos: usize) -> (r: Result<(DescItem, usize), String>)
    requires
        pos <= data@.len(),
    ensures
        r is Ok <==> spec_read_value(data@, pos as int) is Some,
        r matches Ok((item, p)) ==> spec_read_value(data@, pos as int) == Some((
            view_item(item),
            p as int,
        )) && pos < p <= data@.len(),
        r matches Err(e) ==> e@ == "Unexpected end of stream"@,
    decreases data@.len() - pos,
{
    let dlen = data.len();
    if dlen < 4 || pos > dlen - 4 {
        return Err("Unexpected end of stream".to_owned());
    }
    let tag = crate::cursor::get_u32(data, pos);
    let p = pos + 4;
    if tag == 0x6C6F6E67 {  // "long"
        if 4 > dlen - p {
            return Err("Unexpected end of stream".to_owned());
        }
        let v = crate::cursor::get_i32(data, p);
        Ok((DescItem::long(v), p + 4))
    } else if tag == 0x646F7562 {  // "doub"
        if 8 > dlen - p {
            return Err("Unexpected end of stream".to_owned());
        }
        let v = crate::cursor::get_u64(data, p);
        Ok((DescItem::doub(v), p + 8))
    } else if tag == 0x4F626A63 {  // "Objc"
        match read_descriptor_at(data, p) {
            Ok((d2, q)) => Ok((DescItem::Objc(Box::new(d2)), q)),
            Err(e) => Err(e),
        }
    } else if tag == 0x626F6F6C {  // "bool"
        if 1 > dlen - p {
            return Err("Unexpected end of stream".to_owned());
        }
        let b = data[p];
        Ok((DescItem::bool(b != 0), p + 1))
    } else if tag == 0x54455854 {  // "TEXT"
        if 4 > dlen - p {
            return Err("Unexpected end of stream".to_owned());
        }
        let n = crate::cursor::get_u32(data, p);
        let base = p + 4;
        if (n as u64) * 2 > (dlen - base) as u64 {
            return Err("Unexpected end of stream".to_owned());
        }
        let nn = n as usize;
        let mut units: Vec<u16> = Vec::new();
        let mut i: usize = 0;
        while i < nn
            invariant
                dlen == data@.len(),
                base + 2 * nn <= dlen,
                i <= nn,
                units@.len() == i,
                forall|k: int| 0 <= k < i ==> units@[k] == be_u16_at(data@, base + 2 * k),
            decreases nn - i,
        {
            let v = crate::cursor::get_u16(data, base + 2 * i);
            units.push(v);
            i = i + 1;
        }
        proof {
            assert(units@ =~= Seq::new(n as nat, |k: int| be_u16_at(data@, base + 4 - 4 + 2 * k)));
        }
        let mut m: usize = units.len();
        proof {
            assert(units@.take(m as int) =~= units@);
        }
        while m > 0 && units[m - 1] == 0
            invariant
                m <= units@.len(),
                trim_zeros(units@) == trim_zeros(units@.take(m as int)),
            decreases m,
        {
            proof {
                assert(units@.take(m as int).last() == units@[m - 1]);
                assert(units@.take(m as int).drop_last() =~= units@.take(m - 1));
            }
            m = m - 1;
        }
        proof {
            if m > 0 {
                assert(units@.take(m as int).last() == units@[m - 1]);
            }
            assert(trim_zeros(units@.take(m as int)) == units@.take(m as int));
        }
        let s = utf16_lossy(&units[0..m]);
        Ok((DescItem::TEXT(s), base + 2 * nn))
    } else if tag == 0x556E7446 {  // "UntF"
        if 12 > dlen - p {
            return Err("Unexpected end of stream".to_owned());
        }
        let unit = utf8_lossy(&data[p..p + 4]);
        let v = crate::cursor::get_u64(data, p + 4);
        Ok((DescItem::UntF(unit, v), p + 12))
    } else if tag == 0x656E756D {  // "enum"
        let (n1, p1) = match read_ascii_at(data, p) {
            Ok(x) => x,
            Err(e) => {
                return Err(e);
            },
        };
        let (n2, p2) = match read_ascii_at(data, p1) {
            Ok(x) => x,
            Err(e) => {
                return Err(e);
            },
        };
        Ok((DescItem::_enum(n1, n2), p2))
    } else if tag == 0x566C4C73 {  // "VlLs"
        if 4 > dlen - p {
            return Err("Unexpected end of stream".to_owned());
        }
        let n = crate::cursor::get_u32(data, p);
        let list_start = p + 4;
        let mut items: Vec<DescItem> = Vec::new();
        let mut i: u32 = 0;
        let mut cur: usize = list_start;
        proof {
            match spec_read_list(data@, cur as int, n as int) {
                Some((its, q)) => {
                    assert(view_list(items@) + its =~= its);
                },
                None => {},
            }
        }
        while i < n
            invariant
                dlen == data@.len(),
                pos + 8 <= dlen,
                be_u32_at(data@, pos as int) == 0x566C4C73,
                n == be_u32_at(data@, pos + 4),
                list_start == pos + 8,
                i <= n,
                pos < cur <= dlen,
                items@.len() == i,
                match spec_read_list(data@, cur as int, n - i) {
                    Some((its, q)) => spec_read_list(data@, list_start as int, n as int) == Some((
                        view_list(items@) + its,
                        q,
                    )),
                    None => spec_read_list(data@, list_start as int, n as int) is None,
                },
            decreases n - i,
        {
            let (item, p2) = match read_value_at(data, cur) {
                Ok(x) => x,
                Err(e) => {
                    return Err(e);
                },
            };
            proof {
                let its0 = items@;
                lemma_view_list_index(its0);
                lemma_view_list_index(its0.push(item));
                assert(view_list(its0.push(item)) =~= view_list(its0) + seq![view_item(item)]);
                match spec_read_list(data@, p2 as int, n - i - 1) {
                    Some((rest, q)) => {
                        assert(spec_read_list(data@, cur as int, n - i) == Some((
                            seq![view_item(item)] + rest,
                            q,
                        )));
                        assert(view_list(its0) + (seq![view_item(item)] + rest) =~= view_list(
                            its0.push(item),
                        ) + rest);
                    },
                    None => {
                        assert(spec_read_list(data@, cur as int, n - i) is None);
                    },
                }
            }
            items.push(item);
            cur = p2;
            i = i + 1;
        }
        proof {
            assert(spec_read_list(data@, cur as int, 0int) == Some((
                Seq::<DescValue>::empty(),
                cur as int,
            )));
            assert(view_list(items@) + Seq::<DescValue>::empty() =~= view_list(items@));
        }
        Ok((DescItem::VlLs(items), cur))
    } else {
        let tag_s = utf8_lossy(&data[pos..pos + 4]);
        let mut msg = "!!! errant descriptor subobject type... ".to_owned();
        msg.append(tag_s.as_str());
        Ok((DescItem::Errant(msg), p))
    }
}

/// Read a whole descriptor: the skipped UTF-16 name, the ASCII class id, the
/// pair count, and that many (key, value) pairs in order.
pub(crate) fn read_descriptor_at(data: &[u8], pos: usize) -> (r: Result<(Descriptor, usize), String>)
    requires
        pos <= data@.len(),
    ensures
        r is Ok <==> spec_read_descriptor(data@, pos as int) is Some,
        r matches Ok((d, p)) ==> spec_read_descriptor(data@, pos as int) == Some((
            (d.0@, view_fields(d.1@)),
            p as int,
        )) && pos < p <= data@.len(),
        r matches Err(e) ==> e@ == "Unexpected end of stream"@,
    decreases data@.len() - pos,
{
    let dlen = data.len();
    if dlen < 4 || pos > dlen - 4 {
        return Err("Unexpected end of stream".to_owned());
    }
    let n = crate::cursor::get_u32(data, pos);
    let p1_wide: u128 = pos as u128 + 4 + 2 * (n as u128);
    if p1_wide > dlen as u128 {
        return Err("Unexpected end of stream".to_owned());
    }
    let p1 = p1_wide as usize;
    let (id, p2) = match read_ascii_at(data, p1) {
        Ok(x) => x,
        Err(e) => {
            return Err(e);
        },
    };
    if 4 > dlen - p2 {
        return Err("Unexpected end of stream".to_owned());
    }
    let cnt = crate::cursor::get_u32(data, p2);
    let fstart = p2 + 4;
    let mut fields: Vec<(String, DescItem)> = Vec::new();
    let mut i: u32 = 0;
    let mut cur: usize = fstart;
    proof {
        match spec_read_fields(data@, cur as int, cnt as int) {
            Some((fs, q)) => {
                assert(view_fields(fields@) + fs =~= fs);
            },
            None => {},
        }
    }
    while i < cnt
        invariant
            dlen == data@.len(),
            pos + 4 <= dlen,
            pos < fstart,
            spec_read_ascii(data@, pos + 4 + 2 * be_u32_at(data@, pos as int)) == Some((
                id@,
                p2 as int,
            )),
            p2 + 4 <= dlen,
            cnt == be_u32_at(data@, p2 as int),
            fstart == p2 + 4,
            i <= cnt,
            pos < cur <= dlen,
            fields@.len() == i,
            match spec_read_fields(data@, cur as int, cnt - i) {
                Some((fs, q)) => spec_read_fields(data@, fstart as int, cnt as int) == Some((
                    view_fields(fields@) + fs,
                    q,
                )),
                None => spec_read_fields(data@, fstart as int, cnt as int) is None,
            },
        decreases cnt - i,
    {
        let (key, k1) = match read_ascii_at(data, cur) {
            Ok(x) => x,
            Err(e) => {
                return Err(e);
            },
        };
        let (item, k2) = match read_value_at(data, k1) {
            Ok(x) => x,
            Err(e) => {
                return Err(e);
            },
        };
        proof {
            let fs0 = fields@;
            lemma_view_fields_index(fs0);
            lemma_view_fields_index(fs0.push((key, item)));
            assert(view_fields(fs0.push((key, item))) =~= view_fields(fs0) + seq![
                (key@, view_item(item)),
            ]);
            match spec_read_fields(data@, k2 as int, cnt - i - 1) {
                Some((rest, q)) => {
                    assert(spec_read_fields(data@, cur as int, cnt - i) == Some((
                        seq![(key@, view_item(item))] + rest,
                        q,
                    )));
                    assert(view_fields(fs0) + (seq![(key@, view_item(item))] + rest) =~= view_fields(
                        fs0.push((key, item)),
                    ) + rest);
                },
                None => {
                    assert(spec_read_fields(data@, cur as int, cnt - i) is None);
                },
            }
        }
        fields.push((key, item));
        cur = k2;
        i = i + 1;
    }
    proof {
        assert(spec_read_fields(data@, cur as int, 0int) == Some((
            Seq::<(Seq<char>, DescValue)>::empty(),
            cur as int,
        )));
        assert(view_fields(fields@) + Seq::<(Seq<char>, DescValue)>::empty() =~= view_fields(
            fields@,
        ));
    }
    Ok(((id, fields), cur))
}

/// The value stored under `key` in a descriptor's pair list, where a later
/// duplicate key shadows an earlier one (as a map built by insertion would
/// have it).
pub open spec fn spec_find_field(fields: Seq<(Seq<char>, DescValue)>, key: Seq<char>) -> Option<
    DescValue,
>
    decreases fields.len(),
{
    if fields.len() == 0 {
        None
    } else if fields.last().0 == key {
        Some(fields.last().1)
    } else {
        spec_find_field(fields.drop_last(), key)
    }
}

/// Look up `key` among a descriptor's (key, value) pairs; the last pair with
/// that key wins.
pub fn find_field<'a>(fields: &'a Vec<(String, DescItem)>, key: &String) -> (r: Option<
    &'a DescItem,
>)
    ensures
        match r {
            Some(item) => spec_find_field(view_fields(fields@), key@) == Some(view_item(*item)),
            None => spec_find_field(view_fields(fields@), key@) is None,
        },
{
    proof {
        lemma_view_fields_index(fields@);
    }
    let mut i: usize = fields.len();
    proof {
        assert(view_fields(fields@).take(i as int) =~= view_fields(fields@));
    }
    while i > 0
        invariant
            i <= fields@.len(),
            view_fields(fields@).len() == fields@.len(),
            forall|k: int|
                0 <= k < fields@.len() ==> view_fields(fields@)[k] == (
                fields@[k].0@,
                view_item(fields@[k].1),
                ),
            spec_find_field(view_fields(fields@), key@) == spec_find_field(
                view_fields(fields@).take(i as int),
                key@,
            ),
        decreases i,
    {
        i = i - 1;
        if fields[i].0 == *key {
            proof {
                assert(view_fields(fields@).take(i + 1).last() == view_fields(fields@)[i as int]);
            }
            return Some(&fields[i].1);
        }
        proof {
            assert(view_fields(fields@).take(i + 1).last() == view_fields(fields@)[i as int]);
            assert(view_fields(fields@).take(i + 1).drop_last() =~= view_fields(fields@).take(
                i as int,
            ));
        }
    }
    proof {
        assert(view_fields(fields@).take(0int) =~= Seq::<(Seq<char>, DescValue)>::empty());
    }
    None
}

} // verus!
