//! The native-type conversion layer: turning language-native values into the
//! value model and back. Converting in never fails for the primitive types;
//! converting out fails when the value's major type or magnitude does not
//! fit the requested type.

use vstd::prelude::*;

use crate::cbor::{
    canon_info, cbor_view, key_to_cbor, key_wf, Cbor, CborV, Info, Key, KeyV, SimpleValue,
};
use crate::codec::key_of_cbor;
use crate::Error;

verus! {

/// Convert a native value into a [`Cbor`] value, which can then be encoded
/// into bytes. Every implementation says exactly when the conversion
/// succeeds and what value it produces.
pub trait IntoCbor: Sized {
    /// Whether the conversion succeeds for this value.
    spec fn into_cbor_ok(self) -> bool;

    /// The value produced on success.
    spec fn spec_into_cbor(self) -> CborV;

    /// Convert this value into [`Cbor`]. The one failure is a conversion
    /// failure.
    fn into_cbor(self) -> (r: Result<Cbor, Error>)
        ensures
            (r is Ok) == self.into_cbor_ok(),
            r is Ok ==> cbor_view(r.unwrap()) == self.spec_into_cbor(),
            r is Err ==> r == Err::<Cbor, Error>(Error::FailConvert),
    ;
}

/// Convert a [`Cbor`] value, typically just decoded from bytes, into a
/// native value. Every implementation says exactly which values convert and
/// how the result relates to them.
pub trait FromCbor: Sized {
    /// Whether this value converts.
    spec fn from_cbor_ok(v: CborV) -> bool;

    /// How the result relates to the value it was converted from.
    spec fn from_cbor_rel(v: CborV, r: Self) -> bool;

    /// Convert a [`Cbor`] value into this type. The one failure is a
    /// conversion failure.
    fn from_cbor(val: Cbor) -> (r: Result<Self, Error>)
        ensures
            (r is Ok) == Self::from_cbor_ok(cbor_view(val)),
            r is Ok ==> Self::from_cbor_rel(cbor_view(val), r.unwrap()),
            r is Err ==> r == Err::<Self, Error>(Error::FailConvert),
    ;
}

impl IntoCbor for u64 {
    open spec fn into_cbor_ok(self) -> bool {
        true
    }

    open spec fn spec_into_cbor(self) -> CborV {
        CborV::Major0(canon_info(self), self)
    }

    fn into_cbor(self) -> (r: Result<Cbor, Error>) {
        Ok(Cbor::Major0(Info::from_u64(self), self))
    }
}

impl FromCbor for u64 {
    open spec fn from_cbor_ok(v: CborV) -> bool {
        v is Major0
    }

    open spec fn from_cbor_rel(v: CborV, r: u64) -> bool {
        v matches CborV::Major0(_, n) && r == n
    }

    fn from_cbor(val: Cbor) -> (r: Result<u64, Error>) {
        match val {
            Cbor::Major0(_, n) => Ok(n),
            _ => Err(Error::FailConvert),
        }
    }
}

impl IntoCbor for u32 {
    open spec fn into_cbor_ok(self) -> bool {
        true
    }

    open spec fn spec_into_cbor(self) -> CborV {
        CborV::Major0(canon_info(self as u64), self as u64)
    }

    fn into_cbor(self) -> (r: Result<Cbor, Error>) {
        Ok(Cbor::Major0(Info::from_u64(self as u64), self as u64))
    }
}

impl FromCbor for u32 {
    open spec fn from_cbor_ok(v: CborV) -> bool {
        v matches CborV::Major0(_, n) && n <= u32::MAX as u64
    }

    open spec fn from_cbor_rel(v: CborV, r: u32) -> bool {
        v matches CborV::Major0(_, n) && r as u64 == n
    }

    fn from_cbor(val: Cbor) -> (r: Result<u32, Error>) {
        match val {
            Cbor::Major0(_, n) => {
                if n <= u32::MAX as u64 {
                    Ok(n as u32)
                } else {
                    Err(Error::FailConvert)
                }
            },
            _ => Err(Error::FailConvert),
        }
    }
}

impl IntoCbor for u16 {
    open spec fn into_cbor_ok(self) -> bool {
        true
    }

    open spec fn spec_into_cbor(self) -> CborV {
        CborV::Major0(canon_info(self as u64), self as u64)
    }

    fn into_cbor(self) -> (r: Result<Cbor, Error>) {
        Ok(Cbor::Major0(Info::from_u64(self as u64), self as u64))
    }
}

impl FromCbor for u16 {
    open spec fn from_cbor_ok(v: CborV) -> bool {
        v matches CborV::Major0(_, n) && n <= u16::MAX as u64
    }

    open spec fn from_cbor_rel(v: CborV, r: u16) -> bool {
        v matches CborV::Major0(_, n) && r as u64 == n
    }

    fn from_cbor(val: Cbor) -> (r: Result<u16, Error>) {
        match val {
            Cbor::Major0(_, n) => {
                if n <= u16::MAX as u64 {
                    Ok(n as u16)
                } else {
                    Err(Error::FailConvert)
                }
            },
            _ => Err(Error::FailConvert),
        }
    }
}

impl IntoCbor for u8 {
    open spec fn into_cbor_ok(self) -> bool {
        true
    }

    open spec fn spec_into_cbor(self) -> CborV {
        CborV::Major0(canon_info(self as u64), self as u64)
    }

    fn into_cbor(self) -> (r: Result<Cbor, Error>) {
        Ok(Cbor::Major0(Info::from_u64(self as u64), self as u64))
    }
}

impl FromCbor for u8 {
    open spec fn from_cbor_ok(v: CborV) -> bool {
        v matches CborV::Major0(_, n) && n <= u8::MAX as u64
    }

    open spec fn from_cbor_rel(v: CborV, r: u8) -> bool {
        v matches CborV::Major0(_, n) && r as u64 == n
    }

    fn from_cbor(val: Cbor) -> (r: Result<u8, Error>) {
        match val {
            Cbor::Major0(_, n) => {
                if n <= u8::MAX as u64 {
                    Ok(n as u8)
                } else {
                    Err(Error::FailConvert)
                }
            },
            _ => Err(Error::FailConvert),
        }
    }
}

impl IntoCbor for usize {
    open spec fn into_cbor_ok(self) -> bool {
        true
    }

    open spec fn spec_into_cbor(self) -> CborV {
        CborV::Major0(canon_info(self as u64), self as u64)
    }

    fn into_cbor(self) -> (r: Result<Cbor, Error>) {
        Ok(Cbor::Major0(Info::from_u64(self as u64), self as u64))
    }
}

impl FromCbor for usize {
    open spec fn from_cbor_ok(v: CborV) -> bool {
        v matches CborV::Major0(_, n) && n <= usize::MAX as u64
    }

    open spec fn from_cbor_rel(v: CborV, r: usize) -> bool {
        v matches CborV::Major0(_, n) && r as u64 == n
    }

    fn from_cbor(val: Cbor) -> (r: Result<usize, Error>) {
        match val {
            Cbor::Major0(_, n) => {
                if n <= usize::MAX as u64 {
                    Ok(n as usize)
                } else {
                    Err(Error::FailConvert)
                }
            },
            _ => Err(Error::FailConvert),
        }
    }
}

/// The value a non-negative signed integer converts to: major 0 with its own
/// magnitude; a negative one: major 1 with magnitude `-(value + 1)`,
/// bit-for-bit the same scheme keys use.
pub open spec fn spec_i64_into_cbor(v: i64) -> CborV {
    if v >= 0 {
        CborV::Major0(canon_info(v as u64), v as u64)
    } else {
        let m = (-(v as int + 1)) as u64;
        CborV::Major1(canon_info(m), m)
    }
}

/// Which values convert back to a signed 64-bit integer, and to which one.
pub open spec fn spec_i64_from_cbor(v: CborV) -> Option<i64> {
    match v {
        CborV::Major0(_, n) => if n <= i64::MAX as u64 {
            Some(n as i64)
        } else {
            None
        },
        CborV::Major1(_, n) => if n <= i64::MAX as u64 {
            Some((-(n as int) - 1) as i64)
        } else {
            None
        },
        _ => None,
    }
}

/// Shared conversion of a signed value into the value model.
fn i64_into_cbor(v: i64) -> (r: Cbor)
    ensures
        cbor_view(r) == spec_i64_into_cbor(v),
{
    if v >= 0 {
        Cbor::Major0(Info::from_u64(v as u64), v as u64)
    } else {
        let m: u64 = (-(v + 1)) as u64;
        Cbor::Major1(Info::from_u64(m), m)
    }
}

/// Shared conversion of a decoded value back to a signed 64-bit integer.
fn i64_from_cbor(val: &Cbor) -> (r: Result<i64, Error>)
    ensures
        match spec_i64_from_cbor(cbor_view(*val)) {
            Some(v) => r == Ok::<i64, Error>(v),
            None => r == Err::<i64, Error>(Error::FailConvert),
        },
{
    match val {
        Cbor::Major0(_, n) => {
            if *n <= 0x7FFF_FFFF_FFFF_FFFF {
                Ok(*n as i64)
            } else {
                Err(Error::FailConvert)
            }
        },
        Cbor::Major1(_, n) => {
            if *n <= 0x7FFF_FFFF_FFFF_FFFF {
                Ok(-(*n as i64) - 1)
            } else {
                Err(Error::FailConvert)
            }
        },
        _ => Err(Error::FailConvert),
    }
}

impl IntoCbor for i64 {
    open spec fn into_cbor_ok(self) -> bool {
        true
    }

    open spec fn spec_into_cbor(self) -> CborV {
        spec_i64_into_cbor(self)
    }

    fn into_cbor(self) -> (r: Result<Cbor, Error>) {
        Ok(i64_into_cbor(self))
    }
}

impl FromCbor for i64 {
    open spec fn from_cbor_ok(v: CborV) -> bool {
        spec_i64_from_cbor(v) is Some
    }

    open spec fn from_cbor_rel(v: CborV, r: i64) -> bool {
        spec_i64_from_cbor(v) == Some(r)
    }

    fn from_cbor(val: Cbor) -> (r: Result<i64, Error>) {
        i64_from_cbor(&val)
    }
}

impl IntoCbor for i32 {
    open spec fn into_cbor_ok(self) -> bool {
        true
    }

    open spec fn spec_into_cbor(self) -> CborV {
        spec_i64_into_cbor(self as i64)
    }

    fn into_cbor(self) -> (r: Result<Cbor, Error>) {
        Ok(i64_into_cbor(self as i64))
    }
}

impl FromCbor for i32 {
    open spec fn from_cbor_ok(v: CborV) -> bool {
        spec_i64_from_cbor(v) matches Some(n) && i32::MIN as i64 <= n <= i32::MAX as i64
    }

    open spec fn from_cbor_rel(v: CborV, r: i32) -> bool {
        spec_i64_from_cbor(v) == Some(r as i64)
    }

    fn from_cbor(val: Cbor) -> (r: Result<i32, Error>) {
        let n = i64_from_cbor(&val)?;
        if i32::MIN as i64 <= n && n <= i32::MAX as i64 {
            Ok(n as i32)
        } else {
            Err(Error::FailConvert)
        }
    }
}

impl IntoCbor for i16 {
    open spec fn into_cbor_ok(self) -> bool {
        true
    }

    open spec fn spec_into_cbor(self) -> CborV {
        spec_i64_into_cbor(self as i64)
    }

    fn into_cbor(self) -> (r: Result<Cbor, Error>) {
        Ok(i64_into_cbor(self as i64))
    }
}

impl FromCbor for i16 {
    open spec fn from_cbor_ok(v: CborV) -> bool {
        spec_i64_from_cbor(v) matches Some(n) && i16::MIN as i64 <= n <= i16::MAX as i64
    }

    open spec fn from_cbor_rel(v: CborV, r: i16) -> bool {
        spec_i64_from_cbor(v) == Some(r as i64)
    }

    fn from_cbor(val: Cbor) -> (r: Result<i16, Error>) {
        let n = i64_from_cbor(&val)?;
        if i16::MIN as i64 <= n && n <= i16::MAX as i64 {
            Ok(n as i16)
        } else {
            Err(Error::FailConvert)
        }
    }
}

impl IntoCbor for i8 {
    open spec fn into_cbor_ok(self) -> bool {
        true
    }

    open spec fn spec_into_cbor(self) -> CborV {
        spec_i64_into_cbor(self as i64)
    }

    fn into_cbor(self) -> (r: Result<Cbor, Error>) {
        Ok(i64_into_cbor(self as i64))
    }
}

impl FromCbor for i8 {
    open spec fn from_cbor_ok(v: CborV) -> bool {
        spec_i64_from_cbor(v) matches Some(n) && i8::MIN as i64 <= n <= i8::MAX as i64
    }

    open spec fn from_cbor_rel(v: CborV, r: i8) -> bool {
        spec_i64_from_cbor(v) == Some(r as i64)
    }

    fn from_cbor(val: Cbor) -> (r: Result<i8, Error>) {
        let n = i64_from_cbor(&val)?;
        if i8::MIN as i64 <= n && n <= i8::MAX as i64 {
            Ok(n as i8)
        } else {
            Err(Error::FailConvert)
        }
    }
}

impl IntoCbor for isize {
    open spec fn into_cbor_ok(self) -> bool {
        true
    }

    open spec fn spec_into_cbor(self) -> CborV {
        spec_i64_into_cbor(self as i64)
    }

    fn into_cbor(self) -> (r: Result<Cbor, Error>) {
        Ok(i64_into_cbor(self as i64))
    }
}

impl FromCbor for isize {
    open spec fn from_cbor_ok(v: CborV) -> bool {
        spec_i64_from_cbor(v) matches Some(n) && isize::MIN as i64 <= n <= isize::MAX as i64
    }

    open spec fn from_cbor_rel(v: CborV, r: isize) -> bool {
        spec_i64_from_cbor(v) == Some(r as i64)
    }

    fn from_cbor(val: Cbor) -> (r: Result<isize, Error>) {
        let n = i64_from_cbor(&val)?;
        if isize::MIN as i64 <= n && n <= isize::MAX as i64 {
            Ok(n as isize)
        } else {
            Err(Error::FailConvert)
        }
    }
}

impl IntoCbor for bool {
    open spec fn into_cbor_ok(self) -> bool {
        true
    }

    open spec fn spec_into_cbor(self) -> CborV {
        if self {
            CborV::Major7(Info::Tiny(20u8), SimpleValue::True)
        } else {
            CborV::Major7(Info::Tiny(21u8), SimpleValue::False)
        }
    }

    fn into_cbor(self) -> (r: Result<Cbor, Error>) {
        if self {
            Ok(Cbor::Major7(Info::Tiny(20), SimpleValue::True))
        } else {
            Ok(Cbor::Major7(Info::Tiny(21), SimpleValue::False))
        }
    }
}

impl FromCbor for bool {
    open spec fn from_cbor_ok(v: CborV) -> bool {
        v matches CborV::Major7(_, sv) && (sv is True || sv is False)
    }

    open spec fn from_cbor_rel(v: CborV, r: bool) -> bool {
        v matches CborV::Major7(_, sv) && (r ==> sv is True) && (!r ==> sv is False)
    }

    fn from_cbor(val: Cbor) -> (r: Result<bool, Error>) {
        match val {
            Cbor::Major7(_, SimpleValue::True) => Ok(true),
            Cbor::Major7(_, SimpleValue::False) => Ok(false),
            _ => Err(Error::FailConvert),
        }
    }
}

} // verus!

verus! {

impl IntoCbor for String {
    open spec fn into_cbor_ok(self) -> bool {
        true
    }

    open spec fn spec_into_cbor(self) -> CborV {
        let b = vstd::utf8::encode_utf8(self@);
        CborV::Major3(canon_info(b.len() as u64), b)
    }

    fn into_cbor(self) -> (r: Result<Cbor, Error>) {
        let bytes = vstd::slice::slice_to_vec(self.as_str().as_bytes());
        let info = Info::from_usize(bytes.len());
        Ok(Cbor::Major3(info, bytes))
    }
}

impl FromCbor for String {
    open spec fn from_cbor_ok(v: CborV) -> bool {
        v matches CborV::Major3(_, b) && vstd::utf8::valid_utf8(b)
    }

    open spec fn from_cbor_rel(v: CborV, r: String) -> bool {
        v matches CborV::Major3(_, b) && r@ == vstd::utf8::decode_utf8(b)
    }

    fn from_cbor(val: Cbor) -> (r: Result<String, Error>) {
        match val {
            Cbor::Major3(_, b) => crate::codec::string_from_utf8(b),
            _ => Err(Error::FailConvert),
        }
    }
}

impl IntoCbor for SimpleValue {
    open spec fn into_cbor_ok(self) -> bool {
        match self {
            SimpleValue::True | SimpleValue::False | SimpleValue::Null | SimpleValue::F32(_)
                | SimpleValue::F64(_) | SimpleValue::Break => true,
            _ => false,
        }
    }

    open spec fn spec_into_cbor(self) -> CborV {
        match self {
            SimpleValue::True => CborV::Major7(Info::Tiny(20u8), self),
            SimpleValue::False => CborV::Major7(Info::Tiny(21u8), self),
            SimpleValue::Null => CborV::Major7(Info::Tiny(22u8), self),
            SimpleValue::F32(_) => CborV::Major7(Info::U32, self),
            SimpleValue::F64(_) => CborV::Major7(Info::U64, self),
            _ => CborV::Major7(Info::Indefinite, self),
        }
    }

    fn into_cbor(self) -> (r: Result<Cbor, Error>) {
        match self {
            SimpleValue::True => Ok(Cbor::Major7(Info::Tiny(20), self)),
            SimpleValue::False => Ok(Cbor::Major7(Info::Tiny(21), self)),
            SimpleValue::Null => Ok(Cbor::Major7(Info::Tiny(22), self)),
            SimpleValue::F32(_) => Ok(Cbor::Major7(Info::U32, self)),
            SimpleValue::F64(_) => Ok(Cbor::Major7(Info::U64, self)),
            SimpleValue::Break => Ok(Cbor::Major7(Info::Indefinite, self)),
            _ => Err(Error::FailConvert),
        }
    }
}

impl IntoCbor for Key {
    open spec fn into_cbor_ok(self) -> bool {
        key_wf(self@)
    }

    open spec fn spec_into_cbor(self) -> CborV {
        key_to_cbor(self@)
    }

    fn into_cbor(self) -> (r: Result<Cbor, Error>) {
        match self {
            Key::U64(v) => Ok(Cbor::Major0(Info::from_u64(v), v)),
            Key::N64(v) => {
                if v >= 0 {
                    Err(Error::FailConvert)
                } else {
                    let m: u64 = (-(v + 1)) as u64;
                    Ok(Cbor::Major1(Info::from_u64(m), m))
                }
            },
            Key::Bytes(b) => {
                let info = Info::from_usize(b.len());
                Ok(Cbor::Major2(info, b))
            },
            Key::Text(t) => {
                let bytes = vstd::slice::slice_to_vec(t.as_str().as_bytes());
                let info = Info::from_usize(bytes.len());
                Ok(Cbor::Major3(info, bytes))
            },
            Key::Bool(true) => Ok(Cbor::Major7(Info::Tiny(20), SimpleValue::True)),
            Key::Bool(false) => Ok(Cbor::Major7(Info::Tiny(21), SimpleValue::False)),
            Key::F32(bits) => Ok(Cbor::Major7(Info::U32, SimpleValue::F32(bits))),
            Key::F64(bits) => Ok(Cbor::Major7(Info::U64, SimpleValue::F64(bits))),
        }
    }
}

impl FromCbor for Key {
    open spec fn from_cbor_ok(v: CborV) -> bool {
        key_of_cbor(v) is Some
    }

    open spec fn from_cbor_rel(v: CborV, r: Key) -> bool {
        key_of_cbor(v) == Some(r@)
    }

    fn from_cbor(val: Cbor) -> (r: Result<Key, Error>) {
        crate::codec::cbor_to_key(val)
    }
}

impl IntoCbor for Vec<Cbor> {
    open spec fn into_cbor_ok(self) -> bool {
        true
    }

    open spec fn spec_into_cbor(self) -> CborV {
        CborV::Major4(canon_info(self@.len() as u64), crate::cbor::list_view(self@))
    }

    fn into_cbor(self) -> (r: Result<Cbor, Error>) {
        let info = Info::from_usize(self.len());
        Ok(Cbor::Major4(info, self))
    }
}

impl FromCbor for Vec<Cbor> {
    open spec fn from_cbor_ok(v: CborV) -> bool {
        v is Major4
    }

    open spec fn from_cbor_rel(v: CborV, r: Vec<Cbor>) -> bool {
        v matches CborV::Major4(_, l) && crate::cbor::list_view(r@) == l
    }

    fn from_cbor(val: Cbor) -> (r: Result<Vec<Cbor>, Error>) {
        match val {
            Cbor::Major4(_, data) => Ok(data),
            _ => Err(Error::FailConvert),
        }
    }
}

impl IntoCbor for Vec<(Key, Cbor)> {
    open spec fn into_cbor_ok(self) -> bool {
        true
    }

    open spec fn spec_into_cbor(self) -> CborV {
        CborV::Major5(canon_info(self@.len() as u64), crate::cbor::entries_view(self@))
    }

    fn into_cbor(self) -> (r: Result<Cbor, Error>) {
        let info = Info::from_usize(self.len());
        Ok(Cbor::Major5(info, self))
    }
}

impl FromCbor for Vec<(Key, Cbor)> {
    open spec fn from_cbor_ok(v: CborV) -> bool {
        v is Major5
    }

    open spec fn from_cbor_rel(v: CborV, r: Vec<(Key, Cbor)>) -> bool {
        v matches CborV::Major5(_, es) && crate::cbor::entries_view(r@) == es
    }

    fn from_cbor(val: Cbor) -> (r: Result<Vec<(Key, Cbor)>, Error>) {
        match val {
            Cbor::Major5(_, data) => Ok(data),
            _ => Err(Error::FailConvert),
        }
    }
}

impl<T: IntoCbor> IntoCbor for Option<T> {
    open spec fn into_cbor_ok(self) -> bool {
        match self {
            Some(x) => x.into_cbor_ok(),
            None => true,
        }
    }

    open spec fn spec_into_cbor(self) -> CborV {
        match self {
            Some(x) => x.spec_into_cbor(),
            None => CborV::Major7(Info::Tiny(22u8), SimpleValue::Null),
        }
    }

    fn into_cbor(self) -> (r: Result<Cbor, Error>) {
        match self {
            Some(x) => x.into_cbor(),
            None => Ok(Cbor::Major7(Info::Tiny(22), SimpleValue::Null)),
        }
    }
}

impl<T: FromCbor> FromCbor for Option<T> {
    open spec fn from_cbor_ok(v: CborV) -> bool {
        if v matches CborV::Major7(_, SimpleValue::Null) {
            true
        } else {
            T::from_cbor_ok(v)
        }
    }

    open spec fn from_cbor_rel(v: CborV, r: Option<T>) -> bool {
        if v matches CborV::Major7(_, SimpleValue::Null) {
            r is None
        } else {
            r matches Some(x) && T::from_cbor_rel(v, x)
        }
    }

    fn from_cbor(val: Cbor) -> (r: Result<Option<T>, Error>) {
        match val {
            Cbor::Major7(i, SimpleValue::Null) => Ok(None),
            val => Ok(Some(T::from_cbor(val)?)),
        }
    }
}

/// Optional collapse: an absent value and a present value whose conversion
/// is the null simple value convert to the same value of the model, and so
/// to byte-identical output. The ambiguity is inherent to the scheme.
pub proof fn lemma_option_collapse<T: IntoCbor>(t: T)
    requires
        t.into_cbor_ok(),
        t.spec_into_cbor() == CborV::Major7(Info::Tiny(22u8), SimpleValue::Null),
    ensures
        Some(t).spec_into_cbor() == None::<T>.spec_into_cbor(),
        crate::codec::spec_encode(Some(t).spec_into_cbor()) == crate::codec::spec_encode(
            None::<T>.spec_into_cbor(),
        ),
{
}

impl Cbor {
    /// Convert a byte buffer into a major-2 byte-string value. A `Vec<u8>`
    /// has two legal encodings: this byte-string form, and [`IntoCbor`]'s
    /// generic list-of-integers form; the caller chooses which is meant.
    pub fn bytes_into_cbor(val: Vec<u8>) -> (r: Result<Cbor, Error>)
        ensures
            r is Ok,
            cbor_view(r.unwrap()) == CborV::Major2(canon_info(val@.len() as u64), val@),
    {
        let info = Info::from_usize(val.len());
        Ok(Cbor::Major2(info, val))
    }

    /// The converse of [`Cbor::bytes_into_cbor`]: the payload of a major-2
    /// byte-string value.
    pub fn into_bytes(self) -> (r: Result<Vec<u8>, Error>)
        ensures
            (r is Ok) == (cbor_view(self) is Major2),
            r is Ok ==> (cbor_view(self) matches CborV::Major2(_, b) && r.unwrap()@ == b),
            r is Err ==> r == Err::<Vec<u8>, Error>(Error::FailConvert),
    {
        match self {
            Cbor::Major2(_, val) => Ok(val),
            _ => Err(Error::FailConvert),
        }
    }
}

} // verus!

verus! {

/// A list's deep view after appending one element.
proof fn lemma_list_view_push(l: Seq<Cbor>, c: Cbor)
    ensures
        crate::cbor::list_view(l.push(c)) == crate::cbor::list_view(l).push(cbor_view(c)),
{
    assert(l.push(c).drop_last() =~= l);
}

/// Convert each element of a list, in order, draining the input.
fn vec_items_into_cbor<T: IntoCbor>(v: &mut Vec<T>) -> (r: Result<Vec<Cbor>, Error>)
    ensures
        (r is Ok) == (forall|i: int|
            0 <= i < old(v)@.len() ==> (#[trigger] old(v)@[i]).into_cbor_ok()),
        r is Ok ==> crate::cbor::list_view(r.unwrap()@) == old(v)@.map_values(
            |x: T| x.spec_into_cbor(),
        ),
        r is Err ==> r == Err::<Vec<Cbor>, Error>(Error::FailConvert),
{
    let ghost orig = old(v)@;
    let total = v.len();
    proof {
        assert(orig.len() == total);
    }
    let mut arr: Vec<Cbor> = Vec::new();
    let mut i: usize = 0;
    proof {
        assert(v@ =~= orig.skip(0));
        assert(orig.take(0) =~= Seq::<T>::empty());
        assert(crate::cbor::list_view(arr@) =~= orig.take(0).map_values(
            |x: T| x.spec_into_cbor(),
        ));
    }
    while v.len() > 0
        invariant
            orig == old(v)@,
            orig.len() <= usize::MAX,
            i + v@.len() == orig.len(),
            v@ == orig.skip(i as int),
            forall|j: int| 0 <= j < i ==> (#[trigger] orig[j]).into_cbor_ok(),
            crate::cbor::list_view(arr@) == orig.take(i as int).map_values(
                |x: T| x.spec_into_cbor(),
            ),
        decreases v@.len(),
    {
        let x = v.remove(0);
        proof {
            assert(x == orig[i as int]);
            assert(v@ =~= orig.skip(i as int + 1));
        }
        let ghost arr_old = arr@;
        match x.into_cbor() {
            Ok(c) => {
                arr.push(c);
                proof {
                    lemma_list_view_push(arr_old, arr@.last());
                    assert(arr@.drop_last() =~= arr_old);
                    assert(crate::cbor::list_view(arr@) =~= orig.take(i as int + 1).map_values(
                        |x: T| x.spec_into_cbor(),
                    ));
                }
            },
            Err(e) => {
                proof {
                    assert(!orig[i as int].into_cbor_ok());
                }
                return Err(e);
            },
        }
        i += 1;
    }
    proof {
        assert(orig.take(i as int) =~= orig);
    }
    Ok(arr)
}

/// Convert each element of a decoded list out, in order, draining the input.
fn vec_items_from_cbor<T: FromCbor>(data: &mut Vec<Cbor>) -> (r: Result<Vec<T>, Error>)
    ensures
        (r is Ok) == (forall|i: int|
            0 <= i < crate::cbor::list_view(old(data)@).len() ==> T::from_cbor_ok(
                #[trigger] crate::cbor::list_view(old(data)@)[i],
            )),
        r is Ok ==> {
            let l = crate::cbor::list_view(old(data)@);
            r.unwrap()@.len() == l.len() && forall|i: int|
                0 <= i < l.len() ==> T::from_cbor_rel(#[trigger] l[i], r.unwrap()@[i])
        },
        r is Err ==> r == Err::<Vec<T>, Error>(Error::FailConvert),
{
    let ghost orig = old(data)@;
    let ghost lv = crate::cbor::list_view(orig);
    let total = data.len();
    proof {
        assert(orig.len() == total);
        crate::cbor::lemma_list_view(orig);
        assert(data@ =~= orig.skip(0));
    }
    let mut out: Vec<T> = Vec::new();
    let mut i: usize = 0;
    while data.len() > 0
        invariant
            orig == old(data)@,
            lv == crate::cbor::list_view(orig),
            lv.len() == orig.len(),
            forall|j: int| 0 <= j < orig.len() ==> #[trigger] lv[j] == cbor_view(orig[j]),
            orig.len() <= usize::MAX,
            i + data@.len() == orig.len(),
            data@ == orig.skip(i as int),
            out@.len() == i,
            forall|j: int| 0 <= j < i ==> T::from_cbor_ok(#[trigger] lv[j]),
            forall|j: int| 0 <= j < i ==> T::from_cbor_rel(#[trigger] lv[j], out@[j]),
        decreases data@.len(),
    {
        let x = data.remove(0);
        proof {
            assert(x == orig[i as int]);
            assert(data@ =~= orig.skip(i as int + 1));
            assert(cbor_view(x) == lv[i as int]);
        }
        match T::from_cbor(x) {
            Ok(y) => {
                out.push(y);
            },
            Err(e) => {
                proof {
                    assert(!T::from_cbor_ok(lv[i as int]));
                }
                return Err(e);
            },
        }
        i += 1;
    }
    Ok(out)
}

impl<T: IntoCbor> IntoCbor for Vec<T> {
    open spec fn into_cbor_ok(self) -> bool {
        forall|i: int| 0 <= i < self@.len() ==> (#[trigger] self@[i]).into_cbor_ok()
    }

    open spec fn spec_into_cbor(self) -> CborV {
        CborV::Major4(
            canon_info(self@.len() as u64),
            self@.map_values(|x: T| x.spec_into_cbor()),
        )
    }

    fn into_cbor(self) -> (r: Result<Cbor, Error>) {
        let info = Info::from_usize(self.len());
        let mut items = self;
        match vec_items_into_cbor(&mut items) {
            Ok(arr) => Ok(Cbor::Major4(info, arr)),
            Err(e) => Err(e),
        }
    }
}

impl<T: FromCbor> FromCbor for Vec<T> {
    open spec fn from_cbor_ok(v: CborV) -> bool {
        v matches CborV::Major4(_, l) && forall|i: int|
            0 <= i < l.len() ==> T::from_cbor_ok(#[trigger] l[i])
    }

    open spec fn from_cbor_rel(v: CborV, r: Vec<T>) -> bool {
        v matches CborV::Major4(_, l) && r@.len() == l.len() && forall|i: int|
            0 <= i < l.len() ==> T::from_cbor_rel(#[trigger] l[i], r@[i])
    }

    fn from_cbor(val: Cbor) -> (r: Result<Vec<T>, Error>) {
        let ghost v0 = cbor_view(val);
        match val {
            Cbor::Major4(_, data) => {
                let ghost lv0 = crate::cbor::list_view(data@);
                proof {
                    assert(v0 matches CborV::Major4(_, l) && l == lv0);
                }
                let mut items = data;
                vec_items_from_cbor(&mut items)
            },
            _ => Err(Error::FailConvert),
        }
    }
}

impl<'a> IntoCbor for &'a [u8] {
    open spec fn into_cbor_ok(self) -> bool {
        true
    }

    open spec fn spec_into_cbor(self) -> CborV {
        CborV::Major2(canon_info(self@.len() as u64), self@)
    }

    fn into_cbor(self) -> (r: Result<Cbor, Error>) {
        let data = vstd::slice::slice_to_vec(self);
        let info = Info::from_usize(data.len());
        Ok(Cbor::Major2(info, data))
    }
}

impl<'a> IntoCbor for &'a str {
    open spec fn into_cbor_ok(self) -> bool {
        true
    }

    open spec fn spec_into_cbor(self) -> CborV {
        let b = vstd::utf8::encode_utf8(self@);
        CborV::Major3(canon_info(b.len() as u64), b)
    }

    fn into_cbor(self) -> (r: Result<Cbor, Error>) {
        let bytes = vstd::slice::slice_to_vec(self.as_bytes());
        let info = Info::from_usize(bytes.len());
        Ok(Cbor::Major3(info, bytes))
    }
}

} // verus!

verus! {

impl<T: Copy + IntoCbor, const N: usize> IntoCbor for [T; N] {
    open spec fn into_cbor_ok(self) -> bool {
        forall|i: int| 0 <= i < N ==> (#[trigger] self@[i]).into_cbor_ok()
    }

    open spec fn spec_into_cbor(self) -> CborV {
        CborV::Major4(canon_info(N as u64), self@.map_values(|x: T| x.spec_into_cbor()))
    }

    fn into_cbor(self) -> (r: Result<Cbor, Error>) {
        let info = Info::from_usize(N);
        let mut arr: Vec<Cbor> = Vec::new();
        let mut i: usize = 0;
        proof {
            assert(crate::cbor::list_view(arr@) =~= self@.take(0).map_values(
                |x: T| x.spec_into_cbor(),
            ));
        }
        while i < N
            invariant
                i <= N,
                self@.len() == N,
                forall|j: int| 0 <= j < i ==> (#[trigger] self@[j]).into_cbor_ok(),
                crate::cbor::list_view(arr@) == self@.take(i as int).map_values(
                    |x: T| x.spec_into_cbor(),
                ),
            decreases N - i,
        {
            let x = self[i];
            let ghost arr_old = arr@;
            match x.into_cbor() {
                Ok(c) => {
                    arr.push(c);
                    proof {
                        lemma_list_view_push(arr_old, arr@.last());
                        assert(arr@.drop_last() =~= arr_old);
                        assert(crate::cbor::list_view(arr@) =~= self@.take(i as int + 1).map_values(
                            |x: T| x.spec_into_cbor(),
                        ));
                    }
                },
                Err(e) => {
                    proof {
                        assert(!self@[i as int].into_cbor_ok());
                    }
                    return Err(e);
                },
            }
            i += 1;
        }
        proof {
            assert(self@.take(N as int) =~= self@);
        }
        Ok(Cbor::Major4(info, arr))
    }
}

impl<T: Copy + Default + FromCbor, const N: usize> FromCbor for [T; N] {
    open spec fn from_cbor_ok(v: CborV) -> bool {
        v matches CborV::Major4(_, l) && l.len() == N && forall|i: int|
            0 <= i < N ==> T::from_cbor_ok(#[trigger] l[i])
    }

    open spec fn from_cbor_rel(v: CborV, r: [T; N]) -> bool {
        v matches CborV::Major4(_, l) && l.len() == N && forall|i: int|
            0 <= i < N ==> T::from_cbor_rel(#[trigger] l[i], r@[i])
    }

    fn from_cbor(val: Cbor) -> (r: Result<[T; N], Error>) {
        let ghost v0 = cbor_view(val);
        match val {
            Cbor::Major4(_, data) => {
                let ghost lv0 = crate::cbor::list_view(data@);
                proof {
                    crate::cbor::lemma_list_view(data@);
                    assert(v0 matches CborV::Major4(_, l) && l == lv0);
                }
                if data.len() != N {
                    return Err(Error::FailConvert);
                }
                let mut items = data;
                let xs = vec_items_from_cbor::<T>(&mut items)?;
                let mut arr: [T; N] = vstd::array::array_fill_for_copy_types(T::default());
                let mut i: usize = 0;
                while i < N
                    invariant
                        i <= N,
                        xs@.len() == N,
                        forall|j: int| 0 <= j < i ==> #[trigger] arr@[j] == xs@[j],
                    decreases N - i,
                {
                    arr[i] = xs[i];
                    i += 1;
                }
                proof {
                    assert(forall|j: int| 0 <= j < N ==> #[trigger] arr@[j] == xs@[j]);
                }
                Ok(arr)
            },
            _ => Err(Error::FailConvert),
        }
    }
}

} // verus!
