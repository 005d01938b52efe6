//! The value model: major types, additional-info width classes, simple
//! values, tags and map keys, together with their mathematical views and
//! well-formedness rules.

use vstd::prelude::*;

verus! {

/// Recursion limit for nested values, on both the encode and the decode path.
pub const RECURSION_LIMIT: u32 = 1000;

/// 5-bit additional-info field of a header byte: how the magnitude that
/// follows the major type is laid out.
#[derive(Debug, Copy, Clone, PartialEq, Eq, Structural)]
pub enum Info {
    /// The magnitude 0..=23 is inlined in the header byte itself.
    Tiny(u8),
    /// The magnitude follows in the next byte.
    U8,
    /// The magnitude follows in the next 2 bytes, big-endian.
    U16,
    /// The magnitude follows in the next 4 bytes, big-endian.
    U32,
    /// The magnitude follows in the next 8 bytes, big-endian.
    U64,
    /// Reserved code 28; always invalid.
    Reserved28,
    /// Reserved code 29; always invalid.
    Reserved29,
    /// Reserved code 30; always invalid.
    Reserved30,
    /// Indefinite length, terminated by a Break simple value.
    Indefinite,
}

/// The width class a conforming encoder must choose for a magnitude: the
/// smallest of inline 0..=23 and 1/2/4/8 following bytes that holds it.
pub open spec fn canon_info(num: u64) -> Info {
    if num <= 23 {
        Info::Tiny(num as u8)
    } else if num <= u8::MAX as u64 {
        Info::U8
    } else if num <= u16::MAX as u64 {
        Info::U16
    } else if num <= u32::MAX as u64 {
        Info::U32
    } else {
        Info::U64
    }
}

impl Info {
    /// Minimal width class for a magnitude; the executable face of
    /// [`canon_info`].
    pub fn from_u64(num: u64) -> (r: Info)
        ensures
            r == canon_info(num),
    {
        if num <= 23 {
            Info::Tiny(num as u8)
        } else if num <= u8::MAX as u64 {
            Info::U8
        } else if num <= u16::MAX as u64 {
            Info::U16
        } else if num <= u32::MAX as u64 {
            Info::U32
        } else {
            Info::U64
        }
    }

    /// Width class for a byte count held in a `usize`.
    pub fn from_usize(num: usize) -> (r: Info)
        ensures
            r == canon_info(num as u64),
    {
        Info::from_u64(num as u64)
    }
}

/// Major type 7: the fixed set of atomic simple values. Floating-point
/// payloads are carried as their IEEE 754 bit patterns, so equality and
/// ordering are total bit-pattern order, not IEEE equality.
#[derive(Debug, Copy, Clone, PartialEq, Eq, Structural)]
pub enum SimpleValue {
    /// Codes 0..=19 and 28..=30 and 32..=255; never encoded.
    Unassigned,
    /// Boolean true, tiny code 20.
    True,
    /// Boolean false, tiny code 21.
    False,
    /// Null unitary value, tiny code 22; stands in for absent optionals.
    Null,
    /// Undefined unitary value, tiny code 23; never encoded.
    Undefined,
    /// Reserved one-byte simple value, code 24; never encoded.
    Reserved24(u8),
    /// 16-bit float, code 25; unsupported, rejected both ways.
    F16(u16),
    /// 32-bit float, code 26, held as its bit pattern.
    F32(u32),
    /// 64-bit float, code 27, held as its bit pattern.
    F64(u64),
    /// Break stop for indefinite-length encoding, code 31.
    Break,
}

/// Major type 6: either a generic numeric tag, whose payload is left to the
/// caller, or the distinguished identifier tag that wraps one nested value.
#[derive(Debug, PartialEq, Eq)]
pub enum Tag {
    /// Tag 39, the identifier marker: the sanctioned way to prefix a record
    /// with a stable type marker that a decoder checks before the fields.
    Identifier(Box<Cbor>),
    /// Any other tag number, treated as a literal value.
    Value(u64),
}

/// The protocol number of the identifier tag.
pub const TAG_IDENTIFIER: u64 = 39;

/// Possible types that can be used as a key in a map. Keys have a strict
/// total order, independent of the general value model; float keys are held
/// and ordered by bit pattern.
#[derive(Debug, Clone, PartialEq, Eq)]
pub enum Key {
    Bool(bool),
    N64(i64),
    U64(u64),
    F32(u32),
    F64(u64),
    Bytes(Vec<u8>),
    Text(String),
}

/// The value model over its eight major types, plus an opaque pre-encoded
/// variant for lazy passthrough.
#[derive(Debug, PartialEq, Eq)]
pub enum Cbor {
    /// Major 0: unsigned integer.
    Major0(Info, u64),
    /// Major 1: negative integer; the actual value is `-(magnitude + 1)`.
    Major1(Info, u64),
    /// Major 2: byte string.
    Major2(Info, Vec<u8>),
    /// Major 3: text string as UTF-8 bytes; validity is checked only on
    /// conversion out to a text type, not on decode.
    Major3(Info, Vec<u8>),
    /// Major 4: array; order is significant.
    Major4(Info, Vec<Cbor>),
    /// Major 5: map; insertion order is preserved verbatim.
    Major5(Info, Vec<(Key, Cbor)>),
    /// Major 6: tag.
    Major6(Info, Tag),
    /// Major 7: simple value.
    Major7(Info, SimpleValue),
    /// Already-encoded bytes, copied verbatim on encode.
    Binary(Vec<u8>),
}

/// Mathematical view of a [`Key`].
pub enum KeyV {
    Bool(bool),
    N64(i64),
    U64(u64),
    F32(u32),
    F64(u64),
    Bytes(Seq<u8>),
    Text(Seq<char>),
}

/// Mathematical view of a [`Tag`].
pub enum TagV {
    Identifier(Box<CborV>),
    Value(u64),
}

/// Mathematical view of a [`Cbor`] value.
pub enum CborV {
    Major0(Info, u64),
    Major1(Info, u64),
    Major2(Info, Seq<u8>),
    Major3(Info, Seq<u8>),
    Major4(Info, Seq<CborV>),
    Major5(Info, Seq<(KeyV, CborV)>),
    Major6(Info, TagV),
    Major7(Info, SimpleValue),
    Binary(Seq<u8>),
}

impl View for Key {
    type V = KeyV;

    open spec fn view(&self) -> KeyV {
        match self {
            Key::Bool(b) => KeyV::Bool(*b),
            Key::N64(n) => KeyV::N64(*n),
            Key::U64(n) => KeyV::U64(*n),
            Key::F32(bits) => KeyV::F32(*bits),
            Key::F64(bits) => KeyV::F64(*bits),
            Key::Bytes(b) => KeyV::Bytes(b@),
            Key::Text(t) => KeyV::Text(t@),
        }
    }
}

/// View of a list of values, element by element.
pub open spec fn list_view(l: Seq<Cbor>) -> Seq<CborV>
    decreases l,
{
    if l.len() == 0 {
        Seq::empty()
    } else {
        list_view(l.drop_last()).push(cbor_view(l.last()))
    }
}

/// View of a list of map entries, entry by entry.
pub open spec fn entries_view(l: Seq<(Key, Cbor)>) -> Seq<(KeyV, CborV)>
    decreases l,
{
    if l.len() == 0 {
        Seq::empty()
    } else {
        entries_view(l.drop_last()).push((l.last().0@, cbor_view(l.last().1)))
    }
}

/// View of a tag.
pub open spec fn tag_view(t: Tag) -> TagV
    decreases t,
{
    match t {
        Tag::Identifier(inner) => TagV::Identifier(Box::new(cbor_view(*inner))),
        Tag::Value(n) => TagV::Value(n),
    }
}

/// Deep view of a value.
pub open spec fn cbor_view(c: Cbor) -> CborV
    decreases c,
{
    match c {
        Cbor::Major0(i, n) => CborV::Major0(i, n),
        Cbor::Major1(i, n) => CborV::Major1(i, n),
        Cbor::Major2(i, b) => CborV::Major2(i, b@),
        Cbor::Major3(i, b) => CborV::Major3(i, b@),
        Cbor::Major4(i, l) => CborV::Major4(i, list_view(l@)),
        Cbor::Major5(i, m) => CborV::Major5(i, entries_view(m@)),
        Cbor::Major6(i, t) => CborV::Major6(i, tag_view(t)),
        Cbor::Major7(i, sv) => CborV::Major7(i, sv),
        Cbor::Binary(b) => CborV::Binary(b@),
    }
}

impl View for Cbor {
    type V = CborV;

    open spec fn view(&self) -> CborV {
        cbor_view(*self)
    }
}

} // verus!

verus! {

/// The tag number a tag is written with.
pub open spec fn tag_num(t: TagV) -> u64 {
    match t {
        TagV::Identifier(_) => TAG_IDENTIFIER,
        TagV::Value(n) => n,
    }
}

/// The (width class, simple value) pairs an encoder may produce: exactly
/// those of True, False, Null, F32, F64 and Break.
pub open spec fn sval_wf(info: Info, sv: SimpleValue) -> bool {
    match sv {
        SimpleValue::True => info == Info::Tiny(20u8),
        SimpleValue::False => info == Info::Tiny(21u8),
        SimpleValue::Null => info == Info::Tiny(22u8),
        SimpleValue::F32(_) => info == Info::U32,
        SimpleValue::F64(_) => info == Info::U64,
        SimpleValue::Break => info == Info::Indefinite,
        _ => false,
    }
}

/// A map entry an encoder accepts: a valid key and a well-formed value.
pub open spec fn pair_wf(e: (KeyV, CborV)) -> bool
    decreases e,
{
    key_wf(e.0) && cbor_wf(e.1)
}

/// A key an encoder accepts: a negative-range key is really negative, and
/// string keys fit the 64-bit length field.
pub open spec fn key_wf(k: KeyV) -> bool {
    match k {
        KeyV::N64(v) => v < 0,
        KeyV::Bytes(b) => b.len() <= u64::MAX,
        KeyV::Text(t) => vstd::utf8::encode_utf8(t).len() <= u64::MAX,
        _ => true,
    }
}

/// Well-formed, encodable values: every width class is the minimal one for
/// its magnitude or length, simple values are encodable, keys are valid, and
/// an opaque buffer is nonempty. This is what a conforming encoder is given
/// and a superset of nothing: decode may return wider classes, which are not
/// `cbor_wf` and cannot be re-encoded.
pub open spec fn cbor_wf(v: CborV) -> bool
    decreases v,
{
    match v {
        CborV::Major0(i, n) => i == canon_info(n),
        CborV::Major1(i, n) => i == canon_info(n),
        CborV::Major2(i, b) => b.len() <= u64::MAX && i == canon_info(b.len() as u64),
        CborV::Major3(i, b) => b.len() <= u64::MAX && i == canon_info(b.len() as u64),
        CborV::Major4(i, l) => l.len() <= u64::MAX && i == canon_info(l.len() as u64)
            && forall|j: int| 0 <= j < l.len() ==> cbor_wf(#[trigger] l[j]),
        CborV::Major5(i, es) => es.len() <= u64::MAX && i == canon_info(es.len() as u64)
            && forall|j: int| 0 <= j < es.len() ==> pair_wf(#[trigger] es[j]),
        CborV::Major6(i, t) => i == canon_info(tag_num(t)) && match t {
            TagV::Identifier(inner) => cbor_wf(*inner),
            TagV::Value(_) => true,
        },
        CborV::Major7(i, sv) => sval_wf(i, sv),
        CborV::Binary(b) => b.len() >= 1,
    }
}

/// Whether a value encoded at nesting depth `d` stays within the recursion
/// limit. Children of arrays and maps sit one level deeper; the payload of
/// an identifier tag starts a fresh count.
pub open spec fn depth_ok(v: CborV, d: nat) -> bool
    decreases v,
{
    d <= RECURSION_LIMIT && match v {
        CborV::Major4(_, l) => forall|j: int|
            0 <= j < l.len() ==> depth_ok(#[trigger] l[j], d + 1),
        CborV::Major5(_, es) => (es.len() > 0 ==> d + 1 <= RECURSION_LIMIT)
            && forall|j: int| 0 <= j < es.len() ==> depth_ok(#[trigger] es[j].1, d + 1),
        CborV::Major6(_, t) => match t {
            TagV::Identifier(inner) => depth_ok(*inner, 1),
            TagV::Value(_) => true,
        },
        _ => true,
    }
}

} // verus!

verus! {

/// A list's view has the same length and views each element.
pub proof fn lemma_list_view(l: Seq<Cbor>)
    ensures
        list_view(l).len() == l.len(),
        forall|j: int| 0 <= j < l.len() ==> #[trigger] list_view(l)[j] == cbor_view(l[j]),
    decreases l,
{
    if l.len() > 0 {
        lemma_list_view(l.drop_last());
    }
}

/// An entry list's view has the same length and views each entry.
pub proof fn lemma_entries_view(l: Seq<(Key, Cbor)>)
    ensures
        entries_view(l).len() == l.len(),
        forall|j: int|
            0 <= j < l.len() ==> #[trigger] entries_view(l)[j] == (l[j].0@, cbor_view(l[j].1)),
    decreases l,
{
    if l.len() > 0 {
        lemma_entries_view(l.drop_last());
    }
}

} // verus!

verus! {

/// Values a conforming encoder can produce from the outside: well-formed,
/// with no opaque pre-encoded buffer anywhere, and no generic tag that
/// carries the identifier number without the identifier's nested value.
/// Exactly these round-trip through encode and decode.
pub open spec fn canonical(v: CborV) -> bool
    decreases v,
{
    match v {
        CborV::Major4(_, l) => forall|j: int| 0 <= j < l.len() ==> canonical(#[trigger] l[j]),
        CborV::Major5(_, es) => forall|j: int| 0 <= j < es.len() ==> canonical(
            #[trigger] es[j].1,
        ),
        CborV::Major6(_, t) => match t {
            TagV::Identifier(inner) => canonical(*inner),
            TagV::Value(n) => n != TAG_IDENTIFIER,
        },
        CborV::Binary(_) => false,
        _ => true,
    }
}

/// The flat value form a key is written as.
pub open spec fn key_to_cbor(k: KeyV) -> CborV {
    match k {
        KeyV::U64(v) => CborV::Major0(canon_info(v), v),
        KeyV::N64(v) => {
            let m = (-(v as int + 1)) as u64;
            CborV::Major1(canon_info(m), m)
        },
        KeyV::Bytes(b) => CborV::Major2(canon_info(b.len() as u64), b),
        KeyV::Text(t) => {
            let b = vstd::utf8::encode_utf8(t);
            CborV::Major3(canon_info(b.len() as u64), b)
        },
        KeyV::Bool(true) => CborV::Major7(Info::Tiny(20u8), SimpleValue::True),
        KeyV::Bool(false) => CborV::Major7(Info::Tiny(21u8), SimpleValue::False),
        KeyV::F32(bits) => CborV::Major7(Info::U32, SimpleValue::F32(bits)),
        KeyV::F64(bits) => CborV::Major7(Info::U64, SimpleValue::F64(bits)),
    }
}

} // verus!

verus! {

/// Whether a width class can represent a magnitude.
pub open spec fn info_holds(i: Info, m: u64) -> bool {
    match i {
        Info::Tiny(v) => m <= 23 && v == m,
        Info::U8 => m <= u8::MAX as u64,
        Info::U16 => m <= u16::MAX as u64,
        Info::U32 => m <= u32::MAX as u64,
        Info::U64 => true,
        _ => false,
    }
}

/// How many bytes of additional value a width class takes.
pub open spec fn info_width(i: Info) -> nat {
    match i {
        Info::Tiny(_) => 0,
        Info::U8 => 1,
        Info::U16 => 2,
        Info::U32 => 4,
        Info::U64 => 8,
        _ => 0,
    }
}

/// Canonical minimal width: for every magnitude, the encoder's chosen width
/// class represents it, and no representing width class is narrower.
pub proof fn lemma_canonical_minimal_width(m: u64)
    ensures
        info_holds(canon_info(m), m),
        forall|i: Info| info_holds(i, m) ==> info_width(canon_info(m)) <= info_width(i),
{
    assert forall|i: Info| info_holds(i, m) implies info_width(canon_info(m)) <= info_width(
        i,
    ) by {
        if m <= 23 {
        } else if m <= u8::MAX as u64 {
        } else if m <= u16::MAX as u64 {
        } else if m <= u32::MAX as u64 {
        } else {
        }
    }
}

} // verus!

verus! {

/// Duplicate a key; the copy has the same view.
fn clone_key(k: &Key) -> (r: Key)
    ensures
        r@ == k@,
{
    match k {
        Key::Bool(b) => Key::Bool(*b),
        Key::N64(n) => Key::N64(*n),
        Key::U64(n) => Key::U64(*n),
        Key::F32(bits) => Key::F32(*bits),
        Key::F64(bits) => Key::F64(*bits),
        Key::Bytes(b) => Key::Bytes(clone_bytes(b)),
        Key::Text(t) => Key::Text(t.clone()),
    }
}

/// Duplicate a byte buffer.
fn clone_bytes(b: &Vec<u8>) -> (r: Vec<u8>)
    ensures
        r@ == b@,
{
    let mut out: Vec<u8> = Vec::new();
    let mut i: usize = 0;
    while i < b.len()
        invariant
            i <= b@.len(),
            out@ == b@.take(i as int),
        decreases b@.len() - i,
    {
        out.push(b[i]);
        proof {
            assert(out@ =~= b@.take(i as int + 1));
        }
        i += 1;
    }
    proof {
        assert(b@.take(b@.len() as int) =~= b@);
    }
    out
}

/// Duplicate each element of a list.
fn clone_items(list: &Vec<Cbor>) -> (r: Vec<Cbor>)
    ensures
        list_view(r@) == list_view(list@),
    decreases *list, 0int,
{
    let mut out: Vec<Cbor> = Vec::new();
    let mut j: usize = 0;
    proof {
        lemma_list_view(list@);
    }
    while j < list.len()
        invariant
            j <= list@.len(),
            list_view(out@) == list_view(list@).take(j as int),
            list_view(list@).len() == list@.len(),
            forall|k: int| 0 <= k < list@.len() ==> #[trigger] list_view(list@)[k] == cbor_view(
                list@[k],
            ),
        decreases list@.len() - j,
    {
        proof {
            broadcast use vstd::std_specs::vec::axiom_vec_decreases_to_view;
            broadcast use vstd::seq::axiom_seq_index_decreases;

            assert(decreases_to!(*list => list@[j as int]));
        }
        let ghost out_old = out@;
        out.push(clone_cbor(&list[j]));
        proof {
            assert(out@.drop_last() =~= out_old);
            assert(list_view(out@) =~= list_view(list@).take(j as int + 1));
        }
        j += 1;
    }
    proof {
        assert(list_view(list@).take(list@.len() as int) =~= list_view(list@));
    }
    out
}

/// Duplicate each entry of a map.
fn clone_pairs(map: &Vec<(Key, Cbor)>) -> (r: Vec<(Key, Cbor)>)
    ensures
        entries_view(r@) == entries_view(map@),
    decreases *map, 0int,
{
    let mut out: Vec<(Key, Cbor)> = Vec::new();
    let mut j: usize = 0;
    proof {
        lemma_entries_view(map@);
    }
    while j < map.len()
        invariant
            j <= map@.len(),
            entries_view(out@) == entries_view(map@).take(j as int),
            entries_view(map@).len() == map@.len(),
            forall|k: int| 0 <= k < map@.len() ==> #[trigger] entries_view(map@)[k]
                == (map@[k].0@, cbor_view(map@[k].1)),
        decreases map@.len() - j,
    {
        let pair = &map[j];
        proof {
            broadcast use vstd::std_specs::vec::axiom_vec_decreases_to_view;
            broadcast use vstd::seq::axiom_seq_index_decreases;

            assert(decreases_to!(*map => map@[j as int]));
            assert(decreases_to!(map@[j as int] => map@[j as int].1));
        }
        let ghost out_old = out@;
        out.push((clone_key(&pair.0), clone_cbor(&pair.1)));
        proof {
            assert(out@.drop_last() =~= out_old);
            assert(entries_view(out@) =~= entries_view(map@).take(j as int + 1));
        }
        j += 1;
    }
    proof {
        assert(entries_view(map@).take(map@.len() as int) =~= entries_view(map@));
    }
    out
}

/// Duplicate a value tree; the copy has the same deep view.
fn clone_cbor(c: &Cbor) -> (r: Cbor)
    ensures
        cbor_view(r) == cbor_view(*c),
    decreases *c, 1int,
{
    match c {
        Cbor::Major0(i, n) => Cbor::Major0(*i, *n),
        Cbor::Major1(i, n) => Cbor::Major1(*i, *n),
        Cbor::Major2(i, b) => Cbor::Major2(*i, clone_bytes(b)),
        Cbor::Major3(i, b) => Cbor::Major3(*i, clone_bytes(b)),
        Cbor::Major4(i, list) => {
            proof {
                broadcast use vstd::std_specs::vec::axiom_vec_decreases_to_view;

                assert(decreases_to!(*c => *list));
            }
            Cbor::Major4(*i, clone_items(list))
        },
        Cbor::Major5(i, map) => {
            proof {
                broadcast use vstd::std_specs::vec::axiom_vec_decreases_to_view;

                assert(decreases_to!(*c => *map));
            }
            Cbor::Major5(*i, clone_pairs(map))
        },
        Cbor::Major6(i, tag) => Cbor::Major6(
            *i,
            match tag {
                Tag::Value(n) => Tag::Value(*n),
                Tag::Identifier(inner) => Tag::Identifier(Box::new(clone_cbor(inner))),
            },
        ),
        Cbor::Major7(i, sv) => Cbor::Major7(*i, *sv),
        Cbor::Binary(b) => Cbor::Binary(clone_bytes(b)),
    }
}

impl Clone for Cbor {
    /// A deep copy with the same view.
    fn clone(&self) -> (r: Cbor)
        ensures
            cbor_view(r) == cbor_view(*self),
    {
        clone_cbor(self)
    }
}

impl Clone for Tag {
    /// A deep copy with the same view.
    fn clone(&self) -> (r: Tag)
        ensures
            tag_view(r) == tag_view(*self),
    {
        match self {
            Tag::Value(n) => Tag::Value(*n),
            Tag::Identifier(inner) => Tag::Identifier(Box::new(clone_cbor(inner))),
        }
    }
}

} // verus!
