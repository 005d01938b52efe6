//! Byte-level codec: the 1-byte (major, info) header and the variable-width
//! additional value that follows it.

use vstd::prelude::*;

use crate::cbor::{canon_info, cbor_view, cbor_wf, depth_ok, entries_view, key_wf, lemma_entries_view, lemma_list_view, list_view, key_to_cbor, canonical, pair_wf, sval_wf, tag_num, tag_view, Cbor, CborV, Info, Key, KeyV, SimpleValue, Tag, TagV, RECURSION_LIMIT, TAG_IDENTIFIER};
use crate::Error;

verus! {

/// The 5-bit code a width class is written as.
pub open spec fn info_code(info: Info) -> u8 {
    match info {
        Info::Tiny(v) => v,
        Info::U8 => 24,
        Info::U16 => 25,
        Info::U32 => 26,
        Info::U64 => 27,
        Info::Reserved28 => 28,
        Info::Reserved29 => 29,
        Info::Reserved30 => 30,
        Info::Indefinite => 31,
    }
}

/// The width class a 5-bit code stands for.
pub open spec fn info_of_code(code: u8) -> Info {
    if code <= 23 {
        Info::Tiny(code)
    } else if code == 24 {
        Info::U8
    } else if code == 25 {
        Info::U16
    } else if code == 26 {
        Info::U32
    } else if code == 27 {
        Info::U64
    } else if code == 28 {
        Info::Reserved28
    } else if code == 29 {
        Info::Reserved29
    } else if code == 30 {
        Info::Reserved30
    } else {
        Info::Indefinite
    }
}

/// A width class whose code survives the header round trip: its inline
/// magnitude, if any, fits in 5 bits.
pub open spec fn info_wf(info: Info) -> bool {
    match info {
        Info::Tiny(v) => v <= 23,
        _ => true,
    }
}

/// The single header byte for a major type and a width class.
pub open spec fn spec_hdr(major: u8, info: Info) -> u8
    recommends
        major <= 7,
        info_wf(info),
{
    (major * 32 + info_code(info)) as u8
}

proof fn lemma_hdr_roundtrip(major: u8, info: Info)
    requires
        major <= 7,
        info_wf(info),
    ensures
        spec_hdr(major, info) / 32 == major,
        info_of_code(spec_hdr(major, info) % 32) == info,
{
    let code = info_code(info);
    assert(code <= 31);
    assert((major * 32 + code) / 32 == major && (major * 32 + code) % 32 == code) by (nonlinear_arith)
        requires
            major <= 7,
            code <= 31,
    ;
}

/// Write the 1-byte header for `major` and `info`. Fails when an inline
/// magnitude is out of its 5-bit range.
pub fn encode_hdr(major: u8, info: Info, out: &mut Vec<u8>) -> (r: Result<usize, Error>)
    requires
        major <= 7,
    ensures
        info_wf(info) ==> r == Ok::<usize, Error>(1usize) && final(out)@ == old(out)@.push(
            spec_hdr(major, info),
        ),
        !info_wf(info) ==> r == Err::<usize, Error>(Error::FailCbor) && final(out)@ == old(out)@,
{
    let code: u8 = match info {
        Info::Tiny(v) => {
            if v <= 23 {
                v
            } else {
                return Err(Error::FailCbor);
            }
        },
        Info::U8 => 24,
        Info::U16 => 25,
        Info::U32 => 26,
        Info::U64 => 27,
        Info::Reserved28 => 28,
        Info::Reserved29 => 29,
        Info::Reserved30 => 30,
        Info::Indefinite => 31,
    };
    out.push(major * 32 + code);
    Ok(1)
}

/// Read the 1-byte header at `pos`: the major type and the width class.
/// Every byte decodes; reserved codes surface later, when the additional
/// value is read.
pub fn decode_hdr(buf: &[u8], pos: usize) -> (r: Result<(u8, Info, usize), Error>)
    ensures
        pos < buf@.len() ==> r == Ok::<(u8, Info, usize), Error>(
            (buf@[pos as int] / 32, info_of_code(buf@[pos as int] % 32), 1usize),
        ),
        pos >= buf@.len() ==> r == Err::<(u8, Info, usize), Error>(Error::IOError),
{
    if pos >= buf.len() {
        return Err(Error::IOError);
    }
    let b = buf[pos];
    let major = b / 32;
    let code = b % 32;
    let info = if code <= 23 {
        Info::Tiny(code)
    } else if code == 24 {
        Info::U8
    } else if code == 25 {
        Info::U16
    } else if code == 26 {
        Info::U32
    } else if code == 27 {
        Info::U64
    } else if code == 28 {
        Info::Reserved28
    } else if code == 29 {
        Info::Reserved29
    } else if code == 30 {
        Info::Reserved30
    } else {
        Info::Indefinite
    };
    Ok((major, info, 1))
}

} // verus!

verus! {

/// Big-endian bytes of `n`, one wide.
pub open spec fn be1(n: u64) -> Seq<u8> {
    seq![(n % 0x100) as u8]
}

/// Big-endian bytes of `n`, two wide.
pub open spec fn be2(n: u64) -> Seq<u8> {
    seq![((n / 0x100) % 0x100) as u8, (n % 0x100) as u8]
}

/// Big-endian bytes of `n`, four wide.
pub open spec fn be4(n: u64) -> Seq<u8> {
    seq![
        ((n / 0x100_0000) % 0x100) as u8,
        ((n / 0x1_0000) % 0x100) as u8,
        ((n / 0x100) % 0x100) as u8,
        (n % 0x100) as u8,
    ]
}

/// Big-endian bytes of `n`, eight wide.
pub open spec fn be8(n: u64) -> Seq<u8> {
    seq![
        ((n / 0x100_0000_0000_0000) % 0x100) as u8,
        ((n / 0x1_0000_0000_0000) % 0x100) as u8,
        ((n / 0x100_0000_0000) % 0x100) as u8,
        ((n / 0x1_0000_0000) % 0x100) as u8,
        ((n / 0x100_0000) % 0x100) as u8,
        ((n / 0x1_0000) % 0x100) as u8,
        ((n / 0x100) % 0x100) as u8,
        (n % 0x100) as u8,
    ]
}

/// The bytes a minimal-width encoder emits for a magnitude, after the
/// header: nothing for 0..=23, else the smallest of 1/2/4/8 big-endian
/// bytes.
pub open spec fn spec_addnl(num: u64) -> Seq<u8> {
    match canon_info(num) {
        Info::Tiny(_) => Seq::empty(),
        Info::U8 => be1(num),
        Info::U16 => be2(num),
        Info::U32 => be4(num),
        Info::U64 => be8(num),
        _ => Seq::empty(),
    }
}

} // verus!

verus! {

/// Payload bytes following a major-7 header.
pub open spec fn spec_sval_payload(sv: SimpleValue) -> Seq<u8> {
    match sv {
        SimpleValue::Reserved24(n) => seq![n],
        SimpleValue::F16(f) => be2(f as u64),
        SimpleValue::F32(bits) => be4(bits as u64),
        SimpleValue::F64(bits) => be8(bits),
        _ => Seq::empty(),
    }
}

/// The bytes a key is written as: the flat value forms of majors 0..=3
/// and 7.
pub open spec fn spec_encode_key(k: KeyV) -> Seq<u8> {
    match k {
        KeyV::U64(v) => seq![spec_hdr(0, canon_info(v))] + spec_addnl(v),
        KeyV::N64(v) => {
            let m = (-(v as int + 1)) as u64;
            seq![spec_hdr(1, canon_info(m))] + spec_addnl(m)
        },
        KeyV::Bytes(b) => seq![spec_hdr(2, canon_info(b.len() as u64))] + spec_addnl(
            b.len() as u64,
        ) + b,
        KeyV::Text(t) => {
            let b = vstd::utf8::encode_utf8(t);
            seq![spec_hdr(3, canon_info(b.len() as u64))] + spec_addnl(b.len() as u64) + b
        },
        KeyV::Bool(true) => seq![spec_hdr(7, Info::Tiny(20u8))],
        KeyV::Bool(false) => seq![spec_hdr(7, Info::Tiny(21u8))],
        KeyV::F32(bits) => seq![spec_hdr(7, Info::U32)] + be4(bits as u64),
        KeyV::F64(bits) => seq![spec_hdr(7, Info::U64)] + be8(bits),
    }
}

/// The bytes a well-formed value encodes to.
pub open spec fn spec_encode(v: CborV) -> Seq<u8>
    decreases v,
{
    match v {
        CborV::Major0(i, n) => seq![spec_hdr(0, i)] + spec_addnl(n),
        CborV::Major1(i, n) => seq![spec_hdr(1, i)] + spec_addnl(n),
        CborV::Major2(i, b) => seq![spec_hdr(2, i)] + spec_addnl(b.len() as u64) + b,
        CborV::Major3(i, b) => seq![spec_hdr(3, i)] + spec_addnl(b.len() as u64) + b,
        CborV::Major4(i, l) => seq![spec_hdr(4, i)] + spec_addnl(l.len() as u64)
            + spec_encode_list(l),
        CborV::Major5(i, es) => seq![spec_hdr(5, i)] + spec_addnl(es.len() as u64)
            + spec_encode_entries(es),
        CborV::Major6(i, t) => seq![spec_hdr(6, i)] + spec_addnl(tag_num(t)) + match t {
            TagV::Identifier(inner) => spec_encode(*inner),
            TagV::Value(_) => Seq::empty(),
        },
        CborV::Major7(i, sv) => seq![spec_hdr(7, i)] + spec_sval_payload(sv),
        CborV::Binary(b) => b,
    }
}

/// The concatenated encodings of a list of values.
pub open spec fn spec_encode_list(l: Seq<CborV>) -> Seq<u8>
    decreases l,
{
    if l.len() == 0 {
        Seq::empty()
    } else {
        spec_encode(l[0]) + spec_encode_list(l.drop_first())
    }
}

/// The concatenated encodings of a list of map entries, each a key
/// followed by a value.
pub open spec fn spec_encode_entries(es: Seq<(KeyV, CborV)>) -> Seq<u8>
    decreases es,
{
    if es.len() == 0 {
        Seq::empty()
    } else {
        spec_encode_key(es[0].0) + spec_encode(es[0].1) + spec_encode_entries(es.drop_first())
    }
}

} // verus!

verus! {

/// Append all of `b` to `out`.
fn push_bytes(out: &mut Vec<u8>, b: &[u8])
    ensures
        final(out)@ == old(out)@ + b@,
{
    let mut j: usize = 0;
    while j < b.len()
        invariant
            j <= b@.len(),
            out@ == old(out)@ + b@.subrange(0, j as int),
        decreases b@.len() - j,
    {
        out.push(b[j]);
        assert(out@ =~= old(out)@ + b@.subrange(0, j + 1));
        j += 1;
    }
    assert(out@ =~= old(out)@ + b@);
}

/// Append the two big-endian bytes of `n`.
fn write_be2(n: u64, out: &mut Vec<u8>)
    ensures
        final(out)@ == old(out)@ + be2(n),
{
    out.push(((n / 0x100) % 0x100) as u8);
    out.push((n % 0x100) as u8);
    assert(out@ =~= old(out)@ + be2(n));
}

/// Append the four big-endian bytes of `n`.
fn write_be4(n: u64, out: &mut Vec<u8>)
    ensures
        final(out)@ == old(out)@ + be4(n),
{
    out.push(((n / 0x100_0000) % 0x100) as u8);
    out.push(((n / 0x1_0000) % 0x100) as u8);
    out.push(((n / 0x100) % 0x100) as u8);
    out.push((n % 0x100) as u8);
    assert(out@ =~= old(out)@ + be4(n));
}

/// Append the eight big-endian bytes of `n`.
fn write_be8(n: u64, out: &mut Vec<u8>)
    ensures
        final(out)@ == old(out)@ + be8(n),
{
    out.push(((n / 0x100_0000_0000_0000) % 0x100) as u8);
    out.push(((n / 0x1_0000_0000_0000) % 0x100) as u8);
    out.push(((n / 0x100_0000_0000) % 0x100) as u8);
    out.push(((n / 0x1_0000_0000) % 0x100) as u8);
    out.push(((n / 0x100_0000) % 0x100) as u8);
    out.push(((n / 0x1_0000) % 0x100) as u8);
    out.push(((n / 0x100) % 0x100) as u8);
    out.push((n % 0x100) as u8);
    assert(out@ =~= old(out)@ + be8(n));
}

/// Write the additional value for a magnitude: nothing for 0..=23, else the
/// minimal of 1/2/4/8 big-endian bytes. Returns the byte count written.
pub fn encode_addnl(num: u64, out: &mut Vec<u8>) -> (r: usize)
    ensures
        final(out)@ == old(out)@ + spec_addnl(num),
        r == spec_addnl(num).len(),
{
    if num <= 23 {
        assert(out@ =~= old(out)@ + spec_addnl(num));
        0
    } else if num <= 0xFF {
        out.push((num % 0x100) as u8);
        assert(out@ =~= old(out)@ + spec_addnl(num));
        1
    } else if num <= 0xFFFF {
        write_be2(num, out);
        2
    } else if num <= 0xFFFF_FFFF {
        write_be4(num, out);
        4
    } else {
        write_be8(num, out);
        8
    }
}

/// Write the payload of a simple value: nothing for the unitary forms, the
/// raw byte for the reserved one-byte form, and the big-endian bit patterns
/// of floats.
fn encode_sval(sval: &SimpleValue, out: &mut Vec<u8>) -> (r: usize)
    ensures
        final(out)@ == old(out)@ + spec_sval_payload(*sval),
        r == spec_sval_payload(*sval).len(),
{
    match sval {
        SimpleValue::Reserved24(n) => {
            out.push(*n);
            assert(out@ =~= old(out)@ + spec_sval_payload(*sval));
            1
        },
        SimpleValue::F16(f) => {
            write_be2(*f as u64, out);
            2
        },
        SimpleValue::F32(bits) => {
            write_be4(*bits as u64, out);
            4
        },
        SimpleValue::F64(bits) => {
            write_be8(*bits, out);
            8
        },
        _ => {
            assert(out@ =~= old(out)@ + spec_sval_payload(*sval));
            0
        },
    }
}

/// Write one map key in its flat value form.
pub fn encode_key(key: &Key, out: &mut Vec<u8>) -> (r: Result<usize, Error>)
    ensures
        key_wf(key@) ==> r is Ok && r.unwrap() == spec_encode_key(key@).len() && final(out)@
            == old(out)@ + spec_encode_key(key@),
        !key_wf(key@) ==> r == Err::<usize, Error>(Error::FailConvert) && final(out)@ == old(
            out,
        )@,
{
    match key {
        Key::U64(v) => {
            let n = encode_hdr(0, Info::from_u64(*v), out).unwrap();
            let m = encode_addnl(*v, out);
            assert(out@ =~= old(out)@ + spec_encode_key(key@));
            Ok(n + m)
        },
        Key::N64(v) => {
            if *v >= 0 {
                return Err(Error::FailConvert);
            }
            let mag: u64 = (-(*v + 1)) as u64;
            let n = encode_hdr(1, Info::from_u64(mag), out).unwrap();
            let m = encode_addnl(mag, out);
            assert(out@ =~= old(out)@ + spec_encode_key(key@));
            Ok(n + m)
        },
        Key::Bytes(b) => {
            let start = out.len();
            let len64 = b.len() as u64;
            let _ = encode_hdr(2, Info::from_u64(len64), out).unwrap();
            let _ = encode_addnl(len64, out);
            push_bytes(out, b.as_slice());
            assert(out@ =~= old(out)@ + spec_encode_key(key@));
            Ok(out.len() - start)
        },
        Key::Text(t) => {
            let start = out.len();
            let bytes = t.as_str().as_bytes();
            let len64 = bytes.len() as u64;
            let _ = encode_hdr(3, Info::from_u64(len64), out).unwrap();
            let _ = encode_addnl(len64, out);
            push_bytes(out, bytes);
            assert(out@ =~= old(out)@ + spec_encode_key(key@));
            Ok(out.len() - start)
        },
        Key::Bool(b) => {
            let code: u8 = if *b {
                20
            } else {
                21
            };
            let n = encode_hdr(7, Info::Tiny(code), out).unwrap();
            assert(out@ =~= old(out)@ + spec_encode_key(key@));
            Ok(n)
        },
        Key::F32(bits) => {
            let n = encode_hdr(7, Info::U32, out).unwrap();
            write_be4(*bits as u64, out);
            assert(out@ =~= old(out)@ + spec_encode_key(key@));
            Ok(n + 4)
        },
        Key::F64(bits) => {
            let n = encode_hdr(7, Info::U64, out).unwrap();
            write_be8(*bits, out);
            assert(out@ =~= old(out)@ + spec_encode_key(key@));
            Ok(n + 8)
        },
    }
}

} // verus!

verus! {

/// Appending one value to a list appends its encoding to the list's.
proof fn lemma_enc_list_push(l: Seq<CborV>, x: CborV)
    ensures
        spec_encode_list(l.push(x)) == spec_encode_list(l) + spec_encode(x),
    decreases l,
{
    if l.len() == 0 {
        assert(l.push(x).drop_first() =~= Seq::<CborV>::empty());
        assert(l.push(x)[0] == x);
        assert(spec_encode_list(Seq::<CborV>::empty()) == Seq::<u8>::empty());
        assert(spec_encode_list(l.push(x)) == spec_encode(x) + Seq::<u8>::empty());
        assert(spec_encode(x) + Seq::<u8>::empty() =~= Seq::<u8>::empty() + spec_encode(x));
    } else {
        assert(l.push(x).drop_first() =~= l.drop_first().push(x));
        assert(l.push(x)[0] == l[0]);
        lemma_enc_list_push(l.drop_first(), x);
        assert(spec_encode(l[0]) + (spec_encode_list(l.drop_first()) + spec_encode(x)) =~= (
        spec_encode(l[0]) + spec_encode_list(l.drop_first())) + spec_encode(x));
    }
}

/// Appending one entry to an entry list appends its encoding.
proof fn lemma_enc_entries_push(es: Seq<(KeyV, CborV)>, e: (KeyV, CborV))
    ensures
        spec_encode_entries(es.push(e)) == spec_encode_entries(es) + spec_encode_key(e.0)
            + spec_encode(e.1),
    decreases es,
{
    if es.len() == 0 {
        assert(es.push(e).drop_first() =~= Seq::<(KeyV, CborV)>::empty());
        assert(es.push(e)[0] == e);
        assert(spec_encode_entries(Seq::<(KeyV, CborV)>::empty()) == Seq::<u8>::empty());
        assert(spec_encode_entries(es.push(e)) == spec_encode_key(e.0) + spec_encode(e.1)
            + Seq::<u8>::empty());
        assert(spec_encode_key(e.0) + spec_encode(e.1) + Seq::<u8>::empty() =~= Seq::<
        u8,
        >::empty() + spec_encode_key(e.0) + spec_encode(e.1));
    } else {
        assert(es.push(e).drop_first() =~= es.drop_first().push(e));
        assert(es.push(e)[0] == es[0]);
        lemma_enc_entries_push(es.drop_first(), e);
        assert(spec_encode_entries(es.push(e)) == spec_encode_key(es[0].0) + spec_encode(es[0].1)
            + (spec_encode_entries(es.drop_first()) + spec_encode_key(e.0) + spec_encode(e.1)));
        assert(spec_encode_key(es[0].0) + spec_encode(es[0].1) + (spec_encode_entries(
        es.drop_first()) + spec_encode_key(e.0) + spec_encode(e.1)) =~= (spec_encode_key(es[0].0)
            + spec_encode(es[0].1) + spec_encode_entries(es.drop_first())) + spec_encode_key(e.0)
            + spec_encode(e.1));
    }
}

} // verus!

verus! {

impl Tag {
    /// Construct a generic tag from its number.
    pub fn from_value(value: u64) -> (r: Tag)
        ensures
            tag_view(r) == TagV::Value(value),
    {
        Tag::Value(value)
    }

    /// Wrap a value with the identifier tag.
    pub fn from_identifier(value: Cbor) -> (r: Tag)
        ensures
            tag_view(r) == TagV::Identifier(Box::new(cbor_view(value))),
    {
        Tag::Identifier(Box::new(value))
    }

    /// The number this tag is written with.
    pub fn to_tag_value(&self) -> (r: u64)
        ensures
            r == tag_num(tag_view(*self)),
    {
        match self {
            Tag::Identifier(_) => TAG_IDENTIFIER,
            Tag::Value(val) => *val,
        }
    }
}


/// One encoding step of a list loop: appending one element's bytes extends
/// the encoded prefix by one element.
proof fn lemma_items_step(base: Seq<u8>, lv: Seq<CborV>, j: int, out_post: Seq<u8>)
    requires
        0 <= j < lv.len(),
        out_post == (base + spec_encode_list(lv.take(j))) + spec_encode(lv[j]),
    ensures
        out_post == base + spec_encode_list(lv.take(j + 1)),
{
    lemma_enc_list_push(lv.take(j), lv[j]);
    assert(lv.take(j).push(lv[j]) =~= lv.take(j + 1));
    assert(out_post =~= base + (spec_encode_list(lv.take(j)) + spec_encode(lv[j])));
}

/// One encoding step of a map loop: appending one pair's bytes extends the
/// encoded prefix by one entry.
proof fn lemma_entries_step(base: Seq<u8>, evs: Seq<(KeyV, CborV)>, j: int, out_post: Seq<u8>)
    requires
        0 <= j < evs.len(),
        out_post == ((base + spec_encode_entries(evs.take(j))) + spec_encode_key(evs[j].0))
            + spec_encode(evs[j].1),
    ensures
        out_post == base + spec_encode_entries(evs.take(j + 1)),
{
    lemma_enc_entries_push(evs.take(j), evs[j]);
    assert(evs.take(j).push(evs[j]) =~= evs.take(j + 1));
    assert(out_post =~= base + (spec_encode_entries(evs.take(j)) + spec_encode_key(evs[j].0)
        + spec_encode(evs[j].1)));
}

/// Encode each element of a list at one level below `depth`, in order.
#[verifier::rlimit(100)]
fn encode_items(list: &Vec<Cbor>, out: &mut Vec<u8>, depth: u32) -> (r: Result<(), Error>)
    requires
        forall|k: int| 0 <= k < list_view(list@).len() ==> cbor_wf(#[trigger] list_view(list@)[k]),
        1 <= depth <= RECURSION_LIMIT,
    ensures
        r is Ok ==> final(out)@ == old(out)@ + spec_encode_list(list_view(list@)),
        r is Ok <==> (forall|k: int|
            0 <= k < list_view(list@).len() ==> depth_ok(
                #[trigger] list_view(list@)[k],
                depth as nat + 1,
            )),
        r is Err ==> r == Err::<(), Error>(Error::FailCbor),
        old(out)@.is_prefix_of(final(out)@),
    decreases *list, 0int,
{
    let ghost lv = list_view(list@);
    proof {
        lemma_list_view(list@);
        assert(lv.take(0) =~= Seq::<CborV>::empty());
        assert(out@ =~= out@ + spec_encode_list(lv.take(0)));
    }
    let mut j: usize = 0;
    while j < list.len()
        invariant
            forall|k: int| 0 <= k < lv.len() ==> cbor_wf(#[trigger] lv[k]),
            lv == list_view(list@),
            j <= list@.len(),
            lv.len() == list@.len(),
            1 <= depth <= RECURSION_LIMIT,
            out@ == old(out)@ + spec_encode_list(lv.take(j as int)),
            forall|k: int| 0 <= k < j ==> depth_ok(#[trigger] lv[k], depth as nat + 1),
        decreases list@.len() - j,
    {
        proof {
            broadcast use vstd::std_specs::vec::axiom_vec_decreases_to_view;
            broadcast use vstd::seq::axiom_seq_index_decreases;

            lemma_list_view(list@);
            assert(decreases_to!(*list => list@[j as int]));
            assert(lv[j as int] == cbor_view(list@[j as int]));
            assert(cbor_wf(lv[j as int]));
        }
        let r = list[j].do_encode(out, depth + 1);
        match r {
            Ok(_) => {},
            Err(e) => {
                assert(!depth_ok(lv[j as int], depth as nat + 1));
                assert(old(out)@.is_prefix_of(out@));
                return Err(e);
            },
        }
        proof {
            lemma_items_step(old(out)@, lv, j as int, out@);
        }
        j += 1;
    }
    proof {
        assert(lv.take(lv.len() as int) =~= lv);
    }
    Ok(())
}

/// Encode one map entry: the key, then the value, both one level below
/// `depth`.
fn encode_pair(key: &Key, val: &Cbor, out: &mut Vec<u8>, depth: u32) -> (r: Result<(), Error>)
    requires
        key_wf(key@),
        cbor_wf(cbor_view(*val)),
        1 <= depth <= RECURSION_LIMIT,
    ensures
        r is Ok <==> depth as nat + 1 <= RECURSION_LIMIT && depth_ok(
            cbor_view(*val),
            depth as nat + 1,
        ),
        r is Ok ==> final(out)@ == (old(out)@ + spec_encode_key(key@)) + spec_encode(
            cbor_view(*val),
        ),
        r is Err ==> r == Err::<(), Error>(Error::FailCbor),
        old(out)@.is_prefix_of(final(out)@),
    decreases *val, 3int,
{
    if depth + 1 > RECURSION_LIMIT {
        assert(old(out)@.is_prefix_of(out@));
        return Err(Error::FailCbor);
    }
    let _ = encode_key(key, out).unwrap();
    match val.do_encode(out, depth + 1) {
        Ok(_) => Ok(()),
        Err(e) => {
            assert(old(out)@.is_prefix_of(out@));
            Err(e)
        },
    }
}

/// Encode each (key, value) pair of a map at one level below `depth`, in
/// insertion order.
#[verifier::rlimit(100)]
fn encode_pairs(map: &Vec<(Key, Cbor)>, out: &mut Vec<u8>, depth: u32) -> (r: Result<(), Error>)
    requires
        forall|k: int| 0 <= k < entries_view(map@).len() ==> pair_wf(
            #[trigger] entries_view(map@)[k],
        ),
        1 <= depth <= RECURSION_LIMIT,
    ensures
        r is Ok ==> final(out)@ == old(out)@ + spec_encode_entries(entries_view(map@)),
        r is Ok <==> ((map@.len() > 0 ==> depth as nat + 1 <= RECURSION_LIMIT) && (forall|k: int|
            0 <= k < entries_view(map@).len() ==> depth_ok(
                #[trigger] entries_view(map@)[k].1,
                depth as nat + 1,
            ))),
        r is Err ==> r == Err::<(), Error>(Error::FailCbor),
        old(out)@.is_prefix_of(final(out)@),
    decreases *map, 0int,
{
    let ghost evs = entries_view(map@);
    proof {
        lemma_entries_view(map@);
        assert(evs.take(0) =~= Seq::<(KeyV, CborV)>::empty());
        assert(out@ =~= out@ + spec_encode_entries(evs.take(0)));
    }
    let mut j: usize = 0;
    while j < map.len()
        invariant
            forall|k: int| 0 <= k < evs.len() ==> pair_wf(#[trigger] evs[k]),
            evs == entries_view(map@),
            j <= map@.len(),
            evs.len() == map@.len(),
            1 <= depth <= RECURSION_LIMIT,
            out@ == old(out)@ + spec_encode_entries(evs.take(j as int)),
            forall|k: int| 0 <= k < j ==> depth_ok(#[trigger] evs[k].1, depth as nat + 1),
            map@.len() > 0 && j > 0 ==> depth as nat + 1 <= RECURSION_LIMIT,
        decreases map@.len() - j,
    {
        let pair = &map[j];
        proof {
            broadcast use vstd::std_specs::vec::axiom_vec_decreases_to_view;
            broadcast use vstd::seq::axiom_seq_index_decreases;

            lemma_entries_view(map@);
            assert(decreases_to!(*map => map@[j as int]));
            assert(decreases_to!(map@[j as int] => map@[j as int].1));
            assert(evs[j as int] == (map@[j as int].0@, cbor_view(map@[j as int].1)));
            assert(pair_wf(evs[j as int]));
        }
        let r = encode_pair(&pair.0, &pair.1, out, depth);
        match r {
            Ok(_) => {},
            Err(e) => {
                assert(old(out)@.is_prefix_of(out@));
                return Err(e);
            },
        }
        proof {
            lemma_entries_step(old(out)@, evs, j as int, out@);
        }
        j += 1;
    }
    proof {
        assert(evs.take(evs.len() as int) =~= evs);
    }
    Ok(())
}

/// Encode an array: header, count, then each element one level deeper.
fn encode_major4(info: &Info, list: &Vec<Cbor>, out: &mut Vec<u8>, depth: u32) -> (r: Result<
    usize,
    Error,
>)
    requires
        cbor_wf(CborV::Major4(*info, list_view(list@))),
        1 <= depth <= RECURSION_LIMIT,
    ensures
        depth_ok(CborV::Major4(*info, list_view(list@)), depth as nat) ==> r is Ok && r.unwrap()
            == spec_encode(CborV::Major4(*info, list_view(list@))).len() && final(out)@ == old(
            out,
        )@ + spec_encode(CborV::Major4(*info, list_view(list@))),
        !depth_ok(CborV::Major4(*info, list_view(list@)), depth as nat) ==> r == Err::<
            usize,
            Error,
        >(Error::FailCbor),
        r is Err ==> old(out)@.is_prefix_of(final(out)@),
    decreases *list, 1int,
{
    let ghost v = CborV::Major4(*info, list_view(list@));
    proof {
        lemma_list_view(list@);
    }
    let start = out.len();
    let _ = encode_hdr(4, *info, out).unwrap();
    let _ = encode_addnl(list.len() as u64, out);
    match encode_items(list, out, depth) {
        Ok(_) => {
            proof {
                assert(out@ =~= old(out)@ + spec_encode(v));
            }
            Ok(out.len() - start)
        },
        Err(e) => {
            assert(!depth_ok(v, depth as nat));
            assert(old(out)@.is_prefix_of(out@));
            Err(e)
        },
    }
}

/// Encode a map: header, pair count, then each key and value one level
/// deeper, in insertion order.
fn encode_major5(info: &Info, map: &Vec<(Key, Cbor)>, out: &mut Vec<u8>, depth: u32) -> (r: Result<
    usize,
    Error,
>)
    requires
        cbor_wf(CborV::Major5(*info, entries_view(map@))),
        1 <= depth <= RECURSION_LIMIT,
    ensures
        depth_ok(CborV::Major5(*info, entries_view(map@)), depth as nat) ==> r is Ok && r.unwrap()
            == spec_encode(CborV::Major5(*info, entries_view(map@))).len() && final(out)@ == old(
            out,
        )@ + spec_encode(CborV::Major5(*info, entries_view(map@))),
        !depth_ok(CborV::Major5(*info, entries_view(map@)), depth as nat) ==> r == Err::<
            usize,
            Error,
        >(Error::FailCbor),
        r is Err ==> old(out)@.is_prefix_of(final(out)@),
    decreases *map, 1int,
{
    let ghost v = CborV::Major5(*info, entries_view(map@));
    proof {
        lemma_entries_view(map@);
    }
    proof {
        assert forall|k: int| 0 <= k < entries_view(map@).len() implies pair_wf(
            #[trigger] entries_view(map@)[k],
        ) by {
            assert(cbor_wf(v));
        }
    }
    let start = out.len();
    let _ = encode_hdr(5, *info, out).unwrap();
    let _ = encode_addnl(map.len() as u64, out);
    match encode_pairs(map, out, depth) {
        Ok(_) => {
            proof {
                assert(out@ =~= old(out)@ + spec_encode(v));
            }
            Ok(out.len() - start)
        },
        Err(e) => {
            assert(!depth_ok(v, depth as nat));
            assert(old(out)@.is_prefix_of(out@));
            Err(e)
        },
    }
}

impl Cbor {
    /// Serialize this value into `out`. Succeeds exactly when every level of
    /// the value sits within the recursion limit, and then appends exactly
    /// the value's encoding and returns its length; a too-deep value is
    /// refused with a structural error, never a stack overflow.
    pub fn encode(&self, out: &mut Vec<u8>) -> (r: Result<usize, Error>)
        requires
            cbor_wf(self@),
        ensures
            depth_ok(self@, 1) ==> r is Ok && r.unwrap() == spec_encode(self@).len()
                && final(out)@ == old(out)@ + spec_encode(self@),
            !depth_ok(self@, 1) ==> r == Err::<usize, Error>(Error::FailCbor),
            r is Err ==> old(out)@.is_prefix_of(final(out)@),
    {
        self.do_encode(out, 1)
    }

    /// Serialize at nesting depth `depth`.
    #[verifier::rlimit(100)]
    fn do_encode(&self, out: &mut Vec<u8>, depth: u32) -> (r: Result<usize, Error>)
        requires
            cbor_wf(self@),
            1 <= depth,
        ensures
            depth_ok(self@, depth as nat) ==> r is Ok && r.unwrap() == spec_encode(self@).len()
                && final(out)@ == old(out)@ + spec_encode(self@),
            !depth_ok(self@, depth as nat) ==> r == Err::<usize, Error>(Error::FailCbor),
            r is Err ==> old(out)@.is_prefix_of(final(out)@),
        decreases *self, 2int,
    {
        if depth > RECURSION_LIMIT {
            assert(old(out)@.is_prefix_of(out@));
            return Err(Error::FailCbor);
        }
        match self {
            Cbor::Major0(info, num) => {
                let n = encode_hdr(0, *info, out).unwrap();
                let m = encode_addnl(*num, out);
                assert(out@ =~= old(out)@ + spec_encode(self@));
                Ok(n + m)
            },
            Cbor::Major1(info, num) => {
                let n = encode_hdr(1, *info, out).unwrap();
                let m = encode_addnl(*num, out);
                assert(out@ =~= old(out)@ + spec_encode(self@));
                Ok(n + m)
            },
            Cbor::Major2(info, bytes) => {
                let start = out.len();
                let _ = encode_hdr(2, *info, out).unwrap();
                let _ = encode_addnl(bytes.len() as u64, out);
                push_bytes(out, bytes.as_slice());
                assert(out@ =~= old(out)@ + spec_encode(self@));
                Ok(out.len() - start)
            },
            Cbor::Major3(info, bytes) => {
                let start = out.len();
                let _ = encode_hdr(3, *info, out).unwrap();
                let _ = encode_addnl(bytes.len() as u64, out);
                push_bytes(out, bytes.as_slice());
                assert(out@ =~= old(out)@ + spec_encode(self@));
                Ok(out.len() - start)
            },
            Cbor::Major4(info, list) => {
                proof {
                    broadcast use vstd::std_specs::vec::axiom_vec_decreases_to_view;

                    assert(decreases_to!(*self => *list));
                    assert(self@ == CborV::Major4(*info, list_view(list@)));
                }
                encode_major4(info, list, out, depth)
            },
            Cbor::Major5(info, map) => {
                proof {
                    broadcast use vstd::std_specs::vec::axiom_vec_decreases_to_view;

                    assert(decreases_to!(*self => *map));
                    assert(self@ == CborV::Major5(*info, entries_view(map@)));
                }
                encode_major5(info, map, out, depth)
            },
            Cbor::Major6(info, tag) => {
                let start = out.len();
                let _ = encode_hdr(6, *info, out).unwrap();
                match tag {
                    Tag::Value(v) => {
                        let _ = encode_addnl(*v, out);
                        assert(out@ =~= old(out)@ + spec_encode(self@));
                        Ok(out.len() - start)
                    },
                    Tag::Identifier(inner) => {
                        let _ = encode_addnl(TAG_IDENTIFIER, out);
                        let r = inner.do_encode(out, 1);
                        match r {
                            Ok(_) => {
                                assert(out@ =~= old(out)@ + spec_encode(self@));
                                Ok(out.len() - start)
                            },
                            Err(e) => {
                                assert(!depth_ok(self@, depth as nat));
                                assert(old(out)@.is_prefix_of(out@));
                                Err(e)
                            },
                        }
                    },
                }
            },
            Cbor::Major7(info, sval) => {
                let n = encode_hdr(7, *info, out).unwrap();
                let m = encode_sval(sval, out);
                assert(out@ =~= old(out)@ + spec_encode(self@));
                Ok(n + m)
            },
            Cbor::Binary(data) => {
                push_bytes(out, data.as_slice());
                assert(out@ =~= old(out)@ + spec_encode(self@));
                Ok(data.len())
            },
        }
    }
}

} // verus!

verus! {

/// The magnitude following a header, read per the width class: the inline
/// value itself, the next 1/2/4/8 big-endian bytes, the streaming sentinel 0
/// for the indefinite class. A short read is an I/O failure; the three
/// reserved classes are structural failures.
pub open spec fn dec_addnl(info: Info, s: Seq<u8>) -> Result<(u64, nat), Error> {
    match info {
        Info::Tiny(v) => Ok((v as u64, 0nat)),
        Info::U8 => if s.len() >= 1 {
            Ok((s[0] as u64, 1nat))
        } else {
            Err(Error::IOError)
        },
        Info::U16 => if s.len() >= 2 {
            Ok((((s[0] as int) * 0x100 + s[1] as int) as u64, 2nat))
        } else {
            Err(Error::IOError)
        },
        Info::U32 => if s.len() >= 4 {
            Ok(
                (((s[0] as int) * 0x100_0000 + (s[1] as int) * 0x1_0000 + (s[2] as int) * 0x100
                    + s[3] as int) as u64, 4nat),
            )
        } else {
            Err(Error::IOError)
        },
        Info::U64 => if s.len() >= 8 {
            Ok(
                (((s[0] as int) * 0x100_0000_0000_0000 + (s[1] as int) * 0x1_0000_0000_0000 + (
                s[2] as int) * 0x100_0000_0000 + (s[3] as int) * 0x1_0000_0000 + (s[4] as int)
                    * 0x100_0000 + (s[5] as int) * 0x1_0000 + (s[6] as int) * 0x100
                    + s[7] as int) as u64, 8nat),
            )
        } else {
            Err(Error::IOError)
        },
        Info::Indefinite => Ok((0u64, 0nat)),
        _ => Err(Error::FailCbor),
    }
}

/// The simple value a (major 7, info) pair decodes to, with its payload
/// width. The undefined, unassigned, reserved and 16-bit float forms are
/// structural failures; a short float payload is an I/O failure.
pub open spec fn dec_sval(info: Info, s: Seq<u8>) -> Result<(SimpleValue, nat), Error> {
    match info {
        Info::Tiny(20u8) => Ok((SimpleValue::True, 0nat)),
        Info::Tiny(21u8) => Ok((SimpleValue::False, 0nat)),
        Info::Tiny(22u8) => Ok((SimpleValue::Null, 0nat)),
        Info::U32 => if s.len() >= 4 {
            Ok(
                (SimpleValue::F32(
                    ((s[0] as int) * 0x100_0000 + (s[1] as int) * 0x1_0000 + (s[2] as int) * 0x100
                        + s[3] as int) as u32,
                ), 4nat),
            )
        } else {
            Err(Error::IOError)
        },
        Info::U64 => if s.len() >= 8 {
            Ok(
                (SimpleValue::F64(
                    ((s[0] as int) * 0x100_0000_0000_0000 + (s[1] as int) * 0x1_0000_0000_0000 + (
                    s[2] as int) * 0x100_0000_0000 + (s[3] as int) * 0x1_0000_0000 + (
                    s[4] as int) * 0x100_0000 + (s[5] as int) * 0x1_0000 + (s[6] as int) * 0x100
                        + s[7] as int) as u64,
                ), 8nat),
            )
        } else {
            Err(Error::IOError)
        },
        Info::Indefinite => Ok((SimpleValue::Break, 0nat)),
        _ => Err(Error::FailCbor),
    }
}

/// The key a decoded value stands for, if it is key-capable: scalars, byte
/// strings, valid UTF-8 text, booleans and floats. Arrays, maps, tags and
/// the other simple values are not keys.
pub open spec fn key_of_cbor(v: CborV) -> Option<KeyV> {
    match v {
        CborV::Major0(_, n) => Some(KeyV::U64(n)),
        CborV::Major1(_, n) => if n <= i64::MAX as u64 {
            Some(KeyV::N64((-(n as int) - 1) as i64))
        } else {
            None
        },
        CborV::Major2(_, b) => Some(KeyV::Bytes(b)),
        CborV::Major3(_, b) => if vstd::utf8::valid_utf8(b) {
            Some(KeyV::Text(vstd::utf8::decode_utf8(b)))
        } else {
            None
        },
        CborV::Major7(_, SimpleValue::True) => Some(KeyV::Bool(true)),
        CborV::Major7(_, SimpleValue::False) => Some(KeyV::Bool(false)),
        CborV::Major7(_, SimpleValue::F32(bits)) => Some(KeyV::F32(bits)),
        CborV::Major7(_, SimpleValue::F64(bits)) => Some(KeyV::F64(bits)),
        _ => None,
    }
}

/// The value the byte suffix `s` decodes to at nesting depth `depth`,
/// together with the count of every byte consumed for it, terminators
/// included; or the failure: `IOError` on a short read, `FailCbor` on a
/// reserved width class, a recursion-limit breach, an unsupported simple
/// value or a Break in an indefinite map's key position, and `FailConvert`
/// on a mismatched indefinite chunk or a non-key-capable map key.
pub open spec fn spec_decode(s: Seq<u8>, depth: nat) -> Result<(CborV, nat), Error>
    decreases s.len(), 0nat,
{
    if depth > RECURSION_LIMIT {
        Err(Error::FailCbor)
    } else if s.len() < 1 {
        Err(Error::IOError)
    } else {
        let major = s[0] / 32;
        let info = info_of_code(s[0] % 32);
        let rest = s.skip(1);
        if major == 0 {
            match dec_addnl(info, rest) {
                Ok((n, m)) => Ok((CborV::Major0(info, n), 1 + m)),
                Err(e) => Err(e),
            }
        } else if major == 1 {
            match dec_addnl(info, rest) {
                Ok((n, m)) => Ok((CborV::Major1(info, n), 1 + m)),
                Err(e) => Err(e),
            }
        } else if major == 2 || major == 3 {
            if info == Info::Indefinite {
                match dec_chunks(major, rest, depth) {
                    Ok((data, m)) => Ok(
                        (
                            if major == 2 {
                                CborV::Major2(info, data)
                            } else {
                                CborV::Major3(info, data)
                            },
                            1 + m,
                        ),
                    ),
                    Err(e) => Err(e),
                }
            } else {
                match dec_addnl(info, rest) {
                    Ok((len, m)) => if m + len <= rest.len() {
                        Ok(
                            (
                                if major == 2 {
                                    CborV::Major2(
                                        info,
                                        rest.subrange(m as int, m + len),
                                    )
                                } else {
                                    CborV::Major3(
                                        info,
                                        rest.subrange(m as int, m + len),
                                    )
                                },
                                (1 + m + len) as nat,
                            ),
                        )
                    } else {
                        Err(Error::IOError)
                    },
                    Err(e) => Err(e),
                }
            }
        } else if major == 4 {
            if info == Info::Indefinite {
                match dec_items_indef(rest, depth) {
                    Ok((items, m)) => Ok((CborV::Major4(info, items), 1 + m)),
                    Err(e) => Err(e),
                }
            } else {
                match dec_addnl(info, rest) {
                    Ok((count, m)) => if m <= rest.len() {
                        match dec_items_def(rest.skip(m as int), depth, count) {
                            Ok((items, k)) => Ok((CborV::Major4(info, items), 1 + m + k)),
                            Err(e) => Err(e),
                        }
                    } else {
                        Err(Error::IOError)
                    },
                    Err(e) => Err(e),
                }
            }
        } else if major == 5 {
            if info == Info::Indefinite {
                match dec_pairs_indef(rest, depth) {
                    Ok((entries, m)) => Ok((CborV::Major5(info, entries), 1 + m)),
                    Err(e) => Err(e),
                }
            } else {
                match dec_addnl(info, rest) {
                    Ok((count, m)) => if m <= rest.len() {
                        match dec_pairs_def(rest.skip(m as int), depth, count) {
                            Ok((entries, k)) => Ok((CborV::Major5(info, entries), 1 + m + k)),
                            Err(e) => Err(e),
                        }
                    } else {
                        Err(Error::IOError)
                    },
                    Err(e) => Err(e),
                }
            }
        } else if major == 6 {
            match dec_addnl(info, rest) {
                Ok((t, m)) => if t == TAG_IDENTIFIER {
                    if 1 <= m <= rest.len() {
                        match spec_decode(rest.skip(m as int), 1) {
                            Ok((v, k)) => Ok(
                                (CborV::Major6(info, TagV::Identifier(Box::new(v))), 1 + m + k),
                            ),
                            Err(e) => Err(e),
                        }
                    } else {
                        Err(Error::FailCbor)
                    }
                } else {
                    Ok((CborV::Major6(info, TagV::Value(t)), 1 + m))
                },
                Err(e) => Err(e),
            }
        } else {
            match dec_sval(info, rest) {
                Ok((sv, m)) => Ok((CborV::Major7(info, sv), 1 + m)),
                Err(e) => Err(e),
            }
        }
    }
}

/// Definite-length chunks of an indefinite byte or text string, concatenated
/// in arrival order until a Break. The count covers every byte read, the
/// Break terminator's included; a decoded value of any other shape is a
/// conversion failure.
pub open spec fn dec_chunks(major: u8, s: Seq<u8>, depth: nat) -> Result<(Seq<u8>, nat), Error>
    decreases s.len(), 1nat,
{
    match spec_decode(s, depth + 1) {
        Err(e) => Err(e),
        Ok((v, n)) => match v {
            CborV::Major7(_, SimpleValue::Break) => Ok((Seq::empty(), n)),
            CborV::Major2(_, chunk) => if major == 2 {
                if 1 <= n <= s.len() {
                    match dec_chunks(major, s.skip(n as int), depth) {
                        Ok((data, m)) => Ok((chunk + data, n + m)),
                        Err(e) => Err(e),
                    }
                } else {
                    Err(Error::FailCbor)
                }
            } else {
                Err(Error::FailConvert)
            },
            CborV::Major3(_, chunk) => if major == 3 {
                if 1 <= n <= s.len() {
                    match dec_chunks(major, s.skip(n as int), depth) {
                        Ok((data, m)) => Ok((chunk + data, n + m)),
                        Err(e) => Err(e),
                    }
                } else {
                    Err(Error::FailCbor)
                }
            } else {
                Err(Error::FailConvert)
            },
            _ => Err(Error::FailConvert),
        },
    }
}

/// Elements of an indefinite-length array, until a Break. The count covers
/// every byte read, the Break terminator's included.
pub open spec fn dec_items_indef(s: Seq<u8>, depth: nat) -> Result<(Seq<CborV>, nat), Error>
    decreases s.len(), 1nat,
{
    match spec_decode(s, depth + 1) {
        Err(e) => Err(e),
        Ok((v, n)) => match v {
            CborV::Major7(_, SimpleValue::Break) => Ok((Seq::empty(), n)),
            item => if 1 <= n <= s.len() {
                match dec_items_indef(s.skip(n as int), depth) {
                    Ok((items, m)) => Ok((seq![item] + items, n + m)),
                    Err(e) => Err(e),
                }
            } else {
                Err(Error::FailCbor)
            },
        },
    }
}

/// Exactly `count` elements of a definite-length array.
pub open spec fn dec_items_def(s: Seq<u8>, depth: nat, count: u64) -> Result<
    (Seq<CborV>, nat),
    Error,
>
    decreases s.len(), 1nat,
{
    if count == 0 {
        Ok((Seq::empty(), 0nat))
    } else {
        match spec_decode(s, depth + 1) {
            Err(e) => Err(e),
            Ok((v, n)) => if 1 <= n <= s.len() {
                match dec_items_def(s.skip(n as int), depth, (count - 1) as u64) {
                    Ok((items, m)) => Ok((seq![v] + items, n + m)),
                    Err(e) => Err(e),
                }
            } else {
                Err(Error::FailCbor)
            },
        }
    }
}

/// Pairs of an indefinite-length map: a pair whose value half is a Break
/// ends the map, its key discarded but all its bytes counted; a Break in key
/// position is a protocol violation; a non-key-capable key is a conversion
/// failure.
pub open spec fn dec_pairs_indef(s: Seq<u8>, depth: nat) -> Result<
    (Seq<(KeyV, CborV)>, nat),
    Error,
>
    decreases s.len(), 1nat,
{
    match spec_decode(s, depth + 1) {
        Err(e) => Err(e),
        Ok((kv, j)) => if kv matches CborV::Major7(_, SimpleValue::Break) {
            Err(Error::FailCbor)
        } else if 1 <= j <= s.len() {
            match spec_decode(s.skip(j as int), depth + 1) {
                Err(e) => Err(e),
                Ok((vv, k)) => if vv matches CborV::Major7(_, SimpleValue::Break) {
                    Ok((Seq::empty(), (j + k) as nat))
                } else if 1 <= k <= s.len() - j {
                    match key_of_cbor(kv) {
                        None => Err(Error::FailConvert),
                        Some(key) => match dec_pairs_indef(s.skip(j as int + k), depth) {
                            Ok((entries, m)) => Ok((seq![(key, vv)] + entries, j + k + m)),
                            Err(e) => Err(e),
                        },
                    }
                } else {
                    Err(Error::FailCbor)
                },
            }
        } else {
            Err(Error::FailCbor)
        },
    }
}

/// Exactly `count` pairs of a definite-length map.
pub open spec fn dec_pairs_def(s: Seq<u8>, depth: nat, count: u64) -> Result<
    (Seq<(KeyV, CborV)>, nat),
    Error,
>
    decreases s.len(), 1nat,
{
    if count == 0 {
        Ok((Seq::empty(), 0nat))
    } else {
        match spec_decode(s, depth + 1) {
            Err(e) => Err(e),
            Ok((kv, j)) => if 1 <= j <= s.len() {
                match spec_decode(s.skip(j as int), depth + 1) {
                    Err(e) => Err(e),
                    Ok((vv, k)) => if 1 <= k <= s.len() - j {
                        match key_of_cbor(kv) {
                            None => Err(Error::FailConvert),
                            Some(key) => match dec_pairs_def(
                                s.skip(j as int + k),
                                depth,
                                (count - 1) as u64,
                            ) {
                                Ok((entries, m)) => Ok(
                                    (seq![(key, vv)] + entries, j + k + m),
                                ),
                                Err(e) => Err(e),
                            },
                        }
                    } else {
                        Err(Error::FailCbor)
                    },
                }
            } else {
                Err(Error::FailCbor)
            },
        }
    }
}

/// A successful decode consumes at least the header byte and never more
/// than what is there.
pub proof fn lemma_decode_consumes(s: Seq<u8>, depth: nat)
    ensures
        spec_decode(s, depth) matches Ok((v, n)) ==> 1 <= n <= s.len(),
    decreases s.len(), 0nat,
{
    if depth > RECURSION_LIMIT || s.len() < 1 {
    } else {
        let major = s[0] / 32;
        let info = info_of_code(s[0] % 32);
        let rest = s.skip(1);
        if major == 2 || major == 3 {
            if info == Info::Indefinite {
                lemma_chunks_consumes(major, rest, depth);
            }
        } else if major == 4 {
            if info == Info::Indefinite {
                lemma_items_indef_consumes(rest, depth);
            } else {
                match dec_addnl(info, rest) {
                    Ok((count, m)) => {
                        if m <= rest.len() {
                            lemma_items_def_consumes(rest.skip(m as int), depth, count);
                        }
                    },
                    Err(_) => {},
                }
            }
        } else if major == 5 {
            if info == Info::Indefinite {
                lemma_pairs_indef_consumes(rest, depth);
            } else {
                match dec_addnl(info, rest) {
                    Ok((count, m)) => {
                        if m <= rest.len() {
                            lemma_pairs_def_consumes(rest.skip(m as int), depth, count);
                        }
                    },
                    Err(_) => {},
                }
            }
        } else if major == 6 {
            match dec_addnl(info, rest) {
                Ok((t, m)) => {
                    if t == TAG_IDENTIFIER && 1 <= m <= rest.len() {
                        lemma_decode_consumes(rest.skip(m as int), 1);
                    }
                },
                Err(_) => {},
            }
        }
    }
}

/// Chunk streams consume no more than what is there.
proof fn lemma_chunks_consumes(major: u8, s: Seq<u8>, depth: nat)
    ensures
        dec_chunks(major, s, depth) matches Ok((d, m)) ==> m <= s.len(),
    decreases s.len(), 1nat,
{
    lemma_decode_consumes(s, depth + 1);
    match spec_decode(s, depth + 1) {
        Ok((v, n)) => match v {
            CborV::Major2(_, _) => {
                if major == 2 && 1 <= n <= s.len() {
                    lemma_chunks_consumes(major, s.skip(n as int), depth);
                }
            },
            CborV::Major3(_, _) => {
                if major == 3 && 1 <= n <= s.len() {
                    lemma_chunks_consumes(major, s.skip(n as int), depth);
                }
            },
            _ => {},
        },
        Err(_) => {},
    }
}

/// Indefinite element streams consume no more than what is there.
proof fn lemma_items_indef_consumes(s: Seq<u8>, depth: nat)
    ensures
        dec_items_indef(s, depth) matches Ok((items, m)) ==> m <= s.len(),
    decreases s.len(), 1nat,
{
    lemma_decode_consumes(s, depth + 1);
    match spec_decode(s, depth + 1) {
        Ok((v, n)) => {
            if !(v matches CborV::Major7(_, SimpleValue::Break)) && 1 <= n <= s.len() {
                lemma_items_indef_consumes(s.skip(n as int), depth);
            }
        },
        Err(_) => {},
    }
}

/// Definite element runs consume no more than what is there.
proof fn lemma_items_def_consumes(s: Seq<u8>, depth: nat, count: u64)
    ensures
        dec_items_def(s, depth, count) matches Ok((items, m)) ==> m <= s.len() && items.len()
            == count,
    decreases s.len(), 1nat,
{
    if count != 0 {
        lemma_decode_consumes(s, depth + 1);
        match spec_decode(s, depth + 1) {
            Ok((v, n)) => {
                if 1 <= n <= s.len() {
                    lemma_items_def_consumes(s.skip(n as int), depth, (count - 1) as u64);
                }
            },
            Err(_) => {},
        }
    }
}

/// Indefinite pair streams consume no more than what is there.
proof fn lemma_pairs_indef_consumes(s: Seq<u8>, depth: nat)
    ensures
        dec_pairs_indef(s, depth) matches Ok((entries, m)) ==> m <= s.len(),
    decreases s.len(), 1nat,
{
    lemma_decode_consumes(s, depth + 1);
    match spec_decode(s, depth + 1) {
        Ok((kv, j)) => {
            if !(kv matches CborV::Major7(_, SimpleValue::Break)) && 1 <= j <= s.len() {
                lemma_decode_consumes(s.skip(j as int), depth + 1);
                match spec_decode(s.skip(j as int), depth + 1) {
                    Ok((vv, k)) => {
                        if !(vv matches CborV::Major7(_, SimpleValue::Break)) && 1 <= k <= s.len()
                            - j {
                            lemma_pairs_indef_consumes(s.skip(j as int + k), depth);
                        }
                    },
                    Err(_) => {},
                }
            }
        },
        Err(_) => {},
    }
}

/// Definite pair runs consume no more than what is there.
proof fn lemma_pairs_def_consumes(s: Seq<u8>, depth: nat, count: u64)
    ensures
        dec_pairs_def(s, depth, count) matches Ok((entries, m)) ==> m <= s.len() && entries.len()
            == count,
    decreases s.len(), 1nat,
{
    if count != 0 {
        lemma_decode_consumes(s, depth + 1);
        match spec_decode(s, depth + 1) {
            Ok((kv, j)) => {
                if 1 <= j <= s.len() {
                    lemma_decode_consumes(s.skip(j as int), depth + 1);
                    match spec_decode(s.skip(j as int), depth + 1) {
                        Ok((vv, k)) => {
                            if 1 <= k <= s.len() - j {
                                lemma_pairs_def_consumes(s.skip(j as int + k), depth, (count
                                    - 1) as u64);
                            }
                        },
                        Err(_) => {},
                    }
                }
            },
            Err(_) => {},
        }
    }
}

} // verus!

verus! {

/// A small helper: the suffix of a suffix is the combined suffix.
proof fn lemma_skip_skip(b: Seq<u8>, i: int, j: int)
    requires
        0 <= i,
        0 <= j,
        i + j <= b.len(),
    ensures
        b.skip(i).skip(j) == b.skip(i + j),
{
    assert(b.skip(i).skip(j) =~= b.skip(i + j));
}

/// Read the next two bytes big-endian.
fn read2(buf: &[u8], pos: usize) -> (r: Result<u64, Error>)
    requires
        pos <= buf@.len(),
    ensures
        pos + 2 <= buf@.len() ==> r is Ok && r.unwrap() == ((buf@[pos as int] as int) * 0x100
            + buf@[pos as int + 1] as int) as u64,
        pos + 2 > buf@.len() ==> r == Err::<u64, Error>(Error::IOError),
{
    if buf.len() - pos < 2 {
        return Err(Error::IOError);
    }
    Ok((buf[pos] as u64) * 0x100 + buf[pos + 1] as u64)
}

/// Read the next four bytes big-endian.
fn read4(buf: &[u8], pos: usize) -> (r: Result<u64, Error>)
    requires
        pos <= buf@.len(),
    ensures
        pos + 4 <= buf@.len() ==> r is Ok && r.unwrap() == ((buf@[pos as int] as int) * 0x100_0000
            + (buf@[pos as int + 1] as int) * 0x1_0000 + (buf@[pos as int + 2] as int) * 0x100
            + buf@[pos as int + 3] as int) as u64,
        pos + 4 > buf@.len() ==> r == Err::<u64, Error>(Error::IOError),
{
    if buf.len() - pos < 4 {
        return Err(Error::IOError);
    }
    Ok(
        (buf[pos] as u64) * 0x100_0000 + (buf[pos + 1] as u64) * 0x1_0000 + (buf[pos + 2] as u64)
            * 0x100 + buf[pos + 3] as u64,
    )
}

/// Read the next eight bytes big-endian.
fn read8(buf: &[u8], pos: usize) -> (r: Result<u64, Error>)
    requires
        pos <= buf@.len(),
    ensures
        pos + 8 <= buf@.len() ==> r is Ok && r.unwrap() == ((buf@[pos as int] as int)
            * 0x100_0000_0000_0000 + (buf@[pos as int + 1] as int) * 0x1_0000_0000_0000 + (
        buf@[pos as int + 2] as int) * 0x100_0000_0000 + (buf@[pos as int + 3] as int)
            * 0x1_0000_0000 + (buf@[pos as int + 4] as int) * 0x100_0000 + (buf@[pos as int
            + 5] as int) * 0x1_0000 + (buf@[pos as int + 6] as int) * 0x100 + buf@[pos as int
            + 7] as int) as u64,
        pos + 8 > buf@.len() ==> r == Err::<u64, Error>(Error::IOError),
{
    if buf.len() - pos < 8 {
        return Err(Error::IOError);
    }
    Ok(
        (buf[pos] as u64) * 0x100_0000_0000_0000 + (buf[pos + 1] as u64) * 0x1_0000_0000_0000 + (
        buf[pos + 2] as u64) * 0x100_0000_0000 + (buf[pos + 3] as u64) * 0x1_0000_0000 + (buf[pos
            + 4] as u64) * 0x100_0000 + (buf[pos + 5] as u64) * 0x1_0000 + (buf[pos + 6] as u64)
            * 0x100 + buf[pos + 7] as u64,
    )
}

/// Read the additional value at `pos` per the width class: the executable
/// face of [`dec_addnl`]. A reserved class is a structural error; a short
/// read is an I/O error.
pub fn decode_addnl(info: Info, buf: &[u8], pos: usize) -> (r: Result<(u64, usize), Error>)
    requires
        pos <= buf@.len(),
    ensures
        match dec_addnl(info, buf@.skip(pos as int)) {
            Ok((n, m)) => r is Ok && r.unwrap().0 == n && r.unwrap().1 == m && pos + m
                <= buf@.len(),
            Err(e) => r == Err::<(u64, usize), Error>(e),
        },
{
    let ghost s = buf@.skip(pos as int);
    match info {
        Info::Tiny(v) => Ok((v as u64, 0)),
        Info::U8 => {
            if buf.len() - pos < 1 {
                return Err(Error::IOError);
            }
            assert(buf@[pos as int] == s[0]);
            Ok((buf[pos] as u64, 1))
        },
        Info::U16 => {
            let v = read2(buf, pos)?;
            Ok((v, 2))
        },
        Info::U32 => {
            let v = read4(buf, pos)?;
            Ok((v, 4))
        },
        Info::U64 => {
            let v = read8(buf, pos)?;
            Ok((v, 8))
        },
        Info::Indefinite => Ok((0, 0)),
        _ => Err(Error::FailCbor),
    }
}

/// Read the simple value selected by a major-7 header: the executable face
/// of [`dec_sval`].
fn decode_sval(info: Info, buf: &[u8], pos: usize) -> (r: Result<(SimpleValue, usize), Error>)
    requires
        pos <= buf@.len(),
    ensures
        match dec_sval(info, buf@.skip(pos as int)) {
            Ok((sv, m)) => r is Ok && r.unwrap().0 == sv && r.unwrap().1 == m && pos + m
                <= buf@.len(),
            Err(e) => r == Err::<(SimpleValue, usize), Error>(e),
        },
{
    let ghost s = buf@.skip(pos as int);
    match info {
        Info::Tiny(v) => {
            if v == 20 {
                Ok((SimpleValue::True, 0))
            } else if v == 21 {
                Ok((SimpleValue::False, 0))
            } else if v == 22 {
                Ok((SimpleValue::Null, 0))
            } else {
                Err(Error::FailCbor)
            }
        },
        Info::U32 => {
            let v = read4(buf, pos)?;
            Ok((SimpleValue::F32(v as u32), 4))
        },
        Info::U64 => {
            let v = read8(buf, pos)?;
            Ok((SimpleValue::F64(v), 8))
        },
        Info::Indefinite => Ok((SimpleValue::Break, 0)),
        _ => Err(Error::FailCbor),
    }
}

/// Relies on `String::from_utf8`: it returns `Ok` exactly on valid UTF-8,
/// and the string it returns holds the bytes' decoded characters, per
/// vstd's model of UTF-8.
#[verifier::external_body]
pub(crate) fn string_from_utf8(bytes: Vec<u8>) -> (r: Result<String, Error>)
    ensures
        r is Ok <==> vstd::utf8::valid_utf8(bytes@),
        r is Ok ==> r.unwrap()@ == vstd::utf8::decode_utf8(bytes@),
        r matches Err(e) ==> e == Error::FailConvert,
{
    String::from_utf8(bytes).map_err(|_| Error::FailConvert)
}

/// Convert a decoded value to a map key, if it is key-capable; text keys are
/// checked for UTF-8 validity here.
pub fn cbor_to_key(val: Cbor) -> (r: Result<Key, Error>)
    ensures
        match key_of_cbor(cbor_view(val)) {
            Some(k) => r is Ok && r.unwrap()@ == k,
            None => r == Err::<Key, Error>(Error::FailConvert),
        },
{
    match val {
        Cbor::Major0(_, n) => Ok(Key::U64(n)),
        Cbor::Major1(_, n) => {
            if n <= 0x7FFF_FFFF_FFFF_FFFF {
                Ok(Key::N64(-(n as i64) - 1))
            } else {
                Err(Error::FailConvert)
            }
        },
        Cbor::Major2(_, b) => Ok(Key::Bytes(b)),
        Cbor::Major3(_, b) => {
            let t = string_from_utf8(b)?;
            Ok(Key::Text(t))
        },
        Cbor::Major7(_, SimpleValue::True) => Ok(Key::Bool(true)),
        Cbor::Major7(_, SimpleValue::False) => Ok(Key::Bool(false)),
        Cbor::Major7(_, SimpleValue::F32(bits)) => Ok(Key::F32(bits)),
        Cbor::Major7(_, SimpleValue::F64(bits)) => Ok(Key::F64(bits)),
        _ => Err(Error::FailConvert),
    }
}

} // verus!

verus! {

/// Copy `len` bytes starting at `start` out of `buf`.
fn read_slice(buf: &[u8], start: usize, len: usize) -> (r: Vec<u8>)
    requires
        start + len <= buf@.len(),
    ensures
        r@ == buf@.subrange(start as int, start as int + len),
{
    let buf_len: usize = buf.len();
    let mut data: Vec<u8> = Vec::new();
    let mut i: usize = 0;
    while i < len
        invariant
            buf_len == buf@.len(),
            start + len <= buf@.len(),
            i <= len,
            data@ == buf@.subrange(start as int, start as int + i),
        decreases len - i,
    {
        data.push(buf[start + i]);
        assert(data@ =~= buf@.subrange(start as int, start as int + i + 1));
        i += 1;
    }
    data
}

/// Read a definite-length byte or text payload: the length as an additional
/// value, then exactly that many raw bytes.
fn decode_definite_bytes(buf: &[u8], start: usize, info: Info) -> (r: Result<
    (Vec<u8>, usize),
    Error,
>)
    requires
        start <= buf@.len(),
    ensures
        match dec_addnl(info, buf@.skip(start as int)) {
            Ok((len, m)) => if m + len <= buf@.len() - start {
                r is Ok && r.unwrap().0@ == buf@.skip(start as int).subrange(
                    m as int,
                    m + len,
                ) && r.unwrap().1 == m + len
            } else {
                r == Err::<(Vec<u8>, usize), Error>(Error::IOError)
            },
            Err(e) => r == Err::<(Vec<u8>, usize), Error>(e),
        },
{
    let buf_len: usize = buf.len();
    let (len, m) = decode_addnl(info, buf, start)?;
    let pos2 = start + m;
    let avail = buf.len() - pos2;
    if len > avail as u64 {
        return Err(Error::IOError);
    }
    let len_us = len as usize;
    let data = read_slice(buf, pos2, len_us);
    assert(data@ =~= buf@.skip(start as int).subrange(m as int, m as int + len));
    Ok((data, m + len_us))
}

/// Decode the chunks of an indefinite byte or text string, gathering them in
/// arrival order until a Break.
fn decode_chunks(major: u8, buf: &[u8], start: usize, depth: u32) -> (r: Result<
    (Vec<u8>, usize),
    Error,
>)
    requires
        start <= buf@.len(),
        major == 2 || major == 3,
        1 <= depth <= RECURSION_LIMIT,
    ensures
        match dec_chunks(major, buf@.skip(start as int), depth as nat) {
            Ok((data, m)) => r is Ok && r.unwrap().0@ == data && r.unwrap().1 == m && m
                <= buf@.len() - start,
            Err(e) => r == Err::<(Vec<u8>, usize), Error>(e),
        },
    decreases buf@.len() - start, 1int,
{
    let buf_len: usize = buf.len();
    let mut data: Vec<u8> = Vec::new();
    let mut p: usize = start;
    loop
        invariant
            buf_len == buf@.len(),
            start <= p <= buf@.len(),
            1 <= depth <= RECURSION_LIMIT,
            major == 2 || major == 3,
            match dec_chunks(major, buf@.skip(p as int), depth as nat) {
                Err(e) => dec_chunks(major, buf@.skip(start as int), depth as nat) == Err::<
                    (Seq<u8>, nat),
                    Error,
                >(e),
                Ok((d2, m2)) => dec_chunks(major, buf@.skip(start as int), depth as nat)
                    == Ok::<(Seq<u8>, nat), Error>((data@ + d2, (p - start + m2) as nat)),
            },
        decreases buf@.len() - p,
    {
        let ghost sp = buf@.skip(p as int);
        let (val, k) = match do_decode(buf, p, depth + 1) {
            Ok(x) => x,
            Err(e) => {
                return Err(e);
            },
        };
        proof {
            lemma_skip_skip(buf@, p as int, k as int);
        }
        match val {
            Cbor::Major2(_, chunk) => {
                if major != 2 {
                    return Err(Error::FailConvert);
                }
                let ghost old_data = data@;
                push_bytes(&mut data, chunk.as_slice());
                proof {
                    if dec_chunks(major, buf@.skip(p as int + k), depth as nat) is Ok {
                        let (d2, m2) = dec_chunks(
                            major,
                            buf@.skip(p as int + k),
                            depth as nat,
                        ).unwrap();
                        assert(old_data + (chunk@ + d2) =~= (old_data + chunk@) + d2);
                    }
                }
                p = p + k;
            },
            Cbor::Major3(_, chunk) => {
                if major != 3 {
                    return Err(Error::FailConvert);
                }
                let ghost old_data = data@;
                push_bytes(&mut data, chunk.as_slice());
                proof {
                    if dec_chunks(major, buf@.skip(p as int + k), depth as nat) is Ok {
                        let (d2, m2) = dec_chunks(
                            major,
                            buf@.skip(p as int + k),
                            depth as nat,
                        ).unwrap();
                        assert(old_data + (chunk@ + d2) =~= (old_data + chunk@) + d2);
                    }
                }
                p = p + k;
            },
            Cbor::Major7(_, SimpleValue::Break) => {
                assert(data@ + Seq::<u8>::empty() =~= data@);
                return Ok((data, p + k - start));
            },
            _ => {
                return Err(Error::FailConvert);
            },
        }
    }
}

/// Decode the elements of an indefinite-length array until a Break.
fn decode_items_indef(buf: &[u8], start: usize, depth: u32) -> (r: Result<
    (Vec<Cbor>, usize),
    Error,
>)
    requires
        start <= buf@.len(),
        1 <= depth <= RECURSION_LIMIT,
    ensures
        match dec_items_indef(buf@.skip(start as int), depth as nat) {
            Ok((items, m)) => r is Ok && list_view(r.unwrap().0@) == items && r.unwrap().1 == m
                && m <= buf@.len() - start,
            Err(e) => r == Err::<(Vec<Cbor>, usize), Error>(e),
        },
    decreases buf@.len() - start, 1int,
{
    let buf_len: usize = buf.len();
    let mut list: Vec<Cbor> = Vec::new();
    let mut p: usize = start;
    loop
        invariant
            buf_len == buf@.len(),
            start <= p <= buf@.len(),
            1 <= depth <= RECURSION_LIMIT,
            match dec_items_indef(buf@.skip(p as int), depth as nat) {
                Err(e) => dec_items_indef(buf@.skip(start as int), depth as nat) == Err::<
                    (Seq<CborV>, nat),
                    Error,
                >(e),
                Ok((items2, m2)) => dec_items_indef(buf@.skip(start as int), depth as nat)
                    == Ok::<(Seq<CborV>, nat), Error>(
                    (list_view(list@) + items2, (p - start + m2) as nat),
                ),
            },
        decreases buf@.len() - p,
    {
        let (val, k) = match do_decode(buf, p, depth + 1) {
            Ok(x) => x,
            Err(e) => {
                return Err(e);
            },
        };
        proof {
            lemma_skip_skip(buf@, p as int, k as int);
        }
        match val {
            Cbor::Major7(_, SimpleValue::Break) => {
                assert(list_view(list@) + Seq::<CborV>::empty() =~= list_view(list@));
                return Ok((list, p + k - start));
            },
            item => {
                let ghost old_list = list@;
                let ghost iv = cbor_view(item);
                list.push(item);
                proof {
                    assert(list@.drop_last() =~= old_list);
                    assert(list_view(list@) == list_view(old_list).push(iv));
                    if dec_items_indef(buf@.skip(p as int + k), depth as nat) is Ok {
                        let (items2, m2) = dec_items_indef(
                            buf@.skip(p as int + k),
                            depth as nat,
                        ).unwrap();
                        assert(list_view(old_list) + (seq![iv] + items2) =~= list_view(
                            old_list,
                        ).push(iv) + items2);
                    }
                }
                p = p + k;
            },
        }
    }
}

/// Decode exactly `count` elements of a definite-length array.
fn decode_items_def(buf: &[u8], start: usize, depth: u32, count: u64) -> (r: Result<
    (Vec<Cbor>, usize),
    Error,
>)
    requires
        start <= buf@.len(),
        1 <= depth <= RECURSION_LIMIT,
    ensures
        match dec_items_def(buf@.skip(start as int), depth as nat, count) {
            Ok((items, m)) => r is Ok && list_view(r.unwrap().0@) == items && r.unwrap().1 == m
                && m <= buf@.len() - start,
            Err(e) => r == Err::<(Vec<Cbor>, usize), Error>(e),
        },
    decreases buf@.len() - start, 1int,
{
    let buf_len: usize = buf.len();
    let mut list: Vec<Cbor> = Vec::new();
    let mut p: usize = start;
    let mut i: u64 = 0;
    while i < count
        invariant
            buf_len == buf@.len(),
            start <= p <= buf@.len(),
            1 <= depth <= RECURSION_LIMIT,
            i <= count,
            i <= p - start,
            match dec_items_def(buf@.skip(p as int), depth as nat, (count - i) as u64) {
                Err(e) => dec_items_def(buf@.skip(start as int), depth as nat, count) == Err::<
                    (Seq<CborV>, nat),
                    Error,
                >(e),
                Ok((items2, m2)) => dec_items_def(buf@.skip(start as int), depth as nat, count)
                    == Ok::<(Seq<CborV>, nat), Error>(
                    (list_view(list@) + items2, (p - start + m2) as nat),
                ),
            },
        decreases count - i,
    {
        let (val, k) = match do_decode(buf, p, depth + 1) {
            Ok(x) => x,
            Err(e) => {
                return Err(e);
            },
        };
        proof {
            lemma_skip_skip(buf@, p as int, k as int);
        }
        let ghost old_list = list@;
        let ghost iv = cbor_view(val);
        list.push(val);
        proof {
            assert(list@.drop_last() =~= old_list);
            assert(list_view(list@) == list_view(old_list).push(iv));
            if dec_items_def(buf@.skip(p as int + k), depth as nat, (count - i - 1) as u64)
                is Ok {
                let (items2, m2) = dec_items_def(
                    buf@.skip(p as int + k),
                    depth as nat,
                    (count - i - 1) as u64,
                ).unwrap();
                assert(list_view(old_list) + (seq![iv] + items2) =~= list_view(old_list).push(iv)
                    + items2);
            }
        }
        p = p + k;
        i += 1;
    }
    proof {
        assert(list_view(list@) + Seq::<CborV>::empty() =~= list_view(list@));
    }
    Ok((list, p - start))
}

/// Decode the pairs of an indefinite-length map: a Break in value position
/// ends the map; a Break in key position is a protocol violation.
fn decode_pairs_indef(buf: &[u8], start: usize, depth: u32) -> (r: Result<
    (Vec<(Key, Cbor)>, usize),
    Error,
>)
    requires
        start <= buf@.len(),
        1 <= depth <= RECURSION_LIMIT,
    ensures
        match dec_pairs_indef(buf@.skip(start as int), depth as nat) {
            Ok((entries, m)) => r is Ok && entries_view(r.unwrap().0@) == entries && r.unwrap().1
                == m && m <= buf@.len() - start,
            Err(e) => r == Err::<(Vec<(Key, Cbor)>, usize), Error>(e),
        },
    decreases buf@.len() - start, 1int,
{
    let buf_len: usize = buf.len();
    let mut map: Vec<(Key, Cbor)> = Vec::new();
    let mut p: usize = start;
    loop
        invariant
            buf_len == buf@.len(),
            start <= p <= buf@.len(),
            1 <= depth <= RECURSION_LIMIT,
            match dec_pairs_indef(buf@.skip(p as int), depth as nat) {
                Err(e) => dec_pairs_indef(buf@.skip(start as int), depth as nat) == Err::<
                    (Seq<(KeyV, CborV)>, nat),
                    Error,
                >(e),
                Ok((entries2, m2)) => dec_pairs_indef(buf@.skip(start as int), depth as nat)
                    == Ok::<(Seq<(KeyV, CborV)>, nat), Error>(
                    (entries_view(map@) + entries2, (p - start + m2) as nat),
                ),
            },
        decreases buf@.len() - p,
    {
        let (kval, j) = match do_decode(buf, p, depth + 1) {
            Ok(x) => x,
            Err(e) => {
                return Err(e);
            },
        };
        proof {
            lemma_skip_skip(buf@, p as int, j as int);
        }
        if matches!(kval, Cbor::Major7(_, SimpleValue::Break)) {
            return Err(Error::FailCbor);
        }
        let (vval, k) = match do_decode(buf, p + j, depth + 1) {
            Ok(x) => x,
            Err(e) => {
                return Err(e);
            },
        };
        proof {
            lemma_skip_skip(buf@, p as int, j as int + k as int);
            lemma_skip_skip(buf@, p as int + j as int, k as int);
        }
        if matches!(vval, Cbor::Major7(_, SimpleValue::Break)) {
            assert(entries_view(map@) + Seq::<(KeyV, CborV)>::empty() =~= entries_view(map@));
            return Ok((map, p + j + k - start));
        }
        let key = cbor_to_key(kval)?;
        let ghost old_map = map@;
        let ghost kv = key@;
        let ghost vv = cbor_view(vval);
        map.push((key, vval));
        proof {
            assert(map@.drop_last() =~= old_map);
            assert(entries_view(map@) == entries_view(old_map).push((kv, vv)));
            if dec_pairs_indef(buf@.skip(p as int + j + k), depth as nat) is Ok {
                let (entries2, m2) = dec_pairs_indef(
                    buf@.skip(p as int + j + k),
                    depth as nat,
                ).unwrap();
                assert(entries_view(old_map) + (seq![(kv, vv)] + entries2) =~= entries_view(
                    old_map,
                ).push((kv, vv)) + entries2);
            }
        }
        p = p + j + k;
    }
}

/// Decode exactly `count` pairs of a definite-length map.
fn decode_pairs_def(buf: &[u8], start: usize, depth: u32, count: u64) -> (r: Result<
    (Vec<(Key, Cbor)>, usize),
    Error,
>)
    requires
        start <= buf@.len(),
        1 <= depth <= RECURSION_LIMIT,
    ensures
        match dec_pairs_def(buf@.skip(start as int), depth as nat, count) {
            Ok((entries, m)) => r is Ok && entries_view(r.unwrap().0@) == entries && r.unwrap().1
                == m && m <= buf@.len() - start,
            Err(e) => r == Err::<(Vec<(Key, Cbor)>, usize), Error>(e),
        },
    decreases buf@.len() - start, 1int,
{
    let buf_len: usize = buf.len();
    let mut map: Vec<(Key, Cbor)> = Vec::new();
    let mut p: usize = start;
    let mut i: u64 = 0;
    while i < count
        invariant
            buf_len == buf@.len(),
            start <= p <= buf@.len(),
            1 <= depth <= RECURSION_LIMIT,
            i <= count,
            i <= p - start,
            match dec_pairs_def(buf@.skip(p as int), depth as nat, (count - i) as u64) {
                Err(e) => dec_pairs_def(buf@.skip(start as int), depth as nat, count) == Err::<
                    (Seq<(KeyV, CborV)>, nat),
                    Error,
                >(e),
                Ok((entries2, m2)) => dec_pairs_def(buf@.skip(start as int), depth as nat, count)
                    == Ok::<(Seq<(KeyV, CborV)>, nat), Error>(
                    (entries_view(map@) + entries2, (p - start + m2) as nat),
                ),
            },
        decreases count - i,
    {
        let (kval, j) = match do_decode(buf, p, depth + 1) {
            Ok(x) => x,
            Err(e) => {
                return Err(e);
            },
        };
        proof {
            lemma_skip_skip(buf@, p as int, j as int);
        }
        let (vval, k) = match do_decode(buf, p + j, depth + 1) {
            Ok(x) => x,
            Err(e) => {
                return Err(e);
            },
        };
        proof {
            lemma_skip_skip(buf@, p as int, j as int + k as int);
            lemma_skip_skip(buf@, p as int + j as int, k as int);
        }
        let key = cbor_to_key(kval)?;
        let ghost old_map = map@;
        let ghost kv = key@;
        let ghost vv = cbor_view(vval);
        map.push((key, vval));
        proof {
            assert(map@.drop_last() =~= old_map);
            assert(entries_view(map@) == entries_view(old_map).push((kv, vv)));
            if dec_pairs_def(buf@.skip(p as int + j + k), depth as nat, (count - i - 1) as u64)
                is Ok {
                let (entries2, m2) = dec_pairs_def(
                    buf@.skip(p as int + j + k),
                    depth as nat,
                    (count - i - 1) as u64,
                ).unwrap();
                assert(entries_view(old_map) + (seq![(kv, vv)] + entries2) =~= entries_view(
                    old_map,
                ).push((kv, vv)) + entries2);
            }
        }
        p = p + j + k;
        i += 1;
    }
    proof {
        assert(entries_view(map@) + Seq::<(KeyV, CborV)>::empty() =~= entries_view(map@));
    }
    Ok((map, p - start))
}

/// Deserialize the value at `pos`, at nesting depth `depth`.
#[verifier::rlimit(100)]
fn do_decode(buf: &[u8], pos: usize, depth: u32) -> (r: Result<(Cbor, usize), Error>)
    requires
        pos <= buf@.len(),
        1 <= depth,
    ensures
        match spec_decode(buf@.skip(pos as int), depth as nat) {
            Ok((v, n)) => r is Ok && cbor_view(r.unwrap().0) == v && r.unwrap().1 == n && 1 <= n
                <= buf@.len() - pos,
            Err(e) => r == Err::<(Cbor, usize), Error>(e),
        },
    decreases buf@.len() - pos, 0int,
{
    let buf_len: usize = buf.len();
    proof {
        lemma_decode_consumes(buf@.skip(pos as int), depth as nat);
    }
    if depth > RECURSION_LIMIT {
        return Err(Error::FailCbor);
    }
    let (major, info, _) = decode_hdr(buf, pos)?;
    let pos1 = pos + 1;
    proof {
        lemma_skip_skip(buf@, pos as int, 1);
        assert(buf@.skip(pos as int)[0] == buf@[pos as int]);
    }
    match major {
        0 => {
            let (n, m) = decode_addnl(info, buf, pos1)?;
            Ok((Cbor::Major0(info, n), 1 + m))
        },
        1 => {
            let (n, m) = decode_addnl(info, buf, pos1)?;
            Ok((Cbor::Major1(info, n), 1 + m))
        },
        2 => {
            match info {
                Info::Indefinite => {
                    let (data, m) = decode_chunks(2, buf, pos1, depth)?;
                    Ok((Cbor::Major2(info, data), 1 + m))
                },
                _ => {
                    let (data, m) = decode_definite_bytes(buf, pos1, info)?;
                    Ok((Cbor::Major2(info, data), 1 + m))
                },
            }
        },
        3 => {
            match info {
                Info::Indefinite => {
                    let (data, m) = decode_chunks(3, buf, pos1, depth)?;
                    Ok((Cbor::Major3(info, data), 1 + m))
                },
                _ => {
                    let (data, m) = decode_definite_bytes(buf, pos1, info)?;
                    Ok((Cbor::Major3(info, data), 1 + m))
                },
            }
        },
        4 => {
            match info {
                Info::Indefinite => {
                    let (list, m) = decode_items_indef(buf, pos1, depth)?;
                    Ok((Cbor::Major4(info, list), 1 + m))
                },
                _ => {
                    let (count, m0) = decode_addnl(info, buf, pos1)?;
                    proof {
                        lemma_skip_skip(buf@, pos1 as int, m0 as int);
                    }
                    let (list, m) = decode_items_def(buf, pos1 + m0, depth, count)?;
                    Ok((Cbor::Major4(info, list), 1 + m0 + m))
                },
            }
        },
        5 => {
            match info {
                Info::Indefinite => {
                    let (map, m) = decode_pairs_indef(buf, pos1, depth)?;
                    Ok((Cbor::Major5(info, map), 1 + m))
                },
                _ => {
                    let (count, m0) = decode_addnl(info, buf, pos1)?;
                    proof {
                        lemma_skip_skip(buf@, pos1 as int, m0 as int);
                    }
                    let (map, m) = decode_pairs_def(buf, pos1 + m0, depth, count)?;
                    Ok((Cbor::Major5(info, map), 1 + m0 + m))
                },
            }
        },
        6 => {
            let (t, m) = decode_addnl(info, buf, pos1)?;
            if t == TAG_IDENTIFIER {
                assert(1 <= m);
                proof {
                    lemma_skip_skip(buf@, pos1 as int, m as int);
                }
                let (val, k) = do_decode(buf, pos1 + m, 1)?;
                Ok((Cbor::Major6(info, Tag::Identifier(Box::new(val))), 1 + m + k))
            } else {
                Ok((Cbor::Major6(info, Tag::Value(t)), 1 + m))
            }
        },
        _ => {
            assert(major == 7) by {
                assert(buf@[pos as int] / 32 <= 7);
            };
            let (sv, m) = decode_sval(info, buf, pos1)?;
            Ok((Cbor::Major7(info, sv), 1 + m))
        },
    }
}

impl Cbor {
    /// Deserialize a value from the front of `buf`: the value and the byte
    /// count the decoder reports consuming. Succeeds exactly where the
    /// byte-level grammar does; any short read, reserved width class,
    /// recursion-limit breach, mismatched indefinite chunk or non-key-capable
    /// map key is a hard failure.
    pub fn decode(buf: &[u8]) -> (r: Result<(Cbor, usize), Error>)
        ensures
            match spec_decode(buf@, 1) {
                Ok((v, n)) => r is Ok && cbor_view(r.unwrap().0) == v && r.unwrap().1 == n,
                Err(e) => r == Err::<(Cbor, usize), Error>(e),
            },
    {
        proof {
            assert(buf@.skip(0) =~= buf@);
        }
        do_decode(buf, 0, 1)
    }
}

} // verus!

verus! {

/// A minimal-width additional value reads back as the magnitude it was
/// written from, whatever follows it.
proof fn lemma_addnl_roundtrip(n: u64, rest: Seq<u8>)
    ensures
        dec_addnl(canon_info(n), spec_addnl(n) + rest) == Ok::<(u64, nat), Error>(
            (n, spec_addnl(n).len() as nat),
        ),
{
    let s = spec_addnl(n) + rest;
    if n <= 23 {
    } else if n <= 0xFF {
        assert(s[0] == n % 0x100);
        assert(n % 0x100 == n) by (bit_vector)
            requires
                n <= 0xFF,
        ;
    } else if n <= 0xFFFF {
        assert(s[0] == (n / 0x100) % 0x100 && s[1] == n % 0x100);
        assert(((n / 0x100) % 0x100) * 0x100 + n % 0x100 == n) by (bit_vector)
            requires
                n <= 0xFFFF,
        ;
    } else if n <= 0xFFFF_FFFF {
        assert(s[0] == (n / 0x100_0000) % 0x100 && s[1] == (n / 0x1_0000) % 0x100 && s[2] == (n
            / 0x100) % 0x100 && s[3] == n % 0x100);
        assert(((n / 0x100_0000) % 0x100) * 0x100_0000 + ((n / 0x1_0000) % 0x100) * 0x1_0000 + ((n
            / 0x100) % 0x100) * 0x100 + n % 0x100 == n) by (bit_vector)
            requires
                n <= 0xFFFF_FFFF,
        ;
    } else {
        assert(s[0] == (n / 0x100_0000_0000_0000) % 0x100 && s[1] == (n / 0x1_0000_0000_0000)
            % 0x100 && s[2] == (n / 0x100_0000_0000) % 0x100 && s[3] == (n / 0x1_0000_0000) % 0x100
            && s[4] == (n / 0x100_0000) % 0x100 && s[5] == (n / 0x1_0000) % 0x100 && s[6] == (n
            / 0x100) % 0x100 && s[7] == n % 0x100);
        assert(((n / 0x100_0000_0000_0000) % 0x100) * 0x100_0000_0000_0000 + ((n
            / 0x1_0000_0000_0000) % 0x100) * 0x1_0000_0000_0000 + ((n / 0x100_0000_0000) % 0x100)
            * 0x100_0000_0000 + ((n / 0x1_0000_0000) % 0x100) * 0x1_0000_0000 + ((n / 0x100_0000)
            % 0x100) * 0x100_0000 + ((n / 0x1_0000) % 0x100) * 0x1_0000 + ((n / 0x100) % 0x100)
            * 0x100 + n % 0x100 == n) by (bit_vector);
    }
}

} // verus!

verus! {

/// Four big-endian bytes at the front of `s` read back as their value.
proof fn lemma_be4_value(n: u64, s: Seq<u8>)
    requires
        n <= 0xFFFF_FFFF,
        s.len() >= 4,
        forall|i: int| 0 <= i < 4 ==> s[i] == be4(n)[i],
    ensures
        (s[0] as int) * 0x100_0000 + (s[1] as int) * 0x1_0000 + (s[2] as int) * 0x100 + (
        s[3] as int) == n,
{
    assert(s[0] == (n / 0x100_0000) % 0x100 && s[1] == (n / 0x1_0000) % 0x100 && s[2] == (n
        / 0x100) % 0x100 && s[3] == n % 0x100);
    assert(((n / 0x100_0000) % 0x100) * 0x100_0000 + ((n / 0x1_0000) % 0x100) * 0x1_0000 + ((n
        / 0x100) % 0x100) * 0x100 + n % 0x100 == n) by (bit_vector)
        requires
            n <= 0xFFFF_FFFF,
    ;
}

/// Eight big-endian bytes at the front of `s` read back as their value.
proof fn lemma_be8_value(n: u64, s: Seq<u8>)
    requires
        s.len() >= 8,
        forall|i: int| 0 <= i < 8 ==> s[i] == be8(n)[i],
    ensures
        (s[0] as int) * 0x100_0000_0000_0000 + (s[1] as int) * 0x1_0000_0000_0000 + (s[2] as int)
            * 0x100_0000_0000 + (s[3] as int) * 0x1_0000_0000 + (s[4] as int) * 0x100_0000 + (
        s[5] as int) * 0x1_0000 + (s[6] as int) * 0x100 + (s[7] as int) == n,
{
    assert(s[0] == (n / 0x100_0000_0000_0000) % 0x100 && s[1] == (n / 0x1_0000_0000_0000) % 0x100
        && s[2] == (n / 0x100_0000_0000) % 0x100 && s[3] == (n / 0x1_0000_0000) % 0x100 && s[4] == (
    n / 0x100_0000) % 0x100 && s[5] == (n / 0x1_0000) % 0x100 && s[6] == (n / 0x100) % 0x100 && s[7]
        == n % 0x100);
    assert(((n / 0x100_0000_0000_0000) % 0x100) * 0x100_0000_0000_0000 + ((n / 0x1_0000_0000_0000)
        % 0x100) * 0x1_0000_0000_0000 + ((n / 0x100_0000_0000) % 0x100) * 0x100_0000_0000 + ((n
        / 0x1_0000_0000) % 0x100) * 0x1_0000_0000 + ((n / 0x100_0000) % 0x100) * 0x100_0000 + ((n
        / 0x1_0000) % 0x100) * 0x1_0000 + ((n / 0x100) % 0x100) * 0x100 + n % 0x100 == n)
        by (bit_vector);
}

/// A well-formed value never encodes to nothing.
proof fn lemma_encode_nonempty(v: CborV)
    requires
        cbor_wf(v),
    ensures
        spec_encode(v).len() >= 1,
{
}

/// A key's flat form decodes back to the key it was written from, whatever
/// follows it.
#[verifier::rlimit(100)]
proof fn lemma_roundtrip_key(k: KeyV, depth: nat, rest: Seq<u8>)
    requires
        key_wf(k),
        1 <= depth <= RECURSION_LIMIT,
    ensures
        spec_decode(spec_encode_key(k) + rest, depth) == Ok::<(CborV, nat), Error>(
            (key_to_cbor(k), spec_encode_key(k).len() as nat),
        ),
        key_of_cbor(key_to_cbor(k)) == Some(k),
{
    let s = spec_encode_key(k) + rest;
    match k {
        KeyV::U64(v) => {
            lemma_hdr_roundtrip(0, canon_info(v));
            assert(s.skip(1) =~= spec_addnl(v) + rest);
            lemma_addnl_roundtrip(v, rest);
        },
        KeyV::N64(v) => {
            let m = (-(v as int + 1)) as u64;
            lemma_hdr_roundtrip(1, canon_info(m));
            assert(s.skip(1) =~= spec_addnl(m) + rest);
            lemma_addnl_roundtrip(m, rest);
            assert(m <= i64::MAX as u64);
            assert((-(m as int) - 1) as i64 == v);
        },
        KeyV::Bytes(b) => {
            let len = b.len() as u64;
            lemma_hdr_roundtrip(2, canon_info(len));
            assert(s.skip(1) =~= (spec_addnl(len) + b) + rest);
            assert((spec_addnl(len) + b) + rest =~= spec_addnl(len) + (b + rest));
            lemma_addnl_roundtrip(len, b + rest);
            let m = spec_addnl(len).len();
            assert(s.skip(1).subrange(m as int, m + len) =~= b);
        },
        KeyV::Text(t) => {
            broadcast use vstd::utf8::encode_utf8_valid_utf8;
            broadcast use vstd::utf8::encode_utf8_decode_utf8;

            let b = vstd::utf8::encode_utf8(t);
            let len = b.len() as u64;
            lemma_hdr_roundtrip(3, canon_info(len));
            assert(s.skip(1) =~= (spec_addnl(len) + b) + rest);
            assert((spec_addnl(len) + b) + rest =~= spec_addnl(len) + (b + rest));
            lemma_addnl_roundtrip(len, b + rest);
            let m = spec_addnl(len).len();
            assert(s.skip(1).subrange(m as int, m + len) =~= b);
        },
        KeyV::Bool(fl) => {
            if fl {
                lemma_hdr_roundtrip(7, Info::Tiny(20u8));
            } else {
                lemma_hdr_roundtrip(7, Info::Tiny(21u8));
            }
        },
        KeyV::F32(bits) => {
            lemma_hdr_roundtrip(7, Info::U32);
            assert(s.skip(1) =~= be4(bits as u64) + rest);
            lemma_be4_value(bits as u64, s.skip(1));
            assert(((bits as u64) as u32) == bits);
        },
        KeyV::F64(bits) => {
            lemma_hdr_roundtrip(7, Info::U64);
            assert(s.skip(1) =~= be8(bits) + rest);
            lemma_be8_value(bits, s.skip(1));
        },
    }
}

} // verus!

verus! {

/// Round trip: a canonical, well-formed value whose nesting stays within the
/// recursion limit decodes, from its own encoding followed by anything, back
/// to exactly itself, and the decoder reports consuming exactly the bytes
/// the encoder wrote.
/// Round trip of a definite-length byte or text string.
#[verifier::rlimit(100)]
proof fn lemma_round_trip_bytes(major: u8, i: Info, b: Seq<u8>, depth: nat, rest: Seq<u8>)
    requires
        major == 2 || major == 3,
        b.len() <= u64::MAX,
        i == canon_info(b.len() as u64),
        1 <= depth <= RECURSION_LIMIT,
    ensures
        major == 2 ==> spec_decode(spec_encode(CborV::Major2(i, b)) + rest, depth) == Ok::<
            (CborV, nat),
            Error,
        >((CborV::Major2(i, b), spec_encode(CborV::Major2(i, b)).len() as nat)),
        major == 3 ==> spec_decode(spec_encode(CborV::Major3(i, b)) + rest, depth) == Ok::<
            (CborV, nat),
            Error,
        >((CborV::Major3(i, b), spec_encode(CborV::Major3(i, b)).len() as nat)),
{
    let v = if major == 2 {
        CborV::Major2(i, b)
    } else {
        CborV::Major3(i, b)
    };
    let s = spec_encode(v) + rest;
    let len = b.len() as u64;
    lemma_hdr_roundtrip(major, i);
    assert(s.skip(1) =~= (spec_addnl(len) + b) + rest);
    assert((spec_addnl(len) + b) + rest =~= spec_addnl(len) + (b + rest));
    lemma_addnl_roundtrip(len, b + rest);
    let m = spec_addnl(len).len();
    assert(s.skip(1).subrange(m as int, m + len) =~= b);
}

/// Round trip of a tag.
#[verifier::rlimit(100)]
proof fn lemma_round_trip_tag(i: Info, t: TagV, depth: nat, rest: Seq<u8>)
    requires
        cbor_wf(CborV::Major6(i, t)),
        canonical(CborV::Major6(i, t)),
        depth_ok(CborV::Major6(i, t), depth),
        1 <= depth,
    ensures
        spec_decode(spec_encode(CborV::Major6(i, t)) + rest, depth) == Ok::<
            (CborV, nat),
            Error,
        >((CborV::Major6(i, t), spec_encode(CborV::Major6(i, t)).len() as nat)),
    decreases t, 2int,
{
    let v = CborV::Major6(i, t);
    let s = spec_encode(v) + rest;
    lemma_hdr_roundtrip(6, i);
    match t {
        TagV::Value(n) => {
            assert(s.skip(1) =~= spec_addnl(n) + rest);
            lemma_addnl_roundtrip(n, rest);
        },
        TagV::Identifier(inner) => {
            let body = spec_encode(*inner);
            assert(s.skip(1) =~= (spec_addnl(TAG_IDENTIFIER) + body) + rest);
            assert((spec_addnl(TAG_IDENTIFIER) + body) + rest =~= spec_addnl(
                TAG_IDENTIFIER,
            ) + (body + rest));
            lemma_addnl_roundtrip(TAG_IDENTIFIER, body + rest);
            assert(spec_addnl(TAG_IDENTIFIER).len() == 1);
            lemma_encode_nonempty(*inner);
            assert(s.skip(1).skip(1) =~= body + rest);
            lemma_round_trip(*inner, 1, rest);
        },
    }
}

/// Round trip of a simple value.
#[verifier::rlimit(100)]
proof fn lemma_round_trip_sval(i: Info, sv: SimpleValue, depth: nat, rest: Seq<u8>)
    requires
        sval_wf(i, sv),
        1 <= depth <= RECURSION_LIMIT,
    ensures
        spec_decode(spec_encode(CborV::Major7(i, sv)) + rest, depth) == Ok::<
            (CborV, nat),
            Error,
        >((CborV::Major7(i, sv), spec_encode(CborV::Major7(i, sv)).len() as nat)),
{
    let v = CborV::Major7(i, sv);
    let s = spec_encode(v) + rest;
    lemma_hdr_roundtrip(7, i);
    match sv {
        SimpleValue::F32(bits) => {
            assert(s.skip(1) =~= be4(bits as u64) + rest);
            lemma_be4_value(bits as u64, s.skip(1));
            assert(((bits as u64) as u32) == bits);
        },
        SimpleValue::F64(bits) => {
            assert(s.skip(1) =~= be8(bits) + rest);
            lemma_be8_value(bits, s.skip(1));
        },
        _ => {},
    }
}

/// Round trip of a definite-length array.
#[verifier::rlimit(100)]
proof fn lemma_round_trip_list(i: Info, l: Seq<CborV>, depth: nat, rest: Seq<u8>)
    requires
        cbor_wf(CborV::Major4(i, l)),
        canonical(CborV::Major4(i, l)),
        depth_ok(CborV::Major4(i, l), depth),
        1 <= depth,
    ensures
        spec_decode(spec_encode(CborV::Major4(i, l)) + rest, depth) == Ok::<
            (CborV, nat),
            Error,
        >((CborV::Major4(i, l), spec_encode(CborV::Major4(i, l)).len() as nat)),
    decreases l, 2int,
{
    let v = CborV::Major4(i, l);
    let s = spec_encode(v) + rest;
    let len = l.len() as u64;
    let body = spec_encode_list(l);
    lemma_hdr_roundtrip(4, i);
    assert(s.skip(1) =~= (spec_addnl(len) + body) + rest);
    assert((spec_addnl(len) + body) + rest =~= spec_addnl(len) + (body + rest));
    lemma_addnl_roundtrip(len, body + rest);
    let m = spec_addnl(len).len();
    assert(s.skip(1).skip(m as int) =~= body + rest);
    assert forall|j: int| 0 <= j < l.len() implies cbor_wf(#[trigger] l[j]) by {
        assert(cbor_wf(v));
    }
    assert forall|j: int| 0 <= j < l.len() implies canonical(#[trigger] l[j]) by {
        assert(canonical(v));
    }
    assert forall|j: int| 0 <= j < l.len() implies depth_ok(#[trigger] l[j], depth + 1) by {
        assert(depth_ok(v, depth));
    }
    lemma_round_trip_items(l, depth, rest);
}

/// Round trip of a definite-length map.
#[verifier::rlimit(100)]
proof fn lemma_round_trip_dict(i: Info, es: Seq<(KeyV, CborV)>, depth: nat, rest: Seq<u8>)
    requires
        cbor_wf(CborV::Major5(i, es)),
        canonical(CborV::Major5(i, es)),
        depth_ok(CborV::Major5(i, es), depth),
        1 <= depth,
    ensures
        spec_decode(spec_encode(CborV::Major5(i, es)) + rest, depth) == Ok::<
            (CborV, nat),
            Error,
        >((CborV::Major5(i, es), spec_encode(CborV::Major5(i, es)).len() as nat)),
    decreases es, 2int,
{
    let v = CborV::Major5(i, es);
    let s = spec_encode(v) + rest;
    let len = es.len() as u64;
    let body = spec_encode_entries(es);
    lemma_hdr_roundtrip(5, i);
    assert(s.skip(1) =~= (spec_addnl(len) + body) + rest);
    assert((spec_addnl(len) + body) + rest =~= spec_addnl(len) + (body + rest));
    lemma_addnl_roundtrip(len, body + rest);
    let m = spec_addnl(len).len();
    assert(s.skip(1).skip(m as int) =~= body + rest);
    assert forall|j: int| 0 <= j < es.len() implies key_wf(#[trigger] es[j].0) by {
        assert(cbor_wf(v));
        assert(pair_wf(es[j]));
    }
    assert forall|j: int| 0 <= j < es.len() implies cbor_wf(#[trigger] es[j].1) by {
        assert(cbor_wf(v));
        assert(pair_wf(es[j]));
    }
    assert forall|j: int| 0 <= j < es.len() implies canonical(#[trigger] es[j].1) by {
        assert(canonical(v));
    }
    assert forall|j: int| 0 <= j < es.len() implies depth_ok(#[trigger] es[j].1, depth + 1) by {
        assert(depth_ok(v, depth));
    }
    lemma_round_trip_entries(es, depth, rest);
}

/// Round trip: a canonical, well-formed value whose nesting stays within the
/// recursion limit decodes, from its own encoding followed by anything, back
/// to exactly itself, and the decoder reports consuming exactly the bytes
/// the encoder wrote.
#[verifier::rlimit(100)]
pub proof fn lemma_round_trip(v: CborV, depth: nat, rest: Seq<u8>)
    requires
        cbor_wf(v),
        canonical(v),
        depth_ok(v, depth),
        1 <= depth,
    ensures
        spec_decode(spec_encode(v) + rest, depth) == Ok::<(CborV, nat), Error>(
            (v, spec_encode(v).len() as nat),
        ),
    decreases v, 0int,
{
    let s = spec_encode(v) + rest;
    match v {
        CborV::Major0(i, n) => {
            lemma_hdr_roundtrip(0, i);
            assert(s.skip(1) =~= spec_addnl(n) + rest);
            lemma_addnl_roundtrip(n, rest);
        },
        CborV::Major1(i, n) => {
            lemma_hdr_roundtrip(1, i);
            assert(s.skip(1) =~= spec_addnl(n) + rest);
            lemma_addnl_roundtrip(n, rest);
        },
        CborV::Major2(i, b) => {
            lemma_round_trip_bytes(2, i, b, depth, rest);
        },
        CborV::Major3(i, b) => {
            lemma_round_trip_bytes(3, i, b, depth, rest);
        },
        CborV::Major4(i, l) => {
            lemma_round_trip_list(i, l, depth, rest);
        },
        CborV::Major5(i, es) => {
            lemma_round_trip_dict(i, es, depth, rest);
        },
        CborV::Major6(i, t) => {
            lemma_round_trip_tag(i, t, depth, rest);
        },
        CborV::Major7(i, sv) => {
            lemma_round_trip_sval(i, sv, depth, rest);
        },
        CborV::Binary(_) => {},
    }
}

/// Round trip for the elements of a definite-length array.
#[verifier::rlimit(100)]
proof fn lemma_round_trip_items(l: Seq<CborV>, depth: nat, rest: Seq<u8>)
    requires
        forall|j: int| 0 <= j < l.len() ==> cbor_wf(#[trigger] l[j]),
        forall|j: int| 0 <= j < l.len() ==> canonical(#[trigger] l[j]),
        forall|j: int| 0 <= j < l.len() ==> depth_ok(#[trigger] l[j], depth + 1),
        l.len() <= u64::MAX,
        1 <= depth <= RECURSION_LIMIT,
    ensures
        dec_items_def(spec_encode_list(l) + rest, depth, l.len() as u64) == Ok::<
            (Seq<CborV>, nat),
            Error,
        >((l, spec_encode_list(l).len() as nat)),
    decreases l, 1int,
{
    if l.len() == 0 {
        assert(spec_encode_list(l) + rest =~= rest);
        assert(l =~= Seq::<CborV>::empty());
    } else {
        let e0 = spec_encode(l[0]);
        let tail = spec_encode_list(l.drop_first());
        assert(spec_encode_list(l) == e0 + tail);
        let s = spec_encode_list(l) + rest;
        assert(s =~= e0 + (tail + rest));
        lemma_round_trip(l[0], (depth + 1) as nat, tail + rest);
        lemma_encode_nonempty(l[0]);
        assert(spec_decode(s, depth + 1) == Ok::<(CborV, nat), Error>((l[0], e0.len() as nat)));
        assert(1 <= e0.len() <= s.len());
        assert(s.skip(e0.len() as int) =~= tail + rest);
        assert(forall|j: int| 0 <= j < l.drop_first().len() ==> #[trigger] l.drop_first()[j]
            == l[j + 1]);
        lemma_round_trip_items(l.drop_first(), depth, rest);
        assert(dec_items_def(tail + rest, depth, (l.len() - 1) as u64) == Ok::<
            (Seq<CborV>, nat),
            Error,
        >((l.drop_first(), tail.len() as nat)));
        assert(dec_items_def(s, depth, l.len() as u64) == Ok::<(Seq<CborV>, nat), Error>(
            (seq![l[0]] + l.drop_first(), (e0.len() + tail.len()) as nat),
        ));
        assert(seq![l[0]] + l.drop_first() =~= l);
        assert(spec_encode_list(l).len() == e0.len() + tail.len());
    }
}

/// Round trip for the pairs of a definite-length map.
#[verifier::rlimit(100)]
proof fn lemma_round_trip_entries(es: Seq<(KeyV, CborV)>, depth: nat, rest: Seq<u8>)
    requires
        forall|j: int| 0 <= j < es.len() ==> key_wf(#[trigger] es[j].0),
        forall|j: int| 0 <= j < es.len() ==> cbor_wf(#[trigger] es[j].1),
        forall|j: int| 0 <= j < es.len() ==> canonical(#[trigger] es[j].1),
        forall|j: int| 0 <= j < es.len() ==> depth_ok(#[trigger] es[j].1, depth + 1),
        es.len() <= u64::MAX,
        1 <= depth <= RECURSION_LIMIT,
        es.len() > 0 ==> depth + 1 <= RECURSION_LIMIT,
    ensures
        dec_pairs_def(spec_encode_entries(es) + rest, depth, es.len() as u64) == Ok::<
            (Seq<(KeyV, CborV)>, nat),
            Error,
        >((es, spec_encode_entries(es).len() as nat)),
    decreases es, 1int,
{
    if es.len() == 0 {
        assert(spec_encode_entries(es) + rest =~= rest);
        assert(es =~= Seq::<(KeyV, CborV)>::empty());
    } else {
        let ek = spec_encode_key(es[0].0);
        let ev = spec_encode(es[0].1);
        let tail = spec_encode_entries(es.drop_first());
        assert(spec_encode_entries(es) == ek + ev + tail);
        let s = spec_encode_entries(es) + rest;
        assert(s =~= ek + (ev + (tail + rest)));
        lemma_roundtrip_key(es[0].0, (depth + 1) as nat, ev + (tail + rest));
        assert(s.skip(ek.len() as int) =~= ev + (tail + rest));
        lemma_round_trip(es[0].1, (depth + 1) as nat, tail + rest);
        lemma_encode_nonempty(es[0].1);
        assert(s.skip(ek.len() as int).skip(ev.len() as int) =~= tail + rest);
        assert(s.skip(ek.len() as int + ev.len() as int) =~= tail + rest);
        assert(forall|j: int| 0 <= j < es.drop_first().len() ==> #[trigger] es.drop_first()[j]
            == es[j + 1]);
        lemma_round_trip_entries(es.drop_first(), depth, rest);
        assert(dec_pairs_def(tail + rest, depth, (es.len() - 1) as u64) == Ok::<
            (Seq<(KeyV, CborV)>, nat),
            Error,
        >((es.drop_first(), tail.len() as nat)));
        assert(dec_pairs_def(s, depth, es.len() as u64) == Ok::<(Seq<(KeyV, CborV)>, nat), Error>(
            (seq![(es[0].0, es[0].1)] + es.drop_first(), (ek.len() + ev.len()
                + tail.len()) as nat),
        ));
        assert(seq![(es[0].0, es[0].1)] + es.drop_first() =~= es);
        assert(spec_encode_entries(es).len() == ek.len() + ev.len() + tail.len());
    }
}

} // verus!
