//! The canonical strict total order on map keys: first by a fixed
//! per-variant rank, with signed and unsigned integers ranked together, then
//! by value within a rank, with floats compared in total bit-pattern order.

use vstd::prelude::*;

use crate::cbor::{Key, KeyV, SimpleValue};

verus! {

/// Rank of a key's variant: booleans sort before every number, negative
/// integers and unsigned integers share one rank, then 32-bit floats, 64-bit
/// floats, byte strings and text strings.
pub open spec fn key_rank(k: KeyV) -> int {
    match k {
        KeyV::Bool(_) => 4,
        KeyV::N64(_) => 8,
        KeyV::U64(_) => 8,
        KeyV::F32(_) => 12,
        KeyV::F64(_) => 16,
        KeyV::Bytes(_) => 20,
        KeyV::Text(_) => 24,
    }
}

/// Total-order position of a 32-bit float bit pattern: the order `total_cmp`
/// gives, under which every NaN is self-equal and well-ordered.
pub open spec fn f32_order_pos(bits: u32) -> int {
    if bits >= 0x8000_0000 {
        0xFFFF_FFFFu32 - bits
    } else {
        bits + 0x8000_0000
    }
}

/// Total-order position of a 64-bit float bit pattern.
pub open spec fn f64_order_pos(bits: u64) -> int {
    if bits >= 0x8000_0000_0000_0000 {
        0xFFFF_FFFF_FFFF_FFFFu64 - bits
    } else {
        bits + 0x8000_0000_0000_0000
    }
}

/// Strict lexicographic order on integer sequences: a proper prefix sorts
/// first, otherwise the first differing position decides.
pub open spec fn lex_lt(a: Seq<int>, b: Seq<int>) -> bool
    decreases a.len(),
{
    if b.len() == 0 {
        false
    } else if a.len() == 0 {
        true
    } else if a[0] < b[0] {
        true
    } else if a[0] > b[0] {
        false
    } else {
        lex_lt(a.drop_first(), b.drop_first())
    }
}

/// A byte string as an integer sequence.
pub open spec fn bytes_ints(b: Seq<u8>) -> Seq<int> {
    b.map_values(|x: u8| x as int)
}

/// A text string as the integer sequence of its characters.
pub open spec fn chars_ints(t: Seq<char>) -> Seq<int> {
    t.map_values(|c: char| c as int)
}

/// The strict total order on keys: by rank, then by value within the rank,
/// with every negative-range integer before every unsigned integer, floats
/// in total bit-pattern order, and strings lexicographic.
pub open spec fn key_lt(a: KeyV, b: KeyV) -> bool {
    if key_rank(a) != key_rank(b) {
        key_rank(a) < key_rank(b)
    } else {
        match (a, b) {
            (KeyV::Bool(x), KeyV::Bool(y)) => !x && y,
            (KeyV::N64(x), KeyV::N64(y)) => x < y,
            (KeyV::U64(x), KeyV::U64(y)) => x < y,
            (KeyV::N64(_), KeyV::U64(_)) => true,
            (KeyV::U64(_), KeyV::N64(_)) => false,
            (KeyV::F32(x), KeyV::F32(y)) => f32_order_pos(x) < f32_order_pos(y),
            (KeyV::F64(x), KeyV::F64(y)) => f64_order_pos(x) < f64_order_pos(y),
            (KeyV::Bytes(x), KeyV::Bytes(y)) => lex_lt(bytes_ints(x), bytes_ints(y)),
            (KeyV::Text(x), KeyV::Text(y)) => lex_lt(chars_ints(x), chars_ints(y)),
            _ => false,
        }
    }
}

/// A strict lexicographic comparison cannot hold both ways.
proof fn lemma_lex_antisymmetric(a: Seq<int>, b: Seq<int>)
    ensures
        !(lex_lt(a, b) && lex_lt(b, a)),
    decreases a.len(),
{
    if a.len() > 0 && b.len() > 0 && a[0] == b[0] {
        lemma_lex_antisymmetric(a.drop_first(), b.drop_first());
    }
}

/// Sequences neither of which sorts before the other are equal.
proof fn lemma_lex_connected(a: Seq<int>, b: Seq<int>)
    requires
        !lex_lt(a, b),
        !lex_lt(b, a),
    ensures
        a == b,
    decreases a.len(),
{
    if a.len() == 0 {
        assert(b.len() == 0);
        assert(a =~= b);
    } else {
        assert(b.len() > 0);
        assert(a[0] == b[0]);
        lemma_lex_connected(a.drop_first(), b.drop_first());
        assert forall|i: int| 0 <= i < a.len() implies a[i] == b[i] by {
            if i > 0 {
                assert(a.drop_first()[i - 1] == b.drop_first()[i - 1]);
            }
        }
        assert(a =~= b);
    }
}

/// Lexicographic order is transitive.
proof fn lemma_lex_transitive(a: Seq<int>, b: Seq<int>, c: Seq<int>)
    requires
        lex_lt(a, b),
        lex_lt(b, c),
    ensures
        lex_lt(a, c),
    decreases a.len(),
{
    if a.len() > 0 && b.len() > 0 && c.len() > 0 && a[0] == b[0] && b[0] == c[0] {
        lemma_lex_transitive(a.drop_first(), b.drop_first(), c.drop_first());
    }
}

/// Pointwise-equal integer images come from equal byte strings.
proof fn lemma_bytes_ints_injective(a: Seq<u8>, b: Seq<u8>)
    requires
        bytes_ints(a) == bytes_ints(b),
    ensures
        a == b,
{
    assert(bytes_ints(a).len() == a.len() && bytes_ints(b).len() == b.len());
    assert forall|i: int| 0 <= i < a.len() implies a[i] == b[i] by {
        assert(bytes_ints(a)[i] == a[i] as int);
        assert(bytes_ints(b)[i] == b[i] as int);
    }
    assert(a =~= b);
}

/// Pointwise-equal integer images come from equal text strings.
proof fn lemma_chars_ints_injective(a: Seq<char>, b: Seq<char>)
    requires
        chars_ints(a) == chars_ints(b),
    ensures
        a == b,
{
    assert(chars_ints(a).len() == a.len() && chars_ints(b).len() == b.len());
    assert forall|i: int| 0 <= i < a.len() implies a[i] == b[i] by {
        assert(chars_ints(a)[i] == a[i] as int);
        assert(chars_ints(b)[i] == b[i] as int);
    }
    assert(a =~= b);
}

/// Key total order, part one: for any two keys exactly one of "before",
/// "equal", "after" holds.
pub proof fn lemma_key_order_trichotomy(a: KeyV, b: KeyV)
    ensures
        key_lt(a, b) || key_lt(b, a) || a == b,
        key_lt(a, b) ==> !key_lt(b, a) && a != b,
        key_lt(b, a) ==> !key_lt(a, b) && a != b,
        a == b ==> !key_lt(a, b) && !key_lt(b, a),
{
    match (a, b) {
        (KeyV::Bytes(x), KeyV::Bytes(y)) => {
            lemma_lex_antisymmetric(bytes_ints(x), bytes_ints(y));
            if !lex_lt(bytes_ints(x), bytes_ints(y)) && !lex_lt(bytes_ints(y), bytes_ints(x)) {
                lemma_lex_connected(bytes_ints(x), bytes_ints(y));
                lemma_bytes_ints_injective(x, y);
            }
            if x == y {
                lemma_lex_antisymmetric(bytes_ints(x), bytes_ints(y));
                if lex_lt(bytes_ints(x), bytes_ints(y)) {
                    lemma_lex_connected(bytes_ints(x), bytes_ints(x));
                }
            }
        },
        (KeyV::Text(x), KeyV::Text(y)) => {
            lemma_lex_antisymmetric(chars_ints(x), chars_ints(y));
            if !lex_lt(chars_ints(x), chars_ints(y)) && !lex_lt(chars_ints(y), chars_ints(x)) {
                lemma_lex_connected(chars_ints(x), chars_ints(y));
                lemma_chars_ints_injective(x, y);
            }
            if x == y {
                if lex_lt(chars_ints(x), chars_ints(y)) {
                    lemma_lex_antisymmetric(chars_ints(x), chars_ints(y));
                }
            }
        },
        _ => {},
    }
}

/// Key total order, part two: "before" is transitive.
pub proof fn lemma_key_order_transitive(a: KeyV, b: KeyV, c: KeyV)
    requires
        key_lt(a, b),
        key_lt(b, c),
    ensures
        key_lt(a, c),
{
    match (a, b) {
        (KeyV::Bytes(x), KeyV::Bytes(y)) => {
            match c {
                KeyV::Bytes(z) => lemma_lex_transitive(bytes_ints(x), bytes_ints(y), bytes_ints(z)),
                _ => {},
            }
        },
        (KeyV::Text(x), KeyV::Text(y)) => {
            match c {
                KeyV::Text(z) => lemma_lex_transitive(chars_ints(x), chars_ints(y), chars_ints(z)),
                _ => {},
            }
        },
        _ => {},
    }
}

/// Key total order, part three: the rank groups are strictly ordered, so a
/// boolean sorts before any number, numbers before 32-bit floats, those
/// before 64-bit floats, those before byte strings, and those before text.
pub proof fn lemma_key_rank_groups(a: KeyV, b: KeyV)
    requires
        key_rank(a) < key_rank(b),
    ensures
        key_lt(a, b),
{
}

} // verus!

verus! {

/// Rank of a simple value's variant, used by callers that lay simple values
/// out in a stable order.
pub open spec fn sval_type_order(sv: SimpleValue) -> int {
    match sv {
        SimpleValue::Unassigned => 4,
        SimpleValue::True => 8,
        SimpleValue::False => 12,
        SimpleValue::Null => 16,
        SimpleValue::Undefined => 20,
        SimpleValue::Reserved24(_) => 24,
        SimpleValue::F16(_) => 28,
        SimpleValue::F32(_) => 32,
        SimpleValue::F64(_) => 36,
        SimpleValue::Break => 40,
    }
}

impl SimpleValue {
    /// The rank of this simple value's variant.
    pub fn to_type_order(&self) -> (r: usize)
        ensures
            r == sval_type_order(*self),
    {
        match self {
            SimpleValue::Unassigned => 4,
            SimpleValue::True => 8,
            SimpleValue::False => 12,
            SimpleValue::Null => 16,
            SimpleValue::Undefined => 20,
            SimpleValue::Reserved24(_) => 24,
            SimpleValue::F16(_) => 28,
            SimpleValue::F32(_) => 32,
            SimpleValue::F64(_) => 36,
            SimpleValue::Break => 40,
        }
    }
}

/// Strict lexicographic order follows from a shared prefix and either a
/// first smaller element or running out first.
proof fn lemma_lex_from_prefix(a: Seq<int>, b: Seq<int>, i: int)
    requires
        0 <= i <= a.len(),
        i <= b.len(),
        forall|j: int| 0 <= j < i ==> a[j] == b[j],
        (i == a.len() && i < b.len()) || (i < a.len() && i < b.len() && a[i] < b[i]),
    ensures
        lex_lt(a, b),
    decreases i,
{
    if i > 0 {
        assert(a[0] == b[0]);
        assert(forall|j: int| 0 <= j < i - 1 ==> a.drop_first()[j] == b.drop_first()[j]);
        if i < a.len() {
            assert(a.drop_first()[i - 1] == a[i] && b.drop_first()[i - 1] == b[i]);
        }
        lemma_lex_from_prefix(a.drop_first(), b.drop_first(), i - 1);
    }
}

/// Nothing sorts strictly before itself.
proof fn lemma_lex_irreflexive(a: Seq<int>)
    ensures
        !lex_lt(a, a),
    decreases a.len(),
{
    if a.len() > 0 {
        lemma_lex_irreflexive(a.drop_first());
    }
}

/// Three-way comparison of byte strings, lexicographic.
fn cmp_bytes(a: &Vec<u8>, b: &Vec<u8>) -> (r: core::cmp::Ordering)
    ensures
        (r is Less) == lex_lt(bytes_ints(a@), bytes_ints(b@)),
        (r is Greater) == lex_lt(bytes_ints(b@), bytes_ints(a@)),
        (r is Equal) == (a@ == b@),
{
    let ghost av = bytes_ints(a@);
    let ghost bv = bytes_ints(b@);
    proof {
        assert(av.len() == a@.len() && bv.len() == b@.len());
    }
    let mut i: usize = 0;
    loop
        invariant
            i <= a@.len(),
            i <= b@.len(),
            av == bytes_ints(a@),
            bv == bytes_ints(b@),
            av.len() == a@.len() && bv.len() == b@.len(),
            forall|j: int| 0 <= j < i ==> av[j] == bv[j],
        decreases a@.len() - i,
    {
        if i == a.len() && i == b.len() {
            proof {
                assert forall|j: int| 0 <= j < a@.len() implies a@[j] == b@[j] by {
                    assert(av[j] == a@[j] as int && bv[j] == b@[j] as int);
                }
                assert(a@ =~= b@);
                lemma_lex_irreflexive(av);
            }
            return core::cmp::Ordering::Equal;
        }
        if i == a.len() {
            proof {
                lemma_lex_from_prefix(av, bv, i as int);
                lemma_lex_antisymmetric(av, bv);
            }
            return core::cmp::Ordering::Less;
        }
        if i == b.len() {
            proof {
                lemma_lex_from_prefix(bv, av, i as int);
                lemma_lex_antisymmetric(av, bv);
            }
            return core::cmp::Ordering::Greater;
        }
        let x = a[i];
        let y = b[i];
        if x < y {
            proof {
                lemma_lex_from_prefix(av, bv, i as int);
                lemma_lex_antisymmetric(av, bv);
            }
            return core::cmp::Ordering::Less;
        }
        if x > y {
            proof {
                lemma_lex_from_prefix(bv, av, i as int);
                lemma_lex_antisymmetric(av, bv);
            }
            return core::cmp::Ordering::Greater;
        }
        proof {
            assert(av[i as int] == x as int && bv[i as int] == y as int);
        }
        i += 1;
    }
}

/// Three-way comparison of text strings, lexicographic by character.
fn cmp_text(a: &String, b: &String) -> (r: core::cmp::Ordering)
    ensures
        (r is Less) == lex_lt(chars_ints(a@), chars_ints(b@)),
        (r is Greater) == lex_lt(chars_ints(b@), chars_ints(a@)),
        (r is Equal) == (a@ == b@),
{
    let ghost av = chars_ints(a@);
    let ghost bv = chars_ints(b@);
    proof {
        assert(av.len() == a@.len() && bv.len() == b@.len());
    }
    let alen = a.as_str().unicode_len();
    let blen = b.as_str().unicode_len();
    let mut i: usize = 0;
    loop
        invariant
            i <= a@.len(),
            i <= b@.len(),
            alen == a@.len() && blen == b@.len(),
            av == chars_ints(a@),
            bv == chars_ints(b@),
            av.len() == a@.len() && bv.len() == b@.len(),
            forall|j: int| 0 <= j < i ==> av[j] == bv[j],
        decreases a@.len() - i,
    {
        if i == alen && i == blen {
            proof {
                assert forall|j: int| 0 <= j < a@.len() implies a@[j] == b@[j] by {
                    assert(av[j] == a@[j] as int && bv[j] == b@[j] as int);
                }
                assert(a@ =~= b@);
                lemma_lex_irreflexive(av);
            }
            return core::cmp::Ordering::Equal;
        }
        if i == alen {
            proof {
                lemma_lex_from_prefix(av, bv, i as int);
                lemma_lex_antisymmetric(av, bv);
            }
            return core::cmp::Ordering::Less;
        }
        if i == blen {
            proof {
                lemma_lex_from_prefix(bv, av, i as int);
                lemma_lex_antisymmetric(av, bv);
            }
            return core::cmp::Ordering::Greater;
        }
        let x = a.as_str().get_char(i);
        let y = b.as_str().get_char(i);
        if (x as u32) < (y as u32) {
            proof {
                assert(av[i as int] == x as int && bv[i as int] == y as int);
                lemma_lex_from_prefix(av, bv, i as int);
                lemma_lex_antisymmetric(av, bv);
            }
            return core::cmp::Ordering::Less;
        }
        if (x as u32) > (y as u32) {
            proof {
                assert(av[i as int] == x as int && bv[i as int] == y as int);
                lemma_lex_from_prefix(bv, av, i as int);
                lemma_lex_antisymmetric(av, bv);
            }
            return core::cmp::Ordering::Greater;
        }
        proof {
            assert(av[i as int] == x as int && bv[i as int] == y as int);
        }
        i += 1;
    }
}

impl Key {
    /// The rank of this key's variant: booleans sort before every other key,
    /// negative-range integers and unsigned integers share a rank, then
    /// 32-bit floats, 64-bit floats, byte strings, and text strings last.
    pub fn to_type_order(&self) -> (r: usize)
        ensures
            r == key_rank(self@),
    {
        match self {
            Key::Bool(_) => 4,
            Key::N64(_) => 8,
            Key::U64(_) => 8,
            Key::F32(_) => 12,
            Key::F64(_) => 16,
            Key::Bytes(_) => 20,
            Key::Text(_) => 24,
        }
    }

    /// Three-way comparison in the canonical key order.
    pub fn cmp(&self, other: &Key) -> (r: core::cmp::Ordering)
        ensures
            (r is Less) == key_lt(self@, other@),
            (r is Greater) == key_lt(other@, self@),
            (r is Equal) == (self@ == other@),
    {
        let ra = self.to_type_order();
        let rb = other.to_type_order();
        if ra < rb {
            return core::cmp::Ordering::Less;
        }
        if ra > rb {
            return core::cmp::Ordering::Greater;
        }
        match (self, other) {
            (Key::Bool(x), Key::Bool(y)) => {
                if *x == *y {
                    core::cmp::Ordering::Equal
                } else if !*x {
                    core::cmp::Ordering::Less
                } else {
                    core::cmp::Ordering::Greater
                }
            },
            (Key::N64(x), Key::N64(y)) => {
                if *x < *y {
                    core::cmp::Ordering::Less
                } else if *x > *y {
                    core::cmp::Ordering::Greater
                } else {
                    core::cmp::Ordering::Equal
                }
            },
            (Key::U64(x), Key::U64(y)) => {
                if *x < *y {
                    core::cmp::Ordering::Less
                } else if *x > *y {
                    core::cmp::Ordering::Greater
                } else {
                    core::cmp::Ordering::Equal
                }
            },
            (Key::N64(_), Key::U64(_)) => core::cmp::Ordering::Less,
            (Key::U64(_), Key::N64(_)) => core::cmp::Ordering::Greater,
            (Key::F32(x), Key::F32(y)) => {
                let px: u64 = if *x >= 0x8000_0000 {
                    (0xFFFF_FFFFu32 - *x) as u64
                } else {
                    *x as u64 + 0x8000_0000
                };
                let py: u64 = if *y >= 0x8000_0000 {
                    (0xFFFF_FFFFu32 - *y) as u64
                } else {
                    *y as u64 + 0x8000_0000
                };
                if px < py {
                    core::cmp::Ordering::Less
                } else if px > py {
                    core::cmp::Ordering::Greater
                } else {
                    core::cmp::Ordering::Equal
                }
            },
            (Key::F64(x), Key::F64(y)) => {
                let sx = *x >= 0x8000_0000_0000_0000;
                let sy = *y >= 0x8000_0000_0000_0000;
                if sx && !sy {
                    core::cmp::Ordering::Less
                } else if !sx && sy {
                    core::cmp::Ordering::Greater
                } else if sx {
                    if *x > *y {
                        core::cmp::Ordering::Less
                    } else if *x < *y {
                        core::cmp::Ordering::Greater
                    } else {
                        core::cmp::Ordering::Equal
                    }
                } else {
                    if *x < *y {
                        core::cmp::Ordering::Less
                    } else if *x > *y {
                        core::cmp::Ordering::Greater
                    } else {
                        core::cmp::Ordering::Equal
                    }
                }
            },
            (Key::Bytes(x), Key::Bytes(y)) => cmp_bytes(x, y),
            (Key::Text(x), Key::Text(y)) => cmp_text(x, y),
            _ => {
                proof {
                    assert(false);
                }
                core::cmp::Ordering::Equal
            },
        }
    }
}

} // verus!
