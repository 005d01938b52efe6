//! Small text utilities.

use vstd::prelude::*;

verus! {

/// The characters `char::to_lowercase` yields for a character; a function of
/// the character alone.
pub uninterp spec fn lower_chars(c: char) -> Seq<char>;

/// Whether `char::is_uppercase` holds of a character; a function of the
/// character alone.
pub uninterp spec fn is_upper_char(c: char) -> bool;

/// Relies on `char::is_uppercase`: whether the character has the Uppercase
/// property; the answer depends on the character alone.
#[verifier::external_body]
fn char_is_uppercase(c: char) -> (r: bool)
    ensures
        r == is_upper_char(c),
{
    c.is_uppercase()
}

/// Relies on `char::to_lowercase`: the character's lowercase mapping, one or
/// more characters, depending on the character alone.
#[verifier::external_body]
fn char_to_lowercase(c: char) -> (r: Vec<char>)
    ensures
        r@ == lower_chars(c),
{
    c.to_lowercase().collect()
}

/// Relies on `String`'s `FromIterator` over characters: the string holding
/// exactly the given characters.
#[verifier::external_body]
fn string_from_chars(cs: Vec<char>) -> (r: String)
    ensures
        r@ == cs@,
{
    cs.into_iter().collect()
}

/// The snake-case image of a character sequence: an underscore before each
/// uppercase character, and every character lowercased.
pub open spec fn snake_of(s: Seq<char>) -> Seq<char>
    decreases s.len(),
{
    if s.len() == 0 {
        Seq::empty()
    } else {
        snake_of(s.drop_last()) + (if is_upper_char(s.last()) {
            seq!['_']
        } else {
            Seq::<char>::empty()
        }) + lower_chars(s.last())
    }
}

/// Convert a name to snake case: each uppercase character is lowercased and
/// preceded by an underscore.
pub fn to_snake_case(s: &str) -> (r: String)
    ensures
        r@ == snake_of(s@),
{
    let n = s.unicode_len();
    let mut cs: Vec<char> = Vec::new();
    let mut i: usize = 0;
    proof {
        assert(s@.take(0) =~= Seq::<char>::empty());
    }
    while i < n
        invariant
            n == s@.len(),
            i <= n,
            cs@ == snake_of(s@.take(i as int)),
        decreases n - i,
    {
        let ch = s.get_char(i);
        let ghost cs_old = cs@;
        if char_is_uppercase(ch) {
            cs.push('_');
        }
        let low = char_to_lowercase(ch);
        let mut k: usize = 0;
        let ghost cs_mid = cs@;
        while k < low.len()
            invariant
                k <= low@.len(),
                cs@ == cs_mid + low@.take(k as int),
            decreases low@.len() - k,
        {
            cs.push(low[k]);
            proof {
                assert(cs@ =~= cs_mid + low@.take(k as int + 1));
            }
            k += 1;
        }
        proof {
            assert(low@.take(low@.len() as int) =~= low@);
            assert(s@.take(i as int + 1).drop_last() =~= s@.take(i as int));
            assert(s@.take(i as int + 1).last() == s@[i as int]);
            assert(cs@ =~= snake_of(s@.take(i as int + 1)));
        }
        i += 1;
    }
    proof {
        assert(s@.take(n as int) =~= s@);
    }
    string_from_chars(cs)
}

} // verus!
