//! Diff-able values: version control for non-destructive writes, generating
//! concise older versions as deltas.

use vstd::prelude::*;

verus! {

/// Trait for diff-able values. With `P` an old value, `C` a new value and
/// `D` their difference: `D = C - P` (diff) and `P = C - D` (merge). Each
/// method's result is pinned to a spec-level counterpart, and the two laws
/// below hold of every implementation, so the entry layer can reconstruct
/// exact histories.
pub trait Diff: Sized {
    /// The delta type a difference is stored as.
    type Delta;

    /// What `diff` returns.
    spec fn diff_spec(&self, old: &Self) -> Self::Delta;

    /// What `merge` returns.
    spec fn merge_spec(&self, delta: &Self::Delta) -> Self;

    /// What `to_delta` returns.
    spec fn to_delta_spec(self) -> Self::Delta;

    /// What `from_delta` returns.
    spec fn from_delta_spec(delta: &Self::Delta) -> Self;

    /// Return the delta between two consecutive versions of a value:
    /// `Delta = New - Old`.
    fn diff(&self, old: &Self) -> (r: Self::Delta)
        ensures
            r == self.diff_spec(old),
    ;

    /// Merge a delta with the newer version to get the older version back:
    /// `Old = New - Delta`.
    fn merge(&self, delta: &Self::Delta) -> (r: Self)
        ensures
            r == self.merge_spec(delta),
    ;

    /// Turn a whole value into a delta, for the version under a delete.
    fn to_delta(self) -> (r: Self::Delta)
        ensures
            r == self.to_delta_spec(),
    ;

    /// Recover a whole value from a delta made by `to_delta`.
    fn from_delta(delta: &Self::Delta) -> (r: Self)
        ensures
            r == Self::from_delta_spec(delta),
    ;

    /// Duplicate a value; histories hold each version by value.
    fn dup(&self) -> (r: Self)
        ensures
            r == *self,
    ;

    /// Duplicate a delta.
    fn dup_delta(d: &Self::Delta) -> (r: Self::Delta)
        ensures
            r == *d,
    ;

    /// Merging back the diff of a new value against an old one recovers the
    /// old one.
    proof fn lemma_merge_diff(new: Self, old: Self)
        ensures
            new.merge_spec(&new.diff_spec(&old)) == old,
    ;

    /// A whole value survives the round trip through its delta form.
    proof fn lemma_delta_roundtrip(v: Self)
        ensures
            Self::from_delta_spec(&v.to_delta_spec()) == v,
    ;
}

/// Delta type for value types that carry no usable difference: the "delta"
/// is the old value itself.
#[derive(Clone, Copy, Default, Debug, PartialEq, Eq, Structural)]
pub struct NoDiff;

impl NoDiff {
    /// Version number of this type's stored form.
    pub const ID: u32 = 0x0001;
}

impl Diff for u64 {
    type Delta = u64;

    open spec fn diff_spec(&self, old: &u64) -> u64 {
        *old
    }

    open spec fn merge_spec(&self, delta: &u64) -> u64 {
        *delta
    }

    open spec fn to_delta_spec(self) -> u64 {
        self
    }

    open spec fn from_delta_spec(delta: &u64) -> u64 {
        *delta
    }

    fn diff(&self, old: &u64) -> (r: u64) {
        *old
    }

    fn merge(&self, delta: &u64) -> (r: u64) {
        *delta
    }

    fn to_delta(self) -> (r: u64) {
        self
    }

    fn from_delta(delta: &u64) -> (r: u64) {
        *delta
    }

    fn dup(&self) -> (r: u64) {
        *self
    }

    fn dup_delta(d: &u64) -> (r: u64) {
        *d
    }

    proof fn lemma_merge_diff(new: u64, old: u64) {
    }

    proof fn lemma_delta_roundtrip(v: u64) {
    }
}

impl Diff for u32 {
    type Delta = u32;

    open spec fn diff_spec(&self, old: &u32) -> u32 {
        *old
    }

    open spec fn merge_spec(&self, delta: &u32) -> u32 {
        *delta
    }

    open spec fn to_delta_spec(self) -> u32 {
        self
    }

    open spec fn from_delta_spec(delta: &u32) -> u32 {
        *delta
    }

    fn diff(&self, old: &u32) -> (r: u32) {
        *old
    }

    fn merge(&self, delta: &u32) -> (r: u32) {
        *delta
    }

    fn to_delta(self) -> (r: u32) {
        self
    }

    fn from_delta(delta: &u32) -> (r: u32) {
        *delta
    }

    fn dup(&self) -> (r: u32) {
        *self
    }

    fn dup_delta(d: &u32) -> (r: u32) {
        *d
    }

    proof fn lemma_merge_diff(new: u32, old: u32) {
    }

    proof fn lemma_delta_roundtrip(v: u32) {
    }
}

impl Diff for bool {
    type Delta = bool;

    open spec fn diff_spec(&self, old: &bool) -> bool {
        *old
    }

    open spec fn merge_spec(&self, delta: &bool) -> bool {
        *delta
    }

    open spec fn to_delta_spec(self) -> bool {
        self
    }

    open spec fn from_delta_spec(delta: &bool) -> bool {
        *delta
    }

    fn diff(&self, old: &bool) -> (r: bool) {
        *old
    }

    fn merge(&self, delta: &bool) -> (r: bool) {
        *delta
    }

    fn to_delta(self) -> (r: bool) {
        self
    }

    fn from_delta(delta: &bool) -> (r: bool) {
        *delta
    }

    fn dup(&self) -> (r: bool) {
        *self
    }

    fn dup_delta(d: &bool) -> (r: bool) {
        *d
    }

    proof fn lemma_merge_diff(new: bool, old: bool) {
    }

    proof fn lemma_delta_roundtrip(v: bool) {
    }
}

impl Diff for char {
    type Delta = char;

    open spec fn diff_spec(&self, old: &char) -> char {
        *old
    }

    open spec fn merge_spec(&self, delta: &char) -> char {
        *delta
    }

    open spec fn to_delta_spec(self) -> char {
        self
    }

    open spec fn from_delta_spec(delta: &char) -> char {
        *delta
    }

    fn diff(&self, old: &char) -> (r: char) {
        *old
    }

    fn merge(&self, delta: &char) -> (r: char) {
        *delta
    }

    fn to_delta(self) -> (r: char) {
        self
    }

    fn from_delta(delta: &char) -> (r: char) {
        *delta
    }

    fn dup(&self) -> (r: char) {
        *self
    }

    fn dup_delta(d: &char) -> (r: char) {
        *d
    }

    proof fn lemma_merge_diff(new: char, old: char) {
    }

    proof fn lemma_delta_roundtrip(v: char) {
    }
}

impl Diff for u8 {
    type Delta = u8;

    open spec fn diff_spec(&self, old: &u8) -> u8 {
        *old
    }

    open spec fn merge_spec(&self, delta: &u8) -> u8 {
        *delta
    }

    open spec fn to_delta_spec(self) -> u8 {
        self
    }

    open spec fn from_delta_spec(delta: &u8) -> u8 {
        *delta
    }

    fn diff(&self, old: &u8) -> (r: u8) {
        *old
    }

    fn merge(&self, delta: &u8) -> (r: u8) {
        *delta
    }

    fn to_delta(self) -> (r: u8) {
        self
    }

    fn from_delta(delta: &u8) -> (r: u8) {
        *delta
    }

    fn dup(&self) -> (r: u8) {
        *self
    }

    fn dup_delta(d: &u8) -> (r: u8) {
        *d
    }

    proof fn lemma_merge_diff(new: u8, old: u8) {
    }

    proof fn lemma_delta_roundtrip(v: u8) {
    }
}

impl Diff for u16 {
    type Delta = u16;

    open spec fn diff_spec(&self, old: &u16) -> u16 {
        *old
    }

    open spec fn merge_spec(&self, delta: &u16) -> u16 {
        *delta
    }

    open spec fn to_delta_spec(self) -> u16 {
        self
    }

    open spec fn from_delta_spec(delta: &u16) -> u16 {
        *delta
    }

    fn diff(&self, old: &u16) -> (r: u16) {
        *old
    }

    fn merge(&self, delta: &u16) -> (r: u16) {
        *delta
    }

    fn to_delta(self) -> (r: u16) {
        self
    }

    fn from_delta(delta: &u16) -> (r: u16) {
        *delta
    }

    fn dup(&self) -> (r: u16) {
        *self
    }

    fn dup_delta(d: &u16) -> (r: u16) {
        *d
    }

    proof fn lemma_merge_diff(new: u16, old: u16) {
    }

    proof fn lemma_delta_roundtrip(v: u16) {
    }
}

impl Diff for u128 {
    type Delta = u128;

    open spec fn diff_spec(&self, old: &u128) -> u128 {
        *old
    }

    open spec fn merge_spec(&self, delta: &u128) -> u128 {
        *delta
    }

    open spec fn to_delta_spec(self) -> u128 {
        self
    }

    open spec fn from_delta_spec(delta: &u128) -> u128 {
        *delta
    }

    fn diff(&self, old: &u128) -> (r: u128) {
        *old
    }

    fn merge(&self, delta: &u128) -> (r: u128) {
        *delta
    }

    fn to_delta(self) -> (r: u128) {
        self
    }

    fn from_delta(delta: &u128) -> (r: u128) {
        *delta
    }

    fn dup(&self) -> (r: u128) {
        *self
    }

    fn dup_delta(d: &u128) -> (r: u128) {
        *d
    }

    proof fn lemma_merge_diff(new: u128, old: u128) {
    }

    proof fn lemma_delta_roundtrip(v: u128) {
    }
}

impl Diff for usize {
    type Delta = usize;

    open spec fn diff_spec(&self, old: &usize) -> usize {
        *old
    }

    open spec fn merge_spec(&self, delta: &usize) -> usize {
        *delta
    }

    open spec fn to_delta_spec(self) -> usize {
        self
    }

    open spec fn from_delta_spec(delta: &usize) -> usize {
        *delta
    }

    fn diff(&self, old: &usize) -> (r: usize) {
        *old
    }

    fn merge(&self, delta: &usize) -> (r: usize) {
        *delta
    }

    fn to_delta(self) -> (r: usize) {
        self
    }

    fn from_delta(delta: &usize) -> (r: usize) {
        *delta
    }

    fn dup(&self) -> (r: usize) {
        *self
    }

    fn dup_delta(d: &usize) -> (r: usize) {
        *d
    }

    proof fn lemma_merge_diff(new: usize, old: usize) {
    }

    proof fn lemma_delta_roundtrip(v: usize) {
    }
}

impl Diff for i8 {
    type Delta = i8;

    open spec fn diff_spec(&self, old: &i8) -> i8 {
        *old
    }

    open spec fn merge_spec(&self, delta: &i8) -> i8 {
        *delta
    }

    open spec fn to_delta_spec(self) -> i8 {
        self
    }

    open spec fn from_delta_spec(delta: &i8) -> i8 {
        *delta
    }

    fn diff(&self, old: &i8) -> (r: i8) {
        *old
    }

    fn merge(&self, delta: &i8) -> (r: i8) {
        *delta
    }

    fn to_delta(self) -> (r: i8) {
        self
    }

    fn from_delta(delta: &i8) -> (r: i8) {
        *delta
    }

    fn dup(&self) -> (r: i8) {
        *self
    }

    fn dup_delta(d: &i8) -> (r: i8) {
        *d
    }

    proof fn lemma_merge_diff(new: i8, old: i8) {
    }

    proof fn lemma_delta_roundtrip(v: i8) {
    }
}

impl Diff for i16 {
    type Delta = i16;

    open spec fn diff_spec(&self, old: &i16) -> i16 {
        *old
    }

    open spec fn merge_spec(&self, delta: &i16) -> i16 {
        *delta
    }

    open spec fn to_delta_spec(self) -> i16 {
        self
    }

    open spec fn from_delta_spec(delta: &i16) -> i16 {
        *delta
    }

    fn diff(&self, old: &i16) -> (r: i16) {
        *old
    }

    fn merge(&self, delta: &i16) -> (r: i16) {
        *delta
    }

    fn to_delta(self) -> (r: i16) {
        self
    }

    fn from_delta(delta: &i16) -> (r: i16) {
        *delta
    }

    fn dup(&self) -> (r: i16) {
        *self
    }

    fn dup_delta(d: &i16) -> (r: i16) {
        *d
    }

    proof fn lemma_merge_diff(new: i16, old: i16) {
    }

    proof fn lemma_delta_roundtrip(v: i16) {
    }
}

impl Diff for i32 {
    type Delta = i32;

    open spec fn diff_spec(&self, old: &i32) -> i32 {
        *old
    }

    open spec fn merge_spec(&self, delta: &i32) -> i32 {
        *delta
    }

    open spec fn to_delta_spec(self) -> i32 {
        self
    }

    open spec fn from_delta_spec(delta: &i32) -> i32 {
        *delta
    }

    fn diff(&self, old: &i32) -> (r: i32) {
        *old
    }

    fn merge(&self, delta: &i32) -> (r: i32) {
        *delta
    }

    fn to_delta(self) -> (r: i32) {
        self
    }

    fn from_delta(delta: &i32) -> (r: i32) {
        *delta
    }

    fn dup(&self) -> (r: i32) {
        *self
    }

    fn dup_delta(d: &i32) -> (r: i32) {
        *d
    }

    proof fn lemma_merge_diff(new: i32, old: i32) {
    }

    proof fn lemma_delta_roundtrip(v: i32) {
    }
}

impl Diff for i64 {
    type Delta = i64;

    open spec fn diff_spec(&self, old: &i64) -> i64 {
        *old
    }

    open spec fn merge_spec(&self, delta: &i64) -> i64 {
        *delta
    }

    open spec fn to_delta_spec(self) -> i64 {
        self
    }

    open spec fn from_delta_spec(delta: &i64) -> i64 {
        *delta
    }

    fn diff(&self, old: &i64) -> (r: i64) {
        *old
    }

    fn merge(&self, delta: &i64) -> (r: i64) {
        *delta
    }

    fn to_delta(self) -> (r: i64) {
        self
    }

    fn from_delta(delta: &i64) -> (r: i64) {
        *delta
    }

    fn dup(&self) -> (r: i64) {
        *self
    }

    fn dup_delta(d: &i64) -> (r: i64) {
        *d
    }

    proof fn lemma_merge_diff(new: i64, old: i64) {
    }

    proof fn lemma_delta_roundtrip(v: i64) {
    }
}

impl Diff for i128 {
    type Delta = i128;

    open spec fn diff_spec(&self, old: &i128) -> i128 {
        *old
    }

    open spec fn merge_spec(&self, delta: &i128) -> i128 {
        *delta
    }

    open spec fn to_delta_spec(self) -> i128 {
        self
    }

    open spec fn from_delta_spec(delta: &i128) -> i128 {
        *delta
    }

    fn diff(&self, old: &i128) -> (r: i128) {
        *old
    }

    fn merge(&self, delta: &i128) -> (r: i128) {
        *delta
    }

    fn to_delta(self) -> (r: i128) {
        self
    }

    fn from_delta(delta: &i128) -> (r: i128) {
        *delta
    }

    fn dup(&self) -> (r: i128) {
        *self
    }

    fn dup_delta(d: &i128) -> (r: i128) {
        *d
    }

    proof fn lemma_merge_diff(new: i128, old: i128) {
    }

    proof fn lemma_delta_roundtrip(v: i128) {
    }
}

impl Diff for isize {
    type Delta = isize;

    open spec fn diff_spec(&self, old: &isize) -> isize {
        *old
    }

    open spec fn merge_spec(&self, delta: &isize) -> isize {
        *delta
    }

    open spec fn to_delta_spec(self) -> isize {
        self
    }

    open spec fn from_delta_spec(delta: &isize) -> isize {
        *delta
    }

    fn diff(&self, old: &isize) -> (r: isize) {
        *old
    }

    fn merge(&self, delta: &isize) -> (r: isize) {
        *delta
    }

    fn to_delta(self) -> (r: isize) {
        self
    }

    fn from_delta(delta: &isize) -> (r: isize) {
        *delta
    }

    fn dup(&self) -> (r: isize) {
        *self
    }

    fn dup_delta(d: &isize) -> (r: isize) {
        *d
    }

    proof fn lemma_merge_diff(new: isize, old: isize) {
    }

    proof fn lemma_delta_roundtrip(v: isize) {
    }
}

} // verus!
