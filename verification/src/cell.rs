//! A cache of one slot: the latest output of a computation, kept under the
//! hash of the input that gave it.

use vstd::prelude::*;
use vstd::bytes::spec_u64_to_le_bytes;
use vstd::bytes::u64_to_le_bytes;
use crate::abs::Abs;
use crate::geom::Axes;
use crate::geom::Region;
use crate::geom::Regions;
use crate::geom::Size;

verus! {

/// The 128-bit hash of a sequence of bytes.
pub uninterp spec fn hash128(bytes: Seq<u8>) -> u128;

/// `typst_utils::hash128` on a vector of bytes: a SipHash with fixed keys
/// over the vector's length and its bytes, so the result depends on the
/// bytes alone.
#[verifier::external_body]
fn hash_bytes(bytes: &Vec<u8>) -> (h: u128)
    ensures
        h == hash128(bytes@),
{
    typst_utils::hash128(bytes)
}

/// The bytes that stand for a length in a cache key.
pub open spec fn abs_bytes(a: Abs) -> Seq<u8> {
    spec_u64_to_le_bytes(a.raw as u64)
}

pub open spec fn bool_bytes(b: bool) -> Seq<u8> {
    seq![if b { 1u8 } else { 0u8 }]
}

pub open spec fn size_bytes(size: Size) -> Seq<u8> {
    abs_bytes(size.x) + abs_bytes(size.y)
}

pub open spec fn flags_bytes(flags: Axes<bool>) -> Seq<u8> {
    bool_bytes(flags.x) + bool_bytes(flags.y)
}

pub open spec fn option_abs_bytes(a: Option<Abs>) -> Seq<u8> {
    match a {
        Some(a) => bool_bytes(true) + abs_bytes(a),
        None => bool_bytes(false),
    }
}

pub open spec fn heights_bytes(heights: Seq<Abs>) -> Seq<u8>
    decreases heights.len(),
{
    if heights.len() == 0 {
        Seq::empty()
    } else {
        heights_bytes(heights.drop_last()) + abs_bytes(heights.last())
    }
}

fn push_abs(bytes: &mut Vec<u8>, a: Abs)
    ensures
        final(bytes)@ == old(bytes)@ + abs_bytes(a),
{
    let mut word = u64_to_le_bytes(#[verifier::truncate] (a.raw as u64));
    bytes.append(&mut word);
}

fn push_bool(bytes: &mut Vec<u8>, b: bool)
    ensures
        final(bytes)@ == old(bytes)@ + bool_bytes(b),
{
    bytes.push(if b { 1u8 } else { 0u8 });
    assert(bytes@ =~= old(bytes)@ + bool_bytes(b));
}

/// A value that a cache can be keyed on: it has a fixed writing in bytes.
pub trait Fingerprint {
    /// The bytes that stand for the value.
    spec fn key_bytes(&self) -> Seq<u8>;

    fn to_key_bytes(&self) -> (bytes: Vec<u8>)
        ensures
            bytes@ == self.key_bytes(),
    ;
}

impl Fingerprint for Size {
    open spec fn key_bytes(&self) -> Seq<u8> {
        size_bytes(*self)
    }

    fn to_key_bytes(&self) -> (bytes: Vec<u8>) {
        let mut bytes: Vec<u8> = Vec::new();
        push_abs(&mut bytes, self.x);
        push_abs(&mut bytes, self.y);
        assert(bytes@ =~= size_bytes(*self));
        bytes
    }
}

impl Fingerprint for Region {
    open spec fn key_bytes(&self) -> Seq<u8> {
        size_bytes(self.size) + flags_bytes(self.expand)
    }

    fn to_key_bytes(&self) -> (bytes: Vec<u8>) {
        let mut bytes: Vec<u8> = Vec::new();
        push_abs(&mut bytes, self.size.x);
        push_abs(&mut bytes, self.size.y);
        push_bool(&mut bytes, self.expand.x);
        push_bool(&mut bytes, self.expand.y);
        assert(bytes@ =~= size_bytes(self.size) + flags_bytes(self.expand));
        bytes
    }
}

/// The bytes that stand for a run of regions in a cache key.
pub open spec fn regions_key(
    size: Size,
    expand: Axes<bool>,
    full: Abs,
    last: Option<Abs>,
    backlog: Seq<Abs>,
) -> Seq<u8> {
    size_bytes(size) + flags_bytes(expand) + abs_bytes(full) + option_abs_bytes(last)
        + heights_bytes(backlog)
}

impl<'a> Fingerprint for Regions<'a> {
    open spec fn key_bytes(&self) -> Seq<u8> {
        regions_key(self.size, self.expand, self.full, self.last, self.backlog@)
    }

    fn to_key_bytes(&self) -> (bytes: Vec<u8>) {
        let mut bytes: Vec<u8> = Vec::new();
        push_abs(&mut bytes, self.size.x);
        push_abs(&mut bytes, self.size.y);
        push_bool(&mut bytes, self.expand.x);
        push_bool(&mut bytes, self.expand.y);
        push_abs(&mut bytes, self.full);
        match self.last {
            Some(last) => {
                push_bool(&mut bytes, true);
                push_abs(&mut bytes, last);
            },
            None => {
                push_bool(&mut bytes, false);
            },
        }
        let ghost head = bytes@;
        assert(head =~= size_bytes(self.size) + flags_bytes(self.expand) + abs_bytes(self.full)
            + option_abs_bytes(self.last));
        let mut i: usize = 0;
        while i < self.backlog.len()
            invariant
                i <= self.backlog@.len(),
                bytes@ == head + heights_bytes(self.backlog@.take(i as int)),
            decreases self.backlog@.len() - i,
        {
            proof {
                assert(self.backlog@.take(i + 1).drop_last() == self.backlog@.take(i as int));
            }
            push_abs(&mut bytes, self.backlog[i]);
            assert(bytes@ =~= head + heights_bytes(self.backlog@.take(i + 1)));
            i += 1;
        }
        proof {
            assert(self.backlog@.take(i as int) == self.backlog@);
        }
        bytes
    }
}

/// What a cell holds: an output and the hash of the input that gave it.
#[derive(Debug)]
pub struct Slot<T> {
    pub key: u128,
    pub value: T,
}

/// A cache of one slot. A computation that is asked for twice in a row with
/// the same input is run once; another input replaces what the cell holds.
#[derive(Debug)]
pub struct CachedCell<T> {
    pub slot: Option<Slot<T>>,
}

impl<T> CachedCell<T> {
    /// Whether the cell holds an output under the given hash.
    pub open spec fn holds(&self, key: u128) -> bool {
        self.slot is Some && self.slot->0.key == key
    }

    /// Whether this is the cell after an output was asked of `before` for
    /// the given hash: it holds an output under the hash, and it is the
    /// cell as it was where that held one under the hash already.
    pub open spec fn filled_from(&self, before: CachedCell<T>, key: u128) -> bool {
        self.holds(key) && (before.holds(key) ==> *self == before)
    }

    /// An empty cell.
    pub fn new() -> (r: CachedCell<T>)
        ensures
            r.slot is None,
    {
        CachedCell { slot: None }
    }

    /// The hash under which the output for `input` is kept.
    pub fn key_of<I: Fingerprint>(input: &I) -> (key: u128)
        ensures
            key == hash128(input.key_bytes()),
    {
        hash_bytes(&input.to_key_bytes())
    }

    /// The output that the cell holds under `key`, if it holds one.
    pub fn get(&self, key: u128) -> (out: Option<&T>)
        ensures
            out is Some == self.holds(key),
            out is Some ==> *out->0 == self.slot->0.value,
    {
        match &self.slot {
            Some(slot) => if slot.key == key {
                Some(&slot.value)
            } else {
                None
            },
            None => None,
        }
    }

    /// Replaces what the cell holds.
    pub fn put(&mut self, key: u128, value: T)
        ensures
            final(self).slot == Some(Slot { key, value }),
    {
        self.slot = Some(Slot { key, value });
    }

    /// The output for `input`. Where the cell holds one under the hash of
    /// `input`, that output is handed out as it is, the cell stays as it
    /// is, and `f` is not called: it need not even accept the input.
    /// Otherwise `f` is called, and the cell then holds what it returned.
    pub fn get_or_init<I: Fingerprint, F: FnOnce(I) -> T>(&mut self, input: I, f: F) -> (out: &T)
        requires
            !old(self).holds(hash128(input.key_bytes())) ==> f.requires((input,)),
        ensures
            old(self).holds(hash128(input.key_bytes())) ==> *final(self) == *old(self)
                && *out == old(self).slot->0.value,
            !old(self).holds(hash128(input.key_bytes())) ==> f.ensures((input,), *out),
            final(self).holds(hash128(input.key_bytes())),
            final(self).slot->0.value == *out,
    {
        let key = hash_bytes(&input.to_key_bytes());
        let hit = match &self.slot {
            Some(slot) => slot.key == key,
            None => false,
        };
        if !hit {
            let value = f(input);
            self.slot = Some(Slot { key, value });
        }
        match &self.slot {
            Some(slot) => &slot.value,
            None => unreached(),
        }
    }
}

impl<T> CachedCell<T> {
    /// The output for `input`, computed by a function that takes every
    /// input: what the cell holds under the hash of `input`, or else what
    /// `f` makes of the input, which the cell then holds.
    pub fn get_or_compute<I: Fingerprint, F: FnOnce(I) -> T>(&mut self, input: I, f: F) -> (out: &T)
        requires
            f.requires((input,)),
        ensures
            old(self).holds(hash128(input.key_bytes())) ==> *final(self) == *old(self)
                && *out == old(self).slot->0.value,
            !old(self).holds(hash128(input.key_bytes())) ==> f.ensures((input,), *out),
            final(self).holds(hash128(input.key_bytes())),
            final(self).slot->0.value == *out,
    {
        self.get_or_init(input, f)
    }
}

impl<T> Default for CachedCell<T> {
    fn default() -> (r: CachedCell<T>)
        ensures
            r.slot is None,
    {
        CachedCell::new()
    }
}

} // verus!
