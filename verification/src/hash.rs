//! Owned handles on keyed map cells, and their single shared iteration
//! cursor.
//!
//! The host container has exactly one iteration cursor per map, owned by the
//! map itself: starting a new iteration resets any iteration already in
//! flight.  That is an inherited invariant of the host, preserved here: the
//! cursor lives in the cell, not in the iterator handle.

use vstd::prelude::*;

use crate::coerce;
use crate::error::CastError;
use crate::interp::{Cell, HashEntry, Interp, Repr, HV, SV};
use crate::scalar::Scalar;
use crate::value::Value;

verus! {

/// First index in `entries` holding `key`, or the length when absent.
pub open spec fn spec_hash_index(entries: Seq<HashEntry>, key: Seq<u8>) -> int
    decreases entries.len(),
{
    if entries.len() == 0 {
        0
    } else if entries[0].key@ == key {
        0
    } else {
        1 + spec_hash_index(entries.drop_first(), key)
    }
}

/// The first index never passes the length and lands on the key.
pub proof fn lemma_hash_index_le_len(entries: Seq<HashEntry>, key: Seq<u8>)
    ensures
        0 <= spec_hash_index(entries, key) <= entries.len(),
        spec_hash_index(entries, key) < entries.len() ==> entries[spec_hash_index(
            entries,
            key,
        )].key@ == key,
    decreases entries.len(),
{
    if entries.len() > 0 && entries[0].key@ != key {
        lemma_hash_index_le_len(entries.drop_first(), key);
    }
}

/// The representation is a plain scalar usable as a map key (structured
/// values cannot key a map; a reference's address text is host-dependent).
pub open spec fn spec_scalar_key(r: Repr) -> bool {
    r is Str || r is Lazy || r is Undef || r is Int || r is UInt
}

/// The bytes a scalar key reads as under the host coercion.
pub open spec fn spec_key_bytes(r: Repr) -> Seq<u8> {
    match r {
        Repr::Str { bytes, .. } => bytes@,
        Repr::Lazy { bytes, .. } => bytes@,
        Repr::Int(i) => coerce::spec_i64_dec_bytes(i as int),
        Repr::UInt(u) => coerce::spec_dec_bytes(u as nat),
        _ => Seq::empty(),
    }
}

/// Read a key cell's bytes under the host coercion.
fn key_bytes_of(interp: &Interp, id: usize) -> (r: Vec<u8>)
    requires
        interp.is_alive(id as int),
        spec_scalar_key(interp.repr_of(id as int)),
    ensures
        r@ == spec_key_bytes(interp.repr_of(id as int)),
{
    match &interp.cells[id].repr {
        Repr::Str { bytes, .. } => vstd::slice::slice_to_vec(bytes.as_slice()),
        Repr::Lazy { bytes, .. } => vstd::slice::slice_to_vec(bytes.as_slice()),
        Repr::Int(i) => coerce::dec_bytes_i64(*i),
        Repr::UInt(u) => coerce::dec_bytes(*u),
        _ => {
            let v: Vec<u8> = Vec::new();
            proof {
                assert(v@ =~= Seq::<u8>::empty());
            }
            v
        },
    }
}

/// An owned handle on a keyed map cell.
#[derive(Debug)]
pub struct Hash(pub Scalar);

impl Hash {
    /// The handle owns a unit on a live map cell.
    pub open spec fn ok(self, interp: Interp) -> bool {
        &&& interp.valid_unit(self.0.sv.id as int)
        &&& interp.repr_of(self.0.sv.id as int) is Hash
    }

    /// The cell this handle owns a unit on.
    pub open spec fn id(self) -> int {
        self.0.sv.id as int
    }

    /// The entries of the map cell, in insertion order.
    pub open spec fn spec_entries(self, interp: Interp) -> Seq<HashEntry> {
        interp.repr_of(self.0.sv.id as int)->Hash_entries@
    }

    /// The shared iteration cursor of the map cell.
    pub open spec fn spec_cursor(self, interp: Interp) -> nat {
        interp.cells@[self.0.sv.id as int].cursor as nat
    }

    /// A fresh, empty map cell.
    pub fn new(interp: &mut Interp) -> (r: Hash)
        requires
            old(interp).cells@.len() < usize::MAX,
        ensures
            r.ok(*final(interp)),
            r.id() == old(interp).cells@.len(),
            r.spec_entries(*final(interp)).len() == 0,
            final(interp).cells@.len() == old(interp).cells@.len() + 1,
            final(interp).cells@.subrange(0, r.id()) == old(interp).cells@,
            final(interp).rc_of(r.id()) == 1,
            final(interp).cells@[r.id()].magic@.len() == 0,
            final(interp).cells@[r.id()].blessed is None,
            final(interp).cells@[r.id()].cursor == 0,
            Interp::only_cells_changed(*old(interp), *final(interp)),
    {
        let id = interp.alloc_cell(Repr::Hash { entries: Vec::new() });
        Hash(Scalar { sv: SV { id } })
    }

    /// Widen back to a plain owned handle.
    pub fn into_scalar(self) -> (r: Scalar)
        ensures
            r == self.0,
    {
        self.0
    }

    /// The raw identity as a map pointer.
    pub fn hv(&self) -> (r: HV)
        ensures
            r.id == self.0.sv.id,
    {
        HV { id: self.0.sv.id }
    }

    /// Narrow an owned handle, trusting the caller that the cell is a map.
    pub fn from_scalar(scalar: Scalar) -> (r: Hash)
        ensures
            r.0 == scalar,
    {
        Hash(scalar)
    }

    /// Adopt a raw map identity, taking over one unit.
    pub fn from_raw_move(hv: HV) -> (r: Hash)
        ensures
            r.0.sv.id == hv.id,
    {
        Hash(Scalar { sv: SV { id: hv.id } })
    }

    /// Borrow a raw map identity into a new owned handle (one more unit).
    pub fn from_raw_ref(interp: &mut Interp, hv: HV) -> (r: Hash)
        requires
            old(interp).valid_unit(hv.id as int),
            old(interp).rc_of(hv.id as int) < u64::MAX,
        ensures
            r.0.sv.id == hv.id,
            Interp::only_cell_updated(*old(interp), *final(interp), hv.id as int),
            final(interp).rc_of(hv.id as int) == old(interp).rc_of(hv.id as int) + 1,
    {
        interp.inc_rc(hv.id);
        Hash(Scalar { sv: SV { id: hv.id } })
    }

    /// Acquire another owned handle on the same cell.
    pub fn clone_ref(&self, interp: &mut Interp) -> (r: Hash)
        requires
            old(interp).valid_unit(self.0.sv.id as int),
            old(interp).rc_of(self.0.sv.id as int) < u64::MAX,
        ensures
            r.0.sv == self.0.sv,
            Interp::only_cell_updated(*old(interp), *final(interp), self.id()),
            final(interp).rc_of(self.id()) == old(interp).rc_of(self.id()) + 1,
            final(interp).cells@[self.id()] == (Cell {
                rc: (old(interp).cells@[self.id()].rc + 1) as u64,
                ..old(interp).cells@[self.id()]
            }),
    {
        interp.inc_rc(self.0.sv.id);
        Hash(Scalar { sv: self.0.sv })
    }

    /// Release the owned unit.
    pub fn release(self, interp: &mut Interp)
        requires
            old(interp).valid_unit(self.0.sv.id as int),
        ensures
            Interp::same_env(*old(interp), *final(interp)),
            Interp::same_stacks(*old(interp), *final(interp)),
            Interp::reaped(*old(interp), *final(interp)),
    {
        self.0.release(interp)
    }

    /// Number of keys.
    pub fn len(&self, interp: &Interp) -> (r: usize)
        requires
            interp.is_alive(self.0.sv.id as int),
            interp.repr_of(self.0.sv.id as int) is Hash,
        ensures
            r == self.spec_entries(*interp).len(),
    {
        match &interp.cells[self.0.sv.id].repr {
            Repr::Hash { entries } => entries.len(),
            _ => {
                proof {
                    assert(false);
                }
                0
            },
        }
    }

    /// Whether the map is empty.
    pub fn is_empty(&self, interp: &Interp) -> (r: bool)
        requires
            interp.is_alive(self.0.sv.id as int),
            interp.repr_of(self.0.sv.id as int) is Hash,
        ensures
            r == (self.spec_entries(*interp).len() == 0),
    {
        self.len(interp) == 0
    }

    /// Look a text key up; see [`Hash::get_by_bytes`].
    pub fn get(&self, interp: &mut Interp, key: &str) -> (r: Option<Value>)
        requires
            old(interp).is_alive(self.0.sv.id as int),
            old(interp).repr_of(self.0.sv.id as int) is Hash,
        ensures
            hash_get_post(
                *self,
                *old(interp),
                *final(interp),
                vstd::string::StringSliceAdditionalSpecFns::spec_bytes(key),
                r,
            ),
    {
        let bytes = coerce::str_bytes(key);
        self.get_by_bytes(interp, bytes.as_slice())
    }

    /// Look a byte-string key up: a hit hands back a fresh owned value on
    /// the stored cell (one more unit), a miss hands back nothing.
    pub fn get_by_bytes(&self, interp: &mut Interp, key: &[u8]) -> (r: Option<Value>)
        requires
            old(interp).is_alive(self.0.sv.id as int),
            old(interp).repr_of(self.0.sv.id as int) is Hash,
        ensures
            hash_get_post(*self, *old(interp), *final(interp), key@, r),
    {
        let id = self.0.sv.id;
        let e_opt = match &interp.cells[id].repr {
            Repr::Hash { entries } => {
                let idx = find_entry(entries, key);
                if idx < entries.len() {
                    Some(entries[idx].val)
                } else {
                    None
                }
            },
            _ => None,
        };
        match e_opt {
            Some(e) => {
                if e < interp.cells.len() && interp.cells[e].alive && interp.cells[e].rc >= 1
                    && interp.cells[e].rc < u64::MAX {
                    let s = Scalar::from_raw_ref(interp, SV { id: e });
                    Some(Value::from_scalar(interp, s))
                } else {
                    None
                }
            },
            None => None,
        }
    }

    /// Insert under a text key; see [`Hash::insert_by_bytes`].
    pub fn insert(&self, interp: &mut Interp, key: &str, value: Value)
        requires
            old(interp).is_alive(self.0.sv.id as int),
            old(interp).repr_of(self.0.sv.id as int) is Hash,
            old(interp).repr_of(self.0.sv.id as int)->Hash_entries@.len() < usize::MAX,
            old(interp).mortals@.len() < usize::MAX,
        ensures
            hash_insert_post(
                *self,
                *old(interp),
                *final(interp),
                vstd::string::StringSliceAdditionalSpecFns::spec_bytes(key),
                value,
            ),
    {
        let bytes = coerce::str_bytes(key);
        self.insert_by_bytes(interp, bytes, value)
    }

    /// Insert a value under a byte-string key, transferring the value's
    /// owned unit into the map.  A displaced value's unit goes to the
    /// deferred-free list.
    pub fn insert_by_bytes(&self, interp: &mut Interp, key: Vec<u8>, value: Value)
        requires
            old(interp).is_alive(self.0.sv.id as int),
            old(interp).repr_of(self.0.sv.id as int) is Hash,
            old(interp).repr_of(self.0.sv.id as int)->Hash_entries@.len() < usize::MAX,
            old(interp).mortals@.len() < usize::MAX,
        ensures
            hash_insert_post(*self, *old(interp), *final(interp), key@, value),
    {
        let id = self.0.sv.id;
        let e = value.into_raw().id;
        let mut c = Cell {
            rc: 0,
            alive: false,
            repr: Repr::Undef,
            magic: Vec::new(),
            blessed: None,
            cursor: 0,
        };
        interp.cells.set_and_swap(id, &mut c);
        let (repr, displaced) = match c.repr {
            Repr::Hash { mut entries } => {
                let idx = find_entry(&entries, key.as_slice());
                if idx < entries.len() {
                    let old_val = entries[idx].val;
                    entries.set(idx, HashEntry { key, val: e });
                    (Repr::Hash { entries }, Some(old_val))
                } else {
                    entries.push(HashEntry { key, val: e });
                    (Repr::Hash { entries }, None)
                }
            },
            other => (other, None),
        };
        c.repr = repr;
        interp.cells.set(id, c);
        proof {
            assert(interp.cells@ =~= old(interp).cells@.update(
                id as int,
                interp.cells@[id as int],
            ));
        }
        match displaced {
            Some(old_val) => {
                interp.push_mortal(old_val);
            },
            None => {},
        }
    }

    /// Insert using an existing scalar as the key: the key cell reads as
    /// bytes under the host coercion (strings as themselves, integers in
    /// decimal, the undefined value as the empty string), and the key
    /// handle's unit goes to the deferred-free list.
    pub fn insert_by_value(&self, interp: &mut Interp, key: Value, value: Value)
        requires
            old(interp).is_alive(self.0.sv.id as int),
            old(interp).repr_of(self.0.sv.id as int) is Hash,
            old(interp).repr_of(self.0.sv.id as int)->Hash_entries@.len() < usize::MAX,
            old(interp).mortals@.len() + 1 < usize::MAX,
            old(interp).is_alive(key.sv_id()),
            spec_scalar_key(old(interp).repr_of(key.sv_id())),
        ensures
            ({
                let kb = spec_key_bytes(old(interp).repr_of(key.sv_id()));
                let entries = self.spec_entries(*old(interp));
                let idx = spec_hash_index(entries, kb);
                &&& Interp::same_env(*old(interp), *final(interp))
                &&& Interp::same_freed(*old(interp), *final(interp))
                &&& final(interp).stack@ == old(interp).stack@
                &&& final(interp).marks@ == old(interp).marks@
                &&& final(interp).tmps@ == old(interp).tmps@
                &&& final(interp).cells@.len() == old(interp).cells@.len()
                &&& forall|j: int|
                    0 <= j < old(interp).cells@.len() && j != self.id() ==> final(interp).cells@[j] == old(interp).cells@[j]
                &&& final(interp).cells@[self.id()] == (Cell {
                    repr: final(interp).cells@[self.id()].repr,
                    ..old(interp).cells@[self.id()]
                })
                &&& final(interp).repr_of(self.id()) is Hash
                &&& {
                    let new_entries = final(interp).repr_of(self.id())->Hash_entries@;
                    if idx < entries.len() {
                        &&& new_entries.len() == entries.len()
                        &&& forall|j: int|
                            0 <= j < entries.len() && j != idx ==> new_entries[j] == entries[j]
                        &&& new_entries[idx].key@ == kb
                        &&& new_entries[idx].val == value.spec_sv().id
                        &&& final(interp).mortals@ == old(interp).mortals@.push(
                            key.spec_sv().id,
                        ).push(entries[idx].val)
                    } else {
                        &&& new_entries.len() == entries.len() + 1
                        &&& forall|j: int|
                            0 <= j < entries.len() ==> new_entries[j] == entries[j]
                        &&& new_entries.last().key@ == kb
                        &&& new_entries.last().val == value.spec_sv().id
                        &&& final(interp).mortals@ == old(interp).mortals@.push(
                            key.spec_sv().id,
                        )
                    }
                }
            }),
    {
        let key_bytes = key_bytes_of(interp, key.raw_id());
        let k = key.into_raw();
        interp.push_mortal(k.id);
        self.insert_by_bytes(interp, key_bytes, value)
    }

    /// Reset and hand out the map's one shared iterator.  Any iteration
    /// already in flight on this map starts over: the cursor belongs to the
    /// container, not to the iterator.
    pub fn shared_iter(&self, interp: &mut Interp) -> (r: Iter)
        requires
            old(interp).is_alive(self.0.sv.id as int),
        ensures
            r.hv.id == self.0.sv.id,
            Interp::only_cell_updated(*old(interp), *final(interp), self.id()),
            final(interp).cells@[self.id()] == (Cell {
                cursor: 0,
                ..old(interp).cells@[self.id()]
            }),
            self.spec_cursor(*final(interp)) == 0,
    {
        let id = self.0.sv.id;
        let mut c = Cell {
            rc: 0,
            alive: false,
            repr: Repr::Undef,
            magic: Vec::new(),
            blessed: None,
            cursor: 0,
        };
        interp.cells.set_and_swap(id, &mut c);
        c.cursor = 0;
        interp.cells.set(id, c);
        proof {
            assert(final(interp).cells@ =~= old(interp).cells@.update(
                id as int,
                final(interp).cells@[id as int],
            ));
        }
        Iter { hv: HV { id } }
    }

    /// Narrow an owned handle after checking the runtime type tag; a
    /// mismatch reports the cast error.  This validates only.
    pub fn try_from_scalar(interp: &Interp, scalar: Scalar) -> (r: Result<Hash, (Scalar,
        CastError,
    )>)
        requires
            interp.is_alive(scalar.sv.id as int),
        ensures
            interp.repr_of(scalar.sv.id as int) is Hash ==> (r matches Ok(h) && h.0 == scalar),
            !(interp.repr_of(scalar.sv.id as int) is Hash) ==> (r matches Err(p)
                && p.0 == scalar),
    {
        if matches!(&interp.cells[scalar.sv.id].repr, Repr::Hash { .. }) {
            Ok(Hash(scalar))
        } else {
            Err((scalar, CastError))
        }
    }
}

/// What a lookup guarantees: on a hit, a fresh owned value on the first
/// entry holding the key; on a miss (or a stored cell that is gone or has
/// an exhausted count) nothing, with the interpreter untouched.
pub open spec fn hash_get_post(
    h: Hash,
    pre: Interp,
    post: Interp,
    key: Seq<u8>,
    r: Option<Value>,
) -> bool {
    let entries = h.spec_entries(pre);
    let idx = spec_hash_index(entries, key);
    if idx < entries.len() && pre.valid_unit(entries[idx].val as int) && pre.rc_of(
        entries[idx].val as int,
    ) < u64::MAX {
        let e = entries[idx].val;
        &&& (r matches Some(v) && v.sv_id() == e as int && v.ok(post))
        &&& Interp::only_cell_updated(pre, post, e as int)
        &&& post.rc_of(e as int) == pre.rc_of(e as int) + 1
        &&& post.cells@[e as int] == (Cell { rc: (pre.cells@[e as int].rc + 1) as u64, ..pre.cells@[e as int] })
    } else {
        r is None && post == pre
    }
}

/// What an insertion guarantees: a fresh key appends an entry; an existing
/// key keeps its place, takes the new value, and its displaced value's unit
/// moves to the deferred-free list.  Only the map cell (and possibly the
/// deferred-free list) changes.
pub open spec fn hash_insert_post(
    h: Hash,
    pre: Interp,
    post: Interp,
    key: Seq<u8>,
    value: Value,
) -> bool {
    let entries = h.spec_entries(pre);
    let idx = spec_hash_index(entries, key);
    &&& Interp::same_env(pre, post)
    &&& Interp::same_freed(pre, post)
    &&& post.stack@ == pre.stack@
    &&& post.marks@ == pre.marks@
    &&& post.tmps@ == pre.tmps@
    &&& post.cells@.len() == pre.cells@.len()
    &&& forall|j: int|
        0 <= j < pre.cells@.len() && j != h.id() ==> post.cells@[j] == pre.cells@[j]
    &&& post.cells@[h.id()] == (Cell {
        repr: post.cells@[h.id()].repr,
        ..pre.cells@[h.id()]
    })
    &&& post.repr_of(h.id()) is Hash
    &&& {
        let new_entries = post.repr_of(h.id())->Hash_entries@;
        if idx < entries.len() {
            &&& new_entries.len() == entries.len()
            &&& forall|j: int| 0 <= j < entries.len() && j != idx ==> new_entries[j] == entries[j]
            &&& new_entries[idx].key@ == key
            &&& new_entries[idx].val == value.spec_sv().id
            &&& post.mortals@ == pre.mortals@.push(entries[idx].val)
        } else {
            &&& new_entries.len() == entries.len() + 1
            &&& forall|j: int| 0 <= j < entries.len() ==> new_entries[j] == entries[j]
            &&& new_entries.last().key@ == key
            &&& new_entries.last().val == value.spec_sv().id
            &&& post.mortals@ == pre.mortals@
        }
    }
}

/// Find the first entry index for a key, or the length when absent.
pub fn find_entry(entries: &Vec<HashEntry>, key: &[u8]) -> (idx: usize)
    ensures
        idx == spec_hash_index(entries@, key@),
{
    let n = entries.len();
    let mut i: usize = 0;
    proof {
        assert(entries@.skip(0) =~= entries@);
    }
    while i < n
        invariant
            n == entries@.len(),
            i <= n,
            spec_hash_index(entries@, key@) == i + spec_hash_index(
                entries@.skip(i as int),
                key@,
            ),
        ensures
            i <= n,
            spec_hash_index(entries@, key@) == i as int,
        decreases n - i,
    {
        if coerce::bytes_eq(entries[i].key.as_slice(), key) {
            proof {
                assert(entries@.skip(i as int)[0] == entries@[i as int]);
                assert(spec_hash_index(entries@.skip(i as int), key@) == 0);
            }
            break;
        }
        i = i + 1;
        proof {
            assert(entries@.skip(i - 1).drop_first() =~= entries@.skip(i as int));
            assert(entries@.skip(i - 1)[0] == entries@[i - 1]);
        }
    }
    proof {
        if i == n {
            assert(entries@.skip(n as int) =~= Seq::<HashEntry>::empty());
        }
    }
    i
}

/// The map's shared iterator: it names the map; the cursor state lives in
/// the map cell itself.
pub struct Iter {
    pub hv: HV,
}

impl Iter {
    /// The entry under the shared cursor: its key bytes and a fresh owned
    /// value on the stored cell.  Past the end (or on a stored cell that is
    /// gone or exhausted) nothing comes back and the cursor stays.
    pub fn next(&self, interp: &mut Interp) -> (r: Option<(Vec<u8>, Value)>)
        requires
            old(interp).is_alive(self.hv.id as int),
            old(interp).repr_of(self.hv.id as int) is Hash,
        ensures
            ({
                let entries = old(interp).repr_of(self.hv.id as int)->Hash_entries@;
                let cur = old(interp).cells@[self.hv.id as int].cursor;
                if cur < entries.len() && old(interp).valid_unit(entries[cur as int].val as int)
                    && old(interp).rc_of(entries[cur as int].val as int) < u64::MAX {
                    let e = entries[cur as int].val;
                    &&& (r matches Some(kv) && kv.0@ == entries[cur as int].key@
                        && kv.1.sv_id() == e as int && kv.1.ok(*final(interp)))
                    &&& final(interp).cells@.len() == old(interp).cells@.len()
                    &&& forall|j: int|
                        0 <= j < old(interp).cells@.len() && j != self.hv.id as int && j
                            != e as int ==> final(interp).cells@[j] == old(interp).cells@[j]
                    &&& final(interp).cells@[self.hv.id as int] == (Cell {
                        cursor: (cur + 1) as usize,
                        rc: if self.hv.id == e {
                            (old(interp).cells@[self.hv.id as int].rc + 1) as u64
                        } else {
                            old(interp).cells@[self.hv.id as int].rc
                        },
                        ..old(interp).cells@[self.hv.id as int]
                    })
                    &&& self.hv.id != e ==> final(interp).cells@[e as int] == (Cell {
                        rc: (old(interp).cells@[e as int].rc + 1) as u64,
                        ..old(interp).cells@[e as int]
                    })
                    &&& Interp::only_cells_changed(*old(interp), *final(interp))
                } else {
                    r is None && *final(interp) == *old(interp)
                }
            }),
    {
        let id = self.hv.id;
        let cur = interp.cells[id].cursor;
        let kv_opt = match &interp.cells[id].repr {
            Repr::Hash { entries } => {
                if cur < entries.len() {
                    let k = vstd::slice::slice_to_vec(entries[cur].key.as_slice());
                    Some((k, entries[cur].val))
                } else {
                    None
                }
            },
            _ => None,
        };
        match kv_opt {
            Some((k, e)) => {
                if e < interp.cells.len() && interp.cells[e].alive && interp.cells[e].rc >= 1
                    && interp.cells[e].rc < u64::MAX {
                    let mut c = Cell {
                        rc: 0,
                        alive: false,
                        repr: Repr::Undef,
                        magic: Vec::new(),
                        blessed: None,
                        cursor: 0,
                    };
                    interp.cells.set_and_swap(id, &mut c);
                    c.cursor = cur + 1;
                    interp.cells.set(id, c);
                    proof {
                        assert(interp.cells@ =~= old(interp).cells@.update(
                            id as int,
                            interp.cells@[id as int],
                        ));
                    }
                    let s = Scalar::from_raw_ref(interp, SV { id: e });
                    let v = Value::from_scalar(interp, s);
                    Some((k, v))
                } else {
                    None
                }
            },
            None => None,
        }
    }
}

} // verus!
