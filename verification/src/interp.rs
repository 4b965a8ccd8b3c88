//! The interpreter model: a bounds-checked store of reference-counted
//! dynamic cells.
//!
//! A cell is the unit the host language refcounts.  Its representation is one
//! of: undefined, signed or unsigned integer, byte string (with a text
//! flag), a deferred ("lazy") byte string that must be forced before
//! classification, a reference to another cell, an ordered sequence of
//! cells, or a keyed map of cells.  Container edges (reference target,
//! sequence elements, map values) each hold one reference-count unit on the
//! cell they point to.
//!
//! Reclamation is deferred and cascading: when a cell's count reaches zero
//! its attachments with a registered free callback are freed, the cell is
//! marked dead, and the units it held on its children are released in turn.

use vstd::prelude::*;
use vstd::string::StringSliceAdditionalSpecFns;

verus! {

/// Identity of a dynamic cell in the store.  Holding an `SV` confers no
/// ownership by itself; whether it stands for a reference-count unit is a
/// convention between caller and callee.
#[derive(Clone, Copy, Debug, PartialEq, Eq, Structural)]
pub struct SV {
    pub id: usize,
}

/// Identity of a cell known to hold a sequence.
#[derive(Clone, Copy, Debug, PartialEq, Eq, Structural)]
pub struct AV {
    pub id: usize,
}

/// Identity of a cell known to hold a keyed map.
#[derive(Clone, Copy, Debug, PartialEq, Eq, Structural)]
pub struct HV {
    pub id: usize,
}

/// One entry of a keyed map cell: key bytes and the value cell (one owned
/// unit).
pub struct HashEntry {
    pub key: Vec<u8>,
    pub val: usize,
}

/// The representation of a dynamic cell.
pub enum Repr {
    /// The undefined value.
    Undef,
    /// A signed integer.
    Int(i64),
    /// An unsigned integer.
    UInt(u64),
    /// A byte string; `utf8` marks it as encoded text.
    Str { bytes: Vec<u8>, utf8: bool },
    /// A deferred byte string (a substring projection): it reports as
    /// undefined until forced to a concrete `Str` during classification.
    Lazy { bytes: Vec<u8>, utf8: bool },
    /// A reference: the target cell id (one owned unit).
    Ref { target: usize },
    /// An ordered sequence of cell ids (one owned unit each).
    Array { elems: Vec<usize> },
    /// A keyed map in insertion order (one owned unit per value).
    Hash { entries: Vec<HashEntry> },
}

/// A foreign attachment on a cell: the identity of its callback table and
/// the leaked native payload token.
#[derive(Clone, Copy, Debug, PartialEq, Eq, Structural)]
pub struct Attachment {
    pub vtbl: usize,
    pub payload: u64,
}

/// One reference-counted cell.
pub struct Cell {
    /// Number of ownership units currently held on this cell.
    pub rc: u64,
    /// False once the cell has been reclaimed; ids are never reused.
    pub alive: bool,
    pub repr: Repr,
    /// Foreign attachments, in attachment order.
    pub magic: Vec<Attachment>,
    /// Class tag, when the cell has been blessed into a package.
    pub blessed: Option<Vec<u8>>,
    /// Shared iteration cursor (meaningful for map cells only).
    pub cursor: usize,
}

/// The interpreter instance: the cell store plus the ambient state a native
/// call interacts with (deferred-free list, argument stack and marks,
/// callback tables, known packages, scoped flags).
pub struct Interp {
    pub cells: Vec<Cell>,
    /// Registered callback tables; `vtbls[i]` records whether table `i` has
    /// a free callback.  Table 0 is reserved to mark substring cells.
    pub vtbls: Vec<bool>,
    /// Deferred-free list: each entry holds one unit on its cell.
    pub mortals: Vec<usize>,
    /// The argument/value stack; entries are borrowed (kept alive by the
    /// deferred-free list under the host's convention).
    pub stack: Vec<usize>,
    /// The stack of argument marks (positions into `stack`).
    pub marks: Vec<usize>,
    /// Saved deferred-free list heights for scope blocks.
    pub tmps: Vec<usize>,
    /// Known package names, for blessing.
    pub packages: Vec<Vec<u8>>,
    /// Payload tokens whose free callback has run, in order.
    pub freed_payloads: Vec<u64>,
    /// Scoped flag: the raw-passthrough escape is recognized.
    pub raw_enabled: bool,
    /// Scoped flag: sequences in return position become value lists.
    pub list_enabled: bool,
    /// Calling context: true when the caller expects a list.
    pub gimme: bool,
    /// Whether the host should use its safe environment-setting call.
    pub safe_putenv: bool,
}

/// The callback-table identity reserved for substring cells.
pub const SUBSTR_VTBL: usize = 0;

impl Interp {
    /// Number of cells ever allocated (dead ones included).
    pub open spec fn n_cells(self) -> nat {
        self.cells@.len()
    }

    /// The cell is in range and not yet reclaimed.
    pub open spec fn is_alive(self, id: int) -> bool {
        0 <= id < self.cells@.len() && self.cells@[id].alive
    }

    /// Reference count of a cell.
    pub open spec fn rc_of(self, id: int) -> nat {
        self.cells@[id].rc as nat
    }

    /// Representation of a cell.
    pub open spec fn repr_of(self, id: int) -> Repr {
        self.cells@[id].repr
    }

    /// The cell is alive and at least one ownership unit exists on it, so a
    /// handle may own a unit of it.
    pub open spec fn valid_unit(self, id: int) -> bool {
        self.is_alive(id) && self.rc_of(id) >= 1
    }

    /// True when the caller expects a list of return values.
    pub open spec fn gimme_list(self) -> bool {
        self.gimme
    }

    /// The registry and flag state is unchanged.
    pub open spec fn same_env(pre: Interp, post: Interp) -> bool {
        &&& post.vtbls@ == pre.vtbls@
        &&& post.packages@ == pre.packages@
        &&& post.raw_enabled == pre.raw_enabled
        &&& post.list_enabled == pre.list_enabled
        &&& post.gimme == pre.gimme
        &&& post.safe_putenv == pre.safe_putenv
    }

    /// The deferred-free list, value stack, mark stack and scope stack are
    /// unchanged.
    pub open spec fn same_stacks(pre: Interp, post: Interp) -> bool {
        &&& post.mortals@ == pre.mortals@
        &&& post.stack@ == pre.stack@
        &&& post.marks@ == pre.marks@
        &&& post.tmps@ == pre.tmps@
    }

    /// No free callback has run.
    pub open spec fn same_freed(pre: Interp, post: Interp) -> bool {
        post.freed_payloads@ == pre.freed_payloads@
    }

    /// Everything except the cell store is unchanged.
    pub open spec fn only_cells_changed(pre: Interp, post: Interp) -> bool {
        &&& Self::same_env(pre, post)
        &&& Self::same_stacks(pre, post)
        &&& Self::same_freed(pre, post)
    }

    /// The store is unchanged except for the single cell `id`.
    pub open spec fn only_cell_updated(pre: Interp, post: Interp, id: int) -> bool {
        &&& Self::only_cells_changed(pre, post)
        &&& post.cells@.len() == pre.cells@.len()
        &&& forall|j: int|
            0 <= j < pre.cells@.len() && j != id ==> post.cells@[j] == pre.cells@[j]
    }

    /// Relation between a store and the same store after reclamation ran:
    /// nothing is resurrected, counts only drop, live cells keep their
    /// contents, and the ambient state other than the freed-payload log is
    /// untouched.  The stacks are not constrained here; operations state
    /// what happens to them separately.
    pub open spec fn reaped(pre: Interp, post: Interp) -> bool {
        &&& Self::same_env(pre, post)
        &&& post.cells@.len() == pre.cells@.len()
        &&& pre.freed_payloads@.is_prefix_of(post.freed_payloads@)
        &&& forall|j: int| post.is_alive(j) ==> pre.is_alive(j)
        &&& forall|j: int|
            0 <= j < pre.cells@.len() ==> post.rc_of(j) <= pre.rc_of(j)
        &&& forall|j: int| #[trigger]
            post.is_alive(j) ==> {
                &&& post.cells@[j].repr == pre.cells@[j].repr
                &&& post.cells@[j].magic@ == pre.cells@[j].magic@
                &&& post.cells@[j].blessed == pre.cells@[j].blessed
                &&& post.cells@[j].cursor == pre.cells@[j].cursor
            }
        &&& forall|j: int|
            post.is_alive(j) && post.rc_of(j) == 0 ==> pre.rc_of(j) == 0
    }

    /// `reaped` composes.
    pub proof fn lemma_reaped_trans(a: Interp, b: Interp, c: Interp)
        requires
            Self::reaped(a, b),
            Self::reaped(b, c),
        ensures
            Self::reaped(a, c),
    {
        assert(a.freed_payloads@.is_prefix_of(c.freed_payloads@)) by {
            assert(a.freed_payloads@ =~= c.freed_payloads@.subrange(
                0,
                a.freed_payloads@.len() as int,
            ));
        }
        assert forall|j: int| c.is_alive(j) implies a.is_alive(j) by {
            assert(b.is_alive(j));
        }
        assert forall|j: int| #[trigger] c.is_alive(j) implies {
            &&& c.cells@[j].repr == a.cells@[j].repr
            &&& c.cells@[j].magic@ == a.cells@[j].magic@
            &&& c.cells@[j].blessed == a.cells@[j].blessed
            &&& c.cells@[j].cursor == a.cells@[j].cursor
        } by {
            assert(b.is_alive(j));
        }
        assert forall|j: int| c.is_alive(j) && c.rc_of(j) == 0 implies a.rc_of(j) == 0 by {
            assert(b.is_alive(j));
            assert(b.rc_of(j) <= a.rc_of(j));
            assert(b.rc_of(j) == 0 ==> a.rc_of(j) == 0);
        }
    }

    /// `reaped` holds reflexively.
    pub proof fn lemma_reaped_refl(a: Interp)
        ensures
            Self::reaped(a, a),
    {
        assert(a.freed_payloads@ =~= a.freed_payloads@.subrange(
            0,
            a.freed_payloads@.len() as int,
        ));
    }

    /// `reaped` is insensitive to the stacks: a state with the same cells,
    /// registries, flags and freed log stands in the same relation.
    pub proof fn lemma_reaped_frame(pre: Interp, a: Interp, b: Interp)
        requires
            Self::reaped(pre, a),
            b.cells@ == a.cells@,
            b.vtbls@ == a.vtbls@,
            b.packages@ == a.packages@,
            b.raw_enabled == a.raw_enabled,
            b.list_enabled == a.list_enabled,
            b.gimme == a.gimme,
            b.safe_putenv == a.safe_putenv,
            b.freed_payloads@ == a.freed_payloads@,
        ensures
            Self::reaped(pre, b),
    {
        assert forall|j: int| b.is_alive(j) implies pre.is_alive(j) by {
            assert(a.is_alive(j));
        }
        assert forall|j: int|
            0 <= j < pre.cells@.len() implies b.rc_of(j) <= pre.rc_of(j) by {
            assert(a.rc_of(j) <= pre.rc_of(j));
        }
        assert forall|j: int| #[trigger] b.is_alive(j) implies {
            &&& b.cells@[j].repr == pre.cells@[j].repr
            &&& b.cells@[j].magic@ == pre.cells@[j].magic@
            &&& b.cells@[j].blessed == pre.cells@[j].blessed
            &&& b.cells@[j].cursor == pre.cells@[j].cursor
        } by {
            assert(a.is_alive(j));
        }
    }
}

/// Sum of all reference counts in the store: the termination measure of
/// cascading reclamation.
pub closed spec fn sum_rc(s: Seq<Cell>) -> nat
    decreases s.len(),
{
    if s.len() == 0 {
        0
    } else {
        sum_rc(s.drop_last()) + s.last().rc as nat
    }
}

/// Updating one cell changes the sum by exactly the change of that cell's
/// count.
pub proof fn lemma_sum_rc_update(s: Seq<Cell>, i: int, c: Cell)
    requires
        0 <= i < s.len(),
    ensures
        sum_rc(s.update(i, c)) + s[i].rc as nat == sum_rc(s) + c.rc as nat,
    decreases s.len(),
{
    let t = s.update(i, c);
    if i == s.len() - 1 {
        assert(t.drop_last() =~= s.drop_last());
    } else {
        lemma_sum_rc_update(s.drop_last(), i, c);
        assert(t.drop_last() =~= s.drop_last().update(i, c));
        assert(t.last() == s.last());
    }
}


/// The free-callback contribution of one attachment: its payload token when
/// its callback table has a free entry, nothing otherwise.
pub open spec fn freed_token_of(a: Attachment, vt: Seq<bool>) -> Seq<u64> {
    if a.vtbl < vt.len() && vt[a.vtbl as int] {
        seq![a.payload]
    } else {
        Seq::empty()
    }
}

/// The payload tokens a cell's attachments hand to their free callbacks, in
/// attachment order: those whose callback table has a free entry.
pub open spec fn freed_tokens(m: Seq<Attachment>, vt: Seq<bool>) -> Seq<u64>
    decreases m.len(),
{
    if m.len() == 0 {
        Seq::empty()
    } else {
        freed_tokens(m.drop_last(), vt) + freed_token_of(m.last(), vt)
    }
}

/// A sequence is a prefix of itself extended by anything.
pub proof fn lemma_prefix_extend(a: Seq<u64>, b: Seq<u64>)
    ensures
        a.is_prefix_of(a + b),
{
    assert(a =~= (a + b).subrange(0, a.len() as int));
}

/// A sequence is a prefix of itself.
pub proof fn lemma_prefix_refl(a: Seq<u64>)
    ensures
        a.is_prefix_of(a),
{
    assert(a =~= a.subrange(0, a.len() as int));
}

/// The prefix relation is transitive.
pub proof fn lemma_prefix_trans(a: Seq<u64>, b: Seq<u64>, c: Seq<u64>)
    requires
        a.is_prefix_of(b),
        b.is_prefix_of(c),
    ensures
        a.is_prefix_of(c),
{
    assert(a =~= c.subrange(0, a.len() as int));
}

impl Interp {
    /// A fresh interpreter instance: no cells, the reserved substring
    /// callback table, empty stacks, all scoped flags off.
    pub fn new() -> (r: Interp)
        ensures
            r.cells@.len() == 0,
            r.vtbls@ =~= seq![false],
            r.mortals@.len() == 0,
            r.stack@.len() == 0,
            r.marks@.len() == 0,
            r.tmps@.len() == 0,
            r.packages@.len() == 0,
            r.freed_payloads@.len() == 0,
            !r.raw_enabled,
            !r.list_enabled,
            !r.gimme,
            !r.safe_putenv,
    {
        let mut vtbls: Vec<bool> = Vec::new();
        vtbls.push(false);
        Interp {
            cells: Vec::new(),
            vtbls,
            mortals: Vec::new(),
            stack: Vec::new(),
            marks: Vec::new(),
            tmps: Vec::new(),
            packages: Vec::new(),
            freed_payloads: Vec::new(),
            raw_enabled: false,
            list_enabled: false,
            gimme: false,
            safe_putenv: false,
        }
    }

    /// True when the caller expects a list of return values.
    pub fn gimme_list_flag(&self) -> (r: bool)
        ensures
            r == self.gimme_list(),
    {
        self.gimme
    }

    /// Allocate a fresh cell with one ownership unit, which the caller now
    /// holds.
    pub fn alloc_cell(&mut self, repr: Repr) -> (id: usize)
        requires
            old(self).cells@.len() < usize::MAX,
        ensures
            id == old(self).cells@.len(),
            final(self).cells@.len() == old(self).cells@.len() + 1,
            final(self).cells@.subrange(0, id as int) == old(self).cells@,
            final(self).is_alive(id as int),
            final(self).rc_of(id as int) == 1,
            final(self).repr_of(id as int) == repr,
            final(self).cells@[id as int].magic@.len() == 0,
            final(self).cells@[id as int].blessed is None,
            final(self).cells@[id as int].cursor == 0,
            Self::only_cells_changed(*old(self), *final(self)),
    {
        let id = self.cells.len();
        self.cells.push(Cell {
            rc: 1,
            alive: true,
            repr,
            magic: Vec::new(),
            blessed: None,
            cursor: 0,
        });
        proof {
            assert(final(self).cells@.subrange(0, id as int) =~= old(self).cells@);
        }
        id
    }

    /// Acquire one more ownership unit on a live cell.
    pub fn inc_rc(&mut self, id: usize)
        requires
            old(self).valid_unit(id as int),
            old(self).rc_of(id as int) < u64::MAX,
        ensures
            Self::only_cell_updated(*old(self), *final(self), id as int),
            final(self).is_alive(id as int),
            final(self).rc_of(id as int) == old(self).rc_of(id as int) + 1,
            final(self).cells@[id as int] == (Cell {
                rc: (old(self).cells@[id as int].rc + 1) as u64,
                ..old(self).cells@[id as int]
            }),
    {
        let mut c = placeholder_cell();
        self.cells.set_and_swap(id, &mut c);
        c.rc = c.rc + 1;
        self.cells.set(id, c);
        proof {
            assert(final(self).cells@ =~= old(self).cells@.update(
                id as int,
                final(self).cells@[id as int],
            ));
        }
    }

    /// Release one ownership unit.  When it was the last one the cell is
    /// reclaimed: its free callbacks run (in attachment order), it is marked
    /// dead and emptied, and the units it held on its children are released
    /// in cascade.
    pub fn release_unit(&mut self, id: usize)
        requires
            old(self).valid_unit(id as int),
        ensures
            Self::same_env(*old(self), *final(self)),
            Self::same_stacks(*old(self), *final(self)),
            Self::reaped(*old(self), *final(self)),
            old(self).rc_of(id as int) > 1 ==> {
                &&& Self::only_cell_updated(*old(self), *final(self), id as int)
                &&& final(self).cells@[id as int] == (Cell {
                    rc: (old(self).cells@[id as int].rc - 1) as u64,
                    ..old(self).cells@[id as int]
                })
                &&& Self::same_freed(*old(self), *final(self))
            },
            old(self).rc_of(id as int) == 1 ==> {
                &&& !final(self).is_alive(id as int)
                &&& (old(self).freed_payloads@ + freed_tokens(
                    old(self).cells@[id as int].magic@,
                    old(self).vtbls@,
                )).is_prefix_of(final(self).freed_payloads@)
            },
    {
        let ghost pre = *self;
        let mut c = placeholder_cell();
        self.cells.set_and_swap(id, &mut c);
        if c.rc > 1 {
            c.rc = c.rc - 1;
            self.cells.set(id, c);
            proof {
                assert(final(self).cells@ =~= pre.cells@.update(
                    id as int,
                    final(self).cells@[id as int],
                ));
                assert(pre.freed_payloads@ =~= final(self).freed_payloads@.subrange(
                    0,
                    pre.freed_payloads@.len() as int,
                ));
                assert forall|j: int| final(self).is_alive(j) implies pre.is_alive(j) by {}
            }
        } else {
            // Last unit: run free callbacks, mark dead, release children.
            self.run_free_callbacks(&c.magic);
            let ghost mid1 = *self;
            let children = children_of(&c.repr);
            let dead = Cell {
                rc: 0,
                alive: false,
                repr: Repr::Undef,
                magic: Vec::new(),
                blessed: None,
                cursor: 0,
            };
            self.cells.set(id, dead);
            let ghost mid2 = *self;
            proof {
                assert(mid2.cells@ =~= pre.cells@.update(id as int, dead));
                assert(Self::reaped(pre, mid2)) by {
                    lemma_prefix_extend(
                        pre.freed_payloads@,
                        freed_tokens(c.magic@, pre.vtbls@),
                    );
                    assert forall|j: int| mid2.is_alive(j) implies pre.is_alive(j) by {}
                    assert forall|j: int|
                        0 <= j < pre.cells@.len() implies mid2.rc_of(j) <= pre.rc_of(
                        j,
                    ) by {}
                }
            }
            let mut work: Vec<Vec<usize>> = Vec::new();
            work.push(children);
            self.reap(work);
            proof {
                Self::lemma_reaped_trans(pre, mid2, *final(self));
            }
        }
    }

    /// Run the free callbacks of a reclaimed cell's attachments: each
    /// attachment whose callback table has a free entry hands its payload
    /// token to the freed log, in attachment order.
    fn run_free_callbacks(&mut self, magic: &Vec<Attachment>)
        ensures
            Self::same_env(*old(self), *final(self)),
            Self::same_stacks(*old(self), *final(self)),
            final(self).cells@ == old(self).cells@,
            final(self).freed_payloads@ == old(self).freed_payloads@ + freed_tokens(
                magic@,
                old(self).vtbls@,
            ),
    {
        let n = magic.len();
        let mut i: usize = 0;
        while i < n
            invariant
                n == magic@.len(),
                i <= n,
                Self::same_env(*old(self), *self),
                Self::same_stacks(*old(self), *self),
                self.cells@ == old(self).cells@,
                self.freed_payloads@ == old(self).freed_payloads@ + freed_tokens(
                    magic@.subrange(0, i as int),
                    old(self).vtbls@,
                ),
            decreases n - i,
        {
            let ghost vt = old(self).vtbls@;
            let att = magic[i];
            if att.vtbl < self.vtbls.len() && self.vtbls[att.vtbl] {
                self.freed_payloads.push(att.payload);
            }
            proof {
                let prefi = magic@.subrange(0, i as int);
                let prefi1 = magic@.subrange(0, i + 1);
                assert(prefi1.drop_last() =~= prefi);
                assert(prefi1.last() == magic@[i as int]);
                if att.vtbl < vt.len() && vt[att.vtbl as int] {
                    assert(self.freed_payloads@ =~= old(self).freed_payloads@
                        + freed_tokens(prefi1, vt));
                } else {
                    assert(freed_token_of(magic@[i as int], vt) =~= Seq::<u64>::empty());
                    assert(self.freed_payloads@ =~= old(self).freed_payloads@
                        + freed_tokens(prefi1, vt));
                }
            }
            i = i + 1;
        }
        proof {
            assert(magic@.subrange(0, n as int) =~= magic@);
        }
    }

    /// Cascading reclamation: `work` holds batches of child ids, each of
    /// which still carries one ownership unit from a reclaimed parent.
    /// Terminates because every processed child releases one unit.
    fn reap(&mut self, work: Vec<Vec<usize>>)
        ensures
            Self::reaped(*old(self), *final(self)),
            Self::same_stacks(*old(self), *final(self)),
    {
        let ghost orig = *self;
        let mut work = work;
        proof {
            Self::lemma_reaped_refl(orig);
        }
        loop
            invariant
                Self::reaped(orig, *self),
                Self::same_stacks(orig, *self),
            decreases sum_rc(self.cells@) + work@.len(),
        {
            let ghost m0 = sum_rc(self.cells@) + work@.len();
            let batch = match work.pop() {
                Some(b) => b,
                None => {
                    break;
                },
            };
            let ghost after_pop = sum_rc(self.cells@) + work@.len();
            proof {
                assert(after_pop < m0);
            }
            let n = batch.len();
            let mut i: usize = 0;
            while i < n
                invariant
                    n == batch@.len(),
                    i <= n,
                    Self::reaped(orig, *self),
                    Self::same_stacks(orig, *self),
                    sum_rc(self.cells@) + work@.len() <= after_pop,
                decreases n - i,
            {
                let ghost st = *self;
                let ghost wl = work@.len();
                let child = batch[i];
                if child < self.cells.len() {
                    let mut c = placeholder_cell();
                    self.cells.set_and_swap(child, &mut c);
                    let ghost mid = *self;
                    proof {
                        lemma_sum_rc_update(st.cells@, child as int, mid.cells@[child as int]);
                    }
                    if c.alive && c.rc >= 1 {
                        if c.rc > 1 {
                            c.rc = c.rc - 1;
                            self.cells.set(child, c);
                            proof {
                                lemma_sum_rc_update(
                                    mid.cells@,
                                    child as int,
                                    self.cells@[child as int],
                                );
                                assert(self.cells@ =~= st.cells@.update(
                                    child as int,
                                    self.cells@[child as int],
                                ));
                                assert(Self::reaped(st, *self)) by {
                                    assert(st.freed_payloads@ =~= self.freed_payloads@.subrange(
                                        0,
                                        st.freed_payloads@.len() as int,
                                    ));
                                    assert forall|j: int| self.is_alive(j)
                                        implies st.is_alive(j) by {}
                                }
                                Self::lemma_reaped_trans(orig, st, *self);
                                assert(sum_rc(self.cells@) + 1 == sum_rc(st.cells@));
                            }
                        } else {
                            // The child dies too: free callbacks, mark dead,
                            // queue its children.
                            self.run_free_callbacks(&c.magic);
                            let ghost stf = *self;
                            let grand = children_of(&c.repr);
                            let dead = Cell {
                                rc: 0,
                                alive: false,
                                repr: Repr::Undef,
                                magic: Vec::new(),
                                blessed: None,
                                cursor: 0,
                            };
                            self.cells.set(child, dead);
                            work.push(grand);
                            proof {
                                lemma_sum_rc_update(stf.cells@, child as int, dead);
                                assert(self.cells@ =~= st.cells@.update(child as int, dead));
                                assert(Self::reaped(st, *self)) by {
                                    lemma_prefix_extend(
                                        st.freed_payloads@,
                                        freed_tokens(c.magic@, st.vtbls@),
                                    );
                                    assert forall|j: int| self.is_alive(j)
                                        implies st.is_alive(j) by {}
                                }
                                Self::lemma_reaped_trans(orig, st, *self);
                                assert(sum_rc(self.cells@) + 1 == sum_rc(st.cells@));
                                assert(work@.len() == wl + 1);
                            }
                        }
                    } else {
                        // Not a live counted cell: put it back untouched.
                        self.cells.set(child, c);
                        proof {
                            assert(self.cells@ =~= st.cells@);
                            assert(Self::reaped(st, *self)) by {
                                assert(st.freed_payloads@ =~= self.freed_payloads@.subrange(
                                    0,
                                    st.freed_payloads@.len() as int,
                                ));
                                assert forall|j: int| self.is_alive(j)
                                    implies st.is_alive(j) by {}
                            }
                            Self::lemma_reaped_trans(orig, st, *self);
                        }
                    }
                }
                i = i + 1;
            }
        }
    }
}

/// The ids a representation holds ownership units on: the reference target,
/// the sequence elements, or the map values.
pub open spec fn spec_children_of(r: Repr) -> Seq<usize> {
    match r {
        Repr::Ref { target } => seq![target],
        Repr::Array { elems } => elems@,
        Repr::Hash { entries } => entries@.map_values(|e: HashEntry| e.val),
        _ => Seq::empty(),
    }
}

/// Collect the child ids of a representation.
fn children_of(r: &Repr) -> (out: Vec<usize>)
    ensures
        out@ == spec_children_of(*r),
{
    match r {
        Repr::Ref { target } => {
            let mut v: Vec<usize> = Vec::new();
            v.push(*target);
            proof {
                assert(v@ =~= spec_children_of(*r));
            }
            v
        },
        Repr::Array { elems } => {
            let v = vstd::slice::slice_to_vec(elems.as_slice());
            v
        },
        Repr::Hash { entries } => {
            let mut v: Vec<usize> = Vec::new();
            let n = entries.len();
            let mut i: usize = 0;
            while i < n
                invariant
                    n == entries@.len(),
                    i <= n,
                    v@ == entries@.subrange(0, i as int).map_values(|e: HashEntry| e.val),
                decreases n - i,
            {
                v.push(entries[i].val);
                i = i + 1;
                proof {
                    assert(entries@.subrange(0, i as int).map_values(
                        |e: HashEntry| e.val,
                    ) =~= entries@.subrange(0, i - 1).map_values(|e: HashEntry| e.val).push(
                        entries@[i - 1].val,
                    ));
                }
            }
            proof {
                assert(entries@.subrange(0, n as int) =~= entries@);
            }
            v
        },
        _ => Vec::new(),
    }
}

/// An inert cell used as a swap placeholder.
fn placeholder_cell() -> (c: Cell)
    ensures
        c.rc == 0,
        !c.alive,
        c.repr is Undef,
        c.magic@.len() == 0,
        c.blessed is None,
        c.cursor == 0,
{
    Cell {
        rc: 0,
        alive: false,
        repr: Repr::Undef,
        magic: Vec::new(),
        blessed: None,
        cursor: 0,
    }
}


impl Interp {
    /// Register a new callback table; `has_free` records whether it carries a
    /// free callback.  Returns its identity.
    pub fn register_tag(&mut self, has_free: bool) -> (id: usize)
        requires
            old(self).vtbls@.len() < usize::MAX,
        ensures
            id == old(self).vtbls@.len(),
            final(self).vtbls@ == old(self).vtbls@.push(has_free),
            final(self).cells@ == old(self).cells@,
            Self::same_stacks(*old(self), *final(self)),
            Self::same_freed(*old(self), *final(self)),
            final(self).packages@ == old(self).packages@,
            final(self).raw_enabled == old(self).raw_enabled,
            final(self).list_enabled == old(self).list_enabled,
            final(self).gimme == old(self).gimme,
            final(self).safe_putenv == old(self).safe_putenv,
    {
        let id = self.vtbls.len();
        self.vtbls.push(has_free);
        id
    }

    /// A package of this name is known to the interpreter.
    pub open spec fn has_package(self, name: Seq<u8>) -> bool {
        exists|i: int| 0 <= i < self.packages@.len() && self.packages@[i]@ == name
    }

    /// Make a package name known, so that values can be blessed into it.
    pub fn register_package(&mut self, name: &str)
        requires
            old(self).packages@.len() < usize::MAX,
        ensures
            final(self).packages@.len() == old(self).packages@.len() + 1,
            final(self).has_package(name.spec_bytes()),
            final(self).cells@ == old(self).cells@,
            Self::same_stacks(*old(self), *final(self)),
            Self::same_freed(*old(self), *final(self)),
            final(self).vtbls@ == old(self).vtbls@,
            forall|n: Seq<u8>| old(self).has_package(n) ==> final(self).has_package(n),
            final(self).raw_enabled == old(self).raw_enabled,
            final(self).list_enabled == old(self).list_enabled,
            final(self).gimme == old(self).gimme,
            final(self).safe_putenv == old(self).safe_putenv,
    {
        let bytes = crate::coerce::str_bytes(name);
        let ghost pre = *self;
        self.packages.push(bytes);
        proof {
            let n = pre.packages@.len() as int;
            assert(final(self).packages@[n]@ == name.spec_bytes());
            assert forall|nm: Seq<u8>| pre.has_package(nm) implies final(self).has_package(
                nm,
            ) by {
                let i = choose|i: int| 0 <= i < pre.packages@.len() && pre.packages@[i]@ == nm;
                assert(final(self).packages@[i]@ == nm);
            }
        }
    }

    /// Number of live cells in the store.
    pub open spec fn spec_live_count(s: Seq<Cell>) -> nat
        decreases s.len(),
    {
        if s.len() == 0 {
            0
        } else {
            Self::spec_live_count(s.drop_last()) + if s.last().alive {
                1nat
            } else {
                0nat
            }
        }
    }

    /// Count the live cells: the census a leak test reads.
    pub fn live_count(&self) -> (r: usize)
        ensures
            r == Self::spec_live_count(self.cells@),
    {
        let n = self.cells.len();
        let mut i: usize = 0;
        let mut count: usize = 0;
        proof {
            assert(self.cells@.subrange(0, 0) =~= Seq::<Cell>::empty());
        }
        while i < n
            invariant
                n == self.cells@.len(),
                i <= n,
                count == Self::spec_live_count(self.cells@.subrange(0, i as int)),
                count <= i,
            decreases n - i,
        {
            if self.cells[i].alive {
                count = count + 1;
            }
            i = i + 1;
            proof {
                assert(self.cells@.subrange(0, i as int).drop_last() =~= self.cells@.subrange(
                    0,
                    i - 1,
                ));
            }
        }
        proof {
            assert(self.cells@.subrange(0, n as int) =~= self.cells@);
        }
        count
    }

    /// The reference count of a cell, zero for ids out of range or reclaimed
    /// cells.
    pub fn ref_count(&self, id: usize) -> (r: u64)
        ensures
            id < self.cells@.len() ==> r == self.cells@[id as int].rc,
            id >= self.cells@.len() ==> r == 0,
    {
        if id < self.cells.len() {
            self.cells[id].rc
        } else {
            0
        }
    }

    /// Whether a payload token has been handed to a free callback.
    pub fn payload_was_freed(&self, token: u64) -> (r: bool)
        ensures
            r == self.freed_payloads@.contains(token),
    {
        let n = self.freed_payloads.len();
        let mut i: usize = 0;
        while i < n
            invariant
                n == self.freed_payloads@.len(),
                i <= n,
                forall|j: int| 0 <= j < i ==> self.freed_payloads@[j] != token,
            decreases n - i,
        {
            if self.freed_payloads[i] == token {
                return true;
            }
            i = i + 1;
        }
        false
    }

    /// Hand one ownership unit of the cell to the deferred-free list.
    pub fn push_mortal(&mut self, id: usize)
        requires
            old(self).mortals@.len() < usize::MAX,
        ensures
            final(self).mortals@ == old(self).mortals@.push(id),
            final(self).cells@ == old(self).cells@,
            Self::same_env(*old(self), *final(self)),
            Self::same_freed(*old(self), *final(self)),
            final(self).stack@ == old(self).stack@,
            final(self).marks@ == old(self).marks@,
            final(self).tmps@ == old(self).tmps@,
    {
        self.mortals.push(id);
    }

    /// Open a scope block: the current height of the deferred-free list is
    /// saved, to be restored by [`Interp::free_tmps`].
    pub fn save_tmps(&mut self) -> (mark: usize)
        requires
            old(self).tmps@.len() < usize::MAX,
        ensures
            mark == old(self).mortals@.len(),
            final(self).tmps@ == old(self).tmps@.push(mark),
            final(self).cells@ == old(self).cells@,
            Self::same_env(*old(self), *final(self)),
            Self::same_freed(*old(self), *final(self)),
            final(self).stack@ == old(self).stack@,
            final(self).marks@ == old(self).marks@,
            final(self).mortals@ == old(self).mortals@,
    {
        let mark = self.mortals.len();
        self.tmps.push(mark);
        mark
    }

    /// How many entries of the deferred-free list name the cell.
    pub open spec fn count_in(s: Seq<usize>, id: int) -> nat
        decreases s.len(),
    {
        if s.len() == 0 {
            0
        } else {
            (if s[0] == id {
                1nat
            } else {
                0nat
            }) + Self::count_in(s.drop_first(), id)
        }
    }

    /// The deferred-free position where this call cuts the list: the saved
    /// height of the innermost scope block, or zero without one.
    pub open spec fn tmps_cut(pre: Interp) -> int {
        if pre.tmps@.len() == 0 {
            0int
        } else if pre.tmps@.last() <= pre.mortals@.len() {
            pre.tmps@.last() as int
        } else {
            pre.mortals@.len() as int
        }
    }

    /// The entries this call drops from the deferred-free list.
    pub open spec fn tmps_dropped(pre: Interp) -> Seq<usize> {
        pre.mortals@.subrange(Self::tmps_cut(pre), pre.mortals@.len() as int)
    }

    /// Close the innermost scope block: every deferred-free entry made since
    /// the matching [`Interp::save_tmps`] releases its unit, most recent
    /// first.  Without an open block the whole list is drained.
    ///
    /// The release ledger: a cell still live afterwards has lost at least
    /// one unit per dropped entry naming it, and a cell whose whole count
    /// was held by dropped entries is reclaimed.
    pub fn free_tmps(&mut self)
        ensures
            Self::reaped(*old(self), *final(self)),
            final(self).stack@ == old(self).stack@,
            final(self).marks@ == old(self).marks@,
            final(self).tmps@ == if old(self).tmps@.len() == 0 {
                old(self).tmps@
            } else {
                old(self).tmps@.drop_last()
            },
            final(self).mortals@ == old(self).mortals@.subrange(0, Self::tmps_cut(*old(self))),
            forall|j: int|
                final(self).is_alive(j) && old(self).rc_of(j) >= 1 ==> final(self).rc_of(j)
                    + Self::count_in(Self::tmps_dropped(*old(self)), j) <= old(self).rc_of(j),
            forall|j: int|
                0 <= j < old(self).cells@.len() && old(self).valid_unit(j) && old(self).rc_of(
                    j,
                ) <= Self::count_in(Self::tmps_dropped(*old(self)), j) ==> !final(self).is_alive(j),
    {
        let ghost pre = *self;
        let mark = match self.tmps.pop() {
            Some(m) => m,
            None => 0,
        };
        proof {
            Self::lemma_reaped_refl(pre);
            assert(self.mortals@ =~= pre.mortals@.subrange(0, self.mortals@.len() as int));
        }
        while self.mortals.len() > mark
            invariant
                pre == *old(self),
                Self::reaped(pre, *self),
                self.stack@ == pre.stack@,
                self.marks@ == pre.marks@,
                self.tmps@ == if pre.tmps@.len() == 0 {
                    pre.tmps@
                } else {
                    pre.tmps@.drop_last()
                },
                mark as int == if pre.tmps@.len() == 0 {
                    0int
                } else {
                    pre.tmps@.last() as int
                },
                self.mortals@.len() <= pre.mortals@.len(),
                self.mortals@ == pre.mortals@.subrange(0, self.mortals@.len() as int),
                self.mortals@.len() >= mark || self.mortals@.len() == pre.mortals@.len(),
                forall|j: int|
                    self.is_alive(j) && pre.rc_of(j) >= 1 ==> self.rc_of(j) + Self::count_in(
                        pre.mortals@.subrange(
                            self.mortals@.len() as int,
                            pre.mortals@.len() as int,
                        ),
                        j,
                    ) <= pre.rc_of(j),
            decreases self.mortals@.len(),
        {
            let ghost st = *self;
            let id = self.mortals.pop().unwrap();
            proof {
                assert(self.mortals@ =~= pre.mortals@.subrange(0, self.mortals@.len() as int));
                Self::lemma_reaped_frame(pre, st, *self);
                let m = self.mortals@.len() as int;
                let n = pre.mortals@.len() as int;
                assert(pre.mortals@.subrange(m, n).drop_first() =~= pre.mortals@.subrange(
                    m + 1,
                    n,
                ));
                assert(pre.mortals@.subrange(m, n)[0] == pre.mortals@[m]);
                assert(id == pre.mortals@[m]);
            }
            let ghost m = self.mortals@.len() as int;
            let ghost n = pre.mortals@.len() as int;
            let ghost dropped_now = pre.mortals@.subrange(m, n);
            let ghost dropped_before = pre.mortals@.subrange(m + 1, n);
            proof {
                assert forall|j: int| true implies #[trigger] Self::count_in(dropped_now, j)
                    == (if id as int == j {
                    1nat
                } else {
                    0nat
                }) + Self::count_in(dropped_before, j) by {
                    assert(dropped_now.drop_first() =~= dropped_before);
                    assert(dropped_now[0] == id);
                }
            }
            if id < self.cells.len() {
                if self.cells[id].alive && self.cells[id].rc >= 1 {
                    let ghost st2 = *self;
                    self.release_unit(id);
                    proof {
                        Self::lemma_reaped_trans(pre, st2, *self);
                        assert forall|j: int|
                            self.is_alive(j) && pre.rc_of(j) >= 1 implies self.rc_of(j)
                                + Self::count_in(dropped_now, j) <= pre.rc_of(j) by {
                            assert(st2.is_alive(j));
                            assert(st.is_alive(j));
                            assert(st.rc_of(j) + Self::count_in(dropped_before, j)
                                <= pre.rc_of(j));
                            if j == id as int {
                                assert(st2.rc_of(j) > 1);
                                assert(self.rc_of(j) == st2.rc_of(j) - 1);
                            } else {
                                assert(self.rc_of(j) <= st2.rc_of(j));
                            }
                        }
                    }
                } else {
                    proof {
                        assert forall|j: int|
                            self.is_alive(j) && pre.rc_of(j) >= 1 implies self.rc_of(j)
                                + Self::count_in(dropped_now, j) <= pre.rc_of(j) by {
                            assert(st.is_alive(j));
                            assert(st.rc_of(j) + Self::count_in(dropped_before, j)
                                <= pre.rc_of(j));
                            if j == id as int {
                                // A live cell cannot sit at a zero count
                                // unless it started there, so this entry's
                                // cell is gone or anomalous, and the
                                // hypothesis rules the anomaly out.
                                assert(self.rc_of(j) == 0);
                                assert(pre.rc_of(j) == 0);
                            }
                        }
                    }
                }
            } else {
                proof {
                    assert forall|j: int|
                        self.is_alive(j) && pre.rc_of(j) >= 1 implies self.rc_of(j)
                            + Self::count_in(dropped_now, j) <= pre.rc_of(j) by {
                        assert(st.is_alive(j));
                        assert(st.rc_of(j) + Self::count_in(dropped_before, j)
                            <= pre.rc_of(j));
                        assert(j != id as int);
                    }
                }
            }
        }
        proof {
            let cut = Self::tmps_cut(pre);
            assert(self.mortals@ =~= pre.mortals@.subrange(0, cut));
            assert(Self::tmps_dropped(pre) == pre.mortals@.subrange(
                self.mortals@.len() as int,
                pre.mortals@.len() as int,
            ));
            assert forall|j: int|
                0 <= j < pre.cells@.len() && pre.valid_unit(j) && pre.rc_of(j)
                    <= Self::count_in(Self::tmps_dropped(pre), j) implies !self.is_alive(
                j,
            ) by {
                if self.is_alive(j) {
                    assert(self.rc_of(j) + Self::count_in(Self::tmps_dropped(pre), j)
                        <= pre.rc_of(j));
                    assert(self.rc_of(j) == 0 ==> pre.rc_of(j) == 0);
                }
            }
        }
    }

    /// Replace the raw-passthrough flag, returning the previous state; the
    /// pair of calls around a top-level conversion forms the scoped guard.
    pub fn swap_raw_flag(&mut self, on: bool) -> (prev: bool)
        ensures
            prev == old(self).raw_enabled,
            *final(self) == (Interp { raw_enabled: on, ..*old(self) }),
    {
        let prev = self.raw_enabled;
        self.raw_enabled = on;
        prev
    }

    /// Replace the list-return flag, returning the previous state.
    pub fn swap_list_flag(&mut self, on: bool) -> (prev: bool)
        ensures
            prev == old(self).list_enabled,
            *final(self) == (Interp { list_enabled: on, ..*old(self) }),
    {
        let prev = self.list_enabled;
        self.list_enabled = on;
        prev
    }

    /// Set the calling context (single value or list) for the next call.
    pub fn set_gimme(&mut self, list: bool)
        ensures
            *final(self) == (Interp { gimme: list, ..*old(self) }),
    {
        self.gimme = list;
    }

    /// Tell the host to use its safe environment-setting call.
    pub fn set_safe_putenv(&mut self, on: bool)
        ensures
            *final(self) == (Interp { safe_putenv: on, ..*old(self) }),
    {
        self.safe_putenv = on;
    }
}

/// One step of the ownership discipline on a single cell: acquiring a unit
/// (allocation aside, a clone or a borrowing adoption) or releasing one (a
/// handle drop).  Transfers — `into_raw` followed by a move adoption — do not
/// appear because they change no count.
pub enum OwnershipOp {
    Acquire,
    Release,
}

/// The change one step makes to a cell's reference count.
pub open spec fn own_delta(op: OwnershipOp) -> int {
    match op {
        OwnershipOp::Acquire => 1,
        OwnershipOp::Release => -1,
    }
}

/// The reference count after a sequence of ownership steps.
pub open spec fn rc_after(rc: int, ops: Seq<OwnershipOp>) -> int
    decreases ops.len(),
{
    if ops.len() == 0 {
        rc
    } else {
        rc_after(rc + own_delta(ops[0]), ops.drop_first())
    }
}

/// How many steps of a sequence acquire a unit.
pub open spec fn count_acquires(ops: Seq<OwnershipOp>) -> int
    decreases ops.len(),
{
    if ops.len() == 0 {
        0
    } else {
        (if ops[0] is Acquire {
            1int
        } else {
            0int
        }) + count_acquires(ops.drop_first())
    }
}

/// How many steps of a sequence release a unit.
pub open spec fn count_releases(ops: Seq<OwnershipOp>) -> int
    decreases ops.len(),
{
    if ops.len() == 0 {
        0
    } else {
        (if ops[0] is Release {
            1int
        } else {
            0int
        }) + count_releases(ops.drop_first())
    }
}

/// Any sequence of ownership steps moves a cell's count by exactly the
/// number of units acquired minus the number released.  This is the ledger
/// behind the reference-count discipline: [`Interp::inc_rc`] performs one
/// `Acquire`, [`Interp::release_unit`] one `Release`, and a raw extraction
/// followed by a move adoption performs neither.
pub proof fn lemma_ownership_balance(rc: int, ops: Seq<OwnershipOp>)
    ensures
        rc_after(rc, ops) == rc + count_acquires(ops) - count_releases(ops),
    decreases ops.len(),
{
    if ops.len() > 0 {
        lemma_ownership_balance(rc + own_delta(ops[0]), ops.drop_first());
    }
}

/// A balanced sequence of ownership steps — every unit created is destroyed
/// exactly once — leaves the reference count where it started: no unit leaks
/// and none is double-freed.
pub proof fn lemma_ownership_net_zero(rc: int, ops: Seq<OwnershipOp>)
    requires
        count_acquires(ops) == count_releases(ops),
    ensures
        rc_after(rc, ops) == rc,
{
    lemma_ownership_balance(rc, ops);
}

} // verus!
