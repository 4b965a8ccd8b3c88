//! Foreign attachments: binding a leaked native payload to a dynamic cell
//! under a callback-table identity, with deterministic, exactly-once
//! destruction.
//!
//! A [`MagicTag`] is a registered callback-table identity; exactly one tag
//! must serve one payload type and ownership shape.  A tag registered with a
//! free callback owns its payloads on the auto-free path: they are reclaimed
//! when the interpreter frees the holding cell, and
//! [`crate::ScalarRef::remove_magic`] therefore never hands them out.  A tag
//! without one leaves reclamation to an explicit removal, which succeeds
//! exactly once.

use vstd::prelude::*;

use crate::interp::{Attachment, Interp};
use crate::scalar::spec_att_index;

verus! {

/// A callback table: in this model only the free callback matters.
#[derive(Clone, Copy, Debug, PartialEq, Eq, Structural)]
pub struct MGVTBL {
    pub has_free: bool,
}

impl MGVTBL {
    /// The all-empty callback table: no free callback, so payloads under it
    /// are reclaimed only by explicit removal.
    pub fn zero() -> (r: MGVTBL)
        ensures
            !r.has_free,
    {
        MGVTBL { has_free: false }
    }

    /// The table with a free callback: payloads under it are reclaimed
    /// automatically when the holding cell is freed.
    pub fn with_free() -> (r: MGVTBL)
        ensures
            r.has_free,
    {
        MGVTBL { has_free: true }
    }
}

/// A registered attachment tag: the identity of one callback table.  One
/// tag must serve exactly one payload type and ownership shape; sharing a
/// tag across incompatible payloads corrupts reclamation.
#[derive(Clone, Copy, Debug, PartialEq, Eq, Structural)]
pub struct MagicTag {
    pub vtbl: usize,
}

impl MagicTag {
    /// The tag's identity is registered with this interpreter.
    pub open spec fn ok(self, interp: Interp) -> bool {
        self.vtbl < interp.vtbls@.len()
    }

    /// Whether the tag's table carries a free callback.
    pub open spec fn spec_has_free(self, interp: Interp) -> bool {
        interp.vtbls@[self.vtbl as int]
    }

    /// Register a fresh tag from a callback table.
    pub fn new(interp: &mut Interp, vtbl: MGVTBL) -> (r: MagicTag)
        requires
            old(interp).vtbls@.len() < usize::MAX,
        ensures
            final(interp).vtbls@ == old(interp).vtbls@.push(vtbl.has_free),
            r.vtbl == old(interp).vtbls@.len(),
            r.ok(*final(interp)),
            r.spec_has_free(*final(interp)) == vtbl.has_free,
            final(interp).cells@ == old(interp).cells@,
            Interp::same_stacks(*old(interp), *final(interp)),
            Interp::same_freed(*old(interp), *final(interp)),
            final(interp).packages@ == old(interp).packages@,
            final(interp).raw_enabled == old(interp).raw_enabled,
            final(interp).list_enabled == old(interp).list_enabled,
            final(interp).gimme == old(interp).gimme,
            final(interp).safe_putenv == old(interp).safe_putenv,
    {
        MagicTag { vtbl: interp.register_tag(vtbl.has_free) }
    }
}

/// A tag paired with what a lookup needs; the payload itself travels in a
/// [`MagicValue`].
#[derive(Clone, Copy, Debug, PartialEq, Eq, Structural)]
pub struct MagicSpec {
    pub vtbl: usize,
}

impl MagicSpec {
    /// Build a specification from a tag.
    pub fn new_static(tag: &MagicTag) -> (r: MagicSpec)
        ensures
            r.vtbl == tag.vtbl,
    {
        MagicSpec { vtbl: tag.vtbl }
    }

    /// The minimum needed for a removal: the same identity.
    pub fn to_spec(&self) -> (r: MagicSpec)
        ensures
            r == *self,
    {
        MagicSpec { vtbl: self.vtbl }
    }

    /// Pair this specification with a leaked payload token.
    pub fn with_value(&self, payload: u64) -> (r: MagicValue)
        ensures
            r.tag_spec == *self,
            r.payload == payload,
    {
        MagicValue { tag_spec: *self, payload }
    }
}

/// A specification together with the payload to attach.
#[derive(Clone, Copy, Debug, PartialEq, Eq, Structural)]
pub struct MagicValue {
    pub tag_spec: MagicSpec,
    pub payload: u64,
}

impl MagicValue {
    /// The specification part, as [`crate::ScalarRef::add_magic`] reads it.
    pub open spec fn spec_part(self) -> MagicSpec {
        self.tag_spec
    }
}

/// Removing the only attachment under a tag leaves none: a second removal
/// under the same tag finds nothing and must report the lookup failure.
/// Together with the removal contract this is the manual half of the
/// attachment duality; the automatic half — a tag with a free callback
/// never hands the payload out — is stated by
/// [`crate::ScalarRef::remove_magic`] itself.
pub proof fn lemma_remove_magic_exactly_once(m: Seq<Attachment>, v: usize)
    requires
        spec_att_index(m, v) < m.len(),
        forall|j: int|
            0 <= j < m.len() && j != spec_att_index(m, v) ==> m[j].vtbl != v,
    ensures
        ({
            let m2 = m.remove(spec_att_index(m, v));
            spec_att_index(m2, v) == m2.len()
        }),
{
    crate::scalar::lemma_att_index_le_len(m, v);
    let i = spec_att_index(m, v);
    let m2 = m.remove(i);
    assert forall|j: int| 0 <= j < m2.len() implies m2[j].vtbl != v by {
        if j < i {
            assert(m2[j] == m[j]);
        } else {
            assert(m2[j] == m[j + 1]);
        }
    }
    lemma_att_index_all_miss(m2, v);
}

/// When no attachment uses the tag, the first-index scan runs off the end.
pub proof fn lemma_att_index_all_miss(m: Seq<Attachment>, v: usize)
    requires
        forall|j: int| 0 <= j < m.len() ==> m[j].vtbl != v,
    ensures
        spec_att_index(m, v) == m.len(),
    decreases m.len(),
{
    if m.len() > 0 {
        lemma_att_index_all_miss(m.drop_first(), v);
    }
}

} // verus!
