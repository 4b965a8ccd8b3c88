//! Return-value publication: one value, or a list of values written
//! contiguously onto the stack when the caller asked for a list.

use vstd::prelude::*;

use crate::interp::Interp;
use crate::value::Value;

verus! {

/// How an entry point's result reaches the caller: nothing, one value
/// serialized as usual, or data whose sequences become value lists when the
/// list-return flag is on.
pub enum Return<T, U> {
    /// Return nothing.
    Void,
    /// One value, sequences staying sequence references.
    Single(T),
    /// In list context, sequences and tuples become multiple return values.
    List(U),
}

impl<T, U> Return<T, U> {
    /// Pick the single- or list-shaped payload by the calling context, as
    /// the host's context query directs.
    pub fn by_context(interp: &Interp, single: T, list: U) -> (r: Return<T, U>)
        ensures
            interp.gimme_list() ==> r is List,
            !interp.gimme_list() ==> r is Single,
    {
        if interp.gimme_list_flag() {
            Return::List(list)
        } else {
            Return::Single(single)
        }
    }
}

/// A produced return: one dynamic value, or several to publish as a list.
pub enum ReturnValue {
    Single(Value),
    List(Vec<Value>),
}

impl ReturnValue {
    /// Publish to the caller: each value goes to the deferred-free list and
    /// its identity onto the stack, a single value as one entry and a list
    /// contiguously in order.
    pub fn __private_push_to_stack(self, interp: &mut Interp)
        requires
            old(interp).stack@.len() + 4 < usize::MAX,
            old(interp).mortals@.len() + 4 < usize::MAX,
            (self matches ReturnValue::List(vs) ==> old(interp).stack@.len() + vs@.len()
                < usize::MAX && old(interp).mortals@.len() + vs@.len() < usize::MAX),
        ensures
            final(interp).cells@ == old(interp).cells@,
            Interp::same_env(*old(interp), *final(interp)),
            Interp::same_freed(*old(interp), *final(interp)),
            final(interp).marks@ == old(interp).marks@,
            final(interp).tmps@ == old(interp).tmps@,
            self matches ReturnValue::Single(v) ==> final(interp).stack@ == old(interp).stack@.push(v.spec_sv().id) && final(interp).mortals@ == old(interp).mortals@.push(v.spec_sv().id),
            self matches ReturnValue::List(vs) ==> final(interp).stack@.len() == old(interp).stack@.len() + vs@.len() && final(interp).stack@.subrange(
                0,
                old(interp).stack@.len() as int,
            ) == old(interp).stack@ && (forall|k: int|
                0 <= k < vs@.len() ==> final(interp).stack@[old(interp).stack@.len() + k]
                    == vs@[k].spec_sv().id),
    {
        match self {
            ReturnValue::Single(v) => {
                let m = v.into_mortal(interp);
                crate::stack::stack_push(interp, m);
            },
            ReturnValue::List(vs) => {
                let ghost base = old(interp).stack@.len();
                let ghost views = vs@;
                let mut vs = vs;
                let n = vs.len();
                let mut i: usize = 0;
                while i < n
                    invariant
                        n == views.len(),
                        vs@ == views.skip(i as int),
                        i <= n,
                        interp.cells@ == old(interp).cells@,
                        Interp::same_env(*old(interp), *interp),
                        Interp::same_freed(*old(interp), *interp),
                        interp.marks@ == old(interp).marks@,
                        interp.tmps@ == old(interp).tmps@,
                        interp.stack@.len() == base + i,
                        interp.mortals@.len() == old(interp).mortals@.len() + i,
                        base + n < usize::MAX,
                        old(interp).mortals@.len() + n < usize::MAX,
                        interp.stack@.subrange(0, base as int) == old(interp).stack@,
                        forall|k: int|
                            0 <= k < i ==> interp.stack@[base + k] == views[k].spec_sv().id,
                    decreases n - i,
                {
                    proof {
                        assert(views.skip(i as int)[0] == views[i as int]);
                        assert(views.skip(i as int).drop_first() =~= views.skip(i + 1));
                    }
                    let v = vs.remove(0);
                    let m = v.into_mortal(interp);
                    crate::stack::stack_push(interp, m);
                    i = i + 1;
                    proof {
                        assert(interp.stack@.subrange(0, base as int) =~= old(interp).stack@);
                    }
                }
            },
        }
    }
}

} // verus!
