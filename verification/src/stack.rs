//! The call-boundary stack adapter: the mark-delimited argument window of a
//! native entry point, one-shot iteration over it, value publication back to
//! the stack, and the argument-extraction convention with its arity errors.

use vstd::prelude::*;

use crate::error::Error;
use crate::interp::{Cell, Interp, SV};
use crate::scalar::{Mortal, Scalar};
use crate::value::Value;

verus! {

/// Decimal digits of a number, as text.
pub open spec fn spec_dec_chars(n: nat) -> Seq<char>
    decreases n,
{
    if n < 10 {
        spec_digit_char(n)
    } else {
        spec_dec_chars(n / 10) + spec_digit_char(n % 10)
    }
}

/// One decimal digit, as text.
pub open spec fn spec_digit_char(d: nat) -> Seq<char> {
    if d == 0 {
        "0"@
    } else if d == 1 {
        "1"@
    } else if d == 2 {
        "2"@
    } else if d == 3 {
        "3"@
    } else if d == 4 {
        "4"@
    } else if d == 5 {
        "5"@
    } else if d == 6 {
        "6"@
    } else if d == 7 {
        "7"@
    } else if d == 8 {
        "8"@
    } else {
        "9"@
    }
}

/// Render one decimal digit.
fn digit_str(d: u64) -> (r: &'static str)
    requires
        d < 10,
    ensures
        r@ == spec_digit_char(d as nat),
{
    if d == 0 {
        "0"
    } else if d == 1 {
        "1"
    } else if d == 2 {
        "2"
    } else if d == 3 {
        "3"
    } else if d == 4 {
        "4"
    } else if d == 5 {
        "5"
    } else if d == 6 {
        "6"
    } else if d == 7 {
        "7"
    } else if d == 8 {
        "8"
    } else {
        "9"
    }
}

/// Render a number in decimal.
pub fn dec_string(n: u64) -> (r: String)
    ensures
        r@ == spec_dec_chars(n as nat),
    decreases n,
{
    if n < 10 {
        String::from_str(digit_str(n))
    } else {
        let mut s = dec_string(n / 10);
        s.append(digit_str(n % 10));
        s
    }
}

/// A saved argument-window boundary: the stack position where this call's
/// arguments begin.
#[derive(Clone, Copy, Debug, PartialEq, Eq, Structural)]
pub struct StackMark {
    pub pos: usize,
}

impl StackMark {
    /// How many values lie in the window.
    pub fn count(&self, interp: &Interp) -> (r: usize)
        requires
            self.pos <= interp.stack@.len(),
        ensures
            r == interp.stack@.len() - self.pos,
    {
        interp.stack.len() - self.pos
    }

    /// A one-shot iterator over exactly the window's values, left to right.
    pub fn iter(&self, interp: &Interp) -> (r: StackIter)
        requires
            self.pos <= interp.stack@.len(),
        ensures
            r.at == self.pos,
            r.end == interp.stack@.len(),
    {
        StackIter { at: self.pos, end: interp.stack.len() }
    }

    /// Shrink the value stack back to the mark.  Legal under the host
    /// convention only when every value above the mark is already on the
    /// deferred-free list; otherwise their units leak.
    pub fn set_stack(self, interp: &mut Interp)
        ensures
            old(interp).cells@ == final(interp).cells@,
            Interp::same_env(*old(interp), *final(interp)),
            Interp::same_freed(*old(interp), *final(interp)),
            final(interp).mortals@ == old(interp).mortals@,
            final(interp).marks@ == old(interp).marks@,
            final(interp).tmps@ == old(interp).tmps@,
            self.pos <= old(interp).stack@.len() ==> final(interp).stack@ == old(interp).stack@.subrange(0, self.pos as int),
            self.pos > old(interp).stack@.len() ==> final(interp).stack@ == old(interp).stack@,
    {
        interp.stack.truncate(self.pos);
    }
}

/// Iterator over an argument window; the values are borrowed from the
/// stack and acquired as fresh owned handles one by one.
pub struct StackIter {
    pub at: usize,
    pub end: usize,
}

impl StackIter {
    /// The next argument as a fresh owned handle (one more unit on its
    /// cell), or nothing past the window.
    pub fn next(&mut self, interp: &mut Interp) -> (r: Option<Scalar>)
        ensures
            final(self).end == old(self).end,
            ({
                let at = old(self).at;
                if at < old(self).end && at < old(interp).stack@.len() && old(interp).valid_unit(old(interp).stack@[at as int] as int) && old(interp).rc_of(
                    old(interp).stack@[at as int] as int,
                ) < u64::MAX {
                    let e = old(interp).stack@[at as int] as int;
                    &&& final(self).at == at + 1
                    &&& (r matches Some(s) && s.sv.id as int == e && s.ok(*final(interp)))
                    &&& Interp::only_cell_updated(*old(interp), *final(interp), e)
                    &&& final(interp).rc_of(e) == old(interp).rc_of(e) + 1
                } else {
                    r is None && *final(interp) == *old(interp)
                }
            }),
    {
        let at = self.at;
        if at < self.end && at < interp.stack.len() {
            let e = interp.stack[at];
            if e < interp.cells.len() && interp.cells[e].alive && interp.cells[e].rc >= 1
                && interp.cells[e].rc < u64::MAX {
                self.at = at + 1;
                Some(Scalar::from_raw_ref(interp, SV { id: e }))
            } else {
                None
            }
        } else {
            None
        }
    }
}

/// The caller-side half of the convention: save the current stack height as
/// the next call's argument mark.
pub fn push_arg_mark(interp: &mut Interp)
    requires
        old(interp).marks@.len() < usize::MAX,
    ensures
        final(interp).marks@ == old(interp).marks@.push(old(interp).stack@.len() as usize),
        final(interp).cells@ == old(interp).cells@,
        Interp::same_env(*old(interp), *final(interp)),
        Interp::same_freed(*old(interp), *final(interp)),
        final(interp).stack@ == old(interp).stack@,
        final(interp).mortals@ == old(interp).mortals@,
        final(interp).tmps@ == old(interp).tmps@,
{
    let pos = interp.stack.len();
    interp.marks.push(pos);
}

/// Pop the current argument mark.  Valid only inside a native entry point
/// invoked under the host convention, where the caller pushed the matching
/// mark.
pub fn pop_arg_mark(interp: &mut Interp) -> (r: StackMark)
    requires
        old(interp).marks@.len() > 0,
    ensures
        r.pos == old(interp).marks@.last(),
        final(interp).marks@ == old(interp).marks@.drop_last(),
        final(interp).cells@ == old(interp).cells@,
        Interp::same_env(*old(interp), *final(interp)),
        Interp::same_freed(*old(interp), *final(interp)),
        final(interp).stack@ == old(interp).stack@,
        final(interp).mortals@ == old(interp).mortals@,
        final(interp).tmps@ == old(interp).tmps@,
{
    let pos = interp.marks.pop().unwrap();
    StackMark { pos }
}

/// Push a raw identity onto the value stack; the stack borrows it, so under
/// the host convention it should already be on the deferred-free list.
pub fn stack_push_raw(interp: &mut Interp, sv: SV)
    requires
        old(interp).stack@.len() < usize::MAX,
    ensures
        final(interp).stack@ == old(interp).stack@.push(sv.id),
        final(interp).cells@ == old(interp).cells@,
        Interp::same_env(*old(interp), *final(interp)),
        Interp::same_freed(*old(interp), *final(interp)),
        final(interp).marks@ == old(interp).marks@,
        final(interp).mortals@ == old(interp).mortals@,
        final(interp).tmps@ == old(interp).tmps@,
{
    interp.stack.push(sv.id);
}

/// Push a deferred-free value onto the value stack: the usual way to
/// publish a return value.
pub fn stack_push(interp: &mut Interp, value: Mortal)
    requires
        old(interp).stack@.len() < usize::MAX,
    ensures
        final(interp).stack@ == old(interp).stack@.push(value.sv.id),
        final(interp).cells@ == old(interp).cells@,
        Interp::same_env(*old(interp), *final(interp)),
        Interp::same_freed(*old(interp), *final(interp)),
        final(interp).marks@ == old(interp).marks@,
        final(interp).mortals@ == old(interp).mortals@,
        final(interp).tmps@ == old(interp).tmps@,
{
    stack_push_raw(interp, value.into_raw());
}

/// Tell the host to use its safe environment-setting call instead of
/// touching the environment block directly.
pub fn use_safe_putenv(interp: &mut Interp, on: bool)
    ensures
        *final(interp) == (Interp { safe_putenv: on, ..*old(interp) }),
{
    interp.set_safe_putenv(on);
}

/// The calling-signature text for an entry point with `arg_count`
/// parameters of which the trailing `trailing_options` are optional: one
/// marker per required parameter, then a separator and one marker per
/// optional parameter.
pub open spec fn spec_prototype(arg_count: nat, trailing_options: nat) -> Seq<char> {
    if trailing_options == 0 {
        spec_dollars(arg_count)
    } else {
        spec_dollars((arg_count - trailing_options) as nat) + ";"@ + spec_dollars(
            trailing_options,
        )
    }
}

/// A run of value markers.
pub open spec fn spec_dollars(n: nat) -> Seq<char>
    decreases n,
{
    if n == 0 {
        Seq::empty()
    } else {
        spec_dollars((n - 1) as nat) + "$"@
    }
}

/// Build the calling-signature text for an entry point.
pub fn gen_prototype(arg_count: usize, trailing_options: usize) -> (r: String)
    requires
        trailing_options <= arg_count,
    ensures
        r@ == spec_prototype(arg_count as nat, trailing_options as nat),
{
    let mut proto = String::new();
    let fixed = arg_count - trailing_options;
    let mut i: usize = 0;
    proof {
        assert(proto@ =~= spec_dollars(0));
    }
    while i < fixed
        invariant
            i <= fixed,
            proto@ == spec_dollars(i as nat),
        decreases fixed - i,
    {
        proto.append("$");
        i = i + 1;
    }
    if trailing_options > 0 {
        proto.append(";");
        let mut j: usize = 0;
        while j < trailing_options
            invariant
                j <= trailing_options,
                proto@ == spec_dollars(fixed as nat) + ";"@ + spec_dollars(j as nat),
            decreases trailing_options - j,
        {
            proto.append("$");
            j = j + 1;
        }
    }
    proto
}

/// The message when an entry point gets more arguments than it takes.
pub open spec fn spec_too_many_msg(expected: nat) -> Seq<char> {
    "too many parameters for function (expected "@ + spec_dec_chars(expected) + ")"@
}

/// The message when a required parameter is absent, naming it.
pub open spec fn spec_missing_msg(name: Seq<char>) -> Seq<char> {
    "missing required parameter: '"@ + name + "'"@
}

/// Extract an entry point's arguments from its window under the host
/// convention: each parameter takes the next value; an absent trailing
/// optional parameter takes a fresh undefined value; an absent required
/// parameter is an error naming it; surplus values are an error stating how
/// many parameters were expected.
pub fn extract_args(
    interp: &mut Interp,
    mark: &StackMark,
    names: &Vec<String>,
    required: usize,
) -> (r: Result<Vec<Value>, Error>)
    requires
        required <= names@.len(),
        mark.pos <= old(interp).stack@.len(),
        forall|i: int|
            mark.pos <= i < old(interp).stack@.len() ==> old(interp).valid_unit(
                old(interp).stack@[i] as int,
            ) && old(interp).rc_of(old(interp).stack@[i] as int) + names@.len()
                <= u64::MAX,
        old(interp).cells@.len() + names@.len() < usize::MAX,
    ensures
        ({
            let count = old(interp).stack@.len() - mark.pos;
            if count > names@.len() {
                r matches Err(e) && e.0@ == spec_too_many_msg(names@.len()) && *final(interp) == *old(interp)
            } else if count < required {
                r matches Err(e) && e.0@ == spec_missing_msg(names@[count as int]@)
            } else {
                r matches Ok(args) && args@.len() == names@.len() && (forall|i: int|
                    0 <= i < count ==> args@[i].sv_id() == old(interp).stack@[mark.pos + i] as int)
                    && (forall|i: int|
                    count <= i < names@.len() ==> final(interp).repr_of(args@[i].sv_id())
                        is Undef) && (forall|i: int|
                    0 <= i < names@.len() ==> #[trigger] args@[i].ok(*final(interp)))
            }
        }),
        Interp::same_env(*old(interp), *final(interp)),
        Interp::same_freed(*old(interp), *final(interp)),
        final(interp).stack@ == old(interp).stack@,
        final(interp).marks@ == old(interp).marks@,
        final(interp).mortals@ == old(interp).mortals@,
        final(interp).tmps@ == old(interp).tmps@,
        forall|j: int|
            0 <= j < old(interp).cells@.len() ==> final(interp).cells@[j] == (Cell {
                rc: final(interp).cells@[j].rc,
                ..old(interp).cells@[j]
            }) && old(interp).cells@[j].rc <= final(interp).cells@[j].rc,
        old(interp).cells@.len() <= final(interp).cells@.len(),
{
    let count = interp.stack.len() - mark.pos;
    if count > names.len() {
        let mut msg = String::from_str("too many parameters for function (expected ");
        msg.append(dec_string(names.len() as u64).as_str());
        msg.append(")");
        return Err(Error::new_owned(msg));
    }
    if count < required {
        let mut msg = String::from_str("missing required parameter: '");
        msg.append(names[count].as_str());
        msg.append("'");
        return Err(Error::new_owned(msg));
    }
    let mut args: Vec<Value> = Vec::new();
    let mut i: usize = 0;
    while i < names.len()
        invariant
            i <= names@.len(),
            mark.pos <= old(interp).stack@.len(),
            old(interp).stack@.len() <= usize::MAX,
            count == old(interp).stack@.len() - mark.pos,
            required <= count <= names@.len(),
            mark.pos + count == old(interp).stack@.len(),
            old(interp).cells@.len() + names@.len() < usize::MAX,
            forall|k: int|
                mark.pos <= k < old(interp).stack@.len() ==> old(interp).valid_unit(
                    old(interp).stack@[k] as int,
                ) && old(interp).rc_of(old(interp).stack@[k] as int) + names@.len()
                    <= u64::MAX,
            args@.len() == i,
            Interp::same_env(*old(interp), *interp),
            Interp::same_freed(*old(interp), *interp),
            interp.stack@ == old(interp).stack@,
            interp.marks@ == old(interp).marks@,
            interp.mortals@ == old(interp).mortals@,
            interp.tmps@ == old(interp).tmps@,
            old(interp).cells@.len() <= interp.cells@.len(),
            interp.cells@.len() <= old(interp).cells@.len() + i,
            forall|j: int|
                0 <= j < old(interp).cells@.len() ==> interp.cells@[j] == (Cell {
                    rc: interp.cells@[j].rc,
                    ..old(interp).cells@[j]
                }) && old(interp).cells@[j].rc <= interp.cells@[j].rc && interp.cells@[j].rc
                    <= old(interp).cells@[j].rc + i,
            forall|k: int|
                0 <= k < i && k < count ==> args@[k].sv_id() == old(interp).stack@[mark.pos
                    + k] as int,
            forall|k: int|
                count <= k < i ==> interp.repr_of(args@[k].sv_id()) is Undef,
            forall|k: int| 0 <= k < i ==> #[trigger] args@[k].ok(*interp),
        decreases names@.len() - i,
    {
        let ghost pre_iter = *interp;
        if i < count {
            let e = interp.stack[mark.pos + i];
            let s = Scalar::from_raw_ref(interp, SV { id: e });
            let v = Value::from_scalar(interp, s);
            args.push(v);
            proof {
                assert forall|k: int| 0 <= k < i + 1 implies #[trigger] args@[k].ok(*interp) by {
                    if k < i {
                        assert(args@[k].ok(pre_iter));
                        assert(interp.cells@[args@[k].sv_id()].repr
                            == pre_iter.cells@[args@[k].sv_id()].repr);
                        assert(interp.cells@[args@[k].sv_id()].alive);
                        assert(interp.cells@[args@[k].sv_id()].rc >= 1);
                    }
                }
            }
        } else {
            let v = Value::new_undef(interp);
            args.push(v);
            proof {
                assert forall|k: int| 0 <= k < i + 1 implies #[trigger] args@[k].ok(*interp) by {
                    if k < i {
                        assert(args@[k].ok(pre_iter));
                        assert(args@[k].sv_id() < pre_iter.cells@.len());
                        assert(interp.cells@[args@[k].sv_id()] == pre_iter.cells@[args@[k].sv_id()]);
                    }
                }
                assert forall|k: int|
                    count <= k < i + 1 implies interp.repr_of(args@[k].sv_id()) is Undef by {
                    if k < i {
                        assert(args@[k].ok(pre_iter));
                        assert(args@[k].sv_id() < pre_iter.cells@.len());
                        assert(pre_iter.repr_of(args@[k].sv_id()) is Undef);
                        assert(interp.cells@[args@[k].sv_id()] == pre_iter.cells@[args@[k].sv_id()]);
                    }
                }
            }
        }
        i = i + 1;
    }
    Ok(args)
}

} // verus!
