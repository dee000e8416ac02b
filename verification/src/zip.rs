//! The zip iterator: items pulled in lockstep from several iterators,
//! in a lenient mode that stops at the first exhausted operand and a
//! strict mode that insists all operands exhaust together.
//!
//! The strict-mode diagnostics name the offending argument position
//! with exact singular/plural wording; compatibility tests compare the
//! text letter for letter.

use vstd::prelude::*;
use crate::bignum::dec_str;
use crate::runtime::{PyContext, PyErr, TYPE_ZIP};
use crate::iter::{PyIterObj, seq_iter_wf, itseq_abs};
use vstd::string::StringExecFns;

verus! {

/// The zip iterator: the operand iterators and the strictness flag.
/// The flag is mutable after construction only through the
/// state-restore hook, not through a public setter.
#[derive(Debug)]
pub struct PyZip {
    pub iterators: Vec<PyIterObj>,
    pub strict: bool,
}

/// Construction arguments beyond the operands: the optional strict
/// flag, absent meaning lenient.
#[derive(Debug)]
pub struct PyZipNewArgs {
    pub strict: Option<bool>,
}

impl PyZip {
    /// Build a zip over already-made operand iterators.
    pub fn py_new(iterators: Vec<PyIterObj>, args: PyZipNewArgs) -> (r: PyZip)
        ensures
            r.iterators == iterators,
            r.strict == (args.strict matches Some(true)),
    {
        let strict = match args.strict {
            Some(b) => b,
            None => false,
        };
        PyZip { iterators, strict }
    }

    /// The persisted shape: the operand iterators, and the strict flag
    /// only when it is set.
    pub fn reduce(&self, ctx: &PyContext) -> (r: (Vec<PyIterObj>, Option<bool>))
        requires
            ctx.wf(),
            seq_iter_wf(self.iterators@, *ctx),
        ensures
            itseq_abs(r.0@) == itseq_abs(self.iterators@),
            seq_iter_wf(r.0@, *ctx),
            r.1 == (if self.strict { Some(true) } else { None::<bool> }),
    {
        let copies = crate::iter::clone_iterators(&self.iterators, ctx);
        let flag = if self.strict { Some(true) } else { None };
        (copies, flag)
    }

    /// The state-restore hook: a boolean state resets the strict flag;
    /// any other state leaves it unchanged.
    pub fn setstate(&mut self, state: Option<bool>)
        ensures
            final(self).iterators == old(self).iterators,
            final(self).strict == (match state {
                Some(b) => b,
                None => old(self).strict,
            }),
    {
        if let Some(b) = state {
            self.strict = b;
        }
    }
}

/// The wording tail naming the earlier argument positions `1..=k`:
/// singular for exactly one, a range otherwise.
pub open spec fn arg_range_msg(k: int) -> Seq<char> {
    if k == 1 {
        " 1"@
    } else {
        "s 1-"@ + dec_str(k as nat)
    }
}

/// The full diagnostic for operand `i` (0-based) exhausting before an
/// earlier operand.
pub open spec fn zip_shorter_msg(i: int) -> Seq<char> {
    "zip() argument "@ + dec_str((i + 1) as nat) + " is shorter than argument"@
        + arg_range_msg(i)
}

/// The full diagnostic for operand `j` (0-based) still producing after
/// the first operand exhausted.
pub open spec fn zip_longer_msg(j: int) -> Seq<char> {
    "zip() argument "@ + dec_str((j + 1) as nat) + " is longer than argument"@
        + arg_range_msg(j)
}

/// Relies on std's formatting of `usize`: plain decimal digits.
#[verifier::external_body]
pub(crate) fn fmt_usize(n: usize) -> (r: String)
    ensures
        r@ == dec_str(n as nat),
{
    format!("{}", n)
}

/// Build the shorter-operand diagnostic for 0-based operand `i`.
pub(crate) fn shorter_message(i: usize) -> (r: String)
    requires
        1 <= i < usize::MAX,
    ensures
        r@ == zip_shorter_msg(i as int),
{
    let mut m: String = "zip() argument ".to_owned();
    let d = fmt_usize(i + 1);
    m.append(d.as_str());
    m.append(" is shorter than argument");
    if i == 1 {
        m.append(" 1");
    } else {
        m.append("s 1-");
        let d2 = fmt_usize(i);
        m.append(d2.as_str());
    }
    m
}

/// Build the longer-operand diagnostic for 0-based operand `j`.
pub(crate) fn longer_message(j: usize) -> (r: String)
    requires
        1 <= j < usize::MAX,
    ensures
        r@ == zip_longer_msg(j as int),
{
    let mut m: String = "zip() argument ".to_owned();
    let d = fmt_usize(j + 1);
    m.append(d.as_str());
    m.append(" is longer than argument");
    if j == 1 {
        m.append(" 1");
    } else {
        m.append("s 1-");
        let d2 = fmt_usize(j);
        m.append(d2.as_str());
    }
    m
}

/// Register the behavior of the zip type.
pub fn init(ctx: &mut PyContext)
    requires
        old(ctx).wf(),
    ensures
        final(ctx).wf(),
        final(ctx).types@.len() == old(ctx).types@.len(),
        final(ctx).lists@ == old(ctx).lists@,
        final(ctx).dicts@ == old(ctx).dicts@,
        final(ctx).types@[TYPE_ZIP as int].iterable,
{
    ctx.set_slots(TYPE_ZIP, None, None, true);
}

} // verus!
