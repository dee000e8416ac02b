//! Category resolution for the warning machinery: pick the category a
//! warning call means, and hold it to the Warning hierarchy. The
//! emission itself is the host's concern.

use vstd::prelude::*;
use vstd::string::StringExecFns;
use crate::runtime::{PyContext, ObjRef, PyErr, obj_wf, spec_type_of, type_of, is_subclass,
    spec_is_subclass, TYPE_WARNING, TYPE_USER_WARNING};

verus! {

/// The category a warn call resolves to: the message's own class when
/// the message already is a warning instance, else the category
/// argument, else the default user-warning class.
pub open spec fn spec_category_pick(ctx: PyContext, message: ObjRef, category: Option<usize>)
    -> int {
    let mt = spec_type_of(message);
    if spec_is_subclass(ctx, mt, TYPE_WARNING as int) {
        mt
    } else {
        match category {
            Some(c) => c as int,
            None => TYPE_USER_WARNING as int,
        }
    }
}

/// Resolve the category of a warn call and hold it to the hierarchy:
/// whatever was picked must inherit from the warning base type, or the
/// call is a type error naming the offender.
pub fn get_category(ctx: &PyContext, message: &ObjRef, category: Option<usize>)
    -> (r: Result<usize, PyErr>)
    requires
        ctx.wf(),
        obj_wf(*message, *ctx),
        category matches Some(c) ==> c < ctx.types@.len(),
    ensures
        match r {
            Ok(c) => c as int == spec_category_pick(*ctx, *message, category)
                && spec_is_subclass(*ctx, c as int, TYPE_WARNING as int),
            Err(e) => {
                let picked = spec_category_pick(*ctx, *message, category);
                &&& !spec_is_subclass(*ctx, picked, TYPE_WARNING as int)
                &&& (e matches PyErr::TypeError(m)
                    && m@ == "category must be a Warning subclass, not "@
                        + ctx.types@[picked].name@)
            },
        },
{
    let mt = type_of(ctx, message);
    let picked: usize = if is_subclass(ctx, mt, TYPE_WARNING) {
        mt
    } else {
        match category {
            Some(c) => c,
            None => TYPE_USER_WARNING,
        }
    };
    if !is_subclass(ctx, picked, TYPE_WARNING) {
        let mut m: String = "category must be a Warning subclass, not ".to_owned();
        m.append(ctx.types[picked].name.as_str());
        return Err(PyErr::TypeError(m));
    }
    Ok(picked)
}

} // verus!
