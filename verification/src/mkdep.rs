//! The dependency file that tells `make` which inputs an output was linked
//! from.

use crate::paths::text_views;
use vstd::prelude::*;
use vstd::string::StringExecFns;

verus! {

/// What stands between the target and the first dependency.
pub const AFTER_TARGET: &'static str = ": ";

/// What stands before each dependency: a line continuation and an indent.
pub const BEFORE_DEP: &'static str = "\\\n  ";

/// What stands after each dependency.
pub const AFTER_DEP: &'static str = " ";

/// What closes the rule.
pub const AFTER_RULE: &'static str = "\n\n";

/// What makes a dependency a target without a recipe.
pub const AFTER_PHONY: &'static str = ":\n\n";

/// The first `n` dependencies as they stand in the rule.
pub open spec fn dep_list(deps: Seq<Seq<char>>, n: int) -> Seq<char>
    decreases n,
{
    if n <= 0 {
        Seq::empty()
    } else {
        dep_list(deps, n - 1) + BEFORE_DEP@ + deps[n - 1] + AFTER_DEP@
    }
}

/// The first `n` dependencies, each as a target of its own without a recipe.
pub open spec fn phony_list(deps: Seq<Seq<char>>, n: int) -> Seq<char>
    decreases n,
{
    if n <= 0 {
        Seq::empty()
    } else {
        phony_list(deps, n - 1) + deps[n - 1] + AFTER_PHONY@
    }
}

/// The text of the dependency file for the output `obj` and the inputs
/// `deps`: one rule that names every input, then every input as a target
/// of its own.
pub open spec fn make_dep(obj: Seq<char>, deps: Seq<Seq<char>>) -> Seq<char> {
    obj + AFTER_TARGET@ + dep_list(deps, deps.len() as int) + AFTER_RULE@ + phony_list(
        deps,
        deps.len() as int,
    )
}

/// Writes the text of the dependency file for the output `obj`, linked from
/// `deps`.
pub fn write_make_dep(obj: &str, deps: &Vec<String>) -> (r: String)
    ensures
        r@ == make_dep(obj@, text_views(deps@)),
{
    let ghost views = text_views(deps@);
    let mut rule = String::from_str(obj);
    rule.append(AFTER_TARGET);
    let mut buf = String::new();
    let mut i: usize = 0;
    assert(rule@ =~= obj@ + AFTER_TARGET@ + dep_list(views, 0));
    assert(buf@ =~= phony_list(views, 0));
    while i < deps.len()
        invariant
            i <= deps.len(),
            views == text_views(deps@),
            rule@ == obj@ + AFTER_TARGET@ + dep_list(views, i as int),
            buf@ == phony_list(views, i as int),
        decreases deps.len() - i,
    {
        let dep = deps[i].as_str();
        assert(views[i as int] == dep@);
        rule.append(BEFORE_DEP);
        rule.append(dep);
        rule.append(AFTER_DEP);
        buf.append(dep);
        buf.append(AFTER_PHONY);
        assert(rule@ =~= obj@ + AFTER_TARGET@ + dep_list(views, i + 1));
        assert(buf@ =~= phony_list(views, i + 1));
        i += 1;
    }
    rule.append(AFTER_RULE);
    rule.append(buf.as_str());
    assert(rule@ =~= make_dep(obj@, views));
    rule
}

} // verus!
