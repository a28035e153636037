//! The text of a Make dependency file: a target and the files it depends
//! on.
use vstd::prelude::*;
use crate::text::push_char;

verus! {

/// The dependency line of `target` on `deps`: the target, a colon, then
/// each dependency after a space.
pub open spec fn deps_line(target: Seq<char>, deps: Seq<Seq<char>>) -> Seq<char>
    decreases deps.len(),
{
    if deps.len() == 0 {
        target + seq![':']
    } else {
        deps_line(target, deps.drop_last()) + seq![' '] + deps.last()
    }
}

/// The texts of a list of strings.
pub open spec fn dep_views(v: Seq<String>) -> Seq<Seq<char>> {
    v.map_values(|x: String| x@)
}

/// The dependency line of `target` on `deps` (see [`deps_line`]).
pub fn deps_text(target: &str, deps: &Vec<String>) -> (r: String)
    ensures
        r@ == deps_line(target@, dep_views(deps@)),
{
    let mut out = crate::text::copy_str(target);
    push_char(&mut out, ':');
    let mut i: usize = 0;
    assert(dep_views(deps@).take(0) =~= Seq::<Seq<char>>::empty());
    while i < deps.len()
        invariant
            i <= deps@.len(),
            out@ == deps_line(target@, dep_views(deps@).take(i as int)),
        decreases deps.len() - i,
    {
        push_char(&mut out, ' ');
        out.append(deps[i].as_str());
        assert(dep_views(deps@).take(i + 1).drop_last() =~= dep_views(deps@).take(i as int));
        i = i + 1;
    }
    assert(dep_views(deps@).take(i as int) =~= dep_views(deps@));
    out
}

} // verus!
