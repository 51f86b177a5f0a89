//! Choosing a template among those a registry offers.
use crate::replace::paths_view;
use vstd::prelude::*;

verus! {

/// The names whose flag is set, in their order.
pub open spec fn kept(names: Seq<Seq<char>>, flags: Seq<bool>) -> Seq<Seq<char>>
    decreases names.len(),
{
    if names.len() == 0 || flags.len() == 0 {
        seq![]
    } else {
        let rest = kept(names.drop_last(), flags.drop_last());
        if flags.last() {
            rest.push(names.last())
        } else {
            rest
        }
    }
}

/// How a template is chosen.
#[derive(Debug)]
pub enum Selection {
    /// No template is left to choose from.
    Nothing,
    /// Exactly one template is left: it is taken.
    Only(String),
    /// The user chooses among these.
    Ask(Vec<String>),
}

/// The names whose filter result is `true`, in their order; `None` when
/// there are not as many results as names.
pub fn filter_names(names: &[String], matched: &[bool]) -> (r: Option<Vec<String>>)
    ensures
        r is None <==> names@.len() != matched@.len(),
        r matches Some(v) ==> paths_view(v@) == kept(paths_view(names@), matched@),
{
    if names.len() != matched.len() {
        return None;
    }
    let mut r: Vec<String> = Vec::new();
    let mut i: usize = 0;
    while i < names.len()
        invariant
            names@.len() == matched@.len(),
            i <= names@.len(),
            paths_view(r@) == kept(
                paths_view(names@).subrange(0, i as int),
                matched@.subrange(0, i as int),
            ),
        decreases names.len() - i,
    {
        assert(paths_view(names@).subrange(0, i + 1).drop_last() =~= paths_view(names@).subrange(0, i as int));
        assert(matched@.subrange(0, i + 1).drop_last() =~= matched@.subrange(0, i as int));
        if matched[i] {
            r.push(names[i].clone());
            assert(paths_view(r@) =~= kept(
                paths_view(names@).subrange(0, i as int),
                matched@.subrange(0, i as int),
            ).push(names@[i as int]@));
        }
        i = i + 1;
    }
    assert(paths_view(names@).subrange(0, i as int) =~= paths_view(names@));
    assert(matched@.subrange(0, i as int) =~= matched@);
    Some(r)
}

/// The choice left by the candidates: the single one when there is one,
/// nothing when there is none, else the user's choice among all of them.
pub fn pick_template(candidates: Vec<String>) -> (r: Selection)
    ensures
        candidates@.len() == 0 ==> r is Nothing,
        candidates@.len() == 1 ==> (r matches Selection::Only(n) && n@ == candidates@[0]@),
        candidates@.len() > 1 ==> (r matches Selection::Ask(v) && v@ == candidates@),
{
    if candidates.len() == 0 {
        Selection::Nothing
    } else if candidates.len() == 1 {
        let mut c = candidates;
        match c.pop() {
            Some(n) => Selection::Only(n),
            None => Selection::Nothing,
        }
    } else {
        Selection::Ask(candidates)
    }
}

} // verus!
