//! Flake templates and their template plans: one replacement per parameter,
//! in ascending order of the parameters' keys.
use crate::param::{Param, ParamView};
use crate::replace::{ops_view, plan, Mutation, Replace, ReplaceOp};
use crate::text::{lemma_text_lt_asymmetric, lemma_text_lt_transitive, text_less, text_lt};
use vstd::prelude::*;

verus! {

/// Keys in strictly ascending order.
pub open spec fn ascending(keys: Seq<Seq<char>>) -> bool {
    forall|i: int, j: int| 0 <= i < j < keys.len() ==> text_lt(#[trigger] keys[i], #[trigger] keys[j])
}

/// The keys of a sequence of entries.
pub open spec fn keys_of<T>(entries: Seq<(String, T)>) -> Seq<Seq<char>> {
    entries.map_values(|e: (String, T)| e.0@)
}

/// Operations labelled with the name of the parameter they serve.
pub open spec fn labelled(name: Seq<char>, ops: Seq<Mutation>) -> Seq<(Seq<char>, Mutation)> {
    ops.map_values(|m: Mutation| (name, m))
}

/// The labelled operations of each replacement of a template plan.
pub open spec fn blocks_of(plan: Seq<(String, Replace)>) -> Seq<Seq<(Seq<char>, Mutation)>> {
    plan.map_values(|e: (String, Replace)| labelled(e.1.name@, ops_view(e.1.ops@)))
}

/// The blocks one after the other.
pub open spec fn concat_all(blocks: Seq<Seq<(Seq<char>, Mutation)>>) -> Seq<(Seq<char>, Mutation)>
    decreases blocks.len(),
{
    if blocks.len() == 0 {
        seq![]
    } else {
        concat_all(blocks.drop_last()) + blocks.last()
    }
}

/// The views of labelled operations.
pub open spec fn labelled_view(ops: Seq<(String, ReplaceOp)>) -> Seq<(Seq<char>, Mutation)> {
    ops.map_values(|e: (String, ReplaceOp)| (e.0@, e.1@))
}

/// Concatenation distributes over the joining of block sequences.
pub proof fn lemma_concat_all_append(a: Seq<Seq<(Seq<char>, Mutation)>>, b: Seq<Seq<(Seq<char>, Mutation)>>)
    ensures
        concat_all(a + b) == concat_all(a) + concat_all(b),
    decreases b.len(),
{
    if b.len() == 0 {
        assert(a + b =~= a);
        assert(concat_all(a) + concat_all(b) =~= concat_all(a));
    } else {
        assert((a + b).drop_last() =~= a + b.drop_last());
        lemma_concat_all_append(a, b.drop_last());
        assert(concat_all(a + b) =~= concat_all(a) + concat_all(b));
    }
}

/// Of two parameters of a template plan, the one whose key sorts first has
/// all of its operations applied before any operation of the other: the
/// combined stream is what comes before the first, the first's operations,
/// what lies between, the second's operations, and the rest.
pub proof fn lemma_plan_order(plan: Seq<(String, Replace)>, i: int, j: int)
    requires
        ascending(keys_of(plan)),
        0 <= i < plan.len(),
        0 <= j < plan.len(),
        text_lt(plan[i].0@, plan[j].0@),
    ensures
        i < j,
        concat_all(blocks_of(plan)) == concat_all(blocks_of(plan).subrange(0, i)) + blocks_of(plan)[i]
            + concat_all(blocks_of(plan).subrange(i + 1, j)) + blocks_of(plan)[j] + concat_all(
            blocks_of(plan).subrange(j + 1, plan.len() as int),
        ),
{
    let keys = keys_of(plan);
    assert(keys[i] == plan[i].0@ && keys[j] == plan[j].0@);
    lemma_text_lt_asymmetric(plan[i].0@, plan[j].0@);
    if j < i {
        assert(text_lt(keys[j], keys[i]));
    }
    let b = blocks_of(plan);
    let n = plan.len() as int;
    assert(b =~= b.subrange(0, i) + (seq![b[i]] + (b.subrange(i + 1, j) + (seq![b[j]] + b.subrange(j + 1, n)))));
    lemma_concat_all_append(b.subrange(0, i), seq![b[i]] + (b.subrange(i + 1, j) + (seq![b[j]] + b.subrange(j + 1, n))));
    lemma_concat_all_append(seq![b[i]], b.subrange(i + 1, j) + (seq![b[j]] + b.subrange(j + 1, n)));
    lemma_concat_all_append(b.subrange(i + 1, j), seq![b[j]] + b.subrange(j + 1, n));
    lemma_concat_all_append(seq![b[j]], b.subrange(j + 1, n));
    assert(seq![b[i]].drop_last() =~= Seq::<Seq<(Seq<char>, Mutation)>>::empty());
    assert(seq![b[j]].drop_last() =~= Seq::<Seq<(Seq<char>, Mutation)>>::empty());
    assert(concat_all(Seq::<Seq<(Seq<char>, Mutation)>>::empty()) =~= Seq::<(Seq<char>, Mutation)>::empty());
    assert(seq![b[i]].last() == b[i]);
    assert(seq![b[j]].last() == b[j]);
    assert(concat_all(seq![b[i]]) =~= b[i]);
    assert(concat_all(seq![b[j]]) =~= b[j]);
    assert(concat_all(b) =~= concat_all(b.subrange(0, i)) + b[i] + concat_all(b.subrange(i + 1, j)) + b[j]
        + concat_all(b.subrange(j + 1, n)));
}

/// The operations of a template plan, replacement after replacement, each
/// labelled with its parameter's name.
pub fn plan_operations(plan: &Vec<(String, Replace)>) -> (r: Vec<(String, ReplaceOp)>)
    ensures
        labelled_view(r@) == concat_all(blocks_of(plan@)),
{
    let mut r: Vec<(String, ReplaceOp)> = Vec::new();
    let mut i: usize = 0;
    while i < plan.len()
        invariant
            i <= plan.len(),
            labelled_view(r@) == concat_all(blocks_of(plan@).subrange(0, i as int)),
        decreases plan.len() - i,
    {
        let replace = &plan[i].1;
        let ghost before = r@;
        let mut k: usize = 0;
        while k < replace.ops.len()
            invariant
                i < plan.len(),
                replace == &plan@[i as int].1,
                k <= replace.ops.len(),
                labelled_view(r@) == labelled_view(before) + labelled(replace.name@, ops_view(replace.ops@)).subrange(0, k as int),
            decreases replace.ops.len() - k,
        {
            let ghost prev = r@;
            let name = replace.name.clone();
            let op = replace.ops[k].clone();
            assert(op@ == replace.ops@[k as int]@);
            r.push((name, op));
            assert(labelled_view(r@) =~= labelled_view(prev).push((replace.name@, replace.ops@[k as int]@)));
            assert(labelled(replace.name@, ops_view(replace.ops@)).subrange(0, k + 1) =~= labelled(replace.name@, ops_view(replace.ops@)).subrange(0, k as int).push((replace.name@, replace.ops@[k as int]@)));
            assert(labelled_view(r@) =~= labelled_view(before) + labelled(replace.name@, ops_view(replace.ops@)).subrange(0, k + 1));
            k = k + 1;
        }
        assert(labelled(replace.name@, ops_view(replace.ops@)).subrange(0, k as int) =~= labelled(replace.name@, ops_view(replace.ops@)));
        assert(blocks_of(plan@).subrange(0, i + 1).drop_last() =~= blocks_of(plan@).subrange(0, i as int));
        i = i + 1;
    }
    assert(blocks_of(plan@).subrange(0, i as int) =~= blocks_of(plan@));
    r
}

/// A flake template: its description, the path of its files in the flake,
/// the text shown once it is created, and its parameters by key.
#[derive(Debug)]
pub struct FlakeTemplate {
    description: String,
    path: String,
    welcome_text: Option<String>,
    params: Vec<(String, Param)>,
}

impl FlakeTemplate {
    #[verifier::type_invariant]
    spec fn keys_ascending(self) -> bool {
        ascending(keys_of(self.params@))
    }

    /// The template's description.
    pub closed spec fn spec_description(&self) -> Seq<char> {
        self.description@
    }

    /// The path of the template's files in the flake.
    pub closed spec fn spec_path(&self) -> Seq<char> {
        self.path@
    }

    /// The text shown once the template is created.
    pub closed spec fn spec_welcome_text(&self) -> Option<Seq<char>> {
        match self.welcome_text {
            Some(w) => Some(w@),
            None => None,
        }
    }

    /// The parameters with their keys, in ascending order of the keys.
    pub closed spec fn spec_params(&self) -> Seq<(Seq<char>, ParamView)> {
        self.params@.map_values(|e: (String, Param)| (e.0@, e.1@))
    }

    /// A template whose parameters are `params`, each under its key;
    /// `None` unless the keys are in strictly ascending order, as a map
    /// from key to parameter lists them.
    pub fn new(
        description: String,
        path: String,
        welcome_text: Option<String>,
        params: Vec<(String, Param)>,
    ) -> (r: Option<FlakeTemplate>)
        ensures
            r is Some <==> ascending(keys_of(params@)),
            r matches Some(t) ==> {
                &&& t.spec_params() == params@.map_values(|e: (String, Param)| (e.0@, e.1@))
                &&& t.spec_description() == description@
                &&& t.spec_path() == path@
                &&& t.spec_welcome_text() == match welcome_text {
                    Some(w) => Some(w@),
                    None => None,
                }
            },
    {
        let mut i: usize = 1;
        while i < params.len()
            invariant
                1 <= i,
                i <= params.len() || params.len() == 0,
                ascending(keys_of(params@).subrange(0, i as int)) || params.len() == 0,
            decreases params.len() - i,
        {
            let ghost keys = keys_of(params@);
            if !text_less(params[i - 1].0.as_str(), params[i].0.as_str()) {
                assert(!text_lt(keys[i - 1], keys[i as int]));
                return None;
            }
            assert forall|a: int, b: int| 0 <= a < b < i + 1 implies text_lt(
                #[trigger] keys.subrange(0, i + 1)[a],
                #[trigger] keys.subrange(0, i + 1)[b],
            ) by {
                assert(keys.subrange(0, i + 1)[a] == keys[a]);
                assert(keys.subrange(0, i + 1)[b] == keys[b]);
                if b < i {
                    assert(keys.subrange(0, i as int)[a] == keys[a]);
                    assert(keys.subrange(0, i as int)[b] == keys[b]);
                } else if a < i - 1 {
                    assert(keys.subrange(0, i as int)[a] == keys[a]);
                    assert(keys.subrange(0, i as int)[i - 1] == keys[i - 1]);
                    lemma_text_lt_transitive(keys[a], keys[i - 1], keys[b]);
                }
            }
            i = i + 1;
        }
        assert(keys_of(params@).subrange(0, params@.len() as int) =~= keys_of(params@));
        Some(FlakeTemplate { description, path, welcome_text, params })
    }

    /// The template plan for the values given to the parameters, one value
    /// per parameter in the order of their keys: for each parameter, its key
    /// and the replacement of its default value by its value. `None` when
    /// there are not as many values as parameters.
    pub fn prompt_replacements(&self, values: &[String]) -> (r: Option<Vec<(String, Replace)>>)
        ensures
            r is None <==> values@.len() != self.spec_params().len(),
            r matches Some(p) ==> {
                &&& p@.len() == self.spec_params().len()
                &&& ascending(keys_of(p@))
                &&& forall|i: int|
                    0 <= i < p@.len() ==> {
                        let (key, param) = #[trigger] self.spec_params()[i];
                        &&& p@[i].0@ == key
                        &&& p@[i].1.name@ == param.name
                        &&& p@[i].1.from@ == param.default
                        &&& p@[i].1.to@ == values@[i]@
                        &&& ops_view(p@[i].1.ops@) == plan(param.default, values@[i]@, param.files)
                    }
            },
    {
        proof {
            use_type_invariant(self);
        }
        if values.len() != self.params.len() {
            return None;
        }
        let mut r: Vec<(String, Replace)> = Vec::new();
        let mut i: usize = 0;
        while i < self.params.len()
            invariant
                values@.len() == self.params@.len(),
                ascending(keys_of(self.params@)),
                i <= self.params.len(),
                r@.len() == i,
                forall|k: int|
                    0 <= k < i ==> {
                        let (key, param) = #[trigger] self.spec_params()[k];
                        &&& r@[k].0@ == key
                        &&& r@[k].1.name@ == param.name
                        &&& r@[k].1.from@ == param.default
                        &&& r@[k].1.to@ == values@[k]@
                        &&& ops_view(r@[k].1.ops@) == plan(param.default, values@[k]@, param.files)
                    },
            decreases self.params.len() - i,
        {
            let (key, param) = &self.params[i];
            let replace = param.replacement(values[i].as_str());
            r.push((key.clone(), replace));
            i = i + 1;
        }
        proof {
            assert forall|a: int, b: int| 0 <= a < b < r@.len() implies text_lt(
                #[trigger] keys_of(r@)[a],
                #[trigger] keys_of(r@)[b],
            ) by {
                assert(self.spec_params()[a].0 == keys_of(self.params@)[a]);
                assert(self.spec_params()[b].0 == keys_of(self.params@)[b]);
            }
        }
        Some(r)
    }

    /// The template's description.
    pub fn description(&self) -> (r: &String)
        ensures
            r@ == self.spec_description(),
    {
        &self.description
    }

    /// The path of the template's files in the flake.
    pub fn path(&self) -> (r: &String)
        ensures
            r@ == self.spec_path(),
    {
        &self.path
    }

    /// The text shown once the template is created.
    pub fn welcome_text(&self) -> (r: Option<&String>)
        ensures
            r is Some <==> self.spec_welcome_text() is Some,
            r matches Some(w) ==> self.spec_welcome_text() == Some(w@),
    {
        match &self.welcome_text {
            Some(w) => Some(w),
            None => None,
        }
    }

    /// The parameters with their keys, in ascending order of the keys.
    pub fn params(&self) -> (r: &Vec<(String, Param)>)
        ensures
            r@.map_values(|e: (String, Param)| (e.0@, e.1@)) == self.spec_params(),
            ascending(keys_of(r@)),
    {
        proof {
            use_type_invariant(self);
        }
        &self.params
    }
}

} // verus!
