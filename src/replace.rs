//! Substitution planning: the file operations that replace a parameter's
//! default value by the value chosen for it.
use crate::path::{name_contains, name_part, rename_path, renamed};
use crate::text::{occurs_in, same_text};
use vstd::prelude::*;

verus! {

/// The replacement of one parameter's default value, with the operations
/// that carry it out.
#[derive(Debug, Clone)]
pub struct Replace {
    /// The parameter's name, used to label progress.
    pub name: String,
    pub from: String,
    pub to: String,
    /// The operations, in the order in which they are applied.
    ///
    /// Replacements happen on file *content* as well as file *name*. When the
    /// latter happens, the file is renamed.
    pub ops: Vec<ReplaceOp>,
}

/// One file operation.
#[derive(Debug)]
pub enum ReplaceOp {
    /// Replace all occurrences of `from` with `to` in the file content
    ContentReplace(String, String, String),
    /// Rename the file to the given path
    FileRename(String, String),
}

impl Clone for ReplaceOp {
    fn clone(&self) -> (r: ReplaceOp)
        ensures
            r == *self,
    {
        match self {
            ReplaceOp::ContentReplace(p, f, t) => ReplaceOp::ContentReplace(
                p.clone(),
                f.clone(),
                t.clone(),
            ),
            ReplaceOp::FileRename(p, n) => ReplaceOp::FileRename(p.clone(), n.clone()),
        }
    }
}

/// What a `ReplaceOp` does, over the characters of its texts.
pub enum Mutation {
    ContentReplace(Seq<char>, Seq<char>, Seq<char>),
    FileRename(Seq<char>, Seq<char>),
}

impl View for ReplaceOp {
    type V = Mutation;

    open spec fn view(&self) -> Mutation {
        match self {
            ReplaceOp::ContentReplace(p, f, t) => Mutation::ContentReplace(p@, f@, t@),
            ReplaceOp::FileRename(p, n) => Mutation::FileRename(p@, n@),
        }
    }
}

/// The views of a sequence of operations.
pub open spec fn ops_view(ops: Seq<ReplaceOp>) -> Seq<Mutation> {
    ops.map_values(|o: ReplaceOp| o@)
}

/// The views of a sequence of paths.
pub open spec fn paths_view(files: Seq<String>) -> Seq<Seq<char>> {
    files.map_values(|f: String| f@)
}

/// The operations planned for one file: none when `to` is `from`; otherwise
/// a content replacement, followed by a rename when the file name holds
/// `from`.
pub open spec fn file_ops(file: Seq<char>, from: Seq<char>, to: Seq<char>) -> Seq<Mutation> {
    if to == from {
        seq![]
    } else if occurs_in(name_part(file), from) {
        seq![
            Mutation::ContentReplace(file, from, to),
            Mutation::FileRename(file, renamed(file, from, to)),
        ]
    } else {
        seq![Mutation::ContentReplace(file, from, to)]
    }
}

/// The operations planned for `files`, file after file in their order.
pub open spec fn plan(from: Seq<char>, to: Seq<char>, files: Seq<Seq<char>>) -> Seq<Mutation>
    decreases files.len(),
{
    if files.len() == 0 {
        seq![]
    } else {
        plan(from, to, files.drop_last()) + file_ops(files.last(), from, to)
    }
}

/// When the replacement value equals the default, the plan is empty,
/// whatever files are listed.
pub proof fn lemma_identity_plans_nothing(from: Seq<char>, to: Seq<char>, files: Seq<Seq<char>>)
    requires
        to == from,
    ensures
        plan(from, to, files) == Seq::<Mutation>::empty(),
    decreases files.len(),
{
    if files.len() > 0 {
        lemma_identity_plans_nothing(from, to, files.drop_last());
        assert(plan(from, to, files) =~= Seq::<Mutation>::empty());
    }
}

/// Every rename in a plan comes right after the content replacement of the
/// same file.
pub proof fn lemma_content_before_rename(from: Seq<char>, to: Seq<char>, files: Seq<Seq<char>>)
    ensures
        forall|k: int|
            0 <= k < plan(from, to, files).len() && #[trigger] plan(from, to, files)[k] is FileRename
                ==> k > 0 && plan(from, to, files)[k - 1] == Mutation::ContentReplace(
                plan(from, to, files)[k]->FileRename_0,
                from,
                to,
            ),
    decreases files.len(),
{
    if files.len() > 0 {
        let prev = plan(from, to, files.drop_last());
        let last = file_ops(files.last(), from, to);
        lemma_content_before_rename(from, to, files.drop_last());
        assert forall|k: int|
            0 <= k < plan(from, to, files).len() && #[trigger] plan(from, to, files)[k] is FileRename
                implies k > 0 && plan(from, to, files)[k - 1] == Mutation::ContentReplace(
                plan(from, to, files)[k]->FileRename_0,
                from,
                to,
            ) by {
            assert(plan(from, to, files) == prev + last);
            if k < prev.len() {
                assert(prev[k] is FileRename);
            }
        }
    }
}

impl ReplaceOp {
    /// The operations that replace `from` by `to` in `files`: in each file's
    /// content and, where the file name holds `from`, in the file name.
    pub fn ops_for_replacing(from: &str, to: &str, files: &[String]) -> (r: Vec<ReplaceOp>)
        requires
            from@.len() > 0,
        ensures
            ops_view(r@) == plan(from@, to@, paths_view(files@)),
    {
        let same = same_text(from, to);
        let mut r: Vec<ReplaceOp> = Vec::new();
        let mut i: usize = 0;
        while i < files.len()
            invariant
                from@.len() > 0,
                same == (from@ == to@),
                i <= files@.len(),
                ops_view(r@) == plan(from@, to@, paths_view(files@).subrange(0, i as int)),
            decreases files.len() - i,
        {
            let ghost before = r@;
            let file = &files[i];
            if !same {
                r.push(ReplaceOp::ContentReplace(file.clone(), String::from_str(from), String::from_str(to)));
                if name_contains(file.as_str(), from) {
                    let new_path = rename_path(file.as_str(), from, to);
                    r.push(ReplaceOp::FileRename(file.clone(), new_path));
                }
            }
            assert(paths_view(files@).subrange(0, i + 1).drop_last() =~= paths_view(files@).subrange(0, i as int));
            assert(ops_view(r@) =~= ops_view(before) + file_ops(file@, from@, to@));
            i = i + 1;
        }
        assert(paths_view(files@).subrange(0, i as int) =~= paths_view(files@));
        r
    }
}

} // verus!
