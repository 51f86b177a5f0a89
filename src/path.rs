//! Paths as text: a directory part and a file name part, separated by the
//! last `/`.
use crate::text::{contains, replace_all, replace_all_exec};
use vstd::prelude::*;

verus! {

/// Where the file name component of `p` starts: just after its last `/`, or
/// at the start when `p` holds no `/`.
pub open spec fn name_start(p: Seq<char>) -> int
    decreases p.len(),
{
    if p.len() == 0 {
        0
    } else if p.last() == '/' {
        p.len() as int
    } else {
        name_start(p.drop_last())
    }
}

/// The directory part of `p`, up to and including its last `/`.
pub open spec fn dir_part(p: Seq<char>) -> Seq<char> {
    p.subrange(0, name_start(p))
}

/// The file name component of `p`.
pub open spec fn name_part(p: Seq<char>) -> Seq<char> {
    p.subrange(name_start(p), p.len() as int)
}

/// `p` with every occurrence of `from` in its file name replaced by `to`;
/// the directory part is kept as it is.
pub open spec fn renamed(p: Seq<char>, from: Seq<char>, to: Seq<char>) -> Seq<char> {
    dir_part(p) + replace_all(name_part(p), from, to)
}

proof fn lemma_name_start_bounds(p: Seq<char>)
    ensures
        0 <= name_start(p) <= p.len(),
        forall|j: int| name_start(p) <= j < p.len() ==> p[j] != '/',
        name_start(p) > 0 ==> p[name_start(p) - 1] == '/',
    decreases p.len(),
{
    if p.len() > 0 && p.last() != '/' {
        let q = p.drop_last();
        lemma_name_start_bounds(q);
        assert forall|j: int| name_start(p) <= j < p.len() implies p[j] != '/' by {
            if j < q.len() {
                assert(p[j] == q[j]);
            }
        }
    }
}

/// Where the file name component of `p` starts.
pub fn file_name_start(p: &str) -> (r: usize)
    ensures
        r == name_start(p@),
{
    let n = p.unicode_len();
    let mut i: usize = n;
    assert(p@.subrange(0, n as int) =~= p@);
    while i > 0
        invariant
            i <= n,
            n == p@.len(),
            name_start(p@) == name_start(p@.subrange(0, i as int)),
        decreases i,
    {
        let ghost q = p@.subrange(0, i as int);
        assert(q.drop_last() =~= p@.subrange(0, i - 1));
        if p.get_char(i - 1) == '/' {
            return i;
        }
        i = i - 1;
    }
    0
}

/// The file name component of `p`.
pub fn file_name(p: &str) -> (r: &str)
    ensures
        r@ == name_part(p@),
{
    proof {
        lemma_name_start_bounds(p@);
    }
    let start = file_name_start(p);
    let n = p.unicode_len();
    p.substring_char(start, n)
}

/// Whether the file name component of `p` contains `from`.
pub fn name_contains(p: &str, from: &str) -> (r: bool)
    ensures
        r == crate::text::occurs_in(name_part(p@), from@),
{
    contains(file_name(p), from)
}

/// `p` with `from` replaced by `to` in its file name component.
pub fn rename_path(p: &str, from: &str, to: &str) -> (r: String)
    requires
        from@.len() > 0,
    ensures
        r@ == renamed(p@, from@, to@),
{
    proof {
        lemma_name_start_bounds(p@);
    }
    let start = file_name_start(p);
    let n = p.unicode_len();
    let dir = p.substring_char(0, start);
    let name = p.substring_char(start, n);
    let new_name = replace_all_exec(name, from, to);
    let mut r = String::from_str(dir);
    r.append(new_name.as_str());
    r
}

} // verus!
