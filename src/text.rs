//! Literal text matching and replacement over the characters of a string.
use vstd::prelude::*;

verus! {

/// `pat` occurs in `s` starting at position `i`.
pub open spec fn matches_at(s: Seq<char>, i: int, pat: Seq<char>) -> bool {
    0 <= i && i + pat.len() <= s.len() && s.subrange(i, i + pat.len()) == pat
}

/// `pat` occurs somewhere in `s`.
pub open spec fn occurs_in(s: Seq<char>, pat: Seq<char>) -> bool {
    exists|i: int| matches_at(s, i, pat)
}

/// `s` with every occurrence of `from` replaced by `to`, scanning from the left
/// and never letting two replaced occurrences overlap. An empty `from`
/// replaces nothing.
pub open spec fn replace_all(s: Seq<char>, from: Seq<char>, to: Seq<char>) -> Seq<char>
    decreases s.len(),
{
    if from.len() == 0 || s.len() < from.len() {
        s
    } else if s.subrange(0, from.len() as int) == from {
        to + replace_all(s.subrange(from.len() as int, s.len() as int), from, to)
    } else {
        seq![s[0]] + replace_all(s.drop_first(), from, to)
    }
}

/// How many occurrences of `from` `replace_all` replaces in `s`.
pub open spec fn count_matches(s: Seq<char>, from: Seq<char>) -> nat
    decreases s.len(),
{
    if from.len() == 0 || s.len() < from.len() {
        0
    } else if s.subrange(0, from.len() as int) == from {
        1 + count_matches(s.subrange(from.len() as int, s.len() as int), from)
    } else {
        count_matches(s.drop_first(), from)
    }
}

/// `a` sorts before `b`: character codes compared one by one, a proper
/// prefix first.
pub open spec fn text_lt(a: Seq<char>, b: Seq<char>) -> bool
    decreases a.len(),
{
    if a.len() == 0 {
        b.len() > 0
    } else if b.len() == 0 {
        false
    } else if a[0] != b[0] {
        a[0] < b[0]
    } else {
        text_lt(a.drop_first(), b.drop_first())
    }
}

/// The order of texts is transitive.
pub proof fn lemma_text_lt_transitive(a: Seq<char>, b: Seq<char>, c: Seq<char>)
    requires
        text_lt(a, b),
        text_lt(b, c),
    ensures
        text_lt(a, c),
    decreases a.len(),
{
    if a.len() > 0 && b.len() > 0 && c.len() > 0 && a[0] == b[0] && b[0] == c[0] {
        lemma_text_lt_transitive(a.drop_first(), b.drop_first(), c.drop_first());
    }
}

/// The order of texts is irreflexive and asymmetric.
pub proof fn lemma_text_lt_asymmetric(a: Seq<char>, b: Seq<char>)
    ensures
        text_lt(a, b) ==> !text_lt(b, a),
        !text_lt(a, a),
    decreases a.len(),
{
    if a.len() > 0 && b.len() > 0 && a[0] == b[0] {
        lemma_text_lt_asymmetric(a.drop_first(), b.drop_first());
    }
    if a.len() > 0 {
        lemma_text_lt_asymmetric(a.drop_first(), a.drop_first());
    }
}

/// No character of `to` occurs in `from`.
pub open spec fn chars_apart(to: Seq<char>, from: Seq<char>) -> bool {
    forall|i: int| 0 <= i < to.len() ==> !from.contains(#[trigger] to[i])
}

proof fn lemma_replace_all_len(s: Seq<char>, from: Seq<char>, to: Seq<char>)
    requires
        from.len() > 0,
    ensures
        replace_all(s, from, to).len() == s.len() + count_matches(s, from) * (to.len() - from.len()),
    decreases s.len(),
{
    if s.len() >= from.len() {
        if s.subrange(0, from.len() as int) == from {
            let rest = s.subrange(from.len() as int, s.len() as int);
            lemma_replace_all_len(rest, from, to);
            let c = count_matches(rest, from);
            let d = to.len() - from.len();
            assert((1 + c) * d == d + c * d) by (nonlinear_arith);
            assert(count_matches(s, from) == 1 + c);
            assert(replace_all(s, from, to).len() == to.len() + replace_all(rest, from, to).len());
        } else {
            let rest = s.drop_first();
            lemma_replace_all_len(rest, from, to);
            assert(count_matches(s, from) == count_matches(rest, from));
            assert(replace_all(s, from, to).len() == 1 + replace_all(rest, from, to).len());
        }
    } else {
        let d = to.len() - from.len();
        assert(count_matches(s, from) == 0);
        assert(0 * d == 0) by (nonlinear_arith);
    }
}

proof fn lemma_replace_all_absent(s: Seq<char>, from: Seq<char>, to: Seq<char>)
    requires
        from.len() > 0,
        !occurs_in(s, from),
    ensures
        replace_all(s, from, to) == s,
        count_matches(s, from) == 0,
    decreases s.len(),
{
    if s.len() >= from.len() {
        assert(!matches_at(s, 0, from));
        let rest = s.drop_first();
        assert forall|i: int| !matches_at(rest, i, from) by {
            if matches_at(rest, i, from) {
                assert(s.subrange(i + 1, i + 1 + from.len()) =~= rest.subrange(i, i + from.len()));
                assert(matches_at(s, i + 1, from));
            }
        }
        lemma_replace_all_absent(rest, from, to);
        assert(seq![s[0]] + rest =~= s);
    }
}

/// Where the first `m` characters of the result are all characters of
/// `from`, no replacement reached them: they are the first `m` of `x`.
proof fn lemma_replace_all_prefix_kept(x: Seq<char>, from: Seq<char>, to: Seq<char>, m: int)
    requires
        from.len() > 0,
        to.len() > 0,
        chars_apart(to, from),
        0 <= m <= replace_all(x, from, to).len(),
        forall|j: int| 0 <= j < m ==> from.contains(#[trigger] replace_all(x, from, to)[j]),
    ensures
        m <= x.len(),
        replace_all(x, from, to).subrange(0, m) == x.subrange(0, m),
    decreases x.len(),
{
    let r = replace_all(x, from, to);
    if m == 0 {
        assert(r.subrange(0, 0) =~= x.subrange(0, 0));
    } else if x.len() >= from.len() {
        if x.subrange(0, from.len() as int) == from {
            assert(from.contains(r[0]));
            assert(r[0] == to[0]);
        } else {
            let rest = x.drop_first();
            let rr = replace_all(rest, from, to);
            assert(r == seq![x[0]] + rr);
            assert forall|j: int| 0 <= j < m - 1 implies from.contains(#[trigger] rr[j]) by {
                assert(from.contains(r[j + 1]));
            }
            lemma_replace_all_prefix_kept(rest, from, to, m - 1);
            assert(r.subrange(0, m) =~= seq![x[0]] + rr.subrange(0, m - 1));
            assert(x.subrange(0, m) =~= seq![x[0]] + rest.subrange(0, m - 1));
        }
    }
}

proof fn lemma_replace_all_leaves_no_from(s: Seq<char>, from: Seq<char>, to: Seq<char>)
    requires
        from.len() > 0,
        to.len() > 0,
        chars_apart(to, from),
    ensures
        !occurs_in(replace_all(s, from, to), from),
    decreases s.len(),
{
    let r = replace_all(s, from, to);
    if s.len() < from.len() {
        assert forall|i: int| !matches_at(r, i, from) by {}
    } else if s.subrange(0, from.len() as int) == from {
        let rest = s.subrange(from.len() as int, s.len() as int);
        let rr = replace_all(rest, from, to);
        lemma_replace_all_leaves_no_from(rest, from, to);
        assert forall|i: int| !matches_at(r, i, from) by {
            if matches_at(r, i, from) {
                if i < to.len() {
                    assert(r[i] == to[i]);
                    assert(r.subrange(i, i + from.len())[0] == r[i]);
                    assert(from.contains(from[0]));
                } else {
                    assert(r.subrange(i, i + from.len()) =~= rr.subrange(i - to.len(), i - to.len() + from.len()));
                    assert(matches_at(rr, i - to.len(), from));
                }
            }
        }
    } else {
        let rest = s.drop_first();
        let rr = replace_all(rest, from, to);
        lemma_replace_all_leaves_no_from(rest, from, to);
        assert(r == seq![s[0]] + rr);
        assert forall|i: int| !matches_at(r, i, from) by {
            if matches_at(r, i, from) {
                if i == 0 {
                    let m = from.len() - 1;
                    assert forall|j: int| 0 <= j < m implies from.contains(#[trigger] rr[j]) by {
                        assert(r.subrange(0, from.len() as int)[j + 1] == from[j + 1]);
                    }
                    lemma_replace_all_prefix_kept(rest, from, to, m);
                    assert(s.subrange(0, from.len() as int) =~= seq![s[0]] + rest.subrange(0, m));
                    assert(r.subrange(0, from.len() as int) =~= seq![s[0]] + rr.subrange(0, m));
                } else {
                    assert(r.subrange(i, i + from.len()) =~= rr.subrange(i - 1, i - 1 + from.len()));
                    assert(matches_at(rr, i - 1, from));
                }
            }
        }
    }
}

proof fn lemma_count_without_chars(x: Seq<char>, pat: Seq<char>)
    requires
        pat.len() > 0,
        forall|i: int| 0 <= i < x.len() ==> !pat.contains(#[trigger] x[i]),
    ensures
        count_matches(x, pat) == 0,
    decreases x.len(),
{
    if x.len() >= pat.len() {
        if x.subrange(0, pat.len() as int) == pat {
            assert(x.subrange(0, pat.len() as int)[0] == x[0]);
            assert(pat.contains(pat[0]));
        }
        lemma_count_without_chars(x.drop_first(), pat);
    }
}

proof fn lemma_replace_all_counts_to(s: Seq<char>, from: Seq<char>, to: Seq<char>)
    requires
        from.len() > 0,
        to.len() > 0,
        chars_apart(to, from),
        forall|i: int| 0 <= i < s.len() ==> !to.contains(#[trigger] s[i]),
    ensures
        count_matches(replace_all(s, from, to), to) == count_matches(s, from),
    decreases s.len(),
{
    let r = replace_all(s, from, to);
    if s.len() < from.len() {
        lemma_count_without_chars(s, to);
    } else if s.subrange(0, from.len() as int) == from {
        let rest = s.subrange(from.len() as int, s.len() as int);
        assert forall|i: int| 0 <= i < rest.len() implies !to.contains(#[trigger] rest[i]) by {
            assert(rest[i] == s[i + from.len()]);
        }
        lemma_replace_all_counts_to(rest, from, to);
        let rr = replace_all(rest, from, to);
        assert(r.subrange(0, to.len() as int) =~= to);
        assert(r.subrange(to.len() as int, r.len() as int) =~= rr);
    } else {
        let rest = s.drop_first();
        assert forall|i: int| 0 <= i < rest.len() implies !to.contains(#[trigger] rest[i]) by {
            assert(rest[i] == s[i + 1]);
        }
        lemma_replace_all_counts_to(rest, from, to);
        let rr = replace_all(rest, from, to);
        assert(r == seq![s[0]] + rr);
        if r.len() >= to.len() {
            if r.subrange(0, to.len() as int) == to {
                assert(r.subrange(0, to.len() as int)[0] == s[0]);
                assert(to.contains(to[0]));
                assert(!to.contains(s[0]));
            }
            assert(r.drop_first() =~= rr);
        } else {
            assert(rr.len() < to.len());
        }
    }
}

/// Replacing every occurrence of `from` in `s` by `to` makes `k`
/// replacements, `k` being the number of occurrences found left to right
/// without overlap: the text grows by `k` times the difference of the two
/// lengths. A text without `from` is left as it is. Where `to` is not empty
/// and none of its characters occurs in `from`, no occurrence of `from` is
/// left; if moreover no character of `to` occurs in `s`, the result holds
/// `to` exactly `k` times.
pub proof fn lemma_content_replace_all(s: Seq<char>, from: Seq<char>, to: Seq<char>)
    requires
        from.len() > 0,
    ensures
        replace_all(s, from, to).len() == s.len() + count_matches(s, from) * (to.len() - from.len()),
        !occurs_in(s, from) ==> replace_all(s, from, to) == s && count_matches(s, from) == 0,
        to.len() > 0 && chars_apart(to, from) ==> !occurs_in(replace_all(s, from, to), from),
        to.len() > 0 && chars_apart(to, from) && (forall|i: int| 0 <= i < s.len() ==> !to.contains(#[trigger] s[i]))
            ==> count_matches(replace_all(s, from, to), to) == count_matches(s, from),
{
    if to.len() > 0 && chars_apart(to, from) && (forall|i: int| 0 <= i < s.len() ==> !to.contains(#[trigger] s[i])) {
        lemma_replace_all_counts_to(s, from, to);
    }
    lemma_replace_all_len(s, from, to);
    if !occurs_in(s, from) {
        lemma_replace_all_absent(s, from, to);
    }
    if to.len() > 0 && chars_apart(to, from) {
        lemma_replace_all_leaves_no_from(s, from, to);
    }
}

/// Relies on `String::push`: the character is appended at the end.
#[verifier::external_body]
fn push_char(s: &mut String, c: char)
    ensures
        final(s)@ == old(s)@.push(c),
{
    s.push(c)
}

/// The characters of `s`, in order.
pub fn chars_of(s: &str) -> (r: Vec<char>)
    ensures
        r@ == s@,
{
    let mut r: Vec<char> = Vec::new();
    for c in it: s.chars()
        invariant
            it.seq() == s@,
            r@ == it.seq().subrange(0, it.index() as int),
    {
        r.push(c);
    }
    r
}

/// Whether `pat` occurs in `s` at position `i`.
fn matches_at_exec(s: &Vec<char>, i: usize, pat: &Vec<char>) -> (r: bool)
    ensures
        r == matches_at(s@, i as int, pat@),
{
    if i > s.len() || pat.len() > s.len() - i {
        return false;
    }
    let mut k: usize = 0;
    while k < pat.len()
        invariant
            i + pat.len() <= s.len(),
            k <= pat.len(),
            forall|j: int| 0 <= j < k ==> s@[i + j] == pat@[j],
        decreases pat.len() - k,
    {
        if s[i + k] != pat[k] {
            assert(s@.subrange(i as int, i + pat.len())[k as int] != pat@[k as int]);
            return false;
        }
        k = k + 1;
    }
    assert(s@.subrange(i as int, i + pat.len()) =~= pat@);
    true
}

/// Whether `a` and `b` hold the same characters.
pub fn same_text(a: &str, b: &str) -> (r: bool)
    ensures
        r == (a@ == b@),
{
    let ac = chars_of(a);
    let bc = chars_of(b);
    if ac.len() != bc.len() {
        return false;
    }
    let mut i: usize = 0;
    while i < ac.len()
        invariant
            ac@ == a@,
            bc@ == b@,
            ac.len() == bc.len(),
            i <= ac.len(),
            forall|j: int| 0 <= j < i ==> a@[j] == b@[j],
        decreases ac.len() - i,
    {
        if ac[i] != bc[i] {
            return false;
        }
        i = i + 1;
    }
    assert(a@ =~= b@);
    true
}

/// Whether `a` sorts before `b`.
pub fn text_less(a: &str, b: &str) -> (r: bool)
    ensures
        r == text_lt(a@, b@),
{
    let ac = chars_of(a);
    let bc = chars_of(b);
    let mut i: usize = 0;
    assert(a@.subrange(0, a@.len() as int) =~= a@);
    assert(b@.subrange(0, b@.len() as int) =~= b@);
    while i < ac.len() && i < bc.len()
        invariant
            ac@ == a@,
            bc@ == b@,
            i <= ac.len(),
            i <= bc.len(),
            text_lt(a@, b@) == text_lt(a@.subrange(i as int, a@.len() as int), b@.subrange(i as int, b@.len() as int)),
        decreases ac.len() - i,
    {
        let ghost sa = a@.subrange(i as int, a@.len() as int);
        let ghost sb = b@.subrange(i as int, b@.len() as int);
        assert(sa.drop_first() =~= a@.subrange(i + 1, a@.len() as int));
        assert(sb.drop_first() =~= b@.subrange(i + 1, b@.len() as int));
        if ac[i] != bc[i] {
            return ac[i] < bc[i];
        }
        i = i + 1;
    }
    i < bc.len()
}

/// Whether `pat` occurs anywhere in `s`.
pub fn contains(s: &str, pat: &str) -> (r: bool)
    ensures
        r == occurs_in(s@, pat@),
{
    let sc = chars_of(s);
    let pc = chars_of(pat);
    if pc.len() == 0 {
        assert(s@.subrange(0, 0) =~= pat@);
        assert(matches_at(s@, 0, pat@));
        return true;
    }
    let mut i: usize = 0;
    while i < sc.len()
        invariant
            sc@ == s@,
            pc@ == pat@,
            pat@.len() > 0,
            i <= sc.len(),
            forall|j: int| 0 <= j < i ==> !matches_at(s@, j, pat@),
        decreases sc.len() - i,
    {
        if matches_at_exec(&sc, i, &pc) {
            return true;
        }
        i = i + 1;
    }
    assert forall|j: int| !matches_at(s@, j, pat@) by {
        if 0 <= j < i {
        }
    }
    false
}

proof fn lemma_replace_all_step(s: Seq<char>, i: int, from: Seq<char>, to: Seq<char>)
    requires
        from.len() > 0,
        0 <= i < s.len(),
    ensures
        matches_at(s, i, from) ==> replace_all(s.subrange(i, s.len() as int), from, to) == to
            + replace_all(s.subrange(i + from.len(), s.len() as int), from, to),
        !matches_at(s, i, from) ==> replace_all(s.subrange(i, s.len() as int), from, to) == seq![
            s[i],
        ] + replace_all(s.subrange(i + 1, s.len() as int), from, to),
{
    let t = s.subrange(i, s.len() as int);
    if t.len() >= from.len() {
        assert(t.subrange(0, from.len() as int) =~= s.subrange(i, i + from.len()));
        assert(t.subrange(from.len() as int, t.len() as int) =~= s.subrange(
            i + from.len(),
            s.len() as int,
        ));
    } else {
        assert(!matches_at(s, i, from));
    }
    assert(t.drop_first() =~= s.subrange(i + 1, s.len() as int));
    if !matches_at(s, i, from) && t.len() < from.len() {
        let u = s.subrange(i + 1, s.len() as int);
        assert(u.len() < from.len());
        assert(t =~= seq![s[i]] + u);
    }
}

/// Replaces every occurrence of `from` in `s` by `to`, left to right, without
/// overlaps.
pub fn replace_all_exec(s: &str, from: &str, to: &str) -> (r: String)
    requires
        from@.len() > 0,
    ensures
        r@ == replace_all(s@, from@, to@),
{
    let sc = chars_of(s);
    let fc = chars_of(from);
    let tc = chars_of(to);
    let mut r = String::new();
    let mut i: usize = 0;
    assert(s@.subrange(0, s@.len() as int) =~= s@);
    assert(r@ + s@ =~= s@);
    while i < sc.len()
        invariant
            sc@ == s@,
            fc@ == from@,
            tc@ == to@,
            from@.len() > 0,
            i <= sc.len(),
            r@ + replace_all(s@.subrange(i as int, s@.len() as int), from@, to@) == replace_all(
                s@,
                from@,
                to@,
            ),
        decreases sc.len() - i,
    {
        proof {
            lemma_replace_all_step(s@, i as int, from@, to@);
        }
        if matches_at_exec(&sc, i, &fc) {
            let ghost before = r@;
            let mut k: usize = 0;
            while k < tc.len()
                invariant
                    tc@ == to@,
                    k <= tc.len(),
                    r@ == before + to@.subrange(0, k as int),
                decreases tc.len() - k,
            {
                push_char(&mut r, tc[k]);
                assert(to@.subrange(0, k + 1) =~= to@.subrange(0, k as int).push(to@[k as int]));
                k = k + 1;
            }
            assert(to@.subrange(0, k as int) =~= to@);
            assert(r@ + replace_all(s@.subrange(i + fc.len(), s@.len() as int), from@, to@)
                =~= before + (to@ + replace_all(s@.subrange(i + fc.len(), s@.len() as int), from@, to@)));
            i = i + fc.len();
        } else {
            let ghost before = r@;
            push_char(&mut r, sc[i]);
            assert(r@ + replace_all(s@.subrange(i + 1, s@.len() as int), from@, to@)
                =~= before + (seq![s@[i as int]] + replace_all(s@.subrange(i + 1, s@.len() as int), from@, to@)));
            i = i + 1;
        }
    }
    assert(s@.subrange(i as int, s@.len() as int) =~= Seq::<char>::empty());
    assert(r@ =~= r@ + Seq::<char>::empty());
    r
}

} // verus!
