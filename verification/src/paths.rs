//! Repository-relative paths, held as their components.
use vstd::prelude::*;

use crate::text::{chars_of, concat, replace_char, replace_chars, same, views};

verus! {

broadcast use vstd::string::group_string_axioms;

/// Components joined with `/`.
pub open spec fn join(s: Seq<Seq<char>>) -> Seq<char>
    decreases s.len(),
{
    if s.len() == 0 {
        seq![]
    } else if s.len() == 1 {
        s[0]
    } else {
        join(s.drop_last()).push('/') + s.last()
    }
}

/// A path as the audits display it: its components joined with `/`, with
/// every `\` turned into `/`.
pub open spec fn relative_display(s: Seq<Seq<char>>) -> Seq<char> {
    replace_char(join(s), '\\', '/')
}

/// The components of a path, as text.
pub fn components_of(p: &Vec<String>) -> (r: Vec<Vec<char>>)
    ensures
        views(r@) == crate::text::string_views(p@),
{
    let mut out: Vec<Vec<char>> = Vec::new();
    let mut i: usize = 0;
    while i < p.len()
        invariant
            i <= p.len(),
            views(out@) == crate::text::string_views(p@.take(i as int)),
        decreases p.len() - i,
    {
        let ghost before = views(out@);
        out.push(chars_of(p[i].as_str()));
        assert(views(out@) =~= before.push(p@[i as int]@));
        assert(crate::text::string_views(p@.take(i + 1)) =~= crate::text::string_views(
            p@.take(i as int),
        ).push(p@[i as int]@));
        i = i + 1;
    }
    assert(p@.take(p.len() as int) =~= p@);
    out
}

/// Joins the components of a path with `/` (the path made relative and
/// normalized, as the audits record it).
pub fn normalize_path(p: &Vec<Vec<char>>) -> (r: Vec<char>)
    ensures
        r@ == join(views(p@)),
{
    let ghost v = views(p@);
    let mut out: Vec<char> = Vec::new();
    let mut i: usize = 0;
    assert(v.take(0) =~= Seq::<Seq<char>>::empty());
    while i < p.len()
        invariant
            i <= p.len(),
            v == views(p@),
            out@ == join(v.take(i as int)),
        decreases p.len() - i,
    {
        assert(v.take(i + 1).drop_last() =~= v.take(i as int));
        assert(v.take(i + 1).last() == p@[i as int]@);
        if i == 0 {
            out = concat(&Vec::new(), &p[i]);
            assert(out@ =~= p@[0]@);
        } else {
            out.push('/');
            out = concat(&out, &p[i]);
        }
        i = i + 1;
    }
    assert(v.take(p.len() as int) =~= v);
    out
}

/// Displays a path.
pub fn relative_display_of(p: &Vec<Vec<char>>) -> (r: Vec<char>)
    ensures
        r@ == relative_display(views(p@)),
{
    replace_chars(&normalize_path(p), '\\', '/')
}

/// Whether two paths have the same components.
pub fn same_path(a: &Vec<Vec<char>>, b: &Vec<Vec<char>>) -> (r: bool)
    ensures
        r == (views(a@) == views(b@)),
{
    if a.len() != b.len() {
        assert(views(a@).len() != views(b@).len());
        return false;
    }
    let mut i: usize = 0;
    while i < a.len()
        invariant
            i <= a.len(),
            a.len() == b.len(),
            forall|j: int| 0 <= j < i ==> views(a@)[j] == views(b@)[j],
        decreases a.len() - i,
    {
        if !same(&a[i], &b[i]) {
            assert(views(a@)[i as int] != views(b@)[i as int]);
            return false;
        }
        i = i + 1;
    }
    assert(views(a@) =~= views(b@));
    true
}

// ---------------------------------------------------------------------------
// Path order
// ---------------------------------------------------------------------------

/// Lexicographic order of texts by code point (the byte order of UTF-8).
pub open spec fn chars_less(a: Seq<char>, b: Seq<char>) -> bool
    decreases a.len(),
{
    if a.len() == 0 {
        b.len() > 0
    } else if b.len() == 0 {
        false
    } else if a[0] != b[0] {
        a[0] < b[0]
    } else {
        chars_less(a.drop_first(), b.drop_first())
    }
}

/// The order of `Path`: lexicographic by components.
pub open spec fn path_less(a: Seq<Seq<char>>, b: Seq<Seq<char>>) -> bool
    decreases a.len(),
{
    if a.len() == 0 {
        b.len() > 0
    } else if b.len() == 0 {
        false
    } else if a[0] != b[0] {
        chars_less(a[0], b[0])
    } else {
        path_less(a.drop_first(), b.drop_first())
    }
}

pub proof fn lemma_chars_less_irreflexive(a: Seq<char>)
    ensures
        !chars_less(a, a),
    decreases a.len(),
{
    if a.len() > 0 {
        lemma_chars_less_irreflexive(a.drop_first());
    }
}

pub proof fn lemma_chars_less_transitive(a: Seq<char>, b: Seq<char>, c: Seq<char>)
    requires
        chars_less(a, b),
        chars_less(b, c),
    ensures
        chars_less(a, c),
    decreases a.len(),
{
    if a.len() > 0 && b.len() > 0 && c.len() > 0 && a[0] == b[0] && b[0] == c[0] {
        lemma_chars_less_transitive(a.drop_first(), b.drop_first(), c.drop_first());
    }
}

pub proof fn lemma_chars_less_total(a: Seq<char>, b: Seq<char>)
    ensures
        a == b || chars_less(a, b) || chars_less(b, a),
    decreases a.len(),
{
    if a.len() > 0 && b.len() > 0 && a[0] == b[0] {
        lemma_chars_less_total(a.drop_first(), b.drop_first());
        if a.drop_first() == b.drop_first() {
            assert forall|i: int| 0 <= i < a.len() implies a[i] == b[i] by {
                if i > 0 {
                    assert(a[i] == a.drop_first()[i - 1]);
                    assert(b[i] == b.drop_first()[i - 1]);
                }
            }
            assert(a =~= b);
        }
    } else if a.len() == 0 && b.len() == 0 {
        assert(a =~= b);
    }
}

pub proof fn lemma_path_less_irreflexive(a: Seq<Seq<char>>)
    ensures
        !path_less(a, a),
    decreases a.len(),
{
    if a.len() > 0 {
        lemma_path_less_irreflexive(a.drop_first());
    }
}

pub proof fn lemma_path_less_transitive(a: Seq<Seq<char>>, b: Seq<Seq<char>>, c: Seq<Seq<char>>)
    requires
        path_less(a, b),
        path_less(b, c),
    ensures
        path_less(a, c),
    decreases a.len(),
{
    if a.len() > 0 && b.len() > 0 && c.len() > 0 {
        if a[0] == b[0] && b[0] == c[0] {
            lemma_path_less_transitive(a.drop_first(), b.drop_first(), c.drop_first());
        } else if a[0] != b[0] && b[0] != c[0] {
            lemma_chars_less_transitive(a[0], b[0], c[0]);
            if a[0] == c[0] {
                lemma_chars_less_irreflexive(a[0]);
            }
        } else if a[0] != b[0] {
            assert(chars_less(a[0], b[0]));
        } else {
            assert(chars_less(b[0], c[0]));
        }
    }
}

pub proof fn lemma_path_less_total(a: Seq<Seq<char>>, b: Seq<Seq<char>>)
    ensures
        a == b || path_less(a, b) || path_less(b, a),
    decreases a.len(),
{
    if a.len() > 0 && b.len() > 0 {
        if a[0] == b[0] {
            lemma_path_less_total(a.drop_first(), b.drop_first());
            if a.drop_first() == b.drop_first() {
                assert forall|i: int| 0 <= i < a.len() implies a[i] == b[i] by {
                    if i > 0 {
                        assert(a[i] == a.drop_first()[i - 1]);
                        assert(b[i] == b.drop_first()[i - 1]);
                    }
                }
                assert(a =~= b);
            }
        } else {
            lemma_chars_less_total(a[0], b[0]);
        }
    } else if a.len() == 0 && b.len() == 0 {
        assert(a =~= b);
    }
}

pub proof fn lemma_path_less_asymmetric(a: Seq<Seq<char>>, b: Seq<Seq<char>>)
    requires
        path_less(a, b),
    ensures
        !path_less(b, a),
        a != b,
{
    lemma_path_less_irreflexive(a);
    if path_less(b, a) {
        lemma_path_less_transitive(a, b, a);
    }
}

fn chars_less_exec(a: &Vec<char>, b: &Vec<char>) -> (r: bool)
    ensures
        r == chars_less(a@, b@),
{
    let mut i: usize = 0;
    assert(a@.skip(0) =~= a@);
    assert(b@.skip(0) =~= b@);
    while i < a.len() && i < b.len() && a[i] == b[i]
        invariant
            i <= a.len(),
            i <= b.len(),
            chars_less(a@, b@) == chars_less(a@.skip(i as int), b@.skip(i as int)),
        decreases a.len() - i,
    {
        assert(a@.skip(i as int).drop_first() =~= a@.skip(i + 1));
        assert(b@.skip(i as int).drop_first() =~= b@.skip(i + 1));
        i = i + 1;
    }
    if i == a.len() {
        i < b.len()
    } else if i == b.len() {
        false
    } else {
        a[i] < b[i]
    }
}

/// Whether path `a` comes before path `b`.
pub fn path_less_exec(a: &Vec<Vec<char>>, b: &Vec<Vec<char>>) -> (r: bool)
    ensures
        r == path_less(views(a@), views(b@)),
{
    let ghost va = views(a@);
    let ghost vb = views(b@);
    let mut i: usize = 0;
    assert(va.skip(0) =~= va);
    assert(vb.skip(0) =~= vb);
    while i < a.len() && i < b.len() && same(&a[i], &b[i])
        invariant
            i <= a.len(),
            i <= b.len(),
            va == views(a@),
            vb == views(b@),
            path_less(va, vb) == path_less(va.skip(i as int), vb.skip(i as int)),
        decreases a.len() - i,
    {
        assert(va.skip(i as int).drop_first() =~= va.skip(i + 1));
        assert(vb.skip(i as int).drop_first() =~= vb.skip(i + 1));
        i = i + 1;
    }
    if i == a.len() {
        i < b.len()
    } else if i == b.len() {
        false
    } else {
        assert(va.skip(i as int)[0] == a@[i as int]@);
        assert(vb.skip(i as int)[0] == b@[i as int]@);
        chars_less_exec(&a[i], &b[i])
    }
}

// ---------------------------------------------------------------------------
// Sorting without duplicates
// ---------------------------------------------------------------------------

/// Strictly ascending.
pub open spec fn strictly_sorted(s: Seq<Seq<Seq<char>>>) -> bool {
    forall|i: int, j: int| 0 <= i < j < s.len() ==> path_less(#[trigger] s[i], #[trigger] s[j])
}

/// The first position at or after `i` whose path is not before `p`.
pub open spec fn insertion_point(s: Seq<Seq<Seq<char>>>, p: Seq<Seq<char>>, i: int) -> int
    decreases s.len() - i,
{
    if i < 0 || i >= s.len() {
        s.len() as int
    } else if path_less(s[i], p) {
        insertion_point(s, p, i + 1)
    } else {
        i
    }
}

/// `p` placed in its order in `s`, unless `s` already holds it.
pub open spec fn insert_sorted(s: Seq<Seq<Seq<char>>>, p: Seq<Seq<char>>) -> Seq<
    Seq<Seq<char>>,
> {
    let i = insertion_point(s, p, 0);
    if i < s.len() && s[i] == p {
        s
    } else {
        s.insert(i, p)
    }
}

/// The paths of `s`, ascending and without duplicates (`sort` then `dedup`).
pub open spec fn sort_unique(s: Seq<Seq<Seq<char>>>) -> Seq<Seq<Seq<char>>>
    decreases s.len(),
{
    if s.len() == 0 {
        seq![]
    } else {
        insert_sorted(sort_unique(s.drop_last()), s.last())
    }
}

pub proof fn lemma_insertion_point(s: Seq<Seq<Seq<char>>>, p: Seq<Seq<char>>, i: int)
    requires
        0 <= i <= s.len(),
        forall|j: int| 0 <= j < i ==> path_less(#[trigger] s[j], p),
    ensures
        i <= insertion_point(s, p, i) <= s.len(),
        forall|j: int|
            0 <= j < insertion_point(s, p, i) ==> path_less(#[trigger] s[j], p),
        insertion_point(s, p, i) < s.len() ==> !path_less(s[insertion_point(s, p, i)], p),
    decreases s.len() - i,
{
    if i < s.len() && path_less(s[i], p) {
        lemma_insertion_point(s, p, i + 1);
    }
}

/// Inserting a path keeps a strictly sorted sequence strictly sorted and adds
/// exactly that path.
pub proof fn lemma_insert_sorted(s: Seq<Seq<Seq<char>>>, p: Seq<Seq<char>>)
    requires
        strictly_sorted(s),
    ensures
        strictly_sorted(insert_sorted(s, p)),
        insert_sorted(s, p).to_set() == s.to_set().insert(p),
{
    let i = insertion_point(s, p, 0);
    lemma_insertion_point(s, p, 0);
    let r = insert_sorted(s, p);
    if i < s.len() && s[i] == p {
        assert(s.to_set().insert(p) =~= s.to_set());
    } else {
        // p comes strictly before s[i], and so before all later entries
        if i < s.len() {
            lemma_path_less_total(s[i], p);
            assert(path_less(p, s[i]));
        }
        assert forall|a: int, b: int| 0 <= a < b < r.len() implies path_less(
            #[trigger] r[a],
            #[trigger] r[b],
        ) by {
            if b > i && b - 1 > i {
                lemma_path_less_transitive(p, s[i], s[b - 1]);
            }
            if a < i && b > i {
                lemma_path_less_transitive(s[a], p, s[b - 1]);
            } else if a > i {
                assert(path_less(s[a - 1], s[b - 1]));
            }
        }
        assert forall|x| r.to_set().contains(x) <==> s.to_set().insert(p).contains(x) by {
            if r.contains(x) {
                let k = choose|k: int| 0 <= k < r.len() && r[k] == x;
                if k < i {
                    assert(s[k] == x);
                } else if k > i {
                    assert(s[k - 1] == x);
                }
            }
            if s.to_set().insert(p).contains(x) {
                if x == p {
                    assert(r[i] == p);
                } else {
                    let k = choose|k: int| 0 <= k < s.len() && s[k] == x;
                    if k < i {
                        assert(r[k] == x);
                    } else {
                        assert(r[k + 1] == x);
                    }
                }
            }
        }
        assert(r.to_set() =~= s.to_set().insert(p));
    }
}

/// Sorting without duplicates gives a strictly ascending sequence of exactly
/// the paths of the input.
pub proof fn lemma_sort_unique(s: Seq<Seq<Seq<char>>>)
    ensures
        strictly_sorted(sort_unique(s)),
        sort_unique(s).to_set() == s.to_set(),
    decreases s.len(),
{
    if s.len() == 0 {
        assert(s.to_set() =~= Set::<Seq<Seq<char>>>::empty());
        assert(sort_unique(s).to_set() =~= Set::<Seq<Seq<char>>>::empty());
    } else {
        lemma_sort_unique(s.drop_last());
        lemma_insert_sorted(sort_unique(s.drop_last()), s.last());
        assert(s =~= s.drop_last().push(s.last()));
        assert(s.to_set() =~= s.drop_last().to_set().insert(s.last()));
    }
}

/// The text of each path of a sequence.
pub open spec fn path_views(v: Seq<Vec<Vec<char>>>) -> Seq<Seq<Seq<char>>> {
    v.map_values(|p: Vec<Vec<char>>| views(p@))
}

fn copy_path(p: &Vec<Vec<char>>) -> (r: Vec<Vec<char>>)
    ensures
        views(r@) == views(p@),
{
    let mut out: Vec<Vec<char>> = Vec::new();
    let mut i: usize = 0;
    while i < p.len()
        invariant
            i <= p.len(),
            views(out@) == views(p@).take(i as int),
        decreases p.len() - i,
    {
        let ghost before = views(out@);
        let c = concat(&Vec::new(), &p[i]);
        assert(c@ =~= p@[i as int]@);
        out.push(c);
        assert(views(out@) =~= before.push(p@[i as int]@));
        assert(views(p@).take(i + 1) =~= views(p@).take(i as int).push(p@[i as int]@));
        i = i + 1;
    }
    assert(views(p@).take(p.len() as int) =~= views(p@));
    out
}

/// Places `p` in order in the strictly ascending `s`, unless already there.
pub fn insert_sorted_exec(s: &mut Vec<Vec<Vec<char>>>, p: &Vec<Vec<char>>)
    ensures
        path_views(final(s)@) == insert_sorted(path_views(old(s)@), views(p@)),
{
    let ghost v = path_views(s@);
    let mut i: usize = 0;
    while i < s.len() && path_less_exec(&s[i], p)
        invariant
            i <= s.len(),
            v == path_views(s@),
            insertion_point(v, views(p@), 0) == insertion_point(v, views(p@), i as int),
        decreases s.len() - i,
    {
        i = i + 1;
    }
    if i < s.len() && same_path(&s[i], p) {
        return;
    }
    let q = copy_path(p);
    s.insert(i, q);
    assert(path_views(s@) =~= v.insert(i as int, views(p@)));
}

/// Sorts paths and removes duplicates.
pub fn sort_unique_exec(paths: &Vec<Vec<Vec<char>>>) -> (r: Vec<Vec<Vec<char>>>)
    ensures
        path_views(r@) == sort_unique(path_views(paths@)),
{
    let ghost v = path_views(paths@);
    let mut out: Vec<Vec<Vec<char>>> = Vec::new();
    let mut i: usize = 0;
    assert(v.take(0) =~= Seq::<Seq<Seq<char>>>::empty());
    assert(path_views(out@) =~= Seq::<Seq<Seq<char>>>::empty());
    while i < paths.len()
        invariant
            i <= paths.len(),
            v == path_views(paths@),
            path_views(out@) == sort_unique(v.take(i as int)),
        decreases paths.len() - i,
    {
        assert(v.take(i + 1).drop_last() =~= v.take(i as int));
        assert(v.take(i + 1).last() == views(paths@[i as int]@));
        insert_sorted_exec(&mut out, &paths[i]);
        i = i + 1;
    }
    assert(v.take(paths.len() as int) =~= v);
    out
}

} // verus!
