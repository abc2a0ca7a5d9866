//! Relative paths as component sequences, and their rendering with `/`.
//!
//! A snapshot entry is a file's path relative to the base directory, split
//! into components. Joining with `/` is injective on valid paths, which is
//! what makes project names unambiguous.

use vstd::prelude::*;

verus! {

use crate::order::str_eq;

/// A path component: non-empty and free of the separator.
pub open spec fn valid_component(c: Seq<char>) -> bool {
    c.len() > 0 && forall|i: int| 0 <= i < c.len() ==> c[i] != '/'
}

/// A (possibly empty) component sequence of valid components.
pub open spec fn valid_path(p: Seq<Seq<char>>) -> bool {
    forall|i: int| 0 <= i < p.len() ==> valid_component(#[trigger] p[i])
}

/// The components joined with `/`; the empty path renders as the empty string.
pub open spec fn join_path(p: Seq<Seq<char>>) -> Seq<char>
    decreases p.len(),
{
    if p.len() == 0 {
        Seq::empty()
    } else if p.len() == 1 {
        p[0]
    } else {
        join_path(p.drop_last()) + seq!['/'] + p.last()
    }
}

/// A non-empty valid path joins to a non-empty string.
pub proof fn lemma_join_nonempty(p: Seq<Seq<char>>)
    requires
        valid_path(p),
        p.len() >= 1,
    ensures
        join_path(p).len() >= 1,
    decreases p.len(),
{
    if p.len() == 1 {
        assert(valid_component(p[0]));
    }
}

/// How a join of two or more components is laid out: the prefix join, one
/// separator, then the last component, which contains no separator.
pub proof fn lemma_join_structure(p: Seq<Seq<char>>)
    requires
        valid_path(p),
        p.len() >= 2,
    ensures
        join_path(p).len() == join_path(p.drop_last()).len() + 1 + p.last().len(),
        join_path(p)[join_path(p.drop_last()).len() as int] == '/',
        forall|k: int|
            join_path(p.drop_last()).len() < k < join_path(p).len() ==> join_path(p)[k] != '/',
        forall|k: int|
            0 <= k < join_path(p.drop_last()).len() ==> join_path(p)[k] == join_path(
                p.drop_last(),
            )[k],
        forall|t: int|
            0 <= t < p.last().len() ==> join_path(p)[join_path(p.drop_last()).len() + 1 + t]
                == p.last()[t],
{
    let q = join_path(p.drop_last());
    let m = q.len() as int;
    let j = join_path(p);
    assert(j == q + seq!['/'] + p.last());
    assert(valid_component(p.last())) by {
        assert(p.last() == p[p.len() - 1]);
    }
    assert forall|k: int| m < k < j.len() implies j[k] != '/' by {
        assert(j[k] == p.last()[k - m - 1]);
    }
}

/// A one-component path joins to that component, which has no separator.
pub proof fn lemma_join_single(p: Seq<Seq<char>>)
    requires
        valid_path(p),
        p.len() == 1,
    ensures
        join_path(p) == p[0],
        forall|k: int| 0 <= k < join_path(p).len() ==> join_path(p)[k] != '/',
{
    assert(valid_component(p[0]));
}

/// Joining with `/` is injective on valid paths: two valid component
/// sequences that render to the same string are the same sequence.
pub proof fn lemma_join_injective(d1: Seq<Seq<char>>, d2: Seq<Seq<char>>)
    requires
        valid_path(d1),
        valid_path(d2),
        join_path(d1) == join_path(d2),
    ensures
        d1 == d2,
    decreases d1.len(),
{
    if d1.len() == 0 || d2.len() == 0 {
        if d1.len() >= 1 {
            lemma_join_nonempty(d1);
        }
        if d2.len() >= 1 {
            lemma_join_nonempty(d2);
        }
        assert(d1.len() == 0 && d2.len() == 0);
        assert(d1 =~= d2);
    } else if d1.len() == 1 && d2.len() == 1 {
        assert(d1 =~= d2);
    } else if d1.len() == 1 {
        lemma_join_single(d1);
        lemma_join_structure(d2);
        lemma_join_nonempty(d2.drop_last());
        assert(join_path(d1)[join_path(d2.drop_last()).len() as int] == '/');
        assert(false);
    } else if d2.len() == 1 {
        lemma_join_single(d2);
        lemma_join_structure(d1);
        lemma_join_nonempty(d1.drop_last());
        assert(join_path(d2)[join_path(d1.drop_last()).len() as int] == '/');
        assert(false);
    } else {
        lemma_join_structure(d1);
        lemma_join_structure(d2);
        let j = join_path(d1);
        let m1 = join_path(d1.drop_last()).len() as int;
        let m2 = join_path(d2.drop_last()).len() as int;
        assert(m1 == m2) by {
            if m1 < m2 {
                assert(j[m2] == '/');
                assert(m1 < m2 < j.len());
            } else if m2 < m1 {
                assert(j[m1] == '/');
                assert(m2 < m1 < j.len());
            }
        }
        assert(d1.last() =~= d2.last()) by {
            assert(d1.last().len() == d2.last().len());
            assert forall|t: int| 0 <= t < d1.last().len() implies d1.last()[t] == d2.last()[t] by {
                assert(j[m1 + 1 + t] == d1.last()[t]);
                assert(j[m2 + 1 + t] == d2.last()[t]);
            }
        }
        assert(join_path(d1.drop_last()) =~= join_path(d2.drop_last())) by {
            assert forall|k: int| 0 <= k < m1 implies join_path(d1.drop_last())[k] == join_path(
                d2.drop_last(),
            )[k] by {
                assert(join_path(d1.drop_last())[k] == j[k]);
                assert(join_path(d2.drop_last())[k] == j[k]);
            }
        }
        assert(valid_path(d1.drop_last())) by {
            assert forall|i: int| 0 <= i < d1.drop_last().len() implies valid_component(
                #[trigger] d1.drop_last()[i],
            ) by {
                assert(d1.drop_last()[i] == d1[i]);
            }
        }
        assert(valid_path(d2.drop_last())) by {
            assert forall|i: int| 0 <= i < d2.drop_last().len() implies valid_component(
                #[trigger] d2.drop_last()[i],
            ) by {
                assert(d2.drop_last()[i] == d2[i]);
            }
        }
        lemma_join_injective(d1.drop_last(), d2.drop_last());
        assert(d1 =~= d2) by {
            assert(d1.len() == d2.len());
            assert forall|i: int| 0 <= i < d1.len() implies d1[i] == d2[i] by {
                if i < d1.len() - 1 {
                    assert(d1[i] == d1.drop_last()[i]);
                    assert(d2[i] == d2.drop_last()[i]);
                } else {
                    assert(d1[i] == d1.last());
                    assert(d2[i] == d2.last());
                }
            }
        }
    }
}

/// Executable join of path components with `/`.
pub fn join_slash(p: &Vec<String>) -> (r: String)
    ensures
        r@ == join_path(p.deep_view()),
{
    let ghost dv = p.deep_view();
    let mut r = String::new();
    let mut i: usize = 0;
    proof {
        assert(dv.take(0) =~= Seq::<Seq<char>>::empty());
    }
    while i < p.len()
        invariant
            i <= p.len(),
            dv == p.deep_view(),
            p@.len() == dv.len(),
            r@ == join_path(dv.take(i as int)),
        decreases p.len() - i,
    {
        proof {
            assert(dv[i as int] == p@[i as int]@);
        }
        if i > 0 {
            r.append("/");
            proof {
                reveal_strlit("/");
                assert("/"@ =~= seq!['/']);
            }
        }
        r.append(p[i].as_str());
        proof {
            let t1 = dv.take(i as int + 1);
            assert(t1.drop_last() =~= dv.take(i as int));
            assert(t1.last() == dv[i as int]);
            if i == 0 {
                assert(r@ =~= dv[0]);
                assert(t1.len() == 1);
                assert(join_path(t1) == t1[0]);
            } else {
                assert(t1.len() >= 2);
                assert(r@ =~= join_path(dv.take(i as int)) + seq!['/'] + dv[i as int]);
            }
        }
        i = i + 1;
    }
    proof {
        assert(dv.take(p@.len() as int) =~= dv);
    }
    r
}

/// An owned copy of a component path, equal in its deep view.
pub fn clone_path(p: &Vec<String>) -> (r: Vec<String>)
    ensures
        r.deep_view() == p.deep_view(),
{
    let mut r: Vec<String> = Vec::new();
    let mut j: usize = 0;
    while j < p.len()
        invariant
            j <= p.len(),
            r@.len() == j,
            forall|t: int| 0 <= t < j ==> r@[t].deep_view() == p.deep_view()[t],
        decreases p.len() - j,
    {
        let ghost r0 = r@;
        let c = p[j].clone();
        r.push(c);
        proof {
            assert forall|t: int| 0 <= t < r@.len() implies r@[t].deep_view() == p.deep_view()[t] by {
                if t < j {
                    assert(r@[t] == r0[t]);
                } else {
                    assert(r@[t] == p@[j as int]);
                    assert(p.deep_view()[t] == p@[t].deep_view());
                }
            }
        }
        j = j + 1;
    }
    proof {
        assert forall|t: int| 0 <= t < r.deep_view().len() implies r.deep_view()[t]
            == p.deep_view()[t] by {
            assert(r.deep_view()[t] == r@[t].deep_view());
        }
        assert(r.deep_view() =~= p.deep_view());
    }
    r
}

/// The parent of a non-empty path: all components but the last, owned.
pub fn parent_of(f: &Vec<String>) -> (r: Vec<String>)
    requires
        f@.len() >= 1,
    ensures
        r.deep_view() == f.deep_view().drop_last(),
{
    let mut r: Vec<String> = Vec::new();
    let mut j: usize = 0;
    while j < f.len() - 1
        invariant
            f@.len() >= 1,
            j <= f@.len() - 1,
            r@.len() == j,
            forall|t: int| 0 <= t < j ==> r@[t].deep_view() == f.deep_view()[t],
        decreases f.len() - 1 - j,
    {
        let ghost r0 = r@;
        let c = f[j].clone();
        r.push(c);
        proof {
            assert forall|t: int| 0 <= t < r@.len() implies r@[t].deep_view() == f.deep_view()[t] by {
                if t < j {
                    assert(r@[t] == r0[t]);
                } else {
                    assert(r@[t] == f@[j as int]);
                    assert(f.deep_view()[t] == f@[t].deep_view());
                }
            }
        }
        j = j + 1;
    }
    proof {
        assert forall|t: int| 0 <= t < r.deep_view().len() implies r.deep_view()[t]
            == f.deep_view().drop_last()[t] by {
            assert(r.deep_view()[t] == r@[t].deep_view());
            assert(f.deep_view().drop_last()[t] == f.deep_view()[t]);
        }
        assert(r.deep_view() =~= f.deep_view().drop_last());
    }
    r
}

/// Whether `f` is a direct child of directory `d`: non-empty, and its parent
/// components are exactly `d`.
pub fn parent_eq(f: &Vec<String>, d: &Vec<String>) -> (r: bool)
    ensures
        r == (f.deep_view().len() >= 1 && f.deep_view().drop_last() == d.deep_view()),
{
    proof {
        assert(f.deep_view().len() == f@.len());
        assert(d.deep_view().len() == d@.len());
    }
    if f.len() == 0 {
        return false;
    }
    if f.len() - 1 != d.len() {
        return false;
    }
    let mut j: usize = 0;
    while j < d.len()
        invariant
            j <= d.len(),
            f@.len() == d@.len() + 1,
            f.deep_view().len() == f@.len(),
            d.deep_view().len() == d@.len(),
            forall|t: int| 0 <= t < j ==> f.deep_view()[t] == d.deep_view()[t],
        decreases d.len() - j,
    {
        if !str_eq(f[j].as_str(), d[j].as_str()) {
            proof {
                assert(f.deep_view()[j as int] == f@[j as int]@);
                assert(d.deep_view()[j as int] == d@[j as int]@);
                assert(f.deep_view().drop_last()[j as int] == f.deep_view()[j as int]);
            }
            return false;
        }
        proof {
            assert(f.deep_view()[j as int] == f@[j as int]@);
            assert(d.deep_view()[j as int] == d@[j as int]@);
        }
        j = j + 1;
    }
    proof {
        assert(f.deep_view().drop_last() =~= d.deep_view());
    }
    true
}

/// Whether `dirs` already holds a path deep-equal to `d`.
pub fn contains_path(dirs: &Vec<Vec<String>>, d: &Vec<String>) -> (r: bool)
    ensures
        r == dirs.deep_view().contains(d.deep_view()),
{
    let mut i: usize = 0;
    while i < dirs.len()
        invariant
            i <= dirs.len(),
            dirs.deep_view().len() == dirs@.len(),
            forall|t: int| 0 <= t < i ==> dirs.deep_view()[t] != d.deep_view(),
        decreases dirs.len() - i,
    {
        proof {
            assert(dirs.deep_view()[i as int] == dirs@[i as int].deep_view());
        }
        if path_eq(&dirs[i], d) {
            return true;
        }
        i = i + 1;
    }
    false
}

/// Executable equality of component paths, by their deep views.
pub fn path_eq(a: &Vec<String>, b: &Vec<String>) -> (r: bool)
    ensures
        r == (a.deep_view() == b.deep_view()),
{
    if a.len() != b.len() {
        proof {
            assert(a.deep_view().len() == a@.len());
            assert(b.deep_view().len() == b@.len());
        }
        return false;
    }
    let mut i: usize = 0;
    while i < a.len()
        invariant
            i <= a.len(),
            a@.len() == b@.len(),
            a.deep_view().len() == a@.len(),
            b.deep_view().len() == b@.len(),
            forall|j: int| 0 <= j < i ==> a.deep_view()[j] == b.deep_view()[j],
        decreases a.len() - i,
    {
        if !str_eq(a[i].as_str(), b[i].as_str()) {
            proof {
                assert(a.deep_view()[i as int] == a@[i as int]@);
                assert(b.deep_view()[i as int] == b@[i as int]@);
            }
            return false;
        }
        proof {
            assert(a.deep_view()[i as int] == a@[i as int]@);
            assert(b.deep_view()[i as int] == b@[i as int]@);
        }
        i = i + 1;
    }
    proof {
        assert(a.deep_view() =~= b.deep_view());
    }
    true
}

} // verus!
