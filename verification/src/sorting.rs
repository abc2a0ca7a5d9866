//! Insertion sorts for the two result sequences, proved to keep the multiset
//! of entries (by their views) and to leave the output weakly sorted.

use vstd::prelude::*;

verus! {

use crate::order::{seq_le, seq_lt, lemma_seq_lt_total, lemma_seq_le_trans, str_lt};
use crate::types::{
    MediaFile,
    Project,
    media_view,
    media_views,
    proj_view,
    proj_views,
    sorted_by_name,
    sorted_by_path,
};
use vstd::seq_lib::lemma_multiset_commutative;

/// Inserting at any position adds exactly one occurrence to the multiset.
pub proof fn lemma_insert_to_multiset<A>(s: Seq<A>, j: int, x: A)
    requires
        0 <= j <= s.len(),
    ensures
        s.insert(j, x).to_multiset() == s.to_multiset().insert(x),
{
    broadcast use vstd::seq_lib::group_to_multiset_ensures;
    broadcast use vstd::multiset::group_multiset_axioms;

    let a = s.subrange(0, j);
    let b = s.subrange(j, s.len() as int);
    assert(s.insert(j, x) == a.push(x) + b);
    lemma_multiset_commutative(a.push(x), b);
    assert(s =~= a + b);
    lemma_multiset_commutative(a, b);
    assert(a.push(x).to_multiset() =~= a.to_multiset().insert(x));
    assert(a.to_multiset().insert(x).add(b.to_multiset()) =~= a.to_multiset().add(
        b.to_multiset(),
    ).insert(x));
}

/// Mapping to views commutes with insertion, for projects.
pub proof fn lemma_proj_views_insert(s: Seq<Project>, j: int, p: Project)
    requires
        0 <= j <= s.len(),
    ensures
        proj_views(s.insert(j, p)) == proj_views(s).insert(j, proj_view(p)),
{
    s.insert_ensures(j, p);
    proj_views(s).insert_ensures(j, proj_view(p));
    assert(proj_views(s.insert(j, p)) =~= proj_views(s).insert(j, proj_view(p)));
}

/// Mapping to views commutes with push, for projects.
pub proof fn lemma_proj_views_push(s: Seq<Project>, p: Project)
    ensures
        proj_views(s.push(p)) == proj_views(s).push(proj_view(p)),
{
    assert(proj_views(s.push(p)) =~= proj_views(s).push(proj_view(p)));
}

/// Mapping to views commutes with insertion, for media files.
pub proof fn lemma_media_views_insert(s: Seq<MediaFile>, j: int, m: MediaFile)
    requires
        0 <= j <= s.len(),
    ensures
        media_views(s.insert(j, m)) == media_views(s).insert(j, media_view(m)),
{
    s.insert_ensures(j, m);
    media_views(s).insert_ensures(j, media_view(m));
    assert(media_views(s.insert(j, m)) =~= media_views(s).insert(j, media_view(m)));
}

/// Mapping to views commutes with push, for media files.
pub proof fn lemma_media_views_push(s: Seq<MediaFile>, m: MediaFile)
    ensures
        media_views(s.push(m)) == media_views(s).push(media_view(m)),
{
    assert(media_views(s.push(m)) =~= media_views(s).push(media_view(m)));
}

/// Inserting below everything larger and above everything not larger keeps a
/// project sequence sorted.
proof fn lemma_sorted_insert_project(s: Seq<Project>, j: int, p: Project)
    requires
        sorted_by_name(s),
        0 <= j <= s.len(),
        forall|t: int| 0 <= t < j ==> seq_le(s[t].name@, p.name@),
        j < s.len() ==> seq_lt(p.name@, s[j].name@),
    ensures
        sorted_by_name(s.insert(j, p)),
{
    s.insert_ensures(j, p);
    let s2 = s.insert(j, p);
    assert forall|x: int, y: int| 0 <= x < y < s2.len() implies seq_le(s2[x].name@, s2[y].name@) by {
        if y < j {
            assert(s2[x] == s[x] && s2[y] == s[y]);
        } else if y == j {
            assert(s2[x] == s[x]);
        } else {
            assert(s2[y] == s[y - 1]);
            if x < j {
                assert(s2[x] == s[x]);
                if x < y - 1 {
                    assert(seq_le(s[x].name@, s[y - 1].name@));
                } else {
                    assert(x == y - 1 && x < j && y > j);
                    assert(false);
                }
            } else if x == j {
                assert(seq_lt(p.name@, s[j].name@));
                if j < y - 1 {
                    assert(seq_le(s[j].name@, s[y - 1].name@));
                    lemma_seq_le_trans(p.name@, s[j].name@, s[y - 1].name@);
                }
            } else {
                assert(s2[x] == s[x - 1]);
                assert(seq_le(s[x - 1].name@, s[y - 1].name@));
            }
        }
    }
}

/// Same statement for media files ordered by path.
proof fn lemma_sorted_insert_media(s: Seq<MediaFile>, j: int, m: MediaFile)
    requires
        sorted_by_path(s),
        0 <= j <= s.len(),
        forall|t: int| 0 <= t < j ==> seq_le(s[t].path@, m.path@),
        j < s.len() ==> seq_lt(m.path@, s[j].path@),
    ensures
        sorted_by_path(s.insert(j, m)),
{
    s.insert_ensures(j, m);
    let s2 = s.insert(j, m);
    assert forall|x: int, y: int| 0 <= x < y < s2.len() implies seq_le(s2[x].path@, s2[y].path@) by {
        if y < j {
            assert(s2[x] == s[x] && s2[y] == s[y]);
        } else if y == j {
            assert(s2[x] == s[x]);
        } else {
            assert(s2[y] == s[y - 1]);
            if x < j {
                assert(s2[x] == s[x]);
                if x < y - 1 {
                    assert(seq_le(s[x].path@, s[y - 1].path@));
                } else {
                    assert(x == y - 1 && x < j && y > j);
                    assert(false);
                }
            } else if x == j {
                assert(seq_lt(m.path@, s[j].path@));
                if j < y - 1 {
                    assert(seq_le(s[j].path@, s[y - 1].path@));
                    lemma_seq_le_trans(m.path@, s[j].path@, s[y - 1].path@);
                }
            } else {
                assert(s2[x] == s[x - 1]);
                assert(seq_le(s[x - 1].path@, s[y - 1].path@));
            }
        }
    }
}

/// Sort projects ascending by name (ordinal order), keeping the entries.
pub fn sort_projects(v: Vec<Project>) -> (r: Vec<Project>)
    ensures
        proj_views(r@).to_multiset() == proj_views(v@).to_multiset(),
        sorted_by_name(r@),
{
    let mut rest = v;
    let ghost all = rest@;
    let mut out: Vec<Project> = Vec::new();
    proof {
        broadcast use vstd::seq_lib::group_to_multiset_ensures;
        broadcast use vstd::multiset::group_multiset_axioms;

        assert(proj_views(out@) =~= Seq::<(Seq<char>, Seq<char>)>::empty());
        assert(proj_views(out@).to_multiset().add(proj_views(rest@).to_multiset())
            =~= proj_views(all).to_multiset());
    }
    while rest.len() > 0
        invariant
            sorted_by_name(out@),
            proj_views(out@).to_multiset().add(proj_views(rest@).to_multiset()) == proj_views(
                all,
            ).to_multiset(),
        decreases rest.len(),
    {
        let ghost rest0 = rest@;
        let ghost out0 = out@;
        let p = rest.pop().unwrap();
        proof {
            broadcast use vstd::seq_lib::group_to_multiset_ensures;
            broadcast use vstd::multiset::group_multiset_axioms;

            assert(proj_views(rest0) =~= proj_views(rest@).push(proj_view(p)));
        }
        let mut j: usize = 0;
        loop
            invariant
                j <= out.len(),
                forall|t: int| 0 <= t < j ==> seq_le(out@[t].name@, p.name@),
            ensures
                j <= out.len(),
                forall|t: int| 0 <= t < j ==> seq_le(out@[t].name@, p.name@),
                j < out.len() ==> seq_lt(p.name@, out@[j as int].name@),
            decreases out.len() - j,
        {
            if j == out.len() {
                break ;
            }
            if str_lt(p.name.as_str(), out[j].name.as_str()) {
                break ;
            }
            proof {
                lemma_seq_lt_total(out@[j as int].name@, p.name@);
            }
            j = j + 1;
        }
        proof {
            broadcast use vstd::seq_lib::group_to_multiset_ensures;
            broadcast use vstd::multiset::group_multiset_axioms;

            lemma_sorted_insert_project(out@, j as int, p);
            lemma_proj_views_insert(out@, j as int, p);
            lemma_insert_to_multiset(proj_views(out@), j as int, proj_view(p));
            assert(proj_views(out0).to_multiset().insert(proj_view(p)).add(
                proj_views(rest@).to_multiset(),
            ) =~= proj_views(out0).to_multiset().add(
                proj_views(rest@).to_multiset().insert(proj_view(p)),
            ));
        }
        out.insert(j, p);
    }
    proof {
        broadcast use vstd::seq_lib::group_to_multiset_ensures;
        broadcast use vstd::multiset::group_multiset_axioms;

        assert(proj_views(rest@) =~= Seq::<(Seq<char>, Seq<char>)>::empty());
        assert(proj_views(out@).to_multiset().add(proj_views(rest@).to_multiset())
            =~= proj_views(out@).to_multiset());
    }
    out
}

/// Sort media files ascending by path (ordinal order), keeping the entries.
pub fn sort_media(v: Vec<MediaFile>) -> (r: Vec<MediaFile>)
    ensures
        media_views(r@).to_multiset() == media_views(v@).to_multiset(),
        sorted_by_path(r@),
{
    let mut rest = v;
    let ghost all = rest@;
    let mut out: Vec<MediaFile> = Vec::new();
    proof {
        broadcast use vstd::seq_lib::group_to_multiset_ensures;
        broadcast use vstd::multiset::group_multiset_axioms;

        assert(media_views(out@) =~= Seq::<(Seq<char>, bool)>::empty());
        assert(media_views(out@).to_multiset().add(media_views(rest@).to_multiset())
            =~= media_views(all).to_multiset());
    }
    while rest.len() > 0
        invariant
            sorted_by_path(out@),
            media_views(out@).to_multiset().add(media_views(rest@).to_multiset()) == media_views(
                all,
            ).to_multiset(),
        decreases rest.len(),
    {
        let ghost rest0 = rest@;
        let ghost out0 = out@;
        let m = rest.pop().unwrap();
        proof {
            broadcast use vstd::seq_lib::group_to_multiset_ensures;
            broadcast use vstd::multiset::group_multiset_axioms;

            assert(media_views(rest0) =~= media_views(rest@).push(media_view(m)));
        }
        let mut j: usize = 0;
        loop
            invariant
                j <= out.len(),
                forall|t: int| 0 <= t < j ==> seq_le(out@[t].path@, m.path@),
            ensures
                j <= out.len(),
                forall|t: int| 0 <= t < j ==> seq_le(out@[t].path@, m.path@),
                j < out.len() ==> seq_lt(m.path@, out@[j as int].path@),
            decreases out.len() - j,
        {
            if j == out.len() {
                break ;
            }
            if str_lt(m.path.as_str(), out[j].path.as_str()) {
                break ;
            }
            proof {
                lemma_seq_lt_total(out@[j as int].path@, m.path@);
            }
            j = j + 1;
        }
        proof {
            broadcast use vstd::seq_lib::group_to_multiset_ensures;
            broadcast use vstd::multiset::group_multiset_axioms;

            lemma_sorted_insert_media(out@, j as int, m);
            lemma_media_views_insert(out@, j as int, m);
            lemma_insert_to_multiset(media_views(out@), j as int, media_view(m));
            assert(media_views(out0).to_multiset().insert(media_view(m)).add(
                media_views(rest@).to_multiset(),
            ) =~= media_views(out0).to_multiset().add(
                media_views(rest@).to_multiset().insert(media_view(m)),
            ));
        }
        out.insert(j, m);
    }
    proof {
        broadcast use vstd::seq_lib::group_to_multiset_ensures;
        broadcast use vstd::multiset::group_multiset_axioms;

        assert(media_views(rest@) =~= Seq::<(Seq<char>, bool)>::empty());
        assert(media_views(out@).to_multiset().add(media_views(rest@).to_multiset())
            =~= media_views(out@).to_multiset());
    }
    out
}

} // verus!
