//! Per-project media listings over the snapshot.
//!
//! For the sentinel name `root` the listing is shallow: only files directly
//! inside the base directory. For any other name the listing is deep: every
//! media file anywhere under the named directory. The name is matched
//! exactly (case-sensitive) against the joined relative directory path.

use vstd::prelude::*;

verus! {

use crate::classify::{is_media_file_name, is_media_name, is_video_file_name, is_video_name};
use crate::order::str_eq;
use crate::paths::{join_path, join_slash};
use crate::sorting::{lemma_media_views_push, sort_media};
use crate::types::{MediaFile, ProjectImages, media_views, sorted_by_path};

/// Some strict prefix of `f`'s components joins to `name`: the file lies
/// (at any depth) under the directory named `name`.
pub open spec fn is_scope_prefix(f: Seq<Seq<char>>, name: Seq<char>) -> bool {
    exists|k: int| 1 <= k < f.len() && join_path(#[trigger] f.take(k)) == name
}

/// Whether file `f` belongs to the listing of project `name`: directly in
/// the base for the sentinel, anywhere under the named directory otherwise.
pub open spec fn in_scope(f: Seq<Seq<char>>, name: Seq<char>) -> bool {
    if name == "root"@ {
        f.len() == 1
    } else {
        is_scope_prefix(f, name)
    }
}

/// The listing of project `name`, before sorting: the relative path and
/// video flag of every in-scope media file, in snapshot order.
pub open spec fn detail_views(
    files: Seq<Seq<Seq<char>>>,
    name: Seq<char>,
    show_video: bool,
) -> Seq<(Seq<char>, bool)>
    decreases files.len(),
{
    if files.len() == 0 {
        Seq::empty()
    } else {
        let rest = detail_views(files.drop_last(), name, show_video);
        let f = files.last();
        if f.len() >= 1 && in_scope(f, name) && is_media_name(f.last(), show_video) {
            rest.push((join_path(f), is_video_name(f.last())))
        } else {
            rest
        }
    }
}

/// Whether some strict prefix of `f` joins to `name`.
fn scope_match(f: &Vec<String>, name: &str) -> (r: bool)
    ensures
        r == is_scope_prefix(f.deep_view(), name@),
{
    let ghost fdv = f.deep_view();
    proof {
        assert(fdv.len() == f@.len());
    }
    if f.len() <= 1 {
        return false;
    }
    let mut acc = String::new();
    let mut k: usize = 0;
    proof {
        assert(fdv.take(0) =~= Seq::<Seq<char>>::empty());
    }
    while k < f.len() - 1
        invariant
            k <= f@.len() - 1,
            f@.len() >= 2,
            fdv == f.deep_view(),
            fdv.len() == f@.len(),
            acc@ == join_path(fdv.take(k as int)),
            forall|t: int| 1 <= t <= k ==> join_path(fdv.take(t)) != name@,
        decreases f.len() - 1 - k,
    {
        proof {
            assert(fdv[k as int] == f@[k as int]@);
        }
        if k > 0 {
            acc.append("/");
            proof {
                reveal_strlit("/");
                assert("/"@ =~= seq!['/']);
            }
        }
        acc.append(f[k].as_str());
        proof {
            let t1 = fdv.take(k as int + 1);
            assert(t1.drop_last() =~= fdv.take(k as int));
            assert(t1.last() == fdv[k as int]);
            if k == 0 {
                assert(acc@ =~= fdv[0]);
                assert(t1.len() == 1);
                assert(join_path(t1) == t1[0]);
            } else {
                assert(acc@ =~= join_path(fdv.take(k as int)) + seq!['/'] + fdv[k as int]);
            }
        }
        k = k + 1;
        if str_eq(acc.as_str(), name) {
            proof {
                assert(join_path(fdv.take(k as int)) == name@);
                assert(is_scope_prefix(fdv, name@));
            }
            return true;
        }
    }
    false
}

/// The media listing of the project called `project_name`: every in-scope
/// media file's relative path with its video flag, sorted ascending by path
/// in ordinal order.
pub fn get_project_images(
    files: &Vec<Vec<String>>,
    project_name: &str,
    show_video: bool,
) -> (r: ProjectImages)
    ensures
        r.name@ == project_name@,
        media_views(r.media_files@).to_multiset() == detail_views(
            files.deep_view(),
            project_name@,
            show_video,
        ).to_multiset(),
        sorted_by_path(r.media_files@),
{
    let ghost fdv = files.deep_view();
    let is_root = str_eq(project_name, "root");
    let mut out: Vec<MediaFile> = Vec::new();
    let mut i: usize = 0;
    proof {
        assert(fdv.take(0) =~= Seq::<Seq<Seq<char>>>::empty());
        assert(media_views(out@) =~= detail_views(fdv.take(0), project_name@, show_video));
    }
    while i < files.len()
        invariant
            i <= files.len(),
            fdv == files.deep_view(),
            fdv.len() == files@.len(),
            is_root == (project_name@ == "root"@),
            media_views(out@) == detail_views(fdv.take(i as int), project_name@, show_video),
        decreases files.len() - i,
    {
        let fi = &files[i];
        proof {
            assert(fdv[i as int] == files@[i as int].deep_view());
            assert(fdv.take(i as int + 1).drop_last() =~= fdv.take(i as int));
            assert(fdv.take(i as int + 1).last() == fdv[i as int]);
            assert(fi.deep_view().len() == fi@.len());
        }
        if fi.len() >= 1 {
            let scope_ok: bool = if is_root {
                fi.len() == 1
            } else {
                scope_match(fi, project_name)
            };
            proof {
                assert(scope_ok == in_scope(fdv[i as int], project_name@));
            }
            if scope_ok {
                proof {
                    assert(fi.deep_view()[fi@.len() - 1] == fi@[fi@.len() - 1]@);
                    assert(fi.deep_view().last() == fi.deep_view()[fi@.len() - 1]);
                }
                let fname = &fi[fi.len() - 1];
                if is_media_file_name(fname.as_str(), show_video) {
                    let isv = is_video_file_name(fname.as_str());
                    let path = join_slash(fi);
                    let ghost out0 = out@;
                    let m = MediaFile { path, is_video: isv };
                    out.push(m);
                    proof {
                        lemma_media_views_push(out0, m);
                        assert(detail_views(fdv.take(i as int + 1), project_name@, show_video)
                            =~= detail_views(fdv.take(i as int), project_name@, show_video).push(
                            (join_path(fdv[i as int]), is_video_name(fdv[i as int].last())),
                        ));
                    }
                }
            }
        }
        i = i + 1;
    }
    proof {
        assert(fdv.take(files@.len() as int) =~= fdv);
    }
    let sorted = sort_media(out);
    ProjectImages { name: project_name.to_owned(), media_files: sorted }
}

} // verus!
