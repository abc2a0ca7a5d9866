//! Project discovery over a snapshot of the directory tree.
//!
//! The snapshot is the sequence of all regular files under the base
//! directory, each as its relative path split into components. A project is
//! any directory (the base itself included, under the sentinel name `root`)
//! that directly contains at least one media file; its preview is the
//! lexicographically smallest file name among its direct image files, or the
//! placeholder when it has none.

use vstd::prelude::*;

verus! {

use crate::classify::{is_image_file_name, is_image_name, is_media_file_name, is_media_name};
use crate::order::{seq_lt, str_lt};
use crate::paths::{clone_path, contains_path, join_path, join_slash, parent_eq, parent_of};
use crate::sorting::{lemma_proj_views_push, sort_projects};
use crate::types::{Project, proj_views, sorted_by_name};

/// `f` is a file directly inside directory `d` (the empty `d` is the base).
pub open spec fn file_in_dir(f: Seq<Seq<char>>, d: Seq<Seq<char>>) -> bool {
    f.len() >= 1 && f.drop_last() == d
}

/// Directory `d` directly contains at least one media file of the snapshot.
pub open spec fn dir_has_media(files: Seq<Seq<Seq<char>>>, d: Seq<Seq<char>>, show_video: bool) -> bool {
    exists|i: int|
        0 <= i < files.len() && file_in_dir(#[trigger] files[i], d) && is_media_name(
            files[i].last(),
            show_video,
        )
}

/// The directories that hold media, in order of first appearance: the parent
/// of each media file, kept once.
pub open spec fn media_dirs_seq(files: Seq<Seq<Seq<char>>>, show_video: bool) -> Seq<Seq<Seq<char>>>
    decreases files.len(),
{
    if files.len() == 0 {
        Seq::empty()
    } else {
        let rest = media_dirs_seq(files.drop_last(), show_video);
        let f = files.last();
        if f.len() >= 1 && is_media_name(f.last(), show_video) && !rest.contains(f.drop_last()) {
            rest.push(f.drop_last())
        } else {
            rest
        }
    }
}

/// The smallest (ordinal order) file name among the direct image files of
/// `d`, if any. On equal names the earlier file wins, which cannot matter for
/// a snapshot of distinct paths.
pub open spec fn min_image_child(files: Seq<Seq<Seq<char>>>, d: Seq<Seq<char>>) -> Option<Seq<char>>
    decreases files.len(),
{
    if files.len() == 0 {
        Option::None
    } else {
        let rest = min_image_child(files.drop_last(), d);
        let f = files.last();
        if f.len() >= 1 && f.drop_last() == d && is_image_name(f.last()) {
            match rest {
                Option::None => Option::Some(f.last()),
                Option::Some(m) => if seq_lt(f.last(), m) {
                    Option::Some(f.last())
                } else {
                    Option::Some(m)
                },
            }
        } else {
            rest
        }
    }
}

/// The preview path of directory `d`: its smallest direct image file,
/// rendered relative to the base, or the placeholder.
pub open spec fn preview_of(files: Seq<Seq<Seq<char>>>, d: Seq<Seq<char>>) -> Seq<char> {
    match min_image_child(files, d) {
        Option::Some(n) => join_path(d.push(n)),
        Option::None => "placeholder.jpg"@,
    }
}

/// The name a directory is listed under: the sentinel for the base, its
/// joined relative path otherwise.
pub open spec fn proj_name(d: Seq<Seq<char>>) -> Seq<char> {
    if d.len() == 0 {
        "root"@
    } else {
        join_path(d)
    }
}

/// The projects of a snapshot, before sorting: one (name, preview) pair per
/// media directory, in order of first appearance.
pub open spec fn scan_views(files: Seq<Seq<Seq<char>>>, show_video: bool) -> Seq<
    (Seq<char>, Seq<char>),
> {
    media_dirs_seq(files, show_video).map_values(
        |d: Seq<Seq<char>>| (proj_name(d), preview_of(files, d)),
    )
}

/// The preview path for directory `d` over the whole snapshot.
pub fn preview_for(files: &Vec<Vec<String>>, d: &Vec<String>) -> (r: String)
    ensures
        r@ == preview_of(files.deep_view(), d.deep_view()),
{
    let ghost fdv = files.deep_view();
    let ghost ddv = d.deep_view();
    let mut best: Option<String> = None;
    let mut i: usize = 0;
    proof {
        assert(fdv.take(0) =~= Seq::<Seq<Seq<char>>>::empty());
    }
    while i < files.len()
        invariant
            i <= files.len(),
            fdv == files.deep_view(),
            ddv == d.deep_view(),
            fdv.len() == files@.len(),
            match best {
                Option::Some(b) => min_image_child(fdv.take(i as int), ddv) == Option::Some(b@),
                Option::None => min_image_child(fdv.take(i as int), ddv) is None,
            },
        decreases files.len() - i,
    {
        let fi = &files[i];
        proof {
            assert(fdv[i as int] == files@[i as int].deep_view());
            assert(fdv.take(i as int + 1).drop_last() =~= fdv.take(i as int));
            assert(fdv.take(i as int + 1).last() == fdv[i as int]);
        }
        if parent_eq(fi, d) {
            proof {
                assert(fi.deep_view()[fi@.len() - 1] == fi@[fi@.len() - 1]@);
                assert(fi.deep_view().last() == fi.deep_view()[fi@.len() - 1]);
            }
            let name = &fi[fi.len() - 1];
            if is_image_file_name(name.as_str()) {
                let replace: bool = if best.is_none() {
                    true
                } else {
                    str_lt(name.as_str(), best.as_ref().unwrap().as_str())
                };
                if replace {
                    best = Some(name.clone());
                }
            }
        }
        i = i + 1;
    }
    proof {
        assert(fdv.take(files@.len() as int) =~= fdv);
    }
    match best {
        Some(b) => {
            let mut full = clone_path(d);
            let ghost f0 = full@;
            let ghost f0dv = full.deep_view();
            full.push(b);
            proof {
                assert forall|t: int| 0 <= t < full.deep_view().len() implies full.deep_view()[t]
                    == ddv.push(b@)[t] by {
                    assert(full.deep_view()[t] == full@[t].deep_view());
                    if t < ddv.len() {
                        assert(full@[t] == f0[t]);
                        assert(f0dv[t] == f0[t].deep_view());
                    }
                }
                assert(full.deep_view() =~= ddv.push(b@));
            }
            join_slash(&full)
        },
        None => "placeholder.jpg".to_owned(),
    }
}

/// Scan the snapshot: one project per directory that directly holds media,
/// sorted ascending by name in ordinal order.
pub fn get_projects(files: &Vec<Vec<String>>, show_video: bool) -> (r: Vec<Project>)
    ensures
        proj_views(r@).to_multiset() == scan_views(files.deep_view(), show_video).to_multiset(),
        sorted_by_name(r@),
{
    let ghost fdv = files.deep_view();
    let mut dirs: Vec<Vec<String>> = Vec::new();
    let mut i: usize = 0;
    proof {
        assert(fdv.take(0) =~= Seq::<Seq<Seq<char>>>::empty());
        assert(dirs.deep_view() =~= media_dirs_seq(fdv.take(0), show_video));
    }
    while i < files.len()
        invariant
            i <= files.len(),
            fdv == files.deep_view(),
            fdv.len() == files@.len(),
            dirs.deep_view() == media_dirs_seq(fdv.take(i as int), show_video),
        decreases files.len() - i,
    {
        let ghost dirs0 = dirs.deep_view();
        let fi = &files[i];
        proof {
            assert(fdv[i as int] == files@[i as int].deep_view());
            assert(fdv.take(i as int + 1).drop_last() =~= fdv.take(i as int));
            assert(fdv.take(i as int + 1).last() == fdv[i as int]);
            assert(fi.deep_view().len() == fi@.len());
        }
        if fi.len() >= 1 {
            proof {
                assert(fi.deep_view()[fi@.len() - 1] == fi@[fi@.len() - 1]@);
                assert(fi.deep_view().last() == fi.deep_view()[fi@.len() - 1]);
            }
            let name = &fi[fi.len() - 1];
            if is_media_file_name(name.as_str(), show_video) {
                let parent = parent_of(fi);
                if !contains_path(&dirs, &parent) {
                    dirs.push(parent);
                    proof {
                        assert forall|t: int| 0 <= t < dirs@.len() implies dirs.deep_view()[t]
                            == dirs0.push(fdv[i as int].drop_last())[t] by {
                            assert(dirs.deep_view()[t] == dirs@[t].deep_view());
                        }
                        assert(dirs.deep_view() =~= dirs0.push(fdv[i as int].drop_last()));
                    }
                }
            }
        }
        i = i + 1;
    }
    proof {
        assert(fdv.take(files@.len() as int) =~= fdv);
    }
    let ghost dirs_dv = dirs.deep_view();
    let mut projs: Vec<Project> = Vec::new();
    let mut k: usize = 0;
    proof {
        assert(proj_views(projs@) =~= scan_views(fdv, show_video).take(0));
    }
    while k < dirs.len()
        invariant
            k <= dirs.len(),
            fdv == files.deep_view(),
            dirs_dv == dirs.deep_view(),
            dirs_dv == media_dirs_seq(fdv, show_video),
            dirs_dv.len() == dirs@.len(),
            proj_views(projs@) == scan_views(fdv, show_video).take(k as int),
        decreases dirs.len() - k,
    {
        let d = &dirs[k];
        proof {
            assert(dirs_dv[k as int] == dirs@[k as int].deep_view());
            assert(d.deep_view().len() == d@.len());
        }
        let name: String = if d.len() == 0 {
            "root".to_owned()
        } else {
            join_slash(d)
        };
        let preview = preview_for(files, d);
        let ghost projs0 = projs@;
        let p = Project { name, preview_image: preview };
        proof {
            assert(p.name@ == proj_name(dirs_dv[k as int]));
        }
        projs.push(p);
        proof {
            lemma_proj_views_push(projs0, p);
            assert(scan_views(fdv, show_video)[k as int] == (
                proj_name(dirs_dv[k as int]),
                preview_of(fdv, dirs_dv[k as int]),
            ));
            assert(scan_views(fdv, show_video).take(k as int + 1) =~= scan_views(
                fdv,
                show_video,
            ).take(k as int).push(scan_views(fdv, show_video)[k as int]));
        }
        k = k + 1;
    }
    proof {
        assert(scan_views(fdv, show_video).len() == dirs_dv.len());
        assert(scan_views(fdv, show_video).take(dirs@.len() as int) =~= scan_views(
            fdv,
            show_video,
        ));
    }
    sort_projects(projs)
}

} // verus!
