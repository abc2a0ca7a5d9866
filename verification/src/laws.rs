//! The library's laws: properties that relate the scanner, the resolver and
//! the classifier, stated over the same spec functions their contracts use,
//! and proved once and for all.

use vstd::prelude::*;

verus! {

use crate::classify::{
    eqi,
    eqi_char,
    ext_of,
    is_image_ext,
    is_image_name,
    is_media_name,
    is_video_ext,
    is_video_name,
};
use crate::detail::{detail_views, in_scope};
use crate::order::{lemma_char_cast_injective, lemma_seq_lt_total, seq_le, seq_lt};
use crate::paths::{join_path, lemma_join_injective, valid_component, valid_path};
use crate::scan::{
    dir_has_media,
    file_in_dir,
    media_dirs_seq,
    min_image_child,
    preview_of,
    proj_name,
    scan_views,
};
use crate::types::{Project, proj_view, proj_views, sorted_by_name};

/// A well-formed snapshot: every entry is a non-empty valid component path.
pub open spec fn snapshot_valid(files: Seq<Seq<Seq<char>>>) -> bool {
    forall|i: int|
        0 <= i < files.len() ==> valid_path(#[trigger] files[i]) && files[i].len() >= 1
}

/// The known ambiguity of the sentinel: the base directory and a top-level
/// subdirectory literally called `root` both hold media, so two projects
/// share the name.
pub open spec fn root_collision(files: Seq<Seq<Seq<char>>>, show_video: bool) -> bool {
    dir_has_media(files, Seq::empty(), show_video) && dir_has_media(
        files,
        seq!["root"@],
        show_video,
    )
}

/// Two case-insensitive matches against lower-case patterns of equal length
/// agree position by position.
proof fn lemma_eqi_same_at(e: Seq<char>, b1: Seq<char>, b2: Seq<char>, i: int)
    requires
        eqi(e, b1),
        eqi(e, b2),
        0 <= i < b1.len(),
        b1.len() == b2.len(),
        97 <= b1[i] as u32 <= 122,
        97 <= b2[i] as u32 <= 122,
    ensures
        b1[i] == b2[i],
{
    assert(eqi_char(e[i], b1[i]));
    assert(eqi_char(e[i], b2[i]));
    lemma_char_cast_injective(e[i], b1[i]);
    lemma_char_cast_injective(e[i], b2[i]);
    lemma_char_cast_injective(b1[i], b2[i]);
}

/// No extension is both a recognized image and a recognized video extension.
pub proof fn lemma_image_video_disjoint(e: Seq<char>)
    ensures
        !(is_image_ext(e) && is_video_ext(e)),
{
    reveal_strlit("jpg");
    reveal_strlit("jpeg");
    reveal_strlit("png");
    reveal_strlit("gif");
    reveal_strlit("webp");
    reveal_strlit("mp4");
    reveal_strlit("webm");
    reveal_strlit("ogg");
    reveal_strlit("mov");
    if is_image_ext(e) && is_video_ext(e) {
        if eqi(e, "jpg"@) {
            if eqi(e, "mp4"@) {
                lemma_eqi_same_at(e, "jpg"@, "mp4"@, 0);
            }
            if eqi(e, "ogg"@) {
                lemma_eqi_same_at(e, "jpg"@, "ogg"@, 0);
            }
            if eqi(e, "mov"@) {
                lemma_eqi_same_at(e, "jpg"@, "mov"@, 0);
            }
        } else if eqi(e, "jpeg"@) {
            if eqi(e, "webm"@) {
                lemma_eqi_same_at(e, "jpeg"@, "webm"@, 0);
            }
        } else if eqi(e, "png"@) {
            if eqi(e, "mp4"@) {
                lemma_eqi_same_at(e, "png"@, "mp4"@, 0);
            }
            if eqi(e, "ogg"@) {
                lemma_eqi_same_at(e, "png"@, "ogg"@, 0);
            }
            if eqi(e, "mov"@) {
                lemma_eqi_same_at(e, "png"@, "mov"@, 0);
            }
        } else if eqi(e, "gif"@) {
            if eqi(e, "mp4"@) {
                lemma_eqi_same_at(e, "gif"@, "mp4"@, 0);
            }
            if eqi(e, "ogg"@) {
                lemma_eqi_same_at(e, "gif"@, "ogg"@, 0);
            }
            if eqi(e, "mov"@) {
                lemma_eqi_same_at(e, "gif"@, "mov"@, 0);
            }
        } else {
            if eqi(e, "webm"@) {
                lemma_eqi_same_at(e, "webp"@, "webm"@, 3);
            }
        }
    }
}

/// A file name is never both an image and a video.
pub proof fn lemma_image_video_name_disjoint(name: Seq<char>)
    ensures
        !(is_image_name(name) && is_video_name(name)),
{
    if is_image_name(name) && is_video_name(name) {
        let e = ext_of(name).unwrap();
        lemma_image_video_disjoint(e);
    }
}

/// With video support disabled, media detection is exactly image detection:
/// video files play no part in whether a directory is a project.
pub proof fn lemma_video_disabled_detection(
    files: Seq<Seq<Seq<char>>>,
    d: Seq<Seq<char>>,
)
    ensures
        dir_has_media(files, d, false) <==> exists|i: int|
            0 <= i < files.len() && file_in_dir(#[trigger] files[i], d) && is_image_name(
                files[i].last(),
            ),
{
}

/// With video support disabled, no listing entry is flagged as a video.
pub proof fn lemma_video_disabled_detail(files: Seq<Seq<Seq<char>>>, name: Seq<char>)
    ensures
        forall|t: int|
            0 <= t < detail_views(files, name, false).len() ==> !(#[trigger] detail_views(
                files,
                name,
                false,
            )[t].1),
    decreases files.len(),
{
    if files.len() > 0 {
        lemma_video_disabled_detail(files.drop_last(), name);
        let rest = detail_views(files.drop_last(), name, false);
        let f = files.last();
        if f.len() >= 1 && in_scope(f, name) && is_media_name(f.last(), false) {
            lemma_image_video_name_disjoint(f.last());
            assert(!is_video_name(f.last()));
            assert forall|t: int| 0 <= t < detail_views(files, name, false).len() implies !(
            #[trigger] detail_views(files, name, false)[t].1) by {
                if t < rest.len() {
                    assert(detail_views(files, name, false)[t] == rest[t]);
                }
            }
        }
    }
}

/// What `min_image_child` finds: a direct image child of least name, if the
/// directory has any direct image child at all.
pub proof fn lemma_min_image_child(files: Seq<Seq<Seq<char>>>, d: Seq<Seq<char>>)
    ensures
        match min_image_child(files, d) {
            Option::Some(m) => (exists|i: int|
                0 <= i < files.len() && file_in_dir(#[trigger] files[i], d) && is_image_name(
                    files[i].last(),
                ) && files[i].last() == m) && (forall|i: int|
                0 <= i < files.len() && file_in_dir(#[trigger] files[i], d) && is_image_name(
                    files[i].last(),
                ) ==> seq_le(m, files[i].last())),
            Option::None => forall|i: int|
                0 <= i < files.len() ==> !(file_in_dir(#[trigger] files[i], d) && is_image_name(
                    files[i].last(),
                )),
        },
    decreases files.len(),
{
    if files.len() > 0 {
        lemma_min_image_child(files.drop_last(), d);
        let rest = min_image_child(files.drop_last(), d);
        let f = files.last();
        assert(forall|i: int| 0 <= i < files.len() - 1 ==> files.drop_last()[i] == files[i]);
        if f.len() >= 1 && f.drop_last() == d && is_image_name(f.last()) {
            match rest {
                Option::None => {
                    assert(files[files.len() - 1] == f);
                },
                Option::Some(m) => {
                    lemma_seq_lt_total(f.last(), m);
                    if seq_lt(f.last(), m) {
                        assert forall|i: int|
                            0 <= i < files.len() && file_in_dir(#[trigger] files[i], d)
                                && is_image_name(files[i].last()) implies seq_le(
                            f.last(),
                            files[i].last(),
                        ) by {
                            if i < files.len() - 1 {
                                assert(seq_le(m, files[i].last()));
                                crate::order::lemma_seq_le_trans(f.last(), m, files[i].last());
                            }
                        }
                    }
                },
            }
        }
    }
}

/// The preview rule: a directory with at least one direct image file gets
/// the full relative path of the one with the smallest name; a directory
/// with none (no media, or videos only) gets the placeholder.
pub proof fn lemma_preview_selection(files: Seq<Seq<Seq<char>>>, d: Seq<Seq<char>>)
    ensures
        (exists|i: int|
            0 <= i < files.len() && file_in_dir(#[trigger] files[i], d) && is_image_name(
                files[i].last(),
            )) ==> (exists|m: Seq<char>|
            {
                &&& preview_of(files, d) == join_path(d.push(m))
                &&& (exists|i: int|
                    0 <= i < files.len() && file_in_dir(#[trigger] files[i], d) && is_image_name(
                        files[i].last(),
                    ) && files[i].last() == m)
                &&& (forall|i: int|
                    0 <= i < files.len() && file_in_dir(#[trigger] files[i], d) && is_image_name(
                        files[i].last(),
                    ) ==> seq_le(m, files[i].last()))
            }),
        (forall|i: int|
            0 <= i < files.len() ==> !(file_in_dir(#[trigger] files[i], d) && is_image_name(
                files[i].last(),
            ))) ==> preview_of(files, d) == "placeholder.jpg"@,
{
    lemma_min_image_child(files, d);
    match min_image_child(files, d) {
        Option::Some(m) => {
            assert(preview_of(files, d) == join_path(d.push(m)));
        },
        Option::None => {
        },
    }
}

/// `x` is the listing entry of some in-scope media file of the snapshot.
pub open spec fn detail_entry_witness(
    files: Seq<Seq<Seq<char>>>,
    name: Seq<char>,
    show_video: bool,
    x: (Seq<char>, bool),
) -> bool {
    exists|i: int|
        0 <= i < files.len() && files[i].len() >= 1 && in_scope(#[trigger] files[i], name)
            && is_media_name(files[i].last(), show_video) && x == (
            join_path(files[i]),
            is_video_name(files[i].last()),
        )
}

/// What a detail listing holds, both ways: every entry is an in-scope media
/// file of the snapshot, and every in-scope media file appears.
pub proof fn lemma_detail_views_characterization(
    files: Seq<Seq<Seq<char>>>,
    name: Seq<char>,
    show_video: bool,
)
    ensures
        forall|t: int|
            0 <= t < detail_views(files, name, show_video).len() ==> detail_entry_witness(
                files,
                name,
                show_video,
                #[trigger] detail_views(files, name, show_video)[t],
            ),
        forall|i: int|
            0 <= i < files.len() && files[i].len() >= 1 && in_scope(#[trigger] files[i], name)
                && is_media_name(files[i].last(), show_video) ==> detail_views(
                files,
                name,
                show_video,
            ).contains((join_path(files[i]), is_video_name(files[i].last()))),
    decreases files.len(),
{
    if files.len() > 0 {
        lemma_detail_views_characterization(files.drop_last(), name, show_video);
        let prev = files.drop_last();
        let rest = detail_views(prev, name, show_video);
        let dv = detail_views(files, name, show_video);
        let f = files.last();
        assert(forall|i: int| 0 <= i < files.len() - 1 ==> prev[i] == files[i]);
        assert(files[files.len() - 1] == f);
        let pushed = f.len() >= 1 && in_scope(f, name) && is_media_name(f.last(), show_video);
        assert forall|t: int| 0 <= t < dv.len() implies detail_entry_witness(
            files,
            name,
            show_video,
            #[trigger] dv[t],
        ) by {
            if t < rest.len() {
                assert(dv[t] == rest[t]);
                assert(detail_entry_witness(prev, name, show_video, rest[t]));
                let i = choose|i: int|
                    0 <= i < prev.len() && prev[i].len() >= 1 && in_scope(
                        #[trigger] prev[i],
                        name,
                    ) && is_media_name(prev[i].last(), show_video) && rest[t] == (
                        join_path(prev[i]),
                        is_video_name(prev[i].last()),
                    );
                assert(prev[i] == files[i]);
                assert(0 <= i < files.len() && files[i].len() >= 1 && in_scope(files[i], name)
                    && is_media_name(files[i].last(), show_video) && dv[t] == (
                    join_path(files[i]),
                    is_video_name(files[i].last()),
                ));
            } else {
                assert(pushed);
                assert(dv[t] == (join_path(f), is_video_name(f.last())));
                assert(0 <= files.len() - 1 < files.len() && files[files.len() - 1].len() >= 1
                    && in_scope(files[files.len() - 1], name) && is_media_name(
                    files[files.len() - 1].last(),
                    show_video,
                ) && dv[t] == (
                    join_path(files[files.len() - 1]),
                    is_video_name(files[files.len() - 1].last()),
                ));
            }
        }
        assert forall|i: int|
            0 <= i < files.len() && files[i].len() >= 1 && in_scope(#[trigger] files[i], name)
                && is_media_name(files[i].last(), show_video) implies dv.contains(
            (join_path(files[i]), is_video_name(files[i].last())),
        ) by {
            let x = (join_path(files[i]), is_video_name(files[i].last()));
            if i < files.len() - 1 {
                assert(prev[i] == files[i]);
                assert(rest.contains(x));
                let t = choose|t: int| 0 <= t < rest.len() && rest[t] == x;
                assert(dv[t] == x);
            } else {
                assert(pushed);
                assert(dv[dv.len() - 1] == (join_path(f), is_video_name(f.last())));
            }
        }
    }
}

/// The scanner's candidate list holds a directory exactly when it directly
/// holds media.
pub proof fn lemma_media_dirs_iff(files: Seq<Seq<Seq<char>>>, show_video: bool, d: Seq<Seq<char>>)
    ensures
        media_dirs_seq(files, show_video).contains(d) <==> dir_has_media(files, d, show_video),
    decreases files.len(),
{
    if files.len() > 0 {
        lemma_media_dirs_iff(files.drop_last(), show_video, d);
        let prev = files.drop_last();
        let rest = media_dirs_seq(prev, show_video);
        let mds = media_dirs_seq(files, show_video);
        let f = files.last();
        assert(forall|i: int| 0 <= i < files.len() - 1 ==> prev[i] == files[i]);
        assert(files[files.len() - 1] == f);
        let pushed = f.len() >= 1 && is_media_name(f.last(), show_video) && !rest.contains(
            f.drop_last(),
        );
        if mds.contains(d) {
            let t = choose|t: int| 0 <= t < mds.len() && mds[t] == d;
            if pushed && t == rest.len() {
                assert(d == f.drop_last());
                assert(file_in_dir(files[files.len() - 1], d));
                assert(dir_has_media(files, d, show_video));
            } else {
                assert(mds[t] == rest[t]);
                assert(rest.contains(d));
                assert(dir_has_media(prev, d, show_video));
                let i = choose|i: int|
                    0 <= i < prev.len() && file_in_dir(#[trigger] prev[i], d) && is_media_name(
                        prev[i].last(),
                        show_video,
                    );
                assert(file_in_dir(files[i], d));
                assert(dir_has_media(files, d, show_video));
            }
        }
        if dir_has_media(files, d, show_video) {
            let i = choose|i: int|
                0 <= i < files.len() && file_in_dir(#[trigger] files[i], d) && is_media_name(
                    files[i].last(),
                    show_video,
                );
            if i < files.len() - 1 {
                assert(file_in_dir(prev[i], d));
                assert(dir_has_media(prev, d, show_video));
                assert(rest.contains(d));
                let t = choose|t: int| 0 <= t < rest.len() && rest[t] == d;
                assert(mds[t] == d);
                assert(mds.contains(d));
            } else {
                assert(d == f.drop_last());
                if rest.contains(d) {
                    let t = choose|t: int| 0 <= t < rest.len() && rest[t] == d;
                    assert(mds[t] == d);
                    assert(mds.contains(d));
                } else {
                    assert(pushed);
                    assert(mds[rest.len() as int] == d);
                    assert(mds.contains(d));
                }
            }
        }
    }
}

/// The candidate list never repeats a directory.
pub proof fn lemma_media_dirs_no_dup(files: Seq<Seq<Seq<char>>>, show_video: bool)
    ensures
        media_dirs_seq(files, show_video).no_duplicates(),
    decreases files.len(),
{
    if files.len() > 0 {
        lemma_media_dirs_no_dup(files.drop_last(), show_video);
        let rest = media_dirs_seq(files.drop_last(), show_video);
        let mds = media_dirs_seq(files, show_video);
        let f = files.last();
        if f.len() >= 1 && is_media_name(f.last(), show_video) && !rest.contains(f.drop_last()) {
            assert forall|t1: int, t2: int|
                0 <= t1 < mds.len() && 0 <= t2 < mds.len() && t1 != t2 implies mds[t1]
                != mds[t2] by {
                if t1 < rest.len() && t2 < rest.len() {
                    assert(mds[t1] == rest[t1] && mds[t2] == rest[t2]);
                } else if t1 < rest.len() {
                    assert(mds[t2] == f.drop_last() && mds[t1] == rest[t1]);
                    if rest[t1] == f.drop_last() {
                        assert(rest.contains(f.drop_last()));
                    }
                } else {
                    assert(mds[t1] == f.drop_last() && mds[t2] == rest[t2]);
                    if rest[t2] == f.drop_last() {
                        assert(rest.contains(f.drop_last()));
                    }
                }
            }
        }
    }
}

/// A directory that holds media in a valid snapshot is itself a valid path.
pub proof fn lemma_media_dir_valid(files: Seq<Seq<Seq<char>>>, show_video: bool, d: Seq<Seq<char>>)
    requires
        snapshot_valid(files),
        dir_has_media(files, d, show_video),
    ensures
        valid_path(d),
{
    let i = choose|i: int|
        0 <= i < files.len() && file_in_dir(#[trigger] files[i], d) && is_media_name(
            files[i].last(),
            show_video,
        );
    assert(files[i].drop_last() == d);
    assert(valid_path(files[i]));
    assert forall|c: int| 0 <= c < d.len() implies valid_component(#[trigger] d[c]) by {
        assert(d[c] == files[i][c]);
    }
}

/// Project names are distinct across distinct media directories, as long as
/// the sentinel does not collide with a real top-level `root` directory.
pub proof fn lemma_proj_name_injective(
    files: Seq<Seq<Seq<char>>>,
    show_video: bool,
    d1: Seq<Seq<char>>,
    d2: Seq<Seq<char>>,
)
    requires
        snapshot_valid(files),
        !root_collision(files, show_video),
        dir_has_media(files, d1, show_video),
        dir_has_media(files, d2, show_video),
        proj_name(d1) == proj_name(d2),
    ensures
        d1 == d2,
{
    lemma_media_dir_valid(files, show_video, d1);
    lemma_media_dir_valid(files, show_video, d2);
    reveal_strlit("root");
    let rd: Seq<Seq<char>> = seq!["root"@];
    assert(valid_path(rd)) by {
        assert(rd[0] == "root"@);
        assert(rd[0].len() == 4);
        assert(valid_component(rd[0]));
    }
    assert(join_path(rd) == "root"@);
    if d1.len() == 0 && d2.len() == 0 {
        assert(d1 =~= d2);
    } else if d1.len() == 0 {
        assert(join_path(d2) == "root"@);
        lemma_join_injective(d2, rd);
        assert(d1 =~= Seq::<Seq<char>>::empty());
        assert(root_collision(files, show_video));
    } else if d2.len() == 0 {
        assert(join_path(d1) == "root"@);
        lemma_join_injective(d1, rd);
        assert(d2 =~= Seq::<Seq<char>>::empty());
        assert(root_collision(files, show_video));
    } else {
        lemma_join_injective(d1, d2);
    }
}

/// Each scan entry is the (name, preview) pair of its media directory.
pub proof fn lemma_scan_views_entry(files: Seq<Seq<Seq<char>>>, show_video: bool, t: int)
    requires
        0 <= t < scan_views(files, show_video).len(),
    ensures
        dir_has_media(files, media_dirs_seq(files, show_video)[t], show_video),
        scan_views(files, show_video)[t] == (
            proj_name(media_dirs_seq(files, show_video)[t]),
            preview_of(files, media_dirs_seq(files, show_video)[t]),
        ),
{
    let mds = media_dirs_seq(files, show_video);
    assert(mds.contains(mds[t]));
    lemma_media_dirs_iff(files, show_video, mds[t]);
}

/// Distinct scan entries carry distinct names (without the sentinel
/// collision); in particular the scan views have no duplicates.
pub proof fn lemma_scan_views_no_dup(files: Seq<Seq<Seq<char>>>, show_video: bool)
    requires
        snapshot_valid(files),
        !root_collision(files, show_video),
    ensures
        forall|t1: int, t2: int|
            #![trigger scan_views(files, show_video)[t1], scan_views(files, show_video)[t2]]
            0 <= t1 < scan_views(files, show_video).len() && 0 <= t2 < scan_views(
                files,
                show_video,
            ).len() && t1 != t2 ==> scan_views(files, show_video)[t1].0 != scan_views(
                files,
                show_video,
            )[t2].0,
        scan_views(files, show_video).no_duplicates(),
{
    let sv = scan_views(files, show_video);
    let mds = media_dirs_seq(files, show_video);
    lemma_media_dirs_no_dup(files, show_video);
    assert forall|t1: int, t2: int|
        #![trigger sv[t1], sv[t2]]
        0 <= t1 < sv.len() && 0 <= t2 < sv.len() && t1 != t2 implies sv[t1].0 != sv[t2].0 by {
        lemma_scan_views_entry(files, show_video, t1);
        lemma_scan_views_entry(files, show_video, t2);
        if sv[t1].0 == sv[t2].0 {
            lemma_proj_name_injective(files, show_video, mds[t1], mds[t2]);
        }
    }
}

/// `x` is the (name, preview) pair of some directory that holds media.
pub open spec fn scan_entry_witness(
    files: Seq<Seq<Seq<char>>>,
    show_video: bool,
    x: (Seq<char>, Seq<char>),
) -> bool {
    exists|d: Seq<Seq<char>>|
        #[trigger] dir_has_media(files, d, show_video) && x == (proj_name(d), preview_of(files, d))
}

/// Every entry of a scan result (any multiset-equal rearrangement of the
/// scan views, such as the sorted result) is the (name, preview) pair of
/// some directory that directly holds media: the scanner invents nothing.
pub proof fn lemma_scan_result_entries(
    files: Seq<Seq<Seq<char>>>,
    show_video: bool,
    ps: Seq<(Seq<char>, Seq<char>)>,
)
    requires
        ps.to_multiset() == scan_views(files, show_video).to_multiset(),
    ensures
        forall|t: int|
            0 <= t < ps.len() ==> scan_entry_witness(files, show_video, #[trigger] ps[t]),
{
    let sv = scan_views(files, show_video);
    let mds = media_dirs_seq(files, show_video);
    sv.to_multiset_ensures();
    ps.to_multiset_ensures();
    assert forall|t: int| 0 <= t < ps.len() implies scan_entry_witness(
        files,
        show_video,
        #[trigger] ps[t],
    ) by {
        assert(ps.contains(ps[t]));
        assert(sv.to_multiset().count(ps[t]) > 0);
        assert(sv.contains(ps[t]));
        let k = choose|k: int| 0 <= k < sv.len() && sv[k] == ps[t];
        lemma_scan_views_entry(files, show_video, k);
        assert(dir_has_media(files, mds[k], show_video) && ps[t] == (
            proj_name(mds[k]),
            preview_of(files, mds[k]),
        ));
    }
}

/// Every directory that directly holds media appears in any scan result:
/// the scanner misses nothing.
pub proof fn lemma_scan_result_complete(
    files: Seq<Seq<Seq<char>>>,
    show_video: bool,
    d: Seq<Seq<char>>,
    ps: Seq<(Seq<char>, Seq<char>)>,
)
    requires
        ps.to_multiset() == scan_views(files, show_video).to_multiset(),
        dir_has_media(files, d, show_video),
    ensures
        exists|t: int|
            0 <= t < ps.len() && #[trigger] ps[t] == (proj_name(d), preview_of(files, d)),
{
    let sv = scan_views(files, show_video);
    let mds = media_dirs_seq(files, show_video);
    let target = (proj_name(d), preview_of(files, d));
    sv.to_multiset_ensures();
    ps.to_multiset_ensures();
    lemma_media_dirs_iff(files, show_video, d);
    assert(mds.contains(d));
    let k = choose|k: int| 0 <= k < mds.len() && mds[k] == d;
    assert(sv[k] == target);
    assert(sv.contains(target));
    assert(ps.to_multiset().count(target) > 0);
    assert(ps.contains(target));
    let te = choose|t: int| 0 <= t < ps.len() && ps[t] == target;
    assert(0 <= te < ps.len() && ps[te] == target);
}

/// Exactly one project per directory that directly holds media: any
/// multiset-equal rearrangement of the scan views (such as the sorted scan
/// result) lists the directory's (name, preview) pair at exactly one
/// position, and no other entry carries that name.
pub proof fn lemma_scan_exactly_one(
    files: Seq<Seq<Seq<char>>>,
    show_video: bool,
    d: Seq<Seq<char>>,
    ps: Seq<(Seq<char>, Seq<char>)>,
)
    requires
        snapshot_valid(files),
        !root_collision(files, show_video),
        ps.to_multiset() == scan_views(files, show_video).to_multiset(),
        dir_has_media(files, d, show_video),
    ensures
        exists|t: int|
            0 <= t < ps.len() && #[trigger] ps[t] == (proj_name(d), preview_of(files, d)),
        forall|t1: int, t2: int|
            #![trigger ps[t1], ps[t2]]
            0 <= t1 < ps.len() && 0 <= t2 < ps.len() && ps[t1].0 == proj_name(d) && ps[t2].0
                == proj_name(d) ==> t1 == t2,
{
    let sv = scan_views(files, show_video);
    let mds = media_dirs_seq(files, show_video);
    let target = (proj_name(d), preview_of(files, d));
    sv.to_multiset_ensures();
    ps.to_multiset_ensures();
    lemma_scan_result_complete(files, show_video, d, ps);
    lemma_scan_views_no_dup(files, show_video);
    sv.lemma_multiset_has_no_duplicates();
    ps.lemma_multiset_has_no_duplicates_conv();
    assert forall|t1: int, t2: int|
        #![trigger ps[t1], ps[t2]]
        0 <= t1 < ps.len() && 0 <= t2 < ps.len() && ps[t1].0 == proj_name(d) && ps[t2].0
            == proj_name(d) implies t1 == t2 by {
        assert(ps.contains(ps[t1]));
        assert(sv.to_multiset().count(ps[t1]) > 0);
        assert(sv.contains(ps[t1]));
        let k1 = choose|k1: int| 0 <= k1 < sv.len() && sv[k1] == ps[t1];
        lemma_scan_views_entry(files, show_video, k1);
        lemma_proj_name_injective(files, show_video, mds[k1], d);
        assert(ps[t1] == target);
        assert(ps.contains(ps[t2]));
        assert(sv.to_multiset().count(ps[t2]) > 0);
        assert(sv.contains(ps[t2]));
        let k2 = choose|k2: int| 0 <= k2 < sv.len() && sv[k2] == ps[t2];
        lemma_scan_views_entry(files, show_video, k2);
        lemma_proj_name_injective(files, show_video, mds[k2], d);
        assert(ps[t2] == target);
    }
}

/// The scan result is strictly ordered by name: weak sortedness and the
/// multiset equality force strictness (the sentinel collision aside), the
/// root pseudo-project participating like any other.
pub proof fn lemma_scan_strictly_sorted(
    files: Seq<Seq<Seq<char>>>,
    show_video: bool,
    rs: Seq<Project>,
)
    requires
        snapshot_valid(files),
        !root_collision(files, show_video),
        proj_views(rs).to_multiset() == scan_views(files, show_video).to_multiset(),
        sorted_by_name(rs),
    ensures
        forall|i: int, j: int|
            #![trigger rs[i], rs[j]]
            0 <= i < j < rs.len() ==> seq_lt(rs[i].name@, rs[j].name@),
{
    let ps = proj_views(rs);
    let sv = scan_views(files, show_video);
    let mds = media_dirs_seq(files, show_video);
    sv.to_multiset_ensures();
    ps.to_multiset_ensures();
    lemma_scan_views_no_dup(files, show_video);
    sv.lemma_multiset_has_no_duplicates();
    ps.lemma_multiset_has_no_duplicates_conv();
    assert forall|i: int, j: int|
        #![trigger rs[i], rs[j]]
        0 <= i < j < rs.len() implies seq_lt(rs[i].name@, rs[j].name@) by {
        assert(seq_le(rs[i].name@, rs[j].name@));
        if !seq_lt(rs[i].name@, rs[j].name@) {
            assert(rs[i].name@ == rs[j].name@);
            assert(ps[i] == proj_view(rs[i]));
            assert(ps[j] == proj_view(rs[j]));
            assert(ps.contains(ps[i]));
            assert(sv.to_multiset().count(ps[i]) > 0);
            assert(sv.contains(ps[i]));
            let k1 = choose|k1: int| 0 <= k1 < sv.len() && sv[k1] == ps[i];
            lemma_scan_views_entry(files, show_video, k1);
            assert(ps.contains(ps[j]));
            assert(sv.to_multiset().count(ps[j]) > 0);
            assert(sv.contains(ps[j]));
            let k2 = choose|k2: int| 0 <= k2 < sv.len() && sv[k2] == ps[j];
            lemma_scan_views_entry(files, show_video, k2);
            lemma_proj_name_injective(files, show_video, mds[k1], mds[k2]);
            assert(sv[k1] == sv[k2]);
            assert(ps[i] == ps[j]);
        }
    }
}

} // verus!
