//! Media classification: mapping a filename extension, case-insensitively,
//! to Image / Video / Unsupported, gated by a video-enabled flag.

use vstd::prelude::*;

verus! {

/// The classification of a file by its extension.
#[derive(Clone, Copy, Debug, PartialEq, Eq, Structural)]
pub enum MediaClass {
    Image,
    Video,
    Unsupported,
}

/// `a` matches `b` ignoring ASCII case on `a`'s side: `b` is expected to be
/// a lower-case letter or digit, and an upper-case ASCII `a` matches its
/// lower-case counterpart.
pub open spec fn eqi_char(a: char, b: char) -> bool {
    a == b || (65 <= a as u32 && a as u32 <= 90 && a as u32 + 32 == b as u32)
}

/// Case-insensitive (on the left side) match of a whole sequence against a
/// lower-case pattern.
pub open spec fn eqi(a: Seq<char>, b: Seq<char>) -> bool {
    a.len() == b.len() && forall|i: int| 0 <= i < a.len() ==> eqi_char(a[i], b[i])
}

/// The recognized image extensions, matched case-insensitively.
pub open spec fn is_image_ext(e: Seq<char>) -> bool {
    ||| eqi(e, "jpg"@)
    ||| eqi(e, "jpeg"@)
    ||| eqi(e, "png"@)
    ||| eqi(e, "gif"@)
    ||| eqi(e, "webp"@)
}

/// The recognized video extensions, matched case-insensitively.
pub open spec fn is_video_ext(e: Seq<char>) -> bool {
    ||| eqi(e, "mp4"@)
    ||| eqi(e, "webm"@)
    ||| eqi(e, "ogg"@)
    ||| eqi(e, "mov"@)
}

/// An extension counts as media when it is an image, or a video while video
/// support is enabled.
pub open spec fn is_media_ext(e: Seq<char>, show_video: bool) -> bool {
    is_image_ext(e) || (show_video && is_video_ext(e))
}

/// The classifier: images always win (the image and video sets are disjoint),
/// videos only count when enabled, everything else is unsupported.
pub open spec fn spec_classify(e: Seq<char>, video_enabled: bool) -> MediaClass {
    if is_image_ext(e) {
        MediaClass::Image
    } else if video_enabled && is_video_ext(e) {
        MediaClass::Video
    } else {
        MediaClass::Unsupported
    }
}

fn char_eqi(a: char, b: char) -> (r: bool)
    ensures
        r == eqi_char(a, b),
{
    a == b || (65 <= a as u32 && a as u32 <= 90 && a as u32 + 32 == b as u32)
}

fn str_eqi(a: &str, b: &str) -> (r: bool)
    ensures
        r == eqi(a@, b@),
{
    let alen = a.unicode_len();
    let blen = b.unicode_len();
    if alen != blen {
        return false;
    }
    let mut i: usize = 0;
    while i < alen
        invariant
            i <= alen,
            alen == a@.len(),
            alen == b@.len(),
            forall|j: int| 0 <= j < i ==> eqi_char(a@[j], b@[j]),
        decreases alen - i,
    {
        if !char_eqi(a.get_char(i), b.get_char(i)) {
            return false;
        }
        i = i + 1;
    }
    true
}

/// Whether `ext` is a recognized image extension (case-insensitive).
pub fn is_supported_image(ext: &str) -> (r: bool)
    ensures
        r == is_image_ext(ext@),
{
    str_eqi(ext, "jpg") || str_eqi(ext, "jpeg") || str_eqi(ext, "png") || str_eqi(ext, "gif")
        || str_eqi(ext, "webp")
}

/// Whether `ext` is a recognized video extension (case-insensitive).
pub fn is_supported_video(ext: &str) -> (r: bool)
    ensures
        r == is_video_ext(ext@),
{
    str_eqi(ext, "mp4") || str_eqi(ext, "webm") || str_eqi(ext, "ogg") || str_eqi(ext, "mov")
}

/// Whether `ext` names media at all: an image, or a video when `show_video`.
pub fn is_supported_media(ext: &str, show_video: bool) -> (r: bool)
    ensures
        r == is_media_ext(ext@, show_video),
{
    is_supported_image(ext) || (show_video && is_supported_video(ext))
}

/// The extension of a file name: the characters after the last dot, provided
/// that dot is not the leading character; `None` when there is no such dot.
pub open spec fn ext_of(name: Seq<char>) -> Option<Seq<char>>
    decreases name.len(),
{
    if name.len() <= 1 {
        Option::None
    } else if name.last() == '.' {
        Option::Some(Seq::empty())
    } else {
        match ext_of(name.drop_last()) {
            Option::Some(e) => Option::Some(e.push(name.last())),
            Option::None => Option::None,
        }
    }
}

/// A file name with a recognized image extension.
pub open spec fn is_image_name(name: Seq<char>) -> bool {
    match ext_of(name) {
        Option::Some(e) => is_image_ext(e),
        Option::None => false,
    }
}

/// A file name with a recognized video extension (independent of the flag).
pub open spec fn is_video_name(name: Seq<char>) -> bool {
    match ext_of(name) {
        Option::Some(e) => is_video_ext(e),
        Option::None => false,
    }
}

/// A file name that counts as media: an image, or a video when enabled.
pub open spec fn is_media_name(name: Seq<char>, show_video: bool) -> bool {
    is_image_name(name) || (show_video && is_video_name(name))
}

/// Classification of a whole file name.
pub open spec fn classify_name(name: Seq<char>, video_enabled: bool) -> MediaClass {
    match ext_of(name) {
        Option::Some(e) => spec_classify(e, video_enabled),
        Option::None => MediaClass::Unsupported,
    }
}

/// If the last dot of `name` sits at index `i >= 1`, the extension is
/// everything after it.
proof fn lemma_ext_of_some(name: Seq<char>, i: int)
    requires
        1 <= i < name.len(),
        name[i] == '.',
        forall|j: int| i < j < name.len() ==> name[j] != '.',
    ensures
        ext_of(name) == Option::Some(name.skip(i + 1)),
    decreases name.len(),
{
    if i == name.len() - 1 {
        assert(name.last() == '.');
        assert(name.skip(i + 1) =~= Seq::<char>::empty());
    } else {
        assert(name.last() != '.');
        let d = name.drop_last();
        assert(d[i] == '.');
        lemma_ext_of_some(d, i);
        assert(d.skip(i + 1).push(name.last()) =~= name.skip(i + 1));
    }
}

/// With no dot at any index past the first character, there is no extension.
proof fn lemma_ext_of_none(name: Seq<char>)
    requires
        forall|j: int| 1 <= j < name.len() ==> name[j] != '.',
    ensures
        ext_of(name) is None,
    decreases name.len(),
{
    if name.len() > 1 {
        assert(name.last() != '.');
        lemma_ext_of_none(name.drop_last());
    }
}

/// Find the last dot of `name` that can start an extension.
fn last_dot_index(name: &str) -> (r: Option<usize>)
    ensures
        match r {
            Option::Some(i) => 1 <= i < name@.len() && ext_of(name@) == Option::Some(
                name@.skip(i as int + 1),
            ),
            Option::None => ext_of(name@) is None,
        },
{
    let len = name.unicode_len();
    let mut k: usize = len;
    while k > 0
        invariant
            k <= len,
            len == name@.len(),
            forall|j: int| k <= j < len ==> name@[j] != '.',
        decreases k,
    {
        let c = name.get_char(k - 1);
        if c == '.' {
            if k - 1 >= 1 {
                proof {
                    lemma_ext_of_some(name@, k as int - 1);
                }
                return Some(k - 1);
            } else {
                proof {
                    lemma_ext_of_none(name@);
                }
                return None;
            }
        }
        k = k - 1;
    }
    proof {
        lemma_ext_of_none(name@);
    }
    None
}

/// Whether a file name has a recognized image extension.
pub fn is_image_file_name(name: &str) -> (r: bool)
    ensures
        r == is_image_name(name@),
{
    match last_dot_index(name) {
        Some(i) => {
            let len = name.unicode_len();
            let ext = name.substring_char(i + 1, len);
            proof {
                assert(ext@ =~= name@.skip(i as int + 1));
            }
            is_supported_image(ext)
        },
        None => false,
    }
}

/// Whether a file name has a recognized video extension (flag-independent).
pub fn is_video_file_name(name: &str) -> (r: bool)
    ensures
        r == is_video_name(name@),
{
    match last_dot_index(name) {
        Some(i) => {
            let len = name.unicode_len();
            let ext = name.substring_char(i + 1, len);
            proof {
                assert(ext@ =~= name@.skip(i as int + 1));
            }
            is_supported_video(ext)
        },
        None => false,
    }
}

/// Whether a file name counts as media under the given video flag.
pub fn is_media_file_name(name: &str, show_video: bool) -> (r: bool)
    ensures
        r == is_media_name(name@, show_video),
{
    match last_dot_index(name) {
        Some(i) => {
            let len = name.unicode_len();
            let ext = name.substring_char(i + 1, len);
            proof {
                assert(ext@ =~= name@.skip(i as int + 1));
            }
            is_supported_media(ext, show_video)
        },
        None => false,
    }
}

/// Full classification of a file name.
pub fn media_class_of_file(name: &str, video_enabled: bool) -> (r: MediaClass)
    ensures
        r == classify_name(name@, video_enabled),
{
    match last_dot_index(name) {
        Some(i) => {
            let len = name.unicode_len();
            let ext = name.substring_char(i + 1, len);
            proof {
                assert(ext@ =~= name@.skip(i as int + 1));
            }
            classify(ext, video_enabled)
        },
        None => MediaClass::Unsupported,
    }
}

/// Full classification of an extension.
pub fn classify(ext: &str, video_enabled: bool) -> (r: MediaClass)
    ensures
        r == spec_classify(ext@, video_enabled),
{
    if is_supported_image(ext) {
        MediaClass::Image
    } else if video_enabled && is_supported_video(ext) {
        MediaClass::Video
    } else {
        MediaClass::Unsupported
    }
}

} // verus!
