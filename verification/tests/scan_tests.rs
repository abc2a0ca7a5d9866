use media_gallery::scan::get_projects;

fn path(components: &[&str]) -> Vec<String> {
    let mut v: Vec<String> = Vec::new();
    for c in components {
        v.push(c.to_string());
    }
    v
}

#[test]
fn empty_base_yields_no_projects() {
    let files: Vec<Vec<String>> = Vec::new();
    let projects = get_projects(&files, false);
    assert_eq!(projects.len(), 0);
}

#[test]
fn two_directories_two_projects() {
    let files = vec![path(&["a", "x.jpg"]), path(&["b", "y.png"])];
    let projects = get_projects(&files, false);
    assert_eq!(projects.len(), 2);
    assert_eq!(projects[0].name, "a");
    assert_eq!(projects[0].preview_image, "a/x.jpg");
    assert_eq!(projects[1].name, "b");
    assert_eq!(projects[1].preview_image, "b/y.png");
}

#[test]
fn root_media_yields_root_project_in_order() {
    let files = vec![path(&["x.jpg"]), path(&["c", "z.gif"])];
    let projects = get_projects(&files, false);
    assert_eq!(projects.len(), 2);
    assert_eq!(projects[0].name, "c");
    assert_eq!(projects[0].preview_image, "c/z.gif");
    assert_eq!(projects[1].name, "root");
    assert_eq!(projects[1].preview_image, "x.jpg");
}

#[test]
fn nested_directories_are_independent_projects() {
    let files = vec![path(&["a", "v.jpg"]), path(&["a", "sub", "w.jpg"])];
    let projects = get_projects(&files, false);
    assert_eq!(projects.len(), 2);
    assert_eq!(projects[0].name, "a");
    assert_eq!(projects[0].preview_image, "a/v.jpg");
    assert_eq!(projects[1].name, "a/sub");
    assert_eq!(projects[1].preview_image, "a/sub/w.jpg");
}

#[test]
fn preview_uses_ordinal_comparison_of_file_names() {
    // Ordinal (codepoint) comparison is case-sensitive: 'B' (66) sorts
    // before 'a' (97), so the upper-case name wins the preview.
    let files = vec![path(&["p", "a.png"]), path(&["p", "B.png"])];
    let projects = get_projects(&files, false);
    assert_eq!(projects.len(), 1);
    assert_eq!(projects[0].name, "p");
    assert_eq!(projects[0].preview_image, "p/B.png");
}

#[test]
fn preview_is_smallest_file_name_not_smallest_path() {
    let files = vec![path(&["p", "bb.png"]), path(&["p", "ab.png"]), path(&["p", "ba.png"])];
    let projects = get_projects(&files, false);
    assert_eq!(projects.len(), 1);
    assert_eq!(projects[0].preview_image, "p/ab.png");
}

#[test]
fn directory_with_only_videos_gets_placeholder_preview() {
    let files = vec![path(&["v", "clip.mp4"])];
    let projects = get_projects(&files, true);
    assert_eq!(projects.len(), 1);
    assert_eq!(projects[0].name, "v");
    assert_eq!(projects[0].preview_image, "placeholder.jpg");
}

#[test]
fn videos_never_preview_even_when_smaller() {
    let files = vec![path(&["v", "a.mp4"]), path(&["v", "z.png"])];
    let projects = get_projects(&files, true);
    assert_eq!(projects.len(), 1);
    assert_eq!(projects[0].preview_image, "v/z.png");
}

#[test]
fn disabling_video_removes_video_only_projects() {
    let files = vec![path(&["v", "clip.mp4"]), path(&["p", "pic.jpg"])];
    let on = get_projects(&files, true);
    assert_eq!(on.len(), 2);
    assert_eq!(on[0].name, "p");
    assert_eq!(on[1].name, "v");
    let off = get_projects(&files, false);
    assert_eq!(off.len(), 1);
    assert_eq!(off[0].name, "p");
}

#[test]
fn unsupported_extensions_do_not_make_projects() {
    let files = vec![path(&["d", "notes.txt"]), path(&["d", "prog.rs"]), path(&["readme.md"])];
    let projects = get_projects(&files, true);
    assert_eq!(projects.len(), 0);
}

#[test]
fn one_project_per_directory_with_many_files() {
    let files = vec![
        path(&["a", "1.jpg"]),
        path(&["a", "2.jpg"]),
        path(&["a", "3.mp4"]),
    ];
    let projects = get_projects(&files, true);
    assert_eq!(projects.len(), 1);
    assert_eq!(projects[0].name, "a");
    assert_eq!(projects[0].preview_image, "a/1.jpg");
}

#[test]
fn scan_is_sorted_ascending_by_name() {
    let files = vec![
        path(&["z", "x.jpg"]),
        path(&["a", "b", "c.jpg"]),
        path(&["a", "x.jpg"]),
        path(&["m.png"]),
    ];
    let projects = get_projects(&files, false);
    let names: Vec<&str> = projects.iter().map(|p| p.name.as_str()).collect();
    assert_eq!(names, vec!["a", "a/b", "root", "z"]);
    for w in projects.windows(2) {
        assert!(w[0].name < w[1].name);
    }
}

#[test]
fn sentinel_collision_lists_both_root_entries() {
    // A real top-level directory literally called `root` collides with the
    // sentinel: both projects appear, under the same name.
    let files = vec![path(&["x.jpg"]), path(&["root", "q.jpg"])];
    let projects = get_projects(&files, false);
    assert_eq!(projects.len(), 2);
    assert_eq!(projects[0].name, "root");
    assert_eq!(projects[1].name, "root");
    let mut previews: Vec<String> = projects.iter().map(|p| p.preview_image.clone()).collect();
    previews.sort();
    assert_eq!(previews, vec!["root/q.jpg".to_string(), "x.jpg".to_string()]);
}
