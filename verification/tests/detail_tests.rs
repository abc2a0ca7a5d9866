use media_gallery::detail::get_project_images;

fn path(components: &[&str]) -> Vec<String> {
    let mut v: Vec<String> = Vec::new();
    for c in components {
        v.push(c.to_string());
    }
    v
}

#[test]
fn root_listing_is_shallow() {
    let files = vec![path(&["x.jpg"]), path(&["a", "y.jpg"]), path(&["a", "b", "z.jpg"])];
    let detail = get_project_images(&files, "root", false);
    assert_eq!(detail.name, "root");
    assert_eq!(detail.media_files.len(), 1);
    assert_eq!(detail.media_files[0].path, "x.jpg");
    assert!(!detail.media_files[0].is_video);
}

#[test]
fn non_root_listing_is_deep() {
    let files = vec![path(&["a", "v.jpg"]), path(&["a", "sub", "w.jpg"]), path(&["x.jpg"])];
    let detail = get_project_images(&files, "a", false);
    assert_eq!(detail.name, "a");
    assert_eq!(detail.media_files.len(), 2);
    assert_eq!(detail.media_files[0].path, "a/sub/w.jpg");
    assert_eq!(detail.media_files[1].path, "a/v.jpg");
}

#[test]
fn nested_name_scopes_to_subdirectory() {
    let files = vec![path(&["a", "v.jpg"]), path(&["a", "sub", "w.jpg"])];
    let detail = get_project_images(&files, "a/sub", false);
    assert_eq!(detail.name, "a/sub");
    assert_eq!(detail.media_files.len(), 1);
    assert_eq!(detail.media_files[0].path, "a/sub/w.jpg");
}

#[test]
fn listing_is_sorted_ascending_by_path() {
    let files = vec![
        path(&["a", "c.png"]),
        path(&["a", "a.png"]),
        path(&["a", "b", "d.png"]),
        path(&["a", "b.png"]),
    ];
    let detail = get_project_images(&files, "a", false);
    let paths: Vec<&str> = detail.media_files.iter().map(|m| m.path.as_str()).collect();
    assert_eq!(paths, vec!["a/a.png", "a/b.png", "a/b/d.png", "a/c.png"]);
}

#[test]
fn video_flag_set_only_on_videos() {
    let files = vec![path(&["a", "pic.jpg"]), path(&["a", "clip.webm"])];
    let detail = get_project_images(&files, "a", true);
    assert_eq!(detail.media_files.len(), 2);
    assert_eq!(detail.media_files[0].path, "a/clip.webm");
    assert!(detail.media_files[0].is_video);
    assert_eq!(detail.media_files[1].path, "a/pic.jpg");
    assert!(!detail.media_files[1].is_video);
}

#[test]
fn disabling_video_removes_videos_from_listing() {
    let files = vec![path(&["a", "pic.jpg"]), path(&["a", "clip.webm"])];
    let detail = get_project_images(&files, "a", false);
    assert_eq!(detail.media_files.len(), 1);
    assert_eq!(detail.media_files[0].path, "a/pic.jpg");
    assert!(!detail.media_files[0].is_video);
}

#[test]
fn unsupported_extensions_never_listed() {
    let files = vec![path(&["a", "pic.jpg"]), path(&["a", "notes.txt"]), path(&["a", "prog.rs"])];
    let detail = get_project_images(&files, "a", true);
    assert_eq!(detail.media_files.len(), 1);
    assert_eq!(detail.media_files[0].path, "a/pic.jpg");
}

#[test]
fn name_match_is_exact_and_case_sensitive() {
    let files = vec![path(&["a", "pic.jpg"])];
    assert_eq!(get_project_images(&files, "A", false).media_files.len(), 0);
    assert_eq!(get_project_images(&files, "a", false).media_files.len(), 1);
    assert_eq!(get_project_images(&files, "a/", false).media_files.len(), 0);
    assert_eq!(get_project_images(&files, "ab", false).media_files.len(), 0);
}

#[test]
fn missing_directory_yields_empty_listing() {
    let files = vec![path(&["a", "pic.jpg"])];
    let detail = get_project_images(&files, "nowhere", false);
    assert_eq!(detail.name, "nowhere");
    assert_eq!(detail.media_files.len(), 0);
}

#[test]
fn empty_snapshot_yields_empty_root_listing() {
    let files: Vec<Vec<String>> = Vec::new();
    let detail = get_project_images(&files, "root", true);
    assert_eq!(detail.name, "root");
    assert_eq!(detail.media_files.len(), 0);
}

#[test]
fn prefix_of_component_does_not_match() {
    // `a` must match a whole component, not a prefix of `ab`.
    let files = vec![path(&["ab", "pic.jpg"])];
    assert_eq!(get_project_images(&files, "a", false).media_files.len(), 0);
}
