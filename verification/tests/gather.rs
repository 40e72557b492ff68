use lri_rs::gather::{gather_photos, text_le_exec, DirEntry, Photo};

fn entry(stem: &str, ext: Option<&str>, path: &str) -> DirEntry {
    DirEntry {
        stem: stem.to_string(),
        extension: ext.map(|e| e.to_string()),
        path: path.to_string(),
    }
}

#[test]
fn files_of_one_shot_are_grouped_and_shots_ordered_by_lri() {
    let entries = vec![
        entry("L16_0002", Some("jpg"), "d/L16_0002.jpg"),
        entry("L16_0001", Some("lri"), "d/L16_0001.lri"),
        entry("notes", Some("txt"), "d/notes.txt"),
        entry("L16_0002", Some("lri"), "d/L16_0002.lri"),
        entry("L16_0001", Some("lris"), "d/L16_0001.lris"),
        entry("L16_0003", Some("jpg"), "d/L16_0003.jpg"),
        entry("README", None, "d/README"),
    ];
    let photos = gather_photos(&entries);
    assert_eq!(photos.len(), 3);
    // The shot without an .lri comes first.
    assert_eq!(photos[0].lri, None);
    assert_eq!(photos[0].jpg.as_deref(), Some("d/L16_0003.jpg"));
    assert_eq!(photos[1].lri.as_deref(), Some("d/L16_0001.lri"));
    assert_eq!(photos[1].lris.as_deref(), Some("d/L16_0001.lris"));
    assert_eq!(photos[1].jpg, None);
    assert_eq!(photos[2].lri.as_deref(), Some("d/L16_0002.lri"));
    assert_eq!(photos[2].jpg.as_deref(), Some("d/L16_0002.jpg"));
}

#[test]
fn a_later_file_of_the_same_kind_wins() {
    let entries = vec![
        entry("a", Some("lri"), "x/a.lri"),
        entry("a", Some("lri"), "y/a.lri"),
    ];
    let photos = gather_photos(&entries);
    assert_eq!(photos.len(), 1);
    assert_eq!(photos[0].lri.as_deref(), Some("y/a.lri"));
}

#[test]
fn photo_constructors_fill_one_slot() {
    let p = Photo::new_jpg("a.jpg");
    assert_eq!((p.jpg.as_deref(), p.lri.as_deref(), p.lris.as_deref()), (Some("a.jpg"), None, None));
    let p = Photo::new_lri("a.lri");
    assert_eq!((p.jpg.as_deref(), p.lri.as_deref(), p.lris.as_deref()), (None, Some("a.lri"), None));
    let p = Photo::new_lris("a.lris");
    assert_eq!((p.jpg.as_deref(), p.lri.as_deref(), p.lris.as_deref()), (None, None, Some("a.lris")));
}

#[test]
fn text_order_matches_string_order() {
    for (a, b) in [("", ""), ("a", ""), ("", "a"), ("ab", "abc"), ("abd", "abc"), ("B", "a"), ("é", "z")] {
        assert_eq!(text_le_exec(a, b), a <= b, "{a:?} vs {b:?}");
    }
}
