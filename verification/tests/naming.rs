use raytracer_core::naming::{fresh_image_path, path_for_id};

#[test]
fn path_for_known_id() {
    assert_eq!(path_for_id("abc"), "./images/abc.png");
}

#[test]
fn fresh_path_shape() {
    let path = fresh_image_path();
    assert_eq!(path.len(), 49);
    assert!(path.starts_with("./images/"));
    assert!(path.ends_with(".png"));
}

#[test]
fn fresh_id_characters() {
    let path = fresh_image_path();
    let id = &path["./images/".len()..path.len() - ".png".len()];
    assert_eq!(id.len(), 36);
    for c in id.chars() {
        assert!(c == '-' || c.is_ascii_digit() || ('a'..='f').contains(&c));
    }
}

#[test]
fn successive_paths_distinct_and_ordered() {
    // The identifiers are time-ordered: a later one never sorts before
    // an earlier one, and two runs never share a name.
    let first = fresh_image_path();
    let second = fresh_image_path();
    assert_ne!(first, second);
    assert!(second >= first);
}
