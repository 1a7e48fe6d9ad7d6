use terminal_slide::paths::path_within;

#[test]
fn path_within_compares_components() {
    assert!(path_within("/srv/deck/index.html", "/srv/deck"));
    assert!(path_within("/srv/deck/", "/srv/deck"));
    assert!(path_within("/srv/deck", "/srv/deck/"));
    assert!(path_within("/srv//deck/./a.css", "/srv/deck"));
    assert!(!path_within("/srv/deckx/a.css", "/srv/deck"));
    assert!(!path_within("/srv", "/srv/deck"));
    assert!(!path_within("srv/deck/a", "/srv/deck"));
    assert!(path_within("anything", ""));
    assert!(!path_within("a/b", "./a"));
}
