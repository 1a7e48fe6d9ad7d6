use terminal_slide::server::{
    file_for_path, guess_mime_type, percent_decode, served_path, port_range_error, port_search_exhausted, requested_file,
    PortSearch,
};

#[test]
fn test_guess_mime_type_html() {
    assert_eq!(
        guess_mime_type("index.html"),
        "text/html; charset=utf-8"
    );
    assert_eq!(
        guess_mime_type("page.htm"),
        "text/html; charset=utf-8"
    );
}

#[test]
fn test_guess_mime_type_css_js() {
    assert_eq!(
        guess_mime_type("style.css"),
        "text/css; charset=utf-8"
    );
    assert_eq!(
        guess_mime_type("app.js"),
        "application/javascript; charset=utf-8"
    );
    assert_eq!(
        guess_mime_type("module.mjs"),
        "application/javascript; charset=utf-8"
    );
}

#[test]
fn test_guess_mime_type_images() {
    assert_eq!(guess_mime_type("logo.png"), "image/png");
    assert_eq!(guess_mime_type("photo.jpg"), "image/jpeg");
    assert_eq!(guess_mime_type("photo.jpeg"), "image/jpeg");
    assert_eq!(guess_mime_type("icon.gif"), "image/gif");
    assert_eq!(guess_mime_type("graphic.svg"), "image/svg+xml");
    assert_eq!(guess_mime_type("image.webp"), "image/webp");
}

#[test]
fn test_guess_mime_type_fonts() {
    assert_eq!(guess_mime_type("font.woff"), "font/woff");
    assert_eq!(guess_mime_type("font.woff2"), "font/woff2");
    assert_eq!(guess_mime_type("font.ttf"), "font/ttf");
}

#[test]
fn test_guess_mime_type_unknown() {
    assert_eq!(
        guess_mime_type("data.xyz"),
        "application/octet-stream"
    );
    assert_eq!(
        guess_mime_type("noextension"),
        "application/octet-stream"
    );
}

#[test]
fn test_percent_decode_plain() {
    assert_eq!(percent_decode("/path/to/file"), "/path/to/file");
}

#[test]
fn test_percent_decode_spaces() {
    assert_eq!(percent_decode("/my%20file.html"), "/my file.html");
}

#[test]
fn test_percent_decode_special_chars() {
    assert_eq!(percent_decode("/file%2Fname"), "/file/name");
    assert_eq!(percent_decode("%48%65%6C%6C%6F"), "Hello");
}

#[test]
fn test_percent_decode_invalid() {
    // Invalid percent sequences are left as-is
    assert_eq!(percent_decode("/file%ZZ"), "/file%ZZ");
    assert_eq!(percent_decode("/file%2"), "/file%2");
    assert_eq!(percent_decode("/file%"), "/file%");
}

// --- further cases ---

#[test]
fn mime_type_ignores_case_and_covers_the_rest() {
    assert_eq!(guess_mime_type("INDEX.HTML"), "text/html; charset=utf-8");
    assert_eq!(guess_mime_type("data.JSON"), "application/json; charset=utf-8");
    assert_eq!(guess_mime_type("favicon.ico"), "image/x-icon");
    assert_eq!(guess_mime_type("a.otf"), "font/otf");
    assert_eq!(guess_mime_type("clip.mp4"), "video/mp4");
    assert_eq!(guess_mime_type("clip.webm"), "video/webm");
    assert_eq!(guess_mime_type("feed.xml"), "application/xml");
    assert_eq!(guess_mime_type("notes.txt"), "text/plain; charset=utf-8");
    assert_eq!(guess_mime_type("/assets/.css"), "application/octet-stream");
}

#[test]
fn percent_decode_sign_is_no_escape_and_utf8() {
    // A sign is not a hexadecimal digit: the sequence is left as it is.
    assert_eq!(percent_decode("%+41"), "%+41");
    assert_eq!(percent_decode("%+4x"), "%+4x");
    assert_eq!(percent_decode("caf%C3%A9"), "café");
    assert_eq!(percent_decode("%FF"), "\u{FFFD}");
    assert_eq!(percent_decode("ü%20ü"), "ü ü");
}

#[test]
fn requested_files() {
    assert_eq!(requested_file("/", "deck.html"), "deck.html");
    assert_eq!(requested_file("/?x=1", "deck.html"), "deck.html");
    assert_eq!(requested_file("/img/a%20b.png?v=2", "deck.html"), "img/a b.png");
    assert_eq!(requested_file("//style.css", "deck.html"), "style.css");
    assert_eq!(requested_file("%2F", "deck.html"), "deck.html");
}

#[test]
fn port_search_tries_eleven_ports() {
    let mut s = PortSearch::new(8234);
    let mut tried = Vec::new();
    loop {
        tried.push(s.candidate().unwrap());
        if !s.advance() {
            break;
        }
    }
    assert_eq!(tried, (8234..=8244).collect::<Vec<u16>>());

    let high = PortSearch::new(65535);
    assert_eq!(high.candidate(), Some(65535));
    let mut high = high;
    assert!(high.advance());
    assert_eq!(high.candidate(), None);
}

#[test]
fn port_messages() {
    assert_eq!(
        port_range_error(8234, 8244),
        "Could not bind to any port in range 8234-8244"
    );
    assert_eq!(
        port_search_exhausted(65530),
        "Could not bind to any port in range 65530-65535"
    );
}

#[test]
fn percent_decode_leaves_text_without_escapes_alone() {
    assert_eq!(percent_decode("/café/ü-ñ.html"), "/café/ü-ñ.html");
    assert_eq!(percent_decode(""), "");
}

#[test]
fn decoded_paths_name_files_relative_to_the_served_directory() {
    assert_eq!(file_for_path("/", "deck.html"), "deck.html");
    assert_eq!(file_for_path("//assets/a.css", "deck.html"), "assets/a.css");
    assert_eq!(file_for_path("img.png", "deck.html"), "img.png");
    assert_eq!(file_for_path("", "deck.html"), "");
}

fn full_encoding(s: &str, upper: bool) -> String {
    s.bytes()
        .map(|b| if upper { format!("%{:02X}", b) } else { format!("%{:02x}", b) })
        .collect()
}

#[test]
fn percent_decode_undoes_full_encoding() {
    for s in ["", "/deck.html", "héllo wörld/ü?x=1", "日本語 ✓"] {
        assert_eq!(percent_decode(&full_encoding(s, true)), s);
        assert_eq!(percent_decode(&full_encoding(s, false)), s);
    }
}

#[test]
fn only_files_within_the_served_directory_are_served() {
    assert_eq!(served_path(Some("/srv/deck/a.css"), "/srv/deck"), Some("/srv/deck/a.css".to_string()));
    assert_eq!(served_path(Some("/srv/deck"), "/srv/deck"), Some("/srv/deck".to_string()));
    assert_eq!(served_path(Some("/etc/passwd"), "/srv/deck"), None);
    assert_eq!(served_path(Some("/srv/deckx/a"), "/srv/deck"), None);
    assert_eq!(served_path(None, "/srv/deck"), None);
}
