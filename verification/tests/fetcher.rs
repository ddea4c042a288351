use image_links::fetch::extract_file_name;

#[test]
fn extract_trailing_file_name() {
    let name = extract_file_name("https://example.com/imgs/my-pic.png");
    assert_eq!(name, Some(String::from("my-pic.png")));
}

#[test]
fn extract_stops_at_non_name_character() {
    let name = extract_file_name("https://example.com/a.b.svg");
    assert_eq!(name, Some(String::from("b.svg")));
}

#[test]
fn extract_gif_extension() {
    let name = extract_file_name("http://host/anim.gif");
    assert_eq!(name, Some(String::from("anim.gif")));
}

#[test]
fn url_without_extension_is_refused() {
    assert_eq!(extract_file_name("https://png"), None);
}

#[test]
fn unsupported_extension_is_refused() {
    assert_eq!(extract_file_name("https://example.com/photo.jpeg"), None);
}

#[test]
fn uppercase_extension_is_refused() {
    assert_eq!(extract_file_name("https://example.com/photo.PNG"), None);
}

#[test]
fn empty_name_before_extension_is_refused() {
    assert_eq!(extract_file_name("https://example.com/.png"), None);
}

#[test]
fn extension_not_at_end_is_refused() {
    assert_eq!(extract_file_name("https://example.com/pic.png/view"), None);
}
