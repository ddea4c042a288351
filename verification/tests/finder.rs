use image_links::links::find_links;

#[test]
fn find_empty_links() {
    let links = find_links(String::from(""));
    assert_eq!(links.len(), 0);
}

#[test]
fn find_one_link() {
    let links = find_links(String::from("![](https://png)"));

    assert_eq!(links[0].location, "https://png");
    assert!(!links[0].is_local);
    assert_eq!(links.len(), 1);
}

#[test]
fn find_one_link_among_text() {
    let links = find_links(String::from("asdfasd \n ![](https://png) asdfasdf \n"));
    assert_eq!(links.len(), 1);
}

#[test]
fn find_many_links() {
    let links = find_links(String::from(
        "![](https://png)![](https://png) sdfasdfas ![](/home/test)",
    ));
    assert_eq!(links.len(), 3);
    assert_eq!(links[0].location, "https://png");
    assert_eq!(links[1].location, "https://png");
    assert_eq!(links[2].location, "/home/test");
    assert!(links[2].is_local);
}

#[test]
fn find_no_links_in_plain_text() {
    let links = find_links(String::from("no image syntax here, only words!"));
    assert_eq!(links.len(), 0);
}

#[test]
fn find_twice_yields_identical_sequences() {
    let text = "![](https://png) and ![icon](/home/test/pic.png)";
    let first = find_links(String::from(text));
    let second = find_links(String::from(text));
    assert_eq!(first.len(), second.len());
    for (a, b) in first.iter().zip(second.iter()) {
        assert_eq!(a.location, b.location);
        assert_eq!(a.is_local, b.is_local);
    }
}

#[test]
fn find_link_with_alt_text() {
    let links = find_links(String::from("![diagram](/home/docs/plot.svg)"));
    assert_eq!(links.len(), 1);
    assert_eq!(links[0].location, "/home/docs/plot.svg");
    assert!(links[0].is_local);
}

#[test]
fn classification_goes_by_http_prefix_alone() {
    let links = find_links(String::from("![](httpdir/pic.png) ![](ftp://srv/pic.png)"));
    assert_eq!(links.len(), 2);
    assert!(!links[0].is_local);
    assert!(links[1].is_local);
}

#[test]
fn uppercase_alt_text_does_not_match() {
    let links = find_links(String::from("![Alt](/home/test/pic.png)"));
    assert_eq!(links.len(), 0);
}

#[test]
fn uppercase_directory_does_not_match() {
    let links = find_links(String::from("![](/Home/test/pic.png)"));
    assert_eq!(links.len(), 0);
}

#[test]
fn unsupported_extension_does_not_match() {
    let links = find_links(String::from("![](imgs/photo.jpeg)"));
    assert_eq!(links.len(), 0);
}

#[test]
fn multi_dot_file_name_does_not_match() {
    let links = find_links(String::from("![](imgs/a.b.png)"));
    assert_eq!(links.len(), 0);
}

#[test]
fn dotted_file_name_with_supported_extension_matches() {
    let links = find_links(String::from("![](imgs/photo.png)"));
    assert_eq!(links.len(), 1);
    assert_eq!(links[0].location, "imgs/photo.png");
}

#[test]
fn location_without_slash_does_not_match() {
    let links = find_links(String::from("![](picture.png)"));
    assert_eq!(links.len(), 0);
}

#[test]
fn empty_file_name_does_not_match() {
    let links = find_links(String::from("![](/home/test/)"));
    assert_eq!(links.len(), 0);
}
