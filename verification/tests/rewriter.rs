use image_links::rewrite::replace_url_paths_with_new_references;

#[test]
fn rewrite_local_link_to_target_directory() {
    let result = replace_url_paths_with_new_references(
        String::from("![](/home/test/pic.png)"),
        String::from("/new/"),
    );
    assert_eq!(result, "![](/new/pic.png)");
}

#[test]
fn rewrite_remote_link_keeps_file_name() {
    let result = replace_url_paths_with_new_references(
        String::from("a ![alt](https://example.com/imgs/pic.png) b"),
        String::from("/imgs/"),
    );
    assert_eq!(result, "a ![alt](/imgs/pic.png) b");
}

#[test]
fn rewrite_without_links_is_identity() {
    let result = replace_url_paths_with_new_references(
        String::from("hello world, nothing to see"),
        String::from("/new/"),
    );
    assert_eq!(result, "hello world, nothing to see");
}

#[test]
fn rewrite_every_match_uniformly() {
    let result = replace_url_paths_with_new_references(
        String::from("![](https://host/a.png) text ![](/old/b.gif)"),
        String::from("/res/"),
    );
    assert_eq!(result, "![](/res/a.png) text ![](/res/b.gif)");
}

#[test]
fn rewrite_leaves_unsupported_extension_untouched() {
    let result = replace_url_paths_with_new_references(
        String::from("x ![](imgs/photo.jpeg) y"),
        String::from("/new/"),
    );
    assert_eq!(result, "x ![](imgs/photo.jpeg) y");
}

#[test]
fn rewrite_keeps_surrounding_text_unchanged() {
    let result = replace_url_paths_with_new_references(
        String::from("before ![](/home/test) after"),
        String::from("/d/"),
    );
    assert_eq!(result, "before ![](/d/test) after");
}
