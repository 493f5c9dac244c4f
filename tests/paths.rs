use wahoo::paths::{
    file_name, is_file_hidden, is_hidden, is_under, parent_folder, root_folder,
    trim_trailing_slashes, with_html_extension,
};

#[test]
fn hidden_components() {
    assert!(is_hidden(".git/config"));
    assert!(is_hidden("a/.cache/b"));
    assert!(is_hidden("./a"));
    assert!(is_hidden("../a"));
    assert!(!is_hidden("a/b.html"));
    assert!(!is_hidden("a/./b"));
    assert!(!is_hidden(""));
}

#[test]
fn hidden_file_names() {
    assert!(is_file_hidden("a/.draft.md"));
    assert!(!is_file_hidden("a/post.md"));
    assert!(is_file_hidden(""));
    assert!(is_file_hidden("a/.."));
    assert!(!is_file_hidden("a/b/"));
}

#[test]
fn first_plain_component() {
    assert_eq!(root_folder("../../posts/a.md"), Some("posts".to_string()));
    assert_eq!(root_folder("/blog/x.html"), Some("blog".to_string()));
    assert_eq!(root_folder("index.html"), Some("index.html".to_string()));
    assert_eq!(root_folder("./.."), None);
    assert_eq!(root_folder(""), None);
}

#[test]
fn parent_and_containment() {
    assert_eq!(parent_folder("a/b/c.txt"), "a/b");
    assert_eq!(parent_folder("c.txt"), "");
    assert!(is_under("a", "a/b"));
    assert!(!is_under("a", "ab/c"));
    assert!(!is_under("a", "a"));
}

#[test]
fn html_extension_and_names() {
    assert_eq!(with_html_extension("posts/a.md"), "posts/a.html");
    assert_eq!(with_html_extension("posts/a"), "posts/a.html");
    assert_eq!(with_html_extension("posts/.hidden"), "posts/.hidden.html");
    assert_eq!(with_html_extension("a.b/c.d.md"), "a.b/c.d.html");
    assert_eq!(file_name("docs/intro.md"), "intro.md");
    assert_eq!(trim_trailing_slashes("posts//"), "posts");
}
