use website::http_types::{ContentType, FontType, ImageType, RequestType};
use website::router::{extension, html_file_path, is_api_path, parent, request_type_of, static_content_type, static_file_path};

#[test]
fn router_classifies_paths() {
    assert_eq!(request_type_of("/api/test"), RequestType::Api);
    assert_eq!(request_type_of("/style.css"), RequestType::OtherFile);
    assert_eq!(request_type_of("/"), RequestType::Html);
    assert_eq!(request_type_of("/blog/my-post"), RequestType::Html);
    assert_eq!(request_type_of("/favicon.ico"), RequestType::OtherFile);
    assert_eq!(request_type_of("/about"), RequestType::Html);
    assert_eq!(request_type_of("/images/cat.png"), RequestType::OtherFile);
    assert_eq!(request_type_of("/does-not-exist.xyz"), RequestType::OtherFile);
    assert_eq!(request_type_of("/api/./test"), RequestType::Api);
    assert_eq!(request_type_of("/api/test/."), RequestType::Api);
}

#[test]
fn parent_and_extension() {
    assert_eq!(parent("/api/test").as_deref(), Some("/api"));
    assert_eq!(parent("/style.css").as_deref(), Some("/"));
    assert_eq!(parent("/"), None);
    assert_eq!(parent("/blog/post/").as_deref(), Some("/blog"));
    assert_eq!(extension("/a/b.tar.gz").as_deref(), Some("gz"));
    assert_eq!(extension("/a/.hidden"), None);
    assert_eq!(extension("/a/b"), None);
    assert_eq!(parent("/a/./b").as_deref(), Some("/a"));
    assert_eq!(parent("/a/b/.").as_deref(), Some("/a"));
    assert_eq!(parent("/.").as_deref(), None);
    assert_eq!(extension("/a/b.css/.").as_deref(), Some("css"));
}

#[test]
fn post_paths_must_be_api() {
    assert!(is_api_path("/api/mail"));
    assert!(!is_api_path("/mail"));
    assert!(!is_api_path("/"));
}

#[test]
fn static_types_and_files() {
    assert_eq!(static_content_type("/style.css"), Some(ContentType::Css));
    assert_eq!(static_content_type("/x/app.js"), Some(ContentType::JavaScript));
    assert_eq!(static_content_type("/logo.svg"), Some(ContentType::Image(ImageType::Svg)));
    assert_eq!(static_content_type("/f.ttf"), Some(ContentType::Font(FontType::Ttf)));
    assert_eq!(static_content_type("/does-not-exist.xyz"), None);
    assert_eq!(html_file_path("files", "/"), "files/index.html");
    assert_eq!(html_file_path("files", "/blog/my-post"), "files/blog/my-post.html");
    assert_eq!(html_file_path("files", "/blog/"), "files/blog.html");
    assert_eq!(static_file_path("files", "/style.css"), "files/style.css");
}
