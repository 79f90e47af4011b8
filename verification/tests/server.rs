use webwallpaper::server::{
    check_request_path, get_content_type, PathStyle, request_target, strip_windows_prefix,
    urlencoding_decode, LocalServer, RequestPathError,
};

#[test]
fn test_get_content_type() {
    assert_eq!(get_content_type("test.html", PathStyle::Unix), "text/html; charset=utf-8");
    assert_eq!(get_content_type("style.css", PathStyle::Unix), "text/css; charset=utf-8");
    assert_eq!(get_content_type("app.js", PathStyle::Unix), "application/javascript; charset=utf-8");
    assert_eq!(get_content_type("image.png", PathStyle::Unix), "image/png");
    assert_eq!(get_content_type("unknown.xyz", PathStyle::Unix), "application/octet-stream");
}

#[test]
fn test_urlencoding_decode() {
    assert_eq!(urlencoding_decode("hello%20world"), "hello world");
    assert_eq!(urlencoding_decode("file%2Fpath"), "file/path");
    assert_eq!(urlencoding_decode("normal"), "normal");
}

#[test]
fn content_type_by_path_name() {
    assert_eq!(get_content_type("/srv/site/INDEX.HTM", PathStyle::Unix), "text/html; charset=utf-8");
    assert_eq!(get_content_type("a/b.dir/photo.JPeG", PathStyle::Unix), "image/jpeg");
    assert_eq!(get_content_type("font.woff2", PathStyle::Unix), "font/woff2");
    assert_eq!(get_content_type(".html", PathStyle::Unix), "application/octet-stream");
    assert_eq!(get_content_type("archive.tar.gz", PathStyle::Unix), "application/octet-stream");
    assert_eq!(get_content_type("noext", PathStyle::Unix), "application/octet-stream");
    assert_eq!(get_content_type("data.json/", PathStyle::Unix), "application/json; charset=utf-8");
    assert_eq!(get_content_type("data.json/.", PathStyle::Unix), "application/json; charset=utf-8");
    assert_eq!(get_content_type("x.svg/..", PathStyle::Unix), "application/octet-stream");
    assert_eq!(get_content_type("", PathStyle::Unix), "application/octet-stream");
    assert_eq!(get_content_type("clip.mp4", PathStyle::Unix), "video/mp4");
    assert_eq!(get_content_type("doc.pdf", PathStyle::Unix), "application/pdf");
}

#[test]
fn decoding_edge_cases() {
    assert_eq!(urlencoding_decode("a+b"), "a b");
    assert_eq!(urlencoding_decode("%41%62"), "Ab");
    assert_eq!(urlencoding_decode("%zz"), "%zz");
    assert_eq!(urlencoding_decode("%4"), "%4");
    assert_eq!(urlencoding_decode("%"), "%");
    assert_eq!(urlencoding_decode("%%20"), "%%20");
    assert_eq!(urlencoding_decode("%+A"), "\u{a}");
    assert_eq!(urlencoding_decode("%e9"), "\u{e9}");
    assert_eq!(urlencoding_decode("%+"), "%+");
    assert_eq!(urlencoding_decode("%2+"), "%2+");
}

#[test]
fn request_paths_are_checked() {
    assert_eq!(check_request_path("css/site.css"), Ok("css/site.css".to_string()));
    assert_eq!(check_request_path("my%20page.html"), Ok("my page.html".to_string()));
    assert_eq!(check_request_path("../etc/passwd"), Err(RequestPathError::Traversal));
    assert_eq!(check_request_path("a/%2E%2E/b"), Err(RequestPathError::Traversal));
    assert_eq!(check_request_path("%2Fetc"), Err(RequestPathError::Absolute));
    assert_eq!(check_request_path("\\windows"), Err(RequestPathError::Absolute));
    assert_eq!(check_request_path("C:boot.ini"), Err(RequestPathError::Absolute));
    assert_eq!(
        RequestPathError::Traversal.message(),
        "Path traversal attempt detected"
    );
    assert_eq!(RequestPathError::Absolute.message(), "Absolute paths not allowed");
}

#[test]
fn request_targets() {
    assert_eq!(request_target("/"), "index.html");
    assert_eq!(request_target(""), "index.html");
    assert_eq!(request_target("///a/b.js"), "a/b.js");
    assert_eq!(request_target("/page.html?x=1"), "page.html?x=1");
}

#[test]
fn windows_prefix() {
    assert_eq!(strip_windows_prefix("\\\\?\\C:\\site"), "C:\\site");
    assert_eq!(strip_windows_prefix("/home/site"), "/home/site");
}

#[test]
fn server_urls() {
    let s = LocalServer::new("/srv".to_string(), 8080);
    assert_eq!(s.url(), "http://127.0.0.1:8080");
    assert_eq!(s.file_url("index.html"), "http://127.0.0.1:8080/index.html");
    assert_eq!(s.root_dir, "/srv");
    assert_eq!(LocalServer::new(String::new(), 0).url(), "http://127.0.0.1:0");
}

#[test]
fn content_type_on_windows_paths() {
    let w = PathStyle::Windows;
    assert_eq!(get_content_type("C:\\site\\index.html", w), "text/html; charset=utf-8");
    assert_eq!(get_content_type("C:\\site\\.html", w), "application/octet-stream");
    assert_eq!(get_content_type("C:\\site\\.html", PathStyle::Unix), "text/html; charset=utf-8");
    assert_eq!(get_content_type("C:\\a.js\\noext", w), "application/octet-stream");
    assert_eq!(get_content_type("C:/site/app.js", w), "application/javascript; charset=utf-8");
}

#[test]
fn content_type_after_a_drive_prefix() {
    assert_eq!(get_content_type("C:page.html", PathStyle::Windows), "text/html; charset=utf-8");
    assert_eq!(get_content_type("C:.html", PathStyle::Windows), "application/octet-stream");
    assert_eq!(get_content_type("C:.html", PathStyle::Unix), "text/html; charset=utf-8");
}
