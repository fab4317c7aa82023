use qol_tray::features::plugin_store::plugin_ui::{
    extension, find_body_tag_end, find_tag_end, guess_mime, inject_after_body_tag,
    inject_before_closing_body, inject_plugin_wrapper, is_inside_comment, is_safe_subpath,
    serve_file, ui_file_path, FileProbe, FileResponse, NAV_FOOTER, NAV_HEADER,
};

#[test]
fn is_safe_subpath_validation() {
    let cases = [
        ("index.html", true),
        ("css/style.css", true),
        ("a/b/c/d.js", true),
        ("file.min.js", true),
        ("../secret.txt", false),
        ("foo/../bar", false),
        ("foo/bar/../baz", false),
        ("....//....//etc", false),
        ("/etc/passwd", false),
        ("\\windows\\system32", false),
        ("..\\secret", false),
        ("..", false),
        ("a/../../b", false),
        ("valid/..invalid", false),
        ("file\0.txt", false),
    ];

    for (path, expected) in cases {
        assert_eq!(is_safe_subpath(path), expected, "path: {:?}", path);
    }
}

#[test]
fn guess_mime_returns_correct_types() {
    let cases = [
        ("index.html", "text/html; charset=utf-8"),
        ("style.css", "text/css; charset=utf-8"),
        ("app.js", "application/javascript; charset=utf-8"),
        ("data.json", "application/json"),
        ("image.png", "image/png"),
        ("data.bin", "application/octet-stream"),
    ];

    for (filename, expected) in cases {
        assert_eq!(guess_mime(filename), expected, "file: {}", filename);
    }
}

#[test]
fn find_body_tag_end_cases() {
    let cases = [
        ("<html><body>", Some(12)),
        ("<html><BODY>", Some(12)),
        ("<html><Body class='x'>", Some(22)),
        ("<!-- <body> --><body>", Some(21)),
        ("<!-- <body> -->", None),
        ("", None),
        ("<html><head></head></html>", None),
        ("<body data-x='a>b'>", Some(19)),
        ("<body data-x=\"a>b\">", Some(19)),
        ("<!--<body>--><body id='real'>", Some(29)),
        ("<body onclick=\"if(a>b){}\">", Some(26)),
    ];

    for (html, expected) in cases {
        assert_eq!(find_body_tag_end(html), expected, "html: {:?}", html);
    }
}

#[test]
fn is_inside_comment_cases() {
    let cases = [
        ("<body>", 0, false),
        ("<!-- <body> -->", 5, true),
        ("<!-- --> <body>", 9, false),
        ("<!-- x --> <!-- <body>", 16, true),
        ("<!-- a --> <!-- b --> x", 22, false),
        ("<!-- unclosed", 5, true),
        ("text <!-- comment -->", 0, false),
    ];

    for (html, pos, expected) in cases {
        assert_eq!(is_inside_comment(html, pos), expected, "html: {:?}, pos: {}", html, pos);
    }
}

#[test]
fn more_mime_types_and_extensions() {
    let cases = [
        ("a.jpg", "image/jpeg"),
        ("a.jpeg", "image/jpeg"),
        ("a.svg", "image/svg+xml"),
        ("a.ico", "image/x-icon"),
        ("a.woff", "font/woff"),
        ("a.woff2", "font/woff2"),
        ("dir.html/file", "application/octet-stream"),
        (".html", "application/octet-stream"),
        ("a/b/.css", "application/octet-stream"),
        ("a.HTML", "application/octet-stream"),
        ("a.b.css", "text/css; charset=utf-8"),
        ("/p/x/ui/app.js", "application/javascript; charset=utf-8"),
        ("noext", "application/octet-stream"),
        ("trailing.", "application/octet-stream"),
        ("..", "application/octet-stream"),
    ];
    for (path, expected) in cases {
        assert_eq!(guess_mime(path), expected, "path: {:?}", path);
    }
    let text = |e: Option<Vec<char>>| e.map(|v| v.into_iter().collect::<String>());
    assert_eq!(text(extension("a/b.c/d.tar.gz")), Some("gz".to_string()));
    assert_eq!(text(extension("a/b.c/d")), None);
    assert_eq!(text(extension("a/.hidden")), None);
    assert_eq!(text(extension("a/..hidden")), Some("hidden".to_string()));
    assert_eq!(text(extension("x.")), Some(String::new()));
    for path in ["index.html", "a/b.c/d", ".hidden", "a.tar.gz", "x.", "a/..b"] {
        let expected = std::path::Path::new(path).extension().map(|e| e.to_string_lossy().to_string());
        assert_eq!(text(extension(path)), expected, "path: {:?}", path);
    }
}

#[test]
fn tags_end_outside_quotes() {
    assert_eq!(find_tag_end("<a>"), Some(2));
    assert_eq!(find_tag_end("<a b='>'>"), Some(8));
    assert_eq!(find_tag_end("<a b=\"'>\" c='\">'>x>"), Some(16));
    assert_eq!(find_tag_end("<a b='>"), None);
    assert_eq!(find_tag_end(""), None);
    assert_eq!(find_tag_end(">"), Some(0));
    assert_eq!(find_body_tag_end("<body"), None);
    assert_eq!(find_body_tag_end("<!-- --><bOdY x='<body>'> <body>"), Some(25));
    assert_eq!(find_body_tag_end("<body a='><body>"), None);
    assert!(is_inside_comment("<!-- x", 100));
    assert!(!is_inside_comment("<!-- x -->", 100));
}

#[test]
fn navigation_is_put_into_the_page() {
    assert_eq!(inject_after_body_tag("<body>x</body>", "[H]"), "<body>[H]x</body>");
    assert_eq!(inject_after_body_tag("<p>x</p>", "[H]"), "<p>x</p>");
    assert_eq!(inject_after_body_tag("\u{e9}<BODY id=1>x", "[H]"), "\u{e9}<BODY id=1>[H]x");
    assert_eq!(inject_before_closing_body("<body>x</body>", "[F]"), "<body>x[F]</body>");
    assert_eq!(inject_before_closing_body("a</body>b</body>c", "[F]"), "a</body>b[F]</body>c");
    assert_eq!(inject_before_closing_body("<body>x</BODY>", "[F]"), "<body>x</BODY>");
    assert_eq!(
        inject_plugin_wrapper("<html><body class=\"a\"><p>hi</p></body></html>"),
        format!("<html><body class=\"a\">{}<p>hi</p>{}</body></html>", NAV_HEADER, NAV_FOOTER)
    );
    assert_eq!(inject_plugin_wrapper("plain"), "plain");
    assert!(NAV_HEADER.contains("qol-plugin-nav"));
    assert!(NAV_FOOTER.contains("qol-plugin-footer"));
}

#[test]
fn files_are_served_only_from_the_page_directory() {
    assert_eq!(ui_file_path("/plugins", "p", "css/a.css"), "/plugins/p/ui/css/a.css");
    assert_eq!(
        serve_file("/plugins", "p", "css/a.css", FileProbe::Readable),
        FileResponse::Serve { content_type: "text/css; charset=utf-8" }
    );
    assert_eq!(serve_file("/plugins", "..", "a.css", FileProbe::Readable), FileResponse::Forbidden);
    assert_eq!(serve_file("/plugins", "p", "../a.css", FileProbe::Readable), FileResponse::Forbidden);
    assert_eq!(serve_file("/plugins", "p", "/etc/passwd", FileProbe::Missing), FileResponse::Forbidden);
    assert_eq!(serve_file("/plugins", "p", "a.css", FileProbe::Missing), FileResponse::NotFound);
    assert_eq!(serve_file("/plugins", "p", "a.css", FileProbe::Link), FileResponse::Forbidden);
    assert_eq!(serve_file("/plugins", "p", "a.css", FileProbe::Unresolvable), FileResponse::NotFound);
    assert_eq!(serve_file("/plugins", "p", "a.css", FileProbe::Outside), FileResponse::Forbidden);
    assert_eq!(serve_file("/plugins", "p", "a.css", FileProbe::Unreadable), FileResponse::ReadFailed);
}
