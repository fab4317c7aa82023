//! Serving the pages that plugins bring along: which files may be served,
//! with which content type, and how the host's navigation is put into a page.

use vstd::prelude::*;
use crate::paths::{is_safe_path_component, join, joined, safe_component};
use crate::text::{
    append_chars, chars_of, contains, contains_char, find_last, has_infix, is_literal,
    last_occurrence, lemma_last_occurrence, matches_at, occurs_at, position, slice_of, string_of,
};

verus! {

/// The navigation bar that is put at the top of a plugin's page.
pub const NAV_HEADER: &'static str =
    "<div id=\"qol-plugin-nav\" style=\"position:fixed;top:0;left:0;right:0;background:#1a1a1a;border-bottom:1px solid #333;padding:0.5rem 1rem;display:flex;align-items:center;gap:1rem;z-index:9999;font-family:-apple-system,BlinkMacSystemFont,'Segoe UI',Roboto,sans-serif\">\n<a href=\"/\" style=\"color:#4a9eff;text-decoration:none;font-size:0.9rem\">\u{2190} Back</a>\n</div>\n<div style=\"height:2.5rem\"></div>";

/// The footer that is put at the bottom of a plugin's page.
pub const NAV_FOOTER: &'static str =
    "<div id=\"qol-plugin-footer\" style=\"position:fixed;bottom:0;left:0;right:0;background:#1a1a1a;border-top:1px solid #333;padding:0.5rem;text-align:center;color:#666;font-size:0.85rem;z-index:9999;font-family:-apple-system,BlinkMacSystemFont,'Segoe UI',Roboto,sans-serif\">\nEsc back\n</div>\n<script>document.addEventListener('keydown',e=>{if(e.key==='Escape'){e.preventDefault();window.location.href='/';}})</script>";

/// A path below a plugin's page directory that cannot leave it by its
/// spelling: no `..` anywhere, no NUL, and no separator at its start.
pub open spec fn safe_subpath(path: Seq<char>) -> bool {
    &&& !has_infix(path, ".."@)
    &&& !path.contains('\0')
    &&& !(path.len() > 0 && path.first() == '/')
    &&& !(path.len() > 0 && path.first() == '\\')
}

/// Whether `path` can be served from below a plugin's page directory.
pub fn is_safe_subpath(path: &str) -> (r: bool)
    ensures
        r == safe_subpath(path@),
{
    let p = chars_of(path);
    if contains(&p, &chars_of("..")) {
        return false;
    }
    if contains_char(&p, '\0') {
        return false;
    }
    if p.len() > 0 && (p[0] == '/' || p[0] == '\\') {
        return false;
    }
    true
}

/// The last component of a path: what follows its last `/`.
pub open spec fn file_name_of(path: Seq<char>) -> Seq<char> {
    match last_occurrence(path, "/"@) {
        Some(i) => path.skip(i + 1),
        None => path,
    }
}

/// The extension of a path: what follows the last `.` of its last
/// component, unless that component has no `.`, begins with its only `.`,
/// or is `..`.
pub open spec fn extension_of(path: Seq<char>) -> Option<Seq<char>> {
    let name = file_name_of(path);
    if name == ".."@ {
        None
    } else {
        match last_occurrence(name, "."@) {
            Some(i) => if i > 0 {
                Some(name.skip(i + 1))
            } else {
                None
            },
            None => None,
        }
    }
}

/// The content type for a file with the extension `ext`.
pub open spec fn mime_of(ext: Option<Seq<char>>) -> Seq<char> {
    match ext {
        Some(e) => if e == "html"@ {
            "text/html; charset=utf-8"@
        } else if e == "css"@ {
            "text/css; charset=utf-8"@
        } else if e == "js"@ {
            "application/javascript; charset=utf-8"@
        } else if e == "json"@ {
            "application/json"@
        } else if e == "png"@ {
            "image/png"@
        } else if e == "jpg"@ || e == "jpeg"@ {
            "image/jpeg"@
        } else if e == "svg"@ {
            "image/svg+xml"@
        } else if e == "ico"@ {
            "image/x-icon"@
        } else if e == "woff"@ {
            "font/woff"@
        } else if e == "woff2"@ {
            "font/woff2"@
        } else {
            "application/octet-stream"@
        },
        None => "application/octet-stream"@,
    }
}

/// The extension of `path`, if it has one.
pub fn extension(path: &str) -> (r: Option<Vec<char>>)
    ensures
        match r {
            Some(e) => extension_of(path@) == Some(e@),
            None => extension_of(path@) is None,
        },
{
    let p = chars_of(path);
    proof {
        reveal_strlit("/");
        reveal_strlit(".");
    }
    let name = match find_last(&p, &chars_of("/")) {
        Some(i) => {
            assert(p@.subrange(i + 1, p.len() as int) == p@.skip(i + 1));
            slice_of(&p, i + 1, p.len())
        },
        None => p,
    };
    if is_literal(&name, "..") {
        return None;
    }
    match find_last(&name, &chars_of(".")) {
        Some(i) => {
            if i > 0 {
                assert(name@.subrange(i + 1, name.len() as int) == name@.skip(i + 1));
                Some(slice_of(&name, i + 1, name.len()))
            } else {
                None
            }
        },
        None => None,
    }
}

/// The content type for a file with the extension `ext`.
pub fn mime_for_extension(ext: &Option<Vec<char>>) -> (r: &'static str)
    ensures
        r@ == mime_of(
            match *ext {
                Some(e) => Some(e@),
                None => None,
            },
        ),
{
    match ext {
        Some(e) => {
            if is_literal(e, "html") {
                "text/html; charset=utf-8"
            } else if is_literal(e, "css") {
                "text/css; charset=utf-8"
            } else if is_literal(e, "js") {
                "application/javascript; charset=utf-8"
            } else if is_literal(e, "json") {
                "application/json"
            } else if is_literal(e, "png") {
                "image/png"
            } else if is_literal(e, "jpg") || is_literal(e, "jpeg") {
                "image/jpeg"
            } else if is_literal(e, "svg") {
                "image/svg+xml"
            } else if is_literal(e, "ico") {
                "image/x-icon"
            } else if is_literal(e, "woff") {
                "font/woff"
            } else if is_literal(e, "woff2") {
                "font/woff2"
            } else {
                "application/octet-stream"
            }
        },
        None => "application/octet-stream",
    }
}

/// The content type of the file at `path`, by its extension.
pub fn guess_mime(path: &str) -> (r: &'static str)
    ensures
        r@ == mime_of(extension_of(path@)),
{
    let ext = extension(path);
    mime_for_extension(&ext)
}

/// The part of `html` before position `pos`, all of it where `pos` lies
/// beyond its end.
pub open spec fn before_position(html: Seq<char>, pos: int) -> Seq<char> {
    if 0 <= pos <= html.len() {
        html.take(pos)
    } else {
        html
    }
}

/// Position `pos` of `html` lies inside a comment: before it a comment
/// opens and does not close again.
#[verifier::opaque]
pub open spec fn inside_comment(html: Seq<char>, pos: int) -> bool {
    let before = before_position(html, pos);
    match (last_occurrence(before, "<!--"@), last_occurrence(before, "-->"@)) {
        (Some(start), Some(end)) => start > end,
        (Some(_), None) => true,
        _ => false,
    }
}

/// Whether position `pos` of `html` lies inside a comment.
pub fn is_inside_comment(html: &str, pos: usize) -> (r: bool)
    ensures
        r == inside_comment(html@, pos as int),
{
    let v = chars_of(html);
    inside_comment_at(&v, pos)
}

/// Whether position `pos` of `html` lies inside a comment.
pub fn inside_comment_at(html: &Vec<char>, pos: usize) -> (r: bool)
    ensures
        r == inside_comment(html@, pos as int),
{
    reveal(inside_comment);
    let end = if pos <= html.len() {
        pos
    } else {
        html.len()
    };
    let before = slice_of(html, 0, end);
    assert(before@ == before_position(html@, pos as int)) by {
        if pos > html.len() {
            assert(html@.subrange(0, html.len() as int) == html@);
        }
    }
    let start = find_last(&before, &chars_of("<!--"));
    let close = find_last(&before, &chars_of("-->"));
    match (start, close) {
        (Some(s), Some(e)) => s > e,
        (Some(_), None) => true,
        _ => false,
    }
}

/// Where the tag that begins `tag` ends: the position of the first `>`
/// that stands outside quotes, reading from position `i` with the quote
/// `quote` open.
pub open spec fn tag_end_from(tag: Seq<char>, i: int, quote: Option<char>) -> Option<int>
    decreases tag.len() - i,
{
    if i < 0 || i >= tag.len() {
        None
    } else {
        let c = tag[i];
        match quote {
            None => if c == '"' || c == '\'' {
                tag_end_from(tag, i + 1, Some(c))
            } else if c == '>' {
                Some(i)
            } else {
                tag_end_from(tag, i + 1, None)
            },
            Some(open) => if c == open {
                tag_end_from(tag, i + 1, None)
            } else {
                tag_end_from(tag, i + 1, quote)
            },
        }
    }
}

/// Where the tag that begins `tag` ends.
pub open spec fn tag_end(tag: Seq<char>) -> Option<int> {
    tag_end_from(tag, 0, None)
}

/// The position of the `>` that ends the tag at the beginning of `tag`:
/// the first one outside single and double quotes.
pub fn find_tag_end(tag: &str) -> (r: Option<usize>)
    ensures
        position(r) == tag_end(tag@),
{
    let v = chars_of(tag);
    assert(v@.skip(0) == v@);
    tag_end_in(&v, 0)
}

/// The position of the `>` that ends the tag that begins at `from`,
/// counted from `from`.
pub fn tag_end_in(html: &Vec<char>, from: usize) -> (r: Option<usize>)
    requires
        from <= html.len(),
    ensures
        position(r) == tag_end(html@.skip(from as int)),
        r matches Some(e) ==> from + e < html.len(),
{
    let ghost tag = html@.skip(from as int);
    let mut quote: Option<char> = None;
    let mut i: usize = from;
    while i < html.len()
        invariant
            from <= i <= html.len(),
            tag == html@.skip(from as int),
            tag_end(tag) == tag_end_from(tag, i - from, quote),
        decreases html.len() - i,
    {
        let c = html[i];
        assert(tag[i - from] == c);
        match quote {
            None => {
                if c == '"' || c == '\'' {
                    quote = Some(c);
                } else if c == '>' {
                    return Some(i - from);
                }
            },
            Some(open) => {
                if c == open {
                    quote = None;
                }
            },
        }
        i += 1;
    }
    None
}

/// A `<body` tag opens at position `at` of `html`, in any case of its letters.
pub open spec fn body_opens_at(html: Seq<char>, at: int) -> bool {
    &&& 0 <= at
    &&& at + 5 <= html.len()
    &&& html[at] == '<'
    &&& (html[at + 1] == 'b' || html[at + 1] == 'B')
    &&& (html[at + 2] == 'o' || html[at + 2] == 'O')
    &&& (html[at + 3] == 'd' || html[at + 3] == 'D')
    &&& (html[at + 4] == 'y' || html[at + 4] == 'Y')
}

/// A `<body` tag that is not commented out opens at position `at`.
pub open spec fn live_body_at(html: Seq<char>, at: int) -> bool {
    body_opens_at(html, at) && !inside_comment(html, at)
}

/// The position `at` is the first one at which a `<body` tag opens that is
/// not commented out.
pub open spec fn first_live_body(html: Seq<char>, at: int) -> bool {
    live_body_at(html, at) && forall|j: int| 0 <= j < at ==> !live_body_at(html, j)
}

/// The position just behind the opening `<body ...>` tag of `html`: behind
/// the tag of the first `<body` that is not commented out, if that tag
/// ends at all.
pub open spec fn body_tag_end(html: Seq<char>) -> Option<int> {
    if exists|at: int| first_live_body(html, at) {
        let at = choose|at: int| first_live_body(html, at);
        match tag_end(html.skip(at)) {
            Some(e) => Some(at + e + 1),
            None => None,
        }
    } else {
        None
    }
}

/// Whether a `<body` tag opens at position `at`.
fn body_opens(html: &Vec<char>, at: usize) -> (r: bool)
    ensures
        r == body_opens_at(html@, at as int),
{
    if html.len() < 5 || at > html.len() - 5 {
        return false;
    }
    html[at] == '<' && (html[at + 1] == 'b' || html[at + 1] == 'B') && (html[at + 2] == 'o'
        || html[at + 2] == 'O') && (html[at + 3] == 'd' || html[at + 3] == 'D') && (html[at + 4]
        == 'y' || html[at + 4] == 'Y')
}

/// The position just behind the opening `<body ...>` tag of `html`.
pub fn find_body_tag_end(html: &str) -> (r: Option<usize>)
    ensures
        position(r) == body_tag_end(html@),
        r matches Some(p) ==> p <= html@.len(),
{
    let v = chars_of(html);
    body_tag_end_in(&v)
}

/// The position just behind the opening `<body ...>` tag of `html`.
pub fn body_tag_end_in(html: &Vec<char>) -> (r: Option<usize>)
    ensures
        position(r) == body_tag_end(html@),
        r matches Some(p) ==> p <= html@.len(),
{
    let mut at: usize = 0;
    while at < html.len()
        invariant
            at <= html.len(),
            forall|j: int| 0 <= j < at ==> !live_body_at(html@, j),
        decreases html.len() - at,
    {
        if body_opens(html, at) && !inside_comment_at(html, at) {
            proof {
                assert(first_live_body(html@, at as int));
                assert forall|k: int| first_live_body(html@, k) implies k == at by {
                    if k < at {
                        assert(!live_body_at(html@, k));
                    } else if k > at {
                        assert(!live_body_at(html@, at as int));
                    }
                }
            }
            return match tag_end_in(html, at) {
                Some(e) => Some(at + e + 1),
                None => None,
            };
        }
        at += 1;
    }
    proof {
        assert forall|k: int| !first_live_body(html@, k) by {
            if first_live_body(html@, k) {
                assert(k < html@.len());
                assert(!live_body_at(html@, k));
            }
        }
    }
    None
}

/// `html` with `content` put in at position `at`, or as it is where there
/// is no position.
pub open spec fn inserted(html: Seq<char>, at: Option<int>, content: Seq<char>) -> Seq<char> {
    match at {
        Some(p) => html.take(p) + content + html.skip(p),
        None => html,
    }
}

/// `html` with `content` put in at position `at`.
fn insert_at(html: &Vec<char>, at: Option<usize>, content: &str) -> (r: String)
    requires
        at matches Some(p) ==> p <= html.len(),
    ensures
        r@ == inserted(html@, position(at), content@),
{
    match at {
        Some(p) => {
            let mut out = slice_of(html, 0, p);
            append_chars(&mut out, &chars_of(content));
            append_chars(&mut out, &slice_of(html, p, html.len()));
            assert(html@.subrange(0, p as int) == html@.take(p as int));
            assert(html@.subrange(p as int, html.len() as int) == html@.skip(p as int));
            string_of(&out)
        },
        None => string_of(html),
    }
}

/// `html` with `content` right behind its opening `<body ...>` tag; `html`
/// as it is where it has no such tag.
pub fn inject_after_body_tag(html: &str, content: &str) -> (r: String)
    ensures
        r@ == inserted(html@, body_tag_end(html@), content@),
{
    let v = chars_of(html);
    let at = body_tag_end_in(&v);
    insert_at(&v, at, content)
}

/// `html` with `content` right before its last `</body>`; `html` as it is
/// where it has none.
pub fn inject_before_closing_body(html: &str, content: &str) -> (r: String)
    ensures
        r@ == inserted(html@, last_occurrence(html@, "</body>"@), content@),
{
    let v = chars_of(html);
    let at = find_last(&v, &chars_of("</body>"));
    insert_at(&v, at, content)
}

/// A plugin's page with the host's navigation bar behind its opening
/// `<body>` tag and the host's footer before its closing one.
pub fn inject_plugin_wrapper(html: &str) -> (r: String)
    ensures
        ({
            let with_header = inserted(html@, body_tag_end(html@), NAV_HEADER@);
            r@ == inserted(with_header, last_occurrence(with_header, "</body>"@), NAV_FOOTER@)
        }),
{
    let with_header = inject_after_body_tag(html, NAV_HEADER);
    inject_before_closing_body(with_header.as_str(), NAV_FOOTER)
}

/// What the host found of a file that was asked for.
#[derive(Debug, Clone, Copy, PartialEq, Eq, Structural)]
pub enum FileProbe {
    /// There is no such file.
    Missing,
    /// The file is a link.
    Link,
    /// The file or the page directory cannot be resolved.
    Unresolvable,
    /// The resolved file lies outside the page directory.
    Outside,
    /// The file cannot be read.
    Unreadable,
    /// The file can be read.
    Readable,
}

/// How the host answers a request for a file.
#[derive(Debug, Clone, Copy, PartialEq, Eq)]
pub enum FileResponse {
    /// 403: access denied.
    Forbidden,
    /// 404: file not found.
    NotFound,
    /// 500: the file could not be read.
    ReadFailed,
    /// 200: the file's content, with this content type.
    Serve { content_type: &'static str },
}

/// The file `file_path` of the page directory of the plugin `plugin_id`.
pub open spec fn ui_file(plugins_dir: Seq<char>, plugin_id: Seq<char>, file_path: Seq<char>) -> Seq<
    char,
> {
    joined(joined(joined(plugins_dir, plugin_id), "ui"@), file_path)
}

/// The file `file_path` of the page directory of the plugin `plugin_id`.
pub fn ui_file_path(plugins_dir: &str, plugin_id: &str, file_path: &str) -> (r: String)
    ensures
        r@ == ui_file(plugins_dir@, plugin_id@, file_path@),
{
    let plugin_dir = join(plugins_dir, plugin_id);
    let ui_dir = join(plugin_dir.as_str(), "ui");
    join(ui_dir.as_str(), file_path)
}

/// The answer to a request for the file `file_path` of the plugin
/// `plugin_id`, where `probe` is what the host found at `ui_file_path`.
///
/// A plugin name that is no safe path component, and a file path that is
/// no safe subpath, are refused whatever the host found. So are links and
/// files that lie outside the page directory.
pub fn serve_file(plugins_dir: &str, plugin_id: &str, file_path: &str, probe: FileProbe) -> (r:
    FileResponse)
    ensures
        if !safe_component(plugin_id@) || !safe_subpath(file_path@) {
            r is Forbidden
        } else {
            match probe {
                FileProbe::Missing => r is NotFound,
                FileProbe::Link => r is Forbidden,
                FileProbe::Unresolvable => r is NotFound,
                FileProbe::Outside => r is Forbidden,
                FileProbe::Unreadable => r is ReadFailed,
                FileProbe::Readable => r matches FileResponse::Serve { content_type }
                    && content_type@ == mime_of(
                    extension_of(ui_file(plugins_dir@, plugin_id@, file_path@)),
                ),
            }
        },
{
    if !is_safe_path_component(plugin_id) || !is_safe_subpath(file_path) {
        return FileResponse::Forbidden;
    }
    match probe {
        FileProbe::Missing => FileResponse::NotFound,
        FileProbe::Link => FileResponse::Forbidden,
        FileProbe::Unresolvable => FileResponse::NotFound,
        FileProbe::Outside => FileResponse::Forbidden,
        FileProbe::Unreadable => FileResponse::ReadFailed,
        FileProbe::Readable => {
            let path = ui_file_path(plugins_dir, plugin_id, file_path);
            FileResponse::Serve { content_type: guess_mime(path.as_str()) }
        },
    }
}

} // verus!
