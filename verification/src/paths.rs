//! Where the host keeps its files, and which names are safe inside a path.

use vstd::prelude::*;
use crate::text::{
    append_chars, chars_of, contains_char, find_last, is_literal, last_occurrence, slice_of,
    string_of,
};

verus! {

/// Why a path could not be determined.
#[derive(Debug, Clone, Copy, PartialEq, Eq, Structural)]
pub enum PathError {
    /// The platform names no configuration directory for this user.
    NoConfigDir,
}

impl PathError {
    /// The error in words.
    pub fn message(&self) -> (r: String)
        ensures
            r@ == "Could not determine config directory"@,
    {
        string_of(&chars_of("Could not determine config directory"))
    }
}

/// A name that stays inside the directory it is joined to: not empty, no
/// separator, no NUL, and neither `.` nor `..`.
pub open spec fn safe_component(s: Seq<char>) -> bool {
    &&& s.len() > 0
    &&& !s.contains('/')
    &&& !s.contains('\\')
    &&& !s.contains('\0')
    &&& s != seq!['.', '.']
    &&& s != seq!['.']
}

/// Whether `s` can be used as one component of a path.
pub fn is_safe_path_component(s: &str) -> (r: bool)
    ensures
        r == safe_component(s@),
{
    let v = chars_of(s);
    if v.len() == 0 {
        return false;
    }
    if contains_char(&v, '/') || contains_char(&v, '\\') || contains_char(&v, '\0') {
        return false;
    }
    if v.len() == 1 && v[0] == '.' {
        assert(v@ == seq!['.']);
        return false;
    }
    if v.len() == 2 && v[0] == '.' && v[1] == '.' {
        assert(v@ == seq!['.', '.']);
        return false;
    }
    assert(v@ != seq!['.']) by {
        if v@ == seq!['.'] {
            assert(v@.len() == 1 && v@[0] == '.');
        }
    }
    assert(v@ != seq!['.', '.']) by {
        if v@ == seq!['.', '.'] {
            assert(v@.len() == 2 && v@[0] == '.' && v@[1] == '.');
        }
    }
    true
}

/// `child` adjoined to `base`: an absolute `child` replaces `base`; otherwise
/// the two are put together with one `/` between them unless `base` is empty
/// or already ends in one.
pub open spec fn joined(base: Seq<char>, child: Seq<char>) -> Seq<char> {
    if child.len() > 0 && child.first() == '/' {
        child
    } else if base.len() == 0 || base.last() == '/' {
        base + child
    } else {
        base.push('/') + child
    }
}

/// Adjoins `child` to the path `base`.
pub fn join(base: &str, child: &str) -> (r: String)
    ensures
        r@ == joined(base@, child@),
{
    let b = chars_of(base);
    let c = chars_of(child);
    if c.len() > 0 && c[0] == '/' {
        return string_of(&c);
    }
    let mut out: Vec<char> = b;
    let n = out.len();
    if n > 0 && out[n - 1] != '/' {
        out.push('/');
    }
    append_chars(&mut out, &c);
    string_of(&out)
}

/// `path` up to the end of its last component: without the `/` characters
/// and the components `.` at its end.
pub open spec fn up_to_last_component(path: Seq<char>) -> Seq<char>
    decreases path.len(),
{
    if path.len() > 0 && path.last() == '/' {
        up_to_last_component(path.drop_last())
    } else if path.len() >= 2 && path.last() == '.' && path[path.len() - 2] == '/' {
        up_to_last_component(path.take(path.len() - 2))
    } else {
        path
    }
}

/// `path` with the extension of its last component replaced by `ext`.
///
/// The last component is what follows the last `/`, the `/` characters
/// and the components `.` at the end of the path set aside. Its extension
/// begins at its last `.`, unless that is its first character. The
/// extension and what follows it are cut off, and `.` and `ext` are put in
/// their place; a component without an extension gets them added. A path
/// without a last component (an empty path, `/`, `.`, or one that ends in
/// `..`) stays as it is.
pub open spec fn extension_replaced(path: Seq<char>, ext: Seq<char>) -> Seq<char> {
    let base = up_to_last_component(path);
    let start = match last_occurrence(base, "/"@) {
        Some(i) => i + 1,
        None => 0,
    };
    let name = base.skip(start);
    if name.len() == 0 || name == "."@ || name == ".."@ {
        path
    } else {
        let stem = match last_occurrence(name, "."@) {
            Some(i) => if i > 0 {
                base.take(start + i)
            } else {
                base
            },
            None => base,
        };
        stem + "."@ + ext
    }
}

/// `path` with the extension of its last component replaced by `ext`.
pub fn with_extension(path: &str, ext: &str) -> (r: String)
    ensures
        r@ == extension_replaced(path@, ext@),
{
    let p = chars_of(path);
    let mut n: usize = p.len();
    assert(p@.take(n as int) == p@);
    loop
        invariant
            n <= p.len(),
            up_to_last_component(p@) == up_to_last_component(p@.take(n as int)),
        ensures
            up_to_last_component(p@) == p@.take(n as int),
        decreases n,
    {
        if n > 0 && p[n - 1] == '/' {
            assert(p@.take(n as int).drop_last() == p@.take(n - 1));
            n -= 1;
        } else if n >= 2 && p[n - 1] == '.' && p[n - 2] == '/' {
            assert(p@.take(n as int).take(n - 2) == p@.take(n - 2));
            n -= 2;
        } else {
            break ;
        }
    }
    let base = slice_of(&p, 0, n);
    proof {
        reveal_strlit("/");
        reveal_strlit(".");
        reveal_strlit("..");
        assert(base@ == p@.take(n as int));
    }
    let start: usize = match find_last(&base, &chars_of("/")) {
        Some(i) => i + 1,
        None => 0,
    };
    let name = slice_of(&base, start, base.len());
    assert(name@ == base@.skip(start as int));
    if name.len() == 0 || is_literal(&name, ".") || is_literal(&name, "..") {
        return string_of(&p);
    }
    let keep: usize = match find_last(&name, &chars_of(".")) {
        Some(i) => if i > 0 {
            start + i
        } else {
            base.len()
        },
        None => base.len(),
    };
    let mut out = slice_of(&base, 0, keep);
    assert(out@ == base@.take(keep as int));
    assert(base@.take(base@.len() as int) == base@);
    out.push('.');
    assert(out@ == base@.take(keep as int) + "."@);
    append_chars(&mut out, &chars_of(ext));
    string_of(&out)
}

/// `dirs::config_dir`: the user's configuration directory as the platform and
/// the environment give it. Nothing is claimed of the result.
#[verifier::external_body]
fn platform_config_dir() -> (r: Option<String>) {
    dirs::config_dir().map(|p| p.to_string_lossy().into_owned())
}

/// The host's own directory below the configuration directory `root`.
pub open spec fn app_dir(root: Seq<char>) -> Seq<char> {
    joined(root, "qol-tray"@)
}

/// The path of the host's file `name` below the configuration directory `root`.
pub open spec fn app_file(root: Seq<char>, name: Seq<char>) -> Seq<char> {
    joined(app_dir(root), name)
}

/// The host's directory for the configuration directory `root` that the
/// platform names, if it names one.
pub fn config_dir_from(root: Option<String>) -> (r: Result<String, PathError>)
    ensures
        r matches Ok(p) ==> root matches Some(dir) && p@ == app_dir(dir@),
        r matches Err(e) ==> root is None && e == PathError::NoConfigDir,
{
    match root {
        Some(dir) => Ok(join(dir.as_str(), "qol-tray")),
        None => Err(PathError::NoConfigDir),
    }
}

/// The host's file or directory `name` for the configuration directory
/// `root` that the platform names, if it names one.
pub fn config_file_from(root: Option<String>, name: &str) -> (r: Result<String, PathError>)
    ensures
        r matches Ok(p) ==> root matches Some(dir) && p@ == app_file(dir@, name@),
        r matches Err(e) ==> root is None && e == PathError::NoConfigDir,
{
    match root {
        Some(dir) => {
            let own = join(dir.as_str(), "qol-tray");
            Ok(join(own.as_str(), name))
        },
        None => Err(PathError::NoConfigDir),
    }
}

/// The host's directory: `qol-tray` below the user's configuration directory.
/// Fails only where the platform names no configuration directory.
pub fn config_dir() -> (r: Result<String, PathError>)
    ensures
        r matches Ok(p) ==> exists|root: Seq<char>| p@ == app_dir(root),
        r matches Err(e) ==> e == PathError::NoConfigDir,
{
    let root = platform_config_dir();
    let r = config_dir_from(root);
    proof {
        if r is Ok {
            assert(r->Ok_0@ == app_dir(root->Some_0@));
        }
    }
    r
}

/// The host's file or directory `name`, directly below its own directory.
pub fn config_file(name: &str) -> (r: Result<String, PathError>)
    ensures
        r matches Ok(p) ==> exists|root: Seq<char>| p@ == app_file(root, name@),
        r matches Err(e) ==> e == PathError::NoConfigDir,
{
    let root = platform_config_dir();
    let r = config_file_from(root, name);
    proof {
        if r is Ok {
            assert(r->Ok_0@ == app_file(root->Some_0@, name@));
        }
    }
    r
}

/// The directory that holds one subdirectory per plugin.
pub fn plugins_dir() -> (r: Result<String, PathError>)
    ensures
        r matches Ok(p) ==> exists|root: Seq<char>| p@ == app_file(root, "plugins"@),
        r matches Err(e) ==> e == PathError::NoConfigDir,
{
    config_file("plugins")
}

/// The file that holds the hotkey bindings.
pub fn hotkeys_path() -> (r: Result<String, PathError>)
    ensures
        r matches Ok(p) ==> exists|root: Seq<char>| p@ == app_file(root, "hotkeys.json"@),
        r matches Err(e) ==> e == PathError::NoConfigDir,
{
    config_file("hotkeys.json")
}

/// The file that keeps a copy of every plugin's configuration.
pub fn plugin_configs_path() -> (r: Result<String, PathError>)
    ensures
        r matches Ok(p) ==> exists|root: Seq<char>| p@ == app_file(root, "plugin-configs.json"@),
        r matches Err(e) ==> e == PathError::NoConfigDir,
{
    config_file("plugin-configs.json")
}

/// The file that holds the access token for the plugin index.
pub fn github_token_path() -> (r: Result<String, PathError>)
    ensures
        r matches Ok(p) ==> exists|root: Seq<char>| p@ == app_file(root, ".github-token"@),
        r matches Err(e) ==> e == PathError::NoConfigDir,
{
    config_file(".github-token")
}

/// The file that caches the plugin index.
pub fn plugin_cache_path() -> (r: Result<String, PathError>)
    ensures
        r matches Ok(p) ==> exists|root: Seq<char>| p@ == app_file(root, ".plugin-cache.json"@),
        r matches Err(e) ==> e == PathError::NoConfigDir,
{
    config_file(".plugin-cache.json")
}

/// The file that lists the process ids of the daemons started last.
pub fn daemon_pids_path() -> (r: Option<String>)
    ensures
        r matches Some(p) ==> exists|root: Seq<char>| p@ == app_file(root, ".daemon-pids"@),
{
    match config_file(".daemon-pids") {
        Ok(p) => Some(p),
        Err(_) => None,
    }
}

/// A safe component adjoined to a path extends it by a separator, if one is
/// missing, and the component.
pub proof fn lemma_join_safe_component(base: Seq<char>, name: Seq<char>)
    requires
        safe_component(name),
    ensures
        joined(base, name).len() >= name.len(),
        joined(base, name).subrange(joined(base, name).len() - name.len(), joined(base, name).len() as int)
            == name,
        joined(base, name).subrange(0, base.len() as int) == base,
{
    assert(name.first() != '/') by {
        if name.first() == '/' {
            assert(name[0] == '/');
            assert(name.contains('/'));
        }
    }
}

} // verus!
