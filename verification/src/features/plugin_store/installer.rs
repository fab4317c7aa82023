//! Installing, updating and removing plugins: what is checked and which
//! commands are run. The host runs them.

use vstd::prelude::*;
use crate::paths::{join, joined};
use crate::text::{
    append_chars, chars_of, contains, has_infix, has_prefix, is_literal, matches_at, occurs_at,
    same_chars, slice_of, starts_with, string_of, trim, trimmed,
};

verus! {

/// How long a git command may take, in seconds.
pub const GIT_TIMEOUT_SECS: u64 = 120;

/// How long asking git for the default branch may take, in seconds.
pub const BRANCH_TIMEOUT_SECS: u64 = 10;

/// Installs plugins into a plugin directory.
pub struct PluginInstaller {
    plugins_dir: String,
}

/// Why a plugin was not installed, updated or removed.
#[derive(Debug, Clone, Copy, PartialEq, Eq, Structural)]
pub enum InstallError {
    /// The plugin is installed already.
    AlreadyInstalled,
    /// The plugin is not installed.
    NotInstalled,
}

/// A release asset.
#[derive(Debug, Clone)]
pub struct GitHubAsset {
    pub name: String,
    pub browser_download_url: String,
}

impl PluginInstaller {
    /// The plugin directory.
    pub closed spec fn dir(&self) -> Seq<char> {
        self.plugins_dir@
    }

    /// An installer for the plugin directory `plugins_dir`.
    pub fn new(plugins_dir: String) -> (r: Self)
        ensures
            r.dir() == plugins_dir@,
    {
        Self { plugins_dir }
    }

    /// The directory of the plugin `plugin_id`.
    pub fn plugin_dir(&self, plugin_id: &str) -> (r: String)
        ensures
            r@ == joined(self.dir(), plugin_id@),
    {
        join(self.plugins_dir.as_str(), plugin_id)
    }

    /// The command that installs a plugin: `git clone` of `repo_url` into
    /// the plugin's directory. A plugin whose directory exists is not
    /// installed again.
    pub fn install(&self, repo_url: &str, plugin_id: &str, exists: bool) -> (r: Result<
        Vec<String>,
        InstallError,
    >)
        ensures
            match r {
                Ok(args) => !exists && args@.len() == 3 && args@[0]@ == "clone"@ && args@[1]@
                    == repo_url@ && args@[2]@ == joined(self.dir(), plugin_id@),
                Err(e) => exists && e == InstallError::AlreadyInstalled,
            },
    {
        if exists {
            return Err(InstallError::AlreadyInstalled);
        }
        let mut args: Vec<String> = Vec::new();
        args.push("clone".to_owned());
        args.push(repo_url.to_owned());
        args.push(self.plugin_dir(plugin_id));
        Ok(args)
    }

    /// The first command that updates a plugin: `git fetch origin` in its
    /// directory. A plugin whose directory is missing is not updated.
    pub fn update(&self, plugin_id: &str, exists: bool) -> (r: Result<(String, Vec<String>), InstallError>)
        ensures
            match r {
                Ok((dir, args)) => exists && dir@ == joined(self.dir(), plugin_id@) && args@.len()
                    == 2 && args@[0]@ == "fetch"@ && args@[1]@ == "origin"@,
                Err(e) => !exists && e == InstallError::NotInstalled,
            },
    {
        if !exists {
            return Err(InstallError::NotInstalled);
        }
        let mut args: Vec<String> = Vec::new();
        args.push("fetch".to_owned());
        args.push("origin".to_owned());
        Ok((self.plugin_dir(plugin_id), args))
    }

    /// The directory to remove to uninstall a plugin. A plugin whose
    /// directory is missing is not uninstalled.
    pub fn uninstall(&self, plugin_id: &str, exists: bool) -> (r: Result<String, InstallError>)
        ensures
            match r {
                Ok(dir) => exists && dir@ == joined(self.dir(), plugin_id@),
                Err(e) => !exists && e == InstallError::NotInstalled,
            },
    {
        if !exists {
            return Err(InstallError::NotInstalled);
        }
        Ok(self.plugin_dir(plugin_id))
    }
}

/// The second command that updates a plugin: a hard reset to the branch
/// `branch` of the origin.
pub fn reset_args(branch: &str) -> (r: Vec<String>)
    ensures
        r@.len() == 3,
        r@[0]@ == "reset"@,
        r@[1]@ == "--hard"@,
        r@[2]@ == "origin/"@ + branch@,
{
    let mut target = chars_of("origin/");
    append_chars(&mut target, &chars_of(branch));
    let mut args: Vec<String> = Vec::new();
    args.push("reset".to_owned());
    args.push("--hard".to_owned());
    args.push(string_of(&target));
    args
}

/// The command that asks git for the default branch of the origin.
pub fn symbolic_ref_args() -> (r: Vec<String>)
    ensures
        r@.len() == 3,
        r@[0]@ == "symbolic-ref"@,
        r@[1]@ == "refs/remotes/origin/HEAD"@,
        r@[2]@ == "--short"@,
{
    let mut args: Vec<String> = Vec::new();
    args.push("symbolic-ref".to_owned());
    args.push("refs/remotes/origin/HEAD".to_owned());
    args.push("--short".to_owned());
    args
}

/// A character that a branch name may hold: an ASCII letter or digit, or
/// one of `-`, `_`, `/` and `.`.
pub open spec fn branch_char(c: char) -> bool {
    let n = c as u32;
    ||| 0x30 <= n <= 0x39
    ||| 0x41 <= n <= 0x5A
    ||| 0x61 <= n <= 0x7A
    ||| c == '-'
    ||| c == '_'
    ||| c == '/'
    ||| c == '.'
}

/// A branch name that is safe to hand to git: not empty, at most 256
/// characters, made of branch characters only, not beginning with `-` or
/// `.`, and without `..`.
pub open spec fn safe_branch_name(s: Seq<char>) -> bool {
    &&& 0 < s.len() <= 256
    &&& forall|i: int| 0 <= i < s.len() ==> branch_char(#[trigger] s[i])
    &&& s.first() != '-'
    &&& s.first() != '.'
    &&& !has_infix(s, ".."@)
}

/// Whether `s` is a branch name that is safe to hand to git.
pub fn is_safe_branch_name(s: &str) -> (r: bool)
    ensures
        r == safe_branch_name(s@),
{
    let v = chars_of(s);
    safe_branch(&v)
}

/// Whether `v` is a branch name that is safe to hand to git.
fn safe_branch(v: &Vec<char>) -> (r: bool)
    ensures
        r == safe_branch_name(v@),
{
    if v.len() == 0 || v.len() > 256 {
        return false;
    }
    let mut i: usize = 0;
    while i < v.len()
        invariant
            i <= v.len(),
            forall|j: int| 0 <= j < i ==> branch_char(#[trigger] v@[j]),
        decreases v.len() - i,
    {
        let c = v[i];
        let n: u32 = c as u32;
        let allowed = (0x30 <= n && n <= 0x39) || (0x41 <= n && n <= 0x5A) || (0x61 <= n && n
            <= 0x7A) || c == '-' || c == '_' || c == '/' || c == '.';
        if !allowed {
            assert(!branch_char(v@[i as int]));
            return false;
        }
        i += 1;
    }
    if v[0] == '-' || v[0] == '.' {
        return false;
    }
    !contains(v, &chars_of(".."))
}

/// `s` without every leading `origin/`.
pub open spec fn without_origin(s: Seq<char>) -> Seq<char>
    decreases s.len(),
{
    if has_prefix(s, "origin/"@) && "origin/"@.len() > 0 {
        without_origin(s.skip("origin/"@.len() as int))
    } else {
        s
    }
}

/// The default branch of the origin, from what git answered: the answer
/// without white space and without leading `origin/`, if git succeeded and
/// that is a safe branch name; `master` otherwise.
pub fn get_default_branch(succeeded: bool, stdout: &str) -> (r: String)
    ensures
        r@ == if succeeded && safe_branch_name(without_origin(trimmed(stdout@))) {
            without_origin(trimmed(stdout@))
        } else {
            "master"@
        },
{
    if !succeeded {
        return "master".to_owned();
    }
    let text = trim(&chars_of(stdout));
    let prefix = chars_of("origin/");
    proof {
        reveal_strlit("origin/");
    }
    let n = text.len();
    let mut start: usize = 0;
    assert(text@.subrange(0, n as int) == text@);
    while n - start >= prefix.len() && matches_at(&text, &prefix, start)
        invariant
            start <= n == text.len(),
            prefix@ == "origin/"@,
            prefix@.len() == 7,
            without_origin(text@) == without_origin(text@.subrange(start as int, n as int)),
        decreases n - start,
    {
        proof {
            let rest = text@.subrange(start as int, n as int);
            assert(rest.subrange(0, 7) == text@.subrange(start as int, start + 7));
            assert(has_prefix(rest, prefix@));
            assert(rest.skip(7) == text@.subrange(start + 7, n as int));
        }
        start += prefix.len();
    }
    proof {
        let rest = text@.subrange(start as int, n as int);
        if has_prefix(rest, prefix@) {
            assert(rest.subrange(0, 7) == text@.subrange(start as int, start + 7));
            assert(occurs_at(text@, prefix@, start as int));
        }
    }
    let branch = slice_of(&text, start, n);
    if safe_branch(&branch) {
        string_of(&branch)
    } else {
        "master".to_owned()
    }
}

/// The name by which release assets call the operating system `target_os`.
pub fn get_os_name(target_os: &str) -> (r: &'static str)
    ensures
        r@ == if target_os@ == "linux"@ {
            "linux"@
        } else if target_os@ == "macos"@ {
            "macos"@
        } else if target_os@ == "windows"@ {
            "windows"@
        } else {
            "unknown"@
        },
{
    let t = chars_of(target_os);
    if is_literal(&t, "linux") {
        "linux"
    } else if is_literal(&t, "macos") {
        "macos"
    } else if is_literal(&t, "windows") {
        "windows"
    } else {
        "unknown"
    }
}

/// The name by which release assets call the processor `target_arch`.
pub fn get_arch_name(target_arch: &str) -> (r: &'static str)
    ensures
        r@ == if target_arch@ == "x86_64"@ {
            "x86_64"@
        } else if target_arch@ == "aarch64"@ {
            "aarch64"@
        } else {
            "unknown"@
        },
{
    let t = chars_of(target_arch);
    if is_literal(&t, "x86_64") {
        "x86_64"
    } else if is_literal(&t, "aarch64") {
        "aarch64"
    } else {
        "unknown"
    }
}

/// `s` with every occurrence of `from` replaced by `to`, reading from the
/// left and never looking into a replacement. An empty `from` replaces nothing.
pub open spec fn replaced(s: Seq<char>, from: Seq<char>, to: Seq<char>) -> Seq<char>
    decreases s.len(),
{
    if from.len() == 0 || s.len() == 0 {
        s
    } else if has_prefix(s, from) {
        to + replaced(s.skip(from.len() as int), from, to)
    } else {
        seq![s.first()] + replaced(s.drop_first(), from, to)
    }
}

/// `s` with every occurrence of `from` replaced by `to`.
pub fn replace_all(s: &Vec<char>, from: &Vec<char>, to: &Vec<char>) -> (r: Vec<char>)
    ensures
        r@ == replaced(s@, from@, to@),
{
    if from.len() == 0 {
        return slice_of(s, 0, s.len());
    }
    let n = s.len();
    let mut out: Vec<char> = Vec::new();
    let mut i: usize = 0;
    assert(s@.subrange(0, n as int) == s@);
    while i < n
        invariant
            i <= n == s.len(),
            from.len() > 0,
            replaced(s@, from@, to@) == out@ + replaced(s@.subrange(i as int, n as int), from@, to@),
        decreases n - i,
    {
        let ghost rest = s@.subrange(i as int, n as int);
        let ghost old_out = out@;
        if matches_at(s, from, i) {
            proof {
                assert(rest.subrange(0, from@.len() as int) == s@.subrange(
                    i as int,
                    i + from@.len(),
                ));
                assert(has_prefix(rest, from@));
                assert(rest.skip(from@.len() as int) == s@.subrange(i + from@.len(), n as int));
            }
            append_chars(&mut out, to);
            i += from.len();
            assert(out@ + replaced(s@.subrange(i as int, n as int), from@, to@) == old_out + (to@
                + replaced(s@.subrange(i as int, n as int), from@, to@)));
        } else {
            proof {
                if has_prefix(rest, from@) {
                    assert(rest.subrange(0, from@.len() as int) == s@.subrange(
                        i as int,
                        i + from@.len(),
                    ));
                    assert(occurs_at(s@, from@, i as int));
                }
                assert(rest.first() == s@[i as int]);
                assert(rest.drop_first() == s@.subrange(i + 1, n as int));
            }
            out.push(s[i]);
            i += 1;
            assert(out@ + replaced(s@.subrange(i as int, n as int), from@, to@) == old_out + (
            seq![s@[i - 1]] + replaced(s@.subrange(i as int, n as int), from@, to@)));
        }
    }
    assert(s@.subrange(n as int, n as int) == Seq::<char>::empty());
    assert(out@ + Seq::<char>::empty() == out@);
    out
}

/// The name of the asset that the pattern `pattern` stands for on the
/// operating system `os` and the processor `arch`: `{os}` and `{arch}` are
/// filled in, and `.exe` is added on Windows.
pub fn resolve_asset_pattern(pattern: &str, os: &str, arch: &str, windows: bool) -> (r: String)
    ensures
        r@ == replaced(replaced(pattern@, "{os}"@, os@), "{arch}"@, arch@) + if windows {
            ".exe"@
        } else {
            Seq::<char>::empty()
        },
{
    let with_os = replace_all(&chars_of(pattern), &chars_of("{os}"), &chars_of(os));
    let mut name = replace_all(&with_os, &chars_of("{arch}"), &chars_of(arch));
    if windows {
        append_chars(&mut name, &chars_of(".exe"));
    } else {
        assert(name@ + Seq::<char>::empty() == name@);
    }
    string_of(&name)
}

/// The first asset of `assets` with the name `name`.
pub fn find_asset<'a>(assets: &'a Vec<GitHubAsset>, name: &str) -> (r: Option<&'a GitHubAsset>)
    ensures
        match r {
            Some(a) => exists|i: int|
                0 <= i < assets@.len() && *a == #[trigger] assets@[i] && a.name@ == name@
                    && forall|j: int| 0 <= j < i ==> (#[trigger] assets@[j]).name@ != name@,
            None => forall|j: int| 0 <= j < assets@.len() ==> (#[trigger] assets@[j]).name@ != name@,
        },
{
    let wanted = chars_of(name);
    let mut i: usize = 0;
    while i < assets.len()
        invariant
            i <= assets.len(),
            wanted@ == name@,
            forall|j: int| 0 <= j < i ==> (#[trigger] assets@[j]).name@ != name@,
        decreases assets.len() - i,
    {
        if same_chars(&chars_of(assets[i].name.as_str()), &wanted) {
            return Some(&assets[i]);
        }
        i += 1;
    }
    None
}

/// The address that describes the latest release of the repository `repo`.
pub fn latest_release_url(repo: &str) -> (r: String)
    ensures
        r@ == "https://api.github.com/repos/"@ + repo@ + "/releases/latest"@,
{
    let mut out = chars_of("https://api.github.com/repos/");
    append_chars(&mut out, &chars_of(repo));
    append_chars(&mut out, &chars_of("/releases/latest"));
    string_of(&out)
}

} // verus!
