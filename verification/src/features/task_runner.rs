//! The task runner: named shell commands with parameters.

use vstd::prelude::*;
use crate::text::{append_chars, chars_of, same_chars, slice_of, string_of};

verus! {

/// The name of the file that holds the task runner's configuration.
pub const CONFIG_FILENAME: &'static str = "task-runner.json";

/// One command that can be run by name.
#[derive(Debug, Clone)]
pub struct ActionConfig {
    pub name: String,
    pub description: String,
    pub command: String,
    pub timeout: u64,
    pub cwd: Option<String>,
}

/// The time a command may take where its configuration names none, in seconds.
pub fn default_timeout() -> (r: u64)
    ensures
        r == 60,
{
    60
}

/// The commands of the task runner, each under its identifier.
#[derive(Debug, Clone, Default)]
pub struct TaskRunnerConfig {
    pub actions: Vec<(String, ActionConfig)>,
}

/// What a list of actions tells of one action.
#[derive(Debug, Clone)]
pub struct ActionInfo {
    pub id: String,
    pub name: String,
    pub description: String,
}

/// The value that `pairs` gives under `key`: the one of the first pair with
/// that key, and the empty text where there is none.
pub open spec fn value_of(pairs: Seq<(String, String)>, key: Seq<char>) -> Seq<char>
    decreases pairs.len(),
{
    if pairs.len() == 0 {
        Seq::empty()
    } else if pairs.first().0@ == key {
        pairs.first().1@
    } else {
        value_of(pairs.drop_first(), key)
    }
}

/// The value that `pairs` gives under `key`.
pub fn lookup(pairs: &Vec<(String, String)>, key: &Vec<char>) -> (r: Vec<char>)
    ensures
        r@ == value_of(pairs@, key@),
{
    let mut i: usize = 0;
    assert(pairs@.skip(0) == pairs@);
    while i < pairs.len()
        invariant
            i <= pairs.len(),
            value_of(pairs@, key@) == value_of(pairs@.skip(i as int), key@),
        decreases pairs.len() - i,
    {
        proof {
            assert(pairs@.skip(i as int).first() == pairs@[i as int]);
            assert(pairs@.skip(i as int).drop_first() == pairs@.skip(i + 1));
        }
        if same_chars(&chars_of(pairs[i].0.as_str()), key) {
            return chars_of(pairs[i].1.as_str());
        }
        i += 1;
    }
    Vec::new()
}

/// Whether the pattern `\w` of the `regex` crate matches the character `c`.
pub uninterp spec fn word_char(c: char) -> bool;

/// `Regex::is_match` with the pattern `^\w$`, for each character of
/// `text`: whether it is a word character. Braces are none.
#[verifier::external_body]
fn word_flags(text: &str) -> (r: Vec<bool>)
    ensures
        r@.len() == text@.len(),
        forall|i: int| 0 <= i < r@.len() ==> r@[i] == word_char(text@[i]),
        forall|i: int| 0 <= i < r@.len() && (text@[i] == '{' || text@[i] == '}') ==> !r@[i],
{
    let word = regex::Regex::new(r"^\w$").unwrap();
    text.chars().map(|c| word.is_match(c.encode_utf8(&mut [0u8; 4]))).collect()
}

/// The number of word characters in a row from position `i` on.
pub open spec fn word_run(word: Seq<bool>, i: int) -> int
    decreases word.len() - i,
{
    if 0 <= i < word.len() && word[i] {
        1 + word_run(word, i + 1)
    } else {
        0
    }
}

/// A placeholder begins at position `i` of `s`: two opening braces, one or
/// more word characters, and two closing braces. The result is the number
/// of word characters.
pub open spec fn placeholder_at(s: Seq<char>, word: Seq<bool>, i: int) -> Option<int> {
    let k = word_run(word, i + 2);
    if 0 <= i && i + 4 + k <= s.len() && s[i] == '{' && s[i + 1] == '{' && k >= 1 && s[i + 2 + k]
        == '}' && s[i + 3 + k] == '}' {
        Some(k)
    } else {
        None
    }
}

/// `s` from position `i` on, with every placeholder replaced by the value
/// of its name; placeholders are looked for from the left, and not inside
/// a placeholder that was found.
pub open spec fn interpolated_from(
    s: Seq<char>,
    word: Seq<bool>,
    params: Seq<(String, String)>,
    i: int,
) -> Seq<char>
    decreases s.len() - i,
{
    if i < 0 || i >= s.len() {
        Seq::empty()
    } else {
        match placeholder_at(s, word, i) {
            Some(k) => value_of(params, s.subrange(i + 2, i + 2 + k)) + interpolated_from(
                s,
                word,
                params,
                i + 4 + k,
            ),
            None => seq![s[i]] + interpolated_from(s, word, params, i + 1),
        }
    }
}

/// For each character of `s`, whether it is a word character.
pub open spec fn word_flags_of(s: Seq<char>) -> Seq<bool> {
    Seq::new(s.len(), |i: int| word_char(s[i]))
}

/// `template` with every placeholder `{{name}}` replaced by the value that
/// `params` gives under `name`, where `word[i]` says whether character `i`
/// of `template` is a word character.
pub fn interpolate_with(template: &Vec<char>, word: &Vec<bool>, params: &Vec<(String, String)>) -> (r:
    Vec<char>)
    requires
        word@.len() == template@.len(),
    ensures
        r@ == interpolated_from(template@, word@, params@, 0),
{
    let n = template.len();
    let mut out: Vec<char> = Vec::new();
    let mut i: usize = 0;
    while i < n
        invariant
            i <= n == template.len(),
            word@.len() == n,
            interpolated_from(template@, word@, params@, 0) == out@ + interpolated_from(
                template@,
                word@,
                params@,
                i as int,
            ),
        decreases n - i,
    {
        let ghost old_out = out@;
        let mut key_len: usize = 0;
        let mut found = false;
        if n - i >= 5 && template[i] == '{' && template[i + 1] == '{' {
            let mut j: usize = i + 2;
            while j < n && word[j]
                invariant
                    i + 2 <= j <= n,
                    n == word@.len(),
                    word_run(word@, i + 2) == (j - (i + 2)) + word_run(word@, j as int),
                decreases n - j,
            {
                j += 1;
            }
            key_len = j - (i + 2);
            if key_len >= 1 && n - j >= 2 && template[j] == '}' && template[j + 1] == '}' {
                found = true;
            }
        }
        proof {
            assert(found <==> placeholder_at(template@, word@, i as int) is Some);
            if found {
                assert(placeholder_at(template@, word@, i as int) == Some(key_len as int));
            }
        }
        if found {
            let key = slice_of(template, i + 2, i + 2 + key_len);
            let value = lookup(params, &key);
            append_chars(&mut out, &value);
            i = i + 4 + key_len;
            assert(out@ + interpolated_from(template@, word@, params@, i as int) == old_out + (
            value@ + interpolated_from(template@, word@, params@, i as int)));
        } else {
            out.push(template[i]);
            i += 1;
            assert(out@ + interpolated_from(template@, word@, params@, i as int) == old_out + (
            seq![template@[i - 1]] + interpolated_from(template@, word@, params@, i as int)));
        }
    }
    assert(out@ + Seq::<char>::empty() == out@);
    out
}

/// `template` with every placeholder `{{name}}` replaced by the value that
/// `params` gives under `name`; a name is one or more word characters, and
/// a name without a value is replaced by nothing. Everything else stays.
pub fn interpolate(template: &str, params: &Vec<(String, String)>) -> (r: String)
    ensures
        r@ == interpolated_from(template@, word_flags_of(template@), params@, 0),
{
    let word = word_flags(template);
    assert(word@ =~= word_flags_of(template@));
    string_of(&interpolate_with(&chars_of(template), &word, params))
}

impl TaskRunnerConfig {
    /// The position of the action with the identifier `id`: the first one.
    pub open spec fn position_of(&self, id: Seq<char>, i: int) -> bool {
        &&& 0 <= i < self.actions@.len()
        &&& self.actions@[i].0@ == id
        &&& forall|j: int| 0 <= j < i ==> (#[trigger] self.actions@[j]).0@ != id
    }

    /// The action with the identifier `id`.
    pub fn get(&self, id: &str) -> (r: Option<&ActionConfig>)
        ensures
            match r {
                Some(a) => exists|i: int|
                    #[trigger] self.position_of(id@, i) && *a == self.actions@[i].1,
                None => forall|j: int|
                    0 <= j < self.actions@.len() ==> (#[trigger] self.actions@[j]).0@ != id@,
            },
    {
        let wanted = chars_of(id);
        let mut i: usize = 0;
        while i < self.actions.len()
            invariant
                i <= self.actions.len(),
                wanted@ == id@,
                forall|j: int| 0 <= j < i ==> (#[trigger] self.actions@[j]).0@ != id@,
            decreases self.actions.len() - i,
        {
            if same_chars(&chars_of(self.actions[i].0.as_str()), &wanted) {
                assert(self.position_of(id@, i as int));
                return Some(&self.actions[i].1);
            }
            i += 1;
        }
        None
    }

    /// What a list tells of the actions: identifier, name and description
    /// of each, in order.
    pub fn list_actions(&self) -> (r: Vec<ActionInfo>)
        ensures
            r@.len() == self.actions@.len(),
            forall|i: int|
                0 <= i < r@.len() ==> (#[trigger] r@[i]).id@ == self.actions@[i].0@ && r@[i].name@
                    == self.actions@[i].1.name@ && r@[i].description@
                    == self.actions@[i].1.description@,
    {
        let mut r: Vec<ActionInfo> = Vec::new();
        let mut i: usize = 0;
        while i < self.actions.len()
            invariant
                i <= self.actions.len(),
                r@.len() == i,
                forall|k: int|
                    0 <= k < i ==> (#[trigger] r@[k]).id@ == self.actions@[k].0@ && r@[k].name@
                        == self.actions@[k].1.name@ && r@[k].description@
                        == self.actions@[k].1.description@,
            decreases self.actions.len() - i,
        {
            let (id, action) = &self.actions[i];
            r.push(
                ActionInfo {
                    id: id.clone(),
                    name: action.name.clone(),
                    description: action.description.clone(),
                },
            );
            i += 1;
        }
        r
    }
}

/// A command that is ready to run.
#[derive(Debug, Clone)]
pub struct PreparedCommand {
    /// The command line for the shell.
    pub command: String,
    /// The directory to run it in, if any.
    pub cwd: Option<String>,
    /// The time it may take, in seconds.
    pub timeout: u64,
}

/// The command of `action` with the parameters `params` filled in, in the
/// command line and in the working directory.
pub fn execute_action(action: &ActionConfig, params: &Vec<(String, String)>) -> (r: PreparedCommand)
    ensures
        r.command@ == interpolated_from(
            action.command@,
            word_flags_of(action.command@),
            params@,
            0,
        ),
        r.timeout == action.timeout,
        match (r.cwd, action.cwd) {
            (Some(dir), Some(template)) => dir@ == interpolated_from(
                template@,
                word_flags_of(template@),
                params@,
                0,
            ),
            (None, None) => true,
            _ => false,
        },
{
    let command = interpolate(action.command.as_str(), params);
    let cwd = match &action.cwd {
        Some(template) => Some(interpolate(template.as_str(), params)),
        None => None,
    };
    PreparedCommand { command, cwd, timeout: action.timeout }
}

/// The exit code to report: the code of the process, or -1 where it has
/// none because a signal ended it.
pub fn exit_code(code: Option<i32>) -> (r: i32)
    ensures
        r == match code {
            Some(c) => c,
            None => -1i32,
        },
{
    match code {
        Some(c) => c,
        None => -1,
    }
}

} // verus!
