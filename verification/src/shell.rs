//! Per-machine shell catalog and invocation templates.
//!
//! Each detected shell carries an `arg_template` whose `{cmd}` placeholder is
//! replaced by the rule's command **as a single argument** at execution time.
//! Which shells exist is found on disk by the caller; this module holds the
//! candidates of each platform and builds the catalog from what was found.

use crate::text::{concat_str, str_eq};
use vstd::prelude::*;

verus! {

#[derive(Clone, Debug)]
pub struct ShellInfo {
    /// Stable key stored on rules (e.g. "powershell", "cmd", "zsh").
    pub key: String,
    /// Human label for the UI.
    pub label: String,
    /// Absolute path to the shell binary.
    pub path: String,
    /// Argument template containing the `{cmd}` placeholder.
    pub arg_template: String,
}

#[derive(Clone, Debug)]
pub struct ShellCatalog {
    pub shells: Vec<ShellInfo>,
}

impl Default for ShellCatalog {
    /// The empty catalog.
    fn default() -> (c: ShellCatalog)
        ensures
            c.shells@.len() == 0,
    {
        ShellCatalog { shells: Vec::new() }
    }
}

/// The position of the first shell with the given key.
pub open spec fn first_with_key(shells: Seq<ShellInfo>, key: Seq<char>, i: int) -> bool {
    &&& 0 <= i < shells.len()
    &&& shells[i].key@ == key
    &&& forall|j: int| 0 <= j < i ==> shells[j].key@ != key
}

impl ShellCatalog {
    /// The first shell registered under `key`.
    pub fn get(&self, key: &str) -> (r: Option<&ShellInfo>)
        ensures
            match r {
                Some(info) => exists|i: int| first_with_key(self.shells@, key@, i) && *info == self.shells@[i],
                None => forall|i: int| 0 <= i < self.shells@.len() ==> self.shells@[i].key@ != key@,
            },
    {
        let n = self.shells.len();
        for i in 0..n
            invariant
                n == self.shells@.len(),
                forall|j: int| 0 <= j < i ==> self.shells@[j].key@ != key@,
        {
            if str_eq(self.shells[i].key.as_str(), key) {
                assert(first_with_key(self.shells@, key@, i as int));
                return Some(&self.shells[i]);
            }
        }
        None
    }
}

/// A shell that may be installed: where to look for it and how to call it.
#[derive(Clone, Debug)]
pub struct ShellCandidate {
    pub key: String,
    pub label: String,
    pub arg_template: String,
    /// Absolute paths to try first, in order (the first that is a file wins).
    pub paths: Vec<String>,
    /// A program name to search for in `PATH` when none of `paths` is a file.
    pub search: Option<String>,
}

/// An optional string as characters.
pub open spec fn opt_chars(s: Option<String>) -> Option<Seq<char>> {
    match s {
        Some(x) => Some(x@),
        None => None,
    }
}

/// `c` is the candidate with these key, label, argument template, paths
/// and program to search for.
pub open spec fn candidate_is(
    c: ShellCandidate,
    key: Seq<char>,
    label: Seq<char>,
    template: Seq<char>,
    paths: Seq<Seq<char>>,
    search: Option<Seq<char>>,
) -> bool {
    &&& c.key@ == key
    &&& c.label@ == label
    &&& c.arg_template@ == template
    &&& c.paths@.map_values(|p: String| p@) == paths
    &&& opt_chars(c.search) == search
}

fn candidate(key: &str, label: &str, arg_template: &str, paths: Vec<String>, search: Option<
    &str,
>) -> (c: ShellCandidate)
    ensures
        candidate_is(
            c,
            key@,
            label@,
            arg_template@,
            paths@.map_values(|p: String| p@),
            match search {
                Some(s) => Some(s@),
                None => None,
            },
        ),
{
    ShellCandidate {
        key: String::from_str(key),
        label: String::from_str(label),
        arg_template: String::from_str(arg_template),
        paths,
        search: match search {
            Some(s) => Some(String::from_str(s)),
            None => None,
        },
    }
}

fn one_path(p: &str) -> (v: Vec<String>)
    ensures
        v@.map_values(|s: String| s@) == seq![p@],
{
    let mut v: Vec<String> = Vec::new();
    v.push(String::from_str(p));
    assert(v@.map_values(|s: String| s@) =~= seq![p@]);
    v
}

/// The shells looked for on macOS and other Unix systems, in catalog order:
/// zsh, bash and sh at `/bin` (else in `PATH`), then fish in `PATH`.
pub fn unix_candidates() -> (c: Vec<ShellCandidate>)
    ensures
        c@.len() == 4,
        candidate_is(c@[0], "zsh"@, "Zsh"@, "-c {cmd}"@, seq!["/bin/zsh"@], Some("zsh"@)),
        candidate_is(c@[1], "bash"@, "Bash"@, "-c {cmd}"@, seq!["/bin/bash"@], Some("bash"@)),
        candidate_is(c@[2], "sh"@, "sh"@, "-c {cmd}"@, seq!["/bin/sh"@], Some("sh"@)),
        candidate_is(c@[3], "fish"@, "fish"@, "-c {cmd}"@, Seq::empty(), Some("fish"@)),
{
    let mut c: Vec<ShellCandidate> = Vec::new();
    c.push(candidate("zsh", "Zsh", "-c {cmd}", one_path("/bin/zsh"), Some("zsh")));
    c.push(candidate("bash", "Bash", "-c {cmd}", one_path("/bin/bash"), Some("bash")));
    c.push(candidate("sh", "sh", "-c {cmd}", one_path("/bin/sh"), Some("sh")));
    let none: Vec<String> = Vec::new();
    assert(none@.map_values(|p: String| p@) =~= Seq::<Seq<char>>::empty());
    c.push(candidate("fish", "fish", "-c {cmd}", none, Some("fish")));
    c
}

/// The Windows directory: `SystemRoot`, or `C:\Windows` when it is unset.
pub open spec fn windows_root(system_root: Option<String>) -> Seq<char> {
    match system_root {
        Some(r) => r@,
        None => "C:\\Windows"@,
    }
}

/// The shells looked for on Windows, in catalog order, given the `SystemRoot`
/// and `ComSpec` variables: Command Prompt at `ComSpec` (if set) else in the
/// system directory, Windows PowerShell in the system directory else in
/// `PATH`, PowerShell 7+ in `PATH`, Git Bash at its usual places else in
/// `PATH`, and WSL in `PATH`.
pub fn windows_candidates(system_root: Option<String>, comspec: Option<String>) -> (c: Vec<
    ShellCandidate,
>)
    ensures
        c@.len() == 5,
        candidate_is(
            c@[0],
            "cmd"@,
            "Command Prompt (cmd)"@,
            "/C {cmd}"@,
            match comspec {
                Some(cs) => seq![cs@],
                None => Seq::empty(),
            } + seq![windows_root(system_root) + "\\System32\\cmd.exe"@],
            None,
        ),
        candidate_is(
            c@[1],
            "powershell"@,
            "Windows PowerShell"@,
            "-NoProfile -Command {cmd}"@,
            seq![windows_root(system_root) + "\\System32\\WindowsPowerShell\\v1.0\\powershell.exe"@],
            Some("powershell.exe"@),
        ),
        candidate_is(
            c@[2],
            "pwsh"@,
            "PowerShell 7+"@,
            "-NoProfile -Command {cmd}"@,
            Seq::empty(),
            Some("pwsh.exe"@),
        ),
        candidate_is(
            c@[3],
            "gitbash"@,
            "Git Bash"@,
            "-c {cmd}"@,
            seq!["C:\\Program Files\\Git\\bin\\bash.exe"@, "C:\\Program Files (x86)\\Git\\bin\\bash.exe"@],
            Some("bash.exe"@),
        ),
        candidate_is(c@[4], "wsl"@, "WSL (bash)"@, "-e bash -c {cmd}"@, Seq::empty(), Some("wsl.exe"@)),
{
    let root = match system_root {
        Some(r) => r,
        None => String::from_str("C:\\Windows"),
    };
    let mut cmd_paths: Vec<String> = Vec::new();
    if let Some(cs) = comspec {
        cmd_paths.push(cs);
    }
    cmd_paths.push(concat_str(root.as_str(), "\\System32\\cmd.exe"));
    let ps_path = concat_str(root.as_str(), "\\System32\\WindowsPowerShell\\v1.0\\powershell.exe");
    let mut git_paths: Vec<String> = Vec::new();
    git_paths.push(String::from_str("C:\\Program Files\\Git\\bin\\bash.exe"));
    git_paths.push(String::from_str("C:\\Program Files (x86)\\Git\\bin\\bash.exe"));
    let mut ps_paths: Vec<String> = Vec::new();
    ps_paths.push(ps_path);
    let none1: Vec<String> = Vec::new();
    let none2: Vec<String> = Vec::new();
    proof {
        assert(cmd_paths@.map_values(|p: String| p@) =~= match comspec {
            Some(cs) => seq![cs@],
            None => Seq::<Seq<char>>::empty(),
        } + seq![windows_root(system_root) + "\\System32\\cmd.exe"@]);
        assert(ps_paths@.map_values(|p: String| p@) =~= seq![windows_root(system_root)
            + "\\System32\\WindowsPowerShell\\v1.0\\powershell.exe"@]);
        assert(git_paths@.map_values(|p: String| p@) =~= seq![
            "C:\\Program Files\\Git\\bin\\bash.exe"@,
            "C:\\Program Files (x86)\\Git\\bin\\bash.exe"@,
        ]);
        assert(none1@.map_values(|p: String| p@) =~= Seq::<Seq<char>>::empty());
        assert(none2@.map_values(|p: String| p@) =~= Seq::<Seq<char>>::empty());
    }
    let mut c: Vec<ShellCandidate> = Vec::new();
    c.push(candidate("cmd", "Command Prompt (cmd)", "/C {cmd}", cmd_paths, None));
    c.push(candidate("powershell", "Windows PowerShell", "-NoProfile -Command {cmd}", ps_paths, Some("powershell.exe")));
    c.push(candidate("pwsh", "PowerShell 7+", "-NoProfile -Command {cmd}", none1, Some("pwsh.exe")));
    c.push(candidate("gitbash", "Git Bash", "-c {cmd}", git_paths, Some("bash.exe")));
    c.push(candidate("wsl", "WSL (bash)", "-e bash -c {cmd}", none2, Some("wsl.exe")));
    c
}

/// `i` is the first position at which `is_file` holds.
pub open spec fn first_file_at(is_file: Seq<bool>, i: int) -> bool {
    &&& 0 <= i < is_file.len()
    &&& is_file[i]
    &&& forall|j: int| 0 <= j < i ==> !is_file[j]
}

/// The first of `paths` that is a file (`is_file[i]` says whether `paths[i]`
/// is), if any.
pub fn first_existing(paths: &[String], is_file: &[bool]) -> (r: Option<String>)
    requires
        is_file@.len() == paths@.len(),
    ensures
        match r {
            Some(p) => exists|i: int| first_file_at(is_file@, i) && p == paths@[i],
            None => forall|j: int| 0 <= j < paths@.len() ==> !is_file@[j],
        },
{
    let n = paths.len();
    for i in 0..n
        invariant
            n == paths@.len() == is_file@.len(),
            forall|j: int| 0 <= j < i ==> !is_file@[j],
    {
        if is_file[i] {
            assert(first_file_at(is_file@, i as int));
            return Some(paths[i].clone());
        }
    }
    None
}

/// Where a candidate shell is: the first of its paths that is a file, else
/// where the search of `PATH` for its program found it (`in_path`), else
/// nowhere.
pub fn locate(cand: &ShellCandidate, is_file: &[bool], in_path: Option<String>) -> (r: Option<String>)
    requires
        is_file@.len() == cand.paths@.len(),
    ensures
        (exists|i: int| first_file_at(is_file@, i) && r == Some(cand.paths@[i])) || ((forall|j: int|
            0 <= j < is_file@.len() ==> !is_file@[j]) && r == (if cand.search is Some {
            in_path
        } else {
            None
        })),
{
    match first_existing(cand.paths.as_slice(), is_file) {
        Some(p) => Some(p),
        None => match &cand.search {
            Some(_) => in_path,
            None => None,
        },
    }
}

/// The shells of `cands` that were found, in order, each at the path where it
/// was found.
pub open spec fn found_shells(cands: Seq<ShellCandidate>, found: Seq<Option<String>>) -> Seq<ShellInfo>
    decreases cands.len(),
{
    if cands.len() == 0 || found.len() == 0 {
        Seq::empty()
    } else {
        let rest = found_shells(cands.drop_last(), found.take(cands.len() - 1));
        match found[cands.len() - 1] {
            Some(p) => rest.push(ShellInfo {
                key: cands.last().key,
                label: cands.last().label,
                path: p,
                arg_template: cands.last().arg_template,
            }),
            None => rest,
        }
    }
}

impl ShellCatalog {
    /// The catalog of the candidate shells that were found (`found[i]` is
    /// where candidate `i` is, if anywhere).
    pub fn detect(cands: Vec<ShellCandidate>, found: Vec<Option<String>>) -> (c: ShellCatalog)
        requires
            found@.len() == cands@.len(),
        ensures
            c.shells@ == found_shells(cands@, found@),
    {
        let ghost cs = cands@;
        let ghost fs = found@;
        let n = cands.len();
        let mut shells: Vec<ShellInfo> = Vec::new();
        let mut i: usize = 0;
        assert(cs.take(0) =~= Seq::<ShellCandidate>::empty());
        while i < n
            invariant
                n == cs.len() == fs.len(),
                i <= n,
                cands@ == cs,
                found@ == fs,
                shells@ == found_shells(cs.take(i as int), fs.take(i as int)),
            decreases n - i,
        {
            proof {
                assert(cs.take(i + 1).drop_last() =~= cs.take(i as int));
                assert(fs.take(i + 1).take(i as int) =~= fs.take(i as int));
            }
            match &found[i] {
                Some(p) => {
                    let c = &cands[i];
                    shells.push(
                        ShellInfo {
                            key: c.key.clone(),
                            label: c.label.clone(),
                            path: p.clone(),
                            arg_template: c.arg_template.clone(),
                        },
                    );
                },
                None => {},
            }
            i = i + 1;
        }
        assert(cs.take(n as int) =~= cs);
        assert(fs.take(n as int) =~= fs);
        ShellCatalog { shells }
    }
}

} // verus!
