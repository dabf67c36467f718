//! Command construction for a rule's run: program and arguments from its shell
//! and command, working directory, environment, and the captured-output limit.
//! Spawning the process and waiting for it is the caller's part.

use crate::envres::{env_map, pairs_view, BaseEnv};
use crate::model::{EnvVar, Rule, ShellKind};
use crate::shell::{first_with_key, ShellCatalog};
use crate::text::{chars_of, concat_str, is_blank, split_ws, split_ws_chars, string_from_chars, trim};
use vstd::prelude::*;
use vstd::string::StringSliceAdditionalSpecFns;
use vstd::utf8::{decode_utf8, encode_utf8, is_char_boundary};

verus! {

/// The result of one run.
#[derive(Clone, Debug)]
pub struct Outcome {
    pub exit_code: Option<i32>,
    pub success: bool,
    pub stdout: String,
    pub stderr: String,
}

impl Outcome {
    /// A run that could not start: no exit code, no output, the message on
    /// stderr after `cronch: `.
    pub fn error(msg: String) -> (o: Outcome)
        ensures
            o.exit_code is None,
            !o.success,
            o.stdout@ == Seq::<char>::empty(),
            o.stderr@ == "cronch: "@ + msg@,
    {
        Outcome {
            exit_code: None,
            success: false,
            stdout: String::new(),
            stderr: concat_str("cronch: ", msg.as_str()),
        }
    }
}

/// The character sequences of a list of strings.
pub open spec fn strings_view(v: Seq<String>) -> Seq<Seq<char>> {
    v.map_values(|s: String| s@)
}

/// One token of an argument template, with `{cmd}` standing for the command.
pub open spec fn template_arg(token: Seq<char>, command: Seq<char>) -> Seq<char> {
    if token == "{cmd}"@ {
        command
    } else {
        token
    }
}

/// An argument template expanded: its whitespace-separated tokens, with the
/// `{cmd}` token replaced by the command as a single argument (the shell
/// parses it; the user command is never split).
pub open spec fn rendered(template: Seq<char>, command: Seq<char>) -> Seq<Seq<char>> {
    split_ws(template).map_values(|t: Seq<char>| template_arg(t, command))
}

/// Expands an argument template, replacing the `{cmd}` token with `command` as a
/// single argument (the shell parses it — the user command is never split).
pub fn render_template(template: &str, command: &str) -> (args: Vec<String>)
    ensures
        strings_view(args@) == rendered(template@, command@),
{
    let chars = chars_of(template);
    let words = split_ws_chars(chars.as_slice());
    let placeholder = chars_of("{cmd}");
    let n = words.len();
    let mut args: Vec<String> = Vec::new();
    for i in 0..n
        invariant
            n == words@.len(),
            crate::text::char_vecs(words@) == split_ws(template@),
            placeholder@ == "{cmd}"@,
            strings_view(args@) == rendered(template@, command@).take(i as int),
    {
        let w = &words[i];
        let same = w.len() == placeholder.len() && chars_equal(w.as_slice(), placeholder.as_slice());
        let arg = if same {
            String::from_str(command)
        } else {
            string_from_chars(w.as_slice())
        };
        proof {
            assert(crate::text::char_vecs(words@)[i as int] == w@);
            assert(split_ws(template@)[i as int] == w@);
            assert(arg@ == template_arg(w@, command@));
            assert(rendered(template@, command@)[i as int] == template_arg(w@, command@));
        }
        let ghost prev = args@;
        args.push(arg);
        proof {
            let target = rendered(template@, command@).take(i + 1);
            assert(strings_view(prev) == rendered(template@, command@).take(i as int));
            assert(crate::text::char_vecs(words@).len() == n);
            assert(rendered(template@, command@).len() == n);
            assert(strings_view(prev).len() == prev.len());
            assert(prev.len() == i);
            assert(args@ == prev.push(args@[i as int]));
            assert forall|j: int| 0 <= j < i + 1 implies strings_view(args@)[j] == target[j] by {
                if j < i {
                    assert(args@[j] == prev[j]);
                    assert(strings_view(prev)[j] == prev[j]@);
                }
            }
            assert(strings_view(args@) =~= target);
        }
    }
    assert(rendered(template@, command@).take(n as int) =~= rendered(template@, command@));
    args
}

fn chars_equal(a: &[char], b: &[char]) -> (r: bool)
    requires
        a@.len() == b@.len(),
    ensures
        r == (a@ == b@),
{
    let n = a.len();
    for i in 0..n
        invariant
            n == a@.len() == b@.len(),
            forall|j: int| 0 <= j < i ==> a@[j] == b@[j],
    {
        if a[i] != b[i] {
            return false;
        }
    }
    assert(a@ =~= b@);
    true
}

/// How `shell_words::split` splits a command line into words (`None` when a
/// quote is left open).
pub uninterp spec fn shell_split(s: Seq<char>) -> Option<Seq<Seq<char>>>;

/// Calls `shell_words::split`. The contract names its result; its source shows
/// that its only error displays as `missing closing quote`.
#[verifier::external_body]
fn split_command_line(s: &str) -> (r: Result<Vec<String>, String>)
    ensures
        match r {
            Ok(v) => shell_split(s@) == Some(strings_view(v@)),
            Err(e) => shell_split(s@) is None && e@ == "missing closing quote"@,
        },
{
    shell_words::split(s).map_err(|e| e.to_string())
}

/// The program and arguments a rule runs, or why it cannot run.
pub open spec fn program_args(rule: Rule, catalog: ShellCatalog) -> Result<(Seq<char>, Seq<Seq<char>>), Seq<char>> {
    match rule.shell {
        ShellKind::Direct => match shell_split(rule.command@) {
            None => Err("cannot parse command: "@ + "missing closing quote"@),
            Some(parts) => if parts.len() == 0 {
                Err("empty command"@)
            } else {
                Ok((parts[0], parts.drop_first()))
            },
        },
        ShellKind::Custom { path, arg_template } => Ok(
            (path@, rendered(arg_template@, rule.command@)),
        ),
        ShellKind::Detected { key } => if exists|i: int| first_with_key(catalog.shells@, key@, i) {
            let i = choose|i: int| first_with_key(catalog.shells@, key@, i);
            Ok(
                (
                    catalog.shells@[i].path@,
                    rendered(catalog.shells@[i].arg_template@, rule.command@),
                ),
            )
        } else {
            Err("shell '"@ + key@ + "' not found on this machine"@)
        },
    }
}

/// A program-and-arguments result as characters.
pub open spec fn program_args_view(r: Result<(String, Vec<String>), String>) -> Result<(Seq<char>, Seq<Seq<char>>), Seq<char>> {
    match r {
        Ok((p, a)) => Ok((p@, strings_view(a@))),
        Err(e) => Err(e@),
    }
}

/// The first position with the key is unique.
proof fn lemma_first_with_key_unique(shells: Seq<crate::shell::ShellInfo>, key: Seq<char>, i: int, j: int)
    requires
        first_with_key(shells, key, i),
        first_with_key(shells, key, j),
    ensures
        i == j,
{
    if i < j {
        assert(shells[i].key@ != key);
    } else if j < i {
        assert(shells[j].key@ != key);
    }
}

/// `args` is the template with the command put in: one argument per
/// whitespace-separated token of the template, in order, the `{cmd}` token
/// replaced by the whole command (never split).
pub open spec fn filled_template(template: Seq<char>, command: Seq<char>, args: Seq<Seq<char>>) -> bool {
    &&& args.len() == split_ws(template).len()
    &&& forall|j: int|
        0 <= j < args.len() ==> #[trigger] args[j] == (if split_ws(template)[j] == "{cmd}"@ {
            command
        } else {
            split_ws(template)[j]
        })
}

/// Expanding a template fills it in: one argument per token, `{cmd}`
/// replaced by the whole command.
pub proof fn lemma_rendered_fills(template: Seq<char>, command: Seq<char>)
    ensures
        filled_template(template, command, rendered(template, command)),
{
}

/// A detected shell runs the program found for its key (the catalog's first
/// entry with that key) with that entry's own argument template filled in; a
/// custom shell runs its path with its own template filled in; a detected
/// shell that is not on this machine is refused with its key named.
pub proof fn lemma_shell_args(rule: Rule, catalog: ShellCatalog, i: int)
    ensures
        rule.shell matches ShellKind::Detected { key } && first_with_key(catalog.shells@, key@, i)
            ==> match program_args(rule, catalog) {
            Ok((p, args)) => p == catalog.shells@[i].path@ && filled_template(
                catalog.shells@[i].arg_template@,
                rule.command@,
                args,
            ),
            Err(_) => false,
        },
        rule.shell matches ShellKind::Detected { key } && (forall|j: int|
            0 <= j < catalog.shells@.len() ==> catalog.shells@[j].key@ != key@) ==> program_args(
            rule,
            catalog,
        ) == Err::<(Seq<char>, Seq<Seq<char>>), Seq<char>>(
            "shell '"@ + rule.shell->key@ + "' not found on this machine"@,
        ),
        rule.shell matches ShellKind::Custom { path, arg_template } ==> match program_args(
            rule,
            catalog,
        ) {
            Ok((p, args)) => p == path@ && filled_template(arg_template@, rule.command@, args),
            Err(_) => false,
        },
{
    if rule.shell matches ShellKind::Detected { key } && first_with_key(catalog.shells@, key@, i) {
        let key = rule.shell->key;
        let k = choose|k: int| first_with_key(catalog.shells@, key@, k);
        lemma_first_with_key_unique(catalog.shells@, key@, i, k);
    }
    if rule.shell matches ShellKind::Detected { key } && (forall|j: int|
        0 <= j < catalog.shells@.len() ==> catalog.shells@[j].key@ != key@) {
        let key = rule.shell->key;
        if exists|k: int| first_with_key(catalog.shells@, key@, k) {
            let k = choose|k: int| first_with_key(catalog.shells@, key@, k);
            assert(catalog.shells@[k].key@ != key@);
        }
    }
}

/// The program and arguments a rule runs, or why it cannot run.
pub fn resolve_program_args(rule: &Rule, catalog: &ShellCatalog) -> (r: Result<(String, Vec<String>), String>)
    ensures
        program_args_view(r) == program_args(*rule, *catalog),
{
    match &rule.shell {
        ShellKind::Direct => {
            match split_command_line(rule.command.as_str()) {
                Err(e) => Err(concat_str("cannot parse command: ", e.as_str())),
                Ok(parts) => {
                    let mut parts = parts;
                    if parts.len() == 0 {
                        return Err(String::from_str("empty command"));
                    }
                    let ghost all = parts@;
                    let program = parts.remove(0);
                    assert(strings_view(parts@) =~= strings_view(all).drop_first());
                    Ok((program, parts))
                },
            }
        },
        ShellKind::Custom { path, arg_template } => {
            Ok((path.clone(), render_template(arg_template.as_str(), rule.command.as_str())))
        },
        ShellKind::Detected { key } => {
            match catalog.get(key.as_str()) {
                None => {
                    let msg = concat_str("shell '", key.as_str());
                    let msg = concat_str(msg.as_str(), "' not found on this machine");
                    Err(msg)
                },
                Some(info) => {
                    proof {
                        let i = choose|i: int| first_with_key(catalog.shells@, key@, i) && *info == catalog.shells@[i];
                        let j = choose|j: int| first_with_key(catalog.shells@, key@, j);
                        lemma_first_with_key_unique(catalog.shells@, key@, i, j);
                    }
                    Ok((info.path.clone(), render_template(info.arg_template.as_str(), rule.command.as_str())))
                },
            }
        },
    }
}

/// Captured output beyond this many bytes is cut off.
pub const MAX_CAPTURE: usize = 262144usize;

/// The note appended to output that was cut off.
pub open spec fn truncation_note() -> Seq<char> {
    "\n\u{2026} [output truncated]"@
}

/// Captured output within the limit: unchanged if it fits, else its first
/// `MAX_CAPTURE` bytes and the note.
pub open spec fn clamped(s: Seq<char>) -> Seq<char> {
    if encode_utf8(s).len() > MAX_CAPTURE {
        decode_utf8(encode_utf8(s).take(MAX_CAPTURE as int)) + truncation_note()
    } else {
        s
    }
}

/// Caps a captured stream at `MAX_CAPTURE` bytes. Cutting a string inside a
/// character panics (`String::truncate`), so output that long must have a
/// character boundary there.
pub fn clamp(s: String) -> (r: String)
    requires
        encode_utf8(s@).len() > MAX_CAPTURE ==> is_char_boundary(encode_utf8(s@), MAX_CAPTURE as int),
    ensures
        r@ == clamped(s@),
{
    let text = s.as_str();
    if text.as_bytes().len() > MAX_CAPTURE {
        let (head, _) = text.split_at(MAX_CAPTURE);
        proof {
            vstd::utf8::encode_utf8_decode_utf8(head@);
            assert(head.spec_bytes() =~= encode_utf8(s@).take(MAX_CAPTURE as int));
            assert(head@ == decode_utf8(encode_utf8(head@)));
        }
        let mut out = head.to_owned();
        assert(out@ == decode_utf8(encode_utf8(s@).take(MAX_CAPTURE as int)));
        out.append("\n\u{2026} [output truncated]");
        assert(encode_utf8(s@).len() > MAX_CAPTURE);
        out
    } else {
        assert(encode_utf8(s@).len() <= MAX_CAPTURE);
        s
    }
}

/// The working directory a rule's run uses: its own if set and not blank,
/// else none (the user's home directory is used).
pub open spec fn run_dir(rule: Rule) -> Option<Seq<char>> {
    match rule.working_dir {
        Some(d) => if trim(d@).len() == 0 {
            None
        } else {
            Some(d@)
        },
        None => None,
    }
}

/// The working directory a rule's run uses, `None` meaning the home directory.
pub fn working_dir_of(rule: &Rule) -> (r: Option<String>)
    ensures
        match r {
            Some(d) => run_dir(*rule) == Some(d@),
            None => run_dir(*rule) is None,
        },
{
    match &rule.working_dir {
        Some(d) => {
            if is_blank(d.as_str()) {
                None
            } else {
                Some(d.clone())
            }
        },
        None => None,
    }
}

/// A rule's variables as `(name, value)` pairs.
pub open spec fn rule_pairs(env: Seq<EnvVar>) -> Seq<(Seq<char>, Seq<char>)> {
    env.map_values(|e: EnvVar| (e.key@, e.value@))
}

/// The variables a rule's run gets, in the order they are set: the full login
/// environment, then the rule's own, which override it.
pub fn command_env(base: &BaseEnv, rule: &Rule) -> (r: Vec<(String, String)>)
    ensures
        env_map(pairs_view(r@)) == env_with(base@, rule_pairs(rule.env@)),
{
    let b = base.iter();
    let mut out: Vec<(String, String)> = Vec::new();
    let n = b.len();
    for i in 0..n
        invariant
            n == b@.len(),
            pairs_view(out@) == pairs_view(b@).take(i as int),
    {
        let (k, v) = &b[i];
        let ghost prev = out@;
        out.push((k.clone(), v.clone()));
        proof {
            assert(pairs_view(prev).len() == prev.len());
            assert(out@ == prev.push(out@[i as int]));
            assert forall|x: int| 0 <= x < i + 1 implies pairs_view(out@)[x] == pairs_view(b@).take(i + 1)[x] by {
                if x < i {
                    assert(out@[x] == prev[x]);
                    assert(pairs_view(prev)[x] == (prev[x].0@, prev[x].1@));
                }
            }
            assert(pairs_view(out@) =~= pairs_view(b@).take(i + 1));
        }
    }
    let ghost base_pairs = pairs_view(b@);
    assert(base_pairs.take(n as int) =~= base_pairs);
    let m = rule.env.len();
    assert(rule_pairs(rule.env@).take(0) =~= Seq::<(Seq<char>, Seq<char>)>::empty());
    for j in 0..m
        invariant
            m == rule.env@.len(),
            pairs_view(out@) == base_pairs + rule_pairs(rule.env@).take(j as int),
    {
        let e = &rule.env[j];
        let ghost prev = out@;
        out.push((e.key.clone(), e.value.clone()));
        proof {
            let target = base_pairs + rule_pairs(rule.env@).take(j + 1);
            assert(pairs_view(prev).len() == prev.len());
            assert(out@ == prev.push(out@[prev.len() as int]));
            assert forall|x: int| 0 <= x < prev.len() + 1 implies pairs_view(out@)[x] == target[x] by {
                if x < prev.len() {
                    assert(out@[x] == prev[x]);
                    assert(pairs_view(prev)[x] == (prev[x].0@, prev[x].1@));
                }
            }
            assert(pairs_view(out@) =~= target);
        }
    }
    assert(rule_pairs(rule.env@).take(m as int) =~= rule_pairs(rule.env@));
    proof {
        lemma_env_map_concat(base_pairs, rule_pairs(rule.env@));
    }
    out
}

/// `m` with the assignments of `s` applied in order.
pub open spec fn env_with(m: Map<Seq<char>, Seq<char>>, s: Seq<(Seq<char>, Seq<char>)>) -> Map<Seq<char>, Seq<char>>
    decreases s.len(),
{
    if s.len() == 0 {
        m
    } else {
        env_with(m, s.drop_last()).insert(s.last().0, s.last().1)
    }
}

/// Applying `a` then `b` is applying `b` to what `a` leaves.
pub proof fn lemma_env_map_concat(a: Seq<(Seq<char>, Seq<char>)>, b: Seq<(Seq<char>, Seq<char>)>)
    ensures
        env_map(a + b) == env_with(env_map(a), b),
    decreases b.len(),
{
    if b.len() == 0 {
        assert(a + b =~= a);
    } else {
        lemma_env_map_concat(a, b.drop_last());
        assert((a + b).drop_last() =~= a + b.drop_last());
        assert((a + b).last() == b.last());
    }
}

} // verus!
