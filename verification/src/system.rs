//! The informational tools: environment variables, shells, OS release,
//! WSL configuration, package managers, and replies built from the output
//! of a system command.
use vstd::prelude::*;
use crate::args::ToolArgs;
use crate::passwd::{opt_view, read_view};
use crate::record::{
    lemma_insert_at, lemma_sort_orders, lemma_sort_permutes, lemma_text_order, ordered, stable_sort, text_le, text_leq,
    total_preorder,
};
use crate::text::{
    all_space, ascii_lower, ascii_lowercase, contains_chars, from_chars, has_prefix, has_substring, join,
    join_strings, lines, push_str, split_chars, split_lines, split_on, starts_with, string_views, to_chars,
    to_lowercase, trim, trim_chars, lowercase_text, views, ascii_text,
};

verus! {

// ---------------------------------------------------------------------------
// Output of a system command
// ---------------------------------------------------------------------------

/// What a finished system command gave, its output decoded as text.
pub struct CommandOutput {
    pub success: bool,
    pub stdout: String,
    pub stderr: String,
}

pub open spec fn result_view(r: Result<String, String>) -> Result<Seq<char>, Seq<char>> {
    match r {
        Ok(s) => Ok(s@),
        Err(e) => Err(e@),
    }
}

/// The reply of a tool that reports a command's output: the spawn error,
/// the (optionally trimmed) output on success, the trimmed error output on
/// failure.
pub open spec fn command_reply(out: Result<CommandOutput, String>, trim_stdout: bool) -> Result<Seq<char>, Seq<char>> {
    match out {
        Err(e) => Err(e@),
        Ok(o) => if o.success {
            Ok(if trim_stdout { trim(o.stdout@) } else { o.stdout@ })
        } else {
            Err(trim(o.stderr@))
        },
    }
}

fn trimmed(s: &String) -> (r: String)
    ensures
        r@ == trim(s@),
{
    let cs = to_chars(s.as_str());
    let t = trim_chars(cs.as_slice());
    from_chars(t.as_slice())
}

/// Builds the reply of a tool that reports a command's output.
pub fn command_result(out: Result<CommandOutput, String>, trim_stdout: bool) -> (r: Result<String, String>)
    ensures
        result_view(r) == command_reply(out, trim_stdout),
{
    match out {
        Err(e) => Err(e),
        Ok(o) => if o.success {
            if trim_stdout { Ok(trimmed(&o.stdout)) } else { Ok(o.stdout) }
        } else {
            Err(trimmed(&o.stderr))
        },
    }
}

/// `read:get_system_info`: the trimmed output of `uname -a`.
pub fn get_system_info(uname: Result<CommandOutput, String>) -> (r: Result<String, String>)
    ensures
        result_view(r) == command_reply(uname, true),
{
    command_result(uname, true)
}

/// The path `read:get_disk_usage` reports on: the one given, else `/`.
pub fn disk_usage_path(args: &ToolArgs) -> (r: String)
    ensures
        r@ == match args.text("path"@) {
            Some(p) => p,
            None => "/"@,
        },
{
    match args.text_arg("path") {
        Some(p) => p,
        None => "/".to_owned(),
    }
}

/// `read:get_disk_usage`: the output of `df -h` for the path.
pub fn get_disk_usage(df: Result<CommandOutput, String>) -> (r: Result<String, String>)
    ensures
        result_view(r) == command_reply(df, false),
{
    command_result(df, false)
}

// ---------------------------------------------------------------------------
// read:get_env
// ---------------------------------------------------------------------------

pub open spec fn var_view(v: (String, String)) -> (Seq<char>, Seq<char>) {
    (v.0@, v.1@)
}

pub open spec fn vars_view(vs: Seq<(String, String)>) -> Seq<(Seq<char>, Seq<char>)> {
    Seq::new(vs.len(), |i: int| var_view(vs[i]))
}

/// Variables ordered by name.
pub open spec fn var_le() -> spec_fn((Seq<char>, Seq<char>), (Seq<char>, Seq<char>)) -> bool {
    |a: (Seq<char>, Seq<char>), b: (Seq<char>, Seq<char>)| text_le(a.0, b.0)
}

/// Whether a variable's name or value contains the (lower-cased) filter once
/// lower-cased.
pub open spec fn var_matches(v: (Seq<char>, Seq<char>), needle: Seq<char>) -> bool {
    has_substring(lowercase_text(v.0), needle) || has_substring(lowercase_text(v.1), needle)
}

pub open spec fn keep_matching(vs: Seq<(Seq<char>, Seq<char>)>, needle: Option<Seq<char>>) -> Seq<(Seq<char>, Seq<char>)>
    decreases vs.len(),
{
    if vs.len() == 0 {
        Seq::empty()
    } else {
        let prev = keep_matching(vs.drop_last(), needle);
        match needle {
            None => prev.push(vs.last()),
            Some(n) => if var_matches(vs.last(), n) { prev.push(vs.last()) } else { prev },
        }
    }
}

pub open spec fn assignment(v: (Seq<char>, Seq<char>)) -> Seq<char> {
    v.0 + "="@ + v.1
}

/// What `read:get_env` shows: `NAME=value` lines ordered by name, only those
/// matching the filter if one is given.
pub open spec fn env_text(args: ToolArgs, vs: Seq<(Seq<char>, Seq<char>)>) -> Seq<char> {
    let needle = match args.text("filter"@) {
        Some(f) => Some(lowercase_text(f)),
        None => None,
    };
    let kept = keep_matching(stable_sort(vs, var_le()), needle);
    join(Seq::new(kept.len(), |i: int| assignment(kept[i])), "\n"@)
}

fn sort_vars(vars: Vec<(String, String)>) -> (out: Vec<(String, String)>)
    ensures
        vars_view(out@) == stable_sort(vars_view(vars@), var_le()),
{
    let ghost all = vars_view(vars@);
    let ghost le = var_le();
    let n = vars.len();
    let mut rest = vars;
    let mut out: Vec<(String, String)> = Vec::new();
    let mut k: usize = 0;
    assert(all.take(0) =~= Seq::<(Seq<char>, Seq<char>)>::empty());
    assert(vars_view(rest@) =~= all.skip(0));
    assert(vars_view(out@) =~= stable_sort(all.take(0), le));
    while rest.len() > 0
        invariant
            k <= all.len(),
            all.len() == n,
            rest@.len() + k == all.len(),
            le == var_le(),
            vars_view(rest@) == all.skip(k as int),
            vars_view(out@) == stable_sort(all.take(k as int), le),
        decreases rest.len(),
    {
        let ghost before = rest@;
        assert(vars_view(before)[0] == all[k as int]);
        let x = rest.remove(0);
        assert(vars_view(rest@) =~= all.skip(k + 1)) by {
            assert forall|i: int| 0 <= i < rest@.len() implies #[trigger] vars_view(rest@)[i] == all.skip(k + 1)[i] by {
                assert(rest@[i] == before[i + 1]);
                assert(vars_view(before)[i + 1] == all.skip(k as int)[i + 1]);
            }
        }
        let ghost sorted = vars_view(out@);
        let xk = to_chars(x.0.as_str());
        let mut j: usize = out.len();
        while j > 0 && !text_leq(to_chars(out[j - 1].0.as_str()).as_slice(), xk.as_slice())
            invariant
                j <= out@.len(),
                le == var_le(),
                sorted == vars_view(out@),
                xk@ == x.0@,
                forall|m: int| j <= m < sorted.len() ==> !le(#[trigger] sorted[m], var_view(x)),
            decreases j,
        {
            j = j - 1;
        }
        proof {
            lemma_insert_at(sorted, var_view(x), le, j as int);
        }
        out.insert(j, x);
        assert(vars_view(out@) =~= sorted.take(j as int).push(all[k as int]) + sorted.skip(j as int));
        assert(all.take(k + 1).drop_last() =~= all.take(k as int));
        k = k + 1;
    }
    assert(all.take(k as int) =~= all);
    out
}

fn var_passes(v: &(String, String), needle: &Vec<char>) -> (b: bool)
    ensures
        b == var_matches(var_view(*v), needle@),
{
    let k = to_chars(to_lowercase(v.0.as_str()).as_str());
    let x = to_chars(to_lowercase(v.1.as_str()).as_str());
    contains_chars(k.as_slice(), needle.as_slice()) || contains_chars(x.as_slice(), needle.as_slice())
}

/// `read:get_env`, given the process environment.
pub fn get_env(args: &ToolArgs, vars: Vec<(String, String)>) -> (r: String)
    ensures
        r@ == env_text(*args, vars_view(vars@)),
{
    let needle: Option<Vec<char>> = match args.text_arg("filter") {
        Some(f) => Some(to_chars(to_lowercase(f.as_str()).as_str())),
        None => None,
    };
    let ghost nv = match args.text("filter"@) {
        Some(f) => Some(lowercase_text(f)),
        None => None::<Seq<char>>,
    };
    let sorted = sort_vars(vars);
    let ghost all = vars_view(sorted@);
    let mut lines_out: Vec<String> = Vec::new();
    let ghost mut kept: Seq<(Seq<char>, Seq<char>)> = Seq::empty();
    assert(all.take(0) =~= Seq::<(Seq<char>, Seq<char>)>::empty());
    for i in 0..sorted.len()
        invariant
            all == vars_view(sorted@),
            match needle { Some(n) => nv == Some(n@), None => nv.is_none() },
            kept == keep_matching(all.take(i as int), nv),
            string_views(lines_out@) == Seq::new(kept.len(), |m: int| assignment(kept[m])),
    {
        assert(all.take(i + 1).drop_last() =~= all.take(i as int));
        assert(all.take(i + 1).last() == var_view(sorted@[i as int]));
        let v = &sorted[i];
        let keep = match &needle {
            None => true,
            Some(n) => var_passes(v, n),
        };
        if keep {
            let mut line = String::new();
            push_str(&mut line, v.0.as_str());
            push_str(&mut line, "=");
            push_str(&mut line, v.1.as_str());
            let ghost before = lines_out@;
            let ghost prev = kept;
            assert(line@ == assignment(var_view(*v)));
            lines_out.push(line);
            proof {
                kept = kept.push(var_view(*v));
            }
            assert(string_views(lines_out@) =~= string_views(before).push(line@));
            assert(Seq::new(kept.len(), |m: int| assignment(kept[m])) =~= Seq::new(prev.len(), |m: int| assignment(prev[m])).push(assignment(var_view(*v))));
        }
    }
    assert(all.take(sorted.len() as int) =~= all);
    join_strings(&lines_out, "\n")
}

proof fn lemma_keep_matching_ordered(vs: Seq<(Seq<char>, Seq<char>)>, needle: Option<Seq<char>>)
    requires
        ordered(vs, var_le()),
    ensures
        ordered(keep_matching(vs, needle), var_le()),
        forall|i: int| 0 <= i < keep_matching(vs, needle).len()
            ==> exists|k: int| 0 <= k < vs.len() && vs[k] == #[trigger] keep_matching(vs, needle)[i],
    decreases vs.len(),
{
    if vs.len() > 0 {
        let t = vs.drop_last();
        assert(ordered(t, var_le())) by {
            assert forall|i: int, j: int| 0 <= i < j < t.len() implies var_le()(#[trigger] t[i], #[trigger] t[j]) by {
                assert(var_le()(vs[i], vs[j]));
            }
        }
        lemma_keep_matching_ordered(t, needle);
        let prev = keep_matching(t, needle);
        let cur = keep_matching(vs, needle);
        assert forall|i: int| 0 <= i < cur.len() implies exists|k: int| 0 <= k < vs.len() && vs[k] == #[trigger] cur[i] by {
            if i < prev.len() {
                let k = choose|k: int| 0 <= k < t.len() && t[k] == #[trigger] prev[i];
                assert(vs[k] == cur[i]);
            } else {
                assert(vs[vs.len() - 1] == cur[i]);
            }
        }
        assert forall|i: int, j: int| 0 <= i < j < cur.len() implies var_le()(#[trigger] cur[i], #[trigger] cur[j]) by {
            if j < prev.len() {
                assert(cur[i] == prev[i] && cur[j] == prev[j]);
            } else {
                let k = choose|k: int| 0 <= k < t.len() && t[k] == #[trigger] prev[i];
                assert(cur[i] == prev[i]);
                assert(cur[j] == vs.last());
                assert(var_le()(vs[k], vs[vs.len() - 1]));
            }
        }
    }
}

/// The variables `read:get_env` shows, in the order shown.
pub open spec fn env_shown(args: ToolArgs, vs: Seq<(Seq<char>, Seq<char>)>) -> Seq<(Seq<char>, Seq<char>)> {
    let needle = match args.text("filter"@) {
        Some(f) => Some(lowercase_text(f)),
        None => None,
    };
    keep_matching(stable_sort(vs, var_le()), needle)
}

proof fn lemma_keep_matching_contains(vs: Seq<(Seq<char>, Seq<char>)>, n: Seq<char>, x: (Seq<char>, Seq<char>))
    ensures
        keep_matching(vs, Some(n)).contains(x) <==> vs.contains(x) && var_matches(x, n),
    decreases vs.len(),
{
    if vs.len() > 0 {
        let t = vs.drop_last();
        lemma_keep_matching_contains(t, n, x);
        let prev = keep_matching(t, Some(n));
        let cur = keep_matching(vs, Some(n));
        if cur.contains(x) {
            let k = choose|k: int| 0 <= k < cur.len() && cur[k] == x;
            if k < prev.len() {
                assert(cur[k] == prev[k]);
                assert(prev.contains(x));
                let j = choose|j: int| 0 <= j < t.len() && t[j] == x;
                assert(vs[j] == t[j]);
            } else {
                assert(vs[vs.len() - 1] == x);
            }
        }
        if vs.contains(x) && var_matches(x, n) {
            let j = choose|j: int| 0 <= j < vs.len() && vs[j] == x;
            if j < vs.len() - 1 {
                assert(t[j] == x);
                assert(prev.contains(x));
                let k = choose|k: int| 0 <= k < prev.len() && prev[k] == x;
                assert(cur[k] == x);
            } else {
                assert(cur[cur.len() - 1] == x);
            }
        }
    }
}

proof fn lemma_keep_all(vs: Seq<(Seq<char>, Seq<char>)>)
    ensures
        keep_matching(vs, None) == vs,
    decreases vs.len(),
{
    if vs.len() > 0 {
        lemma_keep_all(vs.drop_last());
        assert(vs.drop_last().push(vs.last()) =~= vs);
    }
}

/// Without a filter, `read:get_env` writes one `NAME=value` line for each
/// variable, every variable as often as it was given.
pub proof fn law_env_unfiltered_shows_all(args: ToolArgs, vs: Seq<(Seq<char>, Seq<char>)>)
    requires
        args.text("filter"@) is None,
    ensures
        ({
            let shown = env_shown(args, vs);
            &&& env_text(args, vs) == join(Seq::new(shown.len(), |i: int| shown[i].0 + "="@ + shown[i].1), "\n"@)
            &&& shown.to_multiset() == vs.to_multiset()
        }),
{
    let sorted = stable_sort(vs, var_le());
    lemma_sort_permutes(vs, var_le());
    lemma_keep_all(sorted);
    let kept = keep_matching(sorted, None);
    assert(Seq::new(kept.len(), |i: int| assignment(kept[i])) =~= Seq::new(kept.len(), |i: int| kept[i].0 + "="@ + kept[i].1));
}

/// With a filter, `read:get_env` writes one `NAME=value` line for each
/// variable it shows, and it shows exactly the variables whose name or
/// value, lower-cased, contains the lower-cased filter anywhere.
pub proof fn law_env_filter_shows_matches(args: ToolArgs, vs: Seq<(Seq<char>, Seq<char>)>)
    requires
        args.text("filter"@) is Some,
    ensures
        ({
            let f = lowercase_text(args.text("filter"@)->0);
            let shown = env_shown(args, vs);
            &&& env_text(args, vs) == join(Seq::new(shown.len(), |i: int| shown[i].0 + "="@ + shown[i].1), "\n"@)
            &&& forall|x: (Seq<char>, Seq<char>)| #[trigger] shown.contains(x) <==> vs.contains(x) && (
                has_substring(lowercase_text(x.0), f) || has_substring(lowercase_text(x.1), f))
        }),
{
    broadcast use vstd::seq_lib::to_multiset_contains;
    let f = lowercase_text(args.text("filter"@)->0);
    let sorted = stable_sort(vs, var_le());
    lemma_sort_permutes(vs, var_le());
    let shown = env_shown(args, vs);
    assert forall|x: (Seq<char>, Seq<char>)| #[trigger] shown.contains(x) <==> vs.contains(x) && (
        has_substring(lowercase_text(x.0), f) || has_substring(lowercase_text(x.1), f)) by {
        lemma_keep_matching_contains(sorted, f, x);
        assert(sorted.contains(x) <==> sorted.to_multiset().count(x) > 0);
        assert(vs.contains(x) <==> vs.to_multiset().count(x) > 0);
    }
    let kept = keep_matching(stable_sort(vs, var_le()), Some(f));
    assert(Seq::new(kept.len(), |i: int| assignment(kept[i])) =~= Seq::new(shown.len(), |i: int| shown[i].0 + "="@ + shown[i].1));
}

/// The environment filter is case-insensitive: two ASCII filters that
/// differ only in the case of their letters (a filter and its upper-case
/// form, by `lemma_ascii_upper_lower`) show the same variables.
pub proof fn law_env_filter_case(a1: ToolArgs, a2: ToolArgs, vs: Seq<(Seq<char>, Seq<char>)>)
    requires
        a1.text("filter"@) is Some,
        a2.text("filter"@) is Some,
        ascii_text(a1.text("filter"@)->0),
        ascii_text(a2.text("filter"@)->0),
        ascii_lower(a1.text("filter"@)->0) == ascii_lower(a2.text("filter"@)->0),
    ensures
        env_text(a1, vs) == env_text(a2, vs),
{
}

/// The variables `read:get_env` shows are in order of their names.
pub proof fn law_env_ordered(args: ToolArgs, vs: Seq<(Seq<char>, Seq<char>)>)
    ensures
        ({
            let needle = match args.text("filter"@) {
                Some(f) => Some(lowercase_text(f)),
                None => None,
            };
            let kept = keep_matching(stable_sort(vs, var_le()), needle);
            forall|i: int, j: int| 0 <= i < j < kept.len() ==> text_le((#[trigger] kept[i]).0, (#[trigger] kept[j]).0)
        }),
{
    lemma_text_order();
    let le = var_le();
    assert(total_preorder(le)) by {
        assert forall|a: (Seq<char>, Seq<char>), b: (Seq<char>, Seq<char>)| #[trigger] le(a, b) || le(b, a) by {}
        assert forall|a: (Seq<char>, Seq<char>), b: (Seq<char>, Seq<char>), c: (Seq<char>, Seq<char>)|
            #[trigger] le(a, b) && #[trigger] le(b, c) implies le(a, c) by {}
    }
    lemma_sort_orders(vs, le);
    let needle = match args.text("filter"@) {
        Some(f) => Some(lowercase_text(f)),
        None => None,
    };
    lemma_keep_matching_ordered(stable_sort(vs, le), needle);
    let kept = keep_matching(stable_sort(vs, var_le()), needle);
    assert forall|i: int, j: int| 0 <= i < j < kept.len() implies text_le((#[trigger] kept[i]).0, (#[trigger] kept[j]).0) by {
        assert(le(kept[i], kept[j]));
    }
}

// ---------------------------------------------------------------------------
// Shells
// ---------------------------------------------------------------------------

/// A line of `/etc/shells` that names a shell: not a comment, not blank.
pub open spec fn shell_line(l: Seq<char>) -> bool {
    !has_prefix(l, "#"@) && trim(l).len() != 0
}

pub open spec fn shell_lines(ls: Seq<Seq<char>>) -> Seq<Seq<char>>
    decreases ls.len(),
{
    if ls.len() == 0 {
        Seq::empty()
    } else {
        let prev = shell_lines(ls.drop_last());
        if shell_line(ls.last()) { prev.push(ls.last()) } else { prev }
    }
}

/// What `read:get_shells` gives for the contents of `/etc/shells` (or the
/// error reading it).
pub open spec fn shells_reply(file: Result<Seq<char>, Seq<char>>) -> Result<Seq<char>, Seq<char>> {
    match file {
        Ok(c) => Ok(join(shell_lines(lines(c)), "\n"@)),
        Err(e) => Err("Failed to read /etc/shells: "@ + e),
    }
}

/// `read:get_shells`: the shells listed in `/etc/shells`, one per line.
pub fn get_shells(file: &Result<String, String>) -> (r: Result<String, String>)
    ensures
        result_view(r) == shells_reply(read_view(*file)),
{
    let content = match file {
        Err(e) => {
            let mut m = String::new();
            push_str(&mut m, "Failed to read /etc/shells: ");
            push_str(&mut m, e.as_str());
            return Err(m);
        },
        Ok(c) => c,
    };
    let cs = to_chars(content.as_str());
    let ls = split_lines(cs.as_slice());
    let hash = to_chars("#");
    let ghost all = views(ls@);
    let mut out: Vec<String> = Vec::new();
    assert(all.take(0) =~= Seq::<Seq<char>>::empty());
    assert(string_views(out@) =~= shell_lines(all.take(0)));
    for i in 0..ls.len()
        invariant
            all == views(ls@),
            hash@ == "#"@,
            string_views(out@) == shell_lines(all.take(i as int)),
    {
        assert(all.take(i + 1).drop_last() =~= all.take(i as int));
        assert(all.take(i + 1).last() == ls@[i as int]@);
        let l = &ls[i];
        if !starts_with(l.as_slice(), hash.as_slice()) && !all_space(l.as_slice()) {
            let ghost before = out@;
            out.push(from_chars(l.as_slice()));
            assert(string_views(out@) =~= string_views(before).push(l@));
        }
    }
    assert(all.take(ls.len() as int) =~= all);
    Ok(join_strings(&out, "\n"))
}

/// The first step of `read:get_default_shell`.
pub enum ShellLookup {
    /// `$SHELL` names the shell.
    Known(String),
    /// Ask the user database about this user.
    AskPasswd(String),
}

/// The shell from `$SHELL` if it is set, else the user (from `$USER`,
/// `root` by default) whose database entry to read.
pub fn default_shell_lookup(shell_var: Option<String>, user_var: Option<String>) -> (r: ShellLookup)
    ensures
        match r {
            ShellLookup::Known(s) => shell_var == Some(s),
            ShellLookup::AskPasswd(u) => shell_var.is_none() && u@ == match user_var {
                Some(v) => v@,
                None => "root"@,
            },
        },
{
    match shell_var {
        Some(s) => ShellLookup::Known(s),
        None => ShellLookup::AskPasswd(match user_var {
            Some(u) => u,
            None => "root".to_owned(),
        }),
    }
}

/// The shell field (the seventh) of a `getent passwd` line, if present and
/// not empty.
pub open spec fn passwd_shell(out: Seq<char>) -> Option<Seq<char>> {
    let f = split_on(trim(out), ':');
    if f.len() > 6 && f[6].len() > 0 { Some(f[6]) } else { None }
}

/// What `read:get_default_shell` gives from the output of `getent passwd`.
pub open spec fn getent_reply(out: Result<CommandOutput, String>) -> Result<Seq<char>, Seq<char>> {
    match out {
        Err(e) => Err(e@),
        Ok(o) => if o.success && passwd_shell(o.stdout@).is_some() {
            Ok(passwd_shell(o.stdout@).unwrap())
        } else {
            Err("Could not determine default shell"@)
        },
    }
}

/// `read:get_default_shell` when `$SHELL` is not set: the shell field of the
/// user's database entry.
pub fn default_shell_from_getent(out: Result<CommandOutput, String>) -> (r: Result<String, String>)
    ensures
        result_view(r) == getent_reply(out),
{
    match out {
        Err(e) => Err(e),
        Ok(o) => {
            if o.success {
                let cs = to_chars(o.stdout.as_str());
                let t = trim_chars(cs.as_slice());
                let f = split_chars(t.as_slice(), ':');
                if f.len() > 6 && f[6].len() > 0 {
                    assert(views(f@)[6] == f@[6]@);
                    return Ok(from_chars(f[6].as_slice()));
                }
            }
            Err("Could not determine default shell".to_owned())
        },
    }
}

// ---------------------------------------------------------------------------
// OS release and WSL
// ---------------------------------------------------------------------------

/// The files `read:get_os_info` tries, in order.
pub open spec fn os_release_files() -> Seq<Seq<char>> {
    seq!["/etc/os-release"@, "/usr/lib/os-release"@, "/etc/lsb-release"@]
}

pub fn os_release_paths() -> (r: Vec<String>)
    ensures
        string_views(r@) == os_release_files(),
{
    let mut r: Vec<String> = Vec::new();
    r.push("/etc/os-release".to_owned());
    r.push("/usr/lib/os-release".to_owned());
    r.push("/etc/lsb-release".to_owned());
    assert(string_views(r@) =~= os_release_files());
    r
}

/// The reply from the first file that could be read, headed by its path.
pub open spec fn os_info_from(reads: Seq<Option<String>>, i: int) -> Result<Seq<char>, Seq<char>>
    decreases reads.len() - i,
{
    if i >= reads.len() || i >= os_release_files().len() {
        Err("No OS release file found"@)
    } else {
        match reads[i] {
            Some(c) => Ok("# "@ + os_release_files()[i] + "\n"@ + c@),
            None => os_info_from(reads, i + 1),
        }
    }
}

/// `read:get_os_info`: `reads[i]` is what reading the `i`th release file
/// gave (`None` where it could not be read).
pub fn get_os_info(reads: &Vec<Option<String>>) -> (r: Result<String, String>)
    ensures
        result_view(r) == os_info_from(reads@, 0),
{
    let paths = os_release_paths();
    let mut i: usize = 0;
    while i < reads.len() && i < paths.len()
        invariant
            i <= reads@.len(),
            string_views(paths@) == os_release_files(),
            os_info_from(reads@, 0) == os_info_from(reads@, i as int),
        decreases reads.len() - i,
    {
        if let Some(c) = &reads[i] {
            let mut m = String::new();
            push_str(&mut m, "# ");
            push_str(&mut m, paths[i].as_str());
            push_str(&mut m, "\n");
            push_str(&mut m, c.as_str());
            assert(string_views(paths@)[i as int] == paths@[i as int]@);
            return Ok(m);
        }
        i = i + 1;
    }
    Err("No OS release file found".to_owned())
}

/// Whether `/proc/version` (if it could be read) says the kernel is
/// Microsoft's, as it is under WSL.
pub open spec fn wsl_kernel(version: Option<Seq<char>>) -> bool {
    match version {
        Some(v) => has_substring(ascii_lower(v), "microsoft"@),
        None => false,
    }
}

/// Whether this is WSL, given the contents of `/proc/version`.
pub fn is_wsl(version: &Option<String>) -> (r: bool)
    ensures
        r == wsl_kernel(opt_view(*version)),
{
    match version {
        Some(v) => {
            let low = ascii_lowercase(to_chars(v.as_str()).as_slice());
            let pat = to_chars("microsoft");
            contains_chars(low.as_slice(), pat.as_slice())
        },
        None => false,
    }
}

/// What `read:get_wsl_config` gives: an error outside WSL, else the contents
/// of `/etc/wsl.conf` or the error reading it.
pub open spec fn wsl_config_reply(wsl: bool, conf: Result<Seq<char>, Seq<char>>) -> Result<Seq<char>, Seq<char>> {
    if !wsl {
        Err("read:get_wsl_config is only available on WSL"@)
    } else {
        match conf {
            Ok(c) => Ok(c),
            Err(e) => Err("Failed to read /etc/wsl.conf: "@ + e),
        }
    }
}

/// `read:get_wsl_config`; `conf` is read only under WSL and ignored
/// otherwise.
pub fn get_wsl_config(wsl: bool, conf: Result<String, String>) -> (r: Result<String, String>)
    ensures
        result_view(r) == wsl_config_reply(wsl, result_view(conf)),
{
    if !wsl {
        return Err("read:get_wsl_config is only available on WSL".to_owned());
    }
    match conf {
        Ok(c) => Ok(c),
        Err(e) => {
            let mut m = String::new();
            push_str(&mut m, "Failed to read /etc/wsl.conf: ");
            push_str(&mut m, e.as_str());
            Err(m)
        },
    }
}

// ---------------------------------------------------------------------------
// read:get_package_manager
// ---------------------------------------------------------------------------

/// The package managers probed, each with the arguments that make it print
/// its version, in order.
pub open spec fn package_managers() -> Seq<(Seq<char>, Seq<char>)> {
    seq![
        ("pacman"@, "--version"@),
        ("apt"@, "--version"@),
        ("apt-get"@, "--version"@),
        ("dnf"@, "--version"@),
        ("yum"@, "--version"@),
        ("zypper"@, "--version"@),
        ("apk"@, "--version"@),
        ("brew"@, "--version"@),
        ("nix"@, "--version"@),
        ("emerge"@, "--version"@),
        ("yay"@, "--version"@),
        ("paru"@, "--version"@),
        ("pikaur"@, "--version"@),
        ("npm"@, "--version"@),
        ("pnpm"@, "--version"@),
        ("yarn"@, "--version"@),
        ("bun"@, "--version"@),
        ("cargo"@, "--version"@),
        ("pip"@, "--version"@),
        ("pip3"@, "--version"@),
        ("uv"@, "--version"@),
        ("poetry"@, "--version"@),
        ("pipenv"@, "--version"@),
        ("conda"@, "--version"@),
        ("gem"@, "--version"@),
        ("composer"@, "--version"@),
        ("go"@, "version"@),
    ]
}

/// A package manager to probe: its program and the one argument that makes
/// it print its version.
pub struct Probe {
    pub program: String,
    pub arg: String,
}

fn probe(program: &str, arg: &str) -> (p: Probe)
    ensures
        p.program@ == program@,
        p.arg@ == arg@,
{
    Probe { program: program.to_owned(), arg: arg.to_owned() }
}

pub open spec fn probe_views(ps: Seq<Probe>) -> Seq<(Seq<char>, Seq<char>)> {
    Seq::new(ps.len(), |i: int| (ps[i].program@, ps[i].arg@))
}

/// The package managers to probe, in order.
pub fn package_probes() -> (r: Vec<Probe>)
    ensures
        probe_views(r@) == package_managers(),
{
    let mut r: Vec<Probe> = Vec::new();
    r.push(probe("pacman", "--version"));
    r.push(probe("apt", "--version"));
    r.push(probe("apt-get", "--version"));
    r.push(probe("dnf", "--version"));
    r.push(probe("yum", "--version"));
    r.push(probe("zypper", "--version"));
    r.push(probe("apk", "--version"));
    r.push(probe("brew", "--version"));
    r.push(probe("nix", "--version"));
    r.push(probe("emerge", "--version"));
    r.push(probe("yay", "--version"));
    r.push(probe("paru", "--version"));
    r.push(probe("pikaur", "--version"));
    r.push(probe("npm", "--version"));
    r.push(probe("pnpm", "--version"));
    r.push(probe("yarn", "--version"));
    r.push(probe("bun", "--version"));
    r.push(probe("cargo", "--version"));
    r.push(probe("pip", "--version"));
    r.push(probe("pip3", "--version"));
    r.push(probe("uv", "--version"));
    r.push(probe("poetry", "--version"));
    r.push(probe("pipenv", "--version"));
    r.push(probe("conda", "--version"));
    r.push(probe("gem", "--version"));
    r.push(probe("composer", "--version"));
    r.push(probe("go", "version"));
    assert(probe_views(r@) =~= package_managers());
    r
}

/// The first line of a text, empty if there is none.
pub open spec fn first_line(s: Seq<char>) -> Seq<char> {
    if lines(s).len() > 0 { lines(s)[0] } else { Seq::empty() }
}

/// Whether a probe found its package manager: it ran and either succeeded
/// or printed something.
pub open spec fn probe_found(out: Option<CommandOutput>) -> bool {
    match out {
        Some(o) => o.success || o.stdout@.len() > 0,
        None => false,
    }
}

/// `name: version` for each package manager found, in order.
pub open spec fn found_lines(names: Seq<Seq<char>>, outs: Seq<Option<CommandOutput>>) -> Seq<Seq<char>>
    decreases outs.len(),
{
    if outs.len() == 0 {
        Seq::empty()
    } else {
        let i = outs.len() - 1;
        let prev = found_lines(names, outs.drop_last());
        if probe_found(outs[i]) {
            prev.push(names[i] + ": "@ + trim(first_line(outs[i].unwrap().stdout@)))
        } else {
            prev
        }
    }
}

/// What `read:get_package_manager` reports; outcomes beyond the list of
/// package managers are ignored.
pub open spec fn package_report(outs: Seq<Option<CommandOutput>>) -> Seq<char> {
    let names = Seq::new(package_managers().len(), |i: int| package_managers()[i].0);
    let n = if outs.len() < names.len() { outs.len() as int } else { names.len() as int };
    let found = found_lines(names, outs.take(n));
    if found.len() == 0 { "No package managers found"@ } else { join(found, "\n"@) }
}

/// `read:get_package_manager`: `outs[i]` is what running the `i`th probe
/// gave (`None` where it could not be started).
pub fn get_package_manager(outs: &Vec<Option<CommandOutput>>) -> (r: String)
    ensures
        r@ == package_report(outs@),
{
    let probes = package_probes();
    let ghost names = Seq::new(package_managers().len(), |i: int| package_managers()[i].0);
    let mut found: Vec<String> = Vec::new();
    let n: usize = if outs.len() < probes.len() { outs.len() } else { probes.len() };
    assert(outs@.take(0) =~= Seq::<Option<CommandOutput>>::empty());
    for i in 0..n
        invariant
            n <= outs@.len(),
            n <= package_managers().len(),
            probe_views(probes@) == package_managers(),
            names == Seq::new(package_managers().len(), |i: int| package_managers()[i].0),
            string_views(found@) == found_lines(names, outs@.take(i as int)),
    {
        assert(outs@.take(i + 1).drop_last() =~= outs@.take(i as int));
        assert(outs@.take(i + 1)[i as int] == outs@[i as int]);
        if let Some(o) = &outs[i] {
            if o.success || !o.stdout.as_str().is_empty() {
                let cs = to_chars(o.stdout.as_str());
                let ls = split_lines(cs.as_slice());
                let first: Vec<char> = if ls.len() > 0 { ls[0].clone() } else { Vec::new() };
                assert(first@ == first_line(o.stdout@)) by {
                    if ls.len() > 0 {
                        assert(views(ls@)[0] == ls@[0]@);
                    }
                }
                let version = trim_chars(first.as_slice());
                let mut line = String::new();
                push_str(&mut line, probes[i].program.as_str());
                push_str(&mut line, ": ");
                crate::text::push_chars(&mut line, version.as_slice());
                assert(probe_views(probes@)[i as int].0 == names[i as int]);
                let ghost before = found@;
                found.push(line);
                assert(string_views(found@) =~= string_views(before).push(line@));
            }
        }
    }
    if found.len() == 0 {
        "No package managers found".to_owned()
    } else {
        join_strings(&found, "\n")
    }
}

} // verus!
