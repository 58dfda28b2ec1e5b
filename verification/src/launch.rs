//! Command lines: typed commands and the commands that launch applications.

use crate::text::{
    concat, copy_str, decimal, has_prefix, push_decimal, remove_suffix, replace,
    replace_all, starts_with, to_chars, trim, trim_chars, views, without_suffix,
};
use shlex::Shlex;
use vstd::prelude::*;
use vstd::string::StringExecFns;

verus! {

/// Whether the query is a typed command: the command prefix is set and the
/// query starts with it.
pub fn is_cmd(text: &str, cmd_prefix: &str) -> (res: bool)
    ensures
        res == (cmd_prefix@.len() > 0 && has_prefix(text@, cmd_prefix@)),
{
    !cmd_prefix.is_empty() && starts_with(text, cmd_prefix)
}

/// The command typed after the command prefix, without surrounding white
/// space.
pub fn command_text(query: &str, cmd_prefix: &str) -> (res: String)
    requires
        has_prefix(query@, cmd_prefix@),
    ensures
        res@ == trim(query@.skip(cmd_prefix@.len() as int)),
{
    let q = to_chars(query);
    let p = to_chars(cmd_prefix);
    let mut rest: Vec<char> = Vec::new();
    let mut i: usize = p.len();
    while i < q.len()
        invariant
            p@.len() <= i <= q@.len(),
            rest@ == q@.subrange(p@.len() as int, i as int),
        decreases q.len() - i,
    {
        rest.push(q[i]);
        i = i + 1;
    }
    assert(rest@ =~= query@.skip(cmd_prefix@.len() as int));
    trim_chars(rest.as_slice())
}

/// The words that `shlex::Shlex` splits a command line into, the way a POSIX
/// shell does (quotes, backslash escapes and `#` comments); where the line
/// ends inside a quotation or after a backslash, the words before the broken
/// one.
pub uninterp spec fn shlex_words(line: Seq<char>) -> Seq<Seq<char>>;

/// `Shlex::new(line).collect::<Vec<String>>()`.
#[verifier::external_body]
fn shlex_split(line: &str) -> (res: Vec<String>)
    ensures
        views(res@) == shlex_words(line@),
{
    Shlex::new(line).collect()
}

/// The words of a typed command, the way a POSIX shell splits them; the first
/// word is the program.
pub fn command_words(cmd_line: &str) -> (res: Vec<String>)
    ensures
        views(res@) == shlex_words(cmd_line@),
{
    shlex_split(cmd_line)
}

/// A desktop entry's command line without the file and URL placeholders
/// `%U`, `%F`, `%u` and `%f`.
pub open spec fn without_placeholders(command_line: Seq<char>) -> Seq<char> {
    replace_all(
        replace_all(
            replace_all(replace_all(command_line, "%U"@, ""@), "%F"@, ""@),
            "%u"@,
            ""@,
        ),
        "%f"@,
        ""@,
    )
}

/// The words that launch an application: its command line without
/// placeholders, split like a shell does. A terminal application runs in the
/// configured terminal command (whose `{}` stands for the command line), or
/// else in the terminal `$TERMINAL` names, with `-e`; without either it is not
/// launched.
pub open spec fn app_command_spec(
    command_line: Seq<char>,
    is_terminal: bool,
    term_command: Option<Seq<char>>,
    terminal: Option<Seq<char>>,
) -> Option<Seq<Seq<char>>> {
    let command_string = without_placeholders(command_line);
    if !is_terminal {
        Some(shlex_words(command_string))
    } else {
        match term_command {
            Some(t) => Some(shlex_words(replace_all(t, "{}"@, command_string))),
            None => match terminal {
                Some(term) => Some(seq![term, "-e"@] + shlex_words(command_string)),
                None => None,
            },
        }
    }
}

/// The words that launch an application (`terminal` is the value of
/// `$TERMINAL`, if set); none where a terminal application has no terminal
/// to run in.
pub fn app_command(
    command_line: &str,
    is_terminal: bool,
    term_command: Option<&str>,
    terminal: Option<&str>,
) -> (res: Option<Vec<String>>)
    ensures
        match res {
            Some(words) => app_command_spec(
                command_line@,
                is_terminal,
                match term_command {
                    Some(t) => Some(t@),
                    None => None,
                },
                match terminal {
                    Some(t) => Some(t@),
                    None => None,
                },
            ) == Some(views(words@)),
            None => app_command_spec(
                command_line@,
                is_terminal,
                match term_command {
                    Some(t) => Some(t@),
                    None => None,
                },
                match terminal {
                    Some(t) => Some(t@),
                    None => None,
                },
            ) is None,
        },
{
    proof {
        reveal_strlit("%U");
        reveal_strlit("%F");
        reveal_strlit("%u");
        reveal_strlit("%f");
        reveal_strlit("{}");
    }
    let step1 = replace(command_line, "%U", "");
    let step2 = replace(step1.as_str(), "%F", "");
    let step3 = replace(step2.as_str(), "%u", "");
    let command_string = replace(step3.as_str(), "%f", "");
    let command = shlex_split(command_string.as_str());
    if !is_terminal {
        return Some(command);
    }
    match term_command {
        Some(t) => {
            let line = replace(t, "{}", command_string.as_str());
            Some(shlex_split(line.as_str()))
        },
        None => match terminal {
            Some(term) => {
                let mut words: Vec<String> = Vec::new();
                words.push(copy_str(term));
                words.push(copy_str("-e"));
                let ghost head = words@;
                let mut i: usize = 0;
                while i < command.len()
                    invariant
                        i <= command@.len(),
                        head.len() == 2,
                        words@.len() == 2 + i,
                        words@.take(2) == head,
                        views(words@) == views(head) + views(command@).take(i as int),
                    decreases command.len() - i,
                {
                    let ghost prev = words@;
                    words.push(command[i].clone());
                    proof {
                        assert(views(words@) =~= views(prev).push(command@[i as int]@));
                        assert(views(command@).take(i + 1) =~= views(command@).take(i as int).push(
                            command@[i as int]@,
                        ));
                        assert(views(words@) =~= views(head) + views(command@).take(i + 1));
                    }
                    i = i + 1;
                }
                proof {
                    assert(views(command@).take(command@.len() as int) =~= views(command@));
                    assert(views(head) =~= seq![term@, "-e"@]);
                }
                Some(words)
            },
            None => None,
        },
    }
}

/// The application name that a launch scope is named after: the desktop
/// file name without `.desktop`.
pub fn scope_app_name(app_id: &str) -> (res: String)
    ensures
        res@ == without_suffix(app_id@, ".desktop"@),
{
    remove_suffix(app_id, ".desktop")
}

/// The `systemd-run` option that names the launch scope: the escaped
/// application name (without surrounding white space) and the launcher's
/// process id.
pub open spec fn unit_option(escaped_name: Seq<char>, pid: u32) -> Seq<char> {
    "--unit=app-sirula-"@ + trim(escaped_name) + "-"@ + decimal(pid as nat)
}

/// The command that runs `command` in a transient systemd user scope named
/// after the application.
pub open spec fn scoped_command_spec(command: Seq<Seq<char>>, escaped_name: Seq<char>, pid: u32) -> Seq<
    Seq<char>,
> {
    seq!["systemd-run"@, "--scope"@, "--user"@, unit_option(escaped_name, pid)] + command
}

/// The command that runs `command` in a transient systemd user scope;
/// `escaped_name` is what `systemd-escape` printed for the application name.
pub fn scoped_command(command: &Vec<String>, escaped_name: &str, pid: u32) -> (res: Vec<String>)
    ensures
        views(res@) == scoped_command_spec(views(command@), escaped_name@, pid),
{
    let mut unit = copy_str("--unit=app-sirula-");
    let trimmed = crate::text::trim_str(escaped_name);
    unit.append(trimmed.as_str());
    unit.append("-");
    push_decimal(&mut unit, pid);
    let mut words: Vec<String> = Vec::new();
    words.push(copy_str("systemd-run"));
    words.push(copy_str("--scope"));
    words.push(copy_str("--user"));
    words.push(unit);
    let ghost head = words@;
    proof {
        assert(views(head) =~= seq![
            "systemd-run"@,
            "--scope"@,
            "--user"@,
            unit_option(escaped_name@, pid),
        ]);
    }
    let mut i: usize = 0;
    while i < command.len()
        invariant
            i <= command@.len(),
            views(words@) == views(head) + views(command@).take(i as int),
        decreases command.len() - i,
    {
        let ghost prev = words@;
        words.push(command[i].clone());
        proof {
            assert(views(words@) =~= views(prev).push(command@[i as int]@));
            assert(views(command@).take(i + 1) =~= views(command@).take(i as int).push(
                command@[i as int]@,
            ));
            assert(views(words@) =~= views(head) + views(command@).take(i + 1));
        }
        i = i + 1;
    }
    assert(views(command@).take(command@.len() as int) =~= views(command@));
    words
}


/// No `%` occurs in `s`.
pub open spec fn no_percent(s: Seq<char>) -> bool {
    forall|k: int| 0 <= k < s.len() ==> s[k] != '%'
}

/// A text that holds no `%` is left as it is by the removal of a `%` field
/// code.
proof fn lemma_replace_absent(s: Seq<char>, pat: Seq<char>)
    requires
        pat.len() > 0,
        pat[0] == '%',
        no_percent(s),
    ensures
        replace_all(s, pat, Seq::empty()) == s,
    decreases s.len(),
{
    if s.len() >= pat.len() {
        assert(s.take(pat.len() as int)[0] == s[0]);
        lemma_replace_absent(s.drop_first(), pat);
        assert(seq![s[0]] + s.drop_first() =~= s);
    }
}

/// Removing a `%` field code from `c + t`, where `c` holds no `%`, keeps `c`
/// and removes the code from `t`.
proof fn lemma_replace_after_plain(c: Seq<char>, t: Seq<char>, pat: Seq<char>)
    requires
        pat.len() > 0,
        pat[0] == '%',
        no_percent(c),
    ensures
        replace_all(c + t, pat, Seq::empty()) == c + replace_all(t, pat, Seq::empty()),
    decreases c.len(),
{
    let s = c + t;
    if c.len() == 0 {
        assert(s =~= t);
        assert(c + replace_all(t, pat, Seq::empty()) =~= replace_all(t, pat, Seq::empty()));
    } else if s.len() < pat.len() {
        assert(t.len() < pat.len());
    } else {
        assert(s.take(pat.len() as int)[0] == c[0]);
        assert(s.drop_first() =~= c.drop_first() + t);
        lemma_replace_after_plain(c.drop_first(), t, pat);
        assert(seq![s[0]] + (c.drop_first() + replace_all(t, pat, Seq::empty())) =~= c + replace_all(
            t,
            pat,
            Seq::empty(),
        ));
    }
}

/// Removing the field code `y` from `c1 + x + c2`, where `x` is a field code
/// and `c1`, `c2` hold no `%`: the code goes where it is `y`, and stays
/// otherwise.
proof fn lemma_remove_code(c1: Seq<char>, x: Seq<char>, c2: Seq<char>, y: Seq<char>)
    requires
        no_percent(c1),
        no_percent(c2),
        x.len() == 2 && x[0] == '%' && x[1] != '%',
        y.len() == 2 && y[0] == '%',
    ensures
        replace_all(c1 + x + c2, y, Seq::empty()) == (if x == y {
            c1 + c2
        } else {
            c1 + x + c2
        }),
{
    assert(c1 + x + c2 =~= c1 + (x + c2));
    lemma_replace_after_plain(c1, x + c2, y);
    let s = x + c2;
    assert(s.take(2) =~= x);
    let tail = s.skip(1);
    assert(tail =~= seq![x[1]] + c2);
    assert(no_percent(tail)) by {
        assert forall|k: int| 0 <= k < tail.len() implies tail[k] != '%' by {
            if k > 0 {
                assert(tail[k] == c2[k - 1]);
            }
        }
    }
    if x == y {
        assert(s.skip(2) =~= c2);
        lemma_replace_absent(c2, y);
        assert(Seq::<char>::empty() + c2 =~= c2);
        assert(c1 + c2 =~= c1 + c2);
    } else {
        lemma_replace_absent(tail, y);
        assert(s.drop_first() =~= tail);
        assert(seq![s[0]] + tail =~= s);
        assert(c1 + s =~= c1 + x + c2);
    }
}

/// The field codes `%U`, `%F`, `%u` and `%f` never reach the launched
/// program: a command line with one of them among plain text launches the
/// same words as the command line without it, and a command line with no
/// `%` is split as it stands.
pub proof fn law_placeholders_are_dropped(
    c1: Seq<char>,
    code: Seq<char>,
    c2: Seq<char>,
    is_terminal: bool,
    term_command: Option<Seq<char>>,
    terminal: Option<Seq<char>>,
)
    requires
        no_percent(c1),
        no_percent(c2),
        code == "%U"@ || code == "%F"@ || code == "%u"@ || code == "%f"@,
    ensures
        without_placeholders(c1 + code + c2) == c1 + c2,
        without_placeholders(c1 + c2) == c1 + c2,
        app_command_spec(c1 + code + c2, is_terminal, term_command, terminal) == app_command_spec(
            c1 + c2,
            is_terminal,
            term_command,
            terminal,
        ),
        app_command_spec(c1 + code + c2, false, term_command, terminal) == Some(shlex_words(c1 + c2)),
{
    reveal_strlit("%U");
    reveal_strlit("%F");
    reveal_strlit("%u");
    reveal_strlit("%f");
    reveal_strlit("");
    assert(""@ =~= Seq::<char>::empty());
    let u1 = "%U"@;
    let f1 = "%F"@;
    let u2 = "%u"@;
    let f2 = "%f"@;
    let plain = c1 + c2;
    assert(no_percent(plain)) by {
        assert forall|k: int| 0 <= k < plain.len() implies plain[k] != '%' by {
            if k >= c1.len() {
                assert(plain[k] == c2[k - c1.len()]);
            }
        }
    }
    lemma_replace_absent(plain, u1);
    lemma_replace_absent(plain, f1);
    lemma_replace_absent(plain, u2);
    lemma_replace_absent(plain, f2);
    let s = c1 + code + c2;
    lemma_remove_code(c1, code, c2, u1);
    let s1 = replace_all(s, u1, ""@);
    if code == u1 {
        assert(s1 == plain);
    } else {
        assert(s1 == s);
        lemma_remove_code(c1, code, c2, f1);
        let s2 = replace_all(s1, f1, ""@);
        if code == f1 {
            assert(s2 == plain);
        } else {
            assert(s2 == s);
            lemma_remove_code(c1, code, c2, u2);
            let s3 = replace_all(s2, u2, ""@);
            if code == u2 {
                assert(s3 == plain);
            } else {
                assert(s3 == s);
                lemma_remove_code(c1, code, c2, f2);
            }
        }
    }
}

} // verus!
