//! The command line that opens a file in the user's editor.

use vstd::prelude::*;
use crate::text::{chars_of, decimal, push_char, push_decimal};

verus! {

/// Unicode `White_Space`, the class that `char::is_whitespace`, `str::trim`
/// and `str::split_whitespace` go by.
pub open spec fn is_space(c: char) -> bool {
    let u = c as u32;
    ||| 0x09 <= u <= 0x0d
    ||| u == 0x20
    ||| u == 0x85
    ||| u == 0xa0
    ||| u == 0x1680
    ||| 0x2000 <= u <= 0x200a
    ||| u == 0x2028
    ||| u == 0x2029
    ||| u == 0x202f
    ||| u == 0x205f
    ||| u == 0x3000
}

/// Whether `c` is Unicode white space.
pub fn space_char(c: char) -> (res: bool)
    ensures
        res == is_space(c),
{
    let u = c as u32;
    (0x09 <= u && u <= 0x0d) || u == 0x20 || u == 0x85 || u == 0xa0 || u == 0x1680 || (0x2000 <= u
        && u <= 0x200a) || u == 0x2028 || u == 0x2029 || u == 0x202f || u == 0x205f || u == 0x3000
}

/// The maximal runs of non-space characters of `s`, in order (what
/// `str::split_whitespace` yields).
pub open spec fn words(s: Seq<char>) -> Seq<Seq<char>>
    decreases s.len(),
{
    if s.len() == 0 {
        Seq::empty()
    } else {
        let p = s.drop_last();
        let w = words(p);
        let c = s.last();
        if is_space(c) {
            w
        } else if p.len() > 0 && !is_space(p.last()) {
            w.update(w.len() - 1, w.last().push(c))
        } else {
            w.push(seq![c])
        }
    }
}

proof fn lemma_words_empty(s: Seq<char>)
    ensures
        words(s).len() == 0 <==> forall|i: int| 0 <= i < s.len() ==> is_space(#[trigger] s[i]),
    decreases s.len(),
{
    if s.len() > 0 {
        let p = s.drop_last();
        lemma_words_empty(p);
        if is_space(s.last()) {
            if words(s).len() == 0 {
                assert forall|i: int| 0 <= i < s.len() implies is_space(#[trigger] s[i]) by {
                    if i < s.len() - 1 {
                        assert(s[i] == p[i]);
                    }
                }
            }
        } else {
            assert(!is_space(s[s.len() - 1]));
            if p.len() > 0 && !is_space(p.last()) {
                assert(!is_space(p[p.len() - 1]));
            }
        }
        if forall|i: int| 0 <= i < s.len() ==> is_space(#[trigger] s[i]) {
            assert(is_space(s[s.len() - 1]));
            assert forall|i: int| 0 <= i < p.len() implies is_space(#[trigger] p[i]) by {
                assert(p[i] == s[i]);
            }
        }
    }
}

/// An unset setting, or one of nothing but white space, launches `vi` with
/// just `+LINE` and the path.
pub proof fn law_blank_setting_falls_back_to_vi(env: Option<Seq<char>>, line: u32, path: Seq<char>)
    requires
        env matches Some(e) ==> forall|i: int| 0 <= i < e.len() ==> is_space(#[trigger] e[i]),
    ensures
        editor_program(env) == seq!['v', 'i'],
        editor_args(env, line, path) == seq![seq!['+'] + decimal(line as nat), path],
{
    if let Some(e) = env {
        lemma_words_empty(e);
    }
    assert(Seq::<Seq<char>>::empty() + seq![seq!['+'] + decimal(line as nat), path]
        =~= seq![seq!['+'] + decimal(line as nat), path]);
}

/// The line and the path always come last, after whatever arguments the
/// setting carried.
pub proof fn law_line_and_path_come_last(env: Option<Seq<char>>, line: u32, path: Seq<char>)
    ensures
        editor_args(env, line, path).len() >= 2,
        editor_args(env, line, path).last() == path,
        editor_args(env, line, path)[editor_args(env, line, path).len() - 2] == seq!['+'] + decimal(line as nat),
{
}

/// The views of a sequence of strings.
pub open spec fn views(v: Seq<String>) -> Seq<Seq<char>> {
    v.map_values(|s: String| s@)
}

/// The words of the editor setting; none when it is unset.
pub open spec fn setting_words(env: Option<Seq<char>>) -> Seq<Seq<char>> {
    match env {
        Some(e) => words(e),
        None => Seq::empty(),
    }
}

/// The program to launch: the first word of the setting, `vi` when the
/// setting is unset or blank.
pub open spec fn editor_program(env: Option<Seq<char>>) -> Seq<char> {
    let w = setting_words(env);
    if w.len() == 0 { seq!['v', 'i'] } else { w[0] }
}

/// Its arguments: the setting's remaining words, then `+LINE`, then the path.
pub open spec fn editor_args(env: Option<Seq<char>>, line: u32, path: Seq<char>) -> Seq<Seq<char>> {
    let w = setting_words(env);
    (if w.len() == 0 { Seq::empty() } else { w.drop_first() }) + seq![seq!['+'] + decimal(line as nat), path]
}

/// The words of `s`.
pub fn split_words(s: &str) -> (res: Vec<String>)
    ensures
        views(res@) == words(s@),
{
    let v = chars_of(s);
    let n = v.len();
    let mut out: Vec<String> = Vec::new();
    let mut cur = String::new();
    let mut in_word = false;
    let mut i: usize = 0;
    proof {
        assert(v@.take(0) =~= Seq::<char>::empty());
        assert(views(out@) =~= Seq::<Seq<char>>::empty());
    }
    while i < n
        invariant
            n == v@.len(),
            v@ == s@,
            i <= n,
            in_word == (i > 0 && !is_space(v@[i - 1])),
            words(v@.take(i as int)) == views(out@) + if in_word { seq![cur@] } else { Seq::empty() },
        decreases n - i,
    {
        let c = v[i];
        let ghost before = v@.take(i as int);
        proof {
            assert(v@.take(i + 1).drop_last() =~= before);
            assert(v@.take(i + 1).last() == c);
            if i > 0 {
                assert(before.last() == v@[i - 1]);
            }
        }
        if space_char(c) {
            if in_word {
                let ghost cv = cur@;
                let ghost out_before = out@;
                let w = cur;
                out.push(w);
                cur = String::new();
                proof {
                    assert(views(out@) =~= views(out_before) + seq![cv]);
                }
            }
            in_word = false;
        } else {
            if in_word {
                let ghost w0 = words(before);
                push_char(&mut cur, c);
                proof {
                    assert(w0.update(w0.len() - 1, w0.last().push(c)) =~= views(out@) + seq![cur@]);
                }
            } else {
                cur = String::new();
                push_char(&mut cur, c);
                proof {
                    assert(words(before).push(seq![c]) =~= views(out@) + seq![cur@]);
                }
            }
            in_word = true;
        }
        i = i + 1;
    }
    let ghost out_before = out@;
    let ghost cv = cur@;
    if in_word {
        out.push(cur);
        proof {
            assert(views(out@) =~= views(out_before) + seq![cv]);
        }
    }
    proof {
        assert(v@.take(n as int) =~= v@);
    }
    assert(views(out@) =~= words(s@));
    out
}

/// The view of an optional string slice.
pub open spec fn opt_view(v: Option<&str>) -> Option<Seq<char>> {
    match v {
        Some(s) => Some(s@),
        None => None,
    }
}

/// The editor setting in force: `$VISUAL` when it is set (even to nothing),
/// `$EDITOR` otherwise.
pub fn pick_setting<'a>(visual: Option<&'a str>, editor: Option<&'a str>) -> (res: Option<&'a str>)
    ensures
        res == if visual is Some { visual } else { editor },
{
    match visual {
        Some(v) => Some(v),
        None => editor,
    }
}

/// The `(program, args)` to launch for an editor setting (`$VISUAL` or
/// `$EDITOR`), opening `path` at `line` by the `+N file` convention. An
/// unset or blank setting falls back to `vi`; the setting is split on white
/// space, so `code -w` keeps its leading arguments.
pub fn editor_command(env_val: Option<&str>, line: u32, path: &str) -> (res: (String, Vec<String>))
    ensures
        res.0@ == editor_program(opt_view(env_val)),
        views(res.1@) == editor_args(opt_view(env_val), line, path@),
{
    let mut parts = match env_val {
        Some(s) => split_words(s),
        None => Vec::new(),
    };
    let ghost w = setting_words(opt_view(env_val));
    assert(views(parts@) == w);
    let prog: String;
    let mut args: Vec<String>;
    if parts.len() == 0 {
        prog = String::new();
        let mut p = prog;
        push_char(&mut p, 'v');
        push_char(&mut p, 'i');
        assert(p@ =~= seq!['v', 'i']);
        args = Vec::new();
        assert(views(args@) =~= Seq::<Seq<char>>::empty());
        return finish_command(p, args, line, path, Ghost(Seq::empty()));
    } else {
        prog = parts.remove(0);
        args = parts;
        assert(views(args@) =~= w.drop_first());
        assert(prog@ == w[0]);
    }
    finish_command(prog, args, line, path, Ghost(w.drop_first()))
}

fn finish_command(
    prog: String,
    args: Vec<String>,
    line: u32,
    path: &str,
    Ghost(lead): Ghost<Seq<Seq<char>>>,
) -> (res: (String, Vec<String>))
    requires
        views(args@) == lead,
    ensures
        res.0 == prog,
        views(res.1@) == lead + seq![seq!['+'] + decimal(line as nat), path@],
{
    let mut args = args;
    let ghost before = args@;
    let mut plus = String::new();
    push_char(&mut plus, '+');
    push_decimal(&mut plus, line as u64);
    args.push(plus);
    args.push(String::from_str(path));
    assert(views(args@) =~= views(before) + seq![seq!['+'] + decimal(line as nat), path@]);
    (prog, args)
}

} // verus!
