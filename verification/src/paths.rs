//! Fitting worktree-relative paths into a fixed number of columns.
//! Widths count characters, not bytes.

use vstd::prelude::*;
use crate::text::{chars_of, push_char, push_chars, string_of_chars};

verus! {

/// The ellipsis that marks a front-truncated path.
pub open spec fn ellipsis() -> char {
    '…'
}

/// `s` cut from the front to `max` characters, marked with a leading `…`,
/// so that its tail stays visible.
pub open spec fn ellipsized_start(s: Seq<char>, max: nat) -> Seq<char> {
    if s.len() <= max {
        s
    } else if max == 0 {
        Seq::empty()
    } else {
        seq![ellipsis()] + s.subrange(s.len() - (max - 1), s.len() as int)
    }
}

/// `s` split at every `sep`: one more part than there are separators, parts
/// possibly empty (the behaviour of `str::split` with a `char` pattern).
pub open spec fn split_on(s: Seq<char>, sep: char) -> Seq<Seq<char>>
    decreases s.len(),
{
    if s.len() == 0 {
        seq![Seq::empty()]
    } else {
        let p = split_on(s.drop_last(), sep);
        if s.last() == sep {
            p.push(Seq::empty())
        } else {
            p.update(p.len() - 1, p.last().push(s.last()))
        }
    }
}

/// The parts joined back with `sep` between consecutive parts.
pub open spec fn join_on(parts: Seq<Seq<char>>, sep: char) -> Seq<char>
    decreases parts.len(),
{
    if parts.len() == 0 {
        Seq::empty()
    } else if parts.len() == 1 {
        parts[0]
    } else {
        join_on(parts.drop_last(), sep) + seq![sep] + parts.last()
    }
}

/// The first character of `p` alone, or nothing when `p` is empty.
pub open spec fn first_only(p: Seq<char>) -> Seq<char> {
    if p.len() == 0 { p } else { seq![p[0]] }
}

/// Every part whose index is at most `last - 2` (an ancestor directory)
/// shortened to its first character; the others kept whole.
pub open spec fn collapse_ancestors(parts: Seq<Seq<char>>, last: int) -> Seq<Seq<char>> {
    Seq::new(parts.len(), |i: int| if i + 2 <= last { first_only(parts[i]) } else { parts[i] })
}

/// The path with each ancestor directory abbreviated to its first character,
/// keeping the parent directory and the file name whole.
pub open spec fn collapsed_path(rel: Seq<char>) -> Seq<char> {
    let parts = split_on(rel, '/');
    join_on(collapse_ancestors(parts, parts.len() - 1), '/')
}

/// What `abbreviate_path` gives: `rel` itself when it fits in `max`; else,
/// for three or more parts, the collapsed path when that fits; else the
/// front-truncated form of the collapsed path (three or more parts) or of
/// `rel` (fewer).
pub open spec fn abbreviated(rel: Seq<char>, max: nat) -> Seq<char> {
    if rel.len() <= max {
        rel
    } else if split_on(rel, '/').len() > 2 {
        let out = collapsed_path(rel);
        if out.len() <= max {
            out
        } else {
            ellipsized_start(out, max)
        }
    } else {
        ellipsized_start(rel, max)
    }
}

/// The abbreviation never exceeds `max` characters, a path that fits is
/// left unchanged, and a front-truncated result keeps the tail behind its
/// leading `…`.
pub proof fn law_abbreviation_fits(rel: Seq<char>, max: nat)
    ensures
        abbreviated(rel, max).len() <= max,
        rel.len() <= max ==> abbreviated(rel, max) == rel,
        forall|s: Seq<char>|
            s.len() > max > 0 ==> #[trigger] ellipsized_start(s, max) == seq![ellipsis()] + s.subrange(
                s.len() - (max - 1),
                s.len() as int,
            ) && ellipsized_start(s, max).len() == max,
{
}

/// Whether `s` ends with `t`.
pub open spec fn has_suffix(s: Seq<char>, t: Seq<char>) -> bool {
    t.len() <= s.len() && s.subrange(s.len() - t.len(), s.len() as int) == t
}

/// The file name of a relative path: its last `/`-separated part.
pub open spec fn file_part(rel: Seq<char>) -> Seq<char> {
    split_on(rel, '/').last()
}

/// The shape of an abbreviation: a path too wide for `max` whose collapsed
/// form fits becomes exactly that collapsed form; the collapsed form always
/// ends with the file name; and the file name survives whole at the end of
/// the abbreviation whenever it is narrower than `max`. Only a path that fits
/// is returned unchanged.
pub proof fn law_abbreviation_shape(rel: Seq<char>, max: nat)
    ensures
        rel.len() > max && collapsed_path(rel).len() <= max ==> abbreviated(rel, max) == collapsed_path(rel),
        has_suffix(collapsed_path(rel), file_part(rel)),
        has_suffix(rel, file_part(rel)),
        file_part(rel).len() < max ==> has_suffix(abbreviated(rel, max), file_part(rel)),
        abbreviated(rel, max) == rel <==> rel.len() <= max,
{
    let parts = split_on(rel, '/');
    lemma_split_len_pos(rel, '/');
    lemma_join_split(rel, '/');
    let cp = collapse_ancestors(parts, parts.len() - 1);
    assert(cp.last() == parts.last());
    lemma_join_suffix(cp, '/');
    lemma_join_suffix(parts, '/');
    if parts.len() <= 2 {
        assert(cp =~= parts);
    }
    law_abbreviation_fits(rel, max);
    let f = file_part(rel);
    if f.len() < max && rel.len() > max {
        if parts.len() > 2 {
            let out = collapsed_path(rel);
            if out.len() > max {
                lemma_ellipsized_suffix(out, f, max);
            }
        } else {
            lemma_ellipsized_suffix(rel, f, max);
        }
    }
}

proof fn lemma_ellipsized_suffix(s: Seq<char>, f: Seq<char>, max: nat)
    requires
        has_suffix(s, f),
        f.len() < max,
        s.len() > max,
    ensures
        has_suffix(ellipsized_start(s, max), f),
{
    let r = ellipsized_start(s, max);
    assert(r == seq![ellipsis()] + s.subrange(s.len() - (max - 1), s.len() as int));
    assert(r.subrange(r.len() - f.len(), r.len() as int) =~= s.subrange(s.len() - f.len(), s.len() as int));
}

proof fn lemma_join_suffix(parts: Seq<Seq<char>>, sep: char)
    requires
        parts.len() >= 1,
    ensures
        has_suffix(join_on(parts, sep), parts.last()),
{
    let j = join_on(parts, sep);
    if parts.len() == 1 {
        assert(j.subrange(0, j.len() as int) =~= j);
    } else {
        let pre = join_on(parts.drop_last(), sep) + seq![sep];
        assert(j == pre + parts.last());
        assert(j.subrange(j.len() - parts.last().len(), j.len() as int) =~= parts.last());
    }
}

proof fn lemma_join_split(s: Seq<char>, sep: char)
    ensures
        join_on(split_on(s, sep), sep) == s,
    decreases s.len(),
{
    if s.len() > 0 {
        let p = split_on(s.drop_last(), sep);
        lemma_join_split(s.drop_last(), sep);
        lemma_split_len_pos(s.drop_last(), sep);
        if s.last() == sep {
            lemma_join_push(p, sep, Seq::empty());
        } else {
            lemma_join_extend_last(p, sep, s.last());
        }
        assert(s.drop_last().push(s.last()) =~= s);
        assert(join_on(split_on(s, sep), sep) =~= s);
    }
}

proof fn lemma_join_push(parts: Seq<Seq<char>>, sep: char, last: Seq<char>)
    requires
        parts.len() >= 1,
    ensures
        join_on(parts.push(last), sep) == join_on(parts, sep) + seq![sep] + last,
{
    assert(parts.push(last).drop_last() =~= parts);
}

proof fn lemma_join_extend_last(parts: Seq<Seq<char>>, sep: char, c: char)
    requires
        parts.len() >= 1,
    ensures
        join_on(parts.update(parts.len() - 1, parts.last().push(c)), sep)
            == join_on(parts, sep).push(c),
{
    let q = parts.update(parts.len() - 1, parts.last().push(c));
    if parts.len() == 1 {
        assert(join_on(q, sep) == q[0]);
    } else {
        assert(q.drop_last() =~= parts.drop_last());
        assert(join_on(q, sep) =~= join_on(parts, sep).push(c));
    }
}

proof fn lemma_split_len_pos(s: Seq<char>, sep: char)
    ensures
        split_on(s, sep).len() >= 1,
    decreases s.len(),
{
    if s.len() > 0 {
        lemma_split_len_pos(s.drop_last(), sep);
    }
}

/// Front-truncates `s` to `max` characters with a leading `…`, keeping the
/// tail (the file name) visible.
pub fn ellipsize_start(s: &str, max: usize) -> (res: String)
    ensures
        res@ == ellipsized_start(s@, max as nat),
{
    let v = chars_of(s);
    ellipsize_chars(&v, max)
}

fn ellipsize_chars(v: &Vec<char>, max: usize) -> (res: String)
    ensures
        res@ == ellipsized_start(v@, max as nat),
{
    let n = v.len();
    if n <= max {
        return string_of_chars(v.as_slice());
    }
    if max == 0 {
        return String::new();
    }
    let mut out = String::new();
    push_char(&mut out, '…');
    let start = n - (max - 1);
    let mut i: usize = start;
    while i < n
        invariant
            n == v@.len(),
            start <= i <= n,
            out@ == seq!['…'] + v@.subrange(start as int, i as int),
        decreases n - i,
    {
        push_char(&mut out, v[i]);
        i = i + 1;
        assert(out@ =~= seq!['…'] + v@.subrange(start as int, i as int));
    }
    out
}

/// Abbreviates every ancestor directory of `v` to its first character.
fn collapse_chars(v: &Vec<char>) -> (res: (Vec<char>, usize))
    ensures
        res.0@ == collapsed_path(v@),
        res.1 + 1 == split_on(v@, '/').len(),
{
    let n = v.len();
    // First pass: how many separators, i.e. the index of the last part.
    let mut last: usize = 0;
    let mut i: usize = 0;
    proof {
        assert(v@.take(0) =~= Seq::<char>::empty());
    }
    while i < n
        invariant
            n == v@.len(),
            i <= n,
            last <= i,
            last + 1 == split_on(v@.take(i as int), '/').len(),
        decreases n - i,
    {
        proof {
            assert(v@.take(i + 1).drop_last() =~= v@.take(i as int));
            lemma_split_len_pos(v@.take(i as int), '/');
        }
        if v[i] == '/' {
            last = last + 1;
        }
        i = i + 1;
    }
    proof {
        assert(v@.take(n as int) =~= v@);
    }
    // Second pass: keep separators, keep only the first character of each
    // ancestor part, keep the last two parts whole.
    let mut out: Vec<char> = Vec::new();
    let mut seg: usize = 0;
    let mut pos: usize = 0;
    i = 0;
    let ghost total = split_on(v@, '/');
    proof {
        assert(split_on(v@.take(0), '/') =~= seq![Seq::<char>::empty()]);
        assert(collapse_ancestors(seq![Seq::<char>::empty()], last as int)
            =~= seq![Seq::<char>::empty()]);
    }
    while i < n
        invariant
            n == v@.len(),
            i <= n,
            last + 1 == total.len(),
            total == split_on(v@, '/'),
            seg + 1 == split_on(v@.take(i as int), '/').len(),
            pos == split_on(v@.take(i as int), '/').last().len(),
            out@ == join_on(
                collapse_ancestors(split_on(v@.take(i as int), '/'), last as int),
                '/',
            ),
            seg <= i,
            pos <= i,
        decreases n - i,
    {
        let c = v[i];
        let ghost p = split_on(v@.take(i as int), '/');
        proof {
            assert(v@.take(i + 1).drop_last() =~= v@.take(i as int));
            assert(v@.take(i + 1).last() == c);
            lemma_split_len_pos(v@.take(i as int), '/');
        }
        if c == '/' {
            proof {
                let q = split_on(v@.take(i + 1), '/');
                assert(q == p.push(Seq::empty()));
                assert(collapse_ancestors(q, last as int) =~= collapse_ancestors(p, last as int).push(Seq::empty()));
                lemma_join_push(collapse_ancestors(p, last as int), '/', Seq::empty());
            }
            out.push('/');
            seg = seg + 1;
            pos = 0;
            proof {
                assert(out@ =~= join_on(collapse_ancestors(p, last as int), '/') + seq!['/'] + Seq::<char>::empty());
            }
        } else {
            let keep = seg + 1 >= last || pos == 0;
            proof {
                let q = split_on(v@.take(i + 1), '/');
                let cp = collapse_ancestors(p, last as int);
                assert(q == p.update(p.len() - 1, p.last().push(c)));
                if keep {
                    let j = p.len() - 1;
                    assert(q[j] == p[j].push(c));
                    if j + 2 <= last {
                        assert(p[j].len() == 0);
                        assert(first_only(q[j]) =~= first_only(p[j]).push(c));
                    }
                    assert(collapse_ancestors(q, last as int)[j] =~= cp[j].push(c));
                    assert(collapse_ancestors(q, last as int) =~= cp.update(cp.len() - 1, cp.last().push(c)));
                    lemma_join_extend_last(cp, '/', c);
                } else {
                    assert(collapse_ancestors(q, last as int) =~= cp);
                }
            }
            if keep {
                out.push(c);
            }
            pos = pos + 1;
        }
        i = i + 1;
    }
    proof {
        assert(v@.take(n as int) =~= v@);
    }
    (out, last)
}

/// Fits a worktree-relative path into `max` columns: unchanged when it fits;
/// otherwise each ancestor directory shrinks to its first character (the
/// parent directory and file name stay whole, e.g. `docs/superpowers/specs/foo.md`
/// becomes `d/s/specs/foo.md`); if that is still too wide, the result is
/// front-truncated with `…`.
pub fn abbreviate_path(rel: &str, max: usize) -> (res: String)
    ensures
        res@ == abbreviated(rel@, max as nat),
{
    let v = chars_of(rel);
    if v.len() <= max {
        return string_of_chars(v.as_slice());
    }
    let (out, last) = collapse_chars(&v);
    if last >= 2 {
        if out.len() <= max {
            return string_of_chars(out.as_slice());
        }
        return ellipsize_chars(&out, max);
    }
    ellipsize_chars(&v, max)
}

/// What `std::path::Path::strip_prefix` gives for the path `file` and the
/// base `base`, taken as text: the remainder when `base` is a whole-component
/// prefix of `file`, nothing otherwise.
pub uninterp spec fn path_strip_prefix(file: Seq<char>, base: Seq<char>) -> Option<Seq<char>>;

/// `std::path::Path::strip_prefix` on two paths given as text. The contract
/// claims only that the result is the one named by `path_strip_prefix` for
/// these two arguments; what that is (component matching) is left to std.
#[verifier::external_body]
fn strip_path_prefix(file: &str, base: &str) -> (res: Option<String>)
    ensures
        match res {
            Some(r) => path_strip_prefix(file@, base@) == Some(r@),
            None => path_strip_prefix(file@, base@) is None,
        },
{
    match std::path::Path::new(file).strip_prefix(base) {
        Ok(rel) => Some(rel.to_string_lossy().into_owned()),
        Err(_) => None,
    }
}

/// The worktree-relative text of `file`: what is left after stripping the
/// worktree `base`, or all of `file` when it is not under it.
pub open spec fn relative_text(file: Seq<char>, base: Seq<char>) -> Seq<char> {
    match path_strip_prefix(file, base) {
        Some(r) => r,
        None => file,
    }
}

/// The text shown for `file` once the worktree prefix has (or has not) been
/// stripped: the remainder when there is one, the full path otherwise.
pub fn relative_or_full(file: &str, stripped: Option<String>) -> (res: String)
    ensures
        res@ == match stripped {
            Some(r) => r@,
            None => file@,
        },
{
    match stripped {
        Some(r) => r,
        None => String::from_str(file),
    }
}

/// Worktree-relative display path, falling back to the full path when the
/// file is not under the worktree.
pub fn relative_display(file: &str, worktree: &str) -> (res: String)
    ensures
        res@ == relative_text(file@, worktree@),
{
    relative_or_full(file, strip_path_prefix(file, worktree))
}

} // verus!
