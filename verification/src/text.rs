//! Character-level helpers shared by the renderers.

use vstd::prelude::*;
use vstd::string::StringExecFns;

verus! {

broadcast use vstd::string::group_string_axioms;

/// The characters of `s`, in order.
pub fn chars_of(s: &str) -> (v: Vec<char>)
    ensures
        v@ == s@,
{
    let mut v: Vec<char> = Vec::new();
    for c in it: s.chars()
        invariant
            v@ == it.seq().take(it.index() as int),
            it.seq() == s@,
    {
        v.push(c);
    }
    v
}


/// Whether `a` and `b` hold the same characters.
pub fn chars_eq(a: &Vec<char>, b: &Vec<char>) -> (r: bool)
    ensures
        r == (a@ == b@),
{
    if a.len() != b.len() {
        return false;
    }
    let mut i: usize = 0;
    while i < a.len()
        invariant
            a@.len() == b@.len(),
            i <= a@.len(),
            forall|j: int| 0 <= j < i ==> a@[j] == b@[j],
        decreases a@.len() - i,
    {
        if a[i] != b[i] {
            return false;
        }
        i = i + 1;
    }
    assert(a@ =~= b@);
    true
}

/// Whether `p` is a prefix of `a`.
pub fn chars_starts_with(a: &Vec<char>, p: &Vec<char>) -> (r: bool)
    ensures
        r == p@.is_prefix_of(a@),
{
    if p.len() > a.len() {
        return false;
    }
    let mut i: usize = 0;
    while i < p.len()
        invariant
            p@.len() <= a@.len(),
            i <= p@.len(),
            forall|j: int| 0 <= j < i ==> p@[j] == a@[j],
        decreases p@.len() - i,
    {
        if a[i] != p[i] {
            return false;
        }
        i = i + 1;
    }
    assert(p@ =~= a@.subrange(0, p@.len() as int));
    true
}

/// Calls `String::push`, which appends `c` to `s` (its documentation says no more).
#[verifier::external_body]
pub(crate) fn push_char(s: &mut String, c: char)
    ensures
        final(s)@ == old(s)@.push(c),
{
    s.push(c);
}

/// A string holding the characters of `v`, in order.
pub fn string_from_chars(v: &Vec<char>) -> (s: String)
    ensures
        s@ == v@,
{
    let mut s = String::new();
    let mut i: usize = 0;
    while i < v.len()
        invariant
            i <= v@.len(),
            s@ == v@.take(i as int),
        decreases v@.len() - i,
    {
        push_char(&mut s, v[i]);
        assert(v@.take(i + 1) =~= v@.take(i as int).push(v@[i as int]));
        i = i + 1;
    }
    assert(v@.take(v@.len() as int) =~= v@);
    s
}


/// `a` followed by `b`.
pub fn concat2(a: &str, b: &str) -> (r: String)
    ensures
        r@ == a@ + b@,
{
    let mut r = a.to_string();
    r.append(b);
    r
}

/// `a`, then `b`, then `c`.
pub fn concat3(a: &str, b: &str, c: &str) -> (r: String)
    ensures
        r@ == a@ + b@ + c@,
{
    let mut r = a.to_string();
    r.append(b);
    r.append(c);
    r
}

/// `n` spaces.
pub open spec fn spaces(n: nat) -> Seq<char> {
    Seq::new(n, |i: int| ' ')
}

/// A string of `n` spaces.
pub fn repeat_space(n: usize) -> (r: String)
    ensures
        r@ == spaces(n as nat),
{
    let mut r = String::new();
    let mut i: usize = 0;
    while i < n
        invariant
            i <= n,
            r@ == spaces(i as nat),
        decreases n - i,
    {
        push_char(&mut r, ' ');
        assert(spaces((i + 1) as nat) =~= spaces(i as nat).push(' '));
        i = i + 1;
    }
    r
}


/// The digit character for `d < 10`.
pub open spec fn digit_char(d: nat) -> char {
    ((d + 48) as u32) as char
}

/// `n` written in decimal.
pub open spec fn decimal(n: nat) -> Seq<char>
    decreases n,
{
    if n < 10 {
        seq![digit_char(n)]
    } else {
        decimal(n / 10).push(digit_char(n % 10))
    }
}

/// The decimal digits of `n`.
pub fn decimal_chars(n: usize) -> (v: Vec<char>)
    ensures
        v@ == decimal(n as nat),
    decreases n,
{
    let d: u32 = (n % 10) as u32;
    let c: char = char_from_digit(d);
    if n < 10 {
        let mut v: Vec<char> = Vec::new();
        v.push(c);
        assert(v@ =~= seq![digit_char(n as nat)]);
        v
    } else {
        let mut v = decimal_chars(n / 10);
        v.push(c);
        v
    }
}

/// The character of the decimal digit `d`.
fn char_from_digit(d: u32) -> (c: char)
    requires
        d < 10,
    ensures
        c == digit_char(d as nat),
{
    match d {
        0 => '0',
        1 => '1',
        2 => '2',
        3 => '3',
        4 => '4',
        5 => '5',
        6 => '6',
        7 => '7',
        8 => '8',
        _ => '9',
    }
}

/// `n` written in decimal, as a string.
pub fn decimal_string(n: usize) -> (s: String)
    ensures
        s@ == decimal(n as nat),
{
    let v = decimal_chars(n);
    string_from_chars(&v)
}


/// The first position at or after `i` that holds a newline.
pub open spec fn next_newline(s: Seq<char>, i: int) -> Option<int>
    decreases s.len() - i,
{
    if i < 0 || i >= s.len() {
        None
    } else if s[i] == '\n' {
        Some(i)
    } else {
        next_newline(s, i + 1)
    }
}

/// `t` without one trailing carriage return.
pub open spec fn strip_cr(t: Seq<char>) -> Seq<char> {
    if t.len() > 0 && t.last() == '\r' {
        t.drop_last()
    } else {
        t
    }
}

/// The lines of `s[i..]`, as `str::lines` gives them: split after each
/// newline, the newline (and a carriage return before it) dropped, and no
/// empty last line after a final newline.
pub open spec fn lines_from(s: Seq<char>, i: int) -> Seq<Seq<char>>
    decreases s.len() - i,
{
    if i < 0 || i >= s.len() {
        Seq::empty()
    } else {
        match next_newline(s, i) {
            Some(j) => if i <= j < s.len() {
                seq![strip_cr(s.subrange(i, j))] + lines_from(s, j + 1)
            } else {
                Seq::empty()
            },
            None => seq![s.subrange(i, s.len() as int)],
        }
    }
}

/// The lines of `s`, as `str::lines` gives them.
pub open spec fn lines_of(s: Seq<char>) -> Seq<Seq<char>> {
    lines_from(s, 0)
}

proof fn lemma_next_newline(s: Seq<char>, i: int)
    requires
        0 <= i,
    ensures
        match next_newline(s, i) {
            Some(j) => i <= j < s.len() && s[j] == '\n' && forall|k: int|
                i <= k < j ==> s[k] != '\n',
            None => forall|k: int| i <= k < s.len() ==> s[k] != '\n',
        },
    decreases s.len() - i,
{
    if i < s.len() && s[i] != '\n' {
        lemma_next_newline(s, i + 1);
    }
}

/// The characters of `s[i..j]` as a string.
pub fn string_between(s: &Vec<char>, i: usize, j: usize) -> (r: String)
    requires
        i <= j <= s@.len(),
    ensures
        r@ == s@.subrange(i as int, j as int),
{
    let mut r = String::new();
    let mut k: usize = i;
    while k < j
        invariant
            i <= k <= j <= s@.len(),
            r@ == s@.subrange(i as int, k as int),
        decreases j - k,
    {
        push_char(&mut r, s[k]);
        assert(s@.subrange(i as int, k + 1) =~= s@.subrange(i as int, k as int).push(s@[k as int]));
        k = k + 1;
    }
    r
}

/// The lines of `s`, as `str::lines` gives them.
pub fn split_lines(s: &str) -> (r: Vec<String>)
    ensures
        r@.len() == lines_of(s@).len(),
        forall|k: int| 0 <= k < r@.len() ==> #[trigger] r@[k]@ == lines_of(s@)[k],
{
    let c = chars_of(s);
    let n = c.len();
    let mut r: Vec<String> = Vec::new();
    let mut start: usize = 0;
    let mut k: usize = 0;
    while k < n
        invariant
            n == c@.len(),
            c@ == s@,
            start <= k <= n,
            forall|t: int| start <= t < k ==> c@[t] != '\n',
            lines_of(s@) == r@.map_values(|x: String| x@) + lines_from(s@, start as int),
        decreases n - k,
    {
        if c[k] == '\n' {
            proof {
                lemma_next_newline(s@, start as int);
            }
            assert(next_newline(s@, start as int) == Some(k as int));
            let mut end = k;
            if end > start && c[end - 1] == '\r' {
                end = end - 1;
            }
            let line = string_between(&c, start, end);
            assert(line@ == strip_cr(s@.subrange(start as int, k as int)));
            let ghost before = r@.map_values(|x: String| x@);
            r.push(line);
            assert(r@.map_values(|x: String| x@) =~= before.push(line@));
            assert(lines_from(s@, start as int) == seq![line@] + lines_from(s@, k + 1));
            assert(before + lines_from(s@, start as int) =~= before.push(line@) + lines_from(s@, k + 1));
            start = k + 1;
        }
        k = k + 1;
    }
    if start < n {
        proof {
            lemma_next_newline(s@, start as int);
        }
        let line = string_between(&c, start, n);
        let ghost before = r@.map_values(|x: String| x@);
        r.push(line);
        assert(r@.map_values(|x: String| x@) =~= before.push(line@));
        assert(lines_from(s@, start as int) =~= seq![line@]);
        assert(lines_from(s@, n as int) =~= Seq::<Seq<char>>::empty());
        assert(before + lines_from(s@, start as int) =~= before.push(line@));
    } else {
        assert(lines_from(s@, start as int) =~= Seq::<Seq<char>>::empty());
    }
    assert(lines_of(s@) =~= r@.map_values(|x: String| x@));
    assert forall|k: int| 0 <= k < r@.len() implies #[trigger] r@[k]@ == lines_of(s@)[k] by {
        assert(r@.map_values(|x: String| x@)[k] == r@[k]@);
    }
    r
}


/// Append the characters of `s` to `v`.
pub fn append_chars(v: &mut Vec<char>, s: &str)
    ensures
        final(v)@ == old(v)@ + s@,
{
    let c = chars_of(s);
    let ghost start = v@;
    let mut k: usize = 0;
    while k < c.len()
        invariant
            k <= c@.len(),
            c@ == s@,
            v@ == start + c@.take(k as int),
        decreases c@.len() - k,
    {
        v.push(c[k]);
        assert(c@.take(k + 1) =~= c@.take(k as int).push(c@[k as int]));
        k = k + 1;
    }
    assert(c@.take(c@.len() as int) =~= c@);
}

/// `s` without its trailing newlines.
pub open spec fn trim_newlines(s: Seq<char>) -> Seq<char>
    decreases s.len(),
{
    if s.len() > 0 && s.last() == '\n' {
        trim_newlines(s.drop_last())
    } else {
        s
    }
}

/// Trimming drops exactly the newlines at the end: what stays is a prefix of
/// `s`, everything after it is a newline, and it does not end in one.
pub proof fn lemma_trim_newlines(s: Seq<char>)
    ensures
        trim_newlines(s) == s.take(trim_newlines(s).len() as int),
        trim_newlines(s).len() <= s.len(),
        forall|i: int| trim_newlines(s).len() <= i < s.len() ==> s[i] == '\n',
        trim_newlines(s).len() == 0 || trim_newlines(s).last() != '\n',
    decreases s.len(),
{
    if s.len() > 0 && s.last() == '\n' {
        lemma_trim_newlines(s.drop_last());
        let t = trim_newlines(s.drop_last());
        assert(s.drop_last().take(t.len() as int) =~= s.take(t.len() as int));
        assert forall|i: int| t.len() <= i < s.len() implies s[i] == '\n' by {
            if i < s.len() - 1 {
                assert(s[i] == s.drop_last()[i]);
            }
        }
    } else {
        assert(s.take(s.len() as int) =~= s);
    }
}

/// Drop the trailing newlines of `v`.
pub fn trim_trailing_newlines(v: &mut Vec<char>)
    ensures
        final(v)@ == trim_newlines(old(v)@),
{
    while v.len() > 0 && v[v.len() - 1] == '\n'
        invariant
            trim_newlines(v@) == trim_newlines(old(v)@),
        decreases v@.len(),
    {
        let ghost before = v@;
        v.pop();
        assert(v@ =~= before.drop_last());
    }
}

/// The first `n` of `lines`, joined by newlines, each non-empty one after
/// `prefix`.
pub open spec fn indent_lines(lines: Seq<Seq<char>>, prefix: Seq<char>, n: int) -> Seq<char>
    decreases n,
{
    if n <= 0 {
        Seq::empty()
    } else {
        indent_lines(lines, prefix, n - 1) + (if n - 1 > 0 { seq!['\n'] } else { Seq::empty() })
            + (if lines[n - 1].len() > 0 { prefix } else { Seq::empty() }) + lines[n - 1]
    }
}

/// `s` with `prefix` before each non-empty line; a final newline is kept.
pub open spec fn indent_text(s: Seq<char>, prefix: Seq<char>) -> Seq<char> {
    let ls = lines_of(s);
    indent_lines(ls, prefix, ls.len() as int) + (if s.len() > 0 && s.last() == '\n' {
        seq!['\n']
    } else {
        Seq::empty()
    })
}

/// Whether a non-empty line of `s` starts at `k`.
pub open spec fn nonempty_line_at(s: Seq<char>, k: int) -> bool {
    0 <= k < s.len() && (k == 0 || s[k - 1] == '\n') && s[k] != '\n'
}

/// Whether `s` holds no newline.
pub open spec fn no_newline(s: Seq<char>) -> bool {
    forall|i: int| 0 <= i < s.len() ==> s[i] != '\n'
}

proof fn lemma_lines_from_no_newline(s: Seq<char>, i: int)
    requires
        0 <= i,
    ensures
        forall|k: int| 0 <= k < lines_from(s, i).len() ==> no_newline(#[trigger] lines_from(s, i)[k]),
    decreases s.len() - i,
{
    if i < s.len() {
        lemma_next_newline(s, i);
        match next_newline(s, i) {
            Some(j) => {
                lemma_lines_from_no_newline(s, j + 1);
                let first = strip_cr(s.subrange(i, j));
                assert(no_newline(first));
                assert forall|k: int| 0 <= k < lines_from(s, i).len() implies no_newline(
                    #[trigger] lines_from(s, i)[k],
                ) by {
                    if k > 0 {
                        assert(lines_from(s, i)[k] == lines_from(s, j + 1)[k - 1]);
                    }
                }
            },
            None => {
                assert(no_newline(s.subrange(i, s.len() as int)));
            },
        }
    }
}

proof fn lemma_indent_lines_prefix(ls: Seq<Seq<char>>, p: Seq<char>, n: int)
    requires
        0 <= n <= ls.len(),
        no_newline(p),
        forall|k: int| 0 <= k < ls.len() ==> no_newline(#[trigger] ls[k]),
    ensures
        forall|k: int|
            #[trigger] nonempty_line_at(indent_lines(ls, p, n), k) ==> k + p.len() <= indent_lines(
                ls,
                p,
                n,
            ).len() && indent_lines(ls, p, n).subrange(k, k + p.len()) == p,
    decreases n,
{
    if n > 0 {
        lemma_indent_lines_prefix(ls, p, n - 1);
        let a = indent_lines(ls, p, n - 1);
        let sep = if n - 1 > 0 { seq!['\n'] } else { Seq::<char>::empty() };
        let l = ls[n - 1];
        let pp = if l.len() > 0 { p } else { Seq::<char>::empty() };
        let out = indent_lines(ls, p, n);
        assert(out == a + sep + pp + l);
        assert(no_newline(l));
        assert forall|k: int| #[trigger] nonempty_line_at(out, k) implies k + p.len() <= out.len()
            && out.subrange(k, k + p.len()) == p by {
            let start = a.len() + sep.len();
            if k < a.len() {
                assert(out[k] == a[k]);
                if k > 0 {
                    assert(out[k - 1] == a[k - 1]);
                }
                assert(nonempty_line_at(a, k));
                assert(a.subrange(k, k + p.len()) == p);
                assert(out.subrange(k, k + p.len()) =~= a.subrange(k, k + p.len()));
            } else if k < start {
                assert(out[k] == '\n');
            } else if k == start {
                if l.len() > 0 {
                    assert(out.subrange(k, k + p.len()) =~= p);
                } else {
                    assert(k == out.len());
                }
            } else {
                let c = out[k - 1];
                if k - 1 < start + pp.len() {
                    assert(c == pp[k - 1 - start]);
                } else {
                    assert(c == l[k - 1 - start - pp.len()]);
                }
            }
        }
    }
}

/// Every non-empty line of an indented text starts with the prefix (a
/// prefix without newlines).
pub proof fn lemma_indent_text_prefixes_lines(s: Seq<char>, p: Seq<char>)
    requires
        no_newline(p),
    ensures
        forall|k: int|
            #[trigger] nonempty_line_at(indent_text(s, p), k) ==> k + p.len() <= indent_text(
                s,
                p,
            ).len() && indent_text(s, p).subrange(k, k + p.len()) == p,
{
    let ls = lines_of(s);
    lemma_lines_from_no_newline(s, 0);
    lemma_indent_lines_prefix(ls, p, ls.len() as int);
    let body = indent_lines(ls, p, ls.len() as int);
    let out = indent_text(s, p);
    assert forall|k: int| #[trigger] nonempty_line_at(out, k) implies k + p.len() <= out.len()
        && out.subrange(k, k + p.len()) == p by {
        if k < body.len() {
            assert(out[k] == body[k]);
            if k > 0 {
                assert(out[k - 1] == body[k - 1]);
            }
            assert(nonempty_line_at(body, k));
            assert(body.subrange(k, k + p.len()) == p);
            assert(out.subrange(k, k + p.len()) =~= body.subrange(k, k + p.len()));
        } else {
            assert(out[k] == '\n');
        }
    }
}

/// Append `s` to `v`, with `prefix` before each non-empty line of `s`.
pub fn append_indented(v: &mut Vec<char>, s: &str, prefix: &str)
    ensures
        final(v)@ == old(v)@ + indent_text(s@, prefix@),
{
    let ghost start = v@;
    let lines = split_lines(s);
    let ghost ls = lines_of(s@);
    let mut i: usize = 0;
    while i < lines.len()
        invariant
            i <= lines@.len(),
            lines@.len() == ls.len(),
            ls == lines_of(s@),
            forall|k: int| 0 <= k < lines@.len() ==> #[trigger] lines@[k]@ == ls[k],
            v@ == start + indent_lines(ls, prefix@, i as int),
        decreases lines@.len() - i,
    {
        if i > 0 {
            v.push('\n');
        }
        if !lines[i].as_str().is_empty() {
            append_chars(v, prefix);
        }
        append_chars(v, lines[i].as_str());
        assert(v@ =~= start + indent_lines(ls, prefix@, i + 1));
        i = i + 1;
    }
    let c = chars_of(s);
    if c.len() > 0 && c[c.len() - 1] == '\n' {
        v.push('\n');
    }
    assert(v@ =~= start + indent_text(s@, prefix@));
}

} // verus!
