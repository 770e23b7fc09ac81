//! Character-level text handling: line splitting, trimming and the
//! output normalisation used when judging a run.
use vstd::prelude::*;

verus! {

/// Whether `c` carries the Unicode `White_Space` property, which the Unicode
/// Character Database (PropList.txt) gives to exactly these code points:
/// U+0009..U+000D, U+0020, U+0085, U+00A0, U+1680, U+2000..U+200A, U+2028,
/// U+2029, U+202F, U+205F and U+3000.
pub open spec fn is_unicode_whitespace(c: char) -> bool {
    let u = c as u32;
    ||| 0x09 <= u <= 0x0D
    ||| u == 0x20
    ||| u == 0x85
    ||| u == 0xA0
    ||| u == 0x1680
    ||| 0x2000 <= u <= 0x200A
    ||| u == 0x2028
    ||| u == 0x2029
    ||| u == 0x202F
    ||| u == 0x205F
    ||| u == 0x3000
}

/// Calls `char::is_whitespace`. Its documentation defines the result as the
/// Unicode `White_Space` property (`is_unicode_whitespace`).
#[verifier::external_body]
fn char_is_whitespace(c: char) -> (b: bool)
    ensures
        b == is_unicode_whitespace(c),
{
    c.is_whitespace()
}

/// Calls `String::push`, which appends one character.
#[verifier::external_body]
pub(crate) fn push_char(s: &mut String, c: char)
    ensures
        final(s)@ == old(s)@.push(c),
{
    s.push(c)
}

/// Calls `String::pop`, which removes the last character, if any.
#[verifier::external_body]
pub(crate) fn pop_char(s: &mut String)
    ensures
        final(s)@ == (if old(s)@.len() > 0 {
            old(s)@.drop_last()
        } else {
            old(s)@
        }),
{
    s.pop();
}

/// The decimal digit for `d` below ten.
pub open spec fn digit_char(d: nat) -> char {
    if d == 0 {
        '0'
    } else if d == 1 {
        '1'
    } else if d == 2 {
        '2'
    } else if d == 3 {
        '3'
    } else if d == 4 {
        '4'
    } else if d == 5 {
        '5'
    } else if d == 6 {
        '6'
    } else if d == 7 {
        '7'
    } else if d == 8 {
        '8'
    } else {
        '9'
    }
}

/// `n` written in decimal, without leading zeros.
pub open spec fn decimal_of(n: nat) -> Seq<char>
    decreases n,
{
    if n < 10 {
        seq![digit_char(n)]
    } else {
        decimal_of(n / 10).push(digit_char(n % 10))
    }
}

fn digit(d: u128) -> (c: char)
    requires
        d < 10,
    ensures
        c == digit_char(d as nat),
{
    if d == 0 {
        '0'
    } else if d == 1 {
        '1'
    } else if d == 2 {
        '2'
    } else if d == 3 {
        '3'
    } else if d == 4 {
        '4'
    } else if d == 5 {
        '5'
    } else if d == 6 {
        '6'
    } else if d == 7 {
        '7'
    } else if d == 8 {
        '8'
    } else {
        '9'
    }
}

fn push_decimal(n: u128, out: &mut String)
    ensures
        final(out)@ == old(out)@ + decimal_of(n as nat),
    decreases n,
{
    if n >= 10 {
        push_decimal(n / 10, out);
    }
    let ghost mid = out@;
    push_char(out, digit(n % 10));
    proof {
        if n >= 10 {
            assert(old(out)@ + decimal_of(n as nat) =~= (old(out)@ + decimal_of((n / 10) as nat)).push(
                digit_char((n % 10) as nat),
            ));
        } else {
            assert(old(out)@ + decimal_of(n as nat) =~= old(out)@.push(digit_char(n as nat)));
        }
    }
}

/// `n` written in decimal.
pub fn decimal(n: u128) -> (s: String)
    ensures
        s@ == decimal_of(n as nat),
{
    let mut s = String::new();
    push_decimal(n, &mut s);
    assert(Seq::<char>::empty() + decimal_of(n as nat) =~= decimal_of(n as nat));
    s
}

/// The text with every `\r\n` replaced by `\n`, then every remaining `\r`
/// replaced by `\n`.
pub open spec fn unify_newlines(s: Seq<char>) -> Seq<char>
    decreases s.len(),
{
    if s.len() == 0 {
        seq![]
    } else if s.len() >= 2 && s.last() == '\n' && s[s.len() - 2] == '\r' {
        unify_newlines(s.take(s.len() - 2)).push('\n')
    } else if s.last() == '\r' {
        unify_newlines(s.drop_last()).push('\n')
    } else {
        unify_newlines(s.drop_last()).push(s.last())
    }
}

/// The pieces of `s` between its `\n` characters: always at least one piece,
/// and one more than the number of `\n` in `s`.
pub open spec fn split_nl(s: Seq<char>) -> Seq<Seq<char>>
    decreases s.len(),
{
    if s.len() == 0 {
        seq![seq![]]
    } else {
        let init = split_nl(s.drop_last());
        if s.last() == '\n' {
            init.push(seq![])
        } else {
            init.update(init.len() - 1, init.last().push(s.last()))
        }
    }
}

/// A piece without one trailing `\r`, if it has one.
pub open spec fn strip_cr(l: Seq<char>) -> Seq<char> {
    if l.len() > 0 && l.last() == '\r' {
        l.drop_last()
    } else {
        l
    }
}

/// The lines of `s` as `str::lines` yields them: split at `\n` or `\r\n`, the
/// terminators left out, a final line ending optional, and a bare `\r` that is
/// not followed by `\n` kept in its line.
pub open spec fn str_lines(s: Seq<char>) -> Seq<Seq<char>> {
    let ps = split_nl(s);
    let body = ps.drop_last().map_values(|l: Seq<char>| strip_cr(l));
    if ps.last().len() == 0 {
        body
    } else {
        body.push(ps.last())
    }
}

/// `l` without its trailing whitespace.
pub open spec fn trim_end_ws(l: Seq<char>) -> Seq<char>
    decreases l.len(),
{
    if l.len() > 0 && is_unicode_whitespace(l.last()) {
        trim_end_ws(l.drop_last())
    } else {
        l
    }
}

/// `l` without its leading whitespace.
pub open spec fn trim_start_ws(l: Seq<char>) -> Seq<char>
    decreases l.len(),
{
    if l.len() > 0 && is_unicode_whitespace(l[0]) {
        trim_start_ws(l.drop_first())
    } else {
        l
    }
}

/// `l` without leading and trailing whitespace.
pub open spec fn trim_ws(l: Seq<char>) -> Seq<char> {
    trim_start_ws(trim_end_ws(l))
}

/// The lines without the empty lines at their end.
pub open spec fn drop_trailing_empty(ls: Seq<Seq<char>>) -> Seq<Seq<char>>
    decreases ls.len(),
{
    if ls.len() > 0 && ls.last().len() == 0 {
        drop_trailing_empty(ls.drop_last())
    } else {
        ls
    }
}

/// The lines joined with `sep` between each two of them.
pub open spec fn join_with(ls: Seq<Seq<char>>, sep: char) -> Seq<char>
    decreases ls.len(),
{
    if ls.len() == 0 {
        seq![]
    } else if ls.len() == 1 {
        ls[0]
    } else {
        join_with(ls.drop_last(), sep).push(sep) + ls.last()
    }
}

/// Each line with its trailing whitespace removed.
pub open spec fn trim_each(ls: Seq<Seq<char>>) -> Seq<Seq<char>> {
    ls.map_values(|l: Seq<char>| trim_end_ws(l))
}

/// The comparable form of a program's output: line endings unified, trailing
/// whitespace removed from every line, trailing empty lines dropped, and the
/// lines joined with `\n`.
pub open spec fn normalized(s: Seq<char>) -> Seq<char> {
    join_with(drop_trailing_empty(trim_each(str_lines(unify_newlines(s)))), '\n')
}

/// The views of a vector of character vectors.
pub open spec fn vecs_view(v: Seq<Vec<char>>) -> Seq<Seq<char>> {
    v.map_values(|l: Vec<char>| l@)
}

/// The views of a vector of strings.
pub open spec fn strings_view(v: Seq<String>) -> Seq<Seq<char>> {
    v.map_values(|l: String| l@)
}

/// The characters of `s`.
pub fn chars_of(s: &str) -> (v: Vec<char>)
    ensures
        v@ == s@,
{
    broadcast use vstd::string::group_string_axioms;

    let mut v: Vec<char> = Vec::new();
    for c in it: s.chars()
        invariant
            it.seq() == s@,
            v@ == s@.take(it.index()),
    {
        assert(s@.take(it.index() + 1) =~= s@.take(it.index()).push(c));
        v.push(c);
    }
    assert(v@ =~= s@);
    v
}

/// A string holding the characters of `v`.
pub fn string_of(v: &Vec<char>) -> (s: String)
    ensures
        s@ == v@,
{
    let mut s = String::new();
    let mut i: usize = 0;
    while i < v.len()
        invariant
            i <= v.len(),
            s@ == v@.take(i as int),
        decreases v.len() - i,
    {
        assert(v@.take(i + 1) =~= v@.take(i as int).push(v@[i as int]));
        push_char(&mut s, v[i]);
        i += 1;
    }
    assert(v@.take(v.len() as int) =~= v@);
    s
}

/// `s` with line endings unified to `\n`.
pub fn unify_line_endings(s: &Vec<char>) -> (u: Vec<char>)
    ensures
        u@ == unify_newlines(s@),
{
    let mut out: Vec<char> = Vec::new();
    let mut pending_cr = false;
    let mut i: usize = 0;
    while i < s.len()
        invariant
            i <= s.len(),
            pending_cr ==> i > 0 && s@[i - 1] == '\r',
            !pending_cr ==> (i == 0 || s@[i - 1] != '\r'),
            unify_newlines(s@.take(i as int)) == (if pending_cr {
                out@.push('\n')
            } else {
                out@
            }),
        decreases s.len() - i,
    {
        let c = s[i];
        let ghost t = s@.take(i as int);
        let ghost t1 = s@.take(i + 1);
        assert(t1.drop_last() =~= t);
        assert(t1.last() == c);
        if pending_cr {
            if c == '\n' {
                assert(t1.take(t1.len() - 2) =~= t.drop_last());
                assert(unify_newlines(t) == unify_newlines(t.drop_last()).push('\n'));
                out.push('\n');
                pending_cr = false;
            } else if c == '\r' {
                out.push('\n');
            } else {
                out.push('\n');
                out.push(c);
                pending_cr = false;
            }
        } else {
            if c == '\r' {
                pending_cr = true;
            } else {
                out.push(c);
            }
        }
        i += 1;
    }
    assert(s@.take(s.len() as int) =~= s@);
    if pending_cr {
        out.push('\n');
    }
    out
}

/// The pieces of `s` between its `\n` characters.
fn split_newlines(s: &Vec<char>) -> (ps: Vec<Vec<char>>)
    ensures
        vecs_view(ps@) == split_nl(s@),
{
    let mut done: Vec<Vec<char>> = Vec::new();
    let mut cur: Vec<char> = Vec::new();
    let mut i: usize = 0;
    while i < s.len()
        invariant
            i <= s.len(),
            vecs_view(done@).push(cur@) == split_nl(s@.take(i as int)),
        decreases s.len() - i,
    {
        let c = s[i];
        let ghost t1 = s@.take(i + 1);
        assert(t1.drop_last() =~= s@.take(i as int));
        let ghost prev = split_nl(s@.take(i as int));
        if c == '\n' {
            let ghost old_done = done@;
            let finished = cur;
            done.push(finished);
            cur = Vec::new();
            assert(vecs_view(done@) =~= vecs_view(old_done).push(finished@));
            assert(vecs_view(done@).push(cur@) =~= prev.push(seq![]));
        } else {
            cur.push(c);
            assert(vecs_view(done@).push(cur@) =~= prev.update(prev.len() - 1, prev.last().push(c)));
        }
        i += 1;
    }
    assert(s@.take(s.len() as int) =~= s@);
    let ghost old_done = done@;
    done.push(cur);
    assert(vecs_view(done@) =~= vecs_view(old_done).push(cur@));
    done
}

/// `l` without one trailing `\r`.
fn strip_cr_chars(l: Vec<char>) -> (r: Vec<char>)
    ensures
        r@ == strip_cr(l@),
{
    let mut l = l;
    if l.len() > 0 && l[l.len() - 1] == '\r' {
        l.pop();
    }
    l
}

/// The lines of `s`, as `str::lines` splits them.
pub fn split_lines(s: &Vec<char>) -> (ls: Vec<Vec<char>>)
    ensures
        vecs_view(ls@) == str_lines(s@),
{
    let mut ps = split_newlines(s);
    let ghost pv = vecs_view(ps@);
    assert(pv.len() >= 1) by {
        lemma_split_nl_nonempty(s@);
    }
    let last = ps.pop().unwrap();
    assert(vecs_view(ps@) =~= pv.drop_last());
    let mut out: Vec<Vec<char>> = Vec::new();
    let n = ps.len();
    let mut rest = ps;
    let mut k: usize = 0;
    // Move the pieces out in order, reversing twice.
    let mut rev: Vec<Vec<char>> = Vec::new();
    while rest.len() > 0
        invariant
            rest.len() + rev.len() == n,
            n == pv.len() - 1,
            forall|j: int| 0 <= j < rest.len() ==> #[trigger] rest@[j]@ == pv[j],
            forall|j: int| 0 <= j < rev.len() ==> #[trigger] rev@[j]@ == pv[n - 1 - j],
        decreases rest.len(),
    {
        let x = rest.pop().unwrap();
        rev.push(x);
    }
    while k < n
        invariant
            k <= n,
            rev.len() == n - k,
            n == pv.len() - 1,
            forall|j: int| 0 <= j < rev.len() ==> #[trigger] rev@[j]@ == pv[n - 1 - j],
            vecs_view(out@) == pv.take(k as int).map_values(|l: Seq<char>| strip_cr(l)),
        decreases n - k,
    {
        let x = rev.pop().unwrap();
        assert(x@ == pv[k as int]);
        let y = strip_cr_chars(x);
        let ghost old_out = out@;
        out.push(y);
        assert(vecs_view(out@) =~= vecs_view(old_out).push(y@));
        assert(pv.take(k + 1).map_values(|l: Seq<char>| strip_cr(l)) =~= pv.take(
            k as int,
        ).map_values(|l: Seq<char>| strip_cr(l)).push(strip_cr(pv[k as int])));
        k += 1;
    }
    assert(pv.take(n as int) =~= pv.drop_last());
    if last.len() > 0 {
        let ghost old_out = out@;
        out.push(last);
        assert(vecs_view(out@) =~= vecs_view(old_out).push(pv.last()));
    }
    out
}

/// Every split yields at least one piece.
pub proof fn lemma_split_nl_nonempty(s: Seq<char>)
    ensures
        split_nl(s).len() >= 1,
    decreases s.len(),
{
    if s.len() > 0 {
        lemma_split_nl_nonempty(s.drop_last());
    }
}

/// `l` without its trailing whitespace.
pub fn trim_end_chars(l: &Vec<char>) -> (r: Vec<char>)
    ensures
        r@ == trim_end_ws(l@),
{
    let mut k: usize = l.len();
    assert(l@.take(k as int) =~= l@);
    while k > 0 && char_is_whitespace(l[k - 1])
        invariant
            k <= l.len(),
            trim_end_ws(l@) == trim_end_ws(l@.take(k as int)),
        decreases k,
    {
        assert(l@.take(k - 1) =~= l@.take(k as int).drop_last());
        k -= 1;
    }
    let mut r: Vec<char> = Vec::new();
    let mut i: usize = 0;
    while i < k
        invariant
            i <= k <= l.len(),
            r@ == l@.take(i as int),
        decreases k - i,
    {
        assert(l@.take(i + 1) =~= l@.take(i as int).push(l@[i as int]));
        r.push(l[i]);
        i += 1;
    }
    r
}

/// `l` without its leading whitespace.
pub fn trim_start_chars(l: &Vec<char>) -> (r: Vec<char>)
    ensures
        r@ == trim_start_ws(l@),
{
    let mut k: usize = 0;
    assert(l@.skip(0) =~= l@);
    while k < l.len() && char_is_whitespace(l[k])
        invariant
            k <= l.len(),
            trim_start_ws(l@) == trim_start_ws(l@.skip(k as int)),
        decreases l.len() - k,
    {
        assert(l@.skip(k + 1) =~= l@.skip(k as int).drop_first());
        k += 1;
    }
    let mut r: Vec<char> = Vec::new();
    let mut i: usize = k;
    while i < l.len()
        invariant
            k <= i <= l.len(),
            r@ == l@.subrange(k as int, i as int),
        decreases l.len() - i,
    {
        assert(l@.subrange(k as int, i + 1) =~= l@.subrange(k as int, i as int).push(l@[i as int]));
        r.push(l[i]);
        i += 1;
    }
    assert(l@.subrange(k as int, l.len() as int) =~= l@.skip(k as int));
    r
}

/// The lines joined with `sep`.
pub fn join_chars(ls: &Vec<Vec<char>>, sep: char) -> (r: Vec<char>)
    ensures
        r@ == join_with(vecs_view(ls@), sep),
{
    let mut r: Vec<char> = Vec::new();
    let mut i: usize = 0;
    while i < ls.len()
        invariant
            i <= ls.len(),
            r@ == join_with(vecs_view(ls@).take(i as int), sep),
        decreases ls.len() - i,
    {
        let ghost t = vecs_view(ls@).take(i as int);
        let ghost t1 = vecs_view(ls@).take(i + 1);
        assert(t1.drop_last() =~= t);
        if i > 0 {
            r.push(sep);
        }
        let line = &ls[i];
        let ghost before = r@;
        let mut j: usize = 0;
        while j < line.len()
            invariant
                j <= line.len(),
                r@ == before + line@.take(j as int),
            decreases line.len() - j,
        {
            assert(line@.take(j + 1) =~= line@.take(j as int).push(line@[j as int]));
            r.push(line[j]);
            j += 1;
        }
        assert(line@.take(line.len() as int) =~= line@);
        if i == 0 {
            assert(before =~= seq![]);
            assert(r@ =~= t1[0]);
        }
        i += 1;
    }
    assert(vecs_view(ls@).take(ls.len() as int) =~= vecs_view(ls@));
    r
}

/// The strings joined with `\n` between each two of them.
pub fn join_lines(ls: &Vec<String>) -> (r: String)
    ensures
        r@ == join_with(strings_view(ls@), '\n'),
{
    let mut r = String::new();
    let mut i: usize = 0;
    while i < ls.len()
        invariant
            i <= ls.len(),
            r@ == join_with(strings_view(ls@).take(i as int), '\n'),
        decreases ls.len() - i,
    {
        let ghost t = strings_view(ls@).take(i as int);
        let ghost t1 = strings_view(ls@).take(i + 1);
        assert(t1.drop_last() =~= t);
        assert(t1.last() == ls@[i as int]@);
        if i > 0 {
            r.append("\n");
            proof {
                reveal_strlit("\n");
            }
        }
        r.append(ls[i].as_str());
        if i == 0 {
            assert(r@ =~= t1[0]);
        } else {
            assert(r@ =~= join_with(t, '\n').push('\n') + t1.last());
        }
        i += 1;
    }
    assert(strings_view(ls@).take(ls.len() as int) =~= strings_view(ls@));
    r
}

/// The lines of `s`, as `str::lines` splits them.
pub fn lines(s: &str) -> (ls: Vec<String>)
    ensures
        strings_view(ls@) == str_lines(s@),
{
    let cs = chars_of(s);
    let vs = split_lines(&cs);
    let mut out: Vec<String> = Vec::new();
    let mut i: usize = 0;
    while i < vs.len()
        invariant
            i <= vs.len(),
            strings_view(out@) == vecs_view(vs@).take(i as int),
        decreases vs.len() - i,
    {
        let line = string_of(&vs[i]);
        let ghost old_out = out@;
        out.push(line);
        assert(strings_view(out@) =~= strings_view(old_out).push(line@));
        assert(vecs_view(vs@).take(i + 1) =~= vecs_view(vs@).take(i as int).push(vs@[i as int]@));
        i += 1;
    }
    assert(vecs_view(vs@).take(vs.len() as int) =~= vecs_view(vs@));
    out
}

/// `s` without leading and trailing whitespace.
pub fn trim(s: &str) -> (r: String)
    ensures
        r@ == trim_ws(s@),
{
    let cs = chars_of(s);
    let e = trim_end_chars(&cs);
    let b = trim_start_chars(&e);
    string_of(&b)
}

/// `s` holds no `c`.
pub open spec fn lacks(s: Seq<char>, c: char) -> bool {
    forall|i: int| 0 <= i < s.len() ==> s[i] != c
}

/// Every line of `ls` holds no `c`.
pub open spec fn all_lack(ls: Seq<Seq<char>>, c: char) -> bool {
    forall|j: int| 0 <= j < ls.len() ==> #[trigger] lacks(ls[j], c)
}

proof fn lemma_unify_lacks_cr(s: Seq<char>)
    ensures
        lacks(unify_newlines(s), '\r'),
    decreases s.len(),
{
    if s.len() > 0 {
        if s.len() >= 2 && s.last() == '\n' && s[s.len() - 2] == '\r' {
            lemma_unify_lacks_cr(s.take(s.len() - 2));
        } else {
            lemma_unify_lacks_cr(s.drop_last());
        }
    }
}

proof fn lemma_unify_without_cr(s: Seq<char>)
    requires
        lacks(s, '\r'),
    ensures
        unify_newlines(s) == s,
    decreases s.len(),
{
    if s.len() > 0 {
        assert(s[s.len() - 2] != '\r' || s.len() < 2);
        assert(lacks(s.drop_last(), '\r'));
        lemma_unify_without_cr(s.drop_last());
        assert(s.drop_last().push(s.last()) =~= s);
    }
}

proof fn lemma_split_pieces_lack(u: Seq<char>, c: char)
    requires
        lacks(u, c) || c == '\n',
    ensures
        all_lack(split_nl(u), c),
    decreases u.len(),
{
    if u.len() > 0 {
        assert(lacks(u.drop_last(), c) || c == '\n');
        lemma_split_pieces_lack(u.drop_last(), c);
        lemma_split_nl_nonempty(u.drop_last());
        let init = split_nl(u.drop_last());
        let ps = split_nl(u);
        if u.last() == '\n' {
            assert forall|j: int| 0 <= j < ps.len() implies #[trigger] lacks(ps[j], c) by {
                if j < init.len() {
                    assert(lacks(init[j], c));
                }
            }
        } else {
            assert forall|j: int| 0 <= j < ps.len() implies #[trigger] lacks(ps[j], c) by {
                assert(lacks(init[j], c));
                if j == init.len() - 1 {
                    assert(ps[j] == init.last().push(u.last()));
                }
            }
        }
    }
}

proof fn lemma_split_append(x: Seq<char>, l: Seq<char>)
    requires
        lacks(l, '\n'),
    ensures
        split_nl(x + l) == split_nl(x).update(split_nl(x).len() - 1, split_nl(x).last() + l),
    decreases l.len(),
{
    lemma_split_nl_nonempty(x);
    if l.len() == 0 {
        assert(x + l =~= x);
        assert(split_nl(x).last() + l =~= split_nl(x).last());
        assert(split_nl(x).update(split_nl(x).len() - 1, split_nl(x).last()) =~= split_nl(x));
    } else {
        let l0 = l.drop_last();
        assert(lacks(l0, '\n'));
        lemma_split_append(x, l0);
        assert((x + l).drop_last() =~= x + l0);
        assert((x + l).last() == l.last());
        assert(split_nl(x).last() + l =~= (split_nl(x).last() + l0).push(l.last()));
        assert(split_nl(x + l) =~= split_nl(x).update(split_nl(x).len() - 1, split_nl(x).last() + l));
    }
}

pub proof fn lemma_split_join(ks: Seq<Seq<char>>)
    requires
        ks.len() > 0,
        all_lack(ks, '\n'),
    ensures
        split_nl(join_with(ks, '\n')) == ks,
    decreases ks.len(),
{
    if ks.len() == 1 {
        assert(lacks(ks[0], '\n'));
        lemma_split_append(seq![], ks[0]);
        assert(seq![] + ks[0] =~= ks[0]);
        assert(split_nl(Seq::<char>::empty()) =~= seq![seq![]]);
        assert(seq![seq![]].update(0, Seq::<char>::empty() + ks[0]) =~= ks);
    } else {
        let d = ks.drop_last();
        assert forall|j: int| 0 <= j < d.len() implies #[trigger] lacks(d[j], '\n') by {
            assert(lacks(ks[j], '\n'));
        }
        lemma_split_join(d);
        let jd = join_with(d, '\n');
        assert(lacks(ks.last(), '\n')) by {
            assert(lacks(ks[ks.len() - 1], '\n'));
        }
        lemma_split_append(jd.push('\n'), ks.last());
        assert(jd.push('\n').drop_last() =~= jd);
        assert(split_nl(jd.push('\n')) == d.push(seq![]));
        assert(Seq::<char>::empty() + ks.last() =~= ks.last());
        assert(d.push(seq![]).update(d.len() as int, ks.last()) =~= ks);
    }
}

proof fn lemma_join_lacks(ks: Seq<Seq<char>>, c: char)
    requires
        all_lack(ks, c),
        c != '\n',
    ensures
        lacks(join_with(ks, '\n'), c),
    decreases ks.len(),
{
    if ks.len() == 1 {
        assert(lacks(ks[0], c));
    } else if ks.len() > 1 {
        let d = ks.drop_last();
        assert forall|j: int| 0 <= j < d.len() implies #[trigger] lacks(d[j], c) by {
            assert(lacks(ks[j], c));
        }
        lemma_join_lacks(d, c);
        assert(lacks(ks[ks.len() - 1], c));
        let r = join_with(ks, '\n');
        let a = join_with(d, '\n').push('\n');
        assert(r == a + ks.last());
        assert forall|i: int| 0 <= i < r.len() implies r[i] != c by {
            if i < a.len() - 1 {
                assert(r[i] == join_with(d, '\n')[i]);
            } else if i >= a.len() {
                assert(r[i] == ks.last()[i - a.len()]);
            }
        }
    }
}

proof fn lemma_trim_end_prefix(l: Seq<char>)
    ensures
        trim_end_ws(l).len() <= l.len(),
        trim_end_ws(l) == l.take(trim_end_ws(l).len() as int),
        trim_end_ws(l).len() > 0 ==> !is_unicode_whitespace(trim_end_ws(l).last()),
    decreases l.len(),
{
    if l.len() > 0 && is_unicode_whitespace(l.last()) {
        lemma_trim_end_prefix(l.drop_last());
        assert(l.drop_last().take(trim_end_ws(l).len() as int) =~= l.take(
            trim_end_ws(l).len() as int,
        ));
    } else {
        assert(l.take(l.len() as int) =~= l);
    }
}

proof fn lemma_trim_end_idem(l: Seq<char>)
    ensures
        trim_end_ws(trim_end_ws(l)) == trim_end_ws(l),
{
    lemma_trim_end_prefix(l);
}

proof fn lemma_prefix_lacks(l: Seq<char>, n: int, c: char)
    requires
        lacks(l, c),
        0 <= n <= l.len(),
    ensures
        lacks(l.take(n), c),
{
    assert forall|i: int| 0 <= i < n implies l.take(n)[i] != c by {
        assert(l.take(n)[i] == l[i]);
    }
}

proof fn lemma_drop_trailing_prefix(ls: Seq<Seq<char>>)
    ensures
        drop_trailing_empty(ls).len() <= ls.len(),
        drop_trailing_empty(ls) == ls.take(drop_trailing_empty(ls).len() as int),
        drop_trailing_empty(ls).len() > 0 ==> drop_trailing_empty(ls).last().len() > 0,
    decreases ls.len(),
{
    if ls.len() > 0 && ls.last().len() == 0 {
        lemma_drop_trailing_prefix(ls.drop_last());
        assert(ls.drop_last().take(drop_trailing_empty(ls).len() as int) =~= ls.take(
            drop_trailing_empty(ls).len() as int,
        ));
    } else {
        assert(ls.take(ls.len() as int) =~= ls);
    }
}

/// The lines that `normalized` joins, and what holds of each of them.
proof fn lemma_normalized_lines(s: Seq<char>)
    ensures
        ({
            let ks = drop_trailing_empty(trim_each(str_lines(unify_newlines(s))));
            &&& all_lack(ks, '\n')
            &&& all_lack(ks, '\r')
            &&& forall|j: int| 0 <= j < ks.len() ==> trim_end_ws(#[trigger] ks[j]) == ks[j]
            &&& (ks.len() > 0 ==> ks.last().len() > 0)
        }),
{
    let u = unify_newlines(s);
    let ps = split_nl(u);
    lemma_unify_lacks_cr(u);
    lemma_unify_lacks_cr(s);
    lemma_split_pieces_lack(u, '\n');
    lemma_split_pieces_lack(u, '\r');
    lemma_split_nl_nonempty(u);
    let ls = str_lines(u);
    assert forall|j: int| 0 <= j < ls.len() implies #[trigger] ls[j] == ps[j] by {
        assert(lacks(ps[j], '\r'));
        if j < ps.len() - 1 {
            assert(ls[j] == strip_cr(ps[j]));
        }
    }
    assert forall|j: int| 0 <= j < ls.len() implies #[trigger] lacks(ls[j], '\n') by {
        assert(ls[j] == ps[j]);
        assert(lacks(ps[j], '\n'));
    }
    assert forall|j: int| 0 <= j < ls.len() implies #[trigger] lacks(ls[j], '\r') by {
        assert(ls[j] == ps[j]);
        assert(lacks(ps[j], '\r'));
    }
    let ts = trim_each(ls);
    assert forall|j: int| 0 <= j < ts.len() implies #[trigger] lacks(ts[j], '\n') by {
        assert(lacks(ls[j], '\n'));
        lemma_trim_end_prefix(ls[j]);
        lemma_prefix_lacks(ls[j], trim_end_ws(ls[j]).len() as int, '\n');
    }
    assert forall|j: int| 0 <= j < ts.len() implies #[trigger] lacks(ts[j], '\r') by {
        assert(lacks(ls[j], '\r'));
        lemma_trim_end_prefix(ls[j]);
        lemma_prefix_lacks(ls[j], trim_end_ws(ls[j]).len() as int, '\r');
    }
    assert forall|j: int| 0 <= j < ts.len() implies trim_end_ws(#[trigger] ts[j]) == ts[j] by {
        lemma_trim_end_idem(ls[j]);
    }
    let ks = drop_trailing_empty(ts);
    lemma_drop_trailing_prefix(ts);
    assert forall|j: int| 0 <= j < ks.len() implies #[trigger] lacks(ks[j], '\n') by {
        assert(ks[j] == ts[j]);
        assert(lacks(ts[j], '\n'));
    }
    assert forall|j: int| 0 <= j < ks.len() implies #[trigger] lacks(ks[j], '\r') by {
        assert(ks[j] == ts[j]);
        assert(lacks(ts[j], '\r'));
    }
    assert forall|j: int| 0 <= j < ks.len() implies trim_end_ws(#[trigger] ks[j]) == ks[j] by {
        assert(ks[j] == ts[j]);
        assert(trim_end_ws(ts[j]) == ts[j]);
    }
}

/// Normalising is idempotent: the normal form of a normal form is itself.
pub proof fn lemma_normalize_idempotent(s: Seq<char>)
    ensures
        normalized(normalized(s)) == normalized(s),
{
    let ks = drop_trailing_empty(trim_each(str_lines(unify_newlines(s))));
    let r = normalized(s);
    lemma_normalized_lines(s);
    if ks.len() == 0 {
        assert(r =~= seq![]);
        assert(split_nl(r) =~= seq![seq![]]);
        assert(str_lines(r) =~= seq![]);
        assert(unify_newlines(r) =~= r);
        assert(trim_each(seq![]) =~= seq![]);
    } else {
        lemma_join_lacks(ks, '\r');
        lemma_unify_without_cr(r);
        lemma_split_join(ks);
        assert(split_nl(r) == ks);
        assert(ks.drop_last().map_values(|l: Seq<char>| strip_cr(l)) =~= ks.drop_last()) by {
            assert forall|j: int| 0 <= j < ks.len() - 1 implies strip_cr(ks[j]) == ks[j] by {
                assert(lacks(ks[j], '\r'));
            }
        }
        assert(ks.drop_last().push(ks.last()) =~= ks);
        assert(str_lines(r) == ks);
        assert(trim_each(ks) =~= ks);
        assert(drop_trailing_empty(ks) == ks);
    }
}

/// Appending whitespace, or a line break, to a program's output leaves its
/// normal form unchanged.
pub proof fn lemma_normalize_ignores_trailing_whitespace(s: Seq<char>, c: char)
    requires
        is_unicode_whitespace(c) || c == '\n' || c == '\r',
    ensures
        normalized(s.push(c)) == normalized(s),
{
    let s1 = s.push(c);
    assert(s1.drop_last() =~= s);
    let u = unify_newlines(s);
    lemma_unify_lacks_cr(s);
    lemma_split_nl_nonempty(u);
    let ps = split_nl(u);
    lemma_split_pieces_lack(u, '\r');
    assert(lacks(ps.last(), '\r')) by {
        assert(lacks(ps[ps.len() - 1], '\r'));
    }
    assert(strip_cr(ps.last()) == ps.last());
    let body = ps.drop_last().map_values(|l: Seq<char>| strip_cr(l));
    if c == '\n' && s.len() > 0 && s.last() == '\r' {
        assert(s1.take(s1.len() - 2) =~= s.drop_last());
        assert(unify_newlines(s1) == unify_newlines(s));
    } else if c == '\n' || c == '\r' {
        assert(unify_newlines(s1) == u.push('\n'));
        let u1 = u.push('\n');
        assert(u1.drop_last() =~= u);
        assert(split_nl(u1) == ps.push(seq![]));
        assert(ps.push(seq![]).drop_last() =~= ps);
        assert(ps.map_values(|l: Seq<char>| strip_cr(l)) =~= body.push(ps.last()));
        assert(str_lines(u1) == body.push(ps.last()));
        if ps.last().len() > 0 {
            assert(str_lines(u1) == str_lines(u));
        } else {
            assert(str_lines(u) == body);
            assert(ps.last() =~= Seq::<char>::empty());
            assert(trim_end_ws(ps.last()) =~= Seq::<char>::empty());
            assert(trim_each(body.push(ps.last())) =~= trim_each(body).push(seq![]));
            assert(trim_each(body).push(seq![]).drop_last() =~= trim_each(body));
        }
    } else {
        assert(unify_newlines(s1) == u.push(c));
        let u1 = u.push(c);
        assert(u1.drop_last() =~= u);
        let last1 = ps.last().push(c);
        assert(split_nl(u1) == ps.update(ps.len() - 1, last1));
        assert(ps.update(ps.len() - 1, last1).drop_last() =~= ps.drop_last());
        assert(str_lines(u1) == body.push(last1));
        assert(last1.drop_last() =~= ps.last());
        assert(trim_end_ws(last1) == trim_end_ws(ps.last()));
        assert(trim_each(body.push(last1)) =~= trim_each(body).push(trim_end_ws(ps.last())));
        if ps.last().len() > 0 {
            assert(trim_each(body.push(ps.last())) =~= trim_each(body).push(
                trim_end_ws(ps.last()),
            ));
        } else {
            assert(str_lines(u) == body);
            assert(trim_end_ws(ps.last()) == Seq::<char>::empty());
            assert(trim_each(body).push(seq![]).drop_last() =~= trim_each(body));
        }
    }
}

/// Appending any run of whitespace to a program's output leaves its normal
/// form unchanged.
pub proof fn lemma_normalize_ignores_trailing_whitespace_run(s: Seq<char>, t: Seq<char>)
    requires
        forall|i: int| 0 <= i < t.len() ==> is_unicode_whitespace(#[trigger] t[i]),
    ensures
        normalized(s + t) == normalized(s),
    decreases t.len(),
{
    if t.len() == 0 {
        assert(s + t =~= s);
    } else {
        let t0 = t.drop_last();
        assert forall|i: int| 0 <= i < t0.len() implies is_unicode_whitespace(#[trigger] t0[i]) by {
            assert(t0[i] == t[i]);
        }
        lemma_normalize_ignores_trailing_whitespace_run(s, t0);
        assert(is_unicode_whitespace(t[t.len() - 1]));
        lemma_normalize_ignores_trailing_whitespace(s + t0, t.last());
        assert((s + t0).push(t.last()) =~= s + t);
    }
}

/// `s` with every `\n` written as `\r\n`.
pub open spec fn crlf(s: Seq<char>) -> Seq<char>
    decreases s.len(),
{
    if s.len() == 0 {
        seq![]
    } else if s.last() == '\n' {
        crlf(s.drop_last()) + seq!['\r', '\n']
    } else {
        crlf(s.drop_last()).push(s.last())
    }
}

proof fn lemma_unify_crlf(s: Seq<char>)
    requires
        lacks(s, '\r'),
    ensures
        unify_newlines(crlf(s)) == s,
    decreases s.len(),
{
    if s.len() > 0 {
        let d = s.drop_last();
        assert(lacks(d, '\r'));
        lemma_unify_crlf(d);
        let x = crlf(s);
        if s.last() == '\n' {
            assert(x.take(x.len() - 2) =~= crlf(d));
            assert(x.last() == '\n' && x[x.len() - 2] == '\r');
            assert(d.push('\n') =~= s);
        } else {
            assert(s.last() != '\r');
            assert(x.drop_last() =~= crlf(d));
            assert(d.push(s.last()) =~= s);
        }
    }
}

/// Writing the line breaks of an output without carriage returns as `\r\n`
/// leaves its normal form unchanged.
pub proof fn lemma_normalize_crlf(s: Seq<char>)
    requires
        lacks(s, '\r'),
    ensures
        normalized(crlf(s)) == normalized(s),
{
    lemma_unify_crlf(s);
    lemma_unify_without_cr(s);
}

/// The shape of a normal form: no carriage return, no line with trailing
/// whitespace, and no line break at its end.
pub proof fn lemma_normal_form_shape(s: Seq<char>)
    ensures
        ({
            let r = normalized(s);
            &&& lacks(r, '\r')
            &&& forall|j: int|
                0 <= j < split_nl(r).len() ==> trim_end_ws(#[trigger] split_nl(r)[j])
                    == split_nl(r)[j]
            &&& (r.len() == 0 || r.last() != '\n')
        }),
{
    let ks = drop_trailing_empty(trim_each(str_lines(unify_newlines(s))));
    let r = normalized(s);
    lemma_normalized_lines(s);
    if ks.len() == 0 {
        assert(r =~= seq![]);
        assert(split_nl(r) =~= seq![seq![]]);
        assert(trim_end_ws(Seq::<char>::empty()) == Seq::<char>::empty());
    } else {
        lemma_join_lacks(ks, '\r');
        lemma_split_join(ks);
        let l = ks.last();
        assert(lacks(ks[ks.len() - 1], '\n'));
        assert(l.len() > 0);
        if ks.len() == 1 {
            assert(r == l);
        } else {
            let a = join_with(ks.drop_last(), '\n').push('\n');
            assert(r == a + l);
            assert(r.last() == l.last());
        }
        assert(l[l.len() - 1] != '\n');
    }
}

/// The normal form of an empty output is empty.
pub proof fn lemma_normalized_empty()
    ensures
        normalized(seq![]) == Seq::<char>::empty(),
{
    let e = Seq::<char>::empty();
    assert(unify_newlines(e) =~= e);
    assert(split_nl(e) =~= seq![e]);
    assert(str_lines(e) =~= Seq::<Seq<char>>::empty());
    assert(trim_each(Seq::<Seq<char>>::empty()) =~= Seq::<Seq<char>>::empty());
}

} // verus!
