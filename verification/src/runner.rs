//! Judging a run of a case, and the pure parts of compiling a program.
use vstd::prelude::*;
use crate::paths::{file_name_of, path_file_name};
use crate::store::{RunRecord, Verdict};
use crate::text::{
    chars_of, drop_trailing_empty, is_unicode_whitespace, join_chars, lemma_normalize_ignores_trailing_whitespace,
    normalized, split_lines, string_of, trim, trim_each, trim_end_chars, trim_end_ws, trim_ws,
    unify_line_endings, vecs_view,
};

verus! {

/// The wall-clock limit of one run, in seconds.
pub const TLE_SECS: u64 = 5;

/// Where Homebrew installs g++ 12.
pub const HOMEBREW_GXX12: &'static str = "/opt/homebrew/bin/g++-12";

/// The compilers tried in turn where none is set: Homebrew's g++ 12 first,
/// then more generic names.
pub open spec fn compiler_candidates() -> Seq<Seq<char>> {
    seq![
        "/opt/homebrew/bin/g++-12"@,
        "g++-12"@,
        "/usr/local/bin/g++-12"@,
        "g++"@,
        "c++"@,
        "clang++"@,
        "gcc"@,
    ]
}

/// The `i`-th compiler to try, if there are that many.
pub fn compiler_candidate(i: usize) -> (c: Option<&'static str>)
    ensures
        match c {
            Some(s) => i < compiler_candidates().len() && s@ == compiler_candidates()[i as int],
            None => i >= compiler_candidates().len(),
        },
{
    if i == 0 {
        Some("/opt/homebrew/bin/g++-12")
    } else if i == 1 {
        Some("g++-12")
    } else if i == 2 {
        Some("/usr/local/bin/g++-12")
    } else if i == 3 {
        Some("g++")
    } else if i == 4 {
        Some("c++")
    } else if i == 5 {
        Some("clang++")
    } else if i == 6 {
        Some("gcc")
    } else {
        None
    }
}

/// A compiled program.
#[derive(Debug)]
pub struct CompileOutcome {
    pub binary: String,
    pub duration_ns: u64,
}

/// The comparable form of a program's output (see `normalized`).
pub fn normalize(s: &str) -> (r: String)
    ensures
        r@ == normalized(s@),
{
    let cs = chars_of(s);
    let u = unify_line_endings(&cs);
    let ls = split_lines(&u);
    let ghost lv = vecs_view(ls@);
    let mut trimmed: Vec<Vec<char>> = Vec::new();
    let mut i: usize = 0;
    while i < ls.len()
        invariant
            i <= ls.len(),
            lv == vecs_view(ls@),
            vecs_view(trimmed@) == trim_each(lv.take(i as int)),
        decreases ls.len() - i,
    {
        let t = trim_end_chars(&ls[i]);
        let ghost old_t = trimmed@;
        trimmed.push(t);
        assert(vecs_view(trimmed@) =~= vecs_view(old_t).push(t@));
        assert(trim_each(lv.take(i + 1)) =~= trim_each(lv.take(i as int)).push(
            trim_end_ws(lv[i as int]),
        ));
        i += 1;
    }
    assert(lv.take(ls.len() as int) =~= lv);
    while trimmed.len() > 0 && trimmed[trimmed.len() - 1].len() == 0
        invariant
            drop_trailing_empty(vecs_view(trimmed@)) == drop_trailing_empty(trim_each(lv)),
        decreases trimmed.len(),
    {
        let ghost old_t = trimmed@;
        trimmed.pop();
        assert(vecs_view(trimmed@) =~= vecs_view(old_t).drop_last());
    }
    assert(drop_trailing_empty(vecs_view(trimmed@)) == vecs_view(trimmed@));
    let joined = join_chars(&trimmed, '\n');
    string_of(&joined)
}



/// The verdict of a run that ended by itself: a failing exit is a runtime
/// error; otherwise, with no expected output the case only ran, and with one
/// it passes exactly when both outputs have the same normal form.
pub open spec fn exit_verdict(success: bool, stdout: Seq<char>, expected: Option<Seq<char>>) -> Verdict {
    if !success {
        Verdict::Runtime
    } else {
        match expected {
            None => Verdict::Ran,
            Some(e) => if normalized(stdout) == normalized(e) {
                Verdict::Pass
            } else {
                Verdict::Fail
            },
        }
    }
}

/// The expected output as text, if any.
pub open spec fn opt_view(e: Option<&str>) -> Option<Seq<char>> {
    match e {
        Some(s) => Some(s@),
        None => None,
    }
}

/// The record of a run that ended by itself within the time limit.
pub fn judge_exit(
    success: bool,
    exit_code: Option<i32>,
    duration_ns: u64,
    stdout: String,
    stderr: String,
    expected: Option<&str>,
) -> (r: RunRecord)
    ensures
        r.verdict == exit_verdict(success, stdout@, opt_view(expected)),
        r.duration_ns == duration_ns,
        r.stdout == stdout,
        r.stderr == stderr,
        r.exit_code == exit_code,
{
    if !success {
        return RunRecord { verdict: Verdict::Runtime, duration_ns, stdout, stderr, exit_code };
    }
    let verdict = match expected {
        None => Verdict::Ran,
        Some(exp) => {
            let a = normalize(stdout.as_str());
            let b = normalize(exp);
            if a == b {
                Verdict::Pass
            } else {
                Verdict::Fail
            }
        },
    };
    RunRecord { verdict, duration_ns, stdout, stderr, exit_code }
}

/// Whitespace or a line break at the end of a program's output never changes
/// its verdict.
pub proof fn lemma_verdict_ignores_trailing_whitespace(
    success: bool,
    stdout: Seq<char>,
    expected: Option<Seq<char>>,
    c: char,
)
    requires
        is_unicode_whitespace(c) || c == '\n' || c == '\r',
    ensures
        exit_verdict(success, stdout.push(c), expected) == exit_verdict(success, stdout, expected),
{
    lemma_normalize_ignores_trailing_whitespace(stdout, c);
}

/// Whether a compiler with this file name is the C driver `gcc` (or a
/// versioned `gcc-N`), which needs to be told the source is C++.
pub open spec fn is_gcc_name(base: Seq<char>) -> bool {
    base == "gcc"@ || (base.len() >= 4 && base.take(4) == "gcc-"@)
}

/// Whether a compiler with this file name is the C driver `gcc`.
pub fn is_gcc(base: &str) -> (b: bool)
    ensures
        b == is_gcc_name(base@),
{
    let cs = chars_of(base);
    proof {
        reveal_strlit("gcc");
        reveal_strlit("gcc-");
    }
    let three = cs.len() == 3 && cs[0] == 'g' && cs[1] == 'c' && cs[2] == 'c';
    let prefixed = cs.len() >= 4 && cs[0] == 'g' && cs[1] == 'c' && cs[2] == 'c' && cs[3] == '-';
    proof {
        assert("gcc"@.len() == 3);
        assert("gcc"@[0] == 'g' && "gcc"@[1] == 'c' && "gcc"@[2] == 'c');
        assert("gcc-"@.len() == 4);
        assert("gcc-"@[0] == 'g' && "gcc-"@[1] == 'c' && "gcc-"@[2] == 'c' && "gcc-"@[3] == '-');
        if three {
            assert(cs@ =~= "gcc"@);
        }
        if prefixed {
            assert(cs@.take(4) =~= "gcc-"@);
        }
        if base@.len() >= 4 && base@.take(4) == "gcc-"@ {
            assert(cs@.take(4)[0] == 'g');
            assert(cs@.take(4)[1] == 'c');
            assert(cs@.take(4)[2] == 'c');
            assert(cs@.take(4)[3] == '-');
        }
    }
    three || prefixed
}

/// The name a compiler is known by: its file name, or the whole command
/// where it has none.
pub open spec fn compiler_base(compiler: Seq<char>) -> Seq<char> {
    match path_file_name(compiler) {
        Some(n) => n,
        None => compiler,
    }
}

/// The arguments a compile gets: C++17 at `-O2`, told the language and
/// linked against the C++ library when the compiler is `gcc`.
pub open spec fn compile_args_of(compiler: Seq<char>, src: Seq<char>, binary: Seq<char>) -> Seq<Seq<char>> {
    let gcc = is_gcc_name(compiler_base(compiler));
    let head = seq!["-std=c++17"@, "-O2"@, "-pipe"@];
    let lang = if gcc { seq!["-x"@, "c++"@] } else { Seq::empty() };
    let link = if gcc { seq!["-lstdc++"@, "-lm"@] } else { Seq::empty() };
    head + lang + seq![src, "-o"@, binary] + link
}

/// Appends `s` to `v`.
fn push_str(v: &mut Vec<String>, s: &str)
    ensures
        crate::text::strings_view(final(v)@) == crate::text::strings_view(old(v)@).push(s@),
{
    let ghost before = v@;
    v.push(String::from_str(s));
    assert(crate::text::strings_view(v@) =~= crate::text::strings_view(before).push(s@));
}

/// The arguments to give `compiler` to build `src` into `binary`.
pub fn compile_args(compiler: &str, src: &str, binary: &str) -> (args: Vec<String>)
    ensures
        crate::text::strings_view(args@) == compile_args_of(compiler@, src@, binary@),
{
    let base = match file_name_of(compiler) {
        Some(n) => n,
        None => String::from_str(compiler),
    };
    let gcc = is_gcc(base.as_str());
    let mut args: Vec<String> = Vec::new();
    push_str(&mut args, "-std=c++17");
    push_str(&mut args, "-O2");
    push_str(&mut args, "-pipe");
    if gcc {
        push_str(&mut args, "-x");
        push_str(&mut args, "c++");
    }
    push_str(&mut args, src);
    push_str(&mut args, "-o");
    push_str(&mut args, binary);
    if gcc {
        push_str(&mut args, "-lstdc++");
        push_str(&mut args, "-lm");
    }
    proof {
        let v = crate::text::strings_view(args@);
        assert(v =~= compile_args_of(compiler@, src@, binary@));
    }
    args
}

/// The message a failed compile reports: the compiler's error output, trimmed,
/// or its standard output where the error output is blank.
pub open spec fn compile_failure_of(stderr: Seq<char>, stdout: Seq<char>) -> Seq<char> {
    if trim_ws(stderr).len() == 0 {
        trim_ws(stdout)
    } else {
        trim_ws(stderr)
    }
}

/// The message a failed compile reports.
pub fn compile_failure_message(stderr: &str, stdout: &str) -> (m: String)
    ensures
        m@ == compile_failure_of(stderr@, stdout@),
{
    let t = trim(stderr);
    if t.as_str().is_empty() {
        trim(stdout)
    } else {
        t
    }
}

/// A run that ends normally and has an expected output passes exactly when
/// both outputs have the same normal form, and is a wrong answer otherwise.
pub proof fn lemma_verdict_pass_exactly_on_agreement(stdout: Seq<char>, expected: Seq<char>)
    ensures
        (exit_verdict(true, stdout, Some(expected)) == Verdict::Pass) <==> (normalized(stdout)
            == normalized(expected)),
        (exit_verdict(true, stdout, Some(expected)) == Verdict::Fail) <==> (normalized(stdout)
            != normalized(expected)),
{
}

/// Judging does not depend on which side is the program's output: swapping
/// the output and the expected output gives the same verdict.
pub proof fn lemma_verdict_symmetric(a: Seq<char>, b: Seq<char>)
    ensures
        exit_verdict(true, a, Some(b)) == exit_verdict(true, b, Some(a)),
{
}

/// A program that prints nothing gets a wrong answer wherever the expected
/// output has a non-empty normal form.
pub proof fn lemma_empty_output_fails(expected: Seq<char>)
    requires
        normalized(expected).len() > 0,
    ensures
        exit_verdict(true, seq![], Some(expected)) == Verdict::Fail,
{
    crate::text::lemma_normalized_empty();
}

} // verus!
