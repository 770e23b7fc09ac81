//! What the detail pane shows of a case, and the geometry of pop-ups.
use vstd::prelude::*;
use crate::runner::normalize;
use crate::store::{Case, Verdict};
use crate::text::{lines, normalized, str_lines, strings_view};

verus! {

/// At most this many lines of a text are listed.
pub const BODY_LINE_LIMIT: usize = 200;

/// At most this many lines are compared for a diff.
pub const DIFF_LINE_LIMIT: usize = 80;

/// How a text is listed: a mark for an empty text, else its first lines and
/// whether lines were left out.
#[derive(Debug)]
pub enum BodyView {
    Empty,
    Lines { lines: Vec<String>, truncated: bool },
}

/// The contents of a `BodyView`.
pub enum BodyV {
    Empty,
    Lines { lines: Seq<Seq<char>>, truncated: bool },
}

impl View for BodyView {
    type V = BodyV;

    open spec fn view(&self) -> BodyV {
        match self {
            BodyView::Empty => BodyV::Empty,
            BodyView::Lines { lines, truncated } => BodyV::Lines {
                lines: strings_view(lines@),
                truncated: *truncated,
            },
        }
    }
}

/// How `s` is listed.
pub open spec fn body_of(s: Seq<char>) -> BodyV {
    if s.len() == 0 {
        BodyV::Empty
    } else {
        let ls = str_lines(s);
        BodyV::Lines {
            lines: if ls.len() <= BODY_LINE_LIMIT {
                ls
            } else {
                ls.take(BODY_LINE_LIMIT as int)
            },
            truncated: ls.len() > BODY_LINE_LIMIT,
        }
    }
}

/// How a text is listed in the detail pane.
pub fn body_view(s: &str) -> (b: BodyView)
    ensures
        b@ == body_of(s@),
{
    if s.is_empty() {
        return BodyView::Empty;
    }
    let mut ls = lines(s);
    let truncated = ls.len() > BODY_LINE_LIMIT;
    if truncated {
        let ghost before = ls@;
        ls.truncate(BODY_LINE_LIMIT);
        assert(strings_view(ls@) =~= strings_view(before).take(BODY_LINE_LIMIT as int));
    }
    BodyView::Lines { lines: ls, truncated }
}

/// The line at `i`, or an empty line past the end.
pub open spec fn line_at(ls: Seq<Seq<char>>, i: int) -> Seq<char> {
    if 0 <= i < ls.len() {
        ls[i]
    } else {
        seq![]
    }
}

/// The pairs (expected, actual) of the first `n` line positions where the
/// two differ, in order.
pub open spec fn diff_upto(el: Seq<Seq<char>>, al: Seq<Seq<char>>, n: nat) -> Seq<
    (Seq<char>, Seq<char>),
>
    decreases n,
{
    if n == 0 {
        seq![]
    } else {
        let rest = diff_upto(el, al, (n - 1) as nat);
        let l = line_at(el, n - 1);
        let r = line_at(al, n - 1);
        if l == r {
            rest
        } else {
            rest.push((l, r))
        }
    }
}

/// The lines where a program's output differs from the expected output,
/// both taken in their normal form, among the first 80 line positions.
pub open spec fn diff_of(expected: Seq<char>, actual: Seq<char>) -> Seq<(Seq<char>, Seq<char>)> {
    let el = str_lines(normalized(expected));
    let al = str_lines(normalized(actual));
    let m = if el.len() >= al.len() {
        el.len()
    } else {
        al.len()
    };
    diff_upto(el, al, if m <= DIFF_LINE_LIMIT {
        m
    } else {
        DIFF_LINE_LIMIT as nat
    })
}

/// The views of a list of line pairs.
pub open spec fn pairs_view(ps: Seq<(String, String)>) -> Seq<(Seq<char>, Seq<char>)> {
    ps.map_values(|p: (String, String)| (p.0@, p.1@))
}

/// The lines where `actual` differs from `expected` (see `diff_of`).
pub fn diff_lines(expected: &str, actual: &str) -> (d: Vec<(String, String)>)
    ensures
        pairs_view(d@) == diff_of(expected@, actual@),
{
    let e = normalize(expected);
    let a = normalize(actual);
    let el = lines(e.as_str());
    let al = lines(a.as_str());
    let ghost elv = strings_view(el@);
    let ghost alv = strings_view(al@);
    let m = if el.len() >= al.len() {
        el.len()
    } else {
        al.len()
    };
    let n = if m <= DIFF_LINE_LIMIT {
        m
    } else {
        DIFF_LINE_LIMIT
    };
    let mut out: Vec<(String, String)> = Vec::new();
    let mut i: usize = 0;
    while i < n
        invariant
            i <= n,
            elv == strings_view(el@),
            alv == strings_view(al@),
            pairs_view(out@) == diff_upto(elv, alv, i as nat),
        decreases n - i,
    {
        let left = if i < el.len() {
            el[i].clone()
        } else {
            String::new()
        };
        let right = if i < al.len() {
            al[i].clone()
        } else {
            String::new()
        };
        assert(left@ == line_at(elv, i as int));
        assert(right@ == line_at(alv, i as int));
        if left != right {
            let ghost before = out@;
            out.push((left, right));
            assert(pairs_view(out@) =~= pairs_view(before).push((left@, right@)));
        }
        i += 1;
    }
    out
}

/// The title of a section of the detail pane.
#[derive(Debug, Clone, Copy, PartialEq, Eq, Structural)]
pub enum Section {
    Input,
    Expected,
    Output,
    Stderr,
    Diff,
}

/// One entry of the detail pane.
#[derive(Debug)]
pub enum DetailLine {
    /// No case is selected.
    Placeholder,
    /// The case's name and id.
    Title { name: String, id: u32 },
    /// The verdict of the last run and how long it took.
    Outcome { verdict: Verdict, duration_ns: u64 },
    /// The exit code of the last run.
    ExitCode(i32),
    /// The case has not run yet.
    NotRun,
    /// An empty separator line.
    Blank,
    /// A section title.
    Heading(Section),
    /// A listed text.
    Body(BodyView),
    /// The case has no expected output.
    NoExpected,
    /// The program was killed at the time limit.
    Killed,
    /// The differing lines, expected and actual.
    Diff(Vec<(String, String)>),
}

/// The contents of a `DetailLine`.
pub enum DetailV {
    Placeholder,
    Title { name: Seq<char>, id: u32 },
    Outcome { verdict: Verdict, duration_ns: u64 },
    ExitCode(i32),
    NotRun,
    Blank,
    Heading(Section),
    Body(BodyV),
    NoExpected,
    Killed,
    Diff(Seq<(Seq<char>, Seq<char>)>),
}

impl View for DetailLine {
    type V = DetailV;

    open spec fn view(&self) -> DetailV {
        match self {
            DetailLine::Placeholder => DetailV::Placeholder,
            DetailLine::Title { name, id } => DetailV::Title { name: name@, id: *id },
            DetailLine::Outcome { verdict, duration_ns } => DetailV::Outcome {
                verdict: *verdict,
                duration_ns: *duration_ns,
            },
            DetailLine::ExitCode(c) => DetailV::ExitCode(*c),
            DetailLine::NotRun => DetailV::NotRun,
            DetailLine::Blank => DetailV::Blank,
            DetailLine::Heading(s) => DetailV::Heading(*s),
            DetailLine::Body(b) => DetailV::Body(b@),
            DetailLine::NoExpected => DetailV::NoExpected,
            DetailLine::Killed => DetailV::Killed,
            DetailLine::Diff(d) => DetailV::Diff(pairs_view(d@)),
        }
    }
}

/// The views of the detail pane's entries.
pub open spec fn details_view(ds: Seq<DetailLine>) -> Seq<DetailV> {
    ds.map_values(|d: DetailLine| d@)
}

/// What the detail pane shows of the last run of a case.
pub open spec fn run_details(c: Case) -> Seq<DetailV> {
    match c.last {
        None => seq![],
        Some(r) => {
            let out = seq![DetailV::Blank, DetailV::Heading(Section::Output)] + if r.verdict
                == Verdict::Tle {
                seq![DetailV::Killed]
            } else {
                seq![DetailV::Body(body_of(r.stdout@))]
            };
            let err = if r.stderr@.len() > 0 {
                seq![DetailV::Blank, DetailV::Heading(Section::Stderr), DetailV::Body(body_of(r.stderr@))]
            } else {
                seq![]
            };
            let diff = match c.expected {
                Some(e) => if r.verdict == Verdict::Fail {
                    seq![DetailV::Blank, DetailV::Heading(Section::Diff), DetailV::Diff(diff_of(e@, r.stdout@))]
                } else {
                    seq![]
                },
                None => seq![],
            };
            out + err + diff
        },
    }
}

/// What the detail pane shows of a case.
pub open spec fn details_of(c: Case) -> Seq<DetailV> {
    let title = seq![DetailV::Title { name: c.name@, id: c.id }];
    let outcome = match c.last {
        Some(r) => seq![DetailV::Outcome { verdict: r.verdict, duration_ns: r.duration_ns }] + match r.exit_code {
            Some(code) => seq![DetailV::ExitCode(code)],
            None => seq![],
        },
        None => seq![DetailV::NotRun],
    };
    let input = seq![DetailV::Blank, DetailV::Heading(Section::Input), DetailV::Body(body_of(c.input@))];
    let expected = seq![DetailV::Blank, DetailV::Heading(Section::Expected)] + match c.expected {
        Some(e) => seq![DetailV::Body(body_of(e@))],
        None => seq![DetailV::NoExpected],
    };
    title + outcome + input + expected + run_details(c)
}

/// Appends `d` to `ds`.
fn push_detail(ds: &mut Vec<DetailLine>, d: DetailLine)
    ensures
        details_view(final(ds)@) == details_view(old(ds)@).push(d@),
{
    let ghost before = ds@;
    ds.push(d);
    assert(details_view(ds@) =~= details_view(before).push(d@));
}

/// Appends what the detail pane shows of the last run of `c`.
fn push_run_details(ds: &mut Vec<DetailLine>, c: &Case)
    ensures
        details_view(final(ds)@) == details_view(old(ds)@) + run_details(*c),
{
    let ghost start = details_view(ds@);
    match &c.last {
        Some(r) => {
            push_detail(ds, DetailLine::Blank);
            push_detail(ds, DetailLine::Heading(Section::Output));
            if r.verdict == Verdict::Tle {
                push_detail(ds, DetailLine::Killed);
            } else {
                push_detail(ds, DetailLine::Body(body_view(r.stdout.as_str())));
            }
            let ghost after_out = details_view(ds@);
            if !r.stderr.as_str().is_empty() {
                push_detail(ds, DetailLine::Blank);
                push_detail(ds, DetailLine::Heading(Section::Stderr));
                push_detail(ds, DetailLine::Body(body_view(r.stderr.as_str())));
            }
            let ghost after_err = details_view(ds@);
            if r.verdict == Verdict::Fail {
                match &c.expected {
                    Some(e) => {
                        push_detail(ds, DetailLine::Blank);
                        push_detail(ds, DetailLine::Heading(Section::Diff));
                        push_detail(ds, DetailLine::Diff(diff_lines(e.as_str(), r.stdout.as_str())));
                    },
                    None => {},
                }
            }
            proof {
                let out = seq![DetailV::Blank, DetailV::Heading(Section::Output)] + if r.verdict
                    == Verdict::Tle {
                    seq![DetailV::Killed]
                } else {
                    seq![DetailV::Body(body_of(r.stdout@))]
                };
                assert(after_out =~= start + out);
                let err = if r.stderr@.len() > 0 {
                    seq![DetailV::Blank, DetailV::Heading(Section::Stderr), DetailV::Body(body_of(r.stderr@))]
                } else {
                    seq![]
                };
                assert(after_err =~= start + out + err);
                assert(details_view(ds@) =~= start + run_details(*c));
            }
        },
        None => {
            assert(details_view(ds@) =~= start + run_details(*c));
        },
    }
}

/// Appends the title and the outcome of the last run of `c`.
fn push_head_details(ds: &mut Vec<DetailLine>, c: &Case)
    ensures
        details_view(final(ds)@) == details_view(old(ds)@) + seq![DetailV::Title { name: c.name@, id: c.id }] + match c.last {
            Some(r) => seq![DetailV::Outcome { verdict: r.verdict, duration_ns: r.duration_ns }] + match r.exit_code {
                Some(code) => seq![DetailV::ExitCode(code)],
                None => seq![],
            },
            None => seq![DetailV::NotRun],
        },
{
    let ghost start = details_view(ds@);
    push_detail(ds, DetailLine::Title { name: c.name.clone(), id: c.id });
    match &c.last {
        Some(r) => {
            push_detail(ds, DetailLine::Outcome { verdict: r.verdict, duration_ns: r.duration_ns });
            match r.exit_code {
                Some(code) => push_detail(ds, DetailLine::ExitCode(code)),
                None => {},
            }
        },
        None => push_detail(ds, DetailLine::NotRun),
    }
    proof {
        let want = start + seq![DetailV::Title { name: c.name@, id: c.id }] + match &c.last {
            Some(r) => seq![DetailV::Outcome { verdict: r.verdict, duration_ns: r.duration_ns }] + match r.exit_code {
                Some(code) => seq![DetailV::ExitCode(code)],
                None => seq![],
            },
            None => seq![DetailV::NotRun],
        };
        assert(details_view(ds@) =~= want);
    }
}

/// Appends the input and expected-output sections of `c`.
fn push_text_details(ds: &mut Vec<DetailLine>, c: &Case)
    ensures
        details_view(final(ds)@) == details_view(old(ds)@) + seq![DetailV::Blank, DetailV::Heading(Section::Input), DetailV::Body(body_of(c.input@))] + seq![DetailV::Blank, DetailV::Heading(Section::Expected)] + match c.expected {
            Some(e) => seq![DetailV::Body(body_of(e@))],
            None => seq![DetailV::NoExpected],
        },
{
    let ghost start = details_view(ds@);
    push_detail(ds, DetailLine::Blank);
    push_detail(ds, DetailLine::Heading(Section::Input));
    push_detail(ds, DetailLine::Body(body_view(c.input.as_str())));
    push_detail(ds, DetailLine::Blank);
    push_detail(ds, DetailLine::Heading(Section::Expected));
    match &c.expected {
        Some(e) => push_detail(ds, DetailLine::Body(body_view(e.as_str()))),
        None => push_detail(ds, DetailLine::NoExpected),
    }
    proof {
        let want = start + seq![DetailV::Blank, DetailV::Heading(Section::Input), DetailV::Body(body_of(c.input@))] + seq![DetailV::Blank, DetailV::Heading(Section::Expected)] + match &c.expected {
            Some(e) => seq![DetailV::Body(body_of(e@))],
            None => seq![DetailV::NoExpected],
        };
        assert(details_view(ds@) =~= want);
    }
}

/// What the detail pane shows of the selected case, if any.
pub fn detail_lines(selected: Option<&Case>) -> (ds: Vec<DetailLine>)
    ensures
        details_view(ds@) == match selected {
            Some(c) => details_of(*c),
            None => seq![DetailV::Placeholder],
        },
{
    let mut ds: Vec<DetailLine> = Vec::new();
    match selected {
        Some(c) => {
            push_head_details(&mut ds, c);
            push_text_details(&mut ds, c);
            push_run_details(&mut ds, c);
            assert(details_view(ds@) =~= details_of(*c));
        },
        None => {
            push_detail(&mut ds, DetailLine::Placeholder);
            assert(details_view(ds@) =~= seq![DetailV::Placeholder]);
        },
    }
    ds
}

/// No entry of `d` is the time-limit notice.
pub open spec fn no_kill_notice(d: Seq<DetailV>) -> bool {
    forall|i: int| 0 <= i < d.len() ==> d[i] != DetailV::Killed
}

proof fn lemma_no_kill_notice_concat(a: Seq<DetailV>, b: Seq<DetailV>)
    requires
        no_kill_notice(a),
        no_kill_notice(b),
    ensures
        no_kill_notice(a + b),
{
    assert forall|i: int| 0 <= i < (a + b).len() implies (a + b)[i] != DetailV::Killed by {
        if i < a.len() {
            assert((a + b)[i] == a[i]);
        } else {
            assert((a + b)[i] == b[i - a.len()]);
        }
    }
}

/// The entries of the detail pane before its run section.
pub open spec fn head_details(c: Case) -> Seq<DetailV> {
    let title = seq![DetailV::Title { name: c.name@, id: c.id }];
    let outcome = match c.last {
        Some(r) => seq![DetailV::Outcome { verdict: r.verdict, duration_ns: r.duration_ns }] + match r.exit_code {
            Some(code) => seq![DetailV::ExitCode(code)],
            None => seq![],
        },
        None => seq![DetailV::NotRun],
    };
    let input = seq![DetailV::Blank, DetailV::Heading(Section::Input), DetailV::Body(body_of(c.input@))];
    let expected = seq![DetailV::Blank, DetailV::Heading(Section::Expected)] + match c.expected {
        Some(e) => seq![DetailV::Body(body_of(e@))],
        None => seq![DetailV::NoExpected],
    };
    title + outcome + input + expected
}

proof fn lemma_head_has_no_kill_notice(c: Case)
    ensures
        no_kill_notice(head_details(c)),
        details_of(c) == head_details(c) + run_details(c),
{
    let title = seq![DetailV::Title { name: c.name@, id: c.id }];
    let outcome = match c.last {
        Some(r) => seq![DetailV::Outcome { verdict: r.verdict, duration_ns: r.duration_ns }] + match r.exit_code {
            Some(code) => seq![DetailV::ExitCode(code)],
            None => seq![],
        },
        None => seq![DetailV::NotRun],
    };
    let input = seq![DetailV::Blank, DetailV::Heading(Section::Input), DetailV::Body(body_of(c.input@))];
    let expected = seq![DetailV::Blank, DetailV::Heading(Section::Expected)] + match c.expected {
        Some(e) => seq![DetailV::Body(body_of(e@))],
        None => seq![DetailV::NoExpected],
    };
    assert(no_kill_notice(title));
    assert(no_kill_notice(outcome));
    assert(no_kill_notice(input));
    assert(no_kill_notice(expected));
    lemma_no_kill_notice_concat(title, outcome);
    lemma_no_kill_notice_concat(title + outcome, input);
    lemma_no_kill_notice_concat(title + outcome + input, expected);
}

/// The time-limit notice appears in the detail pane only for a case whose
/// last run hit the time limit.
pub proof fn lemma_kill_notice_only_for_tle(c: Case)
    ensures
        forall|i: int|
            0 <= i < details_of(c).len() && details_of(c)[i] == DetailV::Killed ==> (c.last matches Some(
                r,
            ) && r.verdict == Verdict::Tle),
{
    lemma_head_has_no_kill_notice(c);
    if !(c.last matches Some(r) && r.verdict == Verdict::Tle) {
        let run = run_details(c);
        match c.last {
            None => {
                assert(run =~= Seq::<DetailV>::empty());
                assert(no_kill_notice(run));
            },
            Some(r) => {
                let out = seq![DetailV::Blank, DetailV::Heading(Section::Output)] + seq![
                    DetailV::Body(body_of(r.stdout@)),
                ];
                let err = if r.stderr@.len() > 0 {
                    seq![DetailV::Blank, DetailV::Heading(Section::Stderr), DetailV::Body(body_of(r.stderr@))]
                } else {
                    seq![]
                };
                let diff = match c.expected {
                    Some(e) => if r.verdict == Verdict::Fail {
                        seq![DetailV::Blank, DetailV::Heading(Section::Diff), DetailV::Diff(diff_of(e@, r.stdout@))]
                    } else {
                        seq![]
                    },
                    None => seq![],
                };
                assert(run == out + err + diff);
                assert(no_kill_notice(out));
                assert(no_kill_notice(err));
                assert(no_kill_notice(diff));
                lemma_no_kill_notice_concat(out, err);
                lemma_no_kill_notice_concat(out + err, diff);
            },
        }
        lemma_no_kill_notice_concat(head_details(c), run);
    }
}

/// For a case that has run, the entry after the output heading is the
/// program's output, or the time-limit notice for a run that hit the limit.
pub proof fn lemma_output_follows_heading(c: Case)
    requires
        c.last is Some,
    ensures
        ({
            let d = details_of(c);
            let r = c.last.unwrap();
            exists|k: int|
                0 <= k && k + 1 < d.len() && #[trigger] d[k] == DetailV::Heading(Section::Output) && d[k + 1]
                    == (if r.verdict == Verdict::Tle {
                    DetailV::Killed
                } else {
                    DetailV::Body(body_of(r.stdout@))
                })
        }),
{
    lemma_head_has_no_kill_notice(c);
    let h = head_details(c);
    let d = details_of(c);
    let k = h.len() as int + 1;
    assert(d[k] == run_details(c)[1]);
    assert(d[k + 1] == run_details(c)[2]);
}

/// A rectangle of terminal cells.
#[derive(Debug, Clone, Copy, PartialEq, Eq, Structural)]
pub struct Area {
    pub x: u16,
    pub y: u16,
    pub width: u16,
    pub height: u16,
}

/// `a - b`, or 0 where `b` is larger.
pub open spec fn sat_sub(a: int, b: int) -> int {
    if a >= b {
        a - b
    } else {
        0
    }
}

/// The smaller of two numbers.
pub open spec fn min_int(a: int, b: int) -> int {
    if a <= b {
        a
    } else {
        b
    }
}

/// A pop-up `pct_x` percent as wide as `area` (keeping two cells free on each
/// side) and `height` cells high (keeping one free above and below), centred.
pub open spec fn centered_in(area: Area, pct_x: u16, height: u16) -> Area {
    let h = min_int(height as int, sat_sub(area.height as int, 2));
    let w = min_int(
        min_int(area.width as int * pct_x as int, u16::MAX as int) / 100,
        sat_sub(area.width as int, 4),
    );
    Area {
        x: (area.x + sat_sub(area.width as int, w) / 2) as u16,
        y: (area.y + sat_sub(area.height as int, h) / 2) as u16,
        width: w as u16,
        height: h as u16,
    }
}

/// A pop-up centred in `area` (see `centered_in`).
pub fn centered(area: Area, pct_x: u16, height: u16) -> (r: Area)
    requires
        area.x + area.width <= u16::MAX,
        area.y + area.height <= u16::MAX,
    ensures
        r == centered_in(area, pct_x, height),
{
    let h = if height <= area.height.saturating_sub(2) {
        height
    } else {
        area.height.saturating_sub(2)
    };
    assert((area.width as u32) * (pct_x as u32) <= 0xffff * 0xffff) by (nonlinear_arith);
    let prod: u32 = (area.width as u32) * (pct_x as u32);
    let capped: u16 = if prod > 65535 {
        65535
    } else {
        prod as u16
    };
    let scaled = capped / 100;
    let w = if scaled <= area.width.saturating_sub(4) {
        scaled
    } else {
        area.width.saturating_sub(4)
    };
    let x = area.x + area.width.saturating_sub(w) / 2;
    let y = area.y + area.height.saturating_sub(h) / 2;
    Area { x, y, width: w, height: h }
}

/// A centred pop-up lies within the area it is centred in.
pub proof fn lemma_centered_within(area: Area, pct_x: u16, height: u16)
    requires
        area.x + area.width <= u16::MAX,
        area.y + area.height <= u16::MAX,
    ensures
        ({
            let r = centered_in(area, pct_x, height);
            &&& area.x <= r.x
            &&& r.x + r.width <= area.x + area.width
            &&& area.y <= r.y
            &&& r.y + r.height <= area.y + area.height
            &&& r.height <= height
        }),
{
}

/// `area` shrunk by one cell on each side.
pub open spec fn inset_of(area: Area) -> Area {
    Area {
        x: (area.x + 1) as u16,
        y: (area.y + 1) as u16,
        width: sat_sub(area.width as int, 2) as u16,
        height: sat_sub(area.height as int, 2) as u16,
    }
}

/// `area` shrunk by one cell on each side.
pub fn inset(area: Area) -> (r: Area)
    requires
        area.x < u16::MAX,
        area.y < u16::MAX,
    ensures
        r == inset_of(area),
{
    Area {
        x: area.x + 1,
        y: area.y + 1,
        width: area.width.saturating_sub(2),
        height: area.height.saturating_sub(2),
    }
}

/// The height of a pop-up showing `n_lines` lines: the count, taken as a
/// `u16`, plus a frame of four rows, at least 18 and at most 28 rows.
pub open spec fn modal_height_of(n_lines: usize) -> u16 {
    let t = n_lines as u16;
    if t + 4 < 18 {
        18
    } else if t + 4 > 28 {
        28
    } else {
        (t + 4) as u16
    }
}

/// The height of a pop-up showing `n_lines` lines.
pub fn modal_height(n_lines: usize) -> (h: u16)
    requires
        (n_lines as u16) + 4 <= u16::MAX,
    ensures
        h == modal_height_of(n_lines),
{
    let t = n_lines as u16 + 4;
    if t < 18 {
        18
    } else if t > 28 {
        28
    } else {
        t
    }
}

} // verus!
