//! The state of the terminal front end and how keys and background events
//! change it. What needs the terminal, the file system or a thread is asked
//! for as an `Effect`; its outcome comes back through `opened`, `save_done`,
//! `set_cpp_files`, `commit_edit` and `on_worker_event`.
use vstd::prelude::*;
use crate::store::{Bank, Case, RunRecord, Verdict, first_index_of, has_id, lemma_first_index_of, without_id};
use crate::text::{
    decimal, decimal_of, join_lines, join_with, lines, pop_char, push_char, str_lines, strings_view, trim,
    trim_ws,
};

verus! {

/// Which view is on screen.
#[derive(Debug, Clone, Copy, PartialEq, Eq, Structural)]
pub enum Screen {
    Picker,
    Main,
    Edit,
    ConfirmDelete,
    Help,
    Message,
}

/// Which field of the case editor takes keys.
#[derive(Debug, Clone, Copy, PartialEq, Eq, Structural)]
pub enum EditFocus {
    Name,
    Input,
    Expected,
}

/// What the background compile-and-run worker reports.
#[derive(Debug)]
pub enum WorkerEvent {
    CompileOk { duration_ns: u64, total: usize },
    CompileFail(String),
    CaseDone { id: u32, record: RunRecord, done: usize, total: usize },
    BatchDone,
}

/// The case editor's state, apart from the two text areas: whether it makes
/// a new case, the id of the case it changes, the name typed so far and the
/// focused field.
#[derive(Debug)]
pub struct EditDraft {
    pub is_new: bool,
    pub id: Option<u32>,
    pub name: String,
    pub focus: EditFocus,
}

/// A key, as far as the front end tells keys apart.
#[derive(Debug, Clone, Copy, PartialEq, Eq, Structural)]
pub enum KeyKind {
    Char(char),
    Esc,
    Enter,
    Tab,
    BackTab,
    Backspace,
    Delete,
    Up,
    Down,
    Other,
}

/// A key press, with whether Control was held.
#[derive(Debug, Clone, Copy, PartialEq, Eq, Structural)]
pub struct KeyPress {
    pub kind: KeyKind,
    pub ctrl: bool,
}

/// How many cases last ran with each verdict.
#[derive(Debug, Clone, Copy, PartialEq, Eq, Structural)]
pub struct Tally {
    pub ac: usize,
    pub wa: usize,
    pub tle: usize,
    pub re: usize,
    pub ok: usize,
}

/// The status line's content.
#[derive(Debug)]
pub enum Status {
    Welcome,
    Opened { cpp: String, n_cases: usize },
    Compiling,
    Compiled { duration_ns: u64, total: usize },
    Running { done: usize, total: usize },
    Done(Tally),
}

/// What follows once a requested save has been carried out.
#[derive(Debug, Clone, Copy, PartialEq, Eq, Structural)]
pub enum Resume {
    Nothing,
    Quit,
    ToPicker,
    ToMain,
    ShowTally,
}

/// The editor's text area that a key goes to.
#[derive(Debug, Clone, Copy, PartialEq, Eq, Structural)]
pub enum EditField {
    Input,
    Expected,
}

/// A batch to compile and run in the background: the program, the compiler,
/// and each case's id, stdin and expected output.
#[derive(Debug)]
pub struct RunJob {
    pub cpp: String,
    pub compiler: String,
    pub cases: Vec<(u32, String, Option<String>)>,
}

/// Work the front end asks its host to do.
#[derive(Debug)]
pub enum Effect {
    /// Nothing to do.
    Nothing,
    /// Write the bank to `bank_path`, then report with `save_done`.
    Save,
    /// Open the program at this path, then report with `opened` or `toast`.
    Open(String),
    /// List the programs of the working directory, then report with `set_cpp_files`.
    Rescan,
    /// Show the editor, its text areas holding these lines (`None`: empty,
    /// with a placeholder).
    Editor { input: Option<Vec<String>>, expected: Option<Vec<String>> },
    /// Hand the key to this text area of the editor.
    EditorKey(EditField),
    /// Read both text areas, then report with `commit_edit`.
    Commit,
    /// Compile and run in the background, reporting with `on_worker_event`.
    Run(RunJob),
}

/// The front end's state.
#[derive(Debug)]
pub struct App {
    pub screen: Screen,
    pub should_quit: bool,
    pub cpp_files: Vec<String>,
    pub picker_sel: Option<usize>,
    pub cpp: Option<String>,
    pub bank_path: Option<String>,
    pub bank: Bank,
    pub list_sel: Option<usize>,
    pub detail_scroll: u16,
    pub status: Status,
    pub message: String,
    pub busy: bool,
    pub compiler: String,
    pub edit: Option<EditDraft>,
    pub dirty: bool,
    pub resume: Resume,
}

/// The number of cases in `cases` whose last run has verdict `v`.
pub open spec fn count_verdict(cases: Seq<Case>, v: Verdict) -> nat
    decreases cases.len(),
{
    if cases.len() == 0 {
        0
    } else {
        count_verdict(cases.drop_last(), v) + (if cases.last().last matches Some(r) && r.verdict
            == v {
            1nat
        } else {
            0nat
        })
    }
}

/// The number of cases in `cases` that have run.
pub open spec fn count_run(cases: Seq<Case>) -> nat
    decreases cases.len(),
{
    if cases.len() == 0 {
        0
    } else {
        count_run(cases.drop_last()) + (if cases.last().last is Some {
            1nat
        } else {
            0nat
        })
    }
}

/// The tally of `cases`.
pub open spec fn tally_of(cases: Seq<Case>) -> Tally {
    Tally {
        ac: count_verdict(cases, Verdict::Pass) as usize,
        wa: count_verdict(cases, Verdict::Fail) as usize,
        tle: count_verdict(cases, Verdict::Tle) as usize,
        re: count_verdict(cases, Verdict::Runtime) as usize,
        ok: count_verdict(cases, Verdict::Ran) as usize,
    }
}

/// The view of an optional string.
pub open spec fn opt_string_view(s: Option<String>) -> Option<Seq<char>> {
    match s {
        Some(x) => Some(x@),
        None => None,
    }
}

/// The stdin and expected output of the cases to run for `ids`: each id
/// that names a case, in order, with the first case of that id.
pub open spec fn job_cases(cases: Seq<Case>, ids: Seq<u32>) -> Seq<(u32, Seq<char>, Option<Seq<char>>)>
    decreases ids.len(),
{
    if ids.len() == 0 {
        seq![]
    } else {
        let rest = job_cases(cases, ids.drop_last());
        match first_index_of(cases, ids.last()) {
            Some(i) => rest.push(
                (ids.last(), cases[i].input@, opt_string_view(cases[i].expected)),
            ),
            None => rest,
        }
    }
}

/// The view of a batch's cases.
pub open spec fn job_view(cs: Seq<(u32, String, Option<String>)>) -> Seq<(u32, Seq<char>, Option<Seq<char>>)> {
    cs.map_values(|c: (u32, String, Option<String>)| (c.0, c.1@, opt_string_view(c.2)))
}

/// The ids of `cases`, in order.
pub open spec fn ids_of(cases: Seq<Case>) -> Seq<u32> {
    cases.map_values(|c: Case| c.id)
}

/// Whether `key` is the character `c` (with or without modifiers).
pub open spec fn is_char(key: KeyPress, c: char) -> bool {
    key.kind == KeyKind::Char(c)
}

/// The focus after Tab.
pub open spec fn next_focus(f: EditFocus) -> EditFocus {
    match f {
        EditFocus::Name => EditFocus::Input,
        EditFocus::Input => EditFocus::Expected,
        EditFocus::Expected => EditFocus::Name,
    }
}

/// The focus after Shift-Tab.
pub open spec fn prev_focus(f: EditFocus) -> EditFocus {
    match f {
        EditFocus::Name => EditFocus::Expected,
        EditFocus::Input => EditFocus::Name,
        EditFocus::Expected => EditFocus::Input,
    }
}

/// The name a committed case gets: the typed name trimmed, or `untitled`.
pub open spec fn committed_name(typed: Seq<char>) -> Seq<char> {
    if trim_ws(typed).len() == 0 {
        "untitled"@
    } else {
        trim_ws(typed)
    }
}

/// The expected output a committed case gets: none when the text is blank.
pub open spec fn committed_expected(text: Seq<char>) -> Option<Seq<char>> {
    if trim_ws(text).len() == 0 {
        None
    } else {
        Some(text)
    }
}

/// The index as a `usize`, if any.
pub open spec fn opt_usize(i: Option<int>) -> Option<usize> {
    match i {
        Some(k) => Some(k as usize),
        None => None,
    }
}

impl App {
    /// The list selection, where it points at a case.
    pub open spec fn selected_index(self) -> Option<int> {
        match self.list_sel {
            Some(i) => if i < self.bank.cases@.len() {
                Some(i as int)
            } else {
                None
            },
            None => None,
        }
    }

    /// The id of the selected case.
    pub open spec fn selected_case_id(self) -> Option<u32> {
        match self.selected_index() {
            Some(i) => Some(self.bank.cases@[i].id),
            None => None,
        }
    }

    /// The list selection points at a case, or at nothing.
    pub open spec fn wf(self) -> bool {
        self.list_sel matches Some(i) ==> i < self.bank.cases@.len()
    }

    /// The state after `toast(msg)`.
    pub open spec fn toasted(self, msg: String) -> App {
        App { message: msg, screen: Screen::Message, ..self }
    }

    /// `post` is this state after `toast` of a message whose text is `text`.
    pub open spec fn toast_post(self, text: Seq<char>, post: App) -> bool {
        &&& post.message@ == text
        &&& post == self.toasted(post.message)
    }

    /// `post` and `eff` are this state and its request after resuming with `r`.
    pub open spec fn resume_post(self, r: Resume, post: App, eff: Effect) -> bool {
        match r {
            Resume::Nothing => post == self && eff is Nothing,
            Resume::Quit => post == App { should_quit: true, ..self } && eff is Nothing,
            Resume::ToPicker => post == App { cpp: None, screen: Screen::Picker, ..self }
                && eff is Rescan,
            Resume::ToMain => post == App { screen: Screen::Main, ..self } && eff is Nothing,
            Resume::ShowTally => post == App {
                status: Status::Done(tally_of(self.bank.cases@)),
                ..self
            } && eff is Nothing,
        }
    }

    /// `post` and `eff` follow from this state by saving the bank, where it
    /// has a file, and resuming with `r` once that is done.
    pub open spec fn persist_post(self, r: Resume, post: App, eff: Effect) -> bool {
        if self.bank_path is Some {
            post == App { resume: r, ..self } && eff is Save
        } else {
            self.resume_post(r, post, eff)
        }
    }

    /// `post` and `eff` follow from this state by moving the list selection
    /// by `delta`, wrapping around.
    pub open spec fn move_post(self, delta: int, post: App, eff: Effect) -> bool {
        let n = self.bank.cases@.len();
        let i: int = match self.list_sel {
            Some(i) => i as int,
            None => 0,
        };
        &&& eff is Nothing
        &&& if n == 0 {
            post == self
        } else {
            post == App { list_sel: Some(((i + delta) % (n as int)) as usize), detail_scroll: 0, ..self }
        }
    }

    /// `post` and `eff` follow from this state by opening the editor on a new
    /// case (`is_new`) or on the selected one.
    pub open spec fn begin_edit_post(self, is_new: bool, post: App, eff: Effect) -> bool {
        &&& post == App { edit: post.edit, screen: Screen::Edit, ..self }
        &&& post.edit matches Some(d)
        &&& d.is_new == is_new
        &&& if is_new {
            &&& d.id is None
            &&& d.name@ == "case "@ + decimal_of((self.bank.cases@.len() + 1) as nat)
            &&& d.focus == EditFocus::Name
            &&& eff matches Effect::Editor { input, expected }
            &&& input is None
            &&& expected is None
        } else {
            let c = self.bank.cases@[self.selected_index().unwrap()];
            &&& d.id == Some(c.id)
            &&& d.name@ == c.name@
            &&& d.focus == EditFocus::Input
            &&& eff matches Effect::Editor { input, expected }
            &&& input matches Some(li) && strings_view(li@) == str_lines(c.input@)
            &&& match c.expected {
                Some(e) => expected matches Some(le) && strings_view(le@) == str_lines(e@),
                None => expected is None,
            }
        }
    }

    /// `post` and `eff` follow from this state by starting a run of the cases
    /// with ids `ids`.
    pub open spec fn spawn_post(self, ids: Seq<u32>, compiler_exists: bool, post: App, eff: Effect) -> bool {
        if self.busy || self.cpp is None {
            post == self && eff is Nothing
        } else if self.compiler@.contains(' ') && !compiler_exists {
            self.toast_post(self.compiler@, post) && eff is Nothing
        } else if job_cases(self.bank.cases@, ids).len() == 0 {
            post == self && eff is Nothing
        } else {
            &&& post == App { busy: true, status: Status::Compiling, ..self }
            &&& eff matches Effect::Run(job)
            &&& job.cpp@ == self.cpp.unwrap()@
            &&& job.compiler@ == self.compiler@
            &&& job_view(job.cases@) == job_cases(self.bank.cases@, ids)
        }
    }

    /// `post` and `eff` follow from a key on the program picker.
    pub open spec fn picker_post(self, key: KeyPress, post: App, eff: Effect) -> bool {
        let n = self.cpp_files@.len();
        let i: int = match self.picker_sel {
            Some(i) => i as int,
            None => 0,
        };
        if is_char(key, 'q') || key.kind == KeyKind::Esc {
            post == App { should_quit: true, ..self } && eff is Nothing
        } else if is_char(key, '?') {
            post == App { screen: Screen::Help, ..self } && eff is Nothing
        } else if key.kind == KeyKind::Down || is_char(key, 'j') {
            eff is Nothing && if n == 0 {
                post == self
            } else {
                post == App { picker_sel: Some(((i + 1) % (n as int)) as usize), ..self }
            }
        } else if key.kind == KeyKind::Up || is_char(key, 'k') {
            eff is Nothing && if n == 0 {
                post == self
            } else {
                post == App { picker_sel: Some(((i + n - 1) % (n as int)) as usize), ..self }
            }
        } else if key.kind == KeyKind::Enter {
            post == self && match self.picker_sel {
                Some(k) => if k < n {
                    eff matches Effect::Open(p) && p@ == self.cpp_files@[k as int]@
                } else {
                    eff is Nothing
                },
                None => eff is Nothing,
            }
        } else {
            post == self && eff is Nothing
        }
    }

    /// `post` and `eff` follow from a key on the main view.
    pub open spec fn main_post(self, key: KeyPress, compiler_exists: bool, post: App, eff: Effect) -> bool {
        if is_char(key, 'q') {
            if self.dirty {
                self.persist_post(Resume::Quit, post, eff)
            } else {
                self.resume_post(Resume::Quit, post, eff)
            }
        } else if key.kind == KeyKind::Esc {
            if self.dirty {
                self.persist_post(Resume::ToPicker, post, eff)
            } else {
                self.resume_post(Resume::ToPicker, post, eff)
            }
        } else if is_char(key, '?') {
            post == App { screen: Screen::Help, ..self } && eff is Nothing
        } else if is_char(key, 'n') {
            self.begin_edit_post(true, post, eff)
        } else if is_char(key, 'e') || is_char(key, 'i') {
            if self.selected_index() is Some {
                self.begin_edit_post(false, post, eff)
            } else {
                post == self && eff is Nothing
            }
        } else if is_char(key, 'd') || key.kind == KeyKind::Delete {
            eff is Nothing && if self.selected_index() is Some {
                post == App { screen: Screen::ConfirmDelete, ..self }
            } else {
                post == self
            }
        } else if is_char(key, 'r') {
            match self.selected_case_id() {
                Some(id) => self.spawn_post(seq![id], compiler_exists, post, eff),
                None => post == self && eff is Nothing,
            }
        } else if is_char(key, 'R') || is_char(key, 'a') {
            if self.bank.cases@.len() == 0 {
                self.toast_post("no test cases"@, post) && eff is Nothing
            } else {
                self.spawn_post(ids_of(self.bank.cases@), compiler_exists, post, eff)
            }
        } else if is_char(key, 's') && key.ctrl {
            self.persist_post(Resume::Nothing, post, eff)
        } else if key.kind == KeyKind::Down || is_char(key, 'j') {
            self.move_post(1, post, eff)
        } else if key.kind == KeyKind::Up || is_char(key, 'k') {
            self.move_post(-1, post, eff)
        } else if is_char(key, 'J') {
            eff is Nothing && post == App {
                detail_scroll: if self.detail_scroll < u16::MAX {
                    (self.detail_scroll + 1) as u16
                } else {
                    self.detail_scroll
                },
                ..self
            }
        } else if is_char(key, 'K') {
            eff is Nothing && post == App {
                detail_scroll: if self.detail_scroll > 0 {
                    (self.detail_scroll - 1) as u16
                } else {
                    0
                },
                ..self
            }
        } else {
            post == self && eff is Nothing
        }
    }

    /// `post` and `eff` follow from a key on the delete confirmation.
    pub open spec fn confirm_post(self, key: KeyPress, post: App, eff: Effect) -> bool {
        if is_char(key, 'y') || is_char(key, 'Y') {
            match self.selected_case_id() {
                Some(id) => {
                    let idx = self.list_sel.unwrap();
                    let rest = without_id(self.bank.cases@, id);
                    let sel = if rest.len() == 0 {
                        None
                    } else if idx < rest.len() {
                        Some(idx)
                    } else {
                        Some((rest.len() - 1) as usize)
                    };
                    &&& post.bank.cases@ == rest
                    &&& post.bank.next_id == self.bank.next_id
                    &&& post.bank.source_name == self.bank.source_name
                    &&& App { bank: post.bank, list_sel: sel, dirty: true, ..self }.persist_post(
                        Resume::ToMain,
                        post,
                        eff,
                    )
                },
                None => post == App { screen: Screen::Main, ..self } && eff is Nothing,
            }
        } else if is_char(key, 'n') || key.kind == KeyKind::Esc || is_char(key, 'q') {
            post == App { screen: Screen::Main, ..self } && eff is Nothing
        } else {
            post == self && eff is Nothing
        }
    }

    /// `post` and `eff` follow from a key in the case editor.
    pub open spec fn edit_post(self, key: KeyPress, post: App, eff: Effect) -> bool {
        if key.kind == KeyKind::Esc {
            post == App { edit: None, screen: Screen::Main, ..self } && eff is Nothing
        } else if key.ctrl && is_char(key, 's') {
            post == self && if self.edit is Some {
                eff is Commit
            } else {
                eff is Nothing
            }
        } else if key.kind == KeyKind::Tab || key.kind == KeyKind::BackTab {
            eff is Nothing && match self.edit {
                Some(d) => {
                    &&& post == App { edit: post.edit, ..self }
                    &&& post.edit matches Some(d2)
                    &&& d2 == EditDraft {
                        focus: if key.kind == KeyKind::Tab {
                            next_focus(d.focus)
                        } else {
                            prev_focus(d.focus)
                        },
                        ..d
                    }
                },
                None => post == self,
            }
        } else {
            match self.edit {
                None => post == self && eff is Nothing,
                Some(d) => match d.focus {
                    EditFocus::Name => eff is Nothing && match key.kind {
                        KeyKind::Char(c) => if !key.ctrl {
                            &&& post == App { edit: post.edit, ..self }
                            &&& post.edit matches Some(d2)
                            &&& d2 == EditDraft { name: d2.name, ..d }
                            &&& d2.name@ == d.name@.push(c)
                        } else {
                            post == self
                        },
                        KeyKind::Backspace => {
                            &&& post == App { edit: post.edit, ..self }
                            &&& post.edit matches Some(d2)
                            &&& d2 == EditDraft { name: d2.name, ..d }
                            &&& d2.name@ == (if d.name@.len() > 0 {
                                d.name@.drop_last()
                            } else {
                                d.name@
                            })
                        },
                        _ => post == self,
                    },
                    EditFocus::Input => post == self && eff == Effect::EditorKey(EditField::Input),
                    EditFocus::Expected => post == self && eff == Effect::EditorKey(
                        EditField::Expected,
                    ),
                },
            }
        }
    }

    /// `post` and `eff` follow from this state and `key`.
    pub open spec fn key_post(self, key: KeyPress, compiler_exists: bool, post: App, eff: Effect) -> bool {
        if self.busy && self.screen != Screen::Edit {
            eff is Nothing && if is_char(key, 'q') && key.ctrl {
                post == App { should_quit: true, ..self }
            } else {
                post == self
            }
        } else {
            match self.screen {
                Screen::Picker => self.picker_post(key, post, eff),
                Screen::Main => self.main_post(key, compiler_exists, post, eff),
                Screen::Edit => self.edit_post(key, post, eff),
                Screen::ConfirmDelete => self.confirm_post(key, post, eff),
                _ => eff is Nothing && post == App {
                    screen: if self.cpp is Some {
                        Screen::Main
                    } else {
                        Screen::Picker
                    },
                    ..self
                },
            }
        }
    }
}


/// The case `c` holds exactly these values and has not run.
pub open spec fn case_is(
    c: Case,
    id: u32,
    name: Seq<char>,
    input: Seq<char>,
    expected: Option<Seq<char>>,
) -> bool {
    &&& c.id == id
    &&& c.name@ == name
    &&& c.input@ == input
    &&& opt_string_view(c.expected) == expected
    &&& c.last is None
}

impl App {
    /// This state once the program at `cpp` is open with `bank`, read from
    /// `bank_path`.
    pub open spec fn opened_state(self, cpp: String, bank_path: String, bank: Bank) -> App {
        App {
            cpp: Some(cpp),
            bank_path: Some(bank_path),
            list_sel: if bank.cases@.len() > 0 {
                Some(0usize)
            } else {
                None
            },
            detail_scroll: 0,
            screen: Screen::Main,
            status: Status::Opened { cpp, n_cases: bank.cases@.len() as usize },
            bank,
            ..self
        }
    }

    /// `post` and `eff` follow from this state once a save has been carried
    /// out (`error` is `None`) or has failed with that message.
    pub open spec fn save_done_post(self, error: Option<String>, post: App, eff: Effect) -> bool {
        match error {
            None => App { dirty: false, resume: Resume::Nothing, ..self }.resume_post(
                self.resume,
                post,
                eff,
            ),
            Some(e) => {
                &&& post.message@ == "save failed: "@ + e@
                &&& App {
                    message: post.message,
                    screen: Screen::Message,
                    resume: Resume::Nothing,
                    ..self
                }.resume_post(self.resume, post, eff)
            },
        }
    }

    /// `post` and `eff` follow from this state once the editor's text areas
    /// have been read: `input_lines` and `expected_lines` are their lines.
    pub open spec fn commit_post(
        self,
        input_lines: Seq<Seq<char>>,
        expected_lines: Seq<Seq<char>>,
        post: App,
        eff: Effect,
    ) -> bool {
        match self.edit {
            None => post == self && eff is Nothing,
            Some(d) => {
                let name = committed_name(d.name@);
                let input = join_with(input_lines, '\n');
                let expected = committed_expected(join_with(expected_lines, '\n'));
                let sel = if d.is_new {
                    opt_usize(first_index_of(post.bank.cases@, self.bank.next_id))
                } else {
                    self.list_sel
                };
                &&& post.bank.source_name == self.bank.source_name
                &&& if d.is_new {
                    &&& post.bank.next_id == self.bank.next_id + 1
                    &&& post.bank.cases@.len() == self.bank.cases@.len() + 1
                    &&& post.bank.cases@.drop_last() == self.bank.cases@
                    &&& case_is(post.bank.cases@.last(), self.bank.next_id, name, input, expected)
                } else {
                    &&& post.bank.next_id == self.bank.next_id
                    &&& match d.id {
                        Some(id) => match first_index_of(self.bank.cases@, id) {
                            Some(i) => {
                                &&& post.bank.cases@ == self.bank.cases@.update(
                                    i,
                                    post.bank.cases@[i],
                                )
                                &&& case_is(post.bank.cases@[i], id, name, input, expected)
                            },
                            None => post.bank.cases@ == self.bank.cases@,
                        },
                        None => post.bank.cases@ == self.bank.cases@,
                    }
                }
                &&& App {
                    bank: post.bank,
                    list_sel: sel,
                    edit: None,
                    dirty: true,
                    ..self
                }.persist_post(Resume::ToMain, post, eff)
            },
        }
    }

    /// `post` and `eff` follow from this state and a report of the worker.
    pub open spec fn worker_post(self, ev: WorkerEvent, post: App, eff: Effect) -> bool {
        match ev {
            WorkerEvent::CompileOk { duration_ns, total } => post == App {
                status: Status::Compiled { duration_ns, total },
                ..self
            } && eff is Nothing,
            WorkerEvent::CompileFail(msg) => App { busy: false, ..self }.toast_post(
                "compile error\n\n"@ + msg@,
                post,
            ) && eff is Nothing,
            WorkerEvent::CaseDone { id, record, done, total } => {
                &&& post == App {
                    bank: post.bank,
                    status: Status::Running { done, total },
                    dirty: true,
                    ..self
                }
                &&& post.bank.next_id == self.bank.next_id
                &&& post.bank.source_name == self.bank.source_name
                &&& post.bank.cases@ == match first_index_of(self.bank.cases@, id) {
                    Some(i) => self.bank.cases@.update(
                        i,
                        Case { last: Some(record), ..self.bank.cases@[i] },
                    ),
                    None => self.bank.cases@,
                }
                &&& eff is Nothing
            },
            WorkerEvent::BatchDone => App { busy: false, ..self }.persist_post(
                Resume::ShowTally,
                post,
                eff,
            ),
        }
    }
}

/// How many cases of the bank last ran with each verdict.
pub fn tally(bank: &Bank) -> (t: Tally)
    ensures
        t == tally_of(bank.cases@),
{
    let mut ac: usize = 0;
    let mut wa: usize = 0;
    let mut tle: usize = 0;
    let mut re: usize = 0;
    let mut ok: usize = 0;
    let mut i: usize = 0;
    while i < bank.cases.len()
        invariant
            i <= bank.cases@.len(),
            ac == count_verdict(bank.cases@.take(i as int), Verdict::Pass),
            wa == count_verdict(bank.cases@.take(i as int), Verdict::Fail),
            tle == count_verdict(bank.cases@.take(i as int), Verdict::Tle),
            re == count_verdict(bank.cases@.take(i as int), Verdict::Runtime),
            ok == count_verdict(bank.cases@.take(i as int), Verdict::Ran),
            ac <= i && wa <= i && tle <= i && re <= i && ok <= i,
        decreases bank.cases@.len() - i,
    {
        assert(bank.cases@.take(i + 1).drop_last() =~= bank.cases@.take(i as int));
        match &bank.cases[i].last {
            Some(r) => match r.verdict {
                Verdict::Pass => ac += 1,
                Verdict::Fail => wa += 1,
                Verdict::Tle => tle += 1,
                Verdict::Runtime => re += 1,
                Verdict::Ran => ok += 1,
            },
            None => {},
        }
        i += 1;
    }
    assert(bank.cases@.take(i as int) =~= bank.cases@);
    Tally { ac, wa, tle, re, ok }
}

/// Every case that has run is counted under exactly one verdict.
pub proof fn lemma_tally_counts_runs(cases: Seq<Case>)
    ensures
        count_verdict(cases, Verdict::Pass) + count_verdict(cases, Verdict::Fail) + count_verdict(
            cases,
            Verdict::Tle,
        ) + count_verdict(cases, Verdict::Runtime) + count_verdict(cases, Verdict::Ran)
            == count_run(cases),
        count_run(cases) <= cases.len(),
    decreases cases.len(),
{
    if cases.len() > 0 {
        lemma_tally_counts_runs(cases.drop_last());
    }
}

/// Whether `s` holds a space.
fn has_space(s: &str) -> (b: bool)
    ensures
        b == s@.contains(' '),
{
    let cs = crate::text::chars_of(s);
    let mut i: usize = 0;
    while i < cs.len()
        invariant
            i <= cs@.len(),
            cs@ == s@,
            forall|k: int| 0 <= k < i ==> cs@[k] != ' ',
        decreases cs@.len() - i,
    {
        if cs[i] == ' ' {
            assert(s@[i as int] == ' ');
            return true;
        }
        i += 1;
    }
    false
}

/// A copy of an optional string.
fn clone_opt(s: &Option<String>) -> (r: Option<String>)
    ensures
        r == *s,
{
    match s {
        Some(x) => Some(x.clone()),
        None => None,
    }
}

impl App {
    /// The state the front end starts in: the program picker over
    /// `cpp_files`, with an empty bank.
    pub fn new(cpp_files: Vec<String>, compiler: String) -> (a: App)
        ensures
            a.screen == Screen::Picker,
            !a.should_quit,
            a.cpp_files == cpp_files,
            a.picker_sel == (if cpp_files@.len() > 0 {
                Some(0usize)
            } else {
                None
            }),
            a.cpp is None,
            a.bank_path is None,
            a.bank.source_name@ == "program.cpp"@,
            a.bank.next_id == 1,
            a.bank.cases@.len() == 0,
            a.list_sel is None,
            a.detail_scroll == 0,
            a.status is Welcome,
            a.message@.len() == 0,
            !a.busy,
            a.compiler == compiler,
            a.edit is None,
            !a.dirty,
            a.resume == Resume::Nothing,
            a.wf(),
    {
        let picker_sel = if cpp_files.len() > 0 {
            Some(0usize)
        } else {
            None
        };
        App {
            screen: Screen::Picker,
            should_quit: false,
            cpp_files,
            picker_sel,
            cpp: None,
            bank_path: None,
            bank: Bank::new("program.cpp"),
            list_sel: None,
            detail_scroll: 0,
            status: Status::Welcome,
            message: String::new(),
            busy: false,
            compiler,
            edit: None,
            dirty: false,
            resume: Resume::Nothing,
        }
    }

    /// Shows the program at `cpp` with its bank, read from `bank_path`.
    pub fn opened(&mut self, cpp: String, bank_path: String, bank: Bank)
        ensures
            *final(self) == old(self).opened_state(cpp, bank_path, bank),
            final(self).wf(),
    {
        let n = bank.cases.len();
        let shown = cpp.clone();
        self.cpp = Some(cpp);
        self.bank_path = Some(bank_path);
        self.bank = bank;
        self.list_sel = if n > 0 {
            Some(0)
        } else {
            None
        };
        self.detail_scroll = 0;
        self.screen = Screen::Main;
        self.status = Status::Opened { cpp: shown, n_cases: n };
    }

    /// Replaces the list of programs on the picker.
    pub fn set_cpp_files(&mut self, files: Vec<String>)
        ensures
            *final(self) == (App { cpp_files: files, ..*old(self) }),
    {
        self.cpp_files = files;
    }

    /// Shows `msg` until the next key.
    pub fn toast(&mut self, msg: String)
        ensures
            *final(self) == old(self).toasted(msg),
    {
        self.message = msg;
        self.screen = Screen::Message;
    }

    /// The id of the selected case.
    pub fn selected_id(&self) -> (r: Option<u32>)
        ensures
            r == self.selected_case_id(),
    {
        match self.list_sel {
            Some(i) => if i < self.bank.cases.len() {
                Some(self.bank.cases[i].id)
            } else {
                None
            },
            None => None,
        }
    }

    /// The selected case.
    pub fn selected_case(&self) -> (r: Option<&Case>)
        ensures
            match self.selected_index() {
                Some(i) => r matches Some(c) && *c == self.bank.cases@[i],
                None => r is None,
            },
    {
        match self.list_sel {
            Some(i) => if i < self.bank.cases.len() {
                Some(&self.bank.cases[i])
            } else {
                None
            },
            None => None,
        }
    }

    fn resume_with(&mut self, r: Resume) -> (eff: Effect)
        ensures
            old(self).resume_post(r, *final(self), eff),
    {
        match r {
            Resume::Nothing => Effect::Nothing,
            Resume::Quit => {
                self.should_quit = true;
                Effect::Nothing
            },
            Resume::ToPicker => {
                self.cpp = None;
                self.screen = Screen::Picker;
                Effect::Rescan
            },
            Resume::ToMain => {
                self.screen = Screen::Main;
                Effect::Nothing
            },
            Resume::ShowTally => {
                let t = tally(&self.bank);
                self.status = Status::Done(t);
                Effect::Nothing
            },
        }
    }

    fn persist_then(&mut self, r: Resume) -> (eff: Effect)
        ensures
            old(self).persist_post(r, *final(self), eff),
    {
        if self.bank_path.is_some() {
            self.resume = r;
            Effect::Save
        } else {
            self.resume_with(r)
        }
    }

    /// Asks for the bank to be saved, where it has a file.
    pub fn persist(&mut self) -> (eff: Effect)
        ensures
            old(self).persist_post(Resume::Nothing, *final(self), eff),
            old(self).wf() ==> final(self).wf(),
    {
        self.persist_then(Resume::Nothing)
    }

    /// Takes note that the requested save was carried out (`error` is `None`)
    /// or failed with that message, and goes on with what waited for it.
    pub fn save_done(&mut self, error: Option<String>) -> (eff: Effect)
        ensures
            old(self).save_done_post(error, *final(self), eff),
            old(self).wf() ==> final(self).wf(),
    {
        match error {
            None => {
                self.dirty = false;
            },
            Some(e) => {
                let mut m = String::from_str("save failed: ");
                m.append(e.as_str());
                self.message = m;
                self.screen = Screen::Message;
            },
        }
        let r = self.resume;
        self.resume = Resume::Nothing;
        self.resume_with(r)
    }
}


impl App {
    fn on_picker(&mut self, key: KeyPress) -> (eff: Effect)
        ensures
            old(self).picker_post(key, *final(self), eff),
    {
        match key.kind {
            KeyKind::Char('q') | KeyKind::Esc => {
                self.should_quit = true;
            },
            KeyKind::Char('?') => {
                self.screen = Screen::Help;
            },
            KeyKind::Down | KeyKind::Char('j') => {
                let n = self.cpp_files.len();
                if n == 0 {
                    return Effect::Nothing;
                }
                let i = match self.picker_sel {
                    Some(i) => i,
                    None => 0,
                };
                let r = i % n;
                let next = if r + 1 == n {
                    0
                } else {
                    r + 1
                };
                assert(next as int == (i + 1) % (n as int)) by (nonlinear_arith)
                    requires
                        r == i % n,
                        n > 0,
                        next == (if r + 1 == n {
                            0
                        } else {
                            r + 1
                        }),
                ;
                self.picker_sel = Some(next);
            },
            KeyKind::Up | KeyKind::Char('k') => {
                let n = self.cpp_files.len();
                if n == 0 {
                    return Effect::Nothing;
                }
                let i = match self.picker_sel {
                    Some(i) => i,
                    None => 0,
                };
                let r = i % n;
                let next = if r == 0 {
                    n - 1
                } else {
                    r - 1
                };
                assert(next as int == (i + n - 1) % (n as int)) by (nonlinear_arith)
                    requires
                        r == i % n,
                        n > 0,
                        next == (if r == 0 {
                            n - 1
                        } else {
                            r - 1
                        }),
                ;
                self.picker_sel = Some(next);
            },
            KeyKind::Enter => {
                if let Some(i) = self.picker_sel {
                    if i < self.cpp_files.len() {
                        return Effect::Open(self.cpp_files[i].clone());
                    }
                }
            },
            _ => {},
        }
        Effect::Nothing
    }

    fn begin_edit(&mut self, is_new: bool) -> (eff: Effect)
        requires
            !is_new ==> old(self).selected_index() is Some,
        ensures
            old(self).begin_edit_post(is_new, *final(self), eff),
    {
        if is_new {
            let mut name = String::from_str("case ");
            let count = decimal(self.bank.cases.len() as u128 + 1);
            name.append(count.as_str());
            self.edit = Some(EditDraft { is_new, id: None, name, focus: EditFocus::Name });
            self.screen = Screen::Edit;
            Effect::Editor { input: None, expected: None }
        } else {
            let i = self.list_sel.unwrap();
            let c = &self.bank.cases[i];
            let input = lines(c.input.as_str());
            let expected = match &c.expected {
                Some(e) => Some(lines(e.as_str())),
                None => None,
            };
            let draft = EditDraft {
                is_new,
                id: Some(c.id),
                name: c.name.clone(),
                focus: EditFocus::Input,
            };
            self.edit = Some(draft);
            self.screen = Screen::Edit;
            Effect::Editor { input: Some(input), expected }
        }
    }

    fn move_sel(&mut self, delta: i32) -> (eff: Effect)
        requires
            old(self).wf(),
            delta == 1 || delta == -1,
            old(self).bank.cases@.len() <= i32::MAX,
        ensures
            old(self).move_post(delta as int, *final(self), eff),
    {
        let n = self.bank.cases.len();
        if n == 0 {
            return Effect::Nothing;
        }
        let i = match self.list_sel {
            Some(i) => i,
            None => 0,
        };
        let next = if delta == 1 {
            if i + 1 == n {
                0
            } else {
                i + 1
            }
        } else {
            if i == 0 {
                n - 1
            } else {
                i - 1
            }
        };
        assert(next as int == (i + delta) % (n as int)) by (nonlinear_arith)
            requires
                i < n,
                delta == 1 || delta == -1,
                next == (if delta == 1 {
                    if i + 1 == n {
                        0
                    } else {
                        i + 1
                    }
                } else {
                    if i == 0 {
                        n - 1
                    } else {
                        i - 1
                    }
                }),
        ;
        self.list_sel = Some(next);
        self.detail_scroll = 0;
        Effect::Nothing
    }

    fn spawn_run(&mut self, ids: Vec<u32>, compiler_exists: bool) -> (eff: Effect)
        ensures
            old(self).spawn_post(ids@, compiler_exists, *final(self), eff),
    {
        if self.busy {
            return Effect::Nothing;
        }
        let cpp = match &self.cpp {
            Some(c) => c.clone(),
            None => return Effect::Nothing,
        };
        if has_space(self.compiler.as_str()) && !compiler_exists {
            let msg = self.compiler.clone();
            self.toast(msg);
            return Effect::Nothing;
        }
        let mut cases: Vec<(u32, String, Option<String>)> = Vec::new();
        let mut k: usize = 0;
        while k < ids.len()
            invariant
                k <= ids@.len(),
                job_view(cases@) == job_cases(self.bank.cases@, ids@.take(k as int)),
            decreases ids@.len() - k,
        {
            let id = ids[k];
            assert(ids@.take(k + 1).drop_last() =~= ids@.take(k as int));
            let ghost before = cases@;
            match self.bank.index_of(id) {
                Some(i) => {
                    proof {
                        lemma_first_index_of(self.bank.cases@, id);
                    }
                    let c = &self.bank.cases[i];
                    let item = (id, c.input.clone(), clone_opt(&c.expected));
                    cases.push(item);
                    assert(job_view(cases@) =~= job_view(before).push(
                        (item.0, item.1@, opt_string_view(item.2)),
                    ));
                },
                None => {},
            }
            k += 1;
        }
        assert(ids@.take(ids@.len() as int) =~= ids@);
        if cases.len() == 0 {
            return Effect::Nothing;
        }
        self.busy = true;
        self.status = Status::Compiling;
        Effect::Run(RunJob { cpp, compiler: self.compiler.clone(), cases })
    }

    fn on_main(&mut self, key: KeyPress, compiler_exists: bool) -> (eff: Effect)
        requires
            old(self).wf(),
            old(self).bank.cases@.len() <= i32::MAX,
        ensures
            old(self).main_post(key, compiler_exists, *final(self), eff),
    {
        match key.kind {
            KeyKind::Char('q') => {
                if self.dirty {
                    self.persist_then(Resume::Quit)
                } else {
                    self.resume_with(Resume::Quit)
                }
            },
            KeyKind::Esc => {
                if self.dirty {
                    self.persist_then(Resume::ToPicker)
                } else {
                    self.resume_with(Resume::ToPicker)
                }
            },
            KeyKind::Char('?') => {
                self.screen = Screen::Help;
                Effect::Nothing
            },
            KeyKind::Char('n') => self.begin_edit(true),
            KeyKind::Char('e') | KeyKind::Char('i') => {
                if self.selected_case().is_some() {
                    self.begin_edit(false)
                } else {
                    Effect::Nothing
                }
            },
            KeyKind::Char('d') | KeyKind::Delete => {
                if self.selected_id().is_some() {
                    self.screen = Screen::ConfirmDelete;
                }
                Effect::Nothing
            },
            KeyKind::Char('r') => match self.selected_id() {
                Some(id) => {
                    let mut ids: Vec<u32> = Vec::new();
                    ids.push(id);
                    assert(ids@ =~= seq![id]);
                    self.spawn_run(ids, compiler_exists)
                },
                None => Effect::Nothing,
            },
            KeyKind::Char('R') | KeyKind::Char('a') => {
                if self.bank.cases.len() == 0 {
                    self.toast(String::from_str("no test cases"));
                    return Effect::Nothing;
                }
                let mut ids: Vec<u32> = Vec::new();
                let mut k: usize = 0;
                while k < self.bank.cases.len()
                    invariant
                        k <= self.bank.cases@.len(),
                        ids@ == ids_of(self.bank.cases@.take(k as int)),
                    decreases self.bank.cases@.len() - k,
                {
                    assert(ids_of(self.bank.cases@.take(k + 1)) =~= ids_of(
                        self.bank.cases@.take(k as int),
                    ).push(self.bank.cases@[k as int].id));
                    ids.push(self.bank.cases[k].id);
                    k += 1;
                }
                assert(self.bank.cases@.take(self.bank.cases@.len() as int) =~= self.bank.cases@);
                self.spawn_run(ids, compiler_exists)
            },
            KeyKind::Char('s') if key.ctrl => self.persist_then(Resume::Nothing),
            KeyKind::Down | KeyKind::Char('j') => self.move_sel(1),
            KeyKind::Up | KeyKind::Char('k') => self.move_sel(-1),
            KeyKind::Char('J') => {
                self.detail_scroll = self.detail_scroll.saturating_add(1);
                Effect::Nothing
            },
            KeyKind::Char('K') => {
                self.detail_scroll = self.detail_scroll.saturating_sub(1);
                Effect::Nothing
            },
            _ => Effect::Nothing,
        }
    }
}


impl App {
    fn on_confirm(&mut self, key: KeyPress) -> (eff: Effect)
        requires
            old(self).wf(),
        ensures
            old(self).confirm_post(key, *final(self), eff),
            final(self).wf(),
    {
        match key.kind {
            KeyKind::Char('y') | KeyKind::Char('Y') => {
                match self.selected_id() {
                    Some(id) => {
                        let idx = match self.list_sel {
                            Some(i) => i,
                            None => 0,
                        };
                        self.bank.remove(id);
                        let n = self.bank.cases.len();
                        if n == 0 {
                            self.list_sel = None;
                        } else {
                            self.list_sel = Some(
                                if idx < n {
                                    idx
                                } else {
                                    n - 1
                                },
                            );
                        }
                        self.dirty = true;
                        self.persist_then(Resume::ToMain)
                    },
                    None => {
                        self.screen = Screen::Main;
                        Effect::Nothing
                    },
                }
            },
            KeyKind::Char('n') | KeyKind::Esc | KeyKind::Char('q') => {
                self.screen = Screen::Main;
                Effect::Nothing
            },
            _ => Effect::Nothing,
        }
    }

    fn on_edit(&mut self, key: KeyPress) -> (eff: Effect)
        ensures
            old(self).edit_post(key, *final(self), eff),
    {
        if key.kind == KeyKind::Esc {
            self.edit = None;
            self.screen = Screen::Main;
            return Effect::Nothing;
        }
        if key.ctrl && key.kind == KeyKind::Char('s') {
            return if self.edit.is_some() {
                Effect::Commit
            } else {
                Effect::Nothing
            };
        }
        if key.kind == KeyKind::Tab || key.kind == KeyKind::BackTab {
            let e = self.edit.take();
            match e {
                Some(mut d) => {
                    d.focus = if key.kind == KeyKind::Tab {
                        match d.focus {
                            EditFocus::Name => EditFocus::Input,
                            EditFocus::Input => EditFocus::Expected,
                            EditFocus::Expected => EditFocus::Name,
                        }
                    } else {
                        match d.focus {
                            EditFocus::Name => EditFocus::Expected,
                            EditFocus::Input => EditFocus::Name,
                            EditFocus::Expected => EditFocus::Input,
                        }
                    };
                    self.edit = Some(d);
                },
                None => {},
            }
            return Effect::Nothing;
        }
        let e = self.edit.take();
        match e {
            None => Effect::Nothing,
            Some(mut d) => match d.focus {
                EditFocus::Name => {
                    match key.kind {
                        KeyKind::Char(c) => {
                            if !key.ctrl {
                                push_char(&mut d.name, c);
                            }
                        },
                        KeyKind::Backspace => {
                            pop_char(&mut d.name);
                        },
                        _ => {},
                    }
                    self.edit = Some(d);
                    Effect::Nothing
                },
                EditFocus::Input => {
                    self.edit = Some(d);
                    Effect::EditorKey(EditField::Input)
                },
                EditFocus::Expected => {
                    self.edit = Some(d);
                    Effect::EditorKey(EditField::Expected)
                },
            },
        }
    }

    /// Handles a key press. `compiler_exists` tells whether a file exists at
    /// the compiler's path.
    pub fn on_key(&mut self, key: KeyPress, compiler_exists: bool) -> (eff: Effect)
        requires
            old(self).wf(),
            old(self).bank.cases@.len() <= i32::MAX,
        ensures
            old(self).key_post(key, compiler_exists, *final(self), eff),
            final(self).wf(),
    {
        if self.busy && self.screen != Screen::Edit {
            if key.kind == KeyKind::Char('q') && key.ctrl {
                self.should_quit = true;
            }
            return Effect::Nothing;
        }
        match self.screen {
            Screen::Picker => self.on_picker(key),
            Screen::Main => self.on_main(key, compiler_exists),
            Screen::Edit => self.on_edit(key),
            Screen::ConfirmDelete => self.on_confirm(key),
            _ => {
                self.screen = if self.cpp.is_some() {
                    Screen::Main
                } else {
                    Screen::Picker
                };
                Effect::Nothing
            },
        }
    }

    /// Saves the edited case, given the lines of the editor's two text areas.
    pub fn commit_edit(&mut self, input_lines: Vec<String>, expected_lines: Vec<String>) -> (eff:
        Effect)
        requires
            (old(self).edit matches Some(d) && d.is_new) ==> old(self).bank.next_id < u32::MAX,
        ensures
            old(self).commit_post(
                strings_view(input_lines@),
                strings_view(expected_lines@),
                *final(self),
                eff,
            ),
            old(self).wf() ==> final(self).wf(),
    {
        let e = self.edit.take();
        let d = match e {
            Some(d) => d,
            None => return Effect::Nothing,
        };
        let t = trim(d.name.as_str());
        let name = if t.as_str().is_empty() {
            String::from_str("untitled")
        } else {
            t
        };
        let input = join_lines(&input_lines);
        let exp_raw = join_lines(&expected_lines);
        let expected = if trim(exp_raw.as_str()).as_str().is_empty() {
            None
        } else {
            Some(exp_raw)
        };
        let ghost gname = committed_name(d.name@);
        let ghost ginput = join_with(strings_view(input_lines@), '\n');
        let ghost gexp = committed_expected(join_with(strings_view(expected_lines@), '\n'));
        assert(name@ == gname);
        assert(input@ == ginput);
        assert(opt_string_view(expected) == gexp);
        if d.is_new {
            let id = self.bank.add(name, input, expected);
            self.list_sel = self.bank.index_of(id);
            proof {
                lemma_first_index_of(self.bank.cases@, id);
            }
            assert(case_is(self.bank.cases@.last(), id, gname, ginput, gexp));
            assert(self.bank.cases@.drop_last() =~= old(self).bank.cases@);
        } else if let Some(id) = d.id {
            proof {
                lemma_first_index_of(self.bank.cases@, id);
            }
            let ghost before = self.bank.cases@;
            match self.bank.get_mut(id) {
                Some(c) => {
                    c.name = name;
                    c.input = input;
                    c.expected = expected;
                    c.last = None;
                },
                None => {},
            }
            proof {
                if let Some(i) = first_index_of(before, id) {
                    assert(self.bank.cases@[i].id == before[i].id);
                    assert(case_is(self.bank.cases@[i], id, committed_name(d.name@), join_with(strings_view(input_lines@), '\n'), committed_expected(join_with(strings_view(expected_lines@), '\n'))));
                }
            }
            assert(self.bank.cases@.len() == before.len());
        }
        self.dirty = true;
        self.persist_then(Resume::ToMain)
    }

    /// Takes in a report of the background worker.
    pub fn on_worker_event(&mut self, ev: WorkerEvent) -> (eff: Effect)
        ensures
            old(self).worker_post(ev, *final(self), eff),
            old(self).wf() ==> final(self).wf(),
    {
        match ev {
            WorkerEvent::CompileOk { duration_ns, total } => {
                self.status = Status::Compiled { duration_ns, total };
                Effect::Nothing
            },
            WorkerEvent::CompileFail(msg) => {
                self.busy = false;
                let mut m = String::from_str("compile error\n\n");
                m.append(msg.as_str());
                self.toast(m);
                Effect::Nothing
            },
            WorkerEvent::CaseDone { id, record, done, total } => {
                proof {
                    lemma_first_index_of(self.bank.cases@, id);
                }
                match self.bank.get_mut(id) {
                    Some(c) => {
                        c.last = Some(record);
                    },
                    None => {},
                }
                assert(self.bank.cases@.len() == old(self).bank.cases@.len());
                self.status = Status::Running { done, total };
                self.dirty = true;
                Effect::Nothing
            },
            WorkerEvent::BatchDone => {
                self.busy = false;
                self.persist_then(Resume::ShowTally)
            },
        }
    }
}


/// Committing a new case in a well-formed bank selects that case, at the end
/// of the list.
pub proof fn lemma_commit_selects_new_case(
    pre: App,
    input_lines: Seq<Seq<char>>,
    expected_lines: Seq<Seq<char>>,
    post: App,
    eff: Effect,
)
    requires
        pre.bank.wf(),
        pre.edit matches Some(d) && d.is_new,
        pre.commit_post(input_lines, expected_lines, post, eff),
    ensures
        post.list_sel == Some(pre.bank.cases@.len() as usize),
        post.bank.cases@.len() == pre.bank.cases@.len() + 1,
        post.wf(),
{
    crate::store::lemma_add_then_index_of(pre.bank, post.bank, pre.bank.next_id);
}

/// Confirming a deletion leaves no case with the deleted id.
pub proof fn lemma_confirmed_delete_removes_case(pre: App, key: KeyPress, post: App, eff: Effect)
    requires
        is_char(key, 'y') || is_char(key, 'Y'),
        pre.confirm_post(key, post, eff),
        pre.selected_case_id() is Some,
    ensures
        first_index_of(post.bank.cases@, pre.selected_case_id().unwrap()) is None,
{
    crate::store::lemma_remove_then_index_of(pre.bank.cases@, pre.selected_case_id().unwrap());
}

/// Quitting from the main view with unsaved changes first asks for a save,
/// and quits once that save is reported, whether it succeeded or not.
pub proof fn lemma_quit_saves_first(
    pre: App,
    key: KeyPress,
    compiler_exists: bool,
    mid: App,
    eff1: Effect,
    error: Option<String>,
    post: App,
    eff2: Effect,
)
    requires
        pre.screen == Screen::Main,
        !pre.busy,
        !pre.should_quit,
        pre.dirty,
        pre.bank_path is Some,
        is_char(key, 'q'),
        pre.key_post(key, compiler_exists, mid, eff1),
        mid.save_done_post(error, post, eff2),
    ensures
        eff1 is Save,
        !mid.should_quit,
        post.should_quit,
        error is None ==> !post.dirty,
{
}

/// In the editor, Tab followed by Shift-Tab gives back the state it started
/// from, and asks for nothing.
pub proof fn lemma_tab_then_backtab(
    pre: App,
    tab: KeyPress,
    back: KeyPress,
    compiler_exists: bool,
    mid: App,
    e1: Effect,
    post: App,
    e2: Effect,
)
    requires
        pre.screen == Screen::Edit,
        pre.edit is Some,
        tab.kind == KeyKind::Tab,
        back.kind == KeyKind::BackTab,
        pre.key_post(tab, compiler_exists, mid, e1),
        mid.key_post(back, compiler_exists, post, e2),
    ensures
        post == pre,
        e1 is Nothing,
        e2 is Nothing,
{
    let d = pre.edit.unwrap();
    assert(mid.screen == Screen::Edit);
    let d2 = post.edit.unwrap();
    assert(d2 == d);
    assert(post.edit == pre.edit);
}

/// In the editor, three Tabs bring the focus back to where it was: name,
/// input and expected output take turns.
pub proof fn lemma_three_tabs(
    pre: App,
    tab: KeyPress,
    compiler_exists: bool,
    m1: App,
    e1: Effect,
    m2: App,
    e2: Effect,
    post: App,
    e3: Effect,
)
    requires
        pre.screen == Screen::Edit,
        pre.edit is Some,
        tab.kind == KeyKind::Tab,
        pre.key_post(tab, compiler_exists, m1, e1),
        m1.key_post(tab, compiler_exists, m2, e2),
        m2.key_post(tab, compiler_exists, post, e3),
    ensures
        post == pre,
{
    assert(m1.screen == Screen::Edit);
    assert(m2.screen == Screen::Edit);
    assert(post.edit.unwrap() == pre.edit.unwrap());
    assert(post.edit == pre.edit);
}

/// How many of `ids` name some case of `cases`.
pub open spec fn named_count(cases: Seq<Case>, ids: Seq<u32>) -> nat
    decreases ids.len(),
{
    if ids.len() == 0 {
        0
    } else {
        named_count(cases, ids.drop_last()) + (if has_id(cases, ids.last()) {
            1nat
        } else {
            0nat
        })
    }
}

/// A batch holds one entry for every requested id that names a case,
/// whatever its expected output, and each entry is a case's id, stdin and
/// expected output.
pub proof fn lemma_batch_covers_named_ids(cases: Seq<Case>, ids: Seq<u32>)
    ensures
        job_cases(cases, ids).len() == named_count(cases, ids),
        forall|j: int|
            0 <= j < job_cases(cases, ids).len() ==> exists|i: int|
                0 <= i < cases.len() && cases[i].id == (#[trigger] job_cases(cases, ids)[j]).0
                    && cases[i].input@ == job_cases(cases, ids)[j].1 && opt_string_view(
                    cases[i].expected,
                ) == job_cases(cases, ids)[j].2,
    decreases ids.len(),
{
    if ids.len() > 0 {
        let d = ids.drop_last();
        lemma_batch_covers_named_ids(cases, d);
        lemma_first_index_of(cases, ids.last());
        let rest = job_cases(cases, d);
        let jc = job_cases(cases, ids);
        assert forall|j: int| 0 <= j < jc.len() implies exists|i: int|
            0 <= i < cases.len() && cases[i].id == (#[trigger] jc[j]).0 && cases[i].input@
                == jc[j].1 && opt_string_view(cases[i].expected) == jc[j].2 by {
            if j < rest.len() {
                assert(jc[j] == rest[j]);
            } else {
                let i = first_index_of(cases, ids.last()).unwrap();
                assert(cases[i].id == jc[j].0);
            }
        }
    }
}

/// Every case's id names a case.
proof fn lemma_all_ids_named(cases: Seq<Case>, k: int)
    requires
        0 <= k <= cases.len(),
    ensures
        named_count(cases, ids_of(cases.take(k))) == k,
    decreases k,
{
    if k > 0 {
        lemma_all_ids_named(cases, k - 1);
        assert(ids_of(cases.take(k)).drop_last() =~= ids_of(cases.take(k - 1)));
        assert(ids_of(cases.take(k)).last() == cases[k - 1].id);
        assert(has_id(cases, cases[k - 1].id));
    }
}

/// Running all cases of an open program, with a usable compiler and nothing
/// running yet, asks for a batch holding every case.
pub proof fn lemma_run_all_runs_every_case(
    pre: App,
    compiler_exists: bool,
    post: App,
    eff: Effect,
)
    requires
        !pre.busy,
        pre.cpp is Some,
        !pre.compiler@.contains(' ') || compiler_exists,
        pre.bank.cases@.len() > 0,
        pre.spawn_post(ids_of(pre.bank.cases@), compiler_exists, post, eff),
    ensures
        eff matches Effect::Run(job) && job.cases@.len() == pre.bank.cases@.len(),
        post.busy,
{
    let cases = pre.bank.cases@;
    lemma_all_ids_named(cases, cases.len() as int);
    assert(cases.take(cases.len() as int) =~= cases);
    lemma_batch_covers_named_ids(cases, ids_of(cases));
}

/// The lines of an editor field, written into a case, come back as the
/// pieces between its line breaks.
pub open spec fn holds_editor_lines(c: Case, input_lines: Seq<Seq<char>>, expected_lines: Seq<Seq<char>>) -> bool {
    &&& input_lines.len() > 0 ==> crate::text::split_nl(c.input@) == input_lines
    &&& c.expected matches Some(e) ==> crate::text::split_nl(e@) == expected_lines
}

/// Committing the editor writes the lines of its two text areas into the
/// case, one per line: splitting the stored stdin, and the stored expected
/// output where there is one, at their line breaks gives the editor's lines
/// back.
pub proof fn lemma_commit_keeps_editor_lines(
    pre: App,
    input_lines: Seq<Seq<char>>,
    expected_lines: Seq<Seq<char>>,
    post: App,
    eff: Effect,
)
    requires
        pre.edit is Some,
        crate::text::all_lack(input_lines, '\n'),
        crate::text::all_lack(expected_lines, '\n'),
        pre.commit_post(input_lines, expected_lines, post, eff),
    ensures
        pre.edit.unwrap().is_new ==> holds_editor_lines(
            post.bank.cases@.last(),
            input_lines,
            expected_lines,
        ),
        forall|j: int|
            #![trigger post.bank.cases@[j]]
            !pre.edit.unwrap().is_new && 0 <= j < pre.bank.cases@.len() && pre.edit.unwrap().id
                == Some(pre.bank.cases@[j].id) && (forall|k: int|
                0 <= k < j ==> pre.bank.cases@[k].id != pre.bank.cases@[j].id)
                ==> holds_editor_lines(post.bank.cases@[j], input_lines, expected_lines),
{
    if input_lines.len() > 0 {
        crate::text::lemma_split_join(input_lines);
    }
    if expected_lines.len() > 0 {
        crate::text::lemma_split_join(expected_lines);
    } else {
        assert(join_with(expected_lines, '\n') =~= Seq::<char>::empty());
        assert(trim_ws(Seq::<char>::empty()) =~= Seq::<char>::empty());
    }
    let cases = pre.bank.cases@;
    assert forall|j: int|
        #![trigger post.bank.cases@[j]]
        !pre.edit.unwrap().is_new && 0 <= j < cases.len() && pre.edit.unwrap().id == Some(
            cases[j].id,
        ) && (forall|k: int| 0 <= k < j ==> cases[k].id != cases[j].id) implies holds_editor_lines(
        post.bank.cases@[j],
        input_lines,
        expected_lines,
    ) by {
        let id = cases[j].id;
        lemma_first_index_of(cases, id);
        assert(has_id(cases, id));
        let i = first_index_of(cases, id).unwrap();
        if i < j {
            assert(cases[i].id == id);
        } else if j < i {
            assert(cases[j].id == id);
        }
        assert(i == j);
    }
}

/// A worker's report of a finished case puts its record on the first case
/// with that id, and leaves every other case as it was.
pub proof fn lemma_case_done_records_on_that_case(
    pre: App,
    id: u32,
    record: RunRecord,
    done: usize,
    total: usize,
    post: App,
    eff: Effect,
)
    requires
        pre.worker_post(WorkerEvent::CaseDone { id, record, done, total }, post, eff),
    ensures
        post.bank.cases@.len() == pre.bank.cases@.len(),
        forall|j: int|
            0 <= j < pre.bank.cases@.len() ==> #[trigger] post.bank.cases@[j] == (if pre.bank.cases@[j].id
                == id && (forall|k: int| 0 <= k < j ==> pre.bank.cases@[k].id != id) {
                Case { last: Some(record), ..pre.bank.cases@[j] }
            } else {
                pre.bank.cases@[j]
            }),
{
    let cases = pre.bank.cases@;
    lemma_first_index_of(cases, id);
    assert forall|j: int| 0 <= j < cases.len() implies #[trigger] post.bank.cases@[j] == (if cases[j].id
        == id && (forall|k: int| 0 <= k < j ==> cases[k].id != id) {
        Case { last: Some(record), ..cases[j] }
    } else {
        cases[j]
    }) by {
        match first_index_of(cases, id) {
            Some(i) => {
                if j < i {
                    assert(cases[j].id != id);
                } else if j > i {
                    assert(cases[i].id == id);
                    assert(!(forall|k: int| 0 <= k < j ==> cases[k].id != id));
                }
            },
            None => {
                if cases[j].id == id {
                    assert(has_id(cases, id));
                }
            },
        }
    }
}

} // verus!
