use flashboy::app::{
    tally, App, EditField, EditFocus, Effect, KeyKind, KeyPress, Resume, Screen, Status, Tally,
    WorkerEvent,
};
use flashboy::store::{Bank, RunRecord, Verdict};

fn key(kind: KeyKind) -> KeyPress {
    KeyPress { kind, ctrl: false }
}

fn ch(c: char) -> KeyPress {
    key(KeyKind::Char(c))
}

fn ctrl(c: char) -> KeyPress {
    KeyPress { kind: KeyKind::Char(c), ctrl: true }
}

fn files() -> Vec<String> {
    vec!["a.cpp".to_string(), "b.cpp".to_string(), "c.cpp".to_string()]
}

fn opened_app(n_cases: usize) -> App {
    let mut app = App::new(files(), "/usr/bin/g++".to_string());
    let mut bank = Bank::new("a.cpp");
    for i in 0..n_cases {
        bank.add(format!("case {}", i + 1), format!("{i}\n"), Some(format!("{i}\n")));
    }
    app.opened("/w/a.cpp".to_string(), "/w/a.cpp.fbk".to_string(), bank);
    app
}

fn record(verdict: Verdict) -> RunRecord {
    RunRecord { verdict, duration_ns: 5, stdout: String::new(), stderr: String::new(), exit_code: Some(0) }
}

#[test]
fn new_app_starts_on_picker() {
    let app = App::new(files(), "g++".to_string());
    assert_eq!(app.screen, Screen::Picker);
    assert_eq!(app.picker_sel, Some(0));
    assert_eq!(app.bank.source_name, "program.cpp");
    assert!(matches!(app.status, Status::Welcome));
    let empty = App::new(Vec::new(), "g++".to_string());
    assert_eq!(empty.picker_sel, None);
}

#[test]
fn picker_moves_wrap_around() {
    let mut app = App::new(files(), "g++".to_string());
    assert!(matches!(app.on_key(key(KeyKind::Up), true), Effect::Nothing));
    assert_eq!(app.picker_sel, Some(2));
    app.on_key(ch('j'), true);
    assert_eq!(app.picker_sel, Some(0));
    app.on_key(key(KeyKind::Down), true);
    assert_eq!(app.picker_sel, Some(1));
    match app.on_key(key(KeyKind::Enter), true) {
        Effect::Open(p) => assert_eq!(p, "b.cpp"),
        other => panic!("unexpected {other:?}"),
    }
}

#[test]
fn picker_quit_and_help() {
    let mut app = App::new(files(), "g++".to_string());
    app.on_key(ch('?'), true);
    assert_eq!(app.screen, Screen::Help);
    app.on_key(ch('x'), true);
    assert_eq!(app.screen, Screen::Picker);
    app.on_key(key(KeyKind::Esc), true);
    assert!(app.should_quit);
}

#[test]
fn opened_selects_first_case() {
    let app = opened_app(2);
    assert_eq!(app.screen, Screen::Main);
    assert_eq!(app.list_sel, Some(0));
    assert_eq!(app.selected_id(), Some(1));
    assert_eq!(app.selected_case().unwrap().name, "case 1");
    match &app.status {
        Status::Opened { cpp, n_cases } => {
            assert_eq!(cpp, "/w/a.cpp");
            assert_eq!(*n_cases, 2);
        },
        other => panic!("unexpected {other:?}"),
    }
    let empty = opened_app(0);
    assert_eq!(empty.list_sel, None);
}

#[test]
fn main_selection_wraps_and_scroll_saturates() {
    let mut app = opened_app(3);
    app.on_key(ch('k'), true);
    assert_eq!(app.list_sel, Some(2));
    app.on_key(ch('j'), true);
    assert_eq!(app.list_sel, Some(0));
    app.on_key(ch('K'), true);
    assert_eq!(app.detail_scroll, 0);
    app.on_key(ch('J'), true);
    app.on_key(ch('J'), true);
    assert_eq!(app.detail_scroll, 2);
    app.on_key(ch('j'), true);
    assert_eq!(app.detail_scroll, 0);
}

#[test]
fn new_case_through_editor() {
    let mut app = opened_app(1);
    match app.on_key(ch('n'), true) {
        Effect::Editor { input, expected } => {
            assert!(input.is_none());
            assert!(expected.is_none());
        },
        other => panic!("unexpected {other:?}"),
    }
    assert_eq!(app.screen, Screen::Edit);
    let draft = app.edit.as_ref().unwrap();
    assert_eq!(draft.name, "case 2");
    assert_eq!(draft.focus, EditFocus::Name);
    app.on_key(key(KeyKind::Backspace), true);
    app.on_key(ch('9'), true);
    app.on_key(ctrl('x'), true);
    assert_eq!(app.edit.as_ref().unwrap().name, "case 9");
    app.on_key(key(KeyKind::Tab), true);
    assert_eq!(app.edit.as_ref().unwrap().focus, EditFocus::Input);
    assert!(matches!(app.on_key(ch('1'), true), Effect::EditorKey(EditField::Input)));
    app.on_key(key(KeyKind::BackTab), true);
    app.on_key(key(KeyKind::BackTab), true);
    assert_eq!(app.edit.as_ref().unwrap().focus, EditFocus::Expected);
    assert!(matches!(app.on_key(ctrl('s'), true), Effect::Commit));
    let eff = app.commit_edit(
        vec!["1 2".to_string(), "".to_string()],
        vec!["  ".to_string()],
    );
    assert!(matches!(eff, Effect::Save));
    assert_eq!(app.resume, Resume::ToMain);
    assert!(app.edit.is_none());
    assert!(app.dirty);
    let c = &app.bank.cases[1];
    assert_eq!(c.id, 2);
    assert_eq!(c.name, "case 9");
    assert_eq!(c.input, "1 2\n");
    assert!(c.expected.is_none());
    assert_eq!(app.list_sel, Some(1));
    assert!(matches!(app.save_done(None), Effect::Nothing));
    assert_eq!(app.screen, Screen::Main);
    assert!(!app.dirty);
}

#[test]
fn editing_existing_case_prefills_lines() {
    let mut app = opened_app(1);
    match app.on_key(ch('e'), true) {
        Effect::Editor { input, expected } => {
            assert_eq!(input, Some(vec!["0".to_string()]));
            assert_eq!(expected, Some(vec!["0".to_string()]));
        },
        other => panic!("unexpected {other:?}"),
    }
    assert_eq!(app.edit.as_ref().unwrap().focus, EditFocus::Input);
    assert_eq!(app.edit.as_ref().unwrap().id, Some(1));
    app.bank.cases[0].last = Some(record(Verdict::Pass));
    app.edit.as_mut().unwrap().name = "   ".to_string();
    app.commit_edit(vec!["7".to_string()], vec!["8".to_string()]);
    let c = &app.bank.cases[0];
    assert_eq!(c.name, "untitled");
    assert_eq!(c.input, "7");
    assert_eq!(c.expected.as_deref(), Some("8"));
    assert!(c.last.is_none());
}

#[test]
fn esc_in_editor_discards() {
    let mut app = opened_app(1);
    app.on_key(ch('n'), true);
    app.on_key(key(KeyKind::Esc), true);
    assert!(app.edit.is_none());
    assert_eq!(app.screen, Screen::Main);
    assert_eq!(app.bank.cases.len(), 1);
}

#[test]
fn delete_confirmation_removes_and_reselects() {
    let mut app = opened_app(3);
    app.on_key(ch('k'), true);
    app.on_key(ch('d'), true);
    assert_eq!(app.screen, Screen::ConfirmDelete);
    assert!(matches!(app.on_key(ch('y'), true), Effect::Save));
    assert_eq!(app.bank.cases.len(), 2);
    assert_eq!(app.list_sel, Some(1));
    assert!(app.dirty);
    app.save_done(Some("disk full".to_string()));
    assert_eq!(app.message, "save failed: disk full");
    assert_eq!(app.screen, Screen::Main);
    assert!(app.dirty);
}

#[test]
fn delete_cancelled_keeps_case() {
    let mut app = opened_app(1);
    app.on_key(key(KeyKind::Delete), true);
    app.on_key(ch('n'), true);
    assert_eq!(app.screen, Screen::Main);
    assert_eq!(app.bank.cases.len(), 1);
}

#[test]
fn run_all_requests_a_batch() {
    let mut app = opened_app(2);
    match app.on_key(ch('R'), true) {
        Effect::Run(job) => {
            assert_eq!(job.cpp, "/w/a.cpp");
            assert_eq!(job.compiler, "/usr/bin/g++");
            assert_eq!(job.cases.len(), 2);
            assert_eq!(job.cases[1], (2, "1\n".to_string(), Some("1\n".to_string())));
        },
        other => panic!("unexpected {other:?}"),
    }
    assert!(app.busy);
    assert!(matches!(app.status, Status::Compiling));
    assert!(matches!(app.on_key(ch('r'), true), Effect::Nothing));
    app.on_key(ctrl('q'), true);
    assert!(app.should_quit);
}

#[test]
fn run_selected_runs_one_case() {
    let mut app = opened_app(2);
    app.on_key(ch('j'), true);
    match app.on_key(ch('r'), true) {
        Effect::Run(job) => assert_eq!(job.cases, vec![(2, "1\n".to_string(), Some("1\n".to_string()))]),
        other => panic!("unexpected {other:?}"),
    }
}

#[test]
fn run_all_without_cases_tells_so() {
    let mut app = opened_app(0);
    assert!(matches!(app.on_key(ch('a'), true), Effect::Nothing));
    assert_eq!(app.screen, Screen::Message);
    assert_eq!(app.message, "no test cases");
}

#[test]
fn unusable_compiler_is_reported() {
    let mut app = App::new(files(), "Homebrew g++-12 not found".to_string());
    app.opened("/w/a.cpp".to_string(), "/w/a.cpp.fbk".to_string(), {
        let mut b = Bank::new("a.cpp");
        b.add("x".into(), "".into(), None);
        b
    });
    assert!(matches!(app.on_key(ch('r'), false), Effect::Nothing));
    assert_eq!(app.screen, Screen::Message);
    assert_eq!(app.message, "Homebrew g++-12 not found");
    assert!(!app.busy);
}

#[test]
fn worker_reports_update_state() {
    let mut app = opened_app(2);
    app.on_key(ch('R'), true);
    app.on_worker_event(WorkerEvent::CompileOk { duration_ns: 10, total: 2 });
    assert!(matches!(app.status, Status::Compiled { duration_ns: 10, total: 2 }));
    app.on_worker_event(WorkerEvent::CaseDone { id: 1, record: record(Verdict::Pass), done: 1, total: 2 });
    app.on_worker_event(WorkerEvent::CaseDone { id: 2, record: record(Verdict::Tle), done: 2, total: 2 });
    assert!(matches!(app.status, Status::Running { done: 2, total: 2 }));
    assert!(app.dirty);
    assert!(matches!(app.on_worker_event(WorkerEvent::BatchDone), Effect::Save));
    assert!(!app.busy);
    app.save_done(None);
    match app.status {
        Status::Done(t) => assert_eq!(t, Tally { ac: 1, wa: 0, tle: 1, re: 0, ok: 0 }),
        ref other => panic!("unexpected {other:?}"),
    }
}

#[test]
fn compile_failure_is_shown() {
    let mut app = opened_app(1);
    app.on_key(ch('r'), true);
    app.on_worker_event(WorkerEvent::CompileFail("a.cpp:1: error".to_string()));
    assert!(!app.busy);
    assert_eq!(app.screen, Screen::Message);
    assert_eq!(app.message, "compile error\n\na.cpp:1: error");
}

#[test]
fn quit_saves_dirty_bank_first() {
    let mut app = opened_app(1);
    app.dirty = true;
    assert!(matches!(app.on_key(ch('q'), true), Effect::Save));
    assert!(!app.should_quit);
    app.save_done(None);
    assert!(app.should_quit);
}

#[test]
fn esc_goes_back_to_picker_and_rescans() {
    let mut app = opened_app(1);
    assert!(matches!(app.on_key(key(KeyKind::Esc), true), Effect::Rescan));
    assert_eq!(app.screen, Screen::Picker);
    assert!(app.cpp.is_none());
    app.set_cpp_files(vec!["z.cpp".to_string()]);
    assert_eq!(app.cpp_files, vec!["z.cpp".to_string()]);
}

#[test]
fn ctrl_s_saves_without_bank_file_does_nothing() {
    let mut app = App::new(files(), "g++".to_string());
    app.screen = Screen::Main;
    assert!(matches!(app.on_key(ctrl('s'), true), Effect::Nothing));
    let mut opened = opened_app(1);
    assert!(matches!(opened.on_key(ctrl('s'), true), Effect::Save));
}

#[test]
fn tally_counts_each_verdict() {
    let mut bank = Bank::new("t.cpp");
    for v in [Verdict::Pass, Verdict::Fail, Verdict::Fail, Verdict::Runtime, Verdict::Ran] {
        let id = bank.add("c".into(), "".into(), None);
        bank.get_mut(id).unwrap().last = Some(record(v));
    }
    bank.add("never".into(), "".into(), None);
    assert_eq!(tally(&bank), Tally { ac: 1, wa: 2, tle: 0, re: 1, ok: 1 });
}

#[test]
fn toast_then_any_key_returns() {
    let mut app = opened_app(1);
    app.toast("hello".to_string());
    assert_eq!(app.screen, Screen::Message);
    app.on_key(ch('z'), true);
    assert_eq!(app.screen, Screen::Main);
}

#[test]
fn persist_requests_save_only_with_bank_file() {
    let mut app = opened_app(1);
    app.dirty = true;
    assert!(matches!(app.persist(), Effect::Save));
    assert!(matches!(app.save_done(None), Effect::Nothing));
    assert!(!app.dirty);
    let mut fresh = App::new(files(), "g++".to_string());
    assert!(matches!(fresh.persist(), Effect::Nothing));
}

#[test]
fn committed_new_case_is_selected() {
    let mut app = opened_app(4);
    app.on_key(ch('n'), true);
    app.commit_edit(vec!["x".to_string()], vec!["y".to_string()]);
    assert_eq!(app.list_sel, Some(4));
    assert_eq!(app.bank.cases[4].expected.as_deref(), Some("y"));
    assert_eq!(app.bank.cases[4].name, "case 5");
}

#[test]
fn confirmed_delete_leaves_no_case_with_that_id() {
    let mut app = opened_app(2);
    let id = app.selected_id().unwrap();
    app.on_key(ch('d'), true);
    app.on_key(ch('Y'), true);
    assert_eq!(app.bank.index_of(id), None);
    assert_eq!(app.list_sel, Some(0));
}

#[test]
fn tab_cycles_focus_and_backtab_undoes_it() {
    let mut app = opened_app(1);
    app.on_key(ch('n'), true);
    let start = app.edit.as_ref().unwrap().focus;
    app.on_key(key(KeyKind::Tab), true);
    app.on_key(key(KeyKind::BackTab), true);
    assert_eq!(app.edit.as_ref().unwrap().focus, start);
    for _ in 0..3 {
        app.on_key(key(KeyKind::Tab), true);
    }
    assert_eq!(app.edit.as_ref().unwrap().focus, start);
    assert_eq!(app.edit.as_ref().unwrap().name, "case 2");
    assert_eq!(app.screen, Screen::Edit);
}
