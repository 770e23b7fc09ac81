use flashboy::store::{Case, RunRecord, Verdict};
use flashboy::ui::{
    body_view, centered, detail_lines, diff_lines, inset, modal_height, Area, BodyView, DetailLine,
    Section,
};

#[test]
fn body_view_lists_lines() {
    assert!(matches!(body_view(""), BodyView::Empty));
    match body_view("a\nb\r\n") {
        BodyView::Lines { lines, truncated } => {
            assert_eq!(lines, vec!["a".to_string(), "b".to_string()]);
            assert!(!truncated);
        },
        other => panic!("unexpected {other:?}"),
    }
}

#[test]
fn body_view_truncates_after_limit() {
    let text: String = (0..250).map(|i| format!("{i}\n")).collect();
    match body_view(&text) {
        BodyView::Lines { lines, truncated } => {
            assert_eq!(lines.len(), 200);
            assert_eq!(lines[199], "199");
            assert!(truncated);
        },
        other => panic!("unexpected {other:?}"),
    }
}

#[test]
fn diff_lists_differing_lines() {
    let d = diff_lines("1\n2\n3\n", "1\n5\n3  \n4");
    assert_eq!(
        d,
        vec![("2".to_string(), "5".to_string()), ("".to_string(), "4".to_string())]
    );
    assert!(diff_lines("x \n\n", "x").is_empty());
}

#[test]
fn diff_compares_at_most_eighty_lines() {
    let a: String = (0..100).map(|i| format!("{i}\n")).collect();
    let d = diff_lines(&a, "");
    assert_eq!(d.len(), 80);
}

#[test]
fn centered_popup_geometry() {
    let area = Area { x: 0, y: 0, width: 100, height: 40 };
    let r = centered(area, 70, 18);
    assert_eq!(r, Area { x: 15, y: 11, width: 70, height: 18 });
    let tiny = centered(Area { x: 2, y: 1, width: 10, height: 5 }, 86, 82);
    assert_eq!(tiny, Area { x: 4, y: 2, width: 6, height: 3 });
    assert_eq!(inset(r), Area { x: 16, y: 12, width: 68, height: 16 });
    assert_eq!(inset(Area { x: 0, y: 0, width: 1, height: 0 }), Area { x: 1, y: 1, width: 0, height: 0 });
}

#[test]
fn modal_height_bounds() {
    assert_eq!(modal_height(3), 18);
    assert_eq!(modal_height(16), 20);
    assert_eq!(modal_height(100), 28);
}

#[test]
fn detail_lines_for_failed_case() {
    let case = Case {
        id: 3,
        name: "sum".to_string(),
        input: "2 3\n".to_string(),
        expected: Some("5\n".to_string()),
        last: Some(RunRecord {
            verdict: Verdict::Fail,
            duration_ns: 42,
            stdout: "6\n".to_string(),
            stderr: "warn".to_string(),
            exit_code: Some(0),
        }),
    };
    let ds = detail_lines(Some(&case));
    assert!(matches!(&ds[0], DetailLine::Title { name, id: 3 } if name == "sum"));
    assert!(matches!(ds[1], DetailLine::Outcome { verdict: Verdict::Fail, duration_ns: 42 }));
    assert!(matches!(ds[2], DetailLine::ExitCode(0)));
    assert!(matches!(ds[4], DetailLine::Heading(Section::Input)));
    assert!(matches!(ds[10], DetailLine::Heading(Section::Output)));
    assert!(matches!(ds[13], DetailLine::Heading(Section::Stderr)));
    assert!(matches!(ds[16], DetailLine::Heading(Section::Diff)));
    match &ds[17] {
        DetailLine::Diff(d) => assert_eq!(d, &vec![("5".to_string(), "6".to_string())]),
        other => panic!("unexpected {other:?}"),
    }
    assert_eq!(ds.len(), 18);
}

#[test]
fn detail_lines_without_selection_or_run() {
    let ds = detail_lines(None);
    assert_eq!(ds.len(), 1);
    assert!(matches!(ds[0], DetailLine::Placeholder));
    let case = Case { id: 1, name: "n".to_string(), input: String::new(), expected: None, last: None };
    let ds = detail_lines(Some(&case));
    assert!(matches!(ds[1], DetailLine::NotRun));
    assert!(matches!(ds[4], DetailLine::Body(BodyView::Empty)));
    assert!(matches!(ds[7], DetailLine::NoExpected));
    assert_eq!(ds.len(), 8);
}

#[test]
fn centered_popup_stays_inside() {
    for (w, h) in [(0u16, 0u16), (3, 2), (80, 24), (200, 60)] {
        let area = Area { x: 5, y: 7, width: w, height: h };
        let r = centered(area, 86, 82);
        assert!(r.x >= area.x && r.x + r.width <= area.x + area.width);
        assert!(r.y >= area.y && r.y + r.height <= area.y + area.height);
    }
}
