use rbxmonet::diffs::{
    render_diff_lines, DiffChange, DiffViewer, KeyCode, KeyInput, LineTone, ProductDiff, ProductDiffs,
};
use rbxmonet::products::ProductType;

fn press(code: KeyCode) -> KeyInput {
    KeyInput { code, shift: false, press: true }
}

fn ch(c: char) -> KeyInput {
    press(KeyCode::Char(c))
}

fn diffs(name: &str, id: u64) -> ProductDiffs {
    ProductDiffs {
        name: name.to_string(),
        id,
        diffs: vec![
            DiffChange::Changed(ProductDiff::Title("Old".to_string(), name.to_string())),
            DiffChange::Unchanged(ProductDiff::Price(10, 10)),
        ],
    }
}

fn viewer() -> DiffViewer {
    DiffViewer::new().with_diffs(vec![
        (ProductType::Badge, diffs("B", 9)),
        (ProductType::DevProduct, diffs("D", 4)),
        (ProductType::Pass, diffs("P", 1)),
    ])
}

#[test]
fn new_viewer_is_empty() {
    let v = DiffViewer::new();
    assert!(v.get_confs().is_empty());
    assert_eq!(v.selected(), 0);
    assert!(!v.should_quit());
    assert!(v.open_diff().is_none());
    assert!(v.list_lines().is_empty());
}

#[test]
fn marking_toggles() {
    let mut v = viewer();
    v.handle_key(ch('c'));
    assert_eq!(v.get_confs(), &vec![(ProductType::Badge, 9)]);
    v.handle_key(press(KeyCode::Down));
    v.handle_key(ch('c'));
    assert_eq!(v.get_confs(), &vec![(ProductType::Badge, 9), (ProductType::DevProduct, 4)]);
    v.handle_key(ch('c'));
    assert_eq!(v.get_confs(), &vec![(ProductType::Badge, 9)]);
    v.handle_key(press(KeyCode::Up));
    v.handle_key(ch('c'));
    assert!(v.get_confs().is_empty());
}

#[test]
fn mark_all_toggles() {
    let mut v = viewer();
    v.handle_key(ch('C'));
    assert_eq!(
        v.get_confs(),
        &vec![(ProductType::Badge, 9), (ProductType::DevProduct, 4), (ProductType::Pass, 1)]
    );
    v.handle_key(ch('C'));
    assert!(v.get_confs().is_empty());
}

#[test]
fn navigation_wraps() {
    let mut v = viewer();
    v.handle_key(press(KeyCode::Up));
    assert_eq!(v.selected(), 2);
    v.handle_key(press(KeyCode::Down));
    assert_eq!(v.selected(), 0);
    v.handle_key(press(KeyCode::Down));
    v.handle_key(press(KeyCode::Up));
    assert_eq!(v.selected(), 0);
    let release = KeyInput { code: KeyCode::Down, shift: false, press: false };
    v.handle_key(release);
    assert_eq!(v.selected(), 0);
}

#[test]
fn detail_view_and_quit() {
    let mut v = viewer();
    v.handle_key(press(KeyCode::Down));
    v.handle_key(press(KeyCode::Enter));
    let open = v.open_diff().unwrap();
    assert_eq!(open.0, ProductType::DevProduct);
    assert_eq!(open.1.id, 4);
    v.handle_key(ch('q'));
    assert!(v.open_diff().is_none());
    assert!(!v.should_quit());
    v.handle_key(ch('q'));
    assert!(v.should_quit());
}

#[test]
fn shift_q_quits_from_the_detail_view() {
    let mut v = viewer();
    v.handle_key(press(KeyCode::Enter));
    v.handle_key(KeyInput { code: KeyCode::Char('Q'), shift: true, press: true });
    assert!(v.should_quit());
}

#[test]
fn list_lines_mark_unconfirmed_items() {
    let mut v = viewer();
    v.handle_key(ch('c'));
    let lines = v.list_lines();
    assert_eq!(lines[0], (" Badge: B (ID: 9)".to_string(), true));
    assert_eq!(lines[1], ("* DevProduct: D (ID: 4)".to_string(), false));
    assert_eq!(lines[2], ("* Pass: P (ID: 1)".to_string(), false));
}

#[test]
fn detail_columns() {
    let d = ProductDiffs {
        name: "X".to_string(),
        id: 1,
        diffs: vec![
            DiffChange::Changed(ProductDiff::Title("Old".to_string(), "New".to_string())),
            DiffChange::Unchanged(ProductDiff::Active(true, true)),
            DiffChange::Unchanged(ProductDiff::Prefix("a".to_string(), "b".to_string())),
            DiffChange::Created(ProductDiff::Price(0, 25)),
            DiffChange::Changed(ProductDiff::Icon("<unset>".to_string(), "abcdef01".to_string())),
        ],
    };
    let (left, right) = render_diff_lines(&d);
    let l: Vec<(&str, LineTone)> = left.iter().map(|s| (s.text.as_str(), s.tone)).collect();
    let r: Vec<(&str, LineTone)> = right.iter().map(|s| (s.text.as_str(), s.tone)).collect();
    assert_eq!(
        l,
        vec![
            ("- Title: Old", LineTone::Removed),
            ("  Active: true", LineTone::Plain),
            ("- Icon: <unset>", LineTone::Removed),
        ]
    );
    assert_eq!(
        r,
        vec![
            ("+ Title: New", LineTone::Added),
            ("  Active: true", LineTone::Plain),
            ("+ Price: 25", LineTone::Added),
            ("+ Icon: abcdef01", LineTone::Added),
        ]
    );
}

#[test]
fn marks_stay_among_the_listed_diffs() {
    let mut v = viewer();
    let listed = vec![(ProductType::Badge, 9), (ProductType::DevProduct, 4), (ProductType::Pass, 1)];
    let keys = [ch('C'), ch('c'), press(KeyCode::Down), ch('c'), ch('c'), press(KeyCode::Up), ch('C'), ch('C')];
    for k in keys {
        v.handle_key(k);
        let confs = v.get_confs();
        assert!(confs.iter().all(|m| listed.contains(m)));
        for (i, a) in confs.iter().enumerate() {
            assert!(!confs[i + 1..].contains(a));
        }
    }
}
