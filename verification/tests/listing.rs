use boon_data::listing::{
    count_keys, display_limit, key_equal, key_less, order_by_tick, select_rows, summarize,
    text_less, tick_window, within_bounds, KeyPart, RowKey, SummaryOrder,
};

fn row(tick: i32, labels: &[&str]) -> RowKey {
    RowKey { tick, labels: labels.iter().map(|s| s.to_string()).collect() }
}

fn num(n: i64) -> Vec<KeyPart> {
    vec![KeyPart::Number(n)]
}

fn hero_ability(h: i64, a: &str) -> Vec<KeyPart> {
    vec![KeyPart::Number(h), KeyPart::Text(a.to_string())]
}

#[test]
fn rows_filter_by_label_and_tick() {
    let rows = vec![
        row(10, &["modifier_Bebop_Hook", "ability_hook"]),
        row(20, &["modifier_haze", "ability_dagger"]),
        row(30, &["HOOK_shot"]),
    ];
    assert_eq!(select_rows(&rows, Some("hook"), true, None, None), vec![0, 2]);
    assert_eq!(select_rows(&rows, Some("hook"), false, None, None), vec![0]);
    assert_eq!(select_rows(&rows, None, false, Some(15), None), vec![1, 2]);
    assert_eq!(select_rows(&rows, None, false, Some(15), Some(25)), vec![1]);
    assert_eq!(select_rows(&rows, Some("hook"), true, None, Some(20)), vec![0]);
    assert_eq!(select_rows(&rows, Some(""), false, None, None), vec![0, 1, 2]);
}

#[test]
fn summary_counts_descending_then_by_key() {
    let keys = vec![
        hero_ability(2, "b"),
        hero_ability(1, "a"),
        hero_ability(2, "b"),
        hero_ability(1, "c"),
        hero_ability(1, "a"),
        hero_ability(3, "a"),
    ];
    let groups = summarize(keys, SummaryOrder::CountDescending);
    let got: Vec<(Vec<KeyPart>, usize)> = groups.into_iter().map(|g| (g.key, g.count)).collect();
    assert_eq!(
        got,
        vec![
            (hero_ability(1, "a"), 2),
            (hero_ability(2, "b"), 2),
            (hero_ability(1, "c"), 1),
            (hero_ability(3, "a"), 1),
        ]
    );
}

#[test]
fn summary_by_key() {
    let keys = vec![num(5), num(-1), num(5), num(3)];
    let groups = summarize(keys, SummaryOrder::KeyAscending);
    let got: Vec<(Vec<KeyPart>, usize)> = groups.into_iter().map(|g| (g.key, g.count)).collect();
    assert_eq!(got, vec![(num(-1), 1), (num(3), 1), (num(5), 2)]);
    assert!(summarize(Vec::new(), SummaryOrder::KeyAscending).is_empty());
}

#[test]
fn counting_keeps_first_seen_order() {
    let groups = count_keys(vec![num(2), num(1), num(2)]);
    let got: Vec<(Vec<KeyPart>, usize)> = groups.into_iter().map(|g| (g.key, g.count)).collect();
    assert_eq!(got.len(), 2);
    assert!(got.contains(&(num(2), 2)));
    assert!(got.contains(&(num(1), 1)));
}

#[test]
fn key_order() {
    assert!(text_less("abc", "abd"));
    assert!(text_less("ab", "abc"));
    assert!(!text_less("abc", "abc"));
    assert!(text_less("B", "a"));
    assert!(key_less(&num(1), &num(2)));
    assert!(key_less(&hero_ability(1, "z"), &hero_ability(2, "a")));
    assert!(key_less(&hero_ability(1, "a"), &hero_ability(1, "b")));
    assert!(key_less(&num(1), &hero_ability(1, "a")));
    assert!(key_equal(&hero_ability(4, "x"), &hero_ability(4, "x")));
    assert!(!key_equal(&hero_ability(4, "x"), &hero_ability(4, "y")));
}

#[test]
fn limits_and_windows() {
    assert_eq!(display_limit(None, 12), (12, false));
    assert_eq!(display_limit(Some(5), 12), (5, true));
    assert_eq!(display_limit(Some(20), 12), (12, false));
    assert_eq!(tick_window(Some(7), Some(1), Some(9)), (Some(7), Some(7)));
    assert_eq!(tick_window(None, Some(1), None), (Some(1), None));
}

#[test]
fn rows_order_by_tick_stably() {
    assert_eq!(order_by_tick(&vec![30, 10, 30, 20, 10]), vec![1, 4, 3, 0, 2]);
    assert!(order_by_tick(&Vec::new()).is_empty());
}

#[test]
fn bounds_are_inclusive_and_optional() {
    assert!(within_bounds(5, None, None));
    assert!(within_bounds(5, Some(5), Some(5)));
    assert!(!within_bounds(4, Some(5), None));
    assert!(!within_bounds(6, None, Some(5)));
}

#[test]
fn case_folding_is_unicode_lowercase() {
    let rows = vec![row(1, &["ÉCLAIR_Shot"]), row(2, &["eclair"])];
    assert_eq!(select_rows(&rows, Some("éclair"), true, None, None), vec![0]);
    assert_eq!(select_rows(&rows, Some("ÉCLAIR"), false, None, None), vec![0]);
    assert!(select_rows(&rows, Some("éclair"), false, None, None).is_empty());
}
