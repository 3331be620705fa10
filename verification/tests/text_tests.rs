use signal_hive::models::ScanParams;
use signal_hive::text::{push_decimal, push_plus_signed, push_signed, push_tenths_fixed, push_tenths_plus, push_tenths_short, to_ascii_lowercase};

fn render(f: impl Fn(&mut Vec<char>)) -> String {
    let mut out = Vec::new();
    f(&mut out);
    out.into_iter().collect()
}

#[test]
fn integers_render_like_format() {
    assert_eq!(render(|o| push_decimal(o, 0)), "0");
    assert_eq!(render(|o| push_decimal(o, 1234567890)), "1234567890");
    assert_eq!(render(|o| push_signed(o, -42)), "-42");
    assert_eq!(render(|o| push_signed(o, i64::MIN)), i64::MIN.to_string());
    assert_eq!(render(|o| push_plus_signed(o, 0)), "+0");
    assert_eq!(render(|o| push_plus_signed(o, -3)), "-3");
}

#[test]
fn tenths_render_like_float_formatting() {
    for t in [-1234i64, -55, -5, 0, 5, 10, 98, 1000, 12345] {
        let x = t as f64 / 10.0;
        assert_eq!(render(|o| push_tenths_fixed(o, t)), format!("{:.1}", x));
        assert_eq!(render(|o| push_tenths_short(o, t)), format!("{}", x));
        assert_eq!(render(|o| push_tenths_plus(o, t)), format!("{:+}", x));
    }
}

#[test]
fn ascii_lowercase_leaves_other_characters() {
    assert_eq!(to_ascii_lowercase("PatchHive/ÄBC"), "patchhive/Äbc");
}

#[test]
fn default_parameters() {
    let p = ScanParams::default();
    assert_eq!(p.languages, vec!["rust".to_string()]);
    assert_eq!((p.min_stars, p.max_repos, p.issues_per_repo, p.stale_days), (25, 8, 30, 45));
    assert!(p.search_query.is_empty() && p.topics.is_empty());
}
