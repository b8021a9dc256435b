use golfsetridak::cli::{parse_command, Command};
use golfsetridak::content::{news_items, parse};
use golfsetridak::mime::for_path;
use golfsetridak::shop::{format_isk, slugify};

#[test]
fn parses_quoted_and_plain_frontmatter() {
    let doc = parse("---\ntitle: \"Hello\"\ndate: 2026-01-02\n---\n\nBody text.\n");
    assert_eq!(doc.get("title"), Some("Hello"));
    assert_eq!(doc.get("date"), Some("2026-01-02"));
    assert_eq!(doc.body.trim(), "Body text.");
}

#[test]
fn no_frontmatter_keeps_whole_body() {
    let doc = parse("# Just markdown\n\nNo fence here.");
    assert!(doc.meta.is_empty());
    assert!(doc.body.contains("Just markdown"));
}

#[test]
fn unterminated_fence_is_treated_as_body() {
    let doc = parse("---\ntitle: x\nnever closed");
    assert!(doc.meta.is_empty());
    assert!(doc.body.starts_with("---"));
}

#[test]
fn value_with_colon_keeps_remainder() {
    let doc = parse("---\nlead: A: B and C\n---\nx");
    assert_eq!(doc.get("lead"), Some("A: B and C"));
}

#[test]
fn news_listing_is_newest_first_with_defaults() {
    let files = vec![
        ("old".to_string(), "---\ntitle: Old\ndate: 2025-01-01\n---\nx".to_string()),
        ("new".to_string(), "---\ndate: 2026-03-01\nsummary: S\n---\ny".to_string()),
    ];
    let items = news_items(&files);
    assert_eq!(items.len(), 2);
    assert_eq!(items[0].slug, "new");
    assert_eq!(items[0].title, "new");
    assert_eq!(items[0].summary, "S");
    assert_eq!(items[1].title, "Old");
    assert_eq!(items[1].summary, "");
}

#[test]
fn maps_common_types() {
    assert_eq!(for_path("/index.html"), "text/html; charset=utf-8");
    assert_eq!(for_path("/app.js"), "text/javascript; charset=utf-8");
    assert_eq!(for_path("/styles.css"), "text/css; charset=utf-8");
    assert_eq!(for_path("/logo.svg"), "image/svg+xml");
}

#[test]
fn unknown_is_octet_stream() {
    assert_eq!(for_path("/file.unknownext"), "application/octet-stream");
    assert_eq!(for_path("/noext"), "application/octet-stream");
}

#[test]
fn mime_extension_is_case_insensitive() {
    assert_eq!(for_path("/A.PNG"), "image/png");
}

#[test]
fn isk_amounts_group_thousands() {
    assert_eq!(format_isk(0), "0 kr");
    assert_eq!(format_isk(3500), "3.500 kr");
    assert_eq!(format_isk(1234567), "1.234.567 kr");
    assert_eq!(format_isk(-1500), "-1.500 kr");
    assert_eq!(format_isk(1005), "1.005 kr");
}

#[test]
fn slugs_are_lowercase_dashed() {
    assert_eq!(slugify("Golfboltar Pro 3"), "golfboltar-pro-3");
}

fn args(a: &[&str]) -> Vec<String> {
    a.iter().map(|s| s.to_string()).collect()
}

#[test]
fn command_line_is_parsed() {
    assert!(matches!(parse_command(&args(&["--version"])), Ok(Command::Version)));
    assert!(matches!(parse_command(&args(&["help"])), Ok(Command::Help)));
    match parse_command(&args(&["serve", "--port", "8080", "--dir", "site"])) {
        Ok(Command::Serve(cfg)) => {
            assert_eq!(cfg.port, 8080);
            assert_eq!(cfg.dir, "site");
        }
        _ => panic!("expected serve"),
    }
    match parse_command(&args(&["seed-demo", "--slots", "5"])) {
        Ok(Command::SeedDemo { dir, slots }) => {
            assert_eq!(dir, "frontend");
            assert_eq!(slots, 5);
        }
        _ => panic!("expected seed-demo"),
    }
    assert_eq!(parse_command(&args(&["--port", "99999"])).unwrap_err(), "invalid --port");
    assert!(parse_command(&args(&["--bogus"])).is_err());
}

#[test]
fn slugs_are_their_own_slugs() {
    for text in ["Golfsetrið Akureyri", "  Þórður & Ævar -- 2025 ", "ÁÉÍÓÚÝÞÆÖ", "---", "a--b", "Hello, World!"] {
        let once = slugify(text);
        assert_eq!(slugify(&once), once);
    }
    assert_eq!(slugify("  Þórður & Ævar -- 2025 "), "thordur-aevar-2025");
}

#[test]
fn slugs_have_the_slug_shape() {
    assert_eq!(slugify("  Þórður Jónsson! "), "thordur-jonsson");
    for text in ["  Þórður Jónsson! ", "--a--b--", "Ævintýri í 3 daga?", "", "!!!", "x"] {
        let s = slugify(text);
        assert!(s.chars().all(|c| c.is_ascii_lowercase() || c.is_ascii_digit() || c == '-'));
        assert!(!s.starts_with('-') && !s.ends_with('-') && !s.contains("--"));
    }
}
