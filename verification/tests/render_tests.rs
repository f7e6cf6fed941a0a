use url_md::adapter::{FmValue, MarkdownDoc};
use url_md::strmap::StrMap;

#[test]
fn render_with_frontmatter_starts_with_triple_dash() {
    let mut fm = StrMap::new();
    fm.insert("title".to_string(), FmValue::Str("Hello".into()));
    let doc = MarkdownDoc { frontmatter: fm, body: "# Body\n".to_string() };
    let out = doc.render();
    assert!(out.starts_with("---\n"), "got: {out}");
    assert!(out.contains("title: Hello"));
    assert!(out.contains("# Body"));
}

#[test]
fn render_without_frontmatter_skips_dashes() {
    let doc = MarkdownDoc { frontmatter: StrMap::new(), body: "plain body".to_string() };
    let out = doc.render();
    assert!(!out.starts_with("---"), "got: {out}");
    assert!(out.starts_with("plain body"));
}

#[test]
fn render_ends_with_newline() {
    let doc = MarkdownDoc { frontmatter: StrMap::new(), body: "no trailing newline".to_string() };
    assert!(doc.render().ends_with('\n'));
}

#[test]
fn render_exact_layout() {
    let mut fm = StrMap::new();
    fm.insert("title".to_string(), FmValue::Str("Hello".into()));
    fm.insert("word_count".to_string(), FmValue::Num(12));
    let doc = MarkdownDoc { frontmatter: fm, body: "text".to_string() };
    assert_eq!(doc.render(), "---\ntitle: Hello\nword_count: 12\n---\n\ntext\n");
    let plain = MarkdownDoc { frontmatter: StrMap::new(), body: "done\n".to_string() };
    assert_eq!(plain.render(), "done\n");
}

#[test]
fn strmap_insert_replaces_and_keeps_order() {
    let mut m: StrMap<FmValue> = StrMap::new();
    assert!(m.is_empty());
    m.insert("b".to_string(), FmValue::Num(1));
    m.insert("a".to_string(), FmValue::Num(2));
    m.insert("b".to_string(), FmValue::Num(3));
    assert_eq!(m.len(), 2);
    assert!(m.contains_key("a"));
    assert!(!m.contains_key("c"));
    assert!(matches!(m.get("b"), Some(FmValue::Num(3))));
}

#[test]
fn strmap_keeps_keys_in_ascending_order() {
    let mut m: StrMap<FmValue> = StrMap::new();
    for k in ["title", "Z", "a", "ab", "", "é", "word_count", "a"] {
        m.insert(k.to_string(), FmValue::Num(0));
    }
    let keys: Vec<&str> = m.entries().iter().map(|(k, _)| k.as_str()).collect();
    assert_eq!(keys, vec!["", "Z", "a", "ab", "title", "word_count", "é"]);
}
