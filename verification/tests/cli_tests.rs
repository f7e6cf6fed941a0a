use url_md::cli::{desugar_args, is_known_subcommand, looks_like_url};

fn argv(items: &[&str]) -> Vec<String> {
    items.iter().map(|s| s.to_string()).collect()
}

#[test]
fn looks_like_url_accepts_http() {
    assert!(looks_like_url("https://example.com"));
    assert!(looks_like_url("http://a.b"));
}

#[test]
fn looks_like_url_rejects_others() {
    assert!(!looks_like_url("md"));
    assert!(!looks_like_url("/path/file"));
    assert!(!looks_like_url("example.com"));
}

#[test]
fn known_subcommands() {
    for s in ["md", "serve", "help", "-h", "--help", "-V", "--version"] {
        assert!(is_known_subcommand(s), "{s}");
    }
    assert!(!is_known_subcommand("https://example.com"));
    assert!(!is_known_subcommand("--quiet"));
}

#[test]
fn desugar_inserts_md_before_a_bare_url() {
    assert_eq!(
        desugar_args(argv(&["url-md", "https://example.com"])),
        argv(&["url-md", "md", "https://example.com"])
    );
}

#[test]
fn desugar_inserts_md_before_leading_flags() {
    assert_eq!(
        desugar_args(argv(&["url-md", "--quiet", "https://example.com"])),
        argv(&["url-md", "md", "--quiet", "https://example.com"])
    );
}

#[test]
fn desugar_leaves_explicit_subcommands() {
    let a = argv(&["url-md", "md", "https://example.com"]);
    assert_eq!(desugar_args(a.clone()), a);
    let s = argv(&["url-md", "serve", "--mcp"]);
    assert_eq!(desugar_args(s.clone()), s);
}

#[test]
fn desugar_leaves_argument_lists_without_url() {
    let a = argv(&["url-md"]);
    assert_eq!(desugar_args(a.clone()), a);
    let b = argv(&["url-md", "--version"]);
    assert_eq!(desugar_args(b.clone()), b);
    let c = argv(&["url-md", "example.com"]);
    assert_eq!(desugar_args(c.clone()), c);
}

#[test]
fn desugar_twice_is_desugar_once() {
    let once = desugar_args(argv(&["url-md", "https://example.com", "-o", "out"]));
    assert_eq!(desugar_args(once.clone()), once);
}

#[test]
fn desugar_only_inserts_md() {
    let input = argv(&["url-md", "--timeout", "5", "https://e.com"]);
    let mut out = desugar_args(input.clone());
    assert_eq!(out.len(), input.len() + 1);
    assert_eq!(out.remove(1), "md");
    assert_eq!(out, input);
}
