use url_md::text::{count_words, is_cjk, reading_time_minutes, strip_code_blocks};

#[test]
fn counts_pure_cjk() {
    assert_eq!(count_words("你好世界"), 4);
    assert_eq!(count_words("认知科学,从「行动之环」出发"), 11);
}

#[test]
fn counts_pure_ascii() {
    assert_eq!(count_words("hello world"), 2);
    assert_eq!(count_words("one two three four five"), 5);
}

#[test]
fn counts_mixed() {
    assert_eq!(count_words("AI 时代来了"), 1 + 4);
}

#[test]
fn ignores_fenced_code_block() {
    let md = "hello\n```rust\nfn main() {}\n```\nworld";
    assert_eq!(count_words(md), 2);
}

#[test]
fn reading_time_boundaries() {
    assert_eq!(reading_time_minutes(0), 0);
    assert_eq!(reading_time_minutes(1), 1);
    assert_eq!(reading_time_minutes(300), 1);
    assert_eq!(reading_time_minutes(301), 2);
    assert_eq!(reading_time_minutes(900), 3);
}

#[test]
fn counts_empty_and_whitespace_only() {
    assert_eq!(count_words(""), 0);
    assert_eq!(count_words("  \n\t "), 0);
}

#[test]
fn words_are_whitespace_separated_pieces() {
    assert_eq!(count_words("a-b c.d"), 2);
    assert_eq!(count_words("..."), 0);
    assert_eq!(count_words("v2 rc1"), 2);
    assert_eq!(count_words("don't stop"), 2);
    assert_eq!(count_words("hello, world! -- ok"), 3);
}

#[test]
fn front_matter_is_not_counted() {
    assert_eq!(count_words("---\ntitle: Hello\n---\nworld"), 1);
    assert_eq!(count_words("---\ntitle: 你好\nauthor: A\n---\n\n一二 three"), 3);
    // without a closing line there is no front matter
    assert_eq!(count_words("---\nx y"), 2);
    // a rule later in the text is not front matter
    assert_eq!(count_words("a\n---\nb\n---\nc"), 3);
}

#[test]
fn cjk_ranges() {
    assert!(is_cjk('中'));
    assert!(is_cjk('\u{3400}'));
    assert!(is_cjk('あ'));
    assert!(is_cjk('カ'));
    assert!(is_cjk('한'));
    assert!(!is_cjk('\u{20000}'));
    assert!(!is_cjk('a'));
    assert!(!is_cjk('「'));
}

#[test]
fn unterminated_fence_drops_the_rest() {
    let md = "before\n```\ncode line one\ncode line two";
    assert_eq!(count_words(md), 1);
}

#[test]
fn strip_code_blocks_keeps_outside_lines() {
    let body: Vec<char> = "a\n```\nx\n```\nb".chars().collect();
    let out: String = strip_code_blocks(&body).into_iter().collect();
    assert!(out.contains('a'));
    assert!(out.contains('b'));
    assert!(!out.contains('x'));
}

#[test]
fn reading_time_is_the_ceiling_of_words_over_300() {
    assert_eq!(reading_time_minutes(599), 2);
    assert_eq!(reading_time_minutes(600), 2);
    assert_eq!(reading_time_minutes(601), 3);
}

#[test]
fn reading_time_never_decreases() {
    let mut last = 0;
    for w in [0usize, 1, 299, 300, 301, 600, 601, 10_000] {
        let m = reading_time_minutes(w);
        assert!(m >= last);
        last = m;
    }
}

#[test]
fn counts_add_up_across_a_separator() {
    assert_eq!(count_words("hello ") + count_words("world 世界"), count_words("hello world 世界"));
    assert_eq!(count_words("中文") + count_words("abc"), count_words("中文abc"));
}

#[test]
fn a_fenced_block_counts_nothing() {
    assert_eq!(count_words("a\n```\nx y z\n```\nb"), count_words("a\nb"));
    assert_eq!(count_words("a\n  ```js\n中文\n```\nb"), 2);
}

#[test]
fn counts_add_up_over_a_line_break() {
    let a = "hello world";
    let b = "don't 中文";
    assert_eq!(count_words(&format!("{a}\n{b}")), count_words(a) + count_words(b));
    let c = "line one\r\nline two\r";
    assert_eq!(count_words(&format!("{c}\n{b}")), count_words(c) + count_words(b));
}
