use kew::book::capture::capture;
use kew::book::Context;

const SOURCE: &str = "fn main() {\n    capture(true);\n\n    let x = 1;\n    if x > 0 {\n        y();\n    }\n\n    capture(false);\n}\n";

#[test]
fn captured_lines_lose_their_indentation() {
    let mut ctx = Context::new("d");
    capture(&mut ctx, true, "src/main.rs", 2, "");
    assert_eq!(ctx.capture_start(), Some(("src/main.rs", 2)));
    // a second opening keeps the first
    capture(&mut ctx, true, "src/main.rs", 3, "");
    assert_eq!(ctx.capture_start(), Some(("src/main.rs", 2)));
    assert!(ctx.can_close_capture("src/main.rs", 9, SOURCE));
    capture(&mut ctx, false, "src/main.rs", 9, SOURCE);
    assert_eq!(ctx.markdown(), "\n```rust\nlet x = 1;\nif x > 0 {\n    y();\n}\n```\n\n");
    assert_eq!(ctx.capture_start(), None);
}

#[test]
fn captures_that_cannot_close() {
    let mut ctx = Context::new("d");
    assert!(!ctx.can_close_capture("a.rs", 5, SOURCE));
    ctx.enable_capture("a.rs", 5);
    assert!(!ctx.can_close_capture("b.rs", 9, SOURCE));
    assert!(!ctx.can_close_capture("a.rs", 5, SOURCE));
    assert!(!ctx.can_close_capture("a.rs", 4, SOURCE));
    // a later line with less indentation than the first cannot lose it
    let short = "start\n    a\n  b\nend\n";
    ctx = Context::new("d");
    ctx.enable_capture("s.rs", 1);
    assert!(!ctx.can_close_capture("s.rs", 4, short));
    // indentation counts bytes: a wide space is three of them
    let wide = "start\n\u{3000}x\nabcd\nend\n";
    assert!(ctx.can_close_capture("s.rs", 4, wide));
    ctx.disable_capture("s.rs", 4, wide);
    assert_eq!(ctx.markdown(), "\n```rust\nx\nd\n```\n\n");
}

#[test]
fn an_empty_capture_is_an_empty_block() {
    let mut ctx = Context::new("d");
    ctx.enable_capture("a.rs", 1);
    assert!(ctx.can_close_capture("a.rs", 2, "a\nb\n"));
    ctx.disable_capture("a.rs", 2, "a\nb\n");
    assert_eq!(ctx.markdown(), "\n```rust\n\n```\n\n");
}
