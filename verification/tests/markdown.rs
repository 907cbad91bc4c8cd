use kew::markdown::{tokenize, tokens_allowed, Token, Tokenizer};
use pulldown_cmark::{CodeBlockKind, CowStr, Event, Parser, Tag, TagEnd};

const DOC: &str = "# Title\n\n```rust\nfn a() {}\n```\n\ntext\n";

#[test]
fn code_blocks_become_one_token() {
    assert!(tokens_allowed(DOC));
    let tokens = tokenize(DOC);
    // heading start, heading text, heading end, the code block, paragraph start, text, paragraph end
    assert_eq!(tokens.len(), 7);
    assert!(matches!(tokens[0], Token::Other(0)));
    assert!(matches!(tokens[1], Token::Other(1)));
    assert!(matches!(tokens[2], Token::Other(2)));
    match &tokens[3] {
        Token::Code { info, content } => {
            assert_eq!(info, "rust");
            assert_eq!(content, &vec!["fn a() {}\n".to_string()]);
        }
        _ => panic!("expected the code block"),
    }
    // the block's three events come before the paragraph
    assert!(matches!(tokens[4], Token::Other(6)));
    assert!(matches!(tokens[6], Token::Other(8)));
}

#[test]
fn an_unclosed_block_is_flushed_at_the_end() {
    let doc = "```js\nlet x;\n";
    let mut tz = Tokenizer::new(doc);
    assert!(tz.is_ready());
    let mut tokens = vec![];
    while let Some(t) = tz.next() {
        tokens.push(t);
    }
    assert_eq!(tokens.len(), 1);
    match &tokens[0] {
        Token::Code { info, content } => {
            assert_eq!(info, "js");
            assert_eq!(content.concat(), "let x;\n");
        }
        _ => panic!("expected the code block"),
    }
    assert!(tz.next().is_none());
}

#[test]
fn text_outside_blocks_is_its_own_token() {
    let tokens = tokenize("plain");
    assert_eq!(tokens.len(), 3);
    assert!(matches!(tokens[1], Token::Other(1)));
    assert!(tokenize("").is_empty());
}

#[test]
fn tokens_give_back_the_events() {
    let all: Vec<Event> = Parser::new(DOC).collect();
    let mut back: Vec<Event> = vec![];
    for t in tokenize(DOC) {
        match t {
            Token::Code { info, content } => {
                back.push(Event::Start(Tag::CodeBlock(CodeBlockKind::Fenced(CowStr::from(info)))));
                for c in content {
                    back.push(Event::Text(CowStr::from(c)));
                }
                back.push(Event::End(TagEnd::CodeBlock));
            }
            Token::Other(i) => back.push(all[i].clone()),
        }
    }
    assert_eq!(back, all);
}
