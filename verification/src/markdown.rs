//! The tokens of a markdown document: each fenced code block gathered into
//! one token with its info string and its text, every other event a token of
//! its own.
use pulldown_cmark::{CodeBlockKind, Event, Parser, Tag, TagEnd};
use vstd::prelude::*;

verus! {

/// A markdown event as the tokenizer reads it.
pub enum Mark {
    /// the start of a fenced code block, with its info string
    FenceStart(String),
    /// a text node
    Text(String),
    /// the end of a code block
    CodeEnd,
    /// any other event
    Other,
}

pub enum MarkView {
    FenceStart(Seq<char>),
    Text(Seq<char>),
    CodeEnd,
    Other,
}

pub open spec fn mark_view(m: Mark) -> MarkView {
    match m {
        Mark::FenceStart(s) => MarkView::FenceStart(s@),
        Mark::Text(s) => MarkView::Text(s@),
        Mark::CodeEnd => MarkView::CodeEnd,
        Mark::Other => MarkView::Other,
    }
}

pub open spec fn marks_view(ms: Seq<Mark>) -> Seq<MarkView> {
    ms.map_values(|m: Mark| mark_view(m))
}

/// The events that `pulldown_cmark::Parser::new` yields for `input`, each
/// read as a mark.
pub uninterp spec fn markdown_events(input: Seq<char>) -> Seq<MarkView>;

/// Calls `pulldown_cmark::Parser::new` and reads each event it yields as a
/// mark: the start of a fenced code block with its info string, a text
/// node, the end of a code block, or another event. The events are a
/// function of the input; which ones is left to the name.
#[verifier::external_body]
fn parse_markdown(input: &str) -> (r: Vec<Mark>)
    ensures
        marks_view(r@) == markdown_events(input@),
{
    Parser::new(input)
        .map(|e| match e {
            Event::Start(Tag::CodeBlock(CodeBlockKind::Fenced(info))) => Mark::FenceStart(info.to_string()),
            Event::Text(text) => Mark::Text(text.to_string()),
            Event::End(TagEnd::CodeBlock) => Mark::CodeEnd,
            _ => Mark::Other,
        })
        .collect()
}

/// A token: a fenced code block with its info string and the text inside
/// it, or another event, by its position among the document's events.
#[derive(Debug)]
pub enum Token {
    Code { info: String, content: Vec<String> },
    Other(usize),
}

pub enum TokenView {
    Code { info: Seq<char>, content: Seq<Seq<char>> },
    Other(nat),
}

pub open spec fn token_view(t: Token) -> TokenView {
    match t {
        Token::Code { info, content } => TokenView::Code {
            info: info@,
            content: content@.map_values(|s: String| s@),
        },
        Token::Other(i) => TokenView::Other(i as nat),
    }
}

pub open spec fn tokens_view(ts: Seq<Token>) -> Seq<TokenView> {
    ts.map_values(|t: Token| token_view(t))
}

/// Whether the tokenizer is outside or inside a fenced code block.
pub enum StateView {
    Scanning,
    CodeBlock { info: Seq<char>, content: Seq<Seq<char>> },
}

/// Whether the event can come in this state: nothing but text, a nested
/// fence start and the block's end can come inside a code block.
pub open spec fn allowed(st: StateView, m: MarkView) -> bool {
    !(st is CodeBlock && m is Other)
}

/// The state after the event at position `pos`, and the token it completes:
/// a fence start opens a block (inside a block its info string is taken as
/// text), text inside a block is kept, a block's end completes it, and any
/// event outside a block is a token of its own.
pub open spec fn step(st: StateView, m: MarkView, pos: nat) -> (StateView, Option<TokenView>) {
    match st {
        StateView::Scanning => match m {
            MarkView::FenceStart(info) => (StateView::CodeBlock { info, content: seq![] }, None),
            _ => (StateView::Scanning, Some(TokenView::Other(pos))),
        },
        StateView::CodeBlock { info, content } => match m {
            MarkView::FenceStart(t) => (StateView::CodeBlock { info, content: content.push(t) }, None),
            MarkView::Text(t) => (StateView::CodeBlock { info, content: content.push(t) }, None),
            MarkView::CodeEnd => (StateView::Scanning, Some(TokenView::Code { info, content })),
            MarkView::Other => (st, None),
        },
    }
}

/// The token of a block left open at the end.
pub open spec fn flush(st: StateView) -> Option<TokenView> {
    match st {
        StateView::Scanning => None,
        StateView::CodeBlock { info, content } => Some(TokenView::Code { info, content }),
    }
}

/// Every event from position `pos` on is allowed where it comes.
pub open spec fn all_allowed(st: StateView, ms: Seq<MarkView>, pos: nat) -> bool
    decreases ms.len() - pos,
{
    if pos >= ms.len() {
        true
    } else {
        allowed(st, ms[pos as int]) && all_allowed(step(st, ms[pos as int], pos).0, ms, pos + 1)
    }
}

/// The next token from position `pos` on: the state after it, the position
/// after it, and the token; at the end, a block left open.
pub open spec fn advance(st: StateView, ms: Seq<MarkView>, pos: nat) -> (StateView, nat, Option<TokenView>)
    decreases ms.len() - pos,
{
    if pos >= ms.len() {
        (StateView::Scanning, pos, flush(st))
    } else {
        let (s1, out) = step(st, ms[pos as int], pos);
        if out is Some {
            (s1, pos + 1, out)
        } else {
            advance(s1, ms, pos + 1)
        }
    }
}

/// All the tokens from position `pos` on.
pub open spec fn all_tokens(st: StateView, ms: Seq<MarkView>, pos: nat) -> Seq<TokenView>
    decreases ms.len() - pos,
{
    if pos >= ms.len() {
        match flush(st) {
            Some(t) => seq![t],
            None => seq![],
        }
    } else {
        let (s1, out) = step(st, ms[pos as int], pos);
        match out {
            Some(t) => seq![t] + all_tokens(s1, ms, pos + 1),
            None => all_tokens(s1, ms, pos + 1),
        }
    }
}

} // verus!

verus! {

/// Whether the tokenizer is outside or inside a fenced code block.
pub enum State {
    Scanning,
    CodeBlock { info: String, content: Vec<String> },
}

pub open spec fn state_view(s: State) -> StateView {
    match s {
        State::Scanning => StateView::Scanning,
        State::CodeBlock { info, content } => StateView::CodeBlock {
            info: info@,
            content: content@.map_values(|s: String| s@),
        },
    }
}

/// The state after the mark `m` at position `pos`, and the token it completes.
fn on_event(st: State, m: &Mark, pos: usize) -> (r: (State, Option<Token>))
    requires
        allowed(state_view(st), mark_view(*m)),
    ensures
        (state_view(r.0), match r.1 {
            Some(t) => Some(token_view(t)),
            None => None,
        }) == step(state_view(st), mark_view(*m), pos as nat),
{
    match st {
        State::Scanning => match m {
            Mark::FenceStart(info) => {
                let content: Vec<String> = Vec::new();
                let r = (State::CodeBlock { info: info.as_str().to_owned(), content }, None);
                assert(content@.map_values(|s: String| s@) =~= Seq::<Seq<char>>::empty());
                r
            },
            _ => (State::Scanning, Some(Token::Other(pos))),
        },
        State::CodeBlock { info, mut content } => match m {
            Mark::FenceStart(t) => {
                let ghost c0 = content@;
                content.push(t.as_str().to_owned());
                assert(content@.map_values(|s: String| s@) =~= c0.map_values(|s: String| s@).push(t@));
                (State::CodeBlock { info, content }, None)
            },
            Mark::Text(t) => {
                let ghost c0 = content@;
                content.push(t.as_str().to_owned());
                assert(content@.map_values(|s: String| s@) =~= c0.map_values(|s: String| s@).push(t@));
                (State::CodeBlock { info, content }, None)
            },
            Mark::CodeEnd => (State::Scanning, Some(Token::Code { info, content })),
            Mark::Other => (State::CodeBlock { info, content }, None),
        },
    }
}

/// The token of a block left open at the end.
fn flush_state(st: State) -> (r: Option<Token>)
    ensures
        match r {
            Some(t) => Some(token_view(t)),
            None => None,
        } == flush(state_view(st)),
{
    match st {
        State::Scanning => None,
        State::CodeBlock { info, content } => Some(Token::Code { info, content }),
    }
}

/// Reads a markdown document token by token.
pub struct Tokenizer {
    marks: Vec<Mark>,
    pos: usize,
    state: State,
}

proof fn lemma_advance(st: StateView, ms: Seq<MarkView>, pos: nat)
    requires
        all_allowed(st, ms, pos),
    ensures
        pos <= advance(st, ms, pos).1,
        pos < ms.len() ==> pos < advance(st, ms, pos).1 <= ms.len(),
        pos >= ms.len() ==> advance(st, ms, pos).0 == StateView::Scanning,
        pos >= ms.len() ==> advance(st, ms, pos).1 == pos,
        all_allowed(advance(st, ms, pos).0, ms, advance(st, ms, pos).1),
    decreases ms.len() - pos,
{
    if pos < ms.len() {
        let (s1, out) = step(st, ms[pos as int], pos);
        if out is None {
            lemma_advance(s1, ms, pos + 1);
        }
    }
}

impl Tokenizer {
    /// The marks read, the position of the next one, and the state.
    pub closed spec fn marks(&self) -> Seq<MarkView> {
        marks_view(self.marks@)
    }

    pub closed spec fn position(&self) -> nat {
        self.pos as nat
    }

    pub closed spec fn state(&self) -> StateView {
        state_view(self.state)
    }

    /// Every mark still to come is allowed where it comes.
    pub open spec fn ready(&self) -> bool {
        all_allowed(self.state(), self.marks(), self.position())
    }

    /// A tokenizer at the start of the document `input`.
    pub fn new(input: &str) -> (r: Tokenizer)
        ensures
            r.marks() == markdown_events(input@),
            r.position() == 0,
            r.state() == StateView::Scanning,
    {
        Tokenizer { marks: parse_markdown(input), pos: 0, state: State::Scanning }
    }

    /// Whether the rest of the document can be read: no event but text, a
    /// fence start and the block's end comes inside a fenced code block.
    pub fn is_ready(&self) -> (r: bool)
        ensures
            r == self.ready(),
    {
        let ghost ms = self.marks();
        let n = self.marks.len();
        let mut i = self.pos;
        let mut inside = match &self.state {
            State::Scanning => false,
            State::CodeBlock { .. } => true,
        };
        let ghost mut st = self.state();
        if i > n {
            return true;
        }
        while i < n
            invariant
                ms == self.marks(),
                n == ms.len(),
                self.pos <= i <= n,
                inside == st is CodeBlock,
                all_allowed(self.state(), ms, self.pos as nat) == all_allowed(st, ms, i as nat),
            decreases n - i,
        {
            let m = &self.marks[i];
            assert(ms[i as int] == mark_view(*m));
            let other = match m {
                Mark::Other => true,
                _ => false,
            };
            if inside && other {
                return false;
            }
            inside = match m {
                Mark::FenceStart(_) => true,
                Mark::Text(_) => inside,
                Mark::CodeEnd => false,
                Mark::Other => inside,
            };
            proof {
                st = step(st, ms[i as int], i as nat).0;
            }
            i = i + 1;
        }
        true
    }

    /// The next token: the events up to it are read; at the end, a code
    /// block left open, then nothing.
    pub fn next(&mut self) -> (r: Option<Token>)
        requires
            old(self).ready(),
        ensures
            final(self).ready(),
            final(self).marks() == old(self).marks(),
            ({
                let (st, pos, tok) = advance(old(self).state(), old(self).marks(), old(self).position());
                &&& final(self).state() == st
                &&& final(self).position() == pos
                &&& match r {
                    Some(t) => Some(token_view(t)),
                    None => None,
                } == tok
            }),
    {
        proof {
            lemma_advance(self.state(), self.marks(), self.position());
        }
        let ghost ms = self.marks();
        let ghost target = advance(self.state(), ms, self.position());
        let n = self.marks.len();
        loop
            invariant
                ms == self.marks(),
                ms == old(self).marks(),
                target == advance(old(self).state(), old(self).marks(), old(self).position()),
                n == ms.len(),
                all_allowed(self.state(), ms, self.position()),
                advance(self.state(), ms, self.position()) == target,
            decreases n - self.pos,
        {
            let mut st = State::Scanning;
            std::mem::swap(&mut st, &mut self.state);
            if self.pos >= n {
                return flush_state(st);
            }
            let pos = self.pos;
            let (s1, out) = on_event(st, &self.marks[pos], pos);
            self.state = s1;
            self.pos = pos + 1;
            match out {
                Some(t) => {
                    return Some(t);
                },
                None => {},
            }
        }
    }
}

/// Whether every event of `input` is allowed where it comes (see `allowed`).
pub fn tokens_allowed(input: &str) -> (r: bool)
    ensures
        r == all_allowed(StateView::Scanning, markdown_events(input@), 0),
{
    Tokenizer::new(input).is_ready()
}

} // verus!

verus! {

proof fn lemma_all_tokens_advance(st: StateView, ms: Seq<MarkView>, pos: nat)
    ensures
        all_tokens(st, ms, pos) == match advance(st, ms, pos).2 {
            Some(t) => seq![t] + all_tokens(advance(st, ms, pos).0, ms, advance(st, ms, pos).1),
            None => Seq::<TokenView>::empty(),
        },
    decreases ms.len() - pos,
{
    if pos >= ms.len() {
        if flush(st) is Some {
            assert(all_tokens(StateView::Scanning, ms, pos) == Seq::<TokenView>::empty());
            assert(seq![flush(st).unwrap()] + Seq::<TokenView>::empty() =~= seq![flush(st).unwrap()]);
        }
    } else {
        let (s1, out) = step(st, ms[pos as int], pos);
        if out is None {
            lemma_all_tokens_advance(s1, ms, pos + 1);
        }
    }
}

/// The tokens of the markdown document `input`, in order: each fenced code
/// block is one token with its info string and the text inside it, every
/// other event a token of its own, by its position.
pub fn tokenize(input: &str) -> (r: Vec<Token>)
    requires
        all_allowed(StateView::Scanning, markdown_events(input@), 0),
    ensures
        tokens_view(r@) == all_tokens(StateView::Scanning, markdown_events(input@), 0),
{
    let mut tz = Tokenizer::new(input);
    let ghost ms = tz.marks();
    let mut out: Vec<Token> = Vec::new();
    proof {
        lemma_advance(tz.state(), ms, tz.position());
    }
    loop
        invariant
            ms == tz.marks(),
            ms == markdown_events(input@),
            tz.ready(),
            tz.position() <= ms.len(),
            all_tokens(StateView::Scanning, ms, 0) == tokens_view(out@) + all_tokens(tz.state(), ms, tz.position()),
        decreases (ms.len() - tz.position()) * 2 + (if tz.state() is CodeBlock { 1int } else { 0int }),
    {
        let ghost s0 = tz.state();
        let ghost p0 = tz.position();
        let ghost o0 = tokens_view(out@);
        proof {
            lemma_all_tokens_advance(s0, ms, p0);
            lemma_advance(s0, ms, p0);
        }
        match tz.next() {
            Some(t) => {
                out.push(t);
                assert(tokens_view(out@) =~= o0.push(token_view(t)));
                assert(o0 + (seq![token_view(t)] + all_tokens(tz.state(), ms, tz.position())) =~= o0.push(token_view(t)) + all_tokens(tz.state(), ms, tz.position()));
            },
            None => {
                assert(o0 + Seq::<TokenView>::empty() =~= o0);
                return out;
            },
        }
    }
}

} // verus!

verus! {

/// The tokens of the markdown document `input` (see `tokenize`), or `None`
/// when an event other than text, a fence start or a block's end comes
/// inside a fenced code block.
pub fn tokens(input: &str) -> (r: Option<Vec<Token>>)
    ensures
        match r {
            Some(v) => all_allowed(StateView::Scanning, markdown_events(input@), 0) && tokens_view(v@) == all_tokens(
                StateView::Scanning,
                markdown_events(input@),
                0,
            ),
            None => !all_allowed(StateView::Scanning, markdown_events(input@), 0),
        },
{
    if tokens_allowed(input) {
        Some(tokenize(input))
    } else {
        None
    }
}

/// A request to compile the markdown file at `path`, to `output` if given.
#[derive(Debug)]
pub struct Compile {
    pub path: String,
    pub output: Option<String>,
}

} // verus!

verus! {

/// The events that a token stands for: a code block's start, its text and
/// its end, or the event at the token's position in `ms`.
pub open spec fn expand(t: TokenView, ms: Seq<MarkView>) -> Seq<MarkView> {
    match t {
        TokenView::Other(i) => seq![ms[i as int]],
        TokenView::Code { info, content } => seq![MarkView::FenceStart(info)] + content.map_values(
            |c: Seq<char>| MarkView::Text(c),
        ) + seq![MarkView::CodeEnd],
    }
}

pub open spec fn expand_all(ts: Seq<TokenView>, ms: Seq<MarkView>) -> Seq<MarkView>
    decreases ts.len(),
{
    if ts.len() == 0 {
        seq![]
    } else {
        expand(ts[0], ms) + expand_all(ts.drop_first(), ms)
    }
}

/// From position `pos` on, only text comes inside a code block, and every
/// code block ends.
pub open spec fn simple(st: StateView, ms: Seq<MarkView>, pos: nat) -> bool
    decreases ms.len() - pos,
{
    if pos >= ms.len() {
        st is Scanning
    } else {
        (st is CodeBlock ==> ms[pos as int] is Text || ms[pos as int] is CodeEnd) && simple(
            step(st, ms[pos as int], pos).0,
            ms,
            pos + 1,
        )
    }
}

/// The events that the open code block has taken so far.
pub open spec fn pending(st: StateView) -> Seq<MarkView> {
    match st {
        StateView::Scanning => seq![],
        StateView::CodeBlock { info, content } => seq![MarkView::FenceStart(info)] + content.map_values(
            |c: Seq<char>| MarkView::Text(c),
        ),
    }
}

proof fn lemma_expand_rest(st: StateView, ms: Seq<MarkView>, pos: nat)
    requires
        pos <= ms.len(),
        simple(st, ms, pos),
    ensures
        expand_all(all_tokens(st, ms, pos), ms) == pending(st) + ms.subrange(pos as int, ms.len() as int),
    decreases ms.len() - pos,
{
    if pos == ms.len() {
        assert(ms.subrange(pos as int, ms.len() as int) =~= Seq::<MarkView>::empty());
        assert(pending(st) =~= Seq::<MarkView>::empty());
    } else {
        let m = ms[pos as int];
        let (s1, out) = step(st, m, pos);
        lemma_expand_rest(s1, ms, pos + 1);
        let rest = ms.subrange(pos + 1 as int, ms.len() as int);
        assert(ms.subrange(pos as int, ms.len() as int) =~= seq![m] + rest);
        match st {
            StateView::Scanning => match m {
                MarkView::FenceStart(info) => {
                    assert(pending(s1) =~= seq![m]);
                },
                _ => {
                    let t = out.unwrap();
                    let ts = all_tokens(s1, ms, pos + 1);
                    assert((seq![t] + ts).drop_first() =~= ts);
                    assert((seq![t] + ts)[0] == t);
                    assert(expand(t, ms) =~= seq![m]);
                    assert(pending(st) + (seq![m] + rest) =~= seq![m] + (pending(s1) + rest));
                },
            },
            StateView::CodeBlock { info, content } => match m {
                MarkView::Text(t) => {
                    assert(content.push(t).map_values(|c: Seq<char>| MarkView::Text(c)) =~= content.map_values(
                        |c: Seq<char>| MarkView::Text(c),
                    ).push(MarkView::Text(t)));
                    assert(pending(s1) + rest =~= pending(st) + (seq![m] + rest));
                },
                _ => {
                    let t = out.unwrap();
                    let ts = all_tokens(s1, ms, pos + 1);
                    assert((seq![t] + ts).drop_first() =~= ts);
                    assert((seq![t] + ts)[0] == t);
                    assert(expand(t, ms) =~= pending(st) + seq![m]);
                    assert(pending(st) + (seq![m] + rest) =~= (pending(st) + seq![m]) + (pending(s1) + rest));
                },
            },
        }
    }
}

/// Tokenizing gives the document back: when only text comes inside code
/// blocks and every block ends, the events that the tokens stand for are
/// the document's events, in order.
pub proof fn lemma_tokens_give_back_events(ms: Seq<MarkView>)
    requires
        simple(StateView::Scanning, ms, 0),
    ensures
        expand_all(all_tokens(StateView::Scanning, ms, 0), ms) == ms,
{
    lemma_expand_rest(StateView::Scanning, ms, 0);
    assert(ms.subrange(0, ms.len() as int) =~= ms);
    assert(pending(StateView::Scanning) + ms =~= ms);
}

} // verus!
