//! A reader of metric lines that hands out the events of a
//! stream of lines one at a time. It reads a value as the characters before
//! the first numeric character, and so never reads one (see
//! `lemma_stream_data_never_reads`).
use vstd::prelude::*;
use crate::parser::{attr_pairs, header, parse_header, span_ok, span_view, spans_view, AttrView, EventView, Span};
use crate::text::{
    chars_of, first_stop, lemma_first_stop, lemma_split_whitespace_blank, lemma_split_whitespace_step,
    lemma_trim_start, parse_u64, parse_u64_at, scan, skip_ws_end, skip_ws_start, spec_is_numeric,
    split_once, split_once_ws, split_whitespace, is_ascii_digit, all_digits, Stop,
};

verus! {

/// The kind of a metric.
#[derive(Clone, Copy, Debug, PartialEq, Eq)]
pub enum Kind {
    Count,
    Gauge,
    Measure,
}

/// The name, value and unit of a metric.
#[derive(Clone, Debug)]
pub struct Data<'a> {
    name: &'a str,
    value: u64,
    unit: &'a str,
}

/// The attributes of a metric, in the order of the line.
#[derive(Clone, Debug)]
pub struct Attrs<'a> {
    attrs: Vec<(&'a str, &'a str)>,
}

/// A metric read from a line.
#[derive(Clone, Debug)]
pub struct Event<'a> {
    pub timestamp: u64,
    pub kind: Kind,
    pub data: Data<'a>,
    pub attrs: Attrs<'a>,
}

pub open spec fn kind_of(k: crate::parser::Kind) -> Kind {
    match k {
        crate::parser::Kind::Count => Kind::Count,
        crate::parser::Kind::Gauge => Kind::Gauge,
        crate::parser::Kind::Measure => Kind::Measure,
    }
}

pub open spec fn kind_view(k: Kind) -> crate::parser::Kind {
    match k {
        Kind::Count => crate::parser::Kind::Count,
        Kind::Gauge => crate::parser::Kind::Gauge,
        Kind::Measure => crate::parser::Kind::Measure,
    }
}

impl<'a> Data<'a> {
    pub closed spec fn view(&self) -> (Seq<char>, u64, Seq<char>) {
        (self.name@, self.value, self.unit@)
    }
}

impl<'a> Attrs<'a> {
    pub closed spec fn view(&self) -> Seq<AttrView> {
        self.attrs@.map_values(|p: (&'a str, &'a str)| (p.0@, p.1@))
    }
}

impl<'a> Event<'a> {
    pub open spec fn view(&self) -> EventView {
        EventView {
            timestamp: self.timestamp,
            kind: kind_view(self.kind),
            name: self.data@.0,
            value: self.data@.1,
            unit: self.data@.2,
            attrs: self.attrs@,
        }
    }
}

/// `name=<value><unit>` as this reader takes it: the value is read from the
/// characters before the first numeric character, the unit is what follows
/// that character up to the first space.
pub open spec fn parse_data(s: Seq<char>) -> Option<(Seq<char>, u64, Seq<char>, Seq<char>)> {
    match split_once_ws(s, '=') {
        None => None,
        Some((name, v)) => {
            let (value, rest) = match split_once(v, ' ') {
                Some((a, b)) => (a, b),
                None => (v, seq![]),
            };
            let k = first_stop(value, Stop::Numeric);
            if k < value.len() {
                match parse_u64(value.subrange(0, k as int)) {
                    Some(n) => Some((name, n, value.subrange(k as int + 1, value.len() as int), rest)),
                    None => None,
                }
            } else {
                None
            }
        },
    }
}

/// The `key=value` tokens of `s`, in order.
pub open spec fn parse_attrs(s: Seq<char>) -> Seq<AttrView> {
    attr_pairs(split_whitespace(s))
}

/// What `Event::parse` of this reader makes of a line.
pub open spec fn parse_event(s: Seq<char>) -> Option<EventView> {
    match parse_header(s) {
        None => None,
        Some((timestamp, kind, r3)) => match parse_data(r3) {
            None => None,
            Some((name, value, unit, rest)) => Some(
                EventView { timestamp, kind, name, value, unit, attrs: parse_attrs(rest) },
            ),
        },
    }
}

/// Characters that all come before the first numeric one never spell a
/// number, so this reader's data never reads.
pub proof fn lemma_stream_data_never_reads(s: Seq<char>)
    ensures
        parse_data(s) is None,
{
    if let Some((name, v)) = split_once_ws(s, '=') {
        let (value, rest) = match split_once(v, ' ') {
            Some((a, b)) => (a, b),
            None => (v, seq![]),
        };
        let k = first_stop(value, Stop::Numeric);
        lemma_first_stop(value, Stop::Numeric);
        let t = value.subrange(0, k as int);
        let d = if t.len() > 0 && t[0] == '+' { t.drop_first() } else { t };
        if all_digits(d) {
            assert(is_ascii_digit(d[0]));
            let j = if t.len() > 0 && t[0] == '+' { 1int } else { 0int };
            assert(d[0] == value[j]);
            assert(spec_is_numeric(value[j]));
        }
    }
}

/// This reader never reads an event.
pub proof fn lemma_stream_never_reads(s: Seq<char>)
    ensures
        parse_event(s) is None,
{
    if let Some((timestamp, kind, r3)) = parse_header(s) {
        lemma_stream_data_never_reads(r3);
    }
}

} // verus!

verus! {

/// The `key=value` tokens of `s[lo..hi]` in order, as ranges of `s`.
fn pair_spans(s: &Vec<char>, lo: usize, hi: usize) -> (r: Vec<Span>)
    requires
        lo <= hi <= s@.len(),
    ensures
        forall|i: int| 0 <= i < r@.len() ==> span_ok(s@.len(), #[trigger] r@[i]),
        spans_view(s@, r@) == parse_attrs(s@.subrange(lo as int, hi as int)),
{
    let mut acc: Vec<Span> = Vec::new();
    let ghost mut toks: Seq<Seq<char>> = seq![];
    let mut i = lo;
    loop
        invariant
            lo <= i <= hi <= s@.len(),
            split_whitespace(s@.subrange(lo as int, hi as int)) == toks + split_whitespace(
                s@.subrange(i as int, hi as int),
            ),
            forall|j: int| 0 <= j < acc@.len() ==> span_ok(s@.len(), #[trigger] acc@[j]),
            spans_view(s@, acc@) == attr_pairs(toks),
        ensures
            split_whitespace(s@.subrange(lo as int, hi as int)) == toks,
            forall|j: int| 0 <= j < acc@.len() ==> span_ok(s@.len(), #[trigger] acc@[j]),
            spans_view(s@, acc@) == attr_pairs(toks),
        decreases hi - i,
    {
        let st = skip_ws_start(s, i, hi);
        proof {
            lemma_trim_start(s@.subrange(i as int, hi as int));
        }
        if st == hi {
            proof {
                lemma_split_whitespace_blank(s@.subrange(i as int, hi as int));
                assert(toks + Seq::<Seq<char>>::empty() =~= toks);
            }
            break;
        }
        let ghost rest = s@.subrange(st as int, hi as int);
        let e = scan(s, st, hi, Stop::Whitespace);
        proof {
            lemma_split_whitespace_step(rest);
            assert(rest.subrange(0, (e - st) as int) =~= s@.subrange(st as int, e as int));
            assert(rest.subrange((e - st) as int, rest.len() as int) =~= s@.subrange(e as int, hi as int));
        }
        let ghost t = s@.subrange(st as int, e as int);
        let eq = scan(s, st, e, Stop::At('='));
        let ghost before = spans_view(s@, acc@);
        proof {
            lemma_first_stop(t, Stop::At('='));
            assert(t.subrange(0, (eq - st) as int) =~= s@.subrange(st as int, eq as int));
            if eq < e {
                assert(t.subrange((eq - st) + 1, t.len() as int) =~= s@.subrange(eq + 1, e as int));
            }
            assert(toks.push(t).drop_last() =~= toks);
        }
        if eq < e {
            acc.push((st, eq, eq + 1, e));
            assert(spans_view(s@, acc@) =~= before.push(span_view(s@, (st, eq, (eq + 1) as usize, e))));
        }
        proof {
            assert(toks + split_whitespace(s@.subrange(i as int, hi as int)) =~= toks.push(t)
                + split_whitespace(s@.subrange(e as int, hi as int)));
            toks = toks.push(t);
        }
        i = e;
    }
    acc
}

impl<'a> Attrs<'a> {
    /// Reads the `key=value` tokens of `v` in order: tokens are split at
    /// whitespace and at their first `=`; tokens without `=` are skipped.
    pub fn parse(v: &'a str) -> (r: Option<Self>)
        ensures
            r is Some,
            r.unwrap()@ == parse_attrs(v@),
    {
        let s = chars_of(v);
        let n = s.len();
        assert(s@.subrange(0, n as int) =~= v@);
        let spans = pair_spans(&s, 0, n);
        let mut attrs: Vec<(&'a str, &'a str)> = Vec::new();
        let mut i: usize = 0;
        while i < spans.len()
            invariant
                s@ == v@,
                i <= spans@.len(),
                forall|j: int| 0 <= j < spans@.len() ==> span_ok(s@.len(), #[trigger] spans@[j]),
                attrs@.len() == i,
                forall|j: int| 0 <= j < i ==> (#[trigger] attrs@[j].0@, attrs@[j].1@) == span_view(s@, spans@[j]),
            decreases spans@.len() - i,
        {
            let sp = spans[i];
            assert(span_ok(s@.len(), spans@[i as int]));
            let key = v.substring_char(sp.0, sp.1);
            let value = v.substring_char(sp.2, sp.3);
            attrs.push((key, value));
            i = i + 1;
        }
        let r = Attrs { attrs };
        assert(r@ =~= spans_view(s@, spans@));
        Some(r)
    }
}

impl<'a> Data<'a> {
    /// Reads `name=<value><unit>` as this reader does (see `parse_data`).
    pub fn parse(v: &'a str) -> (r: Option<(Self, &'a str)>)
        ensures
            match parse_data(v@) {
                Some((name, value, unit, rest)) => r matches Some((d, rr)) && d@ == (name, value, unit)
                    && rr@ == rest,
                None => r is None,
            },
    {
        let s = chars_of(v);
        let n = s.len();
        assert(s@.subrange(0, n as int) =~= s@);
        let eq = scan(&s, 0, n, Stop::At('='));
        if eq == n {
            return None;
        }
        let name_end = skip_ws_end(&s, 0, eq);
        let vstart = skip_ws_start(&s, eq + 1, n);
        let ghost vv = s@.subrange(vstart as int, n as int);
        let sp = scan(&s, vstart, n, Stop::At(' '));
        let value_end;
        let rest_start;
        if sp < n {
            value_end = sp;
            rest_start = sp + 1;
            proof {
                assert(vv.subrange(0, (sp - vstart) as int) =~= s@.subrange(vstart as int, sp as int));
                assert(vv.subrange((sp - vstart) + 1, vv.len() as int) =~= s@.subrange(sp + 1, n as int));
            }
        } else {
            value_end = n;
            rest_start = n;
            assert(s@.subrange(n as int, n as int) =~= Seq::<char>::empty());
        }
        let ghost value = s@.subrange(vstart as int, value_end as int);
        let k = scan(&s, vstart, value_end, Stop::Numeric);
        if k == value_end {
            return None;
        }
        proof {
            assert(value.subrange(0, (k - vstart) as int) =~= s@.subrange(vstart as int, k as int));
            assert(value.subrange((k - vstart) + 1, value.len() as int) =~= s@.subrange(k + 1, value_end as int));
        }
        let number = parse_u64_at(&s, vstart, k);
        match number {
            None => None,
            Some(x) => {
                let data = Data {
                    name: v.substring_char(0, name_end),
                    value: x,
                    unit: v.substring_char(k + 1, value_end),
                };
                Some((data, v.substring_char(rest_start, n)))
            },
        }
    }
}

fn kind_from(k: crate::parser::Kind) -> (r: Kind)
    ensures
        r == kind_of(k),
        kind_view(r) == k,
{
    match k {
        crate::parser::Kind::Count => Kind::Count,
        crate::parser::Kind::Gauge => Kind::Gauge,
        crate::parser::Kind::Measure => Kind::Measure,
    }
}

impl<'a> Event<'a> {
    /// Reads a metric line as this reader does (see `parse_event`).
    pub fn parse(v: &'a str) -> (r: Option<Self>)
        ensures
            match parse_event(v@) {
                Some(e) => r matches Some(ev) && ev@ == e,
                None => r is None,
            },
    {
        let (timestamp, kind, rest) = match header(v) {
            Some(h) => h,
            None => return None,
        };
        let (data, tail) = match Data::parse(rest) {
            Some(d) => d,
            None => return None,
        };
        let attrs = match Attrs::parse(tail) {
            Some(a) => a,
            None => return None,
        };
        Some(Event { timestamp, kind: kind_from(kind), data, attrs })
    }
}

} // verus!

verus! {

/// Hands out the events of a stream of lines one at a time.
pub struct Parser {
    lines: Vec<String>,
    next: usize,
}

/// The index of the first line at or after `i` that is not empty and reads as
/// an event, or the number of lines.
pub open spec fn next_event(lines: Seq<Seq<char>>, i: int) -> int
    decreases lines.len() - i,
{
    if i < 0 || i >= lines.len() {
        lines.len() as int
    } else if lines[i].len() > 0 && parse_event(lines[i]) is Some {
        i
    } else {
        next_event(lines, i + 1)
    }
}

impl Parser {
    /// The lines of the stream.
    pub closed spec fn lines(&self) -> Seq<Seq<char>> {
        self.lines@.map_values(|l: String| l@)
    }

    /// The index of the first line not read yet.
    pub closed spec fn position(&self) -> int {
        self.next as int
    }

    pub closed spec fn wf(&self) -> bool {
        self.next <= self.lines@.len()
    }

    /// The next event of the stream: the first line not read yet that is not
    /// empty and reads as an event. The lines up to it are read; when there is
    /// none, all lines are.
    pub fn event(&mut self) -> (r: Option<Event<'_>>)
        requires
            old(self).wf(),
        ensures
            final(self).wf(),
            final(self).lines() == old(self).lines(),
            ({
                let j = next_event(old(self).lines(), old(self).position());
                if j < old(self).lines().len() {
                    &&& final(self).position() == j + 1
                    &&& r matches Some(e) && Some(e@) == parse_event(old(self).lines()[j])
                } else {
                    &&& final(self).position() == old(self).lines().len()
                    &&& r is None
                }
            }),
    {
        let ghost lines = self.lines();
        let n = self.lines.len();
        let mut i = self.next;
        while i < n
            invariant
                n == self.lines@.len(),
                lines == self.lines(),
                self.next <= i <= n,
                next_event(lines, self.next as int) == next_event(lines, i as int),
            ensures
                self.next <= i <= n,
                next_event(lines, self.next as int) == next_event(lines, i as int),
                i < n ==> lines[i as int].len() > 0 && parse_event(lines[i as int]) is Some,
            decreases n - i,
        {
            let line: &String = &self.lines[i];
            assert(lines[i as int] == line@);
            if !line.as_str().is_empty() {
                if Event::parse(line.as_str()).is_some() {
                    break;
                }
            }
            i = i + 1;
        }
        self.next = if i < n { i + 1 } else { n };
        if i < n {
            let line: &String = &self.lines[i];
            assert(lines[i as int] == line@);
            Event::parse(line.as_str())
        } else {
            None
        }
    }
}

/// A parser over the given lines, at the first of them.
pub fn parse(lines: Vec<String>) -> (r: Parser)
    ensures
        r.wf(),
        r.lines() == lines@.map_values(|l: String| l@),
        r.position() == 0,
{
    Parser { lines, next: 0 }
}

} // verus!

verus! {

/// No line of a stream reads as an event here, so `Parser::event` reads
/// every line and gives `None`.
pub proof fn lemma_stream_parser_finds_nothing(lines: Seq<Seq<char>>, i: int)
    requires
        0 <= i <= lines.len(),
    ensures
        next_event(lines, i) == lines.len(),
    decreases lines.len() - i,
{
    if i < lines.len() {
        lemma_stream_never_reads(lines[i]);
        lemma_stream_parser_finds_nothing(lines, i + 1);
    }
}

} // verus!

verus! {

/// The events of the lines from position `i` on, in order: each non-empty
/// line that reads as an event gives it.
pub open spec fn events_from(lines: Seq<Seq<char>>, i: int) -> Seq<EventView>
    decreases lines.len() - i,
{
    if i < 0 || i >= lines.len() {
        seq![]
    } else if lines[i].len() > 0 && parse_event(lines[i]) is Some {
        seq![parse_event(lines[i]).unwrap()] + events_from(lines, i + 1)
    } else {
        events_from(lines, i + 1)
    }
}

/// Calls of `Parser::event` hand out the events of the unread lines in
/// order: the next call gives the first of them and moves past its line, and
/// once there are none it gives `None`.
pub proof fn lemma_event_calls_in_order(lines: Seq<Seq<char>>, i: int)
    requires
        0 <= i <= lines.len(),
    ensures
        next_event(lines, i) < lines.len() ==> events_from(lines, i) == seq![
            parse_event(lines[next_event(lines, i)]).unwrap(),
        ] + events_from(lines, next_event(lines, i) + 1),
        next_event(lines, i) >= lines.len() ==> events_from(lines, i) == Seq::<EventView>::empty(),
        i <= next_event(lines, i) <= lines.len(),
    decreases lines.len() - i,
{
    if i < lines.len() && !(lines[i].len() > 0 && parse_event(lines[i]) is Some) {
        lemma_event_calls_in_order(lines, i + 1);
    }
}

/// The line that the next call of `Parser::event` reads an event from is
/// the first unread line that is not empty and reads as an event: every line
/// it skips is empty or reads as none.
pub proof fn lemma_next_event_is_first(lines: Seq<Seq<char>>, i: int)
    requires
        0 <= i <= lines.len(),
    ensures
        i <= next_event(lines, i) <= lines.len(),
        forall|k: int| i <= k < next_event(lines, i) ==> !(#[trigger] lines[k].len() > 0 && parse_event(lines[k]) is Some),
        next_event(lines, i) < lines.len() ==> lines[next_event(lines, i)].len() > 0
            && parse_event(lines[next_event(lines, i)]) is Some,
    decreases lines.len() - i,
{
    if i < lines.len() && !(lines[i].len() > 0 && parse_event(lines[i]) is Some) {
        lemma_next_event_is_first(lines, i + 1);
    }
}

/// This reader hands out no event from any stream.
pub proof fn lemma_stream_events_none(lines: Seq<Seq<char>>, i: int)
    requires
        0 <= i <= lines.len(),
    ensures
        events_from(lines, i) == Seq::<EventView>::empty(),
    decreases lines.len() - i,
{
    if i < lines.len() {
        lemma_stream_never_reads(lines[i]);
        lemma_stream_events_none(lines, i + 1);
    }
}

} // verus!
