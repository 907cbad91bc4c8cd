//! The reader of metric lines: `kew[<timestamp>]<kind>#<name>=<value><unit> <key>=<value>...`.
use vstd::prelude::*;
use crate::text::{
    lemma_first_stop, lemma_split_whitespace_blank, lemma_split_whitespace_step, lemma_trim_start,
    chars_of, lex_less, parse_u64_at, range_eq, scan, skip_ws_end, skip_ws_start, starts_with,
    trim_start, trim_end, spec_is_whitespace, spec_is_numeric, stops, decimal, lemma_decimal,
    lemma_parse_decimal, lemma_first_stop_concat, is_ascii_digit, push_decimal,
    first_stop, lemma_lex_asymmetric, lemma_lex_irreflexive, lemma_lex_total, lemma_lex_transitive,
    lex_lt, parse_u64, split_once, split_once_ws, split_whitespace, strip_prefix, Stop,
};

verus! {

/// The kind of a metric.
#[derive(Clone, Copy, Debug, PartialEq, Eq)]
pub enum Kind {
    Count,
    Gauge,
    Measure,
}

/// A key and its value; both borrow from the parsed line.
pub type Attr<'a> = (&'a str, &'a str);

/// The name, value and unit of a metric.
#[derive(Clone, Debug)]
pub struct Data<'a> {
    pub name: &'a str,
    pub value: u64,
    pub unit: &'a str,
}

/// The attributes of a metric, ordered by key, each key once.
#[derive(Debug)]
pub struct Attrs<'a> {
    attrs: Vec<Attr<'a>>,
}

/// A metric read from a line.
#[derive(Clone, Debug)]
pub struct Event<'a> {
    pub timestamp: u64,
    pub kind: Kind,
    pub data: Data<'a>,
    pub attrs: Attrs<'a>,
}

/// An attribute as character sequences.
pub type AttrView = (Seq<char>, Seq<char>);

/// A metric as plain values.
pub struct EventView {
    pub timestamp: u64,
    pub kind: Kind,
    pub name: Seq<char>,
    pub value: u64,
    pub unit: Seq<char>,
    pub attrs: Seq<AttrView>,
}

impl<'a> Attrs<'a> {
    pub closed spec fn view(&self) -> Seq<AttrView> {
        self.attrs@.map_values(|p: Attr<'a>| (p.0@, p.1@))
    }

    /// The same attributes.
    pub fn copy(&self) -> (r: Self)
        ensures
            r@ == self@,
    {
        proof {
            use_type_invariant(self);
        }
        let mut attrs: Vec<Attr<'a>> = Vec::new();
        let mut i: usize = 0;
        while i < self.attrs.len()
            invariant
                i <= self.attrs@.len(),
                attrs@ == self.attrs@.subrange(0, i as int),
            decreases self.attrs@.len() - i,
        {
            attrs.push(self.attrs[i]);
            assert(attrs@ =~= self.attrs@.subrange(0, i + 1));
            i = i + 1;
        }
        assert(attrs@ =~= self.attrs@);
        Attrs { attrs }
    }

    /// Keys strictly increase.
    #[verifier::type_invariant]
    pub open spec fn keys_increase(&self) -> bool {
        sorted_by_key(self@)
    }

    /// The attributes, ordered by key.
    pub fn as_slice(&self) -> (r: &[Attr<'a>])
        ensures
            r@.map_values(|p: Attr<'a>| (p.0@, p.1@)) == self@,
    {
        self.attrs.as_slice()
    }

    /// The number of attributes.
    pub fn len(&self) -> (r: usize)
        ensures
            r == self@.len(),
    {
        self.attrs.len()
    }

    /// The attribute at index `i`.
    pub fn get(&self, i: usize) -> (r: Attr<'a>)
        requires
            i < self@.len(),
        ensures
            (r.0@, r.1@) == self@[i as int],
    {
        self.attrs[i]
    }
}

impl<'a> Clone for Attrs<'a> {
    fn clone(&self) -> (r: Self)
        ensures
            r@ == self@,
    {
        self.copy()
    }
}

impl<'a> Event<'a> {
    pub open spec fn view(&self) -> EventView {
        EventView {
            timestamp: self.timestamp,
            kind: self.kind,
            name: self.data.name@,
            value: self.data.value,
            unit: self.data.unit@,
            attrs: self.attrs@,
        }
    }
}

pub open spec fn kind_name(kind: Kind) -> Seq<char> {
    match kind {
        Kind::Count => seq!['c', 'o', 'u', 'n', 't'],
        Kind::Gauge => seq!['g', 'a', 'u', 'g', 'e'],
        Kind::Measure => seq!['m', 'e', 'a', 's', 'u', 'r', 'e'],
    }
}

/// The tag that introduces a metric of `kind` in a line: its name and `#`.
pub open spec fn kind_tag(kind: Kind) -> Seq<char> {
    kind_name(kind).push('#')
}

pub open spec fn line_prefix() -> Seq<char> {
    seq!['k', 'e', 'w', '[']
}

impl Kind {
    /// The name of the kind.
    pub fn as_str(&self) -> (r: &'static str)
        ensures
            r@ == kind_name(*self),
    {
        match self {
            Kind::Count => {
                proof {
                    reveal_strlit("count");
                }
                "count"
            },
            Kind::Gauge => {
                proof {
                    reveal_strlit("gauge");
                }
                "gauge"
            },
            Kind::Measure => {
                proof {
                    reveal_strlit("measure");
                }
                "measure"
            },
        }
    }
}

/// The kind whose tag `s` starts with, tried in the order count, gauge,
/// measure, and the rest of `s`.
pub open spec fn parse_kind(s: Seq<char>) -> Option<(Kind, Seq<char>)> {
    match strip_prefix(s, kind_tag(Kind::Count)) {
        Some(r) => Some((Kind::Count, r)),
        None => match strip_prefix(s, kind_tag(Kind::Gauge)) {
            Some(r) => Some((Kind::Gauge, r)),
            None => match strip_prefix(s, kind_tag(Kind::Measure)) {
                Some(r) => Some((Kind::Measure, r)),
                None => None,
            },
        },
    }
}

/// The leading numeric characters of `s` read as a `u64`, and the characters after them.
pub open spec fn take_numeric(s: Seq<char>) -> Option<(u64, Seq<char>)> {
    let k = first_stop(s, Stop::NonNumeric);
    match parse_u64(s.subrange(0, k as int)) {
        Some(n) => Some((n, s.subrange(k as int, s.len() as int))),
        None => None,
    }
}

/// `name=<value><unit>` up to the first space: name, value, unit, and the rest after the space.
pub open spec fn parse_data(s: Seq<char>) -> Option<(Seq<char>, u64, Seq<char>, Seq<char>)> {
    match split_once_ws(s, '=') {
        None => None,
        Some((name, v)) => {
            let (value, rest) = match split_once(v, ' ') {
                Some((a, b)) => (a, b),
                None => (v, seq![]),
            };
            match take_numeric(value) {
                Some((n, unit)) => Some((name, n, unit, rest)),
                None => None,
            }
        },
    }
}

/// The `key=value` pairs among whitespace-separated tokens, split at the first `=`;
/// tokens without `=` are skipped.
pub open spec fn attr_pairs(tokens: Seq<Seq<char>>) -> Seq<AttrView>
    decreases tokens.len(),
{
    if tokens.len() == 0 {
        seq![]
    } else {
        let rest = attr_pairs(tokens.drop_last());
        match split_once(tokens.last(), '=') {
            Some(kv) => rest.push(kv),
            None => rest,
        }
    }
}

pub open spec fn keys(attrs: Seq<AttrView>) -> Seq<Seq<char>> {
    attrs.map_values(|p: AttrView| p.0)
}

/// Number of attributes whose key is ordered before `k`.
pub open spec fn count_before(attrs: Seq<AttrView>, k: Seq<char>) -> nat
    decreases attrs.len(),
{
    if attrs.len() == 0 {
        0
    } else {
        count_before(attrs.drop_last(), k) + if lex_lt(attrs.last().0, k) {
            1nat
        } else {
            0nat
        }
    }
}

/// `attrs` with `p` added at its place in key order, unless its key is already there.
pub open spec fn insert_attr(attrs: Seq<AttrView>, p: AttrView) -> Seq<AttrView> {
    if keys(attrs).contains(p.0) {
        attrs
    } else {
        attrs.insert(count_before(attrs, p.0) as int, p)
    }
}

/// The attributes of `pairs` ordered by key, keeping for each key the value it
/// has first.
pub open spec fn canonical_attrs(pairs: Seq<AttrView>) -> Seq<AttrView>
    decreases pairs.len(),
{
    if pairs.len() == 0 {
        seq![]
    } else {
        insert_attr(canonical_attrs(pairs.drop_last()), pairs.last())
    }
}

/// Keys strictly increase.
pub open spec fn sorted_by_key(attrs: Seq<AttrView>) -> bool {
    forall|i: int, j: int| 0 <= i < j < attrs.len() ==> lex_lt(#[trigger] attrs[i].0, #[trigger] attrs[j].0)
}

/// What `Attrs::parse` makes of the text after the data.
pub open spec fn parse_attrs(s: Seq<char>) -> Seq<AttrView> {
    canonical_attrs(attr_pairs(split_whitespace(s)))
}

/// What `Event::parse` makes of a line.
pub open spec fn parse_event(s: Seq<char>) -> Option<EventView> {
    match strip_prefix(s, line_prefix()) {
        None => None,
        Some(r1) => match split_once_ws(r1, ']') {
            None => None,
            Some((ts, r2)) => match parse_u64(ts) {
                None => None,
                Some(timestamp) => match parse_kind(r2) {
                    None => None,
                    Some((kind, r3)) => match parse_data(r3) {
                        None => None,
                        Some((name, value, unit, rest)) => Some(
                            EventView { timestamp, kind, name, value, unit, attrs: parse_attrs(rest) },
                        ),
                    },
                },
            },
        },
    }
}

} // verus!

verus! {

/// In key order, the attributes ordered before `k` are a prefix, `count_before` long.
pub proof fn lemma_count_before_prefix(attrs: Seq<AttrView>, k: Seq<char>)
    requires
        sorted_by_key(attrs),
    ensures
        count_before(attrs, k) <= attrs.len(),
        forall|j: int| 0 <= j < count_before(attrs, k) ==> lex_lt(#[trigger] attrs[j].0, k),
        forall|j: int| count_before(attrs, k) <= j < attrs.len() ==> !lex_lt(#[trigger] attrs[j].0, k),
    decreases attrs.len(),
{
    if attrs.len() > 0 {
        let init = attrs.drop_last();
        assert(sorted_by_key(init)) by {
            assert forall|i: int, j: int| 0 <= i < j < init.len() implies lex_lt(
                #[trigger] init[i].0,
                #[trigger] init[j].0,
            ) by {
                assert(init[i] == attrs[i] && init[j] == attrs[j]);
            }
        }
        lemma_count_before_prefix(init, k);
        let c = count_before(init, k);
        if lex_lt(attrs.last().0, k) {
            assert forall|j: int| 0 <= j < attrs.len() - 1 implies lex_lt(#[trigger] attrs[j].0, k) by {
                assert(lex_lt(attrs[j].0, attrs[attrs.len() - 1].0));
                lemma_lex_transitive(attrs[j].0, attrs.last().0, k);
            }
            if c < init.len() {
                assert(init[c as int] == attrs[c as int]);
                assert(!lex_lt(init[c as int].0, k));
            }
        }
        assert forall|j: int| 0 <= j < count_before(attrs, k) implies lex_lt(#[trigger] attrs[j].0, k) by {
            if j < init.len() {
                assert(init[j] == attrs[j]);
            }
        }
        assert forall|j: int| count_before(attrs, k) <= j < attrs.len() implies !lex_lt(
            #[trigger] attrs[j].0,
            k,
        ) by {
            if j < init.len() {
                assert(init[j] == attrs[j]);
            }
        }
    }
}

/// `count_before` is the length of any prefix of keys ordered before `k`
/// after which no key is.
pub proof fn lemma_count_before_exact(attrs: Seq<AttrView>, k: Seq<char>, i: int)
    requires
        0 <= i <= attrs.len(),
        forall|j: int| 0 <= j < i ==> lex_lt(#[trigger] attrs[j].0, k),
        forall|j: int| i <= j < attrs.len() ==> !lex_lt(#[trigger] attrs[j].0, k),
    ensures
        count_before(attrs, k) == i,
    decreases attrs.len(),
{
    if attrs.len() > 0 {
        let init = attrs.drop_last();
        let ii = if i == attrs.len() { i - 1 } else { i };
        assert forall|j: int| 0 <= j < ii implies lex_lt(#[trigger] init[j].0, k) by {
            assert(init[j] == attrs[j]);
        }
        assert forall|j: int| ii <= j < init.len() implies !lex_lt(#[trigger] init[j].0, k) by {
            assert(init[j] == attrs[j]);
        }
        lemma_count_before_exact(init, k, ii);
    }
}

pub proof fn lemma_keys_contains(attrs: Seq<AttrView>, k: Seq<char>)
    ensures
        keys(attrs).contains(k) <==> exists|j: int| 0 <= j < attrs.len() && #[trigger] attrs[j].0 == k,
{
    if keys(attrs).contains(k) {
        let j = choose|j: int| 0 <= j < keys(attrs).len() && keys(attrs)[j] == k;
        assert(attrs[j].0 == k);
    }
    if exists|j: int| 0 <= j < attrs.len() && #[trigger] attrs[j].0 == k {
        let j = choose|j: int| 0 <= j < attrs.len() && #[trigger] attrs[j].0 == k;
        assert(keys(attrs)[j] == k);
    }
}

/// Adding an attribute keeps the keys strictly increasing.
pub proof fn lemma_insert_attr_sorted(attrs: Seq<AttrView>, p: AttrView)
    requires
        sorted_by_key(attrs),
    ensures
        sorted_by_key(insert_attr(attrs, p)),
{
    lemma_keys_contains(attrs, p.0);
    if !keys(attrs).contains(p.0) {
        lemma_count_before_prefix(attrs, p.0);
        let i = count_before(attrs, p.0) as int;
        let q = attrs.insert(i, p);
        assert forall|a: int, b: int| 0 <= a < b < q.len() implies lex_lt(#[trigger] q[a].0, #[trigger] q[b].0) by {
            if b < i {
            } else if a < i && b == i {
            } else if a < i && b > i {
                assert(q[b] == attrs[b - 1]);
            } else if a == i {
                assert(q[b] == attrs[b - 1]);
                assert(!lex_lt(attrs[b - 1].0, p.0));
                assert(attrs[b - 1].0 != p.0);
                lemma_lex_total(attrs[b - 1].0, p.0);
            } else {
                assert(q[a] == attrs[a - 1] && q[b] == attrs[b - 1]);
            }
        }
    }
}

/// The attributes that `Attrs::parse` keeps have strictly increasing keys.
pub proof fn lemma_canonical_attrs_sorted(pairs: Seq<AttrView>)
    ensures
        sorted_by_key(canonical_attrs(pairs)),
    decreases pairs.len(),
{
    if pairs.len() > 0 {
        lemma_canonical_attrs_sorted(pairs.drop_last());
        lemma_insert_attr_sorted(canonical_attrs(pairs.drop_last()), pairs.last());
    }
}

/// Attributes already in strictly increasing key order are kept as they are.
pub proof fn lemma_canonical_attrs_of_sorted(pairs: Seq<AttrView>)
    requires
        sorted_by_key(pairs),
    ensures
        canonical_attrs(pairs) == pairs,
    decreases pairs.len(),
{
    if pairs.len() > 0 {
        let init = pairs.drop_last();
        assert(sorted_by_key(init)) by {
            assert forall|i: int, j: int| 0 <= i < j < init.len() implies lex_lt(
                #[trigger] init[i].0,
                #[trigger] init[j].0,
            ) by {
                assert(init[i] == pairs[i] && init[j] == pairs[j]);
            }
        }
        lemma_canonical_attrs_of_sorted(init);
        let k = pairs.last().0;
        assert forall|j: int| 0 <= j < init.len() implies lex_lt(#[trigger] init[j].0, k) by {
            assert(init[j] == pairs[j]);
        }
        lemma_keys_contains(init, k);
        assert(!keys(init).contains(k)) by {
            if keys(init).contains(k) {
                let j = choose|j: int| 0 <= j < init.len() && #[trigger] init[j].0 == k;
                lemma_lex_irreflexive(k);
            }
        }
        lemma_count_before_exact(init, k, init.len() as int);
        assert(init.insert(init.len() as int, pairs.last()) =~= pairs);
    }
}

} // verus!

verus! {

/// Key and value of an attribute as index ranges `[.0, .1)` and `[.2, .3)` into a line.
pub(crate) type Span = (usize, usize, usize, usize);

pub open spec fn span_ok(len: nat, sp: (usize, usize, usize, usize)) -> bool {
    sp.0 <= sp.1 <= len && sp.2 <= sp.3 <= len
}

pub open spec fn span_view(s: Seq<char>, sp: (usize, usize, usize, usize)) -> AttrView {
    (s.subrange(sp.0 as int, sp.1 as int), s.subrange(sp.2 as int, sp.3 as int))
}

pub open spec fn spans_view(s: Seq<char>, spans: Seq<(usize, usize, usize, usize)>) -> Seq<AttrView> {
    spans.map_values(|sp: (usize, usize, usize, usize)| span_view(s, sp))
}

/// Adds the attribute `sp` of `s` to `acc` as `insert_attr` does.
fn insert_span(s: &Vec<char>, acc: &mut Vec<Span>, sp: Span)
    requires
        span_ok(s@.len(), sp),
        forall|i: int| 0 <= i < old(acc)@.len() ==> span_ok(s@.len(), #[trigger] old(acc)@[i]),
        sorted_by_key(spans_view(s@, old(acc)@)),
    ensures
        forall|i: int| 0 <= i < final(acc)@.len() ==> span_ok(s@.len(), #[trigger] final(acc)@[i]),
        spans_view(s@, final(acc)@) == insert_attr(spans_view(s@, old(acc)@), span_view(s@, sp)),
{
    let ghost v = spans_view(s@, acc@);
    let ghost k = s@.subrange(sp.0 as int, sp.1 as int);
    let mut i: usize = 0;
    while i < acc.len() && lex_less(s, acc[i].0, acc[i].1, sp.0, sp.1)
        invariant
            i <= acc@.len(),
            acc@ == old(acc)@,
            v == spans_view(s@, acc@),
            k == s@.subrange(sp.0 as int, sp.1 as int),
            span_ok(s@.len(), sp),
            forall|j: int| 0 <= j < acc@.len() ==> span_ok(s@.len(), #[trigger] acc@[j]),
            forall|j: int| 0 <= j < i ==> lex_lt(#[trigger] v[j].0, k),
        decreases acc@.len() - i,
    {
        assert(v[i as int] == span_view(s@, acc@[i as int]));
        i = i + 1;
    }
    proof {
        lemma_keys_contains(v, k);
    }
    if i < acc.len() && range_eq(s, acc[i].0, acc[i].1, sp.0, sp.1) {
        assert(v[i as int] == span_view(s@, acc@[i as int]));
        assert(v[i as int].0 == k);
        return;
    }
    proof {
        if i < acc@.len() {
            assert(v[i as int] == span_view(s@, acc@[i as int]));
            assert(!lex_lt(v[i as int].0, k));
            assert(v[i as int].0 != k);
            lemma_lex_total(v[i as int].0, k);
        }
        assert forall|j: int| i <= j < v.len() implies !lex_lt(#[trigger] v[j].0, k) by {
            if j > i {
                assert(lex_lt(v[i as int].0, v[j].0));
                lemma_lex_transitive(k, v[i as int].0, v[j].0);
                lemma_lex_asymmetric(k, v[j].0);
            }
        }
        lemma_count_before_exact(v, k, i as int);
        assert(!keys(v).contains(k)) by {
            if keys(v).contains(k) {
                let j = choose|j: int| 0 <= j < v.len() && #[trigger] v[j].0 == k;
                lemma_lex_irreflexive(k);
                if j > i {
                    lemma_lex_transitive(k, v[i as int].0, v[j].0);
                }
            }
        }
    }
    acc.insert(i, sp);
    assert(spans_view(s@, acc@) =~= v.insert(i as int, span_view(s@, sp)));
}

/// The attributes of `s[lo..hi]` as `parse_attrs` gives them, as ranges of `s`.
fn attr_spans(s: &Vec<char>, lo: usize, hi: usize) -> (r: Vec<Span>)
    requires
        lo <= hi <= s@.len(),
    ensures
        forall|i: int| 0 <= i < r@.len() ==> span_ok(s@.len(), #[trigger] r@[i]),
        spans_view(s@, r@) == parse_attrs(s@.subrange(lo as int, hi as int)),
{
    let mut acc: Vec<Span> = Vec::new();
    let ghost mut toks: Seq<Seq<char>> = seq![];
    let mut i = lo;
    loop
        invariant
            lo <= i <= hi <= s@.len(),
            split_whitespace(s@.subrange(lo as int, hi as int)) == toks + split_whitespace(
                s@.subrange(i as int, hi as int),
            ),
            forall|j: int| 0 <= j < acc@.len() ==> span_ok(s@.len(), #[trigger] acc@[j]),
            spans_view(s@, acc@) == canonical_attrs(attr_pairs(toks)),
        ensures
            split_whitespace(s@.subrange(lo as int, hi as int)) == toks,
            forall|j: int| 0 <= j < acc@.len() ==> span_ok(s@.len(), #[trigger] acc@[j]),
            spans_view(s@, acc@) == canonical_attrs(attr_pairs(toks)),
        decreases hi - i,
    {
        let st = skip_ws_start(s, i, hi);
        proof {
            lemma_trim_start(s@.subrange(i as int, hi as int));
        }
        if st == hi {
            proof {
                lemma_split_whitespace_blank(s@.subrange(i as int, hi as int));
                assert(toks + Seq::<Seq<char>>::empty() =~= toks);
            }
            break;
        }
        let ghost rest = s@.subrange(st as int, hi as int);
        let e = scan(s, st, hi, Stop::Whitespace);
        proof {
            lemma_split_whitespace_step(rest);
            assert(rest.subrange(0, (e - st) as int) =~= s@.subrange(st as int, e as int));
            assert(rest.subrange((e - st) as int, rest.len() as int) =~= s@.subrange(e as int, hi as int));
        }
        let ghost t = s@.subrange(st as int, e as int);
        let eq = scan(s, st, e, Stop::At('='));
        proof {
            lemma_first_stop(t, Stop::At('='));
            assert(t.subrange(0, (eq - st) as int) =~= s@.subrange(st as int, eq as int));
            if eq < e {
                assert(t.subrange((eq - st) + 1, t.len() as int) =~= s@.subrange(eq + 1, e as int));
            }
            lemma_canonical_attrs_sorted(attr_pairs(toks));
            assert(toks.push(t).drop_last() =~= toks);
            let ps = attr_pairs(toks);
            if eq < e {
                let p = span_view(s@, (st, eq, (eq + 1) as usize, e));
                assert(attr_pairs(toks.push(t)) == ps.push(p));
                assert(ps.push(p).drop_last() =~= ps);
            } else {
                assert(attr_pairs(toks.push(t)) == ps);
            }
        }
        if eq < e {
            insert_span(s, &mut acc, (st, eq, eq + 1, e));
        }
        proof {
            assert(toks + split_whitespace(s@.subrange(i as int, hi as int)) =~= toks.push(t)
                + split_whitespace(s@.subrange(e as int, hi as int)));
            toks = toks.push(t);
        }
        i = e;
    }
    acc
}

} // verus!

verus! {

impl<'a> Attrs<'a> {
    /// Reads the `key=value` tokens of `v`: tokens are split at whitespace and at
    /// their first `=`, tokens without `=` are skipped, and the result is ordered
    /// by key, keeping for each key the value it has first.
    pub fn parse(v: &'a str) -> (r: Option<Self>)
        ensures
            r is Some,
            r.unwrap()@ == parse_attrs(v@),
    {
        let s = chars_of(v);
        let n = s.len();
        assert(s@.subrange(0, n as int) =~= v@);
        let spans = attr_spans(&s, 0, n);
        let mut attrs: Vec<Attr<'a>> = Vec::new();
        let mut i: usize = 0;
        while i < spans.len()
            invariant
                s@ == v@,
                i <= spans@.len(),
                forall|j: int| 0 <= j < spans@.len() ==> span_ok(s@.len(), #[trigger] spans@[j]),
                attrs@.len() == i,
                forall|j: int| 0 <= j < i ==> (#[trigger] attrs@[j].0@, attrs@[j].1@) == span_view(s@, spans@[j]),
            decreases spans@.len() - i,
        {
            let sp = spans[i];
            assert(span_ok(s@.len(), spans@[i as int]));
            let key = v.substring_char(sp.0, sp.1);
            let value = v.substring_char(sp.2, sp.3);
            attrs.push((key, value));
            i = i + 1;
        }
        assert(attrs@.map_values(|p: Attr<'a>| (p.0@, p.1@)) =~= spans_view(s@, spans@));
        proof {
            lemma_canonical_attrs_sorted(attr_pairs(split_whitespace(v@)));
        }
        let r = Attrs { attrs };
        Some(r)
    }
}

impl<'a> Data<'a> {
    /// Reads `name=<value><unit>` up to the first space; the name loses its
    /// trailing whitespace, and the value is the leading numeric characters.
    /// Gives the data and the text after the space.
    pub fn parse(v: &'a str) -> (r: Option<(Self, &'a str)>)
        ensures
            match parse_data(v@) {
                Some((name, value, unit, rest)) => r matches Some((d, rr)) && d.name@ == name
                    && d.value == value && d.unit@ == unit && rr@ == rest,
                None => r is None,
            },
    {
        let s = chars_of(v);
        let n = s.len();
        assert(s@.subrange(0, n as int) =~= s@);
        let eq = scan(&s, 0, n, Stop::At('='));
        if eq == n {
            return None;
        }
        let name_end = skip_ws_end(&s, 0, eq);
        let vstart = skip_ws_start(&s, eq + 1, n);
        let ghost vv = s@.subrange(vstart as int, n as int);
        proof {
            assert(s@.subrange(0, eq as int) =~= s@.subrange(0, eq as int));
        }
        let sp = scan(&s, vstart, n, Stop::At(' '));
        let value_end;
        let rest_start;
        if sp < n {
            value_end = sp;
            rest_start = sp + 1;
            proof {
                assert(vv.subrange(0, (sp - vstart) as int) =~= s@.subrange(vstart as int, sp as int));
                assert(vv.subrange((sp - vstart) + 1, vv.len() as int) =~= s@.subrange(sp + 1, n as int));
            }
        } else {
            value_end = n;
            rest_start = n;
            assert(s@.subrange(n as int, n as int) =~= Seq::<char>::empty());
        }
        let ghost value = s@.subrange(vstart as int, value_end as int);
        let k = scan(&s, vstart, value_end, Stop::NonNumeric);
        proof {
            assert(value.subrange(0, (k - vstart) as int) =~= s@.subrange(vstart as int, k as int));
            assert(value.subrange((k - vstart) as int, value.len() as int) =~= s@.subrange(k as int, value_end as int));
        }
        let number = parse_u64_at(&s, vstart, k);
        match number {
            None => None,
            Some(x) => {
                let data = Data {
                    name: v.substring_char(0, name_end),
                    value: x,
                    unit: v.substring_char(k, value_end),
                };
                Some((data, v.substring_char(rest_start, n)))
            },
        }
    }
}

proof fn lemma_strip_prefix_at(s: Seq<char>, b: int, n: int, lit: Seq<char>)
    requires
        0 <= b <= n <= s.len(),
    ensures
        strip_prefix(s.subrange(b, n), lit) == if lit.len() <= n - b && s.subrange(b, b + lit.len()) == lit {
            Some(s.subrange(b + lit.len(), n))
        } else {
            None::<Seq<char>>
        },
{
    if lit.len() <= n - b {
        assert(s.subrange(b, n).subrange(0, lit.len() as int) =~= s.subrange(b, b + lit.len()));
        assert(s.subrange(b, n).subrange(lit.len() as int, n - b) =~= s.subrange(b + lit.len(), n));
    }
}

fn chars_vec(a: char, b: char, c: char, d: char) -> (r: Vec<char>)
    ensures
        r@ == seq![a, b, c, d],
{
    let mut r = Vec::new();
    r.push(a);
    r.push(b);
    r.push(c);
    r.push(d);
    assert(r@ =~= seq![a, b, c, d]);
    r
}

fn line_prefix_chars() -> (r: Vec<char>)
    ensures
        r@ == line_prefix(),
{
    chars_vec('k', 'e', 'w', '[')
}

fn kind_tag_chars(kind: Kind) -> (r: Vec<char>)
    ensures
        r@ == kind_tag(kind),
{
    let mut r = match kind {
        Kind::Count => chars_vec('c', 'o', 'u', 'n'),
        Kind::Gauge => chars_vec('g', 'a', 'u', 'g'),
        Kind::Measure => chars_vec('m', 'e', 'a', 's'),
    };
    match kind {
        Kind::Count => {
            r.push('t');
        },
        Kind::Gauge => {
            r.push('e');
        },
        Kind::Measure => {
            r.push('u');
            r.push('r');
            r.push('e');
        },
    }
    r.push('#');
    assert(r@ =~= kind_tag(kind));
    r
}

/// The line's prefix, timestamp and kind tag read as `parse_event` reads
/// them: the timestamp, the kind, and the text after the tag.
pub open spec fn parse_header(s: Seq<char>) -> Option<(u64, Kind, Seq<char>)> {
    match strip_prefix(s, line_prefix()) {
    None => None,
    Some(r1) => match split_once_ws(r1, ']') {
        None => None,
        Some((ts, r2)) => match parse_u64(ts) {
            None => None,
            Some(timestamp) => match parse_kind(r2) {
                None => None,
                Some((kind, r3)) => Some((timestamp, kind, r3)),
            },
        },
    },
    }
}

/// Reads `kew[<timestamp>]<kind>#` at the start of `v`.
pub(crate) fn header<'a>(v: &'a str) -> (r: Option<(u64, Kind, &'a str)>)
    ensures
    match parse_header(v@) {
        Some((t, k, rest)) => r matches Some((t2, k2, rest2)) && t2 == t && k2 == k && rest2@ == rest,
        None => r is None,
    },
{
    let s = chars_of(v);
    let n = s.len();
    if !starts_with(&s, 0, n, line_prefix_chars().as_slice()) {
        assert(s@.subrange(0, n as int) =~= v@);
        return None;
    }
    assert(s@.subrange(0, n as int) =~= v@);
    assert(strip_prefix(v@, line_prefix()) == Some(s@.subrange(4, n as int)));
    let ghost r1 = s@.subrange(4, n as int);
    let close = scan(&s, 4, n, Stop::At(']'));
    if close == n {
        return None;
    }
    let ts_end = skip_ws_end(&s, 4, close);
    let b = skip_ws_start(&s, close + 1, n);
    proof {
        assert(r1.subrange(0, (close - 4) as int) =~= s@.subrange(4, close as int));
        assert(r1.subrange((close - 4) + 1, r1.len() as int) =~= s@.subrange(close + 1, n as int));
    }
    let timestamp = match parse_u64_at(&s, 4, ts_end) {
        Some(t) => t,
        None => return None,
    };
    let ghost r2 = s@.subrange(b as int, n as int);
    let kind;
    let tag;
    let count_tag = kind_tag_chars(Kind::Count);
    let gauge_tag = kind_tag_chars(Kind::Gauge);
    let measure_tag = kind_tag_chars(Kind::Measure);
    proof {
        lemma_strip_prefix_at(s@, b as int, n as int, kind_tag(Kind::Count));
        lemma_strip_prefix_at(s@, b as int, n as int, kind_tag(Kind::Gauge));
        lemma_strip_prefix_at(s@, b as int, n as int, kind_tag(Kind::Measure));
    }
    if starts_with(&s, b, n, count_tag.as_slice()) {
        kind = Kind::Count;
        tag = count_tag;
    } else if starts_with(&s, b, n, gauge_tag.as_slice()) {
        kind = Kind::Gauge;
        tag = gauge_tag;
    } else if starts_with(&s, b, n, measure_tag.as_slice()) {
        kind = Kind::Measure;
        tag = measure_tag;
    } else {
        return None;
    }
    let p = b + tag.len();
    assert(parse_kind(r2) == Some((kind, s@.subrange(p as int, n as int))));
    let rest = v.substring_char(p, n);
    Some((timestamp, kind, rest))
}

impl<'a> Event<'a> {
    /// Reads a metric line `kew[<timestamp>]<kind>#<name>=<value><unit> <attrs>`.
    pub fn parse(v: &'a str) -> (r: Option<Self>)
        ensures
            match parse_event(v@) {
                Some(e) => r matches Some(ev) && ev@ == e,
                None => r is None,
            },
    {
        let (timestamp, kind, rest) = match header(v) {
            Some(h) => h,
            None => return None,
        };
        let (data, tail) = match Data::parse(rest) {
            Some(d) => d,
            None => return None,
        };
        let attrs = match Attrs::parse(tail) {
            Some(a) => a,
            None => return None,
        };
        Some(Event { timestamp, kind, data, attrs })
    }
}

} // verus!

verus! {

/// The events of the lines that read as metrics, in order; other lines are skipped.
pub open spec fn parse_lines(lines: Seq<Seq<char>>) -> Seq<EventView>
    decreases lines.len(),
{
    if lines.len() == 0 {
        seq![]
    } else {
        let rest = parse_lines(lines.drop_last());
        match parse_event(lines.last()) {
            Some(e) => rest.push(e),
            None => rest,
        }
    }
}

pub open spec fn events_view<'a>(events: Seq<Event<'a>>) -> Seq<EventView> {
    events.map_values(|e: Event<'a>| e@)
}

pub open spec fn lines_view(lines: Seq<String>) -> Seq<Seq<char>> {
    lines.map_values(|l: String| l@)
}

/// Reads every line as a metric and gives the events of those that are one, in order.
pub fn parse<'a>(lines: &'a Vec<String>) -> (r: Vec<Event<'a>>)
    ensures
        events_view(r@) == parse_lines(lines_view(lines@)),
{
    let mut events: Vec<Event<'a>> = Vec::new();
    let mut i: usize = 0;
    while i < lines.len()
        invariant
            i <= lines@.len(),
            events_view(events@) == parse_lines(lines_view(lines@.subrange(0, i as int))),
        decreases lines@.len() - i,
    {
        let line: &'a String = &lines[i];
        let ghost before = events@;
        assert(lines_view(lines@.subrange(0, i + 1)).drop_last() =~= lines_view(lines@.subrange(0, i as int)));
        assert(lines_view(lines@.subrange(0, i + 1)).last() == line@);
        match Event::parse(line.as_str()) {
            Some(e) => {
                events.push(e);
                assert(events_view(events@) =~= events_view(before).push(e@));
            },
            None => {},
        }
        i = i + 1;
    }
    assert(lines@.subrange(0, i as int) =~= lines@);
    events
}

} // verus!

verus! {

/// An attribute as the line holds it: `key=value`.
pub open spec fn attr_token(p: AttrView) -> Seq<char> {
    p.0 + seq!['='] + p.1
}

/// The attributes as the line holds them: ` key=value` for each, in order.
pub open spec fn attrs_text(a: Seq<AttrView>) -> Seq<char>
    decreases a.len(),
{
    if a.len() == 0 {
        seq![]
    } else {
        seq![' '] + attr_token(a[0]) + attrs_text(a.drop_first())
    }
}

/// The line that records a metric:
/// `kew[<timestamp>]<kind>#<name>=<value><unit>` and then ` <key>=<value>` per attribute.
pub open spec fn format_event(e: EventView) -> Seq<char> {
    line_prefix() + decimal(e.timestamp as nat) + seq![']'] + kind_tag(e.kind) + e.name + seq!['='] + decimal(
        e.value as nat,
    ) + e.unit + attrs_text(e.attrs)
}

/// The attribute can be written as a whitespace-free `key=value` token whose
/// first `=` ends the key.
pub open spec fn attr_safe(p: AttrView) -> bool {
    &&& forall|i: int| 0 <= i < p.0.len() ==> !spec_is_whitespace(#[trigger] p.0[i]) && p.0[i] != '='
    &&& forall|i: int| 0 <= i < p.1.len() ==> !spec_is_whitespace(#[trigger] p.1[i])
}

/// The event's fields can be written in a line and read back: the name has
/// no `=` and does not end in whitespace, the unit has no space and does not
/// start with a numeric character, the attributes are safe tokens.
pub open spec fn fields_safe(e: EventView) -> bool {
    &&& forall|i: int| 0 <= i < e.name.len() ==> #[trigger] e.name[i] != '='
    &&& e.name.len() > 0 ==> !spec_is_whitespace(e.name.last())
    &&& forall|i: int| 0 <= i < e.unit.len() ==> #[trigger] e.unit[i] != ' '
    &&& e.unit.len() > 0 ==> !spec_is_numeric(e.unit[0])
    &&& forall|i: int| 0 <= i < e.attrs.len() ==> attr_safe(#[trigger] e.attrs[i])
}

/// The event can be written as a line and read back as it is: its fields are
/// safe and its attributes are in strictly increasing key order.
pub open spec fn line_safe(e: EventView) -> bool {
    &&& fields_safe(e)
    &&& sorted_by_key(e.attrs)
}

/// No two attributes have the same key.
pub open spec fn distinct_keys(a: Seq<AttrView>) -> bool {
    forall|i: int, j: int| 0 <= i < j < a.len() ==> #[trigger] a[i].0 != #[trigger] a[j].0
}

proof fn lemma_split_whitespace_attrs(a: Seq<AttrView>)
    requires
        forall|i: int| 0 <= i < a.len() ==> attr_safe(#[trigger] a[i]),
    ensures
        split_whitespace(attrs_text(a)) == a.map_values(|p: AttrView| attr_token(p)),
    decreases a.len(),
{
    if a.len() > 0 {
        let t0 = attr_token(a[0]);
        let rest = attrs_text(a.drop_first());
        let x = t0 + rest;
        assert(attrs_text(a).drop_first() =~= x);
        assert(attr_safe(a[0]));
        assert forall|i: int| 0 <= i < t0.len() implies !stops(Stop::Whitespace, #[trigger] t0[i]) by {
            if i < a[0].0.len() {
                assert(t0[i] == a[0].0[i]);
            } else if i > a[0].0.len() {
                assert(t0[i] == a[0].1[i - a[0].0.len() - 1]);
            }
        }
        lemma_first_stop_concat(t0, rest, Stop::Whitespace);
        assert(first_stop(rest, Stop::Whitespace) == 0);
        assert(!spec_is_whitespace(x[0])) by {
            assert(x[0] == t0[0]);
        }
        crate::text::lemma_split_whitespace_step(x);
        assert(x.subrange(0, t0.len() as int) =~= t0);
        assert(x.subrange(t0.len() as int, x.len() as int) =~= rest);
        assert forall|i: int| 0 <= i < a.drop_first().len() implies attr_safe(#[trigger] a.drop_first()[i]) by {
            assert(a.drop_first()[i] == a[i + 1]);
        }
        lemma_split_whitespace_attrs(a.drop_first());
        assert(a.map_values(|p: AttrView| attr_token(p)) =~= seq![t0] + a.drop_first().map_values(
            |p: AttrView| attr_token(p),
        ));
    }
}

proof fn lemma_attr_pairs_tokens(a: Seq<AttrView>)
    requires
        forall|i: int| 0 <= i < a.len() ==> attr_safe(#[trigger] a[i]),
    ensures
        attr_pairs(a.map_values(|p: AttrView| attr_token(p))) == a,
    decreases a.len(),
{
    if a.len() > 0 {
        let toks = a.map_values(|p: AttrView| attr_token(p));
        assert(toks.drop_last() =~= a.drop_last().map_values(|p: AttrView| attr_token(p)));
        assert forall|i: int| 0 <= i < a.drop_last().len() implies attr_safe(#[trigger] a.drop_last()[i]) by {
            assert(a.drop_last()[i] == a[i]);
        }
        lemma_attr_pairs_tokens(a.drop_last());
        let p = a.last();
        assert(attr_safe(a[a.len() - 1]));
        let t = attr_token(p);
        assert(toks.last() == t);
        assert forall|i: int| 0 <= i < p.0.len() implies !stops(Stop::At('='), #[trigger] p.0[i]) by {}
        lemma_first_stop_concat(p.0, seq!['='] + p.1, Stop::At('='));
        assert(t =~= p.0 + (seq!['='] + p.1));
        assert(first_stop(seq!['='] + p.1, Stop::At('=')) == 0);
        assert(t.subrange(0, p.0.len() as int) =~= p.0);
        assert(t.subrange(p.0.len() as int + 1, t.len() as int) =~= p.1);
        assert(a.drop_last().push(p) =~= a);
    }
}

} // verus!

verus! {

/// The text after the value's space, as the parser sees it.
pub open spec fn attrs_rest(a: Seq<AttrView>) -> Seq<char> {
    if a.len() == 0 {
        seq![]
    } else {
        attrs_text(a).drop_first()
    }
}

proof fn lemma_parse_attrs_text(a: Seq<AttrView>)
    requires
        forall|i: int| 0 <= i < a.len() ==> attr_safe(#[trigger] a[i]),
    ensures
        parse_attrs(attrs_rest(a)) == canonical_attrs(a),
{
    lemma_split_whitespace_attrs(a);
    lemma_attr_pairs_tokens(a);
    if a.len() > 0 {
        assert(attrs_text(a)[0] == ' ');
        assert(split_whitespace(attrs_text(a)) == split_whitespace(attrs_text(a).drop_first()));
    } else {
        assert(a.map_values(|p: AttrView| attr_token(p)) =~= Seq::<Seq<char>>::empty());
    }
}

#[verifier::rlimit(40)]
#[verifier::spinoff_prover]
proof fn lemma_parse_data_text(e: EventView)
    requires
        fields_safe(e),
    ensures
        parse_data(e.name + seq!['='] + decimal(e.value as nat) + e.unit + attrs_text(e.attrs)) == Some(
            (e.name, e.value, e.unit, attrs_rest(e.attrs)),
        ),
{
    let d = decimal(e.value as nat);
    let at = attrs_text(e.attrs);
    let v = d + e.unit + at;
    let n = e.name + seq!['='] + v;
    lemma_decimal(e.value as nat);
    assert(n =~= e.name + (seq!['='] + v));
    assert forall|i: int| 0 <= i < e.name.len() implies !stops(Stop::At('='), #[trigger] e.name[i]) by {}
    lemma_first_stop_concat(e.name, seq!['='] + v, Stop::At('='));
    assert(first_stop(seq!['='] + v, Stop::At('=')) == 0);
    assert(n.subrange(0, e.name.len() as int) =~= e.name);
    assert(n.subrange(e.name.len() as int + 1, n.len() as int) =~= v);
    assert(split_once(n, '=') == Some((e.name, v)));
    // the name keeps its end, the value its start
    if e.name.len() > 0 {
        assert(!spec_is_whitespace(e.name.last()));
    }
    assert(trim_end(e.name) == e.name);
    assert(is_ascii_digit(d[0]));
    assert(v[0] == d[0]);
    assert(trim_start(v) == v);
    assert(split_once_ws(n, '=') == Some((e.name, v)));
    // the value and unit end at the first space
    assert forall|i: int| 0 <= i < d.len() implies !stops(Stop::At(' '), #[trigger] d[i]) by {
        assert(is_ascii_digit(d[i]));
    }
    assert forall|i: int| 0 <= i < e.unit.len() implies !stops(Stop::At(' '), #[trigger] e.unit[i]) by {}
    let du = d + e.unit;
    assert forall|i: int| 0 <= i < du.len() implies !stops(Stop::At(' '), #[trigger] du[i]) by {
        if i < d.len() {
            assert(du[i] == d[i]);
        } else {
            assert(du[i] == e.unit[i - d.len()]);
        }
    }
    lemma_first_stop_concat(du, at, Stop::At(' '));
    if e.attrs.len() > 0 {
        assert(at[0] == ' ');
        assert(first_stop(at, Stop::At(' ')) == 0);
        assert(v.subrange(0, du.len() as int) =~= du);
        assert(v.subrange(du.len() as int + 1, v.len() as int) =~= at.drop_first());
        assert(split_once(v, ' ') == Some((du, at.drop_first())));
    } else {
        assert(at =~= Seq::<char>::empty());
        assert(first_stop(at, Stop::At(' ')) == 0);
        assert(v =~= du);
        assert(split_once(v, ' ') is None);
    }
    // the number ends where the unit starts
    assert forall|i: int| 0 <= i < d.len() implies !stops(Stop::NonNumeric, #[trigger] d[i]) by {
        assert(is_ascii_digit(d[i]));
    }
    lemma_first_stop_concat(d, e.unit, Stop::NonNumeric);
    assert(first_stop(e.unit, Stop::NonNumeric) == 0);
    assert(du.subrange(0, d.len() as int) =~= d);
    assert(du.subrange(d.len() as int, du.len() as int) =~= e.unit);
    lemma_parse_decimal(e.value);
    assert(take_numeric(du) == Some((e.value, e.unit)));
    assert(parse_data(n) == Some((e.name, e.value, e.unit, attrs_rest(e.attrs))));
    assert(n =~= e.name + seq!['='] + decimal(e.value as nat) + e.unit + attrs_text(e.attrs));
}

/// A metric line that the library writes for an event reads back as that
/// event with its attributes ordered by key, whenever the event's fields can
/// stand in a line and no two attributes share a key.
#[verifier::rlimit(60)]
#[verifier::spinoff_prover]
pub proof fn lemma_parse_format_event_sorts(e: EventView)
    requires
        fields_safe(e),
        distinct_keys(e.attrs),
    ensures
        parse_event(format_event(e)) == Some(EventView { attrs: canonical_attrs(e.attrs), ..e }),
        sorted_by_key(canonical_attrs(e.attrs)),
        canonical_attrs(e.attrs).len() == e.attrs.len(),
        forall|p: AttrView| #[trigger] canonical_attrs(e.attrs).contains(p) <==> e.attrs.contains(p),
{
    lemma_canonical_attrs_sorted(e.attrs);
    lemma_canonical_attrs_pairs(e.attrs);
    let ts = decimal(e.timestamp as nat);
    let tag = kind_tag(e.kind);
    let data = e.name + seq!['='] + decimal(e.value as nat) + e.unit + attrs_text(e.attrs);
    let t = tag + data;
    let r1 = ts + (seq![']'] + t);
    let line = format_event(e);
    assert(line =~= line_prefix() + r1);
    assert(line.subrange(0, 4) =~= line_prefix());
    assert(line.subrange(4, line.len() as int) =~= r1);
    lemma_decimal(e.timestamp as nat);
    assert forall|i: int| 0 <= i < ts.len() implies !stops(Stop::At(']'), #[trigger] ts[i]) by {
        assert(is_ascii_digit(ts[i]));
    }
    lemma_first_stop_concat(ts, seq![']'] + t, Stop::At(']'));
    assert(first_stop(seq![']'] + t, Stop::At(']')) == 0);
    assert(r1.subrange(0, ts.len() as int) =~= ts);
    assert(r1.subrange(ts.len() as int + 1, r1.len() as int) =~= t);
    assert(is_ascii_digit(ts.last()));
    assert(trim_end(ts) == ts);
    assert(t[0] == tag[0]);
    assert(trim_start(t) == t);
    lemma_parse_decimal(e.timestamp);
    assert(t.subrange(0, tag.len() as int) =~= tag);
    assert(t.subrange(tag.len() as int, t.len() as int) =~= data);
    assert(kind_tag(Kind::Count)[0] == 'c' && kind_tag(Kind::Gauge)[0] == 'g' && kind_tag(Kind::Measure)[0] == 'm');
    if e.kind != Kind::Count {
        assert(t.subrange(0, 6)[0] != kind_tag(Kind::Count)[0]);
    }
    if e.kind == Kind::Measure {
        assert(t.subrange(0, 6)[0] != kind_tag(Kind::Gauge)[0]);
    }
    assert(parse_kind(t) == Some((e.kind, data)));
    lemma_parse_data_text(e);
    assert(data =~= e.name + seq!['='] + decimal(e.value as nat) + e.unit + attrs_text(e.attrs));
    lemma_parse_attrs_text(e.attrs);
}

/// A metric line that the library writes for an event reads back as that
/// event, whenever the event's text can stand in a line.
pub proof fn lemma_parse_format_event(e: EventView)
    requires
        line_safe(e),
    ensures
        parse_event(format_event(e)) == Some(e),
{
    assert(distinct_keys(e.attrs)) by {
        assert forall|i: int, j: int| 0 <= i < j < e.attrs.len() implies #[trigger] e.attrs[i].0 != #[trigger] e.attrs[j].0 by {
            assert(lex_lt(e.attrs[i].0, e.attrs[j].0));
            lemma_lex_irreflexive(e.attrs[i].0);
        }
    }
    lemma_parse_format_event_sorts(e);
    lemma_canonical_attrs_of_sorted(e.attrs);
    assert(EventView { attrs: canonical_attrs(e.attrs), ..e } == e);
}

/// With no key twice, `canonical_attrs` keeps every pair and adds none.
pub proof fn lemma_canonical_attrs_pairs(a: Seq<AttrView>)
    requires
        distinct_keys(a),
    ensures
        canonical_attrs(a).len() == a.len(),
        forall|p: AttrView| #[trigger] canonical_attrs(a).contains(p) <==> a.contains(p),
    decreases a.len(),
{
    if a.len() > 0 {
        let init = a.drop_last();
        let last = a.last();
        assert(distinct_keys(init)) by {
            assert forall|i: int, j: int| 0 <= i < j < init.len() implies #[trigger] init[i].0 != #[trigger] init[j].0 by {
                assert(init[i] == a[i] && init[j] == a[j]);
            }
        }
        lemma_canonical_attrs_pairs(init);
        let c0 = canonical_attrs(init);
        lemma_canonical_attrs_sorted(init);
        lemma_keys_contains(c0, last.0);
        assert(!keys(c0).contains(last.0)) by {
            if keys(c0).contains(last.0) {
                let j = choose|j: int| 0 <= j < c0.len() && #[trigger] c0[j].0 == last.0;
                assert(c0.contains(c0[j]));
                assert(init.contains(c0[j]));
                let k = choose|k: int| 0 <= k < init.len() && init[k] == c0[j];
                assert(a[k] == init[k]);
                assert(a[k].0 != a[a.len() - 1].0);
            }
        }
        lemma_count_before_prefix(c0, last.0);
        let i = count_before(c0, last.0) as int;
        let c = c0.insert(i, last);
        assert(canonical_attrs(a) == c);
        assert forall|p: AttrView| #[trigger] c.contains(p) <==> a.contains(p) by {
            if c.contains(p) {
                let j = choose|j: int| 0 <= j < c.len() && c[j] == p;
                if j == i {
                    assert(a[a.len() - 1] == p);
                } else {
                    let q = if j < i { c0[j] } else { c0[j - 1] };
                    assert(c0.contains(q));
                    assert(init.contains(q));
                    let k = choose|k: int| 0 <= k < init.len() && init[k] == q;
                    assert(a[k] == p);
                }
            }
            if a.contains(p) {
                let k = choose|k: int| 0 <= k < a.len() && a[k] == p;
                if k == a.len() - 1 {
                    assert(c[i] == p);
                } else {
                    assert(init[k] == p);
                    assert(init.contains(p));
                    assert(c0.contains(p));
                    let j = choose|j: int| 0 <= j < c0.len() && c0[j] == p;
                    if j < i {
                        assert(c[j] == p);
                    } else {
                        assert(c[j + 1] == p);
                    }
                }
            }
        }
    }
}

} // verus!

verus! {

proof fn lemma_attrs_text_push(a: Seq<AttrView>, p: AttrView)
    ensures
        attrs_text(a.push(p)) == attrs_text(a) + seq![' '] + attr_token(p),
    decreases a.len(),
{
    if a.len() == 0 {
        let b = a.push(p);
        assert(b.drop_first() =~= Seq::<AttrView>::empty());
        assert(attrs_text(b.drop_first()) == Seq::<char>::empty());
        assert(b[0] == p);
        assert(attrs_text(b) == seq![' '] + attr_token(b[0]) + attrs_text(b.drop_first()));
        assert(attrs_text(a) == Seq::<char>::empty());
        assert(attrs_text(b) =~= attrs_text(a) + seq![' '] + attr_token(p));
    } else {
        lemma_attrs_text_push(a.drop_first(), p);
        let b = a.push(p);
        assert(b.drop_first() =~= a.drop_first().push(p));
        assert(b[0] == a[0]);
        assert(b.len() > 0);
        assert(attrs_text(b) == seq![' '] + attr_token(b[0]) + attrs_text(b.drop_first()));
        assert(attrs_text(a) == seq![' '] + attr_token(a[0]) + attrs_text(a.drop_first()));
        assert(attrs_text(b) =~= attrs_text(a) + seq![' '] + attr_token(p));
    }
}

pub open spec fn attrs_of<'a>(attrs: Seq<Attr<'a>>) -> Seq<AttrView> {
    attrs.map_values(|p: Attr<'a>| (p.0@, p.1@))
}

/// Writes the metric line for an event: `kew[<timestamp>]<kind>#<name>=<value><unit>`
/// and then ` <key>=<value>` per attribute, in the order given.
pub fn format_line(
    timestamp: u64,
    kind: Kind,
    name: &str,
    value: u64,
    unit: &str,
    attrs: &[Attr],
) -> (r: String)
    ensures
        r@ == format_event(
            EventView { timestamp, kind, name: name@, value, unit: unit@, attrs: attrs_of(attrs@) },
        ),
{
    let mut out = String::new();
    proof {
        reveal_strlit("kew[");
        reveal_strlit("]");
        reveal_strlit("#");
        reveal_strlit("=");
        reveal_strlit(" ");
    }
    out.append("kew[");
    push_decimal(&mut out, timestamp);
    out.append("]");
    out.append(kind.as_str());
    out.append("#");
    out.append(name);
    out.append("=");
    push_decimal(&mut out, value);
    out.append(unit);
    let ghost head = out@;
    let mut i: usize = 0;
    while i < attrs.len()
        invariant
            i <= attrs@.len(),
            out@ == head + attrs_text(attrs_of(attrs@.subrange(0, i as int))),
        decreases attrs@.len() - i,
    {
        let (k, v) = attrs[i];
        let ghost before = out@;
        proof {
            reveal_strlit("=");
            reveal_strlit(" ");
        }
        out.append(" ");
        out.append(k);
        out.append("=");
        out.append(v);
        proof {
            let a = attrs_of(attrs@.subrange(0, i as int));
            assert(attrs_of(attrs@.subrange(0, i + 1)) =~= a.push((k@, v@)));
            lemma_attrs_text_push(a, (k@, v@));
            assert(attr_token((k@, v@)) == k@ + seq!['='] + v@);
            assert(out@ =~= before + seq![' '] + (k@ + seq!['='] + v@));
            assert(out@ =~= head + attrs_text(attrs_of(attrs@.subrange(0, i + 1))));
        }
        i = i + 1;
    }
    assert(attrs@.subrange(0, i as int) =~= attrs@);
    assert(kind_tag(kind) =~= kind_name(kind) + seq!['#']);
    assert(out@ =~= format_event(
        EventView { timestamp, kind, name: name@, value, unit: unit@, attrs: attrs_of(attrs@) },
    ));
    out
}

impl<'a> Event<'a> {
    /// The metric line for this event.
    pub fn to_line(&self) -> (r: String)
        ensures
            r@ == format_event(self@),
    {
        let r = format_line(
            self.timestamp,
            self.kind,
            self.data.name,
            self.data.value,
            self.data.unit,
            self.attrs.as_slice(),
        );
        r
    }
}

} // verus!
