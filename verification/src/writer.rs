//! Metrics gathered into columns, one row per event: the fixed fields, and a
//! column per attribute key that is empty on rows without that key.
use vstd::prelude::*;
use crate::parser::{keys, sorted_by_key, AttrView, Attr, Event, EventView, Kind};
use crate::text::{
    lemma_lex_asymmetric, lemma_lex_irreflexive, lemma_lex_total, lemma_lex_transitive, lex_lt, str_eq,
    str_lt,
};

verus! {

/// An attribute column: its key and one optional value per row.
pub type ColumnView = (Seq<char>, Seq<Option<Seq<char>>>);

/// The columns as plain values.
pub struct WriterView {
    pub count: nat,
    pub timestamps: Seq<u64>,
    pub names: Seq<Seq<char>>,
    pub values: Seq<u64>,
    pub units: Seq<Seq<char>>,
    pub kinds: Seq<Kind>,
    pub attrs: Seq<ColumnView>,
}

pub open spec fn opt_view(o: Option<String>) -> Option<Seq<char>> {
    match o {
        Some(s) => Some(s@),
        None => None,
    }
}

pub open spec fn values_view(v: Seq<Option<String>>) -> Seq<Option<Seq<char>>> {
    v.map_values(|o: Option<String>| opt_view(o))
}

pub open spec fn column_view(c: (String, Vec<Option<String>>)) -> ColumnView {
    (c.0@, values_view(c.1@))
}

/// The keys of the attribute columns strictly increase.
pub open spec fn columns_sorted(cols: Seq<ColumnView>) -> bool {
    forall|i: int, j: int| 0 <= i < j < cols.len() ==> lex_lt(#[trigger] cols[i].0, #[trigger] cols[j].0)
}

/// Every column has a value per row, and the attribute columns are in key order.
pub open spec fn columns_wf(w: WriterView) -> bool {
    &&& w.timestamps.len() == w.count
    &&& w.names.len() == w.count
    &&& w.values.len() == w.count
    &&& w.units.len() == w.count
    &&& w.kinds.len() == w.count
    &&& forall|i: int| 0 <= i < w.attrs.len() ==> (#[trigger] w.attrs[i]).1.len() == w.count
    &&& columns_sorted(w.attrs)
}

/// There is a column for the key `k`.
pub open spec fn has_column(cols: Seq<ColumnView>, k: Seq<char>) -> bool {
    exists|i: int| 0 <= i < cols.len() && #[trigger] cols[i].0 == k
}

/// The values of the first column for the key `k`.
pub open spec fn column_of(cols: Seq<ColumnView>, k: Seq<char>) -> Seq<Option<Seq<char>>>
    decreases cols.len(),
{
    if cols.len() == 0 {
        seq![]
    } else if cols[0].0 == k {
        cols[0].1
    } else {
        column_of(cols.drop_first(), k)
    }
}

/// The value of the first attribute with the key `k`.
pub open spec fn lookup_attr(attrs: Seq<AttrView>, k: Seq<char>) -> Option<Seq<char>>
    decreases attrs.len(),
{
    if attrs.len() == 0 {
        None
    } else if attrs[0].0 == k {
        Some(attrs[0].1)
    } else {
        lookup_attr(attrs.drop_first(), k)
    }
}

/// `n` empty values.
pub open spec fn nulls(n: nat) -> Seq<Option<Seq<char>>> {
    Seq::new(n, |i: int| None::<Seq<char>>)
}

/// The column for the key `k` after a row for `e` is added: its earlier
/// values (empty ones if the key is new) and the event's value for `k`.
pub open spec fn appended_column(old: WriterView, e: EventView, k: Seq<char>) -> Seq<Option<Seq<char>>> {
    (if has_column(old.attrs, k) { column_of(old.attrs, k) } else { nulls(old.count) }).push(lookup_attr(e.attrs, k))
}

/// The attribute columns after a row for `e`: one per key of either, in key order.
pub open spec fn appended_columns(old: WriterView, e: EventView, cols: Seq<ColumnView>) -> bool {
    &&& columns_sorted(cols)
    &&& forall|k: Seq<char>| has_column(cols, k) <==> has_column(old.attrs, k) || keys(e.attrs).contains(k)
    &&& forall|i: int| 0 <= i < cols.len() ==> (#[trigger] cols[i]).1 == appended_column(old, e, cols[i].0)
}

/// `new` is `old` with a row for `e`.
pub open spec fn appended(old: WriterView, e: EventView, new: WriterView) -> bool {
    &&& new.count == old.count + 1
    &&& new.timestamps == old.timestamps.push(e.timestamp)
    &&& new.names == old.names.push(e.name)
    &&& new.values == old.values.push(e.value)
    &&& new.units == old.units.push(e.unit)
    &&& new.kinds == old.kinds.push(e.kind)
    &&& appended_columns(old, e, new.attrs)
}

pub proof fn lemma_column_of_sorted(cols: Seq<ColumnView>, i: int)
    requires
        columns_sorted(cols),
        0 <= i < cols.len(),
    ensures
        column_of(cols, cols[i].0) == cols[i].1,
    decreases cols.len(),
{
    if i > 0 {
        assert(lex_lt(cols[0].0, cols[i].0));
        lemma_lex_irreflexive(cols[i].0);
        let rest = cols.drop_first();
        assert(columns_sorted(rest)) by {
            assert forall|a: int, b: int| 0 <= a < b < rest.len() implies lex_lt(#[trigger] rest[a].0, #[trigger] rest[b].0) by {
                assert(rest[a] == cols[a + 1] && rest[b] == cols[b + 1]);
            }
        }
        lemma_column_of_sorted(rest, i - 1);
    }
}

pub proof fn lemma_lookup_attr_sorted(attrs: Seq<AttrView>, i: int)
    requires
        sorted_by_key(attrs),
        0 <= i < attrs.len(),
    ensures
        lookup_attr(attrs, attrs[i].0) == Some(attrs[i].1),
    decreases attrs.len(),
{
    if i > 0 {
        assert(lex_lt(attrs[0].0, attrs[i].0));
        lemma_lex_irreflexive(attrs[i].0);
        let rest = attrs.drop_first();
        assert(sorted_by_key(rest)) by {
            assert forall|a: int, b: int| 0 <= a < b < rest.len() implies lex_lt(#[trigger] rest[a].0, #[trigger] rest[b].0) by {
                assert(rest[a] == attrs[a + 1] && rest[b] == attrs[b + 1]);
            }
        }
        lemma_lookup_attr_sorted(rest, i - 1);
    }
}

pub proof fn lemma_lookup_attr_absent(attrs: Seq<AttrView>, k: Seq<char>)
    requires
        forall|i: int| 0 <= i < attrs.len() ==> #[trigger] attrs[i].0 != k,
    ensures
        lookup_attr(attrs, k) is None,
    decreases attrs.len(),
{
    if attrs.len() > 0 {
        assert forall|i: int| 0 <= i < attrs.drop_first().len() implies #[trigger] attrs.drop_first()[i].0 != k by {
            assert(attrs.drop_first()[i] == attrs[i + 1]);
        }
        lemma_lookup_attr_absent(attrs.drop_first(), k);
    }
}

} // verus!

verus! {

/// Metrics gathered into columns.
pub struct Writer {
    count: usize,
    timestamps: Vec<u64>,
    names: Vec<String>,
    values: Vec<u64>,
    units: Vec<String>,
    kinds: Vec<Kind>,
    attrs: Vec<(String, Vec<Option<String>>)>,
}

impl View for Writer {
    type V = WriterView;

    closed spec fn view(&self) -> WriterView {
        WriterView {
            count: self.count as nat,
            timestamps: self.timestamps@,
            names: self.names@.map_values(|s: String| s@),
            values: self.values@,
            units: self.units@.map_values(|s: String| s@),
            kinds: self.kinds@,
            attrs: self.attrs@.map_values(|c: (String, Vec<Option<String>>)| column_view(c)),
        }
    }
}

/// The value of the first attribute with the key `k`.
fn lookup<'a>(attrs: &[Attr<'a>], k: &str) -> (r: Option<&'a str>)
    ensures
        match lookup_attr(crate::parser::attrs_of(attrs@), k@) {
            Some(v) => r matches Some(x) && x@ == v,
            None => r is None,
        },
{
    let ghost a = crate::parser::attrs_of(attrs@);
    let mut i: usize = 0;
    assert(a.subrange(0, a.len() as int) =~= a);
    while i < attrs.len()
        invariant
            i <= attrs@.len(),
            a == crate::parser::attrs_of(attrs@),
            lookup_attr(a, k@) == lookup_attr(a.subrange(i as int, a.len() as int), k@),
        decreases attrs@.len() - i,
    {
        let ghost rest = a.subrange(i as int, a.len() as int);
        assert(rest[0] == (attrs@[i as int].0@, attrs@[i as int].1@));
        if str_eq(attrs[i].0, k) {
            return Some(attrs[i].1);
        }
        assert(rest.drop_first() =~= a.subrange(i + 1, a.len() as int));
        i = i + 1;
    }
    None
}

fn nulls_column(n: usize) -> (r: Vec<Option<String>>)
    ensures
        values_view(r@) == nulls(n as nat),
{
    let mut r: Vec<Option<String>> = Vec::new();
    let mut i: usize = 0;
    while i < n
        invariant
            i <= n,
            r@.len() == i,
            values_view(r@) == nulls(i as nat),
        decreases n - i,
    {
        let ghost prev = r@;
        r.push(None);
        assert(r@ == prev.push(None));
        assert forall|j: int| 0 <= j < i + 1 implies values_view(r@)[j] == #[trigger] nulls((i + 1) as nat)[j] by {
            if j < i {
                assert(r@[j] == prev[j]);
                assert(values_view(prev)[j] == nulls(i as nat)[j]);
            }
        }
        assert(values_view(r@) =~= nulls((i + 1) as nat));
        i = i + 1;
    }
    r
}

impl Writer {
    /// Every column has a value per row and the attribute columns are in key order.
    pub closed spec fn wf(&self) -> bool {
        columns_wf(self@)
    }

    /// No rows.
    pub fn new() -> (r: Self)
        ensures
            r.wf(),
            r@ == (WriterView {
                count: 0,
                timestamps: seq![],
                names: seq![],
                values: seq![],
                units: seq![],
                kinds: seq![],
                attrs: seq![],
            }),
    {
        let r = Writer {
            count: 0,
            timestamps: Vec::new(),
            names: Vec::new(),
            values: Vec::new(),
            units: Vec::new(),
            kinds: Vec::new(),
            attrs: Vec::new(),
        };
        assert(r@.names =~= Seq::<Seq<char>>::empty());
        assert(r@.units =~= Seq::<Seq<char>>::empty());
        assert(r@.attrs =~= Seq::<ColumnView>::empty());
        r
    }

    /// The number of rows.
    pub fn len(&self) -> (r: usize)
        ensures
            r == self@.count,
    {
        self.count
    }
}

} // verus!

verus! {

proof fn lemma_prefix_contains<A>(s: Seq<A>, i: int, m: A)
    requires
        0 <= i < s.len(),
    ensures
        s.subrange(0, i + 1).contains(m) <==> (s.subrange(0, i).contains(m) || s[i] == m),
{
    if s.subrange(0, i + 1).contains(m) {
        let x = choose|x: int| 0 <= x < i + 1 && #[trigger] s.subrange(0, i + 1)[x] == m;
        if x < i {
            assert(s.subrange(0, i)[x] == m);
        }
    }
    if s.subrange(0, i).contains(m) {
        let x = choose|x: int| 0 <= x < i && #[trigger] s.subrange(0, i)[x] == m;
        assert(s.subrange(0, i + 1)[x] == m);
    }
    if s[i] == m {
        assert(s.subrange(0, i + 1)[i] == m);
    }
}

proof fn lemma_appended_len(old: WriterView, e: EventView, k: Seq<char>)
    requires
        columns_wf(old),
    ensures
        appended_column(old, e, k).len() == old.count + 1,
{
    if has_column(old.attrs, k) {
        let t = choose|t: int| 0 <= t < old.attrs.len() && #[trigger] old.attrs[t].0 == k;
        lemma_column_of_sorted(old.attrs, t);
        assert(old.attrs[t].1.len() == old.count);
    }
}

impl Writer {
    /// Adds a row for `event`: its timestamp, name, value, unit and kind, and
    /// for every attribute key seen so far or in the event, the event's value
    /// for that key or nothing. A key seen first now gets a column that is
    /// empty on the earlier rows.
    pub fn append(&mut self, event: &Event)
        requires
            old(self).wf(),
            old(self)@.count < usize::MAX,
        ensures
            final(self).wf(),
            appended(old(self)@, event@, final(self)@),
    {
        let ghost old_view = self@;
        let ghost ea = event@.attrs;
        proof {
            use_type_invariant(&event.attrs);
        }
        let attrs = event.attrs.as_slice();
        assert(crate::parser::attrs_of(attrs@) == ea);
        // every column seen so far gets the event's value for its key, or nothing
        let n_cols = self.attrs.len();
        let mut j: usize = 0;
        while j < n_cols
            invariant
                n_cols == self.attrs@.len(),
                n_cols == old_view.attrs.len(),
                j <= n_cols,
                self.count == old_view.count,
                columns_wf(old_view),
                crate::parser::attrs_of(attrs@) == ea,
                ea == event@.attrs,
                self@.timestamps == old_view.timestamps,
                self@.names == old_view.names,
                self@.values == old_view.values,
                self@.units == old_view.units,
                self@.kinds == old_view.kinds,
                forall|t: int| 0 <= t < j ==> #[trigger] self@.attrs[t] == (old_view.attrs[t].0, appended_column(
                    old_view,
                    event@,
                    old_view.attrs[t].0,
                )),
                forall|t: int| j <= t < n_cols ==> #[trigger] self@.attrs[t] == old_view.attrs[t],
            decreases n_cols - j,
        {
            assert(self@.attrs[j as int] == old_view.attrs[j as int]);
            let ghost a0 = self.attrs@;
            let ghost v0 = self@.attrs;
            let look = lookup(attrs, self.attrs[j].0.as_str());
            let mut tmp: (String, Vec<Option<String>>) = (String::new(), Vec::new());
            self.attrs.set_and_swap(j, &mut tmp);
            let ghost before = tmp.1@;
            let value = match look {
                Some(v) => Some(v.to_owned()),
                None => None,
            };
            tmp.1.push(value);
            assert(values_view(tmp.1@) =~= values_view(before).push(opt_view(value)));
            self.attrs.set_and_swap(j, &mut tmp);
            proof {
                let c = a0[j as int];
                assert(self.attrs@ =~= a0.update(j as int, (c.0, self.attrs@[j as int].1)));
                assert(self@.attrs =~= v0.update(j as int, column_view(self.attrs@[j as int])));
                lemma_column_of_sorted(old_view.attrs, j as int);
                assert(has_column(old_view.attrs, old_view.attrs[j as int].0));
                assert(opt_view(value) == lookup_attr(ea, c.0@));
                assert(self@.attrs[j as int] == (old_view.attrs[j as int].0, appended_column(
                    old_view,
                    event@,
                    old_view.attrs[j as int].0,
                )));
            }
            j = j + 1;
        }
        proof {
            assert forall|m: Seq<char>| #[trigger] has_column(self@.attrs, m) <==> has_column(old_view.attrs, m) || keys(ea).subrange(0, 0).contains(m) by {
                if has_column(self@.attrs, m) {
                    let t = choose|t: int| 0 <= t < self@.attrs.len() && #[trigger] self@.attrs[t].0 == m;
                    assert(old_view.attrs[t].0 == m);
                }
                if has_column(old_view.attrs, m) {
                    let t = choose|t: int| 0 <= t < old_view.attrs.len() && #[trigger] old_view.attrs[t].0 == m;
                    assert(self@.attrs[t].0 == m);
                }
            }
            assert forall|a: int, b: int| 0 <= a < b < self@.attrs.len() implies lex_lt(#[trigger] self@.attrs[a].0, #[trigger] self@.attrs[b].0) by {
                assert(lex_lt(old_view.attrs[a].0, old_view.attrs[b].0));
            }
        }
        // every key seen first in this event gets a column, empty on earlier rows
        let n_attrs = attrs.len();
        let mut i: usize = 0;
        while i < n_attrs
            invariant
                n_attrs == attrs@.len(),
                n_attrs == ea.len(),
                i <= n_attrs,
                self.count == old_view.count,
                columns_wf(old_view),
                crate::parser::attrs_of(attrs@) == ea,
                ea == event@.attrs,
                sorted_by_key(ea),
                self@.timestamps == old_view.timestamps,
                self@.names == old_view.names,
                self@.values == old_view.values,
                self@.units == old_view.units,
                self@.kinds == old_view.kinds,
                columns_sorted(self@.attrs),
                forall|m: Seq<char>| #[trigger] has_column(self@.attrs, m) <==> has_column(old_view.attrs, m) || keys(ea).subrange(0, i as int).contains(m),
                forall|t: int| 0 <= t < self@.attrs.len() ==> (#[trigger] self@.attrs[t]).1 == appended_column(old_view, event@, self@.attrs[t].0),
            decreases n_attrs - i,
        {
            let (k, v) = attrs[i];
            assert(ea[i as int] == (k@, v@));
            let ghost cur = self@.attrs;
            assert(columns_sorted(cur));
            assert(forall|m: Seq<char>| #[trigger] has_column(cur, m) <==> has_column(old_view.attrs, m) || keys(ea).subrange(0, i as int).contains(m));
            assert(forall|t: int| 0 <= t < cur.len() ==> (#[trigger] cur[t]).1 == appended_column(old_view, event@, cur[t].0));
            let mut p: usize = 0;
            while p < self.attrs.len() && str_lt(self.attrs[p].0.as_str(), k)
                invariant
                    p <= self@.attrs.len(),
                    cur == self@.attrs,
                    forall|t: int| 0 <= t < p ==> lex_lt(#[trigger] cur[t].0, k@),
                decreases self@.attrs.len() - p,
            {
                assert(cur[p as int].0 == self.attrs@[p as int].0@);
                p = p + 1;
            }
            let present = p < self.attrs.len() && str_eq(self.attrs[p].0.as_str(), k);
            proof {
                if p < cur.len() {
                    assert(cur[p as int].0 == self.attrs@[p as int].0@);
                }
                lemma_lookup_attr_sorted(ea, i as int);
                assert(keys(ea).subrange(0, i + 1) =~= keys(ea).subrange(0, i as int).push(k@));
            }
            if present {
                proof {
                    assert(has_column(cur, k@));
                    assert forall|m: Seq<char>| #[trigger] has_column(self@.attrs, m) <==> has_column(old_view.attrs, m) || keys(ea).subrange(0, i + 1).contains(m) by {
                        lemma_prefix_contains(keys(ea), i as int, m);
                        assert(keys(ea)[i as int] == k@);
                    }
                }
            } else {
                proof {
                    if p < cur.len() {
                        assert(!lex_lt(cur[p as int].0, k@));
                        assert(cur[p as int].0 != k@);
                        lemma_lex_total(cur[p as int].0, k@);
                        assert(lex_lt(k@, cur[p as int].0));
                    }
                    assert forall|t: int| 0 <= t < cur.len() implies #[trigger] cur[t].0 != k@ by {
                        lemma_lex_irreflexive(k@);
                        if t > p {
                            assert(lex_lt(cur[p as int].0, cur[t].0));
                            lemma_lex_transitive(k@, cur[p as int].0, cur[t].0);
                        }
                    }
                    assert(!has_column(cur, k@));
                    assert(!has_column(old_view.attrs, k@));
                }
                let mut col = nulls_column(self.count);
                let ghost nul = col@;
                col.push(Some(v.to_owned()));
                assert(values_view(col@) =~= values_view(nul).push(Some(v@)));
                self.attrs.insert(p, (k.to_owned(), col));
                proof {
                    let newc = (k@, nulls(old_view.count).push(Some(v@)));
                    assert(self@.attrs =~= cur.insert(p as int, newc));
                    assert(newc.1 == appended_column(old_view, event@, k@));
                    assert forall|a: int, b: int| 0 <= a < b < self@.attrs.len() implies lex_lt(#[trigger] self@.attrs[a].0, #[trigger] self@.attrs[b].0) by {
                        if b < p {
                        } else if a < p && b == p {
                        } else if a < p && b > p {
                            assert(self@.attrs[b] == cur[b - 1]);
                        } else if a == p {
                            assert(self@.attrs[b] == cur[b - 1]);
                            assert(lex_lt(k@, cur[p as int].0));
                            if b - 1 > p {
                                assert(lex_lt(cur[p as int].0, cur[b - 1].0));
                                lemma_lex_transitive(k@, cur[p as int].0, cur[b - 1].0);
                            }
                        } else {
                            assert(self@.attrs[a] == cur[a - 1] && self@.attrs[b] == cur[b - 1]);
                        }
                    }
                    assert forall|t: int| 0 <= t < self@.attrs.len() implies (#[trigger] self@.attrs[t]).1 == appended_column(old_view, event@, self@.attrs[t].0) by {
                        if t < p {
                            assert(self@.attrs[t] == cur[t]);
                        } else if t > p {
                            assert(self@.attrs[t] == cur[t - 1]);
                        }
                    }
                    assert forall|m: Seq<char>| #[trigger] has_column(self@.attrs, m) <==> has_column(old_view.attrs, m) || keys(ea).subrange(0, i + 1).contains(m) by {
                        if has_column(self@.attrs, m) {
                            let t = choose|t: int| 0 <= t < self@.attrs.len() && #[trigger] self@.attrs[t].0 == m;
                            if t < p {
                                assert(cur[t].0 == m);
                            } else if t > p {
                                assert(cur[t - 1].0 == m);
                            } else {
                                assert(keys(ea).subrange(0, i + 1)[i as int] == m);
                            }
                        }
                        if has_column(cur, m) {
                            let t = choose|t: int| 0 <= t < cur.len() && #[trigger] cur[t].0 == m;
                            if t < p {
                                assert(self@.attrs[t].0 == m);
                            } else {
                                assert(self@.attrs[t + 1].0 == m);
                            }
                        }
                        if m == k@ {
                            assert(self@.attrs[p as int].0 == m);
                        }
                        lemma_prefix_contains(keys(ea), i as int, m);
                    }
                }
            }
            i = i + 1;
        }
        self.timestamps.push(event.timestamp);
        self.names.push(event.data.name.to_owned());
        self.values.push(event.data.value);
        self.units.push(event.data.unit.to_owned());
        self.kinds.push(event.kind);
        self.count = self.count + 1;
        proof {
            assert(keys(ea).subrange(0, n_attrs as int) =~= keys(ea));
            assert(self@.names =~= old_view.names.push(event@.name));
            assert(self@.units =~= old_view.units.push(event@.unit));
            assert forall|t: int| 0 <= t < self@.attrs.len() implies (#[trigger] self@.attrs[t]).1.len() == self@.count by {
                lemma_appended_len(old_view, event@, self@.attrs[t].0);
            }
        }

    }
}

} // verus!

verus! {

/// The finished columns as plain values, ready to be laid out as a table:
/// the fixed columns, then one column per attribute key, named `attr_` and
/// the key, in key order.
pub struct Batch {
    pub timestamps: Vec<u64>,
    pub names: Vec<String>,
    pub values: Vec<u64>,
    pub units: Vec<String>,
    pub kinds: Vec<Kind>,
    pub attrs: Vec<(String, Vec<Option<String>>)>,
}

/// The name of the column for the attribute key `k`.
pub open spec fn attr_column_name(k: Seq<char>) -> Seq<char> {
    seq!['a', 't', 't', 'r', '_'] + k
}

impl Writer {
    /// The rows gathered so far as columns; the attribute columns are named
    /// `attr_` and their key and come in key order.
    pub fn finish(self) -> (b: Batch)
        ensures
            b.timestamps@ == self@.timestamps,
            b.names@.map_values(|s: String| s@) == self@.names,
            b.values@ == self@.values,
            b.units@.map_values(|s: String| s@) == self@.units,
            b.kinds@ == self@.kinds,
            b.attrs@.len() == self@.attrs.len(),
            forall|i: int|
                0 <= i < b.attrs@.len() ==> #[trigger] column_view(b.attrs@[i]) == (
                    attr_column_name(self@.attrs[i].0),
                    self@.attrs[i].1,
                ),
    {
        let ghost v = self@;
        let Writer { count: _, timestamps, names, values, units, kinds, attrs } = self;
        let mut named: Vec<(String, Vec<Option<String>>)> = Vec::new();
        let mut rest = attrs;
        let mut taken: Vec<(String, Vec<Option<String>>)> = Vec::new();
        proof {
            assert(rest@.map_values(|c: (String, Vec<Option<String>>)| column_view(c)) == v.attrs);
        }
        // the columns leave from the back, so they are gathered in reverse and turned round
        while rest.len() > 0
            invariant
                rest@.len() + taken@.len() == v.attrs.len(),
                forall|i: int| 0 <= i < rest@.len() ==> column_view(#[trigger] rest@[i]) == v.attrs[i],
                forall|i: int|
                    0 <= i < taken@.len() ==> #[trigger] column_view(taken@[i]) == (
                        attr_column_name(v.attrs[v.attrs.len() - 1 - i].0),
                        v.attrs[v.attrs.len() - 1 - i].1,
                    ),
            decreases rest@.len(),
        {
            let ghost before = rest@;
            let (key, col) = rest.pop().unwrap();
            proof {
                assert(before[before.len() - 1] == (key, col));
                assert(column_view(before[before.len() - 1]) == v.attrs[before.len() - 1]);
            }
            let mut name = String::new();
            proof {
                reveal_strlit("attr_");
            }
            name.append("attr_");
            name.append(key.as_str());
            let ghost t0 = taken@;
            taken.push((name, col));
            proof {
                assert(name@ =~= attr_column_name(key@));
                assert forall|i: int| 0 <= i < rest@.len() implies column_view(#[trigger] rest@[i]) == v.attrs[i] by {
                    assert(rest@[i] == before[i]);
                }
                assert forall|i: int|
                    0 <= i < taken@.len() implies #[trigger] column_view(taken@[i]) == (
                        attr_column_name(v.attrs[v.attrs.len() - 1 - i].0),
                        v.attrs[v.attrs.len() - 1 - i].1,
                    ) by {
                    if i < t0.len() {
                        assert(taken@[i] == t0[i]);
                    }
                }
            }
        }
        while taken.len() > 0
            invariant
                taken@.len() + named@.len() == v.attrs.len(),
                forall|i: int|
                    0 <= i < taken@.len() ==> #[trigger] column_view(taken@[i]) == (
                        attr_column_name(v.attrs[v.attrs.len() - 1 - i].0),
                        v.attrs[v.attrs.len() - 1 - i].1,
                    ),
                forall|i: int|
                    0 <= i < named@.len() ==> #[trigger] column_view(named@[i]) == (
                        attr_column_name(v.attrs[i].0),
                        v.attrs[i].1,
                    ),
            decreases taken@.len(),
        {
            let ghost before = taken@;
            let ghost n0 = named@;
            let c = taken.pop().unwrap();
            named.push(c);
            proof {
                assert(c == before[before.len() - 1]);
                assert forall|i: int|
                    0 <= i < taken@.len() implies #[trigger] column_view(taken@[i]) == (
                        attr_column_name(v.attrs[v.attrs.len() - 1 - i].0),
                        v.attrs[v.attrs.len() - 1 - i].1,
                    ) by {
                    assert(taken@[i] == before[i]);
                }
                assert forall|i: int|
                    0 <= i < named@.len() implies #[trigger] column_view(named@[i]) == (
                        attr_column_name(v.attrs[i].0),
                        v.attrs[i].1,
                    ) by {
                    if i < n0.len() {
                        assert(named@[i] == n0[i]);
                    }
                }
            }
        }
        Batch { timestamps, names, values, units, kinds, attrs: named }
    }
}

} // verus!

verus! {

/// Some event among the first `m` of `es` has the key `k`.
pub open spec fn seen(es: Seq<EventView>, m: int, k: Seq<char>) -> bool {
    exists|i: int| 0 <= i < m && #[trigger] keys(es[i].attrs).contains(k)
}

/// The table that rows for the events `es` make, from no rows: one row per
/// event with its timestamp, name, value, unit and kind; one column per key
/// that some event has, in key order; and in the column of `k`, each event's
/// value for `k`, or nothing where it lacks `k`.
pub open spec fn table_of(es: Seq<EventView>, w: WriterView) -> bool {
    &&& w.count == es.len()
    &&& w.timestamps == es.map_values(|e: EventView| e.timestamp)
    &&& w.names == es.map_values(|e: EventView| e.name)
    &&& w.values == es.map_values(|e: EventView| e.value)
    &&& w.units == es.map_values(|e: EventView| e.unit)
    &&& w.kinds == es.map_values(|e: EventView| e.kind)
    &&& columns_sorted(w.attrs)
    &&& forall|k: Seq<char>| #[trigger] has_column(w.attrs, k) <==> seen(es, es.len() as int, k)
    &&& forall|j: int| 0 <= j < w.attrs.len() ==> (#[trigger] w.attrs[j]).1.len() == es.len()
    &&& forall|j: int, i: int|
        0 <= j < w.attrs.len() && 0 <= i < es.len() ==> (#[trigger] w.attrs[j]).1[i] == lookup_attr(
            #[trigger] es[i].attrs,
            w.attrs[j].0,
        )
}

proof fn lemma_table_step(es: Seq<EventView>, old: WriterView, e: EventView, new: WriterView)
    requires
        table_of(es, old),
        columns_wf(old),
        appended(old, e, new),
    ensures
        table_of(es.push(e), new),
{
    let n = es.len() as int;
    let es2 = es.push(e);
    assert(new.timestamps =~= es2.map_values(|e: EventView| e.timestamp));
    assert(new.names =~= es2.map_values(|e: EventView| e.name));
    assert(new.values =~= es2.map_values(|e: EventView| e.value));
    assert(new.units =~= es2.map_values(|e: EventView| e.unit));
    assert(new.kinds =~= es2.map_values(|e: EventView| e.kind));
    assert forall|k: Seq<char>| #[trigger] has_column(new.attrs, k) <==> seen(es2, n + 1, k) by {
        if seen(es2, n + 1, k) {
            let i = choose|i: int| 0 <= i < n + 1 && #[trigger] keys(es2[i].attrs).contains(k);
            if i < n {
                assert(es2[i] == es[i]);
                assert(seen(es, n, k));
            }
        }
        if seen(es, n, k) {
            let i = choose|i: int| 0 <= i < n && #[trigger] keys(es[i].attrs).contains(k);
            assert(es2[i] == es[i]);
        }
        if keys(e.attrs).contains(k) {
            assert(es2[n] == e);
        }
    }
    assert forall|j: int| 0 <= j < new.attrs.len() implies (#[trigger] new.attrs[j]).1.len() == es2.len() by {
        lemma_appended_len(old, e, new.attrs[j].0);
    }
    assert forall|j: int, i: int|
        0 <= j < new.attrs.len() && 0 <= i < es2.len() implies (#[trigger] new.attrs[j]).1[i] == lookup_attr(
            #[trigger] es2[i].attrs,
            new.attrs[j].0,
        ) by {
        let k = new.attrs[j].0;
        if i == n {
            lemma_appended_len(old, e, k);
        } else {
            assert(es2[i] == es[i]);
            if has_column(old.attrs, k) {
                let t = choose|t: int| 0 <= t < old.attrs.len() && #[trigger] old.attrs[t].0 == k;
                lemma_column_of_sorted(old.attrs, t);
                assert(old.attrs[t].1[i] == lookup_attr(es[i].attrs, old.attrs[t].0));
            } else {
                assert(!seen(es, n, k));
                assert(!keys(es[i].attrs).contains(k));
                assert forall|x: int| 0 <= x < es[i].attrs.len() implies #[trigger] es[i].attrs[x].0 != k by {
                    assert(keys(es[i].attrs)[x] == es[i].attrs[x].0);
                }
                lemma_lookup_attr_absent(es[i].attrs, k);
            }
        }
    }
}

/// The whole table after rows are added for the events `es`, one call after
/// another, to a writer with no rows: `ws[i]` is the writer before the row
/// for `es[i]`.
pub proof fn lemma_table_after_appends(ws: Seq<WriterView>, es: Seq<EventView>)
    requires
        ws.len() == es.len() + 1,
        ws[0].count == 0,
        ws[0].timestamps.len() == 0,
        ws[0].names.len() == 0,
        ws[0].values.len() == 0,
        ws[0].units.len() == 0,
        ws[0].kinds.len() == 0,
        ws[0].attrs.len() == 0,
        forall|i: int| 0 <= i < es.len() ==> columns_wf(#[trigger] ws[i]),
        forall|i: int| 0 <= i < es.len() ==> appended(#[trigger] ws[i], es[i], ws[i + 1]),
    ensures
        table_of(es, ws[es.len() as int]),
    decreases es.len(),
{
    if es.len() == 0 {
        let w = ws[0];
        assert(w.timestamps =~= es.map_values(|e: EventView| e.timestamp));
        assert(w.names =~= es.map_values(|e: EventView| e.name));
        assert(w.values =~= es.map_values(|e: EventView| e.value));
        assert(w.units =~= es.map_values(|e: EventView| e.unit));
        assert(w.kinds =~= es.map_values(|e: EventView| e.kind));
        assert forall|k: Seq<char>| #[trigger] has_column(w.attrs, k) <==> seen(es, 0, k) by {}
    } else {
        let n = es.len() - 1;
        let ws1 = ws.drop_last();
        let es1 = es.drop_last();
        assert forall|i: int| 0 <= i < es1.len() implies columns_wf(#[trigger] ws1[i]) by {
            assert(ws1[i] == ws[i]);
        }
        assert forall|i: int| 0 <= i < es1.len() implies appended(#[trigger] ws1[i], es1[i], ws1[i + 1]) by {
            assert(ws1[i] == ws[i] && ws1[i + 1] == ws[i + 1] && es1[i] == es[i]);
        }
        lemma_table_after_appends(ws1, es1);
        assert(ws1[n] == ws[n]);
        assert(columns_wf(ws[n]));
        assert(appended(ws[n], es[n], ws[n + 1]));
        lemma_table_step(es1, ws[n], es[n], ws[n + 1]);
        assert(es1.push(es[n]) =~= es);
    }
}

} // verus!

verus! {

impl Writer {
    /// A writer with a row for each of `events`, in order (see `table_of`).
    pub fn from_events(events: &Vec<Event>) -> (r: Writer)
        requires
            events@.len() < usize::MAX,
        ensures
            r.wf(),
            table_of(crate::parser::events_view(events@), r@),
    {
        let ghost es = crate::parser::events_view(events@);
        let mut w = Writer::new();
        let mut i: usize = 0;
        proof {
            let w0 = w@;
            assert(es.subrange(0, 0) =~= Seq::<EventView>::empty());
            assert(w0.timestamps =~= es.subrange(0, 0).map_values(|e: EventView| e.timestamp));
            assert(w0.names =~= es.subrange(0, 0).map_values(|e: EventView| e.name));
            assert(w0.values =~= es.subrange(0, 0).map_values(|e: EventView| e.value));
            assert(w0.units =~= es.subrange(0, 0).map_values(|e: EventView| e.unit));
            assert(w0.kinds =~= es.subrange(0, 0).map_values(|e: EventView| e.kind));
            assert forall|k: Seq<char>| #[trigger] has_column(w0.attrs, k) <==> seen(es.subrange(0, 0), 0, k) by {}
        }
        while i < events.len()
            invariant
                es == crate::parser::events_view(events@),
                i <= events@.len() < usize::MAX,
                w.wf(),
                table_of(es.subrange(0, i as int), w@),
            decreases events@.len() - i,
        {
            let ghost before = w@;
            w.append(&events[i]);
            proof {
                assert(es[i as int] == events@[i as int]@);
                lemma_table_step(es.subrange(0, i as int), before, es[i as int], w@);
                assert(es.subrange(0, i as int).push(es[i as int]) =~= es.subrange(0, i + 1));
            }
            i = i + 1;
        }
        assert(es.subrange(0, events@.len() as int) =~= es);
        w
    }
}

} // verus!
