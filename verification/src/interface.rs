//! TypeScript bindings for the simulations that a WebAssembly build exports:
//! the classes and their properties are read from the declaration file that
//! the build generates, and a React hook is written for each class.
use vstd::prelude::*;
use crate::book::vega::{debug_quoted, debug_str, lemma_debug_chars_plain, plain_char};
use crate::text::{
    chars_of, lines, lines_of, skip_ws_end, skip_ws_start, strip_prefix, strs_view, trim_end,
    trim_start,
};

verus! {

/// A property: its name and its TypeScript type.
pub type PropertyView = (Seq<char>, Seq<char>);

/// A class: its name and its properties, in order.
pub type ClassView = (Seq<char>, Seq<PropertyView>);

/// Whether `s` ends with `p`.
pub open spec fn ends_with(s: Seq<char>, p: Seq<char>) -> bool {
    p.len() <= s.len() && s.subrange(s.len() - p.len(), s.len() as int) == p
}

/// What follows `export class ` on a line that starts with it.
pub open spec fn class_decl(l: Seq<char>) -> Option<Seq<char>> {
    strip_prefix(l, "export class "@)
}

/// Index of the first `: ` in `s`, or the length of `s`.
pub open spec fn colon_space(s: Seq<char>) -> nat
    decreases s.len(),
{
    if s.len() < 2 {
        s.len()
    } else if s[0] == ':' && s[1] == ' ' {
        0
    } else {
        1 + colon_space(s.drop_first())
    }
}

/// `s` without its trailing semicolons.
pub open spec fn trim_semis(s: Seq<char>) -> Seq<char>
    decreases s.len(),
{
    if s.len() > 0 && s.last() == ';' {
        trim_semis(s.drop_last())
    } else {
        s
    }
}

/// The classes after one more line of the declaration file: a class
/// declaration opens a class; within a class, a line `name: type` that is not
/// a method adds a property.
pub open spec fn parse_step(cs: Seq<ClassView>, l: Seq<char>) -> Seq<ClassView> {
    match class_decl(l) {
        Some(rest) => cs.push((rest.subrange(0, rest.len() - " {"@.len()), seq![])),
        None => {
            let i = colon_space(l);
            if cs.len() == 0 || i >= l.len() {
                cs
            } else {
                let prop = trim_end(trim_start(l.subrange(0, i as int)));
                if prop.contains('(') {
                    cs
                } else {
                    let ty = trim_semis(l.subrange(i + 2 as int, l.len() as int));
                    cs.update(cs.len() - 1, (cs.last().0, cs.last().1.push((prop, ty))))
                }
            }
        },
    }
}

/// The classes that the lines declare.
pub open spec fn parse_classes(lines: Seq<Seq<char>>) -> Seq<ClassView>
    decreases lines.len(),
{
    if lines.len() == 0 {
        seq![]
    } else {
        parse_step(parse_classes(lines.drop_last()), lines.last())
    }
}

/// The property that a line other than a class declaration declares: the
/// name before its first `: `, trimmed, and the type after it without its
/// trailing semicolons; none when the line has no `: ` or names a method.
pub open spec fn line_property(l: Seq<char>) -> Option<PropertyView> {
    if class_decl(l) is Some || colon_space(l) >= l.len() {
        None
    } else {
        let prop = trim_end(trim_start(l.subrange(0, colon_space(l) as int)));
        if prop.contains('(') {
            None
        } else {
            Some((prop, trim_semis(l.subrange(colon_space(l) + 2int, l.len() as int))))
        }
    }
}

/// The properties that the lines `ls` declare, in order.
pub open spec fn line_properties(ls: Seq<Seq<char>>) -> Seq<PropertyView>
    decreases ls.len(),
{
    if ls.len() == 0 {
        seq![]
    } else {
        match line_property(ls.last()) {
            Some(p) => line_properties(ls.drop_last()).push(p),
            None => line_properties(ls.drop_last()),
        }
    }
}

/// The name of the class that the declaration `d` opens.
pub open spec fn declared_name(d: Seq<char>) -> Seq<char> {
    let rest = class_decl(d).unwrap();
    rest.subrange(0, rest.len() - 2)
}

/// Whether no line of `ls` declares a class.
pub open spec fn no_declaration(ls: Seq<Seq<char>>) -> bool {
    forall|i: int| 0 <= i < ls.len() ==> #[trigger] class_decl(ls[i]) is None
}

proof fn lemma_parse_step_keeps_prefix(cs: Seq<ClassView>, l: Seq<char>, n: int)
    requires
        0 <= n < cs.len(),
    ensures
        parse_step(cs, l).len() >= cs.len(),
        parse_step(cs, l).subrange(0, n) == cs.subrange(0, n),
{
    assert(parse_step(cs, l).subrange(0, n) =~= cs.subrange(0, n));
}

/// A class, once a later declaration follows it, never changes: the lines
/// from a class declaration on leave every class declared before them as it
/// was, and add at least the class they start with.
pub proof fn lemma_later_lines_keep_earlier_classes(ls: Seq<Seq<char>>, rest: Seq<Seq<char>>)
    requires
        rest.len() > 0,
        class_decl(rest[0]) is Some,
    ensures
        parse_classes(ls + rest).len() > parse_classes(ls).len(),
        parse_classes(ls + rest).subrange(0, parse_classes(ls).len() as int) == parse_classes(ls),
    decreases rest.len(),
{
    reveal_strlit(" {");
    let n = parse_classes(ls).len() as int;
    assert((ls + rest).drop_last() =~= ls + rest.drop_last());
    assert((ls + rest).last() == rest.last());
    if rest.len() == 1 {
        assert(ls + rest.drop_last() =~= ls);
        assert(parse_classes(ls + rest) =~= parse_classes(ls).push((declared_name(rest[0]), seq![])));
        assert(parse_classes(ls + rest).subrange(0, n) =~= parse_classes(ls));
    } else {
        lemma_later_lines_keep_earlier_classes(ls, rest.drop_last());
        let cs = parse_classes(ls + rest.drop_last());
        lemma_parse_step_keeps_prefix(cs, rest.last(), n);
        assert(cs.subrange(0, n) =~= parse_classes(ls));
    }
}

/// The class that a declaration opens holds exactly the properties of the
/// lines after it, in order, as long as no other declaration follows; and it
/// is the last class, after those declared before it.
pub proof fn lemma_class_holds_following_properties(ls: Seq<Seq<char>>, d: Seq<char>, body: Seq<Seq<char>>)
    requires
        class_decl(d) is Some,
        no_declaration(body),
    ensures
        parse_classes(ls.push(d) + body).len() == parse_classes(ls).len() + 1,
        parse_classes(ls.push(d) + body).last() == (declared_name(d), line_properties(body)),
        parse_classes(ls.push(d) + body).drop_last() == parse_classes(ls),
    decreases body.len(),
{
    reveal_strlit(" {");
    if body.len() == 0 {
        assert(ls.push(d) + body =~= ls.push(d));
        assert(ls.push(d).drop_last() =~= ls);
        assert(parse_classes(ls.push(d)).drop_last() =~= parse_classes(ls));
    } else {
        let b0 = body.drop_last();
        assert(no_declaration(b0)) by {
            assert forall|i: int| 0 <= i < b0.len() implies #[trigger] class_decl(b0[i]) is None by {
                assert(b0[i] == body[i]);
            }
        }
        lemma_class_holds_following_properties(ls, d, b0);
        assert((ls.push(d) + body).drop_last() =~= ls.push(d) + b0);
        assert((ls.push(d) + body).last() == body.last());
        let l = body.last();
        assert(class_decl(l) is None) by {
            assert(class_decl(body[body.len() - 1]) is None);
        }
        let cs = parse_classes(ls.push(d) + b0);
        let r = parse_classes(ls.push(d) + body);
        assert(r == parse_step(cs, l));
        match line_property(l) {
            Some(p) => {
                assert(r =~= cs.update(cs.len() - 1, (cs.last().0, cs.last().1.push(p))));
                assert(r.drop_last() =~= cs.drop_last());
            },
            None => {
                assert(r =~= cs);
            },
        }
    }
}

/// Lines before the first class declaration declare no class.
pub proof fn lemma_no_class_without_declaration(ls: Seq<Seq<char>>)
    requires
        no_declaration(ls),
    ensures
        parse_classes(ls) == Seq::<ClassView>::empty(),
    decreases ls.len(),
{
    if ls.len() > 0 {
        let b0 = ls.drop_last();
        assert(no_declaration(b0)) by {
            assert forall|i: int| 0 <= i < b0.len() implies #[trigger] class_decl(b0[i]) is None by {
                assert(b0[i] == ls[i]);
            }
        }
        lemma_no_class_without_declaration(b0);
        assert(class_decl(ls[ls.len() - 1]) is None);
    }
}

/// Every class declaration ends with ` {`.
pub open spec fn declarations_ok(lines: Seq<Seq<char>>) -> bool {
    forall|i: int|
        0 <= i < lines.len() ==> (#[trigger] class_decl(lines[i]) matches Some(rest) ==> ends_with(
            rest,
            " {"@,
        ))
}

/// The imports at the top of the bindings for the build `name`.
pub open spec fn header_ts(name: Seq<char>) -> Seq<char> {
    "// @ts-nocheck\nimport * as wasm from "@ + debug_quoted("./"@ + name + "/build.js"@)
        + ";\nimport { useMemo as _useMemo, useEffect as _useEffect, useState as _useState } from 'react';\nimport { throttle as throttle } from 'throttle-debounce';\n\n"@
}

/// For a build name whose characters `Debug` writes as they are, the
/// header imports the module `./<name>/build.js` quoted as it is.
pub proof fn lemma_header_plain(name: Seq<char>)
    requires
        forall|i: int| 0 <= i < name.len() ==> plain_char(#[trigger] name[i]),
    ensures
        header_ts(name) == "// @ts-nocheck\nimport * as wasm from \"./"@ + name + "/build.js\";\nimport { useMemo as _useMemo, useEffect as _useEffect, useState as _useState } from 'react';\nimport { throttle as throttle } from 'throttle-debounce';\n\n"@,
{
    reveal_strlit("./");
    reveal_strlit("/build.js");
    reveal_strlit("// @ts-nocheck\nimport * as wasm from ");
    reveal_strlit("// @ts-nocheck\nimport * as wasm from \"./");
    reveal_strlit(";\nimport { useMemo as _useMemo, useEffect as _useEffect, useState as _useState } from 'react';\nimport { throttle as throttle } from 'throttle-debounce';\n\n");
    reveal_strlit("/build.js\";\nimport { useMemo as _useMemo, useEffect as _useEffect, useState as _useState } from 'react';\nimport { throttle as throttle } from 'throttle-debounce';\n\n");
    let p = "./"@ + name + "/build.js"@;
    assert forall|i: int| 0 <= i < p.len() implies plain_char(#[trigger] p[i]) by {
        if i >= 2 && i < 2 + name.len() {
            assert(p[i] == name[i - 2]);
        }
    }
    lemma_debug_chars_plain(p);
    assert(header_ts(name) =~= "// @ts-nocheck\nimport * as wasm from \"./"@ + name + "/build.js\";\nimport { useMemo as _useMemo, useEffect as _useEffect, useState as _useState } from 'react';\nimport { throttle as throttle } from 'throttle-debounce';\n\n"@);
}

/// The places in a hook where each property is written.
#[derive(Clone, Copy)]
pub enum Part {
    /// a field of the props interface
    Field,
    /// a parameter of `run`
    Param,
    /// an assignment in `run`
    Assign,
    /// an argument of the effect's call
    Arg,
    /// a dependency of the effect
    Dep,
}

/// What is written for the property `p` at `part`.
pub open spec fn part_ts(part: Part, p: PropertyView) -> Seq<char> {
    match part {
        Part::Field => "  "@ + p.0 + ": "@ + p.1 + ";\n"@,
        Part::Param => "      "@ + p.0 + ": "@ + p.1 + ", \n"@,
        Part::Assign => "      this."@ + p.0 + " = "@ + p.0 + ";\n"@,
        Part::Arg => "      props."@ + p.0 + ",\n"@,
        Part::Dep => "    props."@ + p.0 + ",\n"@,
    }
}

/// What is written at `part` for each property, in order.
pub open spec fn per_property(ps: Seq<PropertyView>, part: Part) -> Seq<char>
    decreases ps.len(),
{
    if ps.len() == 0 {
        seq![]
    } else {
        per_property(ps.drop_last(), part) + part_ts(part, ps.last())
    }
}

/// The class, its props interface and its hook.
pub open spec fn class_ts(c: ClassView) -> Seq<char> {
    let n = c.0;
    let ps = c.1;
    "export class "@ + n + " extends wasm."@ + n + " {\n}\n\nexport interface "@ + n + "Props {\n"@
        + per_property(ps, Part::Field)
        + "}\n\nexport function use"@ + n + "(props: "@ + n + "Props): "@ + n + " {\n"@
        + "  const [_gen, _set_gen] = _useState(0);\n  const _instance = _useMemo(() => {\n    const i = new wasm."@
        + n + "() as "@ + n
        + ";\n    let _gen = 0;\n    const _run = i._run;\n    i.run = throttle(500, run);\n    function run(\n"@
        + per_property(ps, Part::Param)
        + "    ) {{\n"@
        + per_property(ps, Part::Assign)
        + "      const _ret = _run.call(this);\n      _gen += 1;\n      _set_gen(_gen);\n      return _ret;\n    }}\n    return i;\n  }, []);\n  \n  _useEffect(() => _instance.run(\n"@
        + per_property(ps, Part::Arg)
        + "  ), [\n"@
        + per_property(ps, Part::Dep)
        + "  ]);\n  \n  return _instance;\n}\n\n"@
}

pub open spec fn classes_ts(cs: Seq<ClassView>) -> Seq<char>
    decreases cs.len(),
{
    if cs.len() == 0 {
        seq![]
    } else {
        classes_ts(cs.drop_last()) + class_ts(cs.last())
    }
}

/// The bindings for the build `name` whose declaration file is `types`.
pub open spec fn interface_ts(name: Seq<char>, types: Seq<char>) -> Seq<char> {
    header_ts(name) + classes_ts(parse_classes(lines_of(types)))
}

} // verus!

verus! {

/// Whether `s` starts with `p`.
pub(crate) fn has_prefix(s: &str, p: &str) -> (r: bool)
    ensures
        r == (strip_prefix(s@, p@) is Some),
{
    let n = p.unicode_len();
    let m = s.unicode_len();
    if n > m {
        return false;
    }
    let mut k: usize = 0;
    while k < n
        invariant
            n == p@.len(),
            m == s@.len(),
            n <= m,
            k <= n,
            forall|j: int| 0 <= j < k ==> s@[j] == p@[j],
        decreases n - k,
    {
        if s.get_char(k) != p.get_char(k) {
            assert(s@.subrange(0, n as int)[k as int] != p@[k as int]);
            return false;
        }
        k = k + 1;
    }
    assert(s@.subrange(0, n as int) =~= p@);
    true
}

/// Whether `s` ends with `p`.
fn has_suffix(s: &str, p: &str) -> (r: bool)
    ensures
        r == ends_with(s@, p@),
{
    let n = p.unicode_len();
    let m = s.unicode_len();
    if n > m {
        return false;
    }
    let off = m - n;
    let mut k: usize = 0;
    while k < n
        invariant
            n == p@.len(),
            m == s@.len(),
            n <= m,
            off == m - n,
            k <= n,
            forall|j: int| 0 <= j < k ==> s@[off + j] == p@[j],
        decreases n - k,
    {
        if s.get_char(off + k) != p.get_char(k) {
            assert(s@.subrange(off as int, m as int)[k as int] != p@[k as int]);
            return false;
        }
        k = k + 1;
    }
    assert(s@.subrange(off as int, m as int) =~= p@);
    true
}

/// Index of the first `: ` in `s`, or its length.
fn find_colon_space(s: &str) -> (r: usize)
    ensures
        r == colon_space(s@),
{
    let m = s.unicode_len();
    let mut i: usize = 0;
    assert(s@.subrange(0, m as int) =~= s@);
    while i < m && m - i >= 2
        invariant
            m == s@.len(),
            i <= m,
            colon_space(s@) == i + colon_space(s@.subrange(i as int, m as int)),
        decreases m - i,
    {
        let rest = Ghost(s@.subrange(i as int, m as int));
        if s.get_char(i) == ':' && s.get_char(i + 1) == ' ' {
            assert(rest@[0] == ':' && rest@[1] == ' ');
            return i;
        }
        assert(rest@.drop_first() =~= s@.subrange(i + 1, m as int));
        i = i + 1;
    }
    assert(s@.subrange(i as int, m as int).len() < 2);
    m
}

proof fn lemma_colon_space(s: Seq<char>)
    ensures
        colon_space(s) <= s.len(),
        colon_space(s) < s.len() ==> colon_space(s) + 2 <= s.len(),
    decreases s.len(),
{
    if s.len() >= 2 && !(s[0] == ':' && s[1] == ' ') {
        lemma_colon_space(s.drop_first());
    }
}

/// Whether `s` has an opening parenthesis.
fn has_paren(s: &str) -> (r: bool)
    ensures
        r == s@.contains('('),
{
    let m = s.unicode_len();
    let mut i: usize = 0;
    while i < m
        invariant
            m == s@.len(),
            i <= m,
            forall|j: int| 0 <= j < i ==> s@[j] != '(',
        decreases m - i,
    {
        if s.get_char(i) == '(' {
            assert(s@[i as int] == '(');
            return true;
        }
        i = i + 1;
    }
    false
}

/// `s` without its trailing semicolons.
fn strip_semis(s: &str) -> (r: &str)
    ensures
        r@ == trim_semis(s@),
{
    let m = s.unicode_len();
    let mut j: usize = m;
    assert(s@.subrange(0, m as int) =~= s@);
    while j > 0 && s.get_char(j - 1) == ';'
        invariant
            m == s@.len(),
            j <= m,
            trim_semis(s@) == trim_semis(s@.subrange(0, j as int)),
        decreases j,
    {
        assert(s@.subrange(0, j as int).drop_last() =~= s@.subrange(0, j - 1));
        j = j - 1;
    }
    s.substring_char(0, j)
}

/// `s` without its leading and trailing whitespace.
fn trim_str(s: &str) -> (r: &str)
    ensures
        r@ == trim_end(trim_start(s@)),
{
    let chars = chars_of(s);
    let m = chars.len();
    let lo = skip_ws_start(&chars, 0, m);
    let hi = skip_ws_end(&chars, lo, m);
    assert(chars@.subrange(0, m as int) =~= s@);
    s.substring_char(lo, hi)
}

pub open spec fn props_view(ps: Seq<(String, String)>) -> Seq<PropertyView> {
    ps.map_values(|p: (String, String)| (p.0@, p.1@))
}

pub open spec fn classes_view(cs: Seq<(String, Vec<(String, String)>)>) -> Seq<ClassView> {
    cs.map_values(|c: (String, Vec<(String, String)>)| (c.0@, props_view(c.1@)))
}

/// The classes that the lines of a declaration file declare, each with its
/// properties in order; methods and lines before the first class are passed over.
pub fn parse_declarations(lines: &Vec<&str>) -> (r: Vec<(String, Vec<(String, String)>)>)
    requires
        declarations_ok(strs_view(lines@)),
    ensures
        classes_view(r@) == parse_classes(strs_view(lines@)),
{
    let ghost ls = strs_view(lines@);
    let mut classes: Vec<(String, Vec<(String, String)>)> = Vec::new();
    let mut i: usize = 0;
    assert(ls.subrange(0, 0) =~= Seq::<Seq<char>>::empty());
    assert(classes_view(classes@) =~= Seq::<ClassView>::empty());
    while i < lines.len()
        invariant
            ls == strs_view(lines@),
            declarations_ok(ls),
            i <= lines@.len(),
            classes_view(classes@) == parse_classes(ls.subrange(0, i as int)),
        decreases lines@.len() - i,
    {
        let line = lines[i];
        let ghost cs0 = classes_view(classes@);
        assert(ls[i as int] == line@);
        assert(ls.subrange(0, i + 1).drop_last() =~= ls.subrange(0, i as int));
        assert(parse_classes(ls.subrange(0, i + 1)) == parse_step(cs0, line@));
        if has_prefix(line, "export class ") {
            let rest = line.substring_char("export class ".unicode_len(), line.unicode_len());
            assert(class_decl(ls[i as int]) is Some);
            assert(rest@ == class_decl(line@)->0);
            has_suffix(rest, " {");
            let name = rest.substring_char(0, rest.unicode_len() - " {".unicode_len());
            let ghost c0 = classes@;
            classes.push((name.to_owned(), Vec::new()));
            proof {
                assert(props_view(Seq::<(String, String)>::empty()) =~= Seq::<PropertyView>::empty());
                assert(classes_view(classes@) =~= cs0.push((name@, seq![])));
            }
        } else if classes.len() > 0 {
            let c = find_colon_space(line);
            proof {
                lemma_colon_space(line@);
            }
            if c < line.unicode_len() {
                let prop = trim_str(line.substring_char(0, c));
                if !has_paren(prop) {
                    let ty = strip_semis(line.substring_char(c + 2, line.unicode_len()));
                    let ghost c0 = classes@;
                    let (cname, mut props) = classes.pop().unwrap();
                    let ghost p0 = props@;
                    props.push((prop.to_owned(), ty.to_owned()));
                    classes.push((cname, props));
                    proof {
                        assert(c0.drop_last() =~= classes@.drop_last());
                        assert(props_view(props@) =~= props_view(p0).push((prop@, ty@)));
                        assert forall|j: int| 0 <= j < classes@.len() implies #[trigger] classes_view(classes@)[j] == cs0.update(
                            cs0.len() - 1,
                            (cs0.last().0, cs0.last().1.push((prop@, ty@))),
                        )[j] by {
                            if j < classes@.len() - 1 {
                                assert(classes@[j] == c0[j]);
                            }
                        }
                        assert(classes_view(classes@) =~= cs0.update(
                            cs0.len() - 1,
                            (cs0.last().0, cs0.last().1.push((prop@, ty@))),
                        ));
                    }
                }
            }
        }
        i = i + 1;
    }
    assert(ls.subrange(0, lines@.len() as int) =~= ls);
    classes
}

} // verus!

verus! {

/// Writes what goes at `part` for each property of `ps`.
fn write_part(out: &mut String, ps: &Vec<(String, String)>, part: Part)
    ensures
        final(out)@ == old(out)@ + per_property(props_view(ps@), part),
{
    let ghost pv = props_view(ps@);
    let mut i: usize = 0;
    assert(pv.subrange(0, 0) =~= Seq::<PropertyView>::empty());
    assert(out@ =~= old(out)@ + per_property(pv.subrange(0, 0), part));
    while i < ps.len()
        invariant
            pv == props_view(ps@),
            i <= ps@.len(),
            out@ == old(out)@ + per_property(pv.subrange(0, i as int), part),
        decreases ps@.len() - i,
    {
        let ghost before = out@;
        let p = &ps[i];
        let name = p.0.as_str();
        let ty = p.1.as_str();
        match part {
            Part::Field => {
                out.append("  ");
                out.append(name);
                out.append(": ");
                out.append(ty);
                out.append(";\n");
            },
            Part::Param => {
                out.append("      ");
                out.append(name);
                out.append(": ");
                out.append(ty);
                out.append(", \n");
            },
            Part::Assign => {
                out.append("      this.");
                out.append(name);
                out.append(" = ");
                out.append(name);
                out.append(";\n");
            },
            Part::Arg => {
                out.append("      props.");
                out.append(name);
                out.append(",\n");
            },
            Part::Dep => {
                out.append("    props.");
                out.append(name);
                out.append(",\n");
            },
        }
        proof {
            assert(pv[i as int] == (name@, ty@));
            assert(pv.subrange(0, i + 1).drop_last() =~= pv.subrange(0, i as int));
            assert(out@ =~= before + part_ts(part, pv[i as int]));
            assert(out@ =~= old(out)@ + per_property(pv.subrange(0, i + 1), part));
        }
        i = i + 1;
    }
    assert(pv.subrange(0, ps@.len() as int) =~= pv);
}

/// Writes the class, its props interface and its hook.
fn write_class(out: &mut String, c: &(String, Vec<(String, String)>))
    ensures
        final(out)@ == old(out)@ + class_ts((c.0@, props_view(c.1@))),
{
    let n = c.0.as_str();
    let ps = &c.1;
    out.append("export class ");
    out.append(n);
    out.append(" extends wasm.");
    out.append(n);
    out.append(" {\n}\n\nexport interface ");
    out.append(n);
    out.append("Props {\n");
    write_part(out, ps, Part::Field);
    out.append("}\n\nexport function use");
    out.append(n);
    out.append("(props: ");
    out.append(n);
    out.append("Props): ");
    out.append(n);
    out.append(" {\n");
    out.append("  const [_gen, _set_gen] = _useState(0);\n  const _instance = _useMemo(() => {\n    const i = new wasm.");
    out.append(n);
    out.append("() as ");
    out.append(n);
    out.append(";\n    let _gen = 0;\n    const _run = i._run;\n    i.run = throttle(500, run);\n    function run(\n");
    write_part(out, ps, Part::Param);
    out.append("    ) {{\n");
    write_part(out, ps, Part::Assign);
    out.append("      const _ret = _run.call(this);\n      _gen += 1;\n      _set_gen(_gen);\n      return _ret;\n    }}\n    return i;\n  }, []);\n  \n  _useEffect(() => _instance.run(\n");
    write_part(out, ps, Part::Arg);
    out.append("  ), [\n");
    write_part(out, ps, Part::Dep);
    out.append("  ]);\n  \n  return _instance;\n}\n\n");
    assert(out@ =~= old(out)@ + class_ts((c.0@, props_view(c.1@))));
}

/// The TypeScript bindings for the build `name`, whose declaration file
/// holds `types`: the imports, then for each class that the file declares,
/// the class, an interface of its properties and a hook that runs it when a
/// property changes.
pub fn emit_interface(types: &str, name: &str) -> (r: String)
    requires
        declarations_ok(lines_of(types@)),
    ensures
        r@ == interface_ts(name@, types@),
{
    let ls = lines(types);
    let classes = parse_declarations(&ls);
    let ghost cs = classes_view(classes@);
    let mut entry = String::new();
    entry.append("./");
    entry.append(name);
    entry.append("/build.js");
    let quoted = debug_str(entry.as_str());
    let mut out = String::new();
    out.append("// @ts-nocheck\nimport * as wasm from ");
    out.append(quoted.as_str());
    out.append(";\nimport { useMemo as _useMemo, useEffect as _useEffect, useState as _useState } from 'react';\nimport { throttle as throttle } from 'throttle-debounce';\n\n");
    proof {
        assert(entry@ =~= "./"@ + name@ + "/build.js"@);
        assert(out@ =~= header_ts(name@));
        assert(cs.subrange(0, 0) =~= Seq::<ClassView>::empty());
        assert(out@ =~= header_ts(name@) + classes_ts(cs.subrange(0, 0)));
    }
    let mut i: usize = 0;
    while i < classes.len()
        invariant
            cs == classes_view(classes@),
            i <= classes@.len(),
            out@ == header_ts(name@) + classes_ts(cs.subrange(0, i as int)),
        decreases classes@.len() - i,
    {
        let ghost before = out@;
        write_class(&mut out, &classes[i]);
        proof {
            assert(cs[i as int] == (classes@[i as int].0@, props_view(classes@[i as int].1@)));
            assert(cs.subrange(0, i + 1).drop_last() =~= cs.subrange(0, i as int));
            assert(out@ =~= header_ts(name@) + classes_ts(cs.subrange(0, i + 1)));
        }
        i = i + 1;
    }
    assert(cs.subrange(0, classes@.len() as int) =~= cs);
    out
}

} // verus!

verus! {

/// Whether every class declaration in `types` ends with ` {`, which
/// `emit_interface` needs to find the class's name.
pub fn declarations_valid(types: &str) -> (r: bool)
    ensures
        r == declarations_ok(lines_of(types@)),
{
    let ls = lines(types);
    let ghost lv = strs_view(ls@);
    let mut i: usize = 0;
    while i < ls.len()
        invariant
            lv == strs_view(ls@),
            lv == lines_of(types@),
            i <= ls@.len(),
            forall|j: int|
                0 <= j < i ==> (#[trigger] class_decl(lv[j]) matches Some(rest) ==> ends_with(
                    rest,
                    " {"@,
                )),
        decreases ls@.len() - i,
    {
        let line = ls[i];
        assert(lv[i as int] == line@);
        if has_prefix(line, "export class ") {
            let rest = line.substring_char("export class ".unicode_len(), line.unicode_len());
            assert(rest@ == class_decl(line@)->0);
            if !has_suffix(rest, " {") {
                return false;
            }
        }
        i = i + 1;
    }
    true
}

} // verus!

verus! {

/// Whether a built module with the extension `ext` gets bindings: only
/// WebAssembly modules do.
pub fn is_wasm(ext: Option<&str>) -> (r: bool)
    ensures
        r == (ext matches Some(e) && e@ == "wasm"@),
{
    match ext {
        Some(e) => crate::text::str_eq(e, "wasm"),
        None => false,
    }
}

/// Whether the bindings written at `target` (a modification time, if the
/// file exists) are newer than both the module built at `source` and the
/// script that writes them, changed at `script`; then they are kept.
pub fn up_to_date(target: Option<u128>, source: u128, script: u128) -> (r: bool)
    ensures
        r == (target matches Some(t) && t > source && t > script),
{
    match target {
        Some(t) => t > source && t > script,
        None => false,
    }
}

} // verus!
