//! Chart specifications filled in with the file of their data.
use vstd::prelude::*;
use crate::book::{file_name, path_file_name};
use crate::text::{chars_of, starts_with};

verus! {

/// `s` with every occurrence of `pat`, from left to right and not
/// overlapping, replaced by `rep` (`str::replace` for a non-empty pattern).
pub open spec fn replace_all(s: Seq<char>, pat: Seq<char>, rep: Seq<char>) -> Seq<char>
    decreases s.len(),
{
    if pat.len() == 0 || s.len() < pat.len() {
        s
    } else if s.subrange(0, pat.len() as int) == pat {
        rep + replace_all(s.subrange(pat.len() as int, s.len() as int), pat, rep)
    } else {
        seq![s[0]] + replace_all(s.drop_first(), pat, rep)
    }
}

pub open spec fn url_pattern() -> Seq<char> {
    seq!['U', 'R', 'L']
}

/// A chart specification: `template` with each `URL` replaced by the name of
/// the data file `path`.
pub fn chart(template: &str, path: &str) -> (r: String)
    ensures
        r@ == replace_all(template@, url_pattern(), file_name(path@)),
{
    let file = path_file_name(path);
    let s = chars_of(template);
    let n = s.len();
    let mut pat: Vec<char> = Vec::new();
    pat.push('U');
    pat.push('R');
    pat.push('L');
    assert(pat@ =~= url_pattern());
    let mut out = String::new();
    let mut i: usize = 0;
    assert(s@.subrange(0, n as int) =~= s@);
    while i < n
        invariant
            s@ == template@,
            n == s@.len(),
            i <= n,
            pat@ == url_pattern(),
            out@ + replace_all(s@.subrange(i as int, n as int), url_pattern(), file@) == replace_all(
                template@,
                url_pattern(),
                file@,
            ),
        decreases n - i,
    {
        let ghost rest = s@.subrange(i as int, n as int);
        if starts_with(&s, i, n, pat.as_slice()) {
            let ghost before = out@;
            out.append(file);
            assert(rest.subrange(0, 3) =~= s@.subrange(i as int, i + 3));
            assert(rest.subrange(3, rest.len() as int) =~= s@.subrange(i + 3, n as int));
            assert(out@ + replace_all(s@.subrange(i + 3, n as int), url_pattern(), file@) =~= before
                + replace_all(rest, url_pattern(), file@));
            i = i + 3;
        } else {
            let c = template.substring_char(i, i + 1);
            let ghost before = out@;
            out.append(c);
            assert(c@ =~= seq![rest[0]]);
            proof {
                if rest.len() >= 3 {
                    assert(rest.subrange(0, 3) =~= s@.subrange(i as int, i + 3));
                    assert(rest.subrange(0, 3) != url_pattern());
                }
            }
            assert(rest.drop_first() =~= s@.subrange(i + 1, n as int));
            assert(out@ + replace_all(s@.subrange(i + 1, n as int), url_pattern(), file@) =~= before + replace_all(rest, url_pattern(), file@));
            i = i + 1;
        }
    }
    assert(s@.subrange(n as int, n as int) =~= Seq::<char>::empty());
    assert(out@ + replace_all(Seq::<char>::empty(), url_pattern(), file@) =~= out@);
    out
}

} // verus!
