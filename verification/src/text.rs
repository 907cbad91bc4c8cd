//! Character classes and operations on character sequences that the
//! metric-line parsers are built from.
use vstd::prelude::*;

verus! {

/// Whether a non-ASCII `c` is in one of the Unicode numeric categories, as `char::is_numeric` decides.
pub uninterp spec fn non_ascii_numeric(c: char) -> bool;

/// Whether `c` has the Unicode `White_Space` property, as `char::is_whitespace`
/// decides: U+0009..=U+000D, space, U+0085, U+00A0, U+1680, U+2000..=U+200A,
/// U+2028, U+2029, U+202F, U+205F and U+3000.
pub open spec fn spec_is_whitespace(c: char) -> bool {
    let v = c as int;
    ||| 9 <= v <= 13
    ||| v == 0x20
    ||| v == 0x85
    ||| v == 0xA0
    ||| v == 0x1680
    ||| 0x2000 <= v <= 0x200A
    ||| v == 0x2028
    ||| v == 0x2029
    ||| v == 0x202F
    ||| v == 0x205F
    ||| v == 0x3000
}

/// `char::is_numeric`: among ASCII characters, the digits.
pub open spec fn spec_is_numeric(c: char) -> bool {
    if (c as int) < 128 {
        '0' <= c && c <= '9'
    } else {
        non_ascii_numeric(c)
    }
}

/// Whether `c` is whitespace (see `spec_is_whitespace`).
pub fn is_whitespace(c: char) -> (r: bool)
    ensures
        r == spec_is_whitespace(c),
{
    let v = c as u32;
    (9 <= v && v <= 13) || v == 0x20 || v == 0x85 || v == 0xA0 || v == 0x1680 || (0x2000 <= v && v <= 0x200A)
        || v == 0x2028 || v == 0x2029 || v == 0x202F || v == 0x205F || v == 0x3000
}

/// Calls `char::is_numeric`. Its documentation defines the result as membership
/// in the general categories Nd, Nl and No; among ASCII characters exactly the
/// digits `0`..=`9` are in them. For other characters the result is left to the
/// name `non_ascii_numeric`.
#[verifier::external_body]
pub fn is_numeric(c: char) -> (r: bool)
    ensures
        (c as int) < 128 ==> (r <==> ('0' <= c && c <= '9')),
        (c as int) >= 128 ==> r == non_ascii_numeric(c),
{
    c.is_numeric()
}

} // verus!

verus! {

/// A class of characters that a scan stops at.
#[derive(Clone, Copy)]
pub enum Stop {
    /// the given character
    At(char),
    /// any whitespace character
    Whitespace,
    /// any character that is not numeric
    NonNumeric,
    /// any numeric character
    Numeric,
}

pub open spec fn stops(stop: Stop, c: char) -> bool {
    match stop {
        Stop::At(x) => c == x,
        Stop::Whitespace => spec_is_whitespace(c),
        Stop::NonNumeric => !spec_is_numeric(c),
        Stop::Numeric => spec_is_numeric(c),
    }
}

/// Index of the first character of `s` at which `stop` holds, or the length of `s`.
pub open spec fn first_stop(s: Seq<char>, stop: Stop) -> nat
    decreases s.len(),
{
    if s.len() == 0 {
        0
    } else if stops(stop, s[0]) {
        0
    } else {
        1 + first_stop(s.drop_first(), stop)
    }
}

pub proof fn lemma_first_stop(s: Seq<char>, stop: Stop)
    ensures
        first_stop(s, stop) <= s.len(),
        forall|j: int| 0 <= j < first_stop(s, stop) ==> !stops(stop, #[trigger] s[j]),
        first_stop(s, stop) < s.len() ==> stops(stop, s[first_stop(s, stop) as int]),
    decreases s.len(),
{
    if s.len() > 0 && !stops(stop, s[0]) {
        lemma_first_stop(s.drop_first(), stop);
        assert forall|j: int| 0 <= j < first_stop(s, stop) implies !stops(stop, #[trigger] s[j]) by {
            if j > 0 {
                assert(s[j] == s.drop_first()[j - 1]);
            }
        }
    }
}

/// `s` without its leading whitespace.
pub open spec fn trim_start(s: Seq<char>) -> Seq<char>
    decreases s.len(),
{
    if s.len() == 0 {
        s
    } else if spec_is_whitespace(s[0]) {
        trim_start(s.drop_first())
    } else {
        s
    }
}

/// `s` without its trailing whitespace.
pub open spec fn trim_end(s: Seq<char>) -> Seq<char>
    decreases s.len(),
{
    if s.len() == 0 {
        s
    } else if spec_is_whitespace(s.last()) {
        trim_end(s.drop_last())
    } else {
        s
    }
}

/// The parts of `s` before and after the first occurrence of `c`, if `c` occurs.
pub open spec fn split_once(s: Seq<char>, c: char) -> Option<(Seq<char>, Seq<char>)> {
    let i = first_stop(s, Stop::At(c));
    if i < s.len() {
        Some((s.subrange(0, i as int), s.subrange(i as int + 1, s.len() as int)))
    } else {
        None
    }
}

/// `split_once`, with trailing whitespace removed from the first part and
/// leading whitespace from the second.
pub open spec fn split_once_ws(s: Seq<char>, c: char) -> Option<(Seq<char>, Seq<char>)> {
    match split_once(s, c) {
        Some((a, b)) => Some((trim_end(a), trim_start(b))),
        None => None,
    }
}

/// The rest of `s` after the prefix `lit`, if `s` starts with it.
pub open spec fn strip_prefix(s: Seq<char>, lit: Seq<char>) -> Option<Seq<char>> {
    if lit.len() <= s.len() && s.subrange(0, lit.len() as int) == lit {
        Some(s.subrange(lit.len() as int, s.len() as int))
    } else {
        None
    }
}

/// The maximal runs of non-whitespace characters of `s`, in order.
pub open spec fn split_whitespace(s: Seq<char>) -> Seq<Seq<char>>
    decreases s.len(),
{
    if s.len() == 0 {
        seq![]
    } else if spec_is_whitespace(s[0]) {
        split_whitespace(s.drop_first())
    } else {
        let k = first_stop(s, Stop::Whitespace);
        proof {
            lemma_first_stop(s, Stop::Whitespace);
        }
        seq![s.subrange(0, k as int)] + split_whitespace(s.subrange(k as int, s.len() as int))
    }
}

pub open spec fn is_ascii_digit(c: char) -> bool {
    '0' <= c && c <= '9'
}

pub open spec fn digit_value(c: char) -> nat {
    (c as int - '0' as int) as nat
}

/// Whether `s` is a non-empty run of ASCII digits.
pub open spec fn all_digits(s: Seq<char>) -> bool {
    s.len() > 0 && forall|i: int| 0 <= i < s.len() ==> is_ascii_digit(#[trigger] s[i])
}

/// The number that the decimal digits `s` spell.
pub open spec fn digits_value(s: Seq<char>) -> nat
    decreases s.len(),
{
    if s.len() == 0 {
        0
    } else {
        digits_value(s.drop_last()) * 10 + digit_value(s.last())
    }
}

/// What `str::parse::<u64>` gives: an optional `+`, then one or more ASCII
/// digits whose value fits in a `u64`.
pub open spec fn parse_u64(s: Seq<char>) -> Option<u64> {
    let d = if s.len() > 0 && s[0] == '+' { s.drop_first() } else { s };
    if all_digits(d) && digits_value(d) <= u64::MAX {
        Some(digits_value(d) as u64)
    } else {
        None
    }
}

/// Strict lexicographic order on character sequences (the order of `str`).
pub open spec fn lex_lt(a: Seq<char>, b: Seq<char>) -> bool
    decreases a.len(),
{
    if a.len() == 0 {
        b.len() > 0
    } else if b.len() == 0 {
        false
    } else if a[0] < b[0] {
        true
    } else if a[0] == b[0] {
        lex_lt(a.drop_first(), b.drop_first())
    } else {
        false
    }
}

pub proof fn lemma_lex_irreflexive(a: Seq<char>)
    ensures
        !lex_lt(a, a),
    decreases a.len(),
{
    if a.len() > 0 {
        lemma_lex_irreflexive(a.drop_first());
    }
}

pub proof fn lemma_lex_asymmetric(a: Seq<char>, b: Seq<char>)
    ensures
        lex_lt(a, b) ==> !lex_lt(b, a),
    decreases a.len(),
{
    if a.len() > 0 && b.len() > 0 && a[0] == b[0] {
        lemma_lex_asymmetric(a.drop_first(), b.drop_first());
    }
}

pub proof fn lemma_lex_transitive(a: Seq<char>, b: Seq<char>, c: Seq<char>)
    requires
        lex_lt(a, b),
        lex_lt(b, c),
    ensures
        lex_lt(a, c),
    decreases a.len(),
{
    if a.len() > 0 && b.len() > 0 && c.len() > 0 && a[0] == b[0] && b[0] == c[0] {
        lemma_lex_transitive(a.drop_first(), b.drop_first(), c.drop_first());
    }
}

pub proof fn lemma_lex_total(a: Seq<char>, b: Seq<char>)
    ensures
        a != b ==> lex_lt(a, b) || lex_lt(b, a),
    decreases a.len(),
{
    if a.len() > 0 && b.len() > 0 && a[0] == b[0] {
        lemma_lex_total(a.drop_first(), b.drop_first());
        if a != b {
            assert(a.drop_first() != b.drop_first()) by {
                if a.drop_first() == b.drop_first() {
                    assert(a =~= seq![a[0]] + a.drop_first());
                    assert(b =~= seq![b[0]] + b.drop_first());
                }
            }
        }
    } else if a.len() == 0 && b.len() == 0 {
        assert(a =~= b);
    } else if a.len() > 0 && b.len() > 0 {
        assert(a[0] != b[0]);
    }
}

} // verus!

verus! {

/// The characters of `s`, in order.
pub fn chars_of(s: &str) -> (r: Vec<char>)
    ensures
        r@ == s@,
{
    let n = s.unicode_len();
    let mut r: Vec<char> = Vec::new();
    let mut i: usize = 0;
    while i < n
        invariant
            n == s@.len(),
            i <= n,
            r@ == s@.subrange(0, i as int),
        decreases n - i,
    {
        let c = s.get_char(i);
        r.push(c);
        i = i + 1;
        assert(r@ =~= s@.subrange(0, i as int));
    }
    assert(r@ =~= s@);
    r
}

/// Whether the scan stop `stop` holds at `c`.
pub fn stops_at(stop: Stop, c: char) -> (r: bool)
    ensures
        r == stops(stop, c),
{
    match stop {
        Stop::At(x) => c == x,
        Stop::Whitespace => is_whitespace(c),
        Stop::NonNumeric => !is_numeric(c),
        Stop::Numeric => is_numeric(c),
    }
}

/// The index of the first character of `s[lo..hi]` at which `stop` holds, or `hi`.
pub fn scan(s: &Vec<char>, lo: usize, hi: usize, stop: Stop) -> (r: usize)
    requires
        lo <= hi <= s@.len(),
    ensures
        lo <= r <= hi,
        r - lo == first_stop(s@.subrange(lo as int, hi as int), stop),
{
    let mut i = lo;
    while i < hi
        invariant
            lo <= i <= hi <= s@.len(),
            first_stop(s@.subrange(lo as int, hi as int), stop) == (i - lo) + first_stop(
                s@.subrange(i as int, hi as int),
                stop,
            ),
        decreases hi - i,
    {
        if stops_at(stop, s[i]) {
            return i;
        }
        assert(s@.subrange(i as int, hi as int).drop_first() =~= s@.subrange(i + 1, hi as int));
        i = i + 1;
    }
    i
}

/// The index at which `s[lo..hi]` starts once its leading whitespace is removed.
pub fn skip_ws_start(s: &Vec<char>, lo: usize, hi: usize) -> (r: usize)
    requires
        lo <= hi <= s@.len(),
    ensures
        lo <= r <= hi,
        s@.subrange(r as int, hi as int) == trim_start(s@.subrange(lo as int, hi as int)),
{
    let mut i = lo;
    while i < hi
        invariant
            lo <= i <= hi <= s@.len(),
            trim_start(s@.subrange(lo as int, hi as int)) == trim_start(
                s@.subrange(i as int, hi as int),
            ),
        decreases hi - i,
    {
        if !is_whitespace(s[i]) {
            return i;
        }
        assert(s@.subrange(i as int, hi as int).drop_first() =~= s@.subrange(i + 1, hi as int));
        i = i + 1;
    }
    assert(s@.subrange(i as int, hi as int).len() == 0);
    i
}

/// The index at which `s[lo..hi]` ends once its trailing whitespace is removed.
pub fn skip_ws_end(s: &Vec<char>, lo: usize, hi: usize) -> (r: usize)
    requires
        lo <= hi <= s@.len(),
    ensures
        lo <= r <= hi,
        s@.subrange(lo as int, r as int) == trim_end(s@.subrange(lo as int, hi as int)),
{
    let mut j = hi;
    while j > lo
        invariant
            lo <= j <= hi <= s@.len(),
            trim_end(s@.subrange(lo as int, hi as int)) == trim_end(
                s@.subrange(lo as int, j as int),
            ),
        decreases j - lo,
    {
        if !is_whitespace(s[j - 1]) {
            return j;
        }
        assert(s@.subrange(lo as int, j as int).drop_last() =~= s@.subrange(lo as int, j - 1));
        j = j - 1;
    }
    assert(s@.subrange(lo as int, j as int).len() == 0);
    j
}

/// Whether `s[lo..hi]` starts with the characters `lit`.
pub fn starts_with(s: &Vec<char>, lo: usize, hi: usize, lit: &[char]) -> (r: bool)
    requires
        lo <= hi <= s@.len(),
    ensures
        r == (lit@.len() <= hi - lo && s@.subrange(lo as int, lo + lit@.len()) == lit@),
{
    let n = lit.len();
    if n > hi - lo {
        return false;
    }
    let mut k: usize = 0;
    while k < n
        invariant
            n == lit@.len(),
            n <= hi - lo,
            lo <= hi <= s@.len(),
            k <= n,
            forall|j: int| 0 <= j < k ==> s@[lo + j] == lit@[j],
        decreases n - k,
    {
        if s[lo + k] != lit[k] {
            assert(s@.subrange(lo as int, lo + n)[k as int] != lit@[k as int]);
            return false;
        }
        k = k + 1;
    }
    assert(s@.subrange(lo as int, lo + n) =~= lit@);
    true
}

} // verus!

verus! {

pub proof fn lemma_digits_value_prefix(s: Seq<char>, k: int, n: int)
    requires
        0 <= k <= n <= s.len(),
    ensures
        digits_value(s.subrange(0, k)) <= digits_value(s.subrange(0, n)),
    decreases n - k,
{
    if k < n {
        lemma_digits_value_prefix(s, k, n - 1);
        assert(s.subrange(0, n).drop_last() =~= s.subrange(0, n - 1));
    }
}

/// `str::parse::<u64>` of the characters `s[lo..hi]`.
pub fn parse_u64_at(s: &Vec<char>, lo: usize, hi: usize) -> (r: Option<u64>)
    requires
        lo <= hi <= s@.len(),
    ensures
        r == parse_u64(s@.subrange(lo as int, hi as int)),
{
    let ghost t = s@.subrange(lo as int, hi as int);
    let mut i = lo;
    if i < hi && s[i] == '+' {
        i = i + 1;
    }
    let ghost d = s@.subrange(i as int, hi as int);
    assert(d == (if t.len() > 0 && t[0] == '+' { t.drop_first() } else { t }));
    if i == hi {
        return None;
    }
    let mut value: u64 = 0;
    let mut j = i;
    while j < hi
        invariant
            lo <= i < hi <= s@.len(),
            i <= j <= hi,
            d == s@.subrange(i as int, hi as int),
            t == s@.subrange(lo as int, hi as int),
            d == (if t.len() > 0 && t[0] == '+' { t.drop_first() } else { t }),
            forall|k: int| i <= k < j ==> is_ascii_digit(#[trigger] s@[k]),
            value == digits_value(s@.subrange(i as int, j as int)),
        decreases hi - j,
    {
        let c = s[j];
        if !('0' <= c && c <= '9') {
            assert(!is_ascii_digit(d[j - i]));
            return None;
        }
        let digit = ((c as u32) - ('0' as u32)) as u64;
        assert(s@.subrange(i as int, j + 1).drop_last() =~= s@.subrange(i as int, j as int));
        if value > (u64::MAX - digit) / 10 {
            proof {
                assert(d.subrange(0, (j + 1 - i) as int) =~= s@.subrange(i as int, j + 1));
                assert(d.subrange(0, d.len() as int) =~= d);
                lemma_digits_value_prefix(d, (j + 1 - i) as int, d.len() as int);
                assert(value * 10 + digit > u64::MAX) by (nonlinear_arith)
                    requires
                        value > (u64::MAX - digit) / 10,
                        digit <= 9,
                ;
            }
            return None;
        }
        value = value * 10 + digit;
        j = j + 1;
    }
    assert(d =~= s@.subrange(i as int, j as int));
    Some(value)
}

} // verus!

verus! {

/// Whether `s[alo..ahi]` is ordered before `s[blo..bhi]`.
pub fn lex_less(s: &Vec<char>, alo: usize, ahi: usize, blo: usize, bhi: usize) -> (r: bool)
    requires
        alo <= ahi <= s@.len(),
        blo <= bhi <= s@.len(),
    ensures
        r == lex_lt(s@.subrange(alo as int, ahi as int), s@.subrange(blo as int, bhi as int)),
{
    let ghost a = s@.subrange(alo as int, ahi as int);
    let ghost b = s@.subrange(blo as int, bhi as int);
    let mut k: usize = 0;
    assert(a.subrange(0, a.len() as int) =~= a);
    assert(b.subrange(0, b.len() as int) =~= b);
    loop
        invariant
            alo <= ahi <= s@.len(),
            blo <= bhi <= s@.len(),
            a == s@.subrange(alo as int, ahi as int),
            b == s@.subrange(blo as int, bhi as int),
            k <= ahi - alo,
            k <= bhi - blo,
            lex_lt(a, b) == lex_lt(a.subrange(k as int, a.len() as int), b.subrange(k as int, b.len() as int)),
        decreases ahi - alo - k,
    {
        let ghost a1 = a.subrange(k as int, a.len() as int);
        let ghost b1 = b.subrange(k as int, b.len() as int);
        if k == ahi - alo {
            return k < bhi - blo;
        }
        if k == bhi - blo {
            return false;
        }
        let x = s[alo + k];
        let y = s[blo + k];
        assert(a1[0] == x && b1[0] == y);
        if x < y {
            return true;
        }
        if x != y {
            return false;
        }
        assert(a1.drop_first() =~= a.subrange(k + 1, a.len() as int));
        assert(b1.drop_first() =~= b.subrange(k + 1, b.len() as int));
        k = k + 1;
    }
}

/// Whether `s[alo..ahi]` and `s[blo..bhi]` are the same characters.
pub fn range_eq(s: &Vec<char>, alo: usize, ahi: usize, blo: usize, bhi: usize) -> (r: bool)
    requires
        alo <= ahi <= s@.len(),
        blo <= bhi <= s@.len(),
    ensures
        r == (s@.subrange(alo as int, ahi as int) == s@.subrange(blo as int, bhi as int)),
{
    if ahi - alo != bhi - blo {
        assert(s@.subrange(alo as int, ahi as int).len() != s@.subrange(blo as int, bhi as int).len());
        return false;
    }
    let n = ahi - alo;
    let ghost a = s@.subrange(alo as int, ahi as int);
    let ghost b = s@.subrange(blo as int, bhi as int);
    let mut k: usize = 0;
    while k < n
        invariant
            a == s@.subrange(alo as int, ahi as int),
            b == s@.subrange(blo as int, bhi as int),
            n == ahi - alo,
            n == bhi - blo,
            alo <= ahi <= s@.len(),
            blo <= bhi <= s@.len(),
            k <= n,
            forall|j: int| 0 <= j < k ==> #[trigger] a[j] == b[j],
        decreases n - k,
    {
        if s[alo + k] != s[blo + k] {
            assert(a[k as int] != b[k as int]);
            return false;
        }
        assert(a[k as int] == b[k as int]);
        k = k + 1;
    }
    assert(a =~= b);
    true
}

} // verus!

verus! {

pub proof fn lemma_trim_start(s: Seq<char>)
    ensures
        trim_start(s).len() <= s.len(),
        trim_start(s) == s.subrange(s.len() - trim_start(s).len(), s.len() as int),
        trim_start(s).len() > 0 ==> !spec_is_whitespace(trim_start(s)[0]),
        split_whitespace(s) == split_whitespace(trim_start(s)),
    decreases s.len(),
{
    if s.len() == 0 {
        assert(s.subrange(0, 0) =~= s);
    } else if spec_is_whitespace(s[0]) {
        lemma_trim_start(s.drop_first());
        assert(s.drop_first().subrange(
            s.drop_first().len() - trim_start(s).len(),
            s.drop_first().len() as int,
        ) =~= s.subrange(s.len() - trim_start(s).len(), s.len() as int));
    } else {
        assert(s.subrange(0, s.len() as int) =~= s);
    }
}

/// Splitting at whitespace a sequence that starts with a token: that token, then the rest split.
pub proof fn lemma_split_whitespace_step(s: Seq<char>)
    requires
        s.len() > 0,
        !spec_is_whitespace(s[0]),
    ensures
        1 <= first_stop(s, Stop::Whitespace) <= s.len(),
        split_whitespace(s) == seq![s.subrange(0, first_stop(s, Stop::Whitespace) as int)]
            + split_whitespace(s.subrange(first_stop(s, Stop::Whitespace) as int, s.len() as int)),
{
    lemma_first_stop(s, Stop::Whitespace);
}

pub proof fn lemma_split_whitespace_blank(s: Seq<char>)
    requires
        trim_start(s).len() == 0,
    ensures
        split_whitespace(s) == Seq::<Seq<char>>::empty(),
{
    lemma_trim_start(s);
}

} // verus!

verus! {

/// The ASCII digit for `d < 10`.
pub open spec fn digit_char(d: nat) -> char {
    if d == 0 { '0' }
    else if d == 1 { '1' }
    else if d == 2 { '2' }
    else if d == 3 { '3' }
    else if d == 4 { '4' }
    else if d == 5 { '5' }
    else if d == 6 { '6' }
    else if d == 7 { '7' }
    else if d == 8 { '8' }
    else { '9' }
}

/// The decimal digits of `n`, without leading zeros (`Display` of an unsigned integer).
pub open spec fn decimal(n: nat) -> Seq<char>
    decreases n,
{
    if n < 10 {
        seq![digit_char(n)]
    } else {
        decimal(n / 10).push(digit_char(n % 10))
    }
}

pub proof fn lemma_digit_char(d: nat)
    requires
        d < 10,
    ensures
        is_ascii_digit(digit_char(d)),
        digit_value(digit_char(d)) == d,
{
}

pub proof fn lemma_decimal(n: nat)
    ensures
        all_digits(decimal(n)),
        digits_value(decimal(n)) == n,
        decimal(n).len() > 0,
    decreases n,
{
    if n < 10 {
        lemma_digit_char(n);
        assert(decimal(n).drop_last() =~= Seq::<char>::empty());
        assert(digits_value(decimal(n)) == digits_value(decimal(n).drop_last()) * 10 + digit_value(decimal(n).last()));
    } else {
        lemma_decimal(n / 10);
        lemma_digit_char(n % 10);
        assert(n == (n / 10) * 10 + n % 10);
        let d = decimal(n);
        assert(d.drop_last() =~= decimal(n / 10));
        assert(d.last() == digit_char(n % 10));
        assert(digits_value(d) == digits_value(d.drop_last()) * 10 + digit_value(d.last()));
        assert forall|i: int| 0 <= i < d.len() implies is_ascii_digit(#[trigger] d[i]) by {
            if i < d.len() - 1 {
                assert(d[i] == decimal(n / 10)[i]);
            }
        }
    }
}

pub proof fn lemma_parse_decimal(n: u64)
    ensures
        parse_u64(decimal(n as nat)) == Some(n),
{
    lemma_decimal(n as nat);
    assert(is_ascii_digit(decimal(n as nat)[0]));
}

/// Scanning past a part in which `stop` never holds.
pub proof fn lemma_first_stop_concat(x: Seq<char>, y: Seq<char>, stop: Stop)
    requires
        forall|i: int| 0 <= i < x.len() ==> !stops(stop, #[trigger] x[i]),
    ensures
        first_stop(x + y, stop) == x.len() + first_stop(y, stop),
    decreases x.len(),
{
    if x.len() > 0 {
        assert((x + y).drop_first() =~= x.drop_first() + y);
        assert forall|i: int| 0 <= i < x.drop_first().len() implies !stops(stop, #[trigger] x.drop_first()[i]) by {
            assert(x.drop_first()[i] == x[i + 1]);
        }
        lemma_first_stop_concat(x.drop_first(), y, stop);
        assert((x + y)[0] == x[0]);
    }
}

} // verus!

verus! {

/// The ASCII digit `d` as a string.
pub fn digit_str(d: u64) -> (r: &'static str)
    requires
        d < 10,
    ensures
        r@ == seq![digit_char(d as nat)],
{
    if d == 0 {
        proof { reveal_strlit("0"); }
        "0"
    } else if d == 1 {
        proof { reveal_strlit("1"); }
        "1"
    } else if d == 2 {
        proof { reveal_strlit("2"); }
        "2"
    } else if d == 3 {
        proof { reveal_strlit("3"); }
        "3"
    } else if d == 4 {
        proof { reveal_strlit("4"); }
        "4"
    } else if d == 5 {
        proof { reveal_strlit("5"); }
        "5"
    } else if d == 6 {
        proof { reveal_strlit("6"); }
        "6"
    } else if d == 7 {
        proof { reveal_strlit("7"); }
        "7"
    } else if d == 8 {
        proof { reveal_strlit("8"); }
        "8"
    } else {
        proof { reveal_strlit("9"); }
        "9"
    }
}

/// Appends the decimal digits of `n` to `out`.
pub fn push_decimal(out: &mut String, n: u64)
    ensures
        final(out)@ == old(out)@ + decimal(n as nat),
    decreases n,
{
    if n >= 10 {
        push_decimal(out, n / 10);
    }
    let d = n % 10;
    out.append(digit_str(d));
    proof {
        if n < 10 {
            assert(decimal(n as nat) =~= seq![digit_char(n as nat)]);
        }
    }
}

} // verus!

verus! {

/// Whether `a` and `b` are the same text.
pub fn str_eq(a: &str, b: &str) -> (r: bool)
    ensures
        r == (a@ == b@),
{
    let n = a.unicode_len();
    let m = b.unicode_len();
    if n != m {
        return false;
    }
    let mut i: usize = 0;
    while i < n
        invariant
            n == a@.len(),
            m == b@.len(),
            n == m,
            i <= n,
            forall|j: int| 0 <= j < i ==> #[trigger] a@[j] == b@[j],
        decreases n - i,
    {
        if a.get_char(i) != b.get_char(i) {
            return false;
        }
        i = i + 1;
    }
    assert(a@ =~= b@);
    true
}

/// Whether `a` is ordered before `b`.
pub fn str_lt(a: &str, b: &str) -> (r: bool)
    ensures
        r == lex_lt(a@, b@),
{
    let n = a.unicode_len();
    let m = b.unicode_len();
    let mut k: usize = 0;
    assert(a@.subrange(0, n as int) =~= a@);
    assert(b@.subrange(0, m as int) =~= b@);
    loop
        invariant
            n == a@.len(),
            m == b@.len(),
            k <= n,
            k <= m,
            lex_lt(a@, b@) == lex_lt(a@.subrange(k as int, n as int), b@.subrange(k as int, m as int)),
        decreases n - k,
    {
        let ghost a1 = a@.subrange(k as int, n as int);
        let ghost b1 = b@.subrange(k as int, m as int);
        if k == n {
            return k < m;
        }
        if k == m {
            return false;
        }
        let x = a.get_char(k);
        let y = b.get_char(k);
        assert(a1[0] == x && b1[0] == y);
        if x < y {
            return true;
        }
        if x != y {
            return false;
        }
        assert(a1.drop_first() =~= a@.subrange(k + 1, n as int));
        assert(b1.drop_first() =~= b@.subrange(k + 1, m as int));
        k = k + 1;
    }
}

} // verus!

verus! {

/// `l` without one trailing carriage return.
pub open spec fn strip_cr(l: Seq<char>) -> Seq<char> {
    if l.len() > 0 && l.last() == '\r' {
        l.drop_last()
    } else {
        l
    }
}

/// The lines of `s` as `str::lines` yields them: split at each `\n`, a `\r`
/// right before the `\n` dropped, and no empty line after a final `\n`.
pub open spec fn lines_of(s: Seq<char>) -> Seq<Seq<char>>
    decreases s.len(),
{
    if s.len() == 0 {
        seq![]
    } else {
        let i = first_stop(s, Stop::At('\n'));
        if i >= s.len() {
            seq![s]
        } else {
            seq![strip_cr(s.take(i as int))] + lines_of(s.skip(i + 1 as int))
        }
    }
}

pub open spec fn strs_view<'a>(v: Seq<&'a str>) -> Seq<Seq<char>> {
    v.map_values(|x: &'a str| x@)
}

/// The lines of `s`, as `str::lines` yields them.
pub fn lines<'a>(s: &'a str) -> (r: Vec<&'a str>)
    ensures
        strs_view(r@) == lines_of(s@),
{
    let chars = chars_of(s);
    let n = chars.len();
    let mut r: Vec<&'a str> = Vec::new();
    let mut lo: usize = 0;
    assert(s@.skip(0) =~= s@);
    assert(strs_view(r@) =~= Seq::<Seq<char>>::empty());
    assert(lines_of(s@) =~= strs_view(r@) + lines_of(s@.skip(0)));
    while lo < n
        invariant
            n == s@.len(),
            chars@ == s@,
            lo <= n,
            lines_of(s@) == strs_view(r@) + lines_of(s@.skip(lo as int)),
        decreases n - lo,
    {
        let ghost rest = s@.skip(lo as int);
        let ghost r0 = r@;
        let j = scan(&chars, lo, n, Stop::At('\n'));
        assert(chars@.subrange(lo as int, n as int) =~= rest);
        proof {
            lemma_first_stop(rest, Stop::At('\n'));
        }
        if j == n {
            r.push(s.substring_char(lo, n));
            proof {
                assert(lines_of(rest) == seq![rest]);
                assert(strs_view(r@) =~= strs_view(r0).push(rest));
                assert(s@.skip(n as int) =~= Seq::<char>::empty());
                assert(lines_of(s@) =~= strs_view(r@) + lines_of(s@.skip(n as int)));
            }
            lo = n;
        } else {
            let end = if j > lo && chars[j - 1] == '\r' {
                j - 1
            } else {
                j
            };
            r.push(s.substring_char(lo, end));
            proof {
                let t = rest.take((j - lo) as int);
                assert(t =~= s@.subrange(lo as int, j as int));
                if j > lo && chars@[j - 1] == '\r' {
                    assert(strip_cr(t) =~= s@.subrange(lo as int, end as int));
                } else {
                    assert(strip_cr(t) =~= s@.subrange(lo as int, end as int));
                }
                assert(rest.skip((j - lo) + 1) =~= s@.skip(j + 1));
                assert(lines_of(rest) == seq![strip_cr(t)] + lines_of(s@.skip(j + 1)));
                assert(strs_view(r@) =~= strs_view(r0).push(strip_cr(t)));
                assert(lines_of(s@) =~= strs_view(r@) + lines_of(s@.skip(j + 1)));
            }
            lo = j + 1;
        }
    }
    proof {
        assert(s@.skip(lo as int) =~= Seq::<char>::empty());
        assert(lines_of(s@) =~= strs_view(r@));
    }
    r
}

} // verus!
