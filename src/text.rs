//! Character-level scanning: character classes, whitespace tokens, lines,
//! and the two numeric token shapes the mesh format uses.
use vstd::prelude::*;
use vstd::std_specs::iter::IteratorSpec;
use vstd::string::StrSliceExecFns;

verus! {

/// The characters of `s`, in order.
pub fn chars_of(s: &str) -> (r: Vec<char>)
    ensures
        r@ == s@,
{
    let mut out: Vec<char> = Vec::new();
    for c in it: s.chars()
        invariant
            it.seq() == s@,
            out@ == it.seq().take(it.index() as int),
    {
        out.push(c);
    }
    out
}

/// The characters `from..to` of `s`, as a `String`.
pub fn text_of(s: &str, from: usize, to: usize) -> (r: String)
    requires
        from <= to <= s@.len(),
    ensures
        r@ == s@.subrange(from as int, to as int),
{
    String::from_str(s.substring_char(from, to))
}

/// Unicode `White_Space`, the set that `str::split_whitespace` splits on.
pub open spec fn is_ws(c: char) -> bool {
    let u = c as u32;
    (0x09 <= u && u <= 0x0D) || u == 0x20 || u == 0x85 || u == 0xA0 || u == 0x1680 || (0x2000
        <= u && u <= 0x200A) || u == 0x2028 || u == 0x2029 || u == 0x202F || u == 0x205F || u
        == 0x3000
}

pub open spec fn is_digit(c: char) -> bool {
    '0' <= c && c <= '9'
}

/// The classes of characters that a maximal run is scanned over.
#[derive(Clone, Copy, PartialEq, Eq, Debug)]
pub enum Class {
    /// anything but whitespace: the inside of a token
    Word,
    /// anything but a line feed: the inside of a line
    Line,
    /// anything but `/`: one sub-field of a face corner
    Field,
    /// decimal digits
    Digit,
}

pub open spec fn in_class(c: char, k: Class) -> bool {
    match k {
        Class::Word => !is_ws(c),
        Class::Line => c != '\n',
        Class::Field => c != '/',
        Class::Digit => is_digit(c),
    }
}

/// Length of the longest prefix of `s` made of characters of class `k`.
pub open spec fn run_len(s: Seq<char>, k: Class) -> nat
    decreases s.len(),
{
    if s.len() == 0 || !in_class(s[0], k) {
        0
    } else {
        1 + run_len(s.drop_first(), k)
    }
}

/// The whitespace-separated tokens of `l`, in order.
pub open spec fn tokens(l: Seq<char>) -> Seq<Seq<char>>
    decreases l.len(),
{
    if l.len() == 0 {
        seq![]
    } else {
        let n = run_len(l, Class::Word);
        if n == 0 {
            tokens(l.drop_first())
        } else if n >= l.len() {
            seq![l]
        } else {
            seq![l.take(n as int)] + tokens(l.skip(n as int))
        }
    }
}

/// The pieces of `s` between line feeds; `k + 1` pieces for `k` line feeds.
pub open spec fn lines(s: Seq<char>) -> Seq<Seq<char>>
    decreases s.len(),
{
    let n = run_len(s, Class::Line);
    if n >= s.len() {
        seq![s]
    } else {
        seq![s.take(n as int)] + lines(s.skip(n as int + 1))
    }
}

pub open spec fn all_digits(s: Seq<char>) -> bool {
    forall|i: int| 0 <= i < s.len() ==> is_digit(#[trigger] s[i])
}

/// The number that a string of decimal digits denotes.
pub open spec fn digits_value(s: Seq<char>) -> nat
    decreases s.len(),
{
    if s.len() == 0 {
        0
    } else {
        digits_value(s.drop_last()) * 10 + ((s.last() as u32 - '0' as u32) as nat)
    }
}

/// What `str::parse::<usize>` accepts: an optional `+`, then one or more
/// decimal digits whose value fits in `usize`.
pub open spec fn parse_index(s: Seq<char>) -> Option<nat> {
    let d = if s.len() > 0 && s[0] == '+' {
        s.drop_first()
    } else {
        s
    };
    if d.len() > 0 && all_digits(d) && digits_value(d) <= usize::MAX {
        Some(digits_value(d))
    } else {
        None
    }
}

pub open spec fn drop_sign(s: Seq<char>) -> Seq<char> {
    if s.len() > 0 && (s[0] == '+' || s[0] == '-') {
        s.drop_first()
    } else {
        s
    }
}

/// The upper-case form of the lower-case letters that number words use.
pub open spec fn upper(l: char) -> char {
    match l {
        'a' => 'A',
        'e' => 'E',
        'f' => 'F',
        'i' => 'I',
        'n' => 'N',
        't' => 'T',
        'y' => 'Y',
        _ => l,
    }
}

/// `c` is the lower-case letter `l` or its upper-case form.
pub open spec fn same_letter(c: char, l: char) -> bool {
    c == l || c == upper(l)
}

/// `s` spells the lower-case word `w`, ignoring ASCII case.
pub open spec fn spells(s: Seq<char>, w: Seq<char>) -> bool {
    s.len() == w.len() && forall|i: int| 0 <= i < s.len() ==> same_letter(#[trigger] s[i], w[i])
}

/// `Digit+`, optionally preceded by a sign.
pub open spec fn is_exponent(x: Seq<char>) -> bool {
    let y = drop_sign(x);
    y.len() > 0 && all_digits(y)
}

/// The length of the mantissa at the front of `b`: digits, then optionally
/// a point and more digits.
pub open spec fn mantissa_len(b: Seq<char>) -> nat {
    let p = run_len(b, Class::Digit);
    if p < b.len() && b[p as int] == '.' {
        p + 1 + run_len(b.skip(p + 1 as int), Class::Digit)
    } else {
        p
    }
}

/// `(Digit+ | Digit+ '.' Digit* | Digit* '.' Digit+) (('e' | 'E') Exp)?`
pub open spec fn is_decimal(b: Seq<char>) -> bool {
    let m = mantissa_len(b);
    let digits = if m > run_len(b, Class::Digit) {
        m - 1
    } else {
        m as int
    };
    let rest = b.skip(m as int);
    digits > 0 && (rest.len() == 0 || (same_letter(rest[0], 'e') && is_exponent(
        rest.drop_first(),
    )))
}

/// What `str::parse` accepts for a binary floating-point number: an optional
/// sign, then `inf`, `infinity` or `nan` in any ASCII case, or a decimal.
pub open spec fn is_float(s: Seq<char>) -> bool {
    let b = drop_sign(s);
    spells(b, seq!['i', 'n', 'f']) || spells(b, seq!['i', 'n', 'f', 'i', 'n', 'i', 't', 'y'])
        || spells(b, seq!['n', 'a', 'n']) || is_decimal(b)
}

/// A run of class `k` that ends at `m` has length `m`.
pub proof fn lemma_run_len(s: Seq<char>, k: Class, m: int)
    requires
        0 <= m <= s.len(),
        forall|i: int| 0 <= i < m ==> in_class(#[trigger] s[i], k),
        m == s.len() || !in_class(s[m], k),
    ensures
        run_len(s, k) == m,
    decreases m,
{
    if m > 0 {
        let t = s.drop_first();
        assert forall|i: int| 0 <= i < m - 1 implies in_class(#[trigger] t[i], k) by {
            assert(t[i] == s[i + 1]);
        }
        lemma_run_len(t, k, m - 1);
    }
}

pub fn char_in_class(c: char, k: Class) -> (r: bool)
    ensures
        r == in_class(c, k),
{
    match k {
        Class::Word => {
            let u = c as u32;
            !((0x09 <= u && u <= 0x0D) || u == 0x20 || u == 0x85 || u == 0xA0 || u == 0x1680 || (
            0x2000 <= u && u <= 0x200A) || u == 0x2028 || u == 0x2029 || u == 0x202F || u
                == 0x205F || u == 0x3000)
        },
        Class::Line => c != '\n',
        Class::Field => c != '/',
        Class::Digit => '0' <= c && c <= '9',
    }
}

/// The end of the run of class `k` that starts at `from` and stops at `to`
/// at the latest.
pub fn scan(cs: &Vec<char>, from: usize, to: usize, k: Class) -> (r: usize)
    requires
        from <= to <= cs@.len(),
    ensures
        from <= r <= to,
        r - from == run_len(cs@.subrange(from as int, to as int), k),
        forall|j: int| from <= j < r ==> in_class(#[trigger] cs@[j], k),
        r == to || !in_class(cs@[r as int], k),
{
    let mut i = from;
    while i < to && char_in_class(cs[i], k)
        invariant
            from <= i <= to <= cs@.len(),
            forall|j: int| from <= j < i ==> in_class(#[trigger] cs@[j], k),
        decreases to - i,
    {
        i = i + 1;
    }
    proof {
        let s = cs@.subrange(from as int, to as int);
        assert forall|j: int| 0 <= j < i - from implies in_class(#[trigger] s[j], k) by {
            assert(s[j] == cs@[from + j]);
        }
        lemma_run_len(s, k, i - from);
    }
    i
}

/// The spans of the whitespace-separated tokens of `cs[from..to]`.
pub fn token_spans(cs: &Vec<char>, from: usize, to: usize) -> (r: Vec<(usize, usize)>)
    requires
        from <= to <= cs@.len(),
    ensures
        r@.len() == tokens(cs@.subrange(from as int, to as int)).len(),
        forall|t: int|
            0 <= t < r@.len() ==> from <= (#[trigger] r@[t]).0 < r@[t].1 <= to && cs@.subrange(
                r@[t].0 as int,
                r@[t].1 as int,
            ) == tokens(cs@.subrange(from as int, to as int))[t],
{
    let ghost all = tokens(cs@.subrange(from as int, to as int));
    let mut r: Vec<(usize, usize)> = Vec::new();
    let mut i = from;
    while i < to
        invariant
            from <= i <= to <= cs@.len(),
            all == tokens(cs@.subrange(from as int, to as int)),
            r@.len() + tokens(cs@.subrange(i as int, to as int)).len() == all.len(),
            forall|t: int| 0 <= t < r@.len() ==> from <= (#[trigger] r@[t]).0 < r@[t].1 <= i,
            forall|t: int|
                0 <= t < r@.len() ==> cs@.subrange((#[trigger] r@[t]).0 as int, r@[t].1 as int)
                    == all[t],
            forall|t: int|
                0 <= t < tokens(cs@.subrange(i as int, to as int)).len() ==> all[r@.len() + t]
                    == #[trigger] tokens(cs@.subrange(i as int, to as int))[t],
        decreases to - i,
    {
        let ghost l = cs@.subrange(i as int, to as int);
        let j = scan(cs, i, to, Class::Word);
        if j == i {
            assert(l.drop_first() =~= cs@.subrange(i + 1, to as int));
            assert(tokens(l) == tokens(cs@.subrange(i + 1, to as int)));
            i = i + 1;
        } else {
            let ghost w = cs@.subrange(i as int, j as int);
            let ghost rest = cs@.subrange(j as int, to as int);
            proof {
                if j < to {
                    assert(l.take(j - i) =~= w);
                    assert(l.skip(j - i) =~= rest);
                } else {
                    assert(l =~= w);
                    assert(rest.len() == 0);
                }
                assert(tokens(l) == seq![w] + tokens(rest));
            }
            let ghost r0 = r@;
            r.push((i, j));
            proof {
                assert forall|t: int| 0 <= t < r@.len() implies cs@.subrange(
                    (#[trigger] r@[t]).0 as int,
                    r@[t].1 as int,
                ) == all[t] by {
                    if t < r0.len() {
                        assert(r@[t] == r0[t]);
                    } else {
                        assert(tokens(l)[0] == w);
                    }
                }
                assert forall|t: int| 0 <= t < tokens(rest).len() implies all[r@.len() + t]
                    == #[trigger] tokens(rest)[t] by {
                    assert(tokens(l)[t + 1] == tokens(rest)[t]);
                }
            }
            i = j;
        }
    }
    assert(cs@.subrange(to as int, to as int).len() == 0);
    r
}

/// Whether `cs[from..to]` spells `w` exactly.
pub fn span_is(cs: &Vec<char>, from: usize, to: usize, w: &Vec<char>) -> (r: bool)
    requires
        from <= to <= cs@.len(),
    ensures
        r == (cs@.subrange(from as int, to as int) == w@),
{
    if to - from != w.len() {
        return false;
    }
    let mut i: usize = 0;
    while i < w.len()
        invariant
            from <= to <= cs@.len(),
            to - from == w@.len(),
            0 <= i <= w@.len(),
            forall|j: int| 0 <= j < i ==> cs@[from + j] == w@[j],
        decreases w@.len() - i,
    {
        if cs[from + i] != w[i] {
            assert(cs@.subrange(from as int, to as int)[i as int] != w@[i as int]);
            return false;
        }
        i = i + 1;
    }
    assert(cs@.subrange(from as int, to as int) =~= w@);
    true
}

/// Digit strings keep their value order under extension.
pub proof fn lemma_digits_prefix(s: Seq<char>, n: int)
    requires
        0 <= n <= s.len(),
    ensures
        digits_value(s.take(n)) <= digits_value(s),
    decreases s.len() - n,
{
    if n < s.len() {
        let d = s.drop_last();
        lemma_digits_prefix(d, n);
        assert(d.take(n) =~= s.take(n));
    } else {
        assert(s.take(n) =~= s);
    }
}

/// The value of `cs[from..to]` read as an index, as `str::parse::<usize>`
/// reads it.
pub fn read_index(cs: &Vec<char>, from: usize, to: usize) -> (r: Option<usize>)
    requires
        from <= to <= cs@.len(),
    ensures
        match r {
            Some(n) => parse_index(cs@.subrange(from as int, to as int)) == Some(n as nat),
            None => parse_index(cs@.subrange(from as int, to as int)) is None,
        },
{
    let ghost s = cs@.subrange(from as int, to as int);
    let mut a = from;
    if a < to && cs[a] == '+' {
        a = a + 1;
        assert(s.drop_first() =~= cs@.subrange(a as int, to as int));
    }
    let ghost d = cs@.subrange(a as int, to as int);
    assert(d == (if s.len() > 0 && s[0] == '+' { s.drop_first() } else { s }));
    if a == to {
        return None;
    }
    let e = scan(cs, a, to, Class::Digit);
    if e != to {
        assert(!is_digit(d[e - a]));
        return None;
    }
    assert(all_digits(d)) by {
        assert forall|i: int| 0 <= i < d.len() implies is_digit(#[trigger] d[i]) by {
            assert(d[i] == cs@[a + i]);
        }
    }
    let mut v: usize = 0;
    let mut k = a;
    while k < to
        invariant
            a <= k <= to <= cs@.len(),
            d == cs@.subrange(a as int, to as int),
            d == (if s.len() > 0 && s[0] == '+' {
                s.drop_first()
            } else {
                s
            }),
            s == cs@.subrange(from as int, to as int),
            d.len() > 0,
            all_digits(d),
            v as nat == digits_value(cs@.subrange(a as int, k as int)),
        decreases to - k,
    {
        let c = cs[k];
        assert(is_digit(d[k - a]));
        let g = (c as u32 - '0' as u32) as usize;
        let ghost next = cs@.subrange(a as int, k + 1);
        assert(next.drop_last() =~= cs@.subrange(a as int, k as int));
        assert(digits_value(next) == v * 10 + g);
        if v > (usize::MAX - g) / 10 {
            proof {
                assert(v * 10 + g > usize::MAX) by (nonlinear_arith)
                    requires
                        v > (usize::MAX - g) / 10,
                        g <= 9,
                ;
                assert(d.take(k + 1 - a) =~= next);
                lemma_digits_prefix(d, k + 1 - a);
            }
            return None;
        }
        v = v * 10 + g;
        k = k + 1;
    }
    assert(cs@.subrange(a as int, k as int) =~= d);
    Some(v)
}

/// Whether `cs[from..to]` is, up to ASCII case, the lower-case word `w`.
fn spells_at(cs: &Vec<char>, from: usize, to: usize, w: &Vec<char>) -> (r: bool)
    requires
        from <= to <= cs@.len(),
    ensures
        r == spells(cs@.subrange(from as int, to as int), w@),
{
    let ghost s = cs@.subrange(from as int, to as int);
    if to - from != w.len() {
        return false;
    }
    let mut i: usize = 0;
    while i < w.len()
        invariant
            from <= to <= cs@.len(),
            to - from == w@.len(),
            s == cs@.subrange(from as int, to as int),
            0 <= i <= w@.len(),
            forall|j: int| 0 <= j < i ==> same_letter(#[trigger] s[j], w@[j]),
        decreases w@.len() - i,
    {
        let c = cs[from + i];
        let l = w[i];
        assert(s[i as int] == c);
        let u = match l {
            'a' => 'A',
            'e' => 'E',
            'f' => 'F',
            'i' => 'I',
            'n' => 'N',
            't' => 'T',
            'y' => 'Y',
            _ => l,
        };
        if !(c == l || c == u) {
            return false;
        }
        i = i + 1;
    }
    true
}

/// Whether `cs[from..to]` is an optional sign followed by one or more digits.
fn exponent_at(cs: &Vec<char>, from: usize, to: usize) -> (r: bool)
    requires
        from <= to <= cs@.len(),
    ensures
        r == is_exponent(cs@.subrange(from as int, to as int)),
{
    let ghost s = cs@.subrange(from as int, to as int);
    let mut y = from;
    if y < to && (cs[y] == '+' || cs[y] == '-') {
        y = y + 1;
        assert(s.drop_first() =~= cs@.subrange(y as int, to as int));
    }
    let ghost t = cs@.subrange(y as int, to as int);
    assert(t == drop_sign(s));
    if y == to {
        return false;
    }
    let e = scan(cs, y, to, Class::Digit);
    if e != to {
        assert(!is_digit(t[e - y]));
        return false;
    }
    assert forall|i: int| 0 <= i < t.len() implies is_digit(#[trigger] t[i]) by {
        assert(t[i] == cs@[y + i]);
    }
    true
}

/// Whether `cs[from..to]` is an unsigned decimal number.
fn decimal_at(cs: &Vec<char>, from: usize, to: usize) -> (r: bool)
    requires
        from <= to <= cs@.len(),
    ensures
        r == is_decimal(cs@.subrange(from as int, to as int)),
{
    let ghost b = cs@.subrange(from as int, to as int);
    let p = scan(cs, from, to, Class::Digit);
    let mut m = p;
    if p < to && cs[p] == '.' {
        m = scan(cs, p + 1, to, Class::Digit);
        assert(b.skip(p - from + 1) =~= cs@.subrange(p + 1, to as int));
    }
    assert(mantissa_len(b) == m - from);
    let digits = if m > p {
        m - from - 1
    } else {
        m - from
    };
    let ghost rest = b.skip(m - from);
    assert(rest =~= cs@.subrange(m as int, to as int));
    if digits == 0 {
        return false;
    }
    if m == to {
        return true;
    }
    let c = cs[m];
    assert(rest[0] == c);
    assert(rest.drop_first() =~= cs@.subrange(m + 1, to as int));
    (c == 'e' || c == 'E') && exponent_at(cs, m + 1, to)
}

/// Whether `cs[from..to]` is a number that `str::parse` accepts as a binary
/// floating-point value.
pub fn float_at(cs: &Vec<char>, from: usize, to: usize) -> (r: bool)
    requires
        from <= to <= cs@.len(),
    ensures
        r == is_float(cs@.subrange(from as int, to as int)),
{
    let ghost s = cs@.subrange(from as int, to as int);
    let mut b = from;
    if b < to && (cs[b] == '+' || cs[b] == '-') {
        b = b + 1;
        assert(s.drop_first() =~= cs@.subrange(b as int, to as int));
    }
    assert(cs@.subrange(b as int, to as int) == drop_sign(s));
    let inf = vec!['i', 'n', 'f'];
    let infinity = vec!['i', 'n', 'f', 'i', 'n', 'i', 't', 'y'];
    let nan = vec!['n', 'a', 'n'];
    assert(inf@ == seq!['i', 'n', 'f']);
    assert(infinity@ == seq!['i', 'n', 'f', 'i', 'n', 'i', 't', 'y']);
    assert(nan@ == seq!['n', 'a', 'n']);
    spells_at(cs, b, to, &inf) || spells_at(cs, b, to, &infinity) || spells_at(cs, b, to, &nan)
        || decimal_at(cs, b, to)
}

} // verus!
