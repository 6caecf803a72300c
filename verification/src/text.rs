//! Character-level reading of the ASCII lines the panel and the command line
//! hand over: whitespace, trimming, tokens and unsigned numbers.

use vstd::prelude::*;
use vstd::std_specs::iter::IteratorSpec;

verus! {

broadcast use vstd::string::group_string_axioms;

/// The characters of `s`, in order.
pub fn chars_of(s: &str) -> (v: Vec<char>)
    ensures
        v@ == s@,
{
    let mut it = s.chars();
    let mut v: Vec<char> = Vec::new();
    assert(it.remaining() == s@);
    loop
        invariant_except_break
            v@ + it.remaining() == s@,
            it.obeys_prophetic_iter_laws(),
            it.decrease() is Some,
        ensures
            v@ == s@,
        decreases it.decrease()->0,
    {
        let ghost before = it.remaining();
        match it.next() {
            Some(c) => {
                v.push(c);
                assert(v@ + it.remaining() =~= s@);
            },
            None => {
                assert(v@ =~= s@);
                break;
            },
        }
    }
    v
}

} // verus!

verus! {

/// Unicode `White_Space`, the set `char::is_whitespace` tests for.
pub open spec fn is_white_space(c: char) -> bool {
    let u = c as u32;
    ||| 0x09 <= u <= 0x0D
    ||| u == 0x20
    ||| u == 0x85
    ||| u == 0xA0
    ||| u == 0x1680
    ||| 0x2000 <= u <= 0x200A
    ||| u == 0x2028
    ||| u == 0x2029
    ||| u == 0x202F
    ||| u == 0x205F
    ||| u == 0x3000
}

/// Whether `c` is whitespace.
pub fn is_whitespace(c: char) -> (b: bool)
    ensures
        b == is_white_space(c),
{
    let u = c as u32;
    (0x09 <= u && u <= 0x0D) || u == 0x20 || u == 0x85 || u == 0xA0 || u == 0x1680 || (0x2000
        <= u && u <= 0x200A) || u == 0x2028 || u == 0x2029 || u == 0x202F || u == 0x205F || u
        == 0x3000
}

/// First index at or after `i` that is not whitespace, or the end.
pub open spec fn ws_end(s: Seq<char>, i: int) -> int
    decreases s.len() - i,
{
    if 0 <= i < s.len() && is_white_space(s[i]) {
        ws_end(s, i + 1)
    } else {
        i
    }
}

/// First index at or after `i` that is whitespace, or the end.
pub open spec fn word_end(s: Seq<char>, i: int) -> int
    decreases s.len() - i,
{
    if 0 <= i < s.len() && !is_white_space(s[i]) {
        word_end(s, i + 1)
    } else {
        i
    }
}

pub proof fn lemma_ws_end(s: Seq<char>, i: int)
    requires
        0 <= i <= s.len(),
    ensures
        i <= ws_end(s, i) <= s.len(),
        ws_end(s, i) < s.len() ==> !is_white_space(s[ws_end(s, i)]),
        forall|k: int| i <= k < ws_end(s, i) ==> is_white_space(#[trigger] s[k]),
    decreases s.len() - i,
{
    if i < s.len() && is_white_space(s[i]) {
        lemma_ws_end(s, i + 1);
    }
}

pub proof fn lemma_word_end(s: Seq<char>, i: int)
    requires
        0 <= i <= s.len(),
    ensures
        i <= word_end(s, i) <= s.len(),
        word_end(s, i) < s.len() ==> is_white_space(s[word_end(s, i)]),
        forall|k: int| i <= k < word_end(s, i) ==> !is_white_space(#[trigger] s[k]),
    decreases s.len() - i,
{
    if i < s.len() && !is_white_space(s[i]) {
        lemma_word_end(s, i + 1);
    }
}

/// The whitespace-separated tokens of `s` from index `i` on, as
/// `split_whitespace` yields them.
pub open spec fn tokens_from(s: Seq<char>, i: int) -> Seq<Seq<char>>
    decreases s.len() - i,
{
    if i < 0 || i >= s.len() {
        seq![]
    } else {
        let a = ws_end(s, i);
        if a >= s.len() {
            seq![]
        } else {
            let b = word_end(s, a);
            proof {
                lemma_ws_end(s, i);
                lemma_word_end(s, a);
            }
            seq![s.subrange(a, b)] + tokens_from(s, b)
        }
    }
}

/// The whitespace-separated tokens of `s`.
pub open spec fn tokens(s: Seq<char>) -> Seq<Seq<char>> {
    tokens_from(s, 0)
}

/// Skip whitespace in `v` from `i`.
fn skip_ws(v: &Vec<char>, i: usize) -> (j: usize)
    requires
        i <= v.len(),
    ensures
        j == ws_end(v@, i as int),
{
    let mut j = i;
    while j < v.len() && is_whitespace(v[j])
        invariant
            i <= j <= v.len(),
            ws_end(v@, i as int) == ws_end(v@, j as int),
        decreases v.len() - j,
    {
        j = j + 1;
    }
    j
}

/// Skip a word in `v` from `i`.
fn skip_word(v: &Vec<char>, i: usize) -> (j: usize)
    requires
        i <= v.len(),
    ensures
        j == word_end(v@, i as int),
{
    let mut j = i;
    while j < v.len() && !is_whitespace(v[j])
        invariant
            i <= j <= v.len(),
            word_end(v@, i as int) == word_end(v@, j as int),
        decreases v.len() - j,
    {
        j = j + 1;
    }
    j
}

/// The tokens of `v`, as `(start, end)` index ranges.
pub fn token_ranges(v: &Vec<char>) -> (r: Vec<(usize, usize)>)
    ensures
        r@.len() == tokens(v@).len(),
        forall|k: int|
            #![trigger r@[k]]
            0 <= k < r@.len() ==> r@[k].0 < r@[k].1 && r@[k].1 <= v@.len() && tokens(v@)[k]
                == v@.subrange(r@[k].0 as int, r@[k].1 as int),
{
    let mut r: Vec<(usize, usize)> = Vec::new();
    let ghost mut toks: Seq<Seq<char>> = seq![];
    let mut i: usize = 0;
    loop
        invariant_except_break
            i <= v.len(),
            tokens(v@) == toks + tokens_from(v@, i as int),
        invariant
            r@.len() == toks.len(),
            forall|k: int|
                #![trigger r@[k]]
                0 <= k < r@.len() ==> r@[k].0 < r@[k].1 && r@[k].1 <= v@.len() && toks[k]
                    == v@.subrange(r@[k].0 as int, r@[k].1 as int),
        ensures
            tokens(v@) == toks,
        decreases v.len() - i,
    {
        let a = skip_ws(v, i);
        proof {
            lemma_ws_end(v@, i as int);
        }
        if a >= v.len() {
            assert(tokens_from(v@, i as int) =~= seq![]);
            assert(tokens(v@) =~= toks);
            break;
        }
        let b = skip_word(v, a);
        proof {
            lemma_word_end(v@, a as int);
            let w = v@.subrange(a as int, b as int);
            assert(tokens_from(v@, i as int) == seq![w] + tokens_from(v@, b as int));
            assert(toks + tokens_from(v@, i as int) =~= toks.push(w) + tokens_from(
                v@,
                b as int,
            ));
            toks = toks.push(w);
        }
        r.push((a, b));
        i = b;
    }
    assert(tokens(v@) == toks);
    r
}

/// Value of `c` as a digit in `radix`, the way `char::to_digit` reads it.
pub open spec fn digit_value(c: char, radix: int) -> Option<int> {
    let u = c as u32;
    let d: int = if 0x30 <= u <= 0x39 {
        u - 0x30
    } else if 0x61 <= u <= 0x7A {
        u - 0x61 + 10
    } else if 0x41 <= u <= 0x5A {
        u - 0x41 + 10
    } else {
        radix
    };
    if d < radix {
        Some(d)
    } else {
        None
    }
}

/// The number a string of digits spells, or `None` if one is not a digit.
pub open spec fn digits_value(t: Seq<char>, radix: int) -> Option<int>
    decreases t.len(),
{
    if t.len() == 0 {
        Some(0)
    } else {
        match (digits_value(t.drop_last(), radix), digit_value(t.last(), radix)) {
            (Some(a), Some(d)) => Some(a * radix + d),
            _ => None,
        }
    }
}

/// What `from_str_radix` gives for an unsigned type whose largest value is
/// `max`: an optional `+`, then at least one digit, and a value in range.
pub open spec fn parse_unsigned(t: Seq<char>, radix: int, max: int) -> Option<int> {
    let d = if t.len() > 0 && t[0] == '+' {
        t.drop_first()
    } else {
        t
    };
    if d.len() == 0 {
        None
    } else {
        match digits_value(d, radix) {
            Some(v) => if v <= max {
                Some(v)
            } else {
                None
            },
            None => None,
        }
    }
}

fn digit_of(c: char, radix: u32) -> (r: Option<u32>)
    requires
        2 <= radix <= 36,
    ensures
        match digit_value(c, radix as int) {
            Some(d) => r == Some(d as u32),
            None => r is None,
        },
{
    let u = c as u32;
    let d: u32 = if 0x30 <= u && u <= 0x39 {
        u - 0x30
    } else if 0x61 <= u && u <= 0x7A {
        u - 0x61 + 10
    } else if 0x41 <= u && u <= 0x5A {
        u - 0x41 + 10
    } else {
        radix
    };
    if d < radix {
        Some(d)
    } else {
        None
    }
}

proof fn lemma_digits_nonneg(t: Seq<char>, radix: int)
    requires
        radix >= 2,
    ensures
        digits_value(t, radix) matches Some(v) ==> v >= 0,
    decreases t.len(),
{
    if t.len() > 0 {
        lemma_digits_nonneg(t.drop_last(), radix);
        if let Some(a) = digits_value(t.drop_last(), radix) {
            if let Some(d) = digit_value(t.last(), radix) {
                assert(a * radix + d >= 0) by (nonlinear_arith)
                    requires a >= 0, d >= 0, radix >= 2;
            }
        }
    }
}

/// Parse `v[from..to]` as an unsigned number in `radix` no larger than `max`.
pub fn parse_unsigned_range(v: &Vec<char>, from: usize, to: usize, radix: u32, max: u32) -> (r:
    Option<u32>)
    requires
        from <= to <= v.len(),
        2 <= radix <= 36,
    ensures
        match parse_unsigned(v@.subrange(from as int, to as int), radix as int, max as int) {
            Some(n) => 0 <= n <= max && r == Some(n as u32),
            None => r is None,
        },
{
    let ghost t = v@.subrange(from as int, to as int);
    let mut start = from;
    if from < to && v[from] == '+' {
        start = from + 1;
    }
    let ghost d = v@.subrange(start as int, to as int);
    assert(d =~= (if t.len() > 0 && t[0] == '+' {
        t.drop_first()
    } else {
        t
    }));
    if start == to {
        return None;
    }
    // Saturate one past `max`: once a prefix is out of range every longer
    // spelling of it is too, so the cap loses nothing.
    let cap: u64 = max as u64 + 1;
    let mut acc: u64 = 0;
    let mut ok = true;
    let mut k = start;
    while k < to
        invariant
            start <= k <= to <= v.len(),
            d == v@.subrange(start as int, to as int),
            2 <= radix <= 36,
            cap == max + 1,
            acc <= cap,
            ok <==> digits_value(d.take(k - start), radix as int) is Some,
            ok ==> (digits_value(d.take(k - start), radix as int) matches Some(x) && (if x
                >= cap {
                acc == cap
            } else {
                acc == x
            })),
        decreases to - k,
    {
        let ghost p = d.take(k - start);
        let ghost q = d.take(k + 1 - start);
        assert(q.drop_last() =~= p);
        assert(q.last() == v@[k as int]);
        match digit_of(v[k], radix) {
            Some(dg) => {
                if ok {
                    proof {
                        lemma_digits_nonneg(p, radix as int);
                    }
                    let ghost x = digits_value(p, radix as int)->0;
                    let next: u64 = if acc >= cap {
                        cap
                    } else {
                        assert(acc * radix <= 0x1_0000_0000u64 * 36) by (nonlinear_arith)
                            requires acc < cap, cap <= 0x1_0000_0000u64, radix <= 36;
                        let m = acc * radix as u64 + dg as u64;
                        if m >= cap {
                            cap
                        } else {
                            m
                        }
                    };
                    proof {
                        let y = x * radix + dg;
                        if x >= cap {
                            assert(y >= cap) by (nonlinear_arith)
                                requires x >= cap, radix >= 2, dg >= 0, y == x * radix + dg;
                        }
                    }
                    acc = next;
                }
            },
            None => {
                ok = false;
            },
        }
        k = k + 1;
    }
    assert(d.take(to - start) =~= d);
    proof {
        lemma_digits_nonneg(d, radix as int);
    }
    if ok && acc <= max as u64 {
        Some(acc as u32)
    } else {
        None
    }
}

} // verus!

verus! {

/// Whether two strings hold the same characters.
pub fn same_text(a: &str, b: &str) -> (r: bool)
    ensures
        r == (a@ == b@),
{
    let x = chars_of(a);
    let y = chars_of(b);
    if x.len() != y.len() {
        return false;
    }
    let mut k: usize = 0;
    while k < x.len()
        invariant
            k <= x@.len(),
            x@.len() == y@.len(),
            x@ == a@,
            y@ == b@,
            forall|j: int| 0 <= j < k ==> x@[j] == y@[j],
        decreases x.len() - k,
    {
        if x[k] != y[k] {
            assert(x@[k as int] != y@[k as int]);
            return false;
        }
        k = k + 1;
    }
    assert(x@ =~= y@);
    true
}

} // verus!

verus! {

/// One past the last non-whitespace index at or before `j`.
pub open spec fn trim_back(s: Seq<char>, j: int) -> int
    decreases j,
{
    if 0 < j <= s.len() && is_white_space(s[j - 1]) {
        trim_back(s, j - 1)
    } else {
        j
    }
}

proof fn lemma_trim_back(s: Seq<char>, j: int)
    requires
        0 <= j <= s.len(),
    ensures
        0 <= trim_back(s, j) <= j,
        forall|k: int| trim_back(s, j) <= k < j ==> is_white_space(#[trigger] s[k]),
        trim_back(s, j) > 0 ==> !is_white_space(s[trim_back(s, j) - 1]),
    decreases j,
{
    if 0 < j && is_white_space(s[j - 1]) {
        lemma_trim_back(s, j - 1);
    }
}

/// `s` without leading or trailing whitespace, as `str::trim` gives it.
pub open spec fn trimmed(s: Seq<char>) -> Seq<char> {
    let a = ws_end(s, 0);
    let b = trim_back(s, s.len() as int);
    if a < b {
        s.subrange(a, b)
    } else {
        seq![]
    }
}

/// The code of `c` after ASCII lower-casing.
pub open spec fn ascii_lower_code(c: char) -> u32 {
    let u = c as u32;
    if 0x41 <= u <= 0x5A {
        (u + 32) as u32
    } else {
        u
    }
}

/// Whether `t`, lower-cased the ASCII way, reads `lit`.
pub open spec fn lower_matches(t: Seq<char>, lit: Seq<char>) -> bool {
    &&& t.len() == lit.len()
    &&& forall|k: int| 0 <= k < t.len() ==> ascii_lower_code(#[trigger] t[k]) == lit[k] as u32
}

/// The `(start, end)` of `v` once trimmed.
pub fn trim_range(v: &Vec<char>) -> (r: (usize, usize))
    ensures
        r.0 <= r.1 <= v@.len(),
        v@.subrange(r.0 as int, r.1 as int) == trimmed(v@),
{
    let a = skip_ws(v, 0);
    proof {
        lemma_ws_end(v@, 0);
    }
    let mut b = v.len();
    while b > 0 && is_whitespace(v[b - 1])
        invariant
            b <= v@.len(),
            trim_back(v@, v@.len() as int) == trim_back(v@, b as int),
        decreases b,
    {
        b = b - 1;
    }
    proof {
        lemma_trim_back(v@, v@.len() as int);
    }
    if a < b {
        (a, b)
    } else {
        assert(v@.subrange(a as int, a as int) =~= Seq::<char>::empty());
        (a, a)
    }
}

/// Whether `v[from..to]`, lower-cased the ASCII way, reads `lit`.
pub fn range_lower_matches(v: &Vec<char>, from: usize, to: usize, lit: &str) -> (r: bool)
    requires
        from <= to <= v@.len(),
    ensures
        r == lower_matches(v@.subrange(from as int, to as int), lit@),
{
    let l = chars_of(lit);
    if to - from != l.len() {
        return false;
    }
    let ghost t = v@.subrange(from as int, to as int);
    let mut k: usize = 0;
    while k < l.len()
        invariant
            k <= l@.len(),
            l@ == lit@,
            t == v@.subrange(from as int, to as int),
            from <= to <= v@.len(),
            to - from == l@.len(),
            forall|j: int| 0 <= j < k ==> ascii_lower_code(#[trigger] t[j]) == l@[j] as u32,
        decreases l.len() - k,
    {
        let u = v[from + k] as u32;
        let lowered = if 0x41 <= u && u <= 0x5A {
            u + 32
        } else {
            u
        };
        assert(t[k as int] == v@[from + k]);
        if lowered != l[k] as u32 {
            return false;
        }
        k = k + 1;
    }
    true
}

} // verus!
