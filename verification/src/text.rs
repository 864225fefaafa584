//! Text: decimal numerals, matching that ignores ASCII case, and the
//! lexical order of strings.
//!
//! Strings are modelled by their sequences of characters.  Everything
//! here is proved; nothing rests on the standard library's own string
//! routines beyond reading a string's characters.

use vstd::prelude::*;
use vstd::string::*;

verus! {

/// The decimal digit that stands for `d`, for `d` from 0 to 9.
pub open spec fn digit(d: int) -> char {
    (('0' as u8) + d) as u8 as char
}

/// The decimal numeral of `n`, without leading zeros.
pub open spec fn decimal(n: nat) -> Seq<char>
    decreases n,
{
    if n < 10 {
        seq![digit(n as int)]
    } else {
        decimal(n / 10).push(digit((n % 10) as int))
    }
}

/// The decimal numeral of `n`, with a leading minus sign where `n` is negative.
pub open spec fn signed_decimal(n: int) -> Seq<char> {
    if n < 0 {
        seq!['-'] + decimal((-n) as nat)
    } else {
        decimal(n as nat)
    }
}

fn digit_str(d: u64) -> (s: &'static str)
    requires
        d < 10,
    ensures
        s@ == seq![digit(d as int)],
{
    proof {
        reveal_strlit("0");
        reveal_strlit("1");
        reveal_strlit("2");
        reveal_strlit("3");
        reveal_strlit("4");
        reveal_strlit("5");
        reveal_strlit("6");
        reveal_strlit("7");
        reveal_strlit("8");
        reveal_strlit("9");
    }
    let s = if d == 0 {
        "0"
    } else if d == 1 {
        "1"
    } else if d == 2 {
        "2"
    } else if d == 3 {
        "3"
    } else if d == 4 {
        "4"
    } else if d == 5 {
        "5"
    } else if d == 6 {
        "6"
    } else if d == 7 {
        "7"
    } else if d == 8 {
        "8"
    } else {
        "9"
    };
    assert(s@ =~= seq![digit(d as int)]);
    s
}

/// Appends the decimal numeral of `n` to `out`.
pub fn push_decimal(out: &mut String, n: u64)
    ensures
        final(out)@ == old(out)@ + decimal(n as nat),
    decreases n,
{
    if n >= 10 {
        push_decimal(out, n / 10);
    }
    out.append(digit_str(n % 10));
    assert(final(out)@ =~= old(out)@ + decimal(n as nat));
}

/// The decimal numeral of `n`, as `n` is written in a request.
pub fn decimal_string(n: i64) -> (s: String)
    ensures
        s@ == signed_decimal(n as int),
{
    let mut s = String::new();
    if n < 0 {
        proof {
            reveal_strlit("-");
        }
        s.append("-");
        let magnitude: u64 = if n == i64::MIN {
            9_223_372_036_854_775_808u64
        } else {
            (-n) as u64
        };
        push_decimal(&mut s, magnitude);
        assert(s@ =~= signed_decimal(n as int));
    } else {
        push_decimal(&mut s, n as u64);
        assert(s@ =~= signed_decimal(n as int));
    }
    s
}

/// `c` with an ASCII capital letter replaced by its small letter.
pub open spec fn ascii_lower(c: char) -> char {
    if 'A' <= c && c <= 'Z' {
        ((c as u8) + 32) as u8 as char
    } else {
        c
    }
}

/// `s` with every ASCII capital letter replaced by its small letter.
pub open spec fn lowered(s: Seq<char>) -> Seq<char> {
    Seq::new(s.len(), |i: int| ascii_lower(s[i]))
}

/// Whether `needle` stands in `hay` at offset `at`.
pub open spec fn occurs_at(hay: Seq<char>, needle: Seq<char>, at: int) -> bool {
    &&& 0 <= at
    &&& at + needle.len() <= hay.len()
    &&& forall|k: int| 0 <= k < needle.len() ==> hay[at + k] == needle[k]
}

/// Whether `needle` is a contiguous part of `hay`.
pub open spec fn contains(hay: Seq<char>, needle: Seq<char>) -> bool {
    exists|at: int| occurs_at(hay, needle, at)
}

/// Whether `keyword` is part of `name` when ASCII case is ignored.
pub open spec fn mentions(name: Seq<char>, keyword: Seq<char>) -> bool {
    contains(lowered(name), lowered(keyword))
}

/// The characters of `s`, in order.
pub fn chars_of(s: &str) -> (v: Vec<char>)
    ensures
        v@ == s@,
{
    let mut v: Vec<char> = Vec::new();
    for c in it: s.chars()
        invariant
            v@ == s@.subrange(0, it.index() as int),
            it.seq() == s@,
    {
        v.push(c);
    }
    v
}

/// The ASCII small letter of `c` where `c` is an ASCII capital, else `c`.
pub fn to_ascii_lower(c: char) -> (r: char)
    ensures
        r == ascii_lower(c),
{
    if 'A' <= c && c <= 'Z' {
        ((c as u8) + 32) as char
    } else {
        c
    }
}

fn lowered_chars(s: &str) -> (v: Vec<char>)
    ensures
        v@ == lowered(s@),
{
    let mut v: Vec<char> = Vec::new();
    for c in it: s.chars()
        invariant
            v@ == lowered(s@.subrange(0, it.index() as int)),
            it.seq() == s@,
    {
        v.push(to_ascii_lower(c));
        assert(v@ =~= lowered(s@.subrange(0, it.index() + 1)));
    }
    assert(s@.subrange(0, s@.len() as int) =~= s@);
    v
}

fn has_at(hay: &Vec<char>, needle: &Vec<char>, at: usize) -> (r: bool)
    requires
        at + needle.len() <= hay.len(),
    ensures
        r == occurs_at(hay@, needle@, at as int),
{
    let mut k: usize = 0;
    while k < needle.len()
        invariant
            at + needle.len() <= hay.len(),
            k <= needle.len(),
            forall|j: int| 0 <= j < k ==> hay@[at + j] == needle@[j],
        decreases needle.len() - k,
    {
        if hay[at + k] != needle[k] {
            return false;
        }
        k = k + 1;
    }
    true
}

/// Whether `name` mentions `keyword`, ignoring ASCII case.
pub fn mentions_keyword(name: &str, keyword: &str) -> (r: bool)
    ensures
        r == mentions(name@, keyword@),
{
    let hay = lowered_chars(name);
    let needle = lowered_chars(keyword);
    if needle.len() > hay.len() {
        return false;
    }
    let last = hay.len() - needle.len();
    let mut at: usize = 0;
    while at <= last
        invariant
            hay@ == lowered(name@),
            needle@ == lowered(keyword@),
            last == hay.len() - needle.len(),
            needle.len() <= hay.len(),
            at <= last + 1,
            forall|j: int| 0 <= j < at ==> !occurs_at(hay@, needle@, j),
        decreases last + 1 - at,
    {
        if has_at(&hay, &needle, at) {
            assert(occurs_at(lowered(name@), lowered(keyword@), at as int));
            return true;
        }
        at = at + 1;
    }
    false
}

/// Whether `a` and `b` hold the same characters before offset `n`.
pub open spec fn agree_before(a: Seq<char>, b: Seq<char>, n: int) -> bool {
    &&& 0 <= n <= a.len()
    &&& n <= b.len()
    &&& forall|k: int| 0 <= k < n ==> a[k] == b[k]
}

/// Whether `a` comes before `b`, or equals it, in the lexical order of
/// strings: `a` is a prefix of `b`, or at the first place where the two
/// differ `a` holds the smaller character.  This is the order in which
/// the standard library compares strings.
pub open spec fn lexical_le(a: Seq<char>, b: Seq<char>) -> bool {
    ||| agree_before(a, b, a.len() as int)
    ||| exists|n: int| #[trigger] agree_before(a, b, n) && n < a.len() && n < b.len() && a[n] < b[n]
}

proof fn lemma_lexical_total_from(a: Seq<char>, b: Seq<char>, n: int)
    requires
        agree_before(a, b, n),
    ensures
        lexical_le(a, b) || lexical_le(b, a),
    decreases a.len() - n,
{
    if n == a.len() {
    } else if n == b.len() {
        assert(agree_before(b, a, b.len() as int));
    } else if a[n] < b[n] {
    } else if b[n] < a[n] {
        assert(agree_before(b, a, n));
    } else {
        assert(agree_before(a, b, n + 1));
        lemma_lexical_total_from(a, b, n + 1);
    }
}

/// The lexical order compares any two strings.
pub proof fn lemma_lexical_total(a: Seq<char>, b: Seq<char>)
    ensures
        lexical_le(a, b) || lexical_le(b, a),
{
    assert(agree_before(a, b, 0));
    lemma_lexical_total_from(a, b, 0);
}

/// The lexical order is transitive.
pub proof fn lemma_lexical_transitive(a: Seq<char>, b: Seq<char>, c: Seq<char>)
    requires
        lexical_le(a, b),
        lexical_le(b, c),
    ensures
        lexical_le(a, c),
{
    if agree_before(a, b, a.len() as int) {
        if agree_before(b, c, b.len() as int) {
            assert(agree_before(a, c, a.len() as int));
        } else {
            let j = choose|n: int| #[trigger]
                agree_before(b, c, n) && n < b.len() && n < c.len() && b[n] < c[n];
            if j < a.len() {
                assert(agree_before(a, c, j));
            } else {
                assert(agree_before(a, c, a.len() as int));
            }
        }
    } else {
        let i = choose|n: int| #[trigger]
            agree_before(a, b, n) && n < a.len() && n < b.len() && a[n] < b[n];
        if agree_before(b, c, b.len() as int) {
            assert(agree_before(a, c, i));
        } else {
            let j = choose|n: int| #[trigger]
                agree_before(b, c, n) && n < b.len() && n < c.len() && b[n] < c[n];
            if i <= j {
                assert(agree_before(a, c, i));
            } else {
                assert(agree_before(a, c, j));
            }
        }
    }
}

/// Whether `a` comes before or equals `b` in the lexical order.
pub fn lexically_ordered(a: &str, b: &str) -> (r: bool)
    ensures
        r == lexical_le(a@, b@),
{
    let x = chars_of(a);
    let y = chars_of(b);
    let mut n: usize = 0;
    while n < x.len() && n < y.len() && x[n] == y[n]
        invariant
            agree_before(x@, y@, n as int),
        decreases x.len() - n,
    {
        n = n + 1;
    }
    let r = if n == x.len() {
        true
    } else if n == y.len() {
        false
    } else {
        x[n] < y[n]
    };
    proof {
        if r {
            assert(agree_before(x@, y@, n as int));
        } else {
            assert(!agree_before(x@, y@, x@.len() as int)) by {
                if agree_before(x@, y@, x@.len() as int) {
                    assert(x@[n as int] == y@[n as int]);
                }
            }
            assert forall|m: int| #[trigger]
                agree_before(x@, y@, m) && m < x@.len() && m < y@.len() implies !(x@[m] < y@[m]) by {
                if m < n {
                } else if m > n {
                    assert(x@[n as int] == y@[n as int]);
                }
            }
        }
    }
    r
}

/// Whether `c` is one of the ASCII digits.
pub open spec fn is_ascii_digit(c: char) -> bool {
    '0' <= c && c <= '9'
}

/// Whether ten ASCII digits stand in a row in `s` from offset `at` on.
pub open spec fn ten_digits_at(s: Seq<char>, at: int) -> bool {
    &&& 0 <= at
    &&& at + 10 <= s.len()
    &&& forall|k: int| 0 <= k < 10 ==> is_ascii_digit(#[trigger] s[at + k])
}

/// Whether `s` holds no ten ASCII digits in a row, so that each number
/// written in it is below 1,000,000,000.
pub open spec fn short_numbers(s: Seq<char>) -> bool {
    forall|at: int| !#[trigger] ten_digits_at(s, at)
}

/// Whether `s` holds no ten ASCII digits in a row.
pub fn has_short_numbers(s: &str) -> (r: bool)
    ensures
        r == short_numbers(s@),
{
    let v = chars_of(s);
    let mut run: usize = 0;
    let mut i: usize = 0;
    while i < v.len()
        invariant
            v@ == s@,
            i <= v.len(),
            run <= 9,
            run <= i,
            forall|k: int| i - run <= k < i ==> is_ascii_digit(#[trigger] v@[k]),
            run < i ==> !is_ascii_digit(v@[i - run - 1]),
            forall|at: int| at + 10 <= i ==> !#[trigger] ten_digits_at(v@, at),
        decreases v.len() - i,
    {
        let c = v[i];
        if '0' <= c && c <= '9' {
            if run == 9 {
                proof {
                    let at = i - 9;
                    assert forall|k: int| 0 <= k < 10 implies is_ascii_digit(
                        #[trigger] v@[at + k],
                    ) by {}
                    assert(ten_digits_at(v@, at));
                }
                return false;
            }
            run = run + 1;
        } else {
            run = 0;
        }
        i = i + 1;
        proof {
            assert forall|at: int| at + 10 <= i implies !#[trigger] ten_digits_at(v@, at) by {
                if at + 10 == i && at >= 0 {
                    let gap = i - run - 1;
                    assert(at <= gap < i);
                    assert(!is_ascii_digit(v@[at + (gap - at)]));
                }
            }
        }
    }
    proof {
        assert forall|at: int| !#[trigger] ten_digits_at(v@, at) by {}
    }
    true
}

} // verus!
