//! Character-level text handling: white space, trimming, splitting, decimal integers.
//!
//! The specifications follow the behaviour of `str::trim`, `str::split` and
//! `str::parse` for integers, stated over sequences of characters.

use vstd::prelude::*;
use vstd::string::StringExecFns;

verus! {

broadcast use vstd::string::group_string_axioms;

/// `char::is_whitespace`: the characters with the Unicode `White_Space` property.
pub open spec fn is_white_space(c: char) -> bool {
    let u = c as u32;
    ||| (0x9 <= u && u <= 0xD)
    ||| u == 0x20
    ||| u == 0x85
    ||| u == 0xA0
    ||| u == 0x1680
    ||| (0x2000 <= u && u <= 0x200A)
    ||| u == 0x2028
    ||| u == 0x2029
    ||| u == 0x202F
    ||| u == 0x205F
    ||| u == 0x3000
}

pub fn char_is_white_space(c: char) -> (r: bool)
    ensures
        r == is_white_space(c),
{
    let u = c as u32;
    (0x9 <= u && u <= 0xD) || u == 0x20 || u == 0x85 || u == 0xA0 || u == 0x1680 || (0x2000
        <= u && u <= 0x200A) || u == 0x2028 || u == 0x2029 || u == 0x202F || u == 0x205F || u
        == 0x3000
}

/// Leading white space removed.
pub open spec fn trim_start(s: Seq<char>) -> Seq<char>
    decreases s.len(),
{
    if s.len() > 0 && is_white_space(s[0]) {
        trim_start(s.drop_first())
    } else {
        s
    }
}

/// Trailing white space removed.
pub open spec fn trim_end(s: Seq<char>) -> Seq<char>
    decreases s.len(),
{
    if s.len() > 0 && is_white_space(s.last()) {
        trim_end(s.drop_last())
    } else {
        s
    }
}

/// `str::trim`.
pub open spec fn trim(s: Seq<char>) -> Seq<char> {
    trim_end(trim_start(s))
}

/// `str::split` with a single-character separator: the pieces between separators,
/// an empty input giving one empty piece.
pub open spec fn split_on(s: Seq<char>, sep: char) -> Seq<Seq<char>>
    decreases s.len(),
{
    if s.len() == 0 {
        seq![Seq::<char>::empty()]
    } else {
        let p = split_on(s.drop_last(), sep);
        if s.last() == sep {
            p.push(Seq::<char>::empty())
        } else {
            p.update(p.len() - 1, p.last().push(s.last()))
        }
    }
}

pub open spec fn is_digit(c: char) -> bool {
    48 <= (c as u32) && (c as u32) <= 57
}

pub open spec fn digit_value(c: char) -> nat {
    ((c as u32) - 48) as nat
}

pub open spec fn all_digits(s: Seq<char>) -> bool {
    forall|i: int| 0 <= i < s.len() ==> is_digit(#[trigger] s[i])
}

/// The number written by a string of decimal digits (most significant first).
pub open spec fn digits_value(s: Seq<char>) -> nat
    decreases s.len(),
{
    if s.len() == 0 {
        0
    } else {
        10 * digits_value(s.drop_last()) + digit_value(s.last())
    }
}

/// Sign and magnitude of an integer literal as `str::parse` reads it: an optional
/// `+` or `-`, then at least one ASCII digit and nothing else.
pub open spec fn sign_magnitude(s: Seq<char>) -> Option<(bool, nat)> {
    if s.len() == 0 {
        None
    } else {
        let digits = if s[0] == '-' || s[0] == '+' {
            s.drop_first()
        } else {
            s
        };
        if digits.len() > 0 && all_digits(digits) {
            Some((s[0] == '-', digits_value(digits)))
        } else {
            None
        }
    }
}

/// The integer a literal denotes, with no bound on its size.
pub open spec fn parse_int_text(s: Seq<char>) -> Option<int> {
    match sign_magnitude(s) {
        Some((neg, m)) => Some(
            if neg {
                -(m as int)
            } else {
                m as int
            },
        ),
        None => None,
    }
}

/// `str::parse::<i32>`, success case.
pub open spec fn parse_i32_text(s: Seq<char>) -> Option<i32> {
    match parse_int_text(s) {
        Some(v) => if i32::MIN <= v && v <= i32::MAX {
            Some(v as i32)
        } else {
            None
        },
        None => None,
    }
}

/// `str::parse::<i64>`, success case.
pub open spec fn parse_i64_text(s: Seq<char>) -> Option<i64> {
    match parse_int_text(s) {
        Some(v) => if i64::MIN <= v && v <= i64::MAX {
            Some(v as i64)
        } else {
            None
        },
        None => None,
    }
}

pub open spec fn digit_char(d: nat) -> char {
    if d == 0 {
        '0'
    } else if d == 1 {
        '1'
    } else if d == 2 {
        '2'
    } else if d == 3 {
        '3'
    } else if d == 4 {
        '4'
    } else if d == 5 {
        '5'
    } else if d == 6 {
        '6'
    } else if d == 7 {
        '7'
    } else if d == 8 {
        '8'
    } else {
        '9'
    }
}

/// Decimal text of a natural number, as `Display` writes it.
pub open spec fn nat_text(n: nat) -> Seq<char>
    decreases n,
{
    if n < 10 {
        seq![digit_char(n)]
    } else {
        nat_text(n / 10).push(digit_char(n % 10))
    }
}

/// Decimal text of an integer, as `Display` writes it.
pub open spec fn int_text(i: int) -> Seq<char> {
    if i < 0 {
        seq!['-'] + nat_text((-i) as nat)
    } else {
        nat_text(i as nat)
    }
}

/// The characters of a string slice.
pub fn str_chars(s: &str) -> (r: Vec<char>)
    ensures
        r@ == s@,
{
    let mut r: Vec<char> = Vec::new();
    for c in it: s.chars()
        invariant
            r.len() == it.index(),
            forall|i: int| 0 <= i < r.len() ==> r@[i] == it.seq()[i],
    {
        r.push(c);
    }
    assert(r@ =~= s@);
    r
}

/// Bounds of `trim` applied to `s[lo..hi]`.
pub fn trim_bounds(s: &[char], lo: usize, hi: usize) -> (r: (usize, usize))
    requires
        lo <= hi <= s@.len(),
    ensures
        lo <= r.0 <= r.1 <= hi,
        s@.subrange(r.0 as int, r.1 as int) == trim(s@.subrange(lo as int, hi as int)),
{
    let mut a = lo;
    while a < hi && char_is_white_space(s[a])
        invariant
            lo <= a <= hi <= s@.len(),
            trim_start(s@.subrange(lo as int, hi as int)) == trim_start(
                s@.subrange(a as int, hi as int),
            ),
        decreases hi - a,
    {
        assert(s@.subrange(a as int, hi as int).drop_first() =~= s@.subrange(
            a + 1,
            hi as int,
        ));
        a = a + 1;
    }
    assert(trim_start(s@.subrange(a as int, hi as int)) == s@.subrange(a as int, hi as int));
    let mut b = hi;
    while b > a && char_is_white_space(s[b - 1])
        invariant
            lo <= a <= b <= hi <= s@.len(),
            trim(s@.subrange(lo as int, hi as int)) == trim_end(s@.subrange(a as int, b as int)),
        decreases b,
    {
        assert(s@.subrange(a as int, b as int).drop_last() =~= s@.subrange(
            a as int,
            b - 1,
        ));
        b = b - 1;
    }
    (a, b)
}

pub proof fn lemma_split_nonempty(s: Seq<char>, sep: char)
    ensures
        split_on(s, sep).len() >= 1,
    decreases s.len(),
{
    if s.len() > 0 {
        lemma_split_nonempty(s.drop_last(), sep);
    }
}

/// Bounds of the pieces of `s[lo..hi]` split at `sep`.
pub fn split_ranges(s: &[char], lo: usize, hi: usize, sep: char) -> (r: Vec<(usize, usize)>)
    requires
        lo <= hi <= s@.len(),
    ensures
        r@.len() == split_on(s@.subrange(lo as int, hi as int), sep).len(),
        forall|k: int|
            0 <= k < r@.len() ==> {
                &&& lo <= (#[trigger] r@[k]).0 <= r@[k].1 <= hi
                &&& s@.subrange(r@[k].0 as int, r@[k].1 as int) == split_on(
                    s@.subrange(lo as int, hi as int),
                    sep,
                )[k]
            },
{
    let mut r: Vec<(usize, usize)> = Vec::new();
    let mut start = lo;
    let mut i = lo;
    assert(s@.subrange(lo as int, lo as int) =~= Seq::<char>::empty());
    while i < hi
        invariant
            lo <= start <= i <= hi <= s@.len(),
            split_on(s@.subrange(lo as int, i as int), sep).len() == r@.len() + 1,
            split_on(s@.subrange(lo as int, i as int), sep)[r@.len() as int] == s@.subrange(
                start as int,
                i as int,
            ),
            forall|k: int|
                0 <= k < r@.len() ==> {
                    &&& lo <= (#[trigger] r@[k]).0 <= r@[k].1 <= start
                    &&& s@.subrange(r@[k].0 as int, r@[k].1 as int) == split_on(
                        s@.subrange(lo as int, i as int),
                        sep,
                    )[k]
                },
        decreases hi - i,
    {
        let ghost prev = split_on(s@.subrange(lo as int, i as int), sep);
        assert(s@.subrange(lo as int, i + 1).drop_last() =~= s@.subrange(lo as int, i as int));
        assert(s@.subrange(lo as int, i + 1).last() == s@[i as int]);
        if s[i] == sep {
            r.push((start, i));
            start = i + 1;
            assert(s@.subrange(start as int, i + 1) =~= Seq::<char>::empty());
        } else {
            assert(s@.subrange(start as int, i + 1) =~= s@.subrange(start as int, i as int).push(
                s@[i as int],
            ));
        }
        i = i + 1;
    }
    r.push((start, hi));
    r
}

pub fn char_is_digit(c: char) -> (r: bool)
    ensures
        r == is_digit(c),
{
    let u = c as u32;
    48 <= u && u <= 57
}

/// Magnitudes at or above this bound are out of range for every integer type read here.
pub const MAGNITUDE_CAP: u128 = 0x1_0000_0000_0000_0000;

pub open spec fn capped(n: nat) -> nat {
    if n < MAGNITUDE_CAP {
        n
    } else {
        MAGNITUDE_CAP as nat
    }
}

proof fn lemma_digits_value_push(s: Seq<char>, c: char)
    ensures
        digits_value(s.push(c)) == 10 * digits_value(s) + digit_value(c),
{
    assert(s.push(c).drop_last() =~= s);
}

/// Sign and (capped) magnitude of the literal `s[lo..hi]`.
pub fn parse_sign_magnitude(s: &[char], lo: usize, hi: usize) -> (r: Option<(bool, u128)>)
    requires
        lo <= hi <= s@.len(),
    ensures
        r is None <==> sign_magnitude(s@.subrange(lo as int, hi as int)) is None,
        r matches Some(p) ==> {
            let sm = sign_magnitude(s@.subrange(lo as int, hi as int))->0;
            &&& p.0 == sm.0
            &&& p.1 == capped(sm.1)
        },
{
    if lo == hi {
        return None;
    }
    let ghost sub = s@.subrange(lo as int, hi as int);
    let first = s[lo];
    let neg = first == '-';
    let d0 = if first == '-' || first == '+' {
        lo + 1
    } else {
        lo
    };
    assert(d0 == lo + 1 ==> sub.drop_first() =~= s@.subrange(d0 as int, hi as int));
    assert(d0 == lo ==> sub =~= s@.subrange(d0 as int, hi as int));
    if d0 == hi {
        return None;
    }
    let mut m: u128 = 0;
    let mut i = d0;
    assert(s@.subrange(d0 as int, d0 as int) =~= Seq::<char>::empty());
    while i < hi
        invariant
            lo <= d0 <= i <= hi <= s@.len(),
            all_digits(s@.subrange(d0 as int, i as int)),
            m == capped(digits_value(s@.subrange(d0 as int, i as int))),
            sign_magnitude(s@.subrange(lo as int, hi as int)) == (if all_digits(
                s@.subrange(d0 as int, hi as int),
            ) {
                Some((neg, digits_value(s@.subrange(d0 as int, hi as int))))
            } else {
                None
            }),
        decreases hi - i,
    {
        let c = s[i];
        if !char_is_digit(c) {
            assert(s@.subrange(d0 as int, hi as int)[i - d0] == c);
            assert(!all_digits(s@.subrange(d0 as int, hi as int)));
            return None;
        }
        let ghost pre = s@.subrange(d0 as int, i as int);
        assert(s@.subrange(d0 as int, i + 1) =~= pre.push(c));
        proof {
            lemma_digits_value_push(pre, c);
        }
        let d = (c as u32 - 48) as u128;
        if m < MAGNITUDE_CAP {
            m = m * 10 + d;
            if m > MAGNITUDE_CAP {
                m = MAGNITUDE_CAP;
            }
        }
        i = i + 1;
    }
    Some((neg, m))
}

/// `str::parse::<i32>` on `s[lo..hi]`.
pub fn parse_i32_range(s: &[char], lo: usize, hi: usize) -> (r: Option<i32>)
    requires
        lo <= hi <= s@.len(),
    ensures
        r == parse_i32_text(s@.subrange(lo as int, hi as int)),
{
    match parse_sign_magnitude(s, lo, hi) {
        None => None,
        Some((neg, m)) => {
            if neg {
                if m <= 0x8000_0000 {
                    Some((0 - (m as i64)) as i32)
                } else {
                    None
                }
            } else {
                if m <= 0x7fff_ffff {
                    Some(m as i32)
                } else {
                    None
                }
            }
        },
    }
}

/// `str::parse::<i64>` on `s[lo..hi]`.
pub fn parse_i64_range(s: &[char], lo: usize, hi: usize) -> (r: Option<i64>)
    requires
        lo <= hi <= s@.len(),
    ensures
        r == parse_i64_text(s@.subrange(lo as int, hi as int)),
{
    match parse_sign_magnitude(s, lo, hi) {
        None => None,
        Some((neg, m)) => {
            if neg {
                if m <= 0x8000_0000_0000_0000 {
                    Some((0 - (m as i128)) as i64)
                } else {
                    None
                }
            } else {
                if m <= 0x7fff_ffff_ffff_ffff {
                    Some(m as i64)
                } else {
                    None
                }
            }
        },
    }
}

fn digit_str(d: u64) -> (r: &'static str)
    requires
        d < 10,
    ensures
        r@ == seq![digit_char(d as nat)],
{
    proof {
        reveal_strlit("0");
        reveal_strlit("1");
        reveal_strlit("2");
        reveal_strlit("3");
        reveal_strlit("4");
        reveal_strlit("5");
        reveal_strlit("6");
        reveal_strlit("7");
        reveal_strlit("8");
        reveal_strlit("9");
    }
    if d == 0 {
        "0"
    } else if d == 1 {
        "1"
    } else if d == 2 {
        "2"
    } else if d == 3 {
        "3"
    } else if d == 4 {
        "4"
    } else if d == 5 {
        "5"
    } else if d == 6 {
        "6"
    } else if d == 7 {
        "7"
    } else if d == 8 {
        "8"
    } else {
        "9"
    }
}

/// Appends `t` to `out`.
pub fn push_text(out: &mut String, t: &str)
    ensures
        final(out)@ == old(out)@ + t@,
{
    out.append(t);
}

/// Appends the decimal text of `n`.
pub fn push_nat(out: &mut String, n: u64)
    ensures
        final(out)@ == old(out)@ + nat_text(n as nat),
    decreases n,
{
    if n >= 10 {
        push_nat(out, n / 10);
    }
    let d = n % 10;
    out.append(digit_str(d));
    assert(final(out)@ =~= old(out)@ + nat_text(n as nat));
}

/// Appends the decimal text of `i`.
pub fn push_int(out: &mut String, i: i64)
    ensures
        final(out)@ == old(out)@ + int_text(i as int),
{
    if i < 0 {
        proof {
            reveal_strlit("-");
        }
        out.append("-");
        let m = (0 - (i as i128)) as u64;
        push_nat(out, m);
        assert(final(out)@ =~= old(out)@ + int_text(i as int));
    } else {
        push_nat(out, i as u64);
    }
}

// ---------------------------------------------------------------------------
// Facts about the texts written here, used to read them back.

pub proof fn lemma_digit_char(d: nat)
    requires
        d < 10,
    ensures
        is_digit(digit_char(d)),
        digit_value(digit_char(d)) == d,
{
}

/// A character of a written integer: a digit or a minus sign.
pub open spec fn is_number_char(c: char) -> bool {
    is_digit(c) || c == '-'
}

pub proof fn lemma_number_char_is_plain(c: char)
    requires
        is_number_char(c),
    ensures
        !is_white_space(c),
        c != ',',
        c != '\n',
{
}

pub proof fn lemma_nat_text(n: nat)
    ensures
        nat_text(n).len() >= 1,
        all_digits(nat_text(n)),
        digits_value(nat_text(n)) == n,
    decreases n,
{
    if n < 10 {
        lemma_digit_char(n);
        assert(nat_text(n).drop_last() =~= Seq::<char>::empty());
        assert(digits_value(Seq::<char>::empty()) == 0);
        assert(digits_value(nat_text(n)) == 10 * digits_value(Seq::<char>::empty())
            + digit_value(digit_char(n)));
    } else {
        lemma_nat_text(n / 10);
        lemma_digit_char(n % 10);
        let t = nat_text(n);
        assert(t.drop_last() =~= nat_text(n / 10));
        assert(t.last() == digit_char(n % 10));
        assert(digits_value(t) == 10 * digits_value(nat_text(n / 10)) + digit_value(
            digit_char(n % 10),
        ));
        assert(n == 10 * (n / 10) + n % 10);
        assert forall|k: int| 0 <= k < t.len() implies is_digit(#[trigger] t[k]) by {
            if k < t.len() - 1 {
                assert(t[k] == nat_text(n / 10)[k]);
            }
        }
    }
}

pub proof fn lemma_int_text(i: int)
    ensures
        int_text(i).len() >= 1,
        forall|k: int| 0 <= k < int_text(i).len() ==> is_number_char(#[trigger] int_text(i)[k]),
        is_digit(int_text(i).last()),
        parse_int_text(int_text(i)) == Some(i),
{
    if i < 0 {
        let m = (-i) as nat;
        lemma_nat_text(m);
        let t = seq!['-'] + nat_text(m);
        assert(t.drop_first() =~= nat_text(m));
        assert(t.last() == nat_text(m).last());
        assert forall|k: int| 0 <= k < t.len() implies is_number_char(#[trigger] t[k]) by {
            if k > 0 {
                assert(t[k] == nat_text(m)[k - 1]);
            }
        }
    } else {
        lemma_nat_text(i as nat);
        assert(is_digit(nat_text(i as nat)[0]));
    }
}

/// A string that neither starts nor ends with white space is its own trim.
pub proof fn lemma_trim_plain(s: Seq<char>)
    requires
        s.len() > 0,
        !is_white_space(s[0]),
        !is_white_space(s.last()),
    ensures
        trim(s) == s,
{
}

/// Trimming a string that ends in one white-space character after plain text.
pub proof fn lemma_trim_one_trailing(t: Seq<char>, c: char)
    requires
        t.len() > 0,
        !is_white_space(t[0]),
        !is_white_space(t.last()),
        is_white_space(c),
    ensures
        trim(t.push(c)) == t,
{
    let s = t.push(c);
    assert(s[0] == t[0]);
    assert(trim_start(s) == s);
    assert(s.drop_last() =~= t);
    assert(s.last() == c);
    assert(trim_end(s) == trim_end(t));
    assert(trim_end(t) == t);
}

pub open spec fn has_no(s: Seq<char>, c: char) -> bool {
    forall|k: int| 0 <= k < s.len() ==> s[k] != c
}

/// Appending text without separators extends the last piece.
pub proof fn lemma_split_append_plain(y: Seq<char>, z: Seq<char>, sep: char)
    requires
        has_no(z, sep),
    ensures
        split_on(y + z, sep) == split_on(y, sep).update(
            split_on(y, sep).len() - 1,
            split_on(y, sep).last() + z,
        ),
    decreases z.len(),
{
    lemma_split_nonempty(y, sep);
    if z.len() == 0 {
        assert(y + z =~= y);
        assert(split_on(y, sep).last() + z =~= split_on(y, sep).last());
        assert(split_on(y, sep).update(split_on(y, sep).len() - 1, split_on(y, sep).last())
            =~= split_on(y, sep));
    } else {
        let z0 = z.drop_last();
        lemma_split_append_plain(y, z0, sep);
        assert((y + z).drop_last() =~= y + z0);
        assert((y + z).last() == z.last());
        let p = split_on(y, sep);
        assert(p.last() + z =~= (p.last() + z0).push(z.last()));
        assert(split_on(y + z, sep) =~= p.update(p.len() - 1, p.last() + z));
    }
}

/// Appending a separator starts a new, empty piece.
pub proof fn lemma_split_push_sep(y: Seq<char>, sep: char)
    ensures
        split_on(y.push(sep), sep) == split_on(y, sep).push(Seq::<char>::empty()),
{
    assert(y.push(sep).drop_last() =~= y);
}

/// A text without separators is one piece.
pub proof fn lemma_split_plain(z: Seq<char>, sep: char)
    requires
        has_no(z, sep),
    ensures
        split_on(z, sep) == seq![z],
{
    lemma_split_append_plain(Seq::<char>::empty(), z, sep);
    assert(Seq::<char>::empty() + z =~= z);
    assert(Seq::<char>::empty() + z =~= z);
    assert(split_on(Seq::<char>::empty(), sep).update(0, Seq::<char>::empty() + z) =~= seq![z]);
}

} // verus!
