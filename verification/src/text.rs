//! Character-sequence utilities shared by the resolvers and parsers:
//! prefix/suffix predicates, splitting on a separator, whitespace trimming,
//! and decimal digit strings. Specifications are stated over `Seq<char>`,
//! the view of `&str`.

use vstd::prelude::*;

verus! {

/// ASCII whitespace, the only whitespace these inputs carry.
pub open spec fn is_space(c: char) -> bool {
    c == ' ' || c == '\t' || c == '\n' || c == '\r'
}

pub open spec fn is_digit(c: char) -> bool {
    '0' <= c && c <= '9'
}

pub open spec fn digit_val(c: char) -> int {
    c as int - '0' as int
}

/// Value of a digit string read as a decimal number.
pub open spec fn digits_val(s: Seq<char>) -> int
    decreases s.len(),
{
    if s.len() == 0 {
        0
    } else {
        digits_val(s.drop_last()) * 10 + digit_val(s.last())
    }
}

pub open spec fn all_digits(s: Seq<char>) -> bool {
    forall|i: int| 0 <= i < s.len() ==> is_digit(#[trigger] s[i])
}

pub open spec fn starts_with(s: Seq<char>, prefix: Seq<char>) -> bool {
    prefix.len() <= s.len() && forall|i: int|
        0 <= i < prefix.len() ==> s[i] == #[trigger] prefix[i]
}

pub open spec fn ends_with(s: Seq<char>, suffix: Seq<char>) -> bool {
    suffix.len() <= s.len() && forall|i: int|
        0 <= i < suffix.len() ==> s[s.len() - suffix.len() + i] == #[trigger] suffix[i]
}

/// The part of `s` after the last occurrence of `c`; all of `s` if `c` does
/// not occur.
pub open spec fn after_last(s: Seq<char>, c: char) -> Seq<char>
    decreases s.len(),
{
    if s.len() == 0 {
        Seq::empty()
    } else if s.last() == c {
        Seq::empty()
    } else {
        after_last(s.drop_last(), c).push(s.last())
    }
}

/// Splitting on a separator, as `str::split` does: the empty string gives
/// one empty piece, and a trailing separator gives a trailing empty piece.
pub open spec fn split_on(s: Seq<char>, sep: char) -> Seq<Seq<char>>
    decreases s.len(),
{
    if s.len() == 0 {
        seq![Seq::empty()]
    } else if s.last() == sep {
        split_on(s.drop_last(), sep).push(Seq::empty())
    } else {
        let r = split_on(s.drop_last(), sep);
        r.update(r.len() - 1, r.last().push(s.last()))
    }
}

pub open spec fn trim_start_ws(s: Seq<char>) -> Seq<char>
    decreases s.len(),
{
    if s.len() > 0 && is_space(s.first()) {
        trim_start_ws(s.drop_first())
    } else {
        s
    }
}

pub open spec fn trim_end_ws(s: Seq<char>) -> Seq<char>
    decreases s.len(),
{
    if s.len() > 0 && is_space(s.last()) {
        trim_end_ws(s.drop_last())
    } else {
        s
    }
}

pub open spec fn trim_ws(s: Seq<char>) -> Seq<char> {
    trim_start_ws(trim_end_ws(s))
}

pub open spec fn strip_first(s: Seq<char>, c: char) -> Seq<char> {
    if s.len() > 0 && s.first() == c {
        s.drop_first()
    } else {
        s
    }
}

pub open spec fn strip_last(s: Seq<char>, c: char) -> Seq<char> {
    if s.len() > 0 && s.last() == c {
        s.drop_last()
    } else {
        s
    }
}

pub fn starts_with_str(s: &str, prefix: &str) -> (b: bool)
    ensures
        b == starts_with(s@, prefix@),
{
    let n = s.unicode_len();
    let pn = prefix.unicode_len();
    if pn > n {
        return false;
    }
    let mut i: usize = 0;
    while i < pn
        invariant
            0 <= i <= pn <= n,
            n == s@.len(),
            pn == prefix@.len(),
            forall|j: int| 0 <= j < i ==> s@[j] == #[trigger] prefix@[j],
        decreases pn - i,
    {
        if s.get_char(i) != prefix.get_char(i) {
            return false;
        }
        i = i + 1;
    }
    true
}

pub fn ends_with_str(s: &str, suffix: &str) -> (b: bool)
    ensures
        b == ends_with(s@, suffix@),
{
    let n = s.unicode_len();
    let sn = suffix.unicode_len();
    if sn > n {
        return false;
    }
    let mut i: usize = 0;
    while i < sn
        invariant
            0 <= i <= sn <= n,
            n == s@.len(),
            sn == suffix@.len(),
            forall|j: int| 0 <= j < i ==> s@[n - sn + j] == #[trigger] suffix@[j],
        decreases sn - i,
    {
        if s.get_char(n - sn + i) != suffix.get_char(i) {
            return false;
        }
        i = i + 1;
    }
    true
}

/// Index of the last occurrence of `c` in `s`, if any.
pub fn find_last(s: &str, c: char) -> (r: Option<usize>)
    ensures
        match r {
            Some(i) => i < s@.len() && s@[i as int] == c && forall|j: int|
                i < j < s@.len() ==> s@[j] != c,
            None => forall|j: int| 0 <= j < s@.len() ==> s@[j] != c,
        },
{
    let n = s.unicode_len();
    let mut i: usize = n;
    while i > 0
        invariant
            0 <= i <= n,
            n == s@.len(),
            forall|j: int| i <= j < n ==> s@[j] != c,
        decreases i,
    {
        i = i - 1;
        if s.get_char(i) == c {
            return Some(i);
        }
    }
    None
}

pub proof fn lemma_after_last_at(s: Seq<char>, c: char, i: int)
    requires
        0 <= i < s.len(),
        s[i] == c,
        forall|j: int| i < j < s.len() ==> s[j] != c,
    ensures
        after_last(s, c) =~= s.subrange(i + 1, s.len() as int),
    decreases s.len(),
{
    if i == s.len() - 1 {
    } else {
        assert(s.drop_last()[i] == c);
        lemma_after_last_at(s.drop_last(), c, i);
    }
}

pub proof fn lemma_after_last_absent(s: Seq<char>, c: char)
    requires
        forall|j: int| 0 <= j < s.len() ==> s[j] != c,
    ensures
        after_last(s, c) =~= s,
    decreases s.len(),
{
    if s.len() > 0 {
        lemma_after_last_absent(s.drop_last(), c);
    }
}

/// What comes after the last occurrence of a separator is free of it.
pub proof fn lemma_after_last_free(s: Seq<char>, c: char)
    ensures
        forall|i: int| 0 <= i < after_last(s, c).len() ==> #[trigger] after_last(s, c)[i] != c,
    decreases s.len(),
{
    if s.len() == 0 || s.last() == c {
    } else {
        lemma_after_last_free(s.drop_last(), c);
        assert forall|i: int| 0 <= i < after_last(s, c).len() implies #[trigger] after_last(
            s,
            c,
        )[i] != c by {
            if i < after_last(s, c).len() - 1 {
                assert(after_last(s, c)[i] == after_last(s.drop_last(), c)[i]);
            } else {
                assert(after_last(s, c)[i] == s.last());
            }
        }
    }
}

/// Appending characters free of the separator extends what comes after its
/// last occurrence.
pub proof fn lemma_after_last_append(s: Seq<char>, t: Seq<char>, c: char)
    requires
        forall|j: int| 0 <= j < t.len() ==> t[j] != c,
    ensures
        after_last(s + t, c) =~= after_last(s, c) + t,
    decreases t.len(),
{
    if t.len() == 0 {
        assert(s + t =~= s);
        assert(after_last(s, c) + t =~= after_last(s, c));
    } else {
        assert((s + t).last() == t.last());
        assert((s + t).len() > 0);
        assert((s + t).drop_last() =~= s + t.drop_last());
        lemma_after_last_append(s, t.drop_last(), c);
        assert(after_last(s + t, c) =~= after_last((s + t).drop_last(), c).push((s + t).last()));
        assert((after_last(s, c) + t.drop_last()).push(t.last()) =~= after_last(s, c) + t);
    }
}

pub proof fn lemma_ends_with_trans(a: Seq<char>, b: Seq<char>, c: Seq<char>)
    requires
        ends_with(a, b),
        ends_with(b, c),
    ensures
        ends_with(a, c),
{
    assert forall|i: int| 0 <= i < c.len() implies a[a.len() - c.len() + i] == #[trigger] c[i] by {
        assert(b[b.len() - c.len() + i] == c[i]);
        assert(a[a.len() - b.len() + (b.len() - c.len() + i)] == b[b.len() - c.len() + i]);
    }
}

/// What comes after the last occurrence of a separator is a suffix of the
/// whole.
pub proof fn lemma_after_last_is_suffix(s: Seq<char>, c: char)
    ensures
        ends_with(s, after_last(s, c)),
    decreases s.len(),
{
    if s.len() == 0 {
    } else if s.last() == c {
    } else {
        lemma_after_last_is_suffix(s.drop_last(), c);
    }
}

/// The views of a vector of owned strings.
pub open spec fn views_of(v: Seq<String>) -> Seq<Seq<char>> {
    v.map_values(|t: String| t@)
}

/// Splits `s` on every occurrence of `sep`, as `str::split` does.
pub fn split_char(s: &str, sep: char) -> (r: Vec<String>)
    ensures
        views_of(r@) == split_on(s@, sep),
{
    let n = s.unicode_len();
    let mut parts: Vec<String> = Vec::new();
    let mut start: usize = 0;
    let mut i: usize = 0;
    while i < n
        invariant
            0 <= start <= i <= n,
            n == s@.len(),
            views_of(parts@).push(s@.subrange(start as int, i as int)) =~~= split_on(
                s@.take(i as int),
                sep,
            ),
        decreases n - i,
    {
        let ghost prev = parts@;
        let ghost pi = i as int;
        assert(s@.take(pi + 1).drop_last() =~= s@.take(pi));
        assert(s@.take(pi + 1).last() == s@[pi]);
        if s.get_char(i) == sep {
            parts.push(s.substring_char(start, i).to_owned());
            assert(views_of(parts@) =~~= views_of(prev).push(s@.subrange(start as int, pi)));
            start = i + 1;
            assert(s@.subrange(start as int, pi + 1) =~= Seq::<char>::empty());
        } else {
            assert(s@.subrange(start as int, pi + 1) =~= s@.subrange(start as int, pi).push(
                s@[pi],
            ));
        }
        i = i + 1;
        assert(views_of(parts@).push(s@.subrange(start as int, i as int)) =~~= split_on(
            s@.take(i as int),
            sep,
        ));
    }
    let ghost prev = parts@;
    parts.push(s.substring_char(start, n).to_owned());
    assert(views_of(parts@) =~~= views_of(prev).push(s@.subrange(start as int, n as int)));
    assert(s@.take(n as int) =~= s@);
    assert(views_of(parts@) =~~= split_on(s@, sep));
    parts
}

pub fn is_space_char(c: char) -> (b: bool)
    ensures
        b == is_space(c),
{
    c == ' ' || c == '\t' || c == '\n' || c == '\r'
}

/// `s` with ASCII whitespace removed at both ends, as a slice of `s`.
pub fn trim_str<'a>(s: &'a str) -> (r: &'a str)
    ensures
        r@ == trim_ws(s@),
{
    let n = s.unicode_len();
    let mut end: usize = n;
    assert(s@.take(n as int) =~= s@);
    while end > 0 && is_space_char(s.get_char(end - 1))
        invariant
            0 <= end <= n,
            n == s@.len(),
            trim_end_ws(s@) == trim_end_ws(s@.take(end as int)),
        decreases end,
    {
        assert(s@.take(end as int).last() == s@[end - 1]);
        assert(s@.take(end as int).drop_last() =~= s@.take(end - 1));
        end = end - 1;
    }
    proof {
        if end > 0 {
            assert(s@.take(end as int).last() == s@[end - 1]);
            assert(!is_space(s@.take(end as int).last()));
        }
        assert(trim_end_ws(s@.take(end as int)) == s@.take(end as int));
    }
    let mut start: usize = 0;
    while start < end && is_space_char(s.get_char(start))
        invariant
            0 <= start <= end <= n,
            n == s@.len(),
            trim_end_ws(s@) == s@.take(end as int),
            trim_start_ws(s@.take(end as int)) == trim_start_ws(
                s@.subrange(start as int, end as int),
            ),
        decreases end - start,
    {
        assert(s@.subrange(start as int, end as int).first() == s@[start as int]);
        assert(s@.subrange(start as int, end as int).drop_first() =~= s@.subrange(
            start + 1,
            end as int,
        ));
        start = start + 1;
    }
    proof {
        if start < end {
            assert(s@.subrange(start as int, end as int).first() == s@[start as int]);
            assert(!is_space(s@.subrange(start as int, end as int).first()));
        }
        assert(trim_start_ws(s@.subrange(start as int, end as int)) == s@.subrange(
            start as int,
            end as int,
        ));
    }
    s.substring_char(start, end)
}

/// `s` without one leading `c`, if it begins with one.
pub fn strip_first_str<'a>(s: &'a str, c: char) -> (r: &'a str)
    ensures
        r@ == strip_first(s@, c),
{
    let n = s.unicode_len();
    if n > 0 && s.get_char(0) == c {
        let r = s.substring_char(1, n);
        assert(r@ =~= s@.drop_first());
        r
    } else {
        s
    }
}

/// `s` without one trailing `c`, if it ends with one.
pub fn strip_last_str<'a>(s: &'a str, c: char) -> (r: &'a str)
    ensures
        r@ == strip_last(s@, c),
{
    let n = s.unicode_len();
    if n > 0 && s.get_char(n - 1) == c {
        let r = s.substring_char(0, n - 1);
        assert(r@ =~= s@.drop_last());
        r
    } else {
        s
    }
}

/// `s` without one trailing copy of `suffix`, if it ends with one.
pub fn strip_suffix_str<'a>(s: &'a str, suffix: &str) -> (r: &'a str)
    ensures
        r@ == if ends_with(s@, suffix@) {
            s@.take(s@.len() - suffix@.len())
        } else {
            s@
        },
{
    if ends_with_str(s, suffix) {
        let n = s.unicode_len();
        let sn = suffix.unicode_len();
        s.substring_char(0, n - sn)
    } else {
        s
    }
}

/// What a string yields when read as an unsigned decimal number: nothing
/// unless it is one or more digits whose value fits in a `u64`.
pub open spec fn parse_decimal_spec(s: Seq<char>) -> Option<u64> {
    if s.len() > 0 && all_digits(s) && digits_val(s) <= u64::MAX {
        Some(digits_val(s) as u64)
    } else {
        None
    }
}

proof fn lemma_digits_val_take_step(s: Seq<char>, i: int)
    requires
        0 <= i < s.len(),
    ensures
        digits_val(s.take(i + 1)) == digits_val(s.take(i)) * 10 + digit_val(s[i]),
{
    assert(s.take(i + 1).drop_last() =~= s.take(i));
    assert(s.take(i + 1).last() == s[i]);
}

pub proof fn lemma_digits_val_nonneg(s: Seq<char>)
    requires
        all_digits(s),
    ensures
        digits_val(s) >= 0,
    decreases s.len(),
{
    if s.len() > 0 {
        assert(all_digits(s.drop_last()));
        lemma_digits_val_nonneg(s.drop_last());
    }
}

/// A digit string is worth at least any of its prefixes.
proof fn lemma_digits_val_prefix_le(s: Seq<char>, i: int)
    requires
        all_digits(s),
        0 <= i <= s.len(),
    ensures
        digits_val(s.take(i)) <= digits_val(s),
    decreases s.len() - i,
{
    if i < s.len() {
        lemma_digits_val_take_step(s, i);
        assert(all_digits(s.take(i)));
        lemma_digits_val_nonneg(s.take(i));
        lemma_digits_val_prefix_le(s, i + 1);
    } else {
        assert(s.take(i) =~= s);
    }
}

/// Reads `s` as an unsigned decimal number.
pub fn parse_decimal(s: &str) -> (r: Option<u64>)
    ensures
        r == parse_decimal_spec(s@),
{
    let n = s.unicode_len();
    if n == 0 {
        return None;
    }
    let mut i: usize = 0;
    while i < n
        invariant
            0 <= i <= n,
            n == s@.len(),
            forall|j: int| 0 <= j < i ==> is_digit(#[trigger] s@[j]),
        decreases n - i,
    {
        let c = s.get_char(i);
        if c < '0' || c > '9' {
            return None;
        }
        i = i + 1;
    }
    assert(all_digits(s@));
    let mut acc: u64 = 0;
    i = 0;
    assert(s@.take(0) =~= Seq::<char>::empty());
    while i < n
        invariant
            0 <= i <= n,
            n == s@.len(),
            all_digits(s@),
            acc as int == digits_val(s@.take(i as int)),
        decreases n - i,
    {
        let c = s.get_char(i);
        assert(is_digit(c));
        let d: u64 = (c as u32 as u64) - ('0' as u32 as u64);
        proof {
            lemma_digits_val_take_step(s@, i as int);
        }
        if acc > (u64::MAX - d) / 10 {
            proof {
                assert(digits_val(s@.take(i + 1)) > u64::MAX) by (nonlinear_arith)
                    requires
                        digits_val(s@.take(i + 1)) == acc * 10 + d,
                        acc > (u64::MAX - d) / 10,
                        0 <= d <= 9,
                {}
                lemma_digits_val_prefix_le(s@, i + 1);
            }
            return None;
        }
        assert(acc * 10 + d <= u64::MAX) by (nonlinear_arith)
            requires
                acc <= (u64::MAX - d) / 10,
                0 <= d <= 9,
        {}
        acc = acc * 10 + d;
        i = i + 1;
    }
    assert(s@.take(n as int) =~= s@);
    Some(acc)
}

pub open spec fn digit_char(d: int) -> char {
    if d == 0 {
        '0'
    } else if d == 1 {
        '1'
    } else if d == 2 {
        '2'
    } else if d == 3 {
        '3'
    } else if d == 4 {
        '4'
    } else if d == 5 {
        '5'
    } else if d == 6 {
        '6'
    } else if d == 7 {
        '7'
    } else if d == 8 {
        '8'
    } else {
        '9'
    }
}

/// The decimal digit string of a non-negative number.
pub open spec fn dec_digits(n: int) -> Seq<char>
    decreases n,
{
    if n < 10 {
        seq![digit_char(n)]
    } else {
        dec_digits(n / 10).push(digit_char(n % 10))
    }
}

proof fn lemma_digit_char_val(d: int)
    requires
        0 <= d <= 9,
    ensures
        digit_val(digit_char(d)) == d,
        is_digit(digit_char(d)),
{
}

pub proof fn lemma_dec_digits(n: int)
    requires
        n >= 0,
    ensures
        dec_digits(n).len() > 0,
        all_digits(dec_digits(n)),
        digits_val(dec_digits(n)) == n,
    decreases n,
{
    if n < 10 {
        lemma_digit_char_val(n);
        assert(dec_digits(n) =~= seq![digit_char(n)]);
        assert(dec_digits(n).drop_last() =~= Seq::<char>::empty());
        assert(digits_val(dec_digits(n).drop_last()) == 0);
    } else {
        lemma_dec_digits(n / 10);
        lemma_digit_char_val(n % 10);
        assert(dec_digits(n).drop_last() =~= dec_digits(n / 10));
        assert(dec_digits(n).last() == digit_char(n % 10));
        assert(digits_val(dec_digits(n)) == (n / 10) * 10 + n % 10);
    }
}

/// Writes a non-negative number as its decimal digit string.
pub fn render_decimal(t: u64) -> (r: String)
    ensures
        r@ == dec_digits(t as int),
{
    let digits: &str = "0123456789";
    proof {
        reveal_strlit("0123456789");
        assert(digits@ =~= seq!['0', '1', '2', '3', '4', '5', '6', '7', '8', '9']);
    }
    if t < 10 {
        let d: usize = t as usize;
        let r = digits.substring_char(d, d + 1).to_owned();
        assert(r@ =~= seq![digit_char(t as int)]);
        return r;
    }
    let mut n: u64 = t;
    let mut acc = String::new();
    assert(dec_digits(t as int) =~= dec_digits(t as int) + acc@);
    while n > 0
        invariant
            n >= 0,
            digits@ == seq!['0', '1', '2', '3', '4', '5', '6', '7', '8', '9'],
            n > 0 ==> dec_digits(t as int) == dec_digits(n as int) + acc@,
            n == 0 ==> dec_digits(t as int) == acc@,
        decreases n,
    {
        let ghost prev_acc = acc@;
        let ghost pn = n as int;
        let d: usize = (n % 10) as usize;
        let ds: &str = digits.substring_char(d, d + 1);
        assert(ds@ =~= seq![digit_char(pn % 10)]);
        acc = ds.to_owned().concat(acc.as_str());
        n = n / 10;
        proof {
            if pn >= 10 {
                assert(dec_digits(pn) == dec_digits(pn / 10).push(digit_char(pn % 10)));
                assert(dec_digits(pn / 10).push(digit_char(pn % 10)) + prev_acc =~= dec_digits(
                    pn / 10,
                ) + acc@);
            } else {
                assert(dec_digits(pn) =~= seq![digit_char(pn)]);
                assert(dec_digits(pn) + prev_acc =~= acc@);
            }
        }
    }
    acc
}

/// The part of `s` after the last occurrence of `c`, as a slice of `s`.
pub fn after_last_str<'a>(s: &'a str, c: char) -> (r: &'a str)
    ensures
        r@ == after_last(s@, c),
{
    let n = s.unicode_len();
    match find_last(s, c) {
        Some(i) => {
            proof {
                lemma_after_last_at(s@, c, i as int);
            }
            s.substring_char(i + 1, n)
        },
        None => {
            proof {
                lemma_after_last_absent(s@, c);
            }
            s
        },
    }
}

} // verus!
