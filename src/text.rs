//! Character-level text handling: whitespace trimming, search, splitting and
//! decimal numbers, each stated over `Seq<char>`.

use vstd::prelude::*;

verus! {

/// The Unicode `White_Space` characters, the set that `char::is_whitespace` tests.
pub open spec fn is_space_char(c: char) -> bool {
    let v = c as u32;
    (0x9 <= v && v <= 0xd) || v == 0x20 || v == 0x85 || v == 0xa0 || v == 0x1680 || (0x2000 <= v
        && v <= 0x200a) || v == 0x2028 || v == 0x2029 || v == 0x202f || v == 0x205f || v == 0x3000
}

/// `s` without its leading whitespace.
pub open spec fn trim_start(s: Seq<char>) -> Seq<char>
    decreases s.len(),
{
    if s.len() > 0 && is_space_char(s[0]) {
        trim_start(s.drop_first())
    } else {
        s
    }
}

/// `s` without its trailing whitespace.
pub open spec fn trim_end(s: Seq<char>) -> Seq<char>
    decreases s.len(),
{
    if s.len() > 0 && is_space_char(s.last()) {
        trim_end(s.drop_last())
    } else {
        s
    }
}

/// `s` without leading and trailing whitespace.
pub open spec fn trim(s: Seq<char>) -> Seq<char> {
    trim_end(trim_start(s))
}

/// The bounds within `s` of its trimmed text.
pub proof fn lemma_trim_bounds(s: Seq<char>) -> (r: (int, int))
    ensures
        0 <= r.0 <= r.1 <= s.len(),
        trim(s) == s.subrange(r.0, r.1),
        forall|i: int| 0 <= i < r.0 ==> is_space_char(#[trigger] s[i]),
        forall|i: int| r.1 <= i < s.len() ==> is_space_char(#[trigger] s[i]),
{
    let a = lemma_trim_start_bounds(s);
    let t = s.subrange(a, s.len() as int);
    let b = lemma_trim_end_bounds(t);
    assert(t.subrange(0, b) =~= s.subrange(a, a + b));
    assert forall|i: int| a + b <= i < s.len() implies is_space_char(#[trigger] s[i]) by {
        assert(s[i] == t[i - a]);
    }
    (a, a + b)
}

proof fn lemma_trim_start_bounds(s: Seq<char>) -> (r: int)
    ensures
        0 <= r <= s.len(),
        trim_start(s) == s.subrange(r, s.len() as int),
        forall|i: int| 0 <= i < r ==> is_space_char(#[trigger] s[i]),
    decreases s.len(),
{
    if s.len() > 0 && is_space_char(s[0]) {
        let i = lemma_trim_start_bounds(s.drop_first());
        assert forall|j: int| 0 <= j < i + 1 implies is_space_char(#[trigger] s[j]) by {
            if j > 0 {
                assert(s[j] == s.drop_first()[j - 1]);
            }
        }
        assert(s.drop_first().subrange(i, s.len() - 1) =~= s.subrange(i + 1, s.len() as int));
        i + 1
    } else {
        assert(s.subrange(0, s.len() as int) =~= s);
        0
    }
}

proof fn lemma_trim_end_bounds(s: Seq<char>) -> (r: int)
    ensures
        0 <= r <= s.len(),
        trim_end(s) == s.subrange(0, r),
        forall|i: int| r <= i < s.len() ==> is_space_char(#[trigger] s[i]),
    decreases s.len(),
{
    if s.len() > 0 && is_space_char(s.last()) {
        let i = lemma_trim_end_bounds(s.drop_last());
        assert forall|j: int| i <= j < s.len() implies is_space_char(#[trigger] s[j]) by {
            if j < s.len() - 1 {
                assert(s[j] == s.drop_last()[j]);
            }
        }
        assert(s.drop_last().subrange(0, i) =~= s.subrange(0, i));
        i
    } else {
        assert(s.subrange(0, s.len() as int) =~= s);
        s.len() as int
    }
}

/// Whitespace around a stretch that starts and ends with other characters is trimmed away.
pub proof fn lemma_trim_frame(lead: Seq<char>, mid: Seq<char>, trail: Seq<char>)
    requires
        forall|i: int| 0 <= i < lead.len() ==> is_space_char(#[trigger] lead[i]),
        forall|i: int| 0 <= i < trail.len() ==> is_space_char(#[trigger] trail[i]),
        mid.len() > 0,
        !is_space_char(mid[0]),
        !is_space_char(mid.last()),
    ensures
        trim(lead + mid + trail) == mid,
    decreases lead.len() + trail.len(),
{
    if lead.len() > 0 {
        let s = lead + mid + trail;
        assert(s[0] == lead[0]);
        assert(s.drop_first() =~= lead.drop_first() + mid + trail);
        lemma_trim_frame(lead.drop_first(), mid, trail);
    } else if trail.len() > 0 {
        let s = lead + mid + trail;
        assert(s =~= mid + trail);
        assert(s[0] == mid[0]);
        assert(trim_start(s) == s);
        assert(s.last() == trail.last());
        assert(s.drop_last() =~= lead + mid + trail.drop_last());
        lemma_trim_frame(lead, mid, trail.drop_last());
        assert(trim_start(s.drop_last()) == s.drop_last()) by {
            assert(s.drop_last()[0] == mid[0]);
        }
    } else {
        let s = lead + mid + trail;
        assert(s =~= mid);
    }
}

pub fn is_space(c: char) -> (r: bool)
    ensures
        r == is_space_char(c),
{
    let v = c as u32;
    (0x9 <= v && v <= 0xd) || v == 0x20 || v == 0x85 || v == 0xa0 || v == 0x1680 || (0x2000 <= v
        && v <= 0x200a) || v == 0x2028 || v == 0x2029 || v == 0x202f || v == 0x205f || v == 0x3000
}

/// The bounds, within `lo..hi`, of that stretch of `s` with its surrounding whitespace removed.
pub fn trim_range(s: &Vec<char>, lo: usize, hi: usize) -> (r: (usize, usize))
    requires
        lo <= hi <= s@.len(),
    ensures
        lo <= r.0 <= r.1 <= hi,
        s@.subrange(r.0 as int, r.1 as int) == trim(s@.subrange(lo as int, hi as int)),
{
    let mut start = lo;
    while start < hi && is_space(s[start])
        invariant
            lo <= start <= hi <= s@.len(),
            trim_start(s@.subrange(lo as int, hi as int)) == trim_start(
                s@.subrange(start as int, hi as int),
            ),
        decreases hi - start,
    {
        assert(s@.subrange(start as int, hi as int).drop_first() =~= s@.subrange(
            start + 1,
            hi as int,
        ));
        start = start + 1;
    }
    assert(trim_start(s@.subrange(start as int, hi as int)) == s@.subrange(start as int, hi as int));
    let mut end = hi;
    while end > start && is_space(s[end - 1])
        invariant
            lo <= start <= end <= hi <= s@.len(),
            trim(s@.subrange(lo as int, hi as int)) == trim_end(s@.subrange(start as int, end as int)),
        decreases end - start,
    {
        assert(s@.subrange(start as int, end as int).drop_last() =~= s@.subrange(
            start as int,
            end - 1,
        ));
        end = end - 1;
    }
    (start, end)
}


/// Where `c` first occurs in `s`.
pub open spec fn find_first(s: Seq<char>, c: char) -> Option<int>
    decreases s.len(),
{
    if s.len() == 0 {
        None
    } else if s[0] == c {
        Some(0)
    } else {
        match find_first(s.drop_first(), c) {
            Some(i) => Some(i + 1),
            None => None,
        }
    }
}

pub proof fn lemma_find_first(s: Seq<char>, c: char, k: int)
    requires
        0 <= k <= s.len(),
        forall|j: int| 0 <= j < k ==> s[j] != c,
        k == s.len() || s[k] == c,
    ensures
        find_first(s, c) == (if k == s.len() {
            None
        } else {
            Some(k)
        }),
    decreases k,
{
    if k > 0 {
        lemma_find_first(s.drop_first(), c, k - 1);
    }
}

/// Where `c` first occurs in `s[lo..hi]`, counted from `lo`; `hi` where it does not occur.
pub fn find_char(s: &Vec<char>, lo: usize, hi: usize, c: char) -> (r: usize)
    requires
        lo <= hi <= s@.len(),
    ensures
        lo <= r <= hi,
        forall|j: int| lo <= j < r ==> s@[j] != c,
        r < hi ==> s@[r as int] == c,
        find_first(s@.subrange(lo as int, hi as int), c) == (if r == hi {
            None
        } else {
            Some(r - lo)
        }),
{
    let mut i = lo;
    while i < hi && s[i] != c
        invariant
            lo <= i <= hi <= s@.len(),
            forall|j: int| lo <= j < i ==> s@[j] != c,
        decreases hi - i,
    {
        i = i + 1;
    }
    proof {
        lemma_find_first(s@.subrange(lo as int, hi as int), c, i - lo);
    }
    i
}

/// The pieces of `s` between the occurrences of `sep`, as `str::split` yields them.
pub open spec fn split_on(s: Seq<char>, sep: char) -> Seq<Seq<char>>
    decreases s.len(),
{
    if s.len() == 0 {
        seq![Seq::empty()]
    } else {
        let rest = split_on(s.drop_first(), sep);
        if s[0] == sep {
            seq![Seq::empty()] + rest
        } else {
            rest.update(0, seq![s[0]] + rest[0])
        }
    }
}

/// The pieces of `s` between the occurrences of `sep`, without a trailing empty one,
/// as `str::split_terminator` yields them.
pub open spec fn split_terminator(s: Seq<char>, sep: char) -> Seq<Seq<char>> {
    let p = split_on(s, sep);
    if p.last().len() == 0 {
        p.drop_last()
    } else {
        p
    }
}

pub proof fn lemma_split_on_len(s: Seq<char>, sep: char)
    ensures
        split_on(s, sep).len() >= 1,
    decreases s.len(),
{
    if s.len() > 0 {
        lemma_split_on_len(s.drop_first(), sep);
    }
}

/// A stretch without the separator joins the first piece of what follows it.
pub proof fn lemma_split_on_prefix(x: Seq<char>, y: Seq<char>, sep: char)
    requires
        forall|j: int| 0 <= j < x.len() ==> x[j] != sep,
    ensures
        split_on(x + y, sep) == split_on(y, sep).update(0, x + split_on(y, sep)[0]),
    decreases x.len(),
{
    lemma_split_on_len(y, sep);
    if x.len() == 0 {
        assert(x + y =~= y);
        assert(x + split_on(y, sep)[0] =~= split_on(y, sep)[0]);
        assert(split_on(y, sep).update(0, split_on(y, sep)[0]) =~= split_on(y, sep));
    } else {
        let t = x.drop_first();
        assert((x + y).drop_first() =~= t + y);
        assert((x + y)[0] == x[0]);
        lemma_split_on_prefix(t, y, sep);
        assert(seq![x[0]] + (t + split_on(y, sep)[0]) =~= x + split_on(y, sep)[0]);
        assert(split_on(y, sep).update(0, t + split_on(y, sep)[0]).update(
            0,
            x + split_on(y, sep)[0],
        ) =~= split_on(y, sep).update(0, x + split_on(y, sep)[0]));
    }
}

/// The stretches of `s` that `ranges` bounds.
pub open spec fn pieces_of(s: Seq<char>, ranges: Seq<(usize, usize)>) -> Seq<Seq<char>> {
    ranges.map_values(|p: (usize, usize)| s.subrange(p.0 as int, p.1 as int))
}

/// The bounds of the pieces of `s[lo..hi]` between the occurrences of `sep`, without a
/// trailing empty one.
pub fn split_terminator_ranges(s: &Vec<char>, lo: usize, hi: usize, sep: char) -> (r: Vec<
    (usize, usize),
>)
    requires
        lo <= hi <= s@.len(),
    ensures
        forall|k: int| 0 <= k < r@.len() ==> lo <= #[trigger] r@[k].0 <= r@[k].1 <= hi,
        pieces_of(s@, r@) == split_terminator(s@.subrange(lo as int, hi as int), sep),
{
    let mut ranges: Vec<(usize, usize)> = Vec::new();
    let mut pos = lo;
    loop
        invariant_except_break
            split_on(s@.subrange(lo as int, hi as int), sep) == pieces_of(s@, ranges@) + split_on(
                s@.subrange(pos as int, hi as int),
                sep,
            ),
        invariant
            lo <= pos <= hi <= s@.len(),
            forall|k: int| 0 <= k < ranges@.len() ==> lo <= #[trigger] ranges@[k].0 <= ranges@[k].1 <= hi,
        ensures
            forall|k: int| 0 <= k < ranges@.len() ==> lo <= #[trigger] ranges@[k].0 <= ranges@[k].1 <= hi,
            split_on(s@.subrange(lo as int, hi as int), sep) == pieces_of(s@, ranges@),
        decreases hi - pos,
    {
        let j = find_char(s, pos, hi, sep);
        let ghost x = s@.subrange(pos as int, j as int);
        let ghost y = s@.subrange(j as int, hi as int);
        proof {
            assert(s@.subrange(pos as int, hi as int) =~= x + y);
            assert forall|k: int| 0 <= k < x.len() implies x[k] != sep by {
                assert(x[k] == s@[pos + k]);
            }
            lemma_split_on_prefix(x, y, sep);
            assert(pieces_of(s@, ranges@.push((pos, j))) =~= pieces_of(s@, ranges@).push(x));
        }
        let ghost before = ranges@;
        ranges.push((pos, j));
        if j == hi {
            proof {
                assert(y =~= Seq::<char>::empty());
                assert(split_on(y, sep) =~= seq![Seq::<char>::empty()]);
                assert(split_on(y, sep).update(0, x + split_on(y, sep)[0]) =~= seq![x]);
                assert(pieces_of(s@, before) + seq![x] =~= pieces_of(s@, before).push(x));
            }
            break;
        }
        proof {
            let z = s@.subrange(j + 1, hi as int);
            assert(y.drop_first() =~= z);
            assert(y[0] == sep);
            assert(split_on(y, sep) == seq![Seq::<char>::empty()] + split_on(z, sep));
            assert(split_on(y, sep).update(0, x + split_on(y, sep)[0]) =~= seq![x] + split_on(
                z,
                sep,
            ));
            assert(pieces_of(s@, before) + (seq![x] + split_on(z, sep)) =~= pieces_of(
                s@,
                before,
            ).push(x) + split_on(z, sep));
        }
        pos = j + 1;
    }
    proof {
        lemma_split_on_len(s@.subrange(lo as int, hi as int), sep);
    }
    let n = ranges.len();
    let last = ranges[n - 1];
    if last.0 == last.1 {
        ranges.pop();
        proof {
            assert(pieces_of(s@, ranges@) =~= split_on(s@.subrange(lo as int, hi as int), sep).drop_last());
        }
    }
    ranges
}


pub open spec fn is_digit(c: char) -> bool {
    48 <= c as u32 && c as u32 <= 57
}

pub open spec fn digit_value(c: char) -> nat {
    (c as u32 - 48) as nat
}

pub open spec fn all_digits(s: Seq<char>) -> bool {
    forall|i: int| 0 <= i < s.len() ==> is_digit(#[trigger] s[i])
}

/// The number that the decimal digits `s` write, most significant first.
pub open spec fn digits_value(s: Seq<char>) -> nat
    decreases s.len(),
{
    if s.len() == 0 {
        0
    } else {
        digits_value(s.drop_last()) * 10 + digit_value(s.last())
    }
}

/// What `u64::from_str` makes of `s`: an optional `+`, then one or more decimal digits
/// whose value fits in a `u64`.
pub open spec fn parse_u64(s: Seq<char>) -> Option<u64> {
    let d = if s.len() > 0 && s[0] == '+' {
        s.drop_first()
    } else {
        s
    };
    if d.len() > 0 && all_digits(d) && digits_value(d) <= u64::MAX {
        Some(digits_value(d) as u64)
    } else {
        None
    }
}

pub proof fn lemma_digits_value_prefix(s: Seq<char>, k: int)
    requires
        0 <= k <= s.len(),
    ensures
        digits_value(s.subrange(0, k)) <= digits_value(s),
    decreases s.len(),
{
    if k < s.len() {
        lemma_digits_value_prefix(s.drop_last(), k);
        assert(s.drop_last().subrange(0, k) =~= s.subrange(0, k));
    } else {
        assert(s.subrange(0, k) =~= s);
    }
}

/// Reads `s[lo..hi]` as `u64::from_str` does.
pub fn parse_decimal(s: &Vec<char>, lo: usize, hi: usize) -> (r: Option<u64>)
    requires
        lo <= hi <= s@.len(),
    ensures
        r == parse_u64(s@.subrange(lo as int, hi as int)),
{
    let ghost whole = s@.subrange(lo as int, hi as int);
    let mut start = lo;
    if lo < hi && s[lo] == '+' {
        start = lo + 1;
    }
    let ghost d = s@.subrange(start as int, hi as int);
    assert(d =~= (if whole.len() > 0 && whole[0] == '+' {
        whole.drop_first()
    } else {
        whole
    }));
    assert(parse_u64(whole) == (if d.len() > 0 && all_digits(d) && digits_value(d) <= u64::MAX {
        Some(digits_value(d) as u64)
    } else {
        None
    }));
    if start == hi {
        return None;
    }
    let mut acc: u64 = 0;
    let mut i = start;
    while i < hi
        invariant
            start <= i <= hi <= s@.len(),
            d == s@.subrange(start as int, hi as int),
            parse_u64(s@.subrange(lo as int, hi as int)) == (if d.len() > 0 && all_digits(d)
                && digits_value(d) <= u64::MAX {
                Some(digits_value(d) as u64)
            } else {
                None
            }),
            all_digits(s@.subrange(start as int, i as int)),
            acc == digits_value(s@.subrange(start as int, i as int)),
        decreases hi - i,
    {
        let c = s[i];
        if !((48 <= c as u32) && (c as u32 <= 57)) {
            assert(!is_digit(d[i - start]));
            return None;
        }
        let v = (c as u32 - 48) as u64;
        let ghost next = s@.subrange(start as int, i + 1);
        assert(next.drop_last() =~= s@.subrange(start as int, i as int));
        assert(next.last() == c);
        if acc > (u64::MAX - v) / 10 {
            proof {
                assert(acc * 10 + v > u64::MAX) by (nonlinear_arith)
                    requires
                        acc > (u64::MAX - v) / 10,
                        v <= 9,
                ;
                assert(d.subrange(0, i + 1 - start) =~= next);
                assert(digit_value(c) == v);
                assert(digits_value(next) == acc * 10 + v);
                lemma_digits_value_prefix(d, i + 1 - start);
                assert(digits_value(d) > u64::MAX);
            }
            return None;
        }
        assert(acc * 10 + v <= u64::MAX) by (nonlinear_arith)
            requires
                acc <= (u64::MAX - v) / 10,
                v <= 9,
        ;
        acc = acc * 10 + v;
        i = i + 1;
        assert(all_digits(s@.subrange(start as int, i as int))) by {
            assert forall|j: int| 0 <= j < next.len() implies is_digit(#[trigger] next[j]) by {
                if j < next.len() - 1 {
                    assert(next[j] == next.drop_last()[j]);
                }
            }
        }
    }
    assert(s@.subrange(start as int, i as int) =~= d);
    Some(acc)
}

/// The decimal digit that stands for `d`.
pub open spec fn digit_char(d: nat) -> char {
    ((d + 48) as u8) as char
}

/// `n` written in decimal, without leading zeros.
pub open spec fn decimal(n: nat) -> Seq<char>
    decreases n,
{
    if n < 10 {
        seq![digit_char(n)]
    } else {
        decimal(n / 10).push(digit_char(n % 10))
    }
}

pub proof fn lemma_decimal_digits(n: nat)
    ensures
        decimal(n).len() > 0,
        all_digits(decimal(n)),
        digits_value(decimal(n)) == n,
    decreases n,
{
    assert(digit_value(digit_char(n % 10)) == n % 10);
    let s = decimal(n);
    assert(digits_value(s) == digits_value(s.drop_last()) * 10 + digit_value(s.last()));
    if n < 10 {
        assert(s.drop_last() =~= Seq::<char>::empty());
        assert(digits_value(Seq::<char>::empty()) == 0);
    } else {
        lemma_decimal_digits(n / 10);
        assert(decimal(n).drop_last() =~= decimal(n / 10));
        assert(decimal(n).last() == digit_char(n % 10));
        assert((n / 10) * 10 + n % 10 == n) by (nonlinear_arith);
    }
}

/// Decimal text reads back as the number it writes.
pub proof fn lemma_parse_decimal(n: u64)
    ensures
        parse_u64(decimal(n as nat)) == Some(n),
{
    lemma_decimal_digits(n as nat);
    assert(is_digit(decimal(n as nat)[0]));
}

/// Relies on `String::push`: appends one character.
#[verifier::external_body]
pub(crate) fn push_char(s: &mut String, c: char)
    ensures
        final(s)@ == old(s)@.push(c),
{
    s.push(c);
}

/// Appends `n` written in decimal.
pub fn push_decimal(out: &mut String, n: u64)
    ensures
        final(out)@ == old(out)@ + decimal(n as nat),
    decreases n,
{
    if n >= 10 {
        push_decimal(out, n / 10);
    }
    let d = (n % 10) as u8;
    push_char(out, (d + 48) as char);
    assert(old(out)@ + decimal(n as nat) =~= if n >= 10 {
        old(out)@ + decimal((n / 10) as nat) + seq![digit_char((n % 10) as nat)]
    } else {
        old(out)@ + seq![digit_char(n as nat)]
    });
}

} // verus!
