//! The counter parser: three counts out of the text of a description tag, such as
//! `100 Followers, 50 Following, 30 Posts - See photos and videos from Foo (@foo)`.

use crate::error::Error;
use crate::text::{
    decimal, find_char, find_first, is_space_char, lemma_decimal_digits, lemma_find_first,
    lemma_parse_decimal, lemma_split_on_len, lemma_split_on_prefix, lemma_trim_bounds,
    lemma_trim_frame, parse_decimal, parse_u64, pieces_of, split_on, split_terminator,
    split_terminator_ranges, trim, trim_range,
};
use vstd::prelude::*;

verus! {

/// Data scraped from a user's profile.
#[derive(Debug, Clone, Copy, PartialEq, Eq, Structural)]
pub struct Data {
    /// The amount of followers a user has.
    pub followers: u64,
    /// The amount of users a user is following.
    pub following: u64,
    /// The amount of posts a user has created.
    pub posts: u64,
}

/// The number at the head of a count fragment: the trimmed fragment up to its first space.
pub open spec fn token_of(fragment: Seq<char>) -> Option<Seq<char>> {
    let t = trim(fragment);
    match find_first(t, ' ') {
        Some(i) => Some(t.subrange(0, i)),
        None => None,
    }
}

/// The count that one fragment gives.
pub open spec fn count_of(fragment: Seq<char>) -> Result<u64, Error> {
    match token_of(fragment) {
        None => Err(Error::SplitSeoContent),
        Some(token) => match parse_u64(token) {
            Some(n) => Ok(n),
            None => Err(Error::ParseSeoData),
        },
    }
}

/// The counts of `fragments` in order, or the error of the first fragment that gives none.
pub open spec fn counts_of(fragments: Seq<Seq<char>>) -> Result<Seq<u64>, Error>
    decreases fragments.len(),
{
    if fragments.len() == 0 {
        Ok(Seq::empty())
    } else {
        match count_of(fragments[0]) {
            Err(e) => Err(e),
            Ok(n) => match counts_of(fragments.drop_first()) {
                Err(e) => Err(e),
                Ok(v) => Ok(seq![n] + v),
            },
        }
    }
}

/// The part of the trimmed text before its first `-`.
pub open spec fn counts_segment(content: Seq<char>) -> Option<Seq<char>> {
    let t = trim(content);
    match find_first(t, '-') {
        Some(i) => Some(t.subrange(0, i)),
        None => None,
    }
}

/// What the text of a description tag gives: the first three counts of its counts segment,
/// split on `,`, as followers, following and posts.
pub open spec fn description_counts(content: Seq<char>) -> Result<Data, Error> {
    match counts_segment(content) {
        None => Err(Error::InvalidSeoContent),
        Some(segment) => match counts_of(split_terminator(segment, ',')) {
            Err(e) => Err(e),
            Ok(v) => if v.len() < 3 {
                Err(Error::NotEnoughSeoData)
            } else {
                Ok(Data { followers: v[0], following: v[1], posts: v[2] })
            },
        },
    }
}

/// The characters of `s`, in order.
pub fn chars_of(s: &str) -> (r: Vec<char>)
    ensures
        r@ == s@,
{
    let n = s.unicode_len();
    let mut out: Vec<char> = Vec::new();
    let mut i: usize = 0;
    while i < n
        invariant
            n == s@.len(),
            i <= n,
            out@ == s@.subrange(0, i as int),
        decreases n - i,
    {
        out.push(s.get_char(i));
        i = i + 1;
        assert(out@ =~= s@.subrange(0, i as int));
    }
    assert(out@ =~= s@);
    out
}

/// The count of the fragment `s[lo..hi]`.
fn fragment_count(s: &Vec<char>, lo: usize, hi: usize) -> (r: Result<u64, Error>)
    requires
        lo <= hi <= s@.len(),
    ensures
        r == count_of(s@.subrange(lo as int, hi as int)),
{
    let (a, b) = trim_range(s, lo, hi);
    let sp = find_char(s, a, b, ' ');
    if sp == b {
        return Err(Error::SplitSeoContent);
    }
    assert(s@.subrange(a as int, b as int).subrange(0, sp - a) =~= s@.subrange(a as int, sp as int));
    match parse_decimal(s, a, sp) {
        Some(n) => Ok(n),
        None => Err(Error::ParseSeoData),
    }
}

/// Parses the text of a description tag into its three counts.
pub fn parse_counts(content: &str) -> (r: Result<Data, Error>)
    ensures
        r == description_counts(content@),
{
    let s = chars_of(content);
    let (lo, hi) = trim_range(&s, 0, s.len());
    assert(s@.subrange(0, s@.len() as int) =~= content@);
    let dash = find_char(&s, lo, hi, '-');
    if dash == hi {
        return Err(Error::InvalidSeoContent);
    }
    let ghost segment = s@.subrange(lo as int, dash as int);
    assert(s@.subrange(lo as int, hi as int).subrange(0, dash - lo) =~= segment);
    let ranges = split_terminator_ranges(&s, lo, dash, ',');
    let ghost fragments = pieces_of(s@, ranges@);
    let mut values: Vec<u64> = Vec::new();
    let mut k: usize = 0;
    proof {
        assert(fragments.subrange(0, fragments.len() as int) =~= fragments);
        match counts_of(fragments) {
            Ok(v) => {
                assert(values@ + v =~= v);
            },
            Err(e) => {},
        }
    }
    while k < ranges.len()
        invariant
            k <= ranges@.len(),
            fragments == pieces_of(s@, ranges@),
            counts_segment(content@) == Some(segment),
            fragments == split_terminator(segment, ','),
            forall|j: int| 0 <= j < ranges@.len() ==> lo <= #[trigger] ranges@[j].0 <= ranges@[j].1 <= dash,
            dash <= s@.len(),
            counts_of(fragments) == match counts_of(fragments.subrange(k as int, fragments.len() as int)) {
                Ok(v) => Ok(values@ + v),
                Err(e) => Err(e),
            },
        decreases ranges@.len() - k,
    {
        let (a, b) = ranges[k];
        let c = fragment_count(&s, a, b);
        let ghost rest = fragments.subrange(k as int, fragments.len() as int);
        assert(rest[0] == s@.subrange(a as int, b as int));
        assert(rest.drop_first() =~= fragments.subrange(k + 1, fragments.len() as int));
        match c {
            Err(e) => {
                return Err(e);
            },
            Ok(n) => {
                proof {
                    let ghost old_values = values@;
                    match counts_of(fragments.subrange(k + 1, fragments.len() as int)) {
                        Ok(v) => {
                            assert(old_values + (seq![n] + v) =~= old_values.push(n) + v);
                        },
                        Err(e) => {},
                    }
                }
                values.push(n);
            },
        }
        k = k + 1;
    }
    assert(fragments.subrange(k as int, fragments.len() as int) =~= Seq::<Seq<char>>::empty());
    assert(values@ + Seq::<u64>::empty() =~= values@);
    if values.len() < 3 {
        return Err(Error::NotEnoughSeoData);
    }
    Ok(Data { followers: values[0], following: values[1], posts: values[2] })
}


/// Fragments that each give a count give those counts, in order.
proof fn lemma_counts_all(fragments: Seq<Seq<char>>)
    requires
        forall|j: int| 0 <= j < fragments.len() ==> #[trigger] count_of(fragments[j]) is Ok,
    ensures
        counts_of(fragments) is Ok,
        counts_of(fragments)->Ok_0.len() == fragments.len(),
        forall|j: int|
            0 <= j < fragments.len() ==> counts_of(fragments)->Ok_0[j] == #[trigger] count_of(
                fragments[j],
            )->Ok_0,
    decreases fragments.len(),
{
    if fragments.len() > 0 {
        let rest = fragments.drop_first();
        assert forall|j: int| 0 <= j < rest.len() implies #[trigger] count_of(rest[j]) is Ok by {
            assert(rest[j] == fragments[j + 1]);
        }
        lemma_counts_all(rest);
        assert(count_of(fragments[0]) is Ok);
        assert forall|j: int| 0 <= j < fragments.len() implies counts_of(fragments)->Ok_0[j]
            == #[trigger] count_of(fragments[j])->Ok_0 by {
            if j > 0 {
                assert(rest[j - 1] == fragments[j]);
            }
        }
    }
}

/// The first fragment that gives no count decides the error.
proof fn lemma_counts_first_error(fragments: Seq<Seq<char>>, k: int)
    requires
        0 <= k < fragments.len(),
        forall|j: int| 0 <= j < k ==> #[trigger] count_of(fragments[j]) is Ok,
        count_of(fragments[k]) is Err,
    ensures
        counts_of(fragments) == Err::<Seq<u64>, Error>(count_of(fragments[k])->Err_0),
    decreases k,
{
    if k > 0 {
        let rest = fragments.drop_first();
        assert forall|j: int| 0 <= j < k - 1 implies #[trigger] count_of(rest[j]) is Ok by {
            assert(rest[j] == fragments[j + 1]);
        }
        assert(rest[k - 1] == fragments[k]);
        lemma_counts_first_error(rest, k - 1);
        assert(count_of(fragments[0]) is Ok);
    }
}

/// Text without a `-` has no counts segment.
pub proof fn lemma_no_delimiter(content: Seq<char>)
    requires
        forall|i: int| 0 <= i < content.len() ==> content[i] != '-',
    ensures
        description_counts(content) == Err::<Data, Error>(Error::InvalidSeoContent),
{
    let (a, b) = lemma_trim_bounds(content);
    let t = trim(content);
    assert forall|j: int| 0 <= j < t.len() implies t[j] != '-' by {
        assert(t[j] == content[a + j]);
    }
    lemma_find_first(t, '-', t.len() as int);
}

/// A count fragment whose trimmed text holds no space fails the split, where the fragments
/// before it each give a count.
pub proof fn lemma_fragment_without_space(content: Seq<char>, k: int)
    requires
        counts_segment(content) is Some,
        0 <= k < split_terminator(counts_segment(content)->0, ',').len(),
        forall|i: int|
            0 <= i < trim(split_terminator(counts_segment(content)->0, ',')[k]).len() ==> trim(
                split_terminator(counts_segment(content)->0, ',')[k],
            )[i] != ' ',
        forall|j: int|
            0 <= j < k ==> #[trigger] count_of(split_terminator(counts_segment(content)->0, ',')[j]) is Ok,
    ensures
        description_counts(content) == Err::<Data, Error>(Error::SplitSeoContent),
{
    let fragments = split_terminator(counts_segment(content)->0, ',');
    let t = trim(fragments[k]);
    lemma_find_first(t, ' ', t.len() as int);
    lemma_counts_first_error(fragments, k);
}

/// Fewer than three fragments, each giving a count, are too few.
pub proof fn lemma_too_few_counts(content: Seq<char>)
    requires
        counts_segment(content) is Some,
        split_terminator(counts_segment(content)->0, ',').len() < 3,
        forall|j: int|
            0 <= j < split_terminator(counts_segment(content)->0, ',').len() ==> #[trigger] count_of(
                split_terminator(counts_segment(content)->0, ',')[j],
            ) is Ok,
    ensures
        description_counts(content) == Err::<Data, Error>(Error::NotEnoughSeoData),
{
    lemma_counts_all(split_terminator(counts_segment(content)->0, ','));
}

/// Where every fragment gives a count, the first three are taken and the rest are ignored.
pub proof fn lemma_first_three_counts(content: Seq<char>)
    requires
        counts_segment(content) is Some,
        split_terminator(counts_segment(content)->0, ',').len() >= 3,
        forall|j: int|
            0 <= j < split_terminator(counts_segment(content)->0, ',').len() ==> #[trigger] count_of(
                split_terminator(counts_segment(content)->0, ',')[j],
            ) is Ok,
    ensures
        ({
            let fragments = split_terminator(counts_segment(content)->0, ',');
            description_counts(content) == Ok::<Data, Error>(
                Data {
                    followers: count_of(fragments[0])->Ok_0,
                    following: count_of(fragments[1])->Ok_0,
                    posts: count_of(fragments[2])->Ok_0,
                },
            )
        }),
{
    lemma_counts_all(split_terminator(counts_segment(content)->0, ','));
}


/// Whitespace, a number, a space, a word that ends in other than whitespace, and whitespace
/// again make a fragment that gives that number.
proof fn lemma_fragment_count(lead: Seq<char>, n: u64, word: Seq<char>, trail: Seq<char>)
    requires
        forall|i: int| 0 <= i < lead.len() ==> is_space_char(#[trigger] lead[i]),
        forall|i: int| 0 <= i < trail.len() ==> is_space_char(#[trigger] trail[i]),
        word.len() > 0,
        !is_space_char(word.last()),
    ensures
        count_of(lead + decimal(n as nat) + seq![' '] + word + trail) == Ok::<u64, Error>(n),
{
    let d = decimal(n as nat);
    lemma_decimal_digits(n as nat);
    lemma_parse_decimal(n);
    let mid = d + seq![' '] + word;
    assert(lead + d + seq![' '] + word + trail =~= lead + mid + trail);
    assert(mid[0] == d[0]);
    assert(mid.last() == word.last());
    lemma_trim_frame(lead, mid, trail);
    assert forall|j: int| 0 <= j < d.len() implies mid[j] != ' ' by {
        assert(mid[j] == d[j]);
    }
    assert(mid[d.len() as int] == ' ');
    lemma_find_first(mid, ' ', d.len() as int);
    assert(mid.subrange(0, d.len() as int) =~= d);
}

/// Three stretches without a comma, the last one not empty, joined by commas split back
/// into those three.
proof fn lemma_three_fragments(f0: Seq<char>, f1: Seq<char>, f2: Seq<char>)
    requires
        forall|i: int| 0 <= i < f0.len() ==> f0[i] != ',',
        forall|i: int| 0 <= i < f1.len() ==> f1[i] != ',',
        forall|i: int| 0 <= i < f2.len() ==> f2[i] != ',',
        f2.len() > 0,
    ensures
        split_terminator(f0 + seq![','] + f1 + seq![','] + f2, ',') == seq![f0, f1, f2],
{
    let y2 = seq![','] + f2;
    let y1 = seq![','] + f1 + y2;
    assert(y2.drop_first() =~= f2);
    assert(y1.drop_first() =~= f1 + y2);
    lemma_split_on_len(f2, ',');
    lemma_split_on_prefix(f2, Seq::empty(), ',');
    assert(f2 + Seq::<char>::empty() =~= f2);
    assert(split_on(Seq::<char>::empty(), ',') =~= seq![Seq::<char>::empty()]);
    assert(split_on(f2, ',') =~= seq![f2]);
    assert(split_on(y2, ',') =~= seq![Seq::<char>::empty(), f2]);
    lemma_split_on_prefix(f1, y2, ',');
    assert(split_on(f1 + y2, ',') =~= seq![f1, f2]);
    assert(split_on(y1, ',') =~= seq![Seq::<char>::empty(), f1, f2]);
    lemma_split_on_prefix(f0, y1, ',');
    assert(f0 + seq![','] + f1 + seq![','] + f2 =~= f0 + y1);
    assert(split_on(f0 + y1, ',') =~= seq![f0, f1, f2]);
}

/// Three counts, each followed by a space and a word without commas or dashes, joined by
/// `, ` and followed by ` -` and any tail, give those counts.
proof fn lemma_counts_text(
    a: u64,
    b: u64,
    c: u64,
    w0: Seq<char>,
    w1: Seq<char>,
    w2: Seq<char>,
    tail: Seq<char>,
)
    requires
        w0.len() > 0 && !is_space_char(w0.last()),
        w1.len() > 0 && !is_space_char(w1.last()),
        w2.len() > 0 && !is_space_char(w2.last()),
        forall|i: int| 0 <= i < w0.len() ==> w0[i] != ',' && w0[i] != '-',
        forall|i: int| 0 <= i < w1.len() ==> w1[i] != ',' && w1[i] != '-',
        forall|i: int| 0 <= i < w2.len() ==> w2[i] != ',' && w2[i] != '-',
    ensures
        description_counts(
            decimal(a as nat) + seq![' '] + w0 + seq![',', ' '] + decimal(b as nat) + seq![' ']
                + w1 + seq![',', ' '] + decimal(c as nat) + seq![' '] + w2 + seq![' ', '-'] + tail,
        ) == Ok::<Data, Error>(Data { followers: a, following: b, posts: c }),
{
    let da = decimal(a as nat);
    let db = decimal(b as nat);
    let dc = decimal(c as nat);
    lemma_decimal_digits(a as nat);
    lemma_decimal_digits(b as nat);
    lemma_decimal_digits(c as nat);
    let sp = seq![' '];
    let f0 = da + sp + w0;
    let f1 = sp + db + sp + w1;
    let f2 = sp + dc + sp + w2 + sp;
    let segment = f0 + seq![','] + f1 + seq![','] + f2;
    let content = da + sp + w0 + seq![',', ' '] + db + sp + w1 + seq![',', ' '] + dc + sp + w2
        + seq![' ', '-'] + tail;
    assert(content =~= segment + seq!['-'] + tail);
    assert forall|i: int| 0 <= i < f0.len() implies f0[i] != ',' && f0[i] != '-' by {
        if i < da.len() {
            assert(f0[i] == da[i]);
        } else if i > da.len() {
            assert(f0[i] == w0[i - da.len() - 1]);
        }
    }
    assert forall|i: int| 0 <= i < f1.len() implies f1[i] != ',' && f1[i] != '-' by {
        if 1 <= i < 1 + db.len() {
            assert(f1[i] == db[i - 1]);
        } else if i > 1 + db.len() {
            assert(f1[i] == w1[i - db.len() - 2]);
        }
    }
    assert forall|i: int| 0 <= i < f2.len() implies f2[i] != ',' && f2[i] != '-' by {
        if 1 <= i < 1 + dc.len() {
            assert(f2[i] == dc[i - 1]);
        } else if 1 + dc.len() < i < f2.len() - 1 {
            assert(f2[i] == w2[i - dc.len() - 2]);
        }
    }
    assert forall|i: int| 0 <= i < segment.len() implies segment[i] != '-' by {
        if i < f0.len() {
            assert(segment[i] == f0[i]);
        } else if f0.len() < i < f0.len() + 1 + f1.len() {
            assert(segment[i] == f1[i - f0.len() - 1]);
        } else if f0.len() + 1 + f1.len() < i {
            assert(segment[i] == f2[i - f0.len() - f1.len() - 2]);
        }
    }
    let (r0, r1) = lemma_trim_bounds(content);
    assert(content[0] == da[0]);
    assert(content[segment.len() as int] == '-');
    let t = trim(content);
    assert(r0 == 0);
    assert(r1 > segment.len());
    assert forall|j: int| 0 <= j < segment.len() implies t[j] != '-' by {
        assert(t[j] == content[j]);
        assert(content[j] == segment[j]);
    }
    assert(t[segment.len() as int] == '-');
    lemma_find_first(t, '-', segment.len() as int);
    assert(t.subrange(0, segment.len() as int) =~= segment);
    lemma_three_fragments(f0, f1, f2);
    lemma_fragment_count(Seq::empty(), a, w0, Seq::empty());
    assert(Seq::<char>::empty() + da + sp + w0 + Seq::<char>::empty() =~= f0);
    lemma_fragment_count(sp, b, w1, Seq::empty());
    assert(sp + db + sp + w1 + Seq::<char>::empty() =~= f1);
    lemma_fragment_count(sp, c, w2, sp);
    let fragments = seq![f0, f1, f2];
    assert(fragments[0] == f0 && fragments[1] == f1 && fragments[2] == f2);
    assert forall|j: int| 0 <= j < fragments.len() implies #[trigger] count_of(fragments[j]) is Ok by {
    }
    lemma_counts_all(fragments);
}

/// Text of the shape `<a> Followers, <b> Following, <c> Posts - <tail>` gives exactly
/// `a`, `b` and `c` as followers, following and posts.
pub proof fn lemma_well_formed_counts(a: u64, b: u64, c: u64, tail: Seq<char>)
    ensures
        description_counts(
            decimal(a as nat) + " Followers, "@ + decimal(b as nat) + " Following, "@ + decimal(
                c as nat,
            ) + " Posts - "@ + tail,
        ) == Ok::<Data, Error>(Data { followers: a, following: b, posts: c }),
{
    reveal_strlit(" Followers, ");
    reveal_strlit(" Following, ");
    reveal_strlit(" Posts - ");
    let w0 = " Followers, "@.subrange(1, 10);
    let w1 = " Following, "@.subrange(1, 10);
    let w2 = " Posts - "@.subrange(1, 6);
    assert(" Followers, "@ =~= seq![' '] + w0 + seq![',', ' ']);
    assert(" Following, "@ =~= seq![' '] + w1 + seq![',', ' ']);
    assert(" Posts - "@ =~= seq![' '] + w2 + seq![' ', '-', ' ']);
    lemma_counts_text(a, b, c, w0, w1, w2, seq![' '] + tail);
    assert(decimal(a as nat) + " Followers, "@ + decimal(b as nat) + " Following, "@ + decimal(
        c as nat,
    ) + " Posts - "@ + tail =~= decimal(a as nat) + seq![' '] + w0 + seq![',', ' '] + decimal(
        b as nat,
    ) + seq![' '] + w1 + seq![',', ' '] + decimal(c as nat) + seq![' '] + w2 + seq![' ', '-'] + (
    seq![' '] + tail));
}

} // verus!
