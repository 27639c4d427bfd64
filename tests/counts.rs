use instascrape::{parse_counts, Data, Error};

fn data(followers: u64, following: u64, posts: u64) -> Data {
    Data { followers, following, posts }
}

#[test]
fn well_formed_text_gives_its_counts() {
    let r = parse_counts("100 Followers, 50 Following, 30 Posts - See Instagram photos and videos from Foo Bar (@foobar)");
    assert_eq!(r, Ok(data(100, 50, 30)));
}

#[test]
fn example_profile_description() {
    let r = parse_counts("114 Followers, 128 Following, 29 Posts - See Instagram photos and videos from X (@x)");
    assert_eq!(r, Ok(data(114, 128, 29)));
}

#[test]
fn surrounding_whitespace_is_trimmed() {
    let r = parse_counts(" \t\n7 Followers, 8 Following, 9 Posts - tail \n");
    assert_eq!(r, Ok(data(7, 8, 9)));
}

#[test]
fn dash_in_tail_is_ignored() {
    let r = parse_counts("1 Followers, 2 Following, 3 Posts - a - b - c");
    assert_eq!(r, Ok(data(1, 2, 3)));
}

#[test]
fn text_without_dash_is_rejected() {
    assert_eq!(parse_counts("1 Followers, 2 Following, 3 Posts"), Err(Error::InvalidSeoContent));
    assert_eq!(parse_counts(""), Err(Error::InvalidSeoContent));
    assert_eq!(parse_counts("   "), Err(Error::InvalidSeoContent));
}

#[test]
fn fragment_without_space_fails_the_split() {
    assert_eq!(parse_counts("100 - x"), Err(Error::SplitSeoContent));
    assert_eq!(parse_counts("1 Followers, 2, 3 Posts - x"), Err(Error::SplitSeoContent));
}

#[test]
fn empty_fragment_fails_the_split() {
    assert_eq!(parse_counts("1 Followers,, 3 Posts - x"), Err(Error::SplitSeoContent));
    assert_eq!(parse_counts("1 A, 2 B, 3 C, - x"), Err(Error::SplitSeoContent));
}

#[test]
fn too_few_counts_are_rejected() {
    assert_eq!(parse_counts("1 Followers, 2 Following - x"), Err(Error::NotEnoughSeoData));
    assert_eq!(parse_counts("- x"), Err(Error::NotEnoughSeoData));
}

#[test]
fn extra_counts_are_ignored() {
    let r = parse_counts("1 Followers, 2 Following, 3 Posts, 4 Extra - x");
    assert_eq!(r, Ok(data(1, 2, 3)));
}

#[test]
fn non_numeric_count_is_rejected() {
    assert_eq!(parse_counts("abc Followers, 2 Following, 3 Posts - x"), Err(Error::ParseSeoData));
    assert_eq!(parse_counts("1.5K Followers, 2 Following, 3 Posts - x"), Err(Error::ParseSeoData));
    assert_eq!(parse_counts("-1 Followers, 2 Following, 3 Posts - x"), Err(Error::NotEnoughSeoData));
}

#[test]
fn first_failing_fragment_decides() {
    assert_eq!(parse_counts("x Followers, 2, 3 Posts - x"), Err(Error::ParseSeoData));
    assert_eq!(parse_counts("1, y Following, 3 Posts - x"), Err(Error::SplitSeoContent));
}

#[test]
fn largest_count_is_read() {
    let r = parse_counts("18446744073709551615 Followers, 0 Following, 0 Posts - x");
    assert_eq!(r, Ok(data(u64::MAX, 0, 0)));
}

#[test]
fn count_beyond_u64_is_rejected() {
    let r = parse_counts("18446744073709551616 Followers, 0 Following, 0 Posts - x");
    assert_eq!(r, Err(Error::ParseSeoData));
}

#[test]
fn plus_sign_is_read_as_u64_from_str_reads_it() {
    assert_eq!(parse_counts("+5 Followers, 6 Following, 7 Posts - x"), Ok(data(5, 6, 7)));
    assert_eq!(parse_counts("+ Followers, 6 Following, 7 Posts - x"), Err(Error::ParseSeoData));
}

#[test]
fn leading_zeros_are_read() {
    assert_eq!(parse_counts("007 Followers, 08 Following, 0 Posts - x"), Ok(data(7, 8, 0)));
}
