//! What the shape of a key guarantees about the order of tracks.

use vstd::prelude::*;
use crate::item::{ItemView, TrackView};
use crate::key::{
    decimal, digit, key_of, normalized_date, padded_number, track_key, zeros, PAD_WIDTH,
};
use crate::order::{key_lt, lemma_key_lt_decided};

verus! {

/// The first number that needs more than `width` digits.
pub open spec fn limit(width: nat) -> nat
    decreases width,
{
    if width == 0 {
        1
    } else {
        10 * limit((width - 1) as nat)
    }
}

/// The last `width` digits of `n`.
pub open spec fn fixed_width(n: nat, width: nat) -> Seq<char>
    decreases width,
{
    if width == 0 {
        Seq::empty()
    } else {
        fixed_width(n / 10, (width - 1) as nat).push(digit((n % 10) as int))
    }
}

/// A numeral of fixed width has that width.
pub proof fn lemma_fixed_width_len(n: nat, width: nat)
    ensures
        fixed_width(n, width).len() == width,
    decreases width,
{
    if width > 0 {
        lemma_fixed_width_len(n / 10, (width - 1) as nat);
    }
}

/// Zero at any width is all zeros.
proof fn lemma_fixed_width_zero(width: nat)
    ensures
        fixed_width(0, width) == zeros(width),
    decreases width,
{
    if width > 0 {
        lemma_fixed_width_zero((width - 1) as nat);
        assert(fixed_width(0, width) =~= zeros(width));
    } else {
        assert(fixed_width(0, width) =~= zeros(width));
    }
}

/// A number below `limit(width)` has at most `width` digits, and filling its
/// numeral up with zeros gives its numeral of width `width`.
pub proof fn lemma_padding_is_fixed_width(n: nat, width: nat)
    requires
        width >= 1,
        n < limit(width),
    ensures
        decimal(n).len() <= width,
        zeros((width - decimal(n).len()) as nat) + decimal(n) == fixed_width(n, width),
    decreases width,
{
    if n < 10 {
        lemma_fixed_width_zero((width - 1) as nat);
        assert(zeros((width - 1) as nat) + decimal(n) =~= fixed_width(n, width));
    } else {
        assert(width >= 2) by {
            reveal_with_fuel(limit, 2);
        }
        lemma_padding_is_fixed_width(n / 10, (width - 1) as nat);
        let shorter = decimal(n / 10);
        assert(zeros((width - decimal(n).len()) as nat) + decimal(n) =~= (zeros(
            (width - 1 - shorter.len()) as nat,
        ) + shorter).push(digit((n % 10) as int)));
    }
}

/// The digit characters stand in the order of the digits.
pub proof fn lemma_digit_order(a: int, b: int)
    requires
        0 <= a < b <= 9,
    ensures
        (digit(a) as int) < (digit(b) as int),
{
}

/// Numerals of one width are ordered as their numbers are.
pub proof fn lemma_fixed_width_order(a: nat, b: nat, width: nat)
    requires
        a < b < limit(width),
    ensures
        key_lt(fixed_width(a, width), fixed_width(b, width)),
    decreases width,
{
    if width == 0 {
    } else {
        let (x, y) = (fixed_width(a / 10, (width - 1) as nat), fixed_width(b / 10, (width - 1) as nat));
        let (c, d) = (digit((a % 10) as int), digit((b % 10) as int));
        lemma_fixed_width_len(a / 10, (width - 1) as nat);
        lemma_fixed_width_len(b / 10, (width - 1) as nat);
        let none = Seq::<char>::empty();
        if a / 10 < b / 10 {
            lemma_fixed_width_order(a / 10, b / 10, (width - 1) as nat);
            lemma_key_lt_decided(none, x, y, seq![c], seq![d]);
            assert(none + x + seq![c] =~= x.push(c));
            assert(none + y + seq![d] =~= y.push(d));
        } else {
            assert(a / 10 == b / 10);
            lemma_digit_order((a % 10) as int, (b % 10) as int);
            assert(key_lt(seq![c], seq![d])) by {
                assert(seq![c][0] == c);
                assert(seq![d][0] == d);
            }
            lemma_key_lt_decided(x, seq![c], seq![d], none, none);
            assert(x + seq![c] + none =~= x.push(c));
            assert(x + seq![d] + none =~= y.push(d));
        }
    }
}

/// Padding makes keys order numbers as numbers: of two numbers from zero up
/// that have no more than `PAD_WIDTH` digits, the smaller one's padded
/// numeral sorts strictly first, and both are `PAD_WIDTH` characters long.
pub proof fn lemma_padded_numbers_in_order(a: int, b: int)
    requires
        0 <= a < b < 1_000_000,
    ensures
        padded_number(a).len() == PAD_WIDTH,
        padded_number(b).len() == PAD_WIDTH,
        key_lt(padded_number(a), padded_number(b)),
{
    assert(limit(6) == 1_000_000) by {
        reveal_with_fuel(limit, 7);
    }
    lemma_padding_is_fixed_width(a as nat, 6);
    lemma_padding_is_fixed_width(b as nat, 6);
    lemma_fixed_width_len(a as nat, 6);
    lemma_fixed_width_len(b as nat, 6);
    lemma_fixed_width_order(a as nat, b as nat, 6);
    assert(padded_number(a) =~= fixed_width(a as nat, 6));
    assert(padded_number(b) =~= fixed_width(b as nat, 6));
}

/// Of two tracks of one disc of one album, the one with the smaller track
/// number has the key that sorts first, whatever the tracks are called.
pub proof fn lemma_track_number_orders_keys(a: TrackView, b: TrackView)
    requires
        key_of(ItemView::Track(a)) is Ok,
        key_of(ItemView::Track(b)) is Ok,
        a.artists[0] == b.artists[0],
        a.release_date == b.release_date,
        a.release_date_precision == b.release_date_precision,
        a.album == b.album,
        a.disc_number == b.disc_number,
        0 <= a.track_number < b.track_number < 1_000_000,
    ensures
        key_lt(track_key(a), track_key(b)),
{
    let date = normalized_date(a.release_date->Some_0, a.release_date_precision->Some_0);
    let hyphen = seq!['-'];
    let p = a.artists[0] + hyphen + date + hyphen + a.album + hyphen + padded_number(a.disc_number)
        + hyphen;
    lemma_padded_numbers_in_order(a.track_number, b.track_number);
    lemma_key_lt_decided(
        p,
        padded_number(a.track_number),
        padded_number(b.track_number),
        hyphen + a.name,
        hyphen + b.name,
    );
    assert(track_key(a) =~= p + padded_number(a.track_number) + (hyphen + a.name));
    assert(track_key(b) =~= p + padded_number(b.track_number) + (hyphen + b.name));
}

/// Of two tracks of one album, the one on the disc with the smaller number
/// has the key that sorts first, whatever their track numbers and names.
pub proof fn lemma_disc_number_orders_keys(a: TrackView, b: TrackView)
    requires
        key_of(ItemView::Track(a)) is Ok,
        key_of(ItemView::Track(b)) is Ok,
        a.artists[0] == b.artists[0],
        a.release_date == b.release_date,
        a.release_date_precision == b.release_date_precision,
        a.album == b.album,
        0 <= a.disc_number < b.disc_number < 1_000_000,
    ensures
        key_lt(track_key(a), track_key(b)),
{
    let date = normalized_date(a.release_date->Some_0, a.release_date_precision->Some_0);
    let hyphen = seq!['-'];
    let p = a.artists[0] + hyphen + date + hyphen + a.album + hyphen;
    let rest_a = hyphen + padded_number(a.track_number) + hyphen + a.name;
    let rest_b = hyphen + padded_number(b.track_number) + hyphen + b.name;
    lemma_padded_numbers_in_order(a.disc_number, b.disc_number);
    lemma_key_lt_decided(
        p,
        padded_number(a.disc_number),
        padded_number(b.disc_number),
        rest_a,
        rest_b,
    );
    assert(track_key(a) =~= p + padded_number(a.disc_number) + rest_a);
    assert(track_key(b) =~= p + padded_number(b.disc_number) + rest_b);
}

/// A release known only to the year sorts before a release of the same
/// artist that is dated to a later day of that year.
///
/// The first track's date is `year` with precision `year`; the second's is
/// `year`, a hyphen and `month_day`, taken as it stands, where `month_day`
/// has the five characters of `MM-DD` and sorts after `01-01`.
pub proof fn lemma_year_precision_sorts_first(
    a: TrackView,
    b: TrackView,
    year: Seq<char>,
    month_day: Seq<char>,
)
    requires
        key_of(ItemView::Track(a)) is Ok,
        key_of(ItemView::Track(b)) is Ok,
        a.artists[0] == b.artists[0],
        a.release_date == Some(year),
        a.release_date_precision == Some("year"@),
        b.release_date == Some(year + seq!['-'] + month_day),
        b.release_date_precision->Some_0 != "year"@,
        b.release_date_precision->Some_0 != "month"@,
        month_day.len() == 5,
        key_lt("01-01"@, month_day),
    ensures
        key_lt(track_key(a), track_key(b)),
{
    reveal_strlit("-01-01");
    reveal_strlit("01-01");
    let hyphen = seq!['-'];
    let p = a.artists[0] + hyphen + year + hyphen;
    let rest_a = hyphen + a.album + hyphen + padded_number(a.disc_number) + hyphen + padded_number(
        a.track_number,
    ) + hyphen + a.name;
    let rest_b = hyphen + b.album + hyphen + padded_number(b.disc_number) + hyphen + padded_number(
        b.track_number,
    ) + hyphen + b.name;
    assert("-01-01"@ =~= hyphen + "01-01"@);
    lemma_key_lt_decided(p, "01-01"@, month_day, rest_a, rest_b);
    assert(track_key(a) =~= p + "01-01"@ + rest_a);
    assert(track_key(b) =~= p + month_day + rest_b);
}

} // verus!
