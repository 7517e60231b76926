//! The canonical key of a track: one string whose place among the other keys
//! is the track's place in the canonical order.
//!
//! A key is made of the primary artist, the album's release date brought to
//! day precision, the album's title, the disc number, the track number and
//! the track's title, joined by hyphens. The two numbers are padded with
//! zeros so that keys order them as numbers.

use vstd::prelude::*;
use crate::error::{Field, ValidationError, ValidationErrorView};
use crate::item::{Item, ItemView, Track, TrackView};
use crate::order::Key;

verus! {

/// The least number of characters that a number takes in a key.
pub const PAD_WIDTH: usize = 6;

/// The character for the decimal digit `d`.
pub open spec fn digit(d: int) -> char {
    if d == 0 {
        '0'
    } else if d == 1 {
        '1'
    } else if d == 2 {
        '2'
    } else if d == 3 {
        '3'
    } else if d == 4 {
        '4'
    } else if d == 5 {
        '5'
    } else if d == 6 {
        '6'
    } else if d == 7 {
        '7'
    } else if d == 8 {
        '8'
    } else {
        '9'
    }
}

/// The decimal numeral of `n`, without leading zeros.
pub open spec fn decimal(n: nat) -> Seq<char>
    decreases n,
{
    if n < 10 {
        seq![digit(n as int)]
    } else {
        decimal(n / 10).push(digit((n % 10) as int))
    }
}

/// The decimal numeral of `n`, with a minus sign in front if `n` is negative.
pub open spec fn numeral(n: int) -> Seq<char> {
    if n < 0 {
        seq!['-'] + decimal((-n) as nat)
    } else {
        decimal(n as nat)
    }
}

/// `count` zeros.
pub open spec fn zeros(count: nat) -> Seq<char> {
    Seq::new(count, |i: int| '0')
}

/// `text` with zeros put in front until it is `PAD_WIDTH` characters long. A
/// longer text stays as it is.
pub open spec fn zero_padded(text: Seq<char>) -> Seq<char> {
    if text.len() >= PAD_WIDTH {
        text
    } else {
        zeros((PAD_WIDTH - text.len()) as nat) + text
    }
}

/// `n` as it stands in a key.
pub open spec fn padded_number(n: int) -> Seq<char> {
    zero_padded(numeral(n))
}

/// The release date brought to day precision: a date known to the year
/// counts as that year's first day, one known to the month as that month's
/// first day, and any other is taken as it is.
pub open spec fn normalized_date(date: Seq<char>, precision: Seq<char>) -> Seq<char> {
    if precision == "year"@ {
        date + "-01-01"@
    } else if precision == "month"@ {
        date + "-01"@
    } else {
        date
    }
}

/// The key of a track that has all that a key needs.
pub open spec fn track_key(t: TrackView) -> Key {
    t.artists[0] + seq!['-'] + normalized_date(
        t.release_date->Some_0,
        t.release_date_precision->Some_0,
    ) + seq!['-'] + t.album + seq!['-'] + padded_number(t.disc_number) + seq!['-'] + padded_number(
        t.track_number,
    ) + seq!['-'] + t.name
}

/// The key of an item, or why it has none.
///
/// Only a track that is not from local storage has a key, and only if it
/// names an artist, a release date and the date's precision. The first of
/// these demands that fails, in this order, is the one reported.
pub open spec fn key_of(item: ItemView) -> Result<Key, ValidationErrorView> {
    match item {
        ItemView::Nothing => Err(
            ValidationErrorView::MissingField { field: Field::Payload, item: Seq::empty() },
        ),
        ItemView::Episode(e) => Err(
            ValidationErrorView::IneligibleItem { name: e.name, id: Some(e.id) },
        ),
        ItemView::Track(t) => {
            if t.is_local {
                Err(ValidationErrorView::IneligibleItem { name: t.name, id: None })
            } else if t.artists.len() == 0 {
                Err(ValidationErrorView::MissingField { field: Field::Artist, item: t.name })
            } else if t.release_date is None {
                Err(ValidationErrorView::MissingField { field: Field::ReleaseDate, item: t.name })
            } else if t.release_date_precision is None {
                Err(
                    ValidationErrorView::MissingField {
                        field: Field::ReleaseDatePrecision,
                        item: t.name,
                    },
                )
            } else {
                Ok(track_key(t))
            }
        },
    }
}

/// The one-character string for the decimal digit `d`.
fn digit_text(d: u64) -> (text: &'static str)
    requires
        d < 10,
    ensures
        text@ == seq![digit(d as int)],
{
    proof {
        reveal_strlit("0");
        reveal_strlit("1");
        reveal_strlit("2");
        reveal_strlit("3");
        reveal_strlit("4");
        reveal_strlit("5");
        reveal_strlit("6");
        reveal_strlit("7");
        reveal_strlit("8");
        reveal_strlit("9");
    }
    let text = if d == 0 {
        "0"
    } else if d == 1 {
        "1"
    } else if d == 2 {
        "2"
    } else if d == 3 {
        "3"
    } else if d == 4 {
        "4"
    } else if d == 5 {
        "5"
    } else if d == 6 {
        "6"
    } else if d == 7 {
        "7"
    } else if d == 8 {
        "8"
    } else {
        "9"
    };
    assert(text@ =~= seq![digit(d as int)]);
    text
}

/// The number of digits of `n`.
fn decimal_len(n: u64) -> (len: usize)
    ensures
        len == decimal(n as nat).len(),
        1 <= len <= 20,
    decreases n,
{
    if n < 10 {
        1
    } else {
        let shorter: usize = decimal_len(n / 10);
        proof {
            lemma_decimal_len_bound(n as nat);
        }
        shorter + 1
    }
}

/// A number below `10^20` has at most twenty digits.
proof fn lemma_decimal_len_bound(n: nat)
    requires
        n <= u64::MAX,
    ensures
        decimal(n).len() <= 20,
{
    reveal_with_fuel(decimal, 21);
}

/// Appends the decimal numeral of `n` to `out`.
pub(crate) fn append_decimal(out: &mut String, n: u64)
    ensures
        final(out)@ == old(out)@ + decimal(n as nat),
    decreases n,
{
    if n >= 10 {
        append_decimal(out, n / 10);
    }
    out.append(digit_text(n % 10));
    assert(out@ =~= old(out)@ + decimal(n as nat));
}

/// Appends `n` as it stands in a key: its numeral, with zeros in front of it
/// where it is shorter than `PAD_WIDTH`.
fn append_padded(out: &mut String, n: i64)
    requires
        n > i64::MIN,
    ensures
        final(out)@ == old(out)@ + padded_number(n as int),
{
    let negative: bool = n < 0;
    let magnitude: u64 = if negative {
        (-n) as u64
    } else {
        n as u64
    };
    let digits: usize = decimal_len(magnitude);
    let length: usize = if negative {
        digits + 1
    } else {
        digits
    };
    let ghost start = out@;
    let mut written: usize = length;
    while written < PAD_WIDTH
        invariant
            length <= written,
            written <= PAD_WIDTH || written == length,
            out@ == start + zeros((written - length) as nat),
        decreases PAD_WIDTH - written,
    {
        proof {
            reveal_strlit("0");
        }
        out.append("0");
        written += 1;
        assert(out@ =~= start + zeros((written - length) as nat));
    }
    if negative {
        proof {
            reveal_strlit("-");
        }
        out.append("-");
        assert(out@ =~= start + zeros((written - length) as nat) + seq!['-']);
    }
    append_decimal(out, magnitude);
    assert(out@ =~= start + padded_number(n as int));
}

/// Appends the release date, brought to day precision.
fn append_date(out: &mut String, date: &String, precision: &String)
    ensures
        final(out)@ == old(out)@ + normalized_date(date@, precision@),
{
    out.append(date.as_str());
    let year = String::from_str("year");
    let month = String::from_str("month");
    if *precision == year {
        out.append("-01-01");
        assert(out@ =~= old(out)@ + (date@ + "-01-01"@));
    } else if *precision == month {
        out.append("-01");
        assert(out@ =~= old(out)@ + (date@ + "-01"@));
    }
}

/// Appends a hyphen.
fn append_separator(out: &mut String)
    ensures
        final(out)@ == old(out)@ + seq!['-'],
{
    proof {
        reveal_strlit("-");
    }
    out.append("-");
    assert(out@ =~= old(out)@ + seq!['-']);
}

/// Builds the key of `item`, or says why it has none.
pub fn build_key(item: &Item) -> (result: Result<String, ValidationError>)
    ensures
        match result {
            Ok(key) => key_of(item@) == Ok::<Key, ValidationErrorView>(key@),
            Err(e) => key_of(item@) == Err::<Key, ValidationErrorView>(e@),
        },
{
    match item {
        Item::Nothing => Err(
            ValidationError::MissingField { field: Field::Payload, item: String::new() },
        ),
        Item::Episode(episode) => Err(
            ValidationError::IneligibleItem {
                name: episode.name.clone(),
                id: Some(episode.id.clone()),
            },
        ),
        Item::Track(track) => build_track_key(track),
    }
}

/// Builds the key of a track, or says why it has none.
fn build_track_key(track: &Track) -> (result: Result<String, ValidationError>)
    ensures
        match result {
            Ok(key) => key_of(ItemView::Track(track@)) == Ok::<Key, ValidationErrorView>(key@),
            Err(e) => key_of(ItemView::Track(track@)) == Err::<Key, ValidationErrorView>(e@),
        },
{
    if track.is_local {
        return Err(ValidationError::IneligibleItem { name: track.name.clone(), id: None });
    }
    if track.artists.len() == 0 {
        return Err(ValidationError::MissingField { field: Field::Artist, item: track.name.clone() });
    }
    let date = match &track.release_date {
        Some(date) => date,
        None => {
            return Err(
                ValidationError::MissingField { field: Field::ReleaseDate, item: track.name.clone() },
            );
        },
    };
    let precision = match &track.release_date_precision {
        Some(precision) => precision,
        None => {
            return Err(
                ValidationError::MissingField {
                    field: Field::ReleaseDatePrecision,
                    item: track.name.clone(),
                },
            );
        },
    };
    let mut key = String::new();
    key.append(track.artists[0].as_str());
    append_separator(&mut key);
    append_date(&mut key, date, precision);
    append_separator(&mut key);
    key.append(track.album.as_str());
    append_separator(&mut key);
    append_padded(&mut key, track.disc_number as i64);
    append_separator(&mut key);
    append_padded(&mut key, track.track_number as i64);
    append_separator(&mut key);
    key.append(track.name.as_str());
    proof {
        assert(track@.artists[0] == track.artists[0]@);
        assert(key@ =~= track_key(track@));
    }
    Ok(key)
}

} // verus!
