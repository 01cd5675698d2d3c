//! Operator configuration: the two loop periods and the boosts to commit
//! stake for, read from the text of their settings.

use vstd::prelude::*;
use vstd::string::StrSliceExecFns;
use crate::address::{base58_pubkey, Address};

verus! {

/// Why the configuration was refused.
#[derive(Clone, Copy, Debug, PartialEq, Eq, Structural)]
pub enum ConfigError {
    /// A loop period is not set.
    MissingPeriod,
    /// A loop period is not a decimal number that fits 64 bits.
    InvalidPeriod,
    /// A loop period is zero.
    ZeroPeriod,
    /// A boost is not a public key in base 58.
    InvalidBoost,
}

/// One of the characters `0` to `9`.
pub open spec fn is_decimal_digit(c: char) -> bool {
    48 <= c as u32 && c as u32 <= 57
}

/// Every character is a decimal digit.
pub open spec fn all_decimal_digits(digits: Seq<char>) -> bool {
    forall|i: int| 0 <= i < digits.len() ==> is_decimal_digit(#[trigger] digits[i])
}

/// The number that a run of decimal digits writes.
pub open spec fn digits_value(digits: Seq<char>) -> nat
    decreases digits.len(),
{
    if digits.len() == 0 {
        0
    } else {
        10 * digits_value(digits.drop_last()) + (digits.last() as u32 - 48) as nat
    }
}

/// The text without a leading `+`.
pub open spec fn unsigned_part(text: Seq<char>) -> Seq<char> {
    if text.len() > 0 && text[0] == '+' {
        text.subrange(1, text.len() as int)
    } else {
        text
    }
}

/// The number that a text writes: an optional `+`, then one or more decimal
/// digits and nothing else, the whole not above the largest 64-bit number.
pub open spec fn decimal_u64(text: Seq<char>) -> Option<u64> {
    let digits = unsigned_part(text);
    if digits.len() > 0 && all_decimal_digits(digits) && digits_value(digits) <= u64::MAX {
        Some(digits_value(digits) as u64)
    } else {
        None
    }
}

/// A text with a character that is no digit, behind the sign if there is one, writes no number.
pub proof fn lemma_not_a_number(text: Seq<char>, at: int)
    requires
        0 <= at < unsigned_part(text).len(),
        !is_decimal_digit(unsigned_part(text)[at]),
    ensures
        decimal_u64(text) is None,
{
}

/// More digits never write a smaller number.
pub proof fn lemma_digits_value_prefix(digits: Seq<char>, n: int)
    requires
        all_decimal_digits(digits),
        0 <= n <= digits.len(),
    ensures
        digits_value(digits.take(n)) <= digits_value(digits),
    decreases digits.len(),
{
    if n == digits.len() {
        assert(digits.take(n) =~= digits);
    } else {
        let front = digits.drop_last();
        assert forall|i: int| 0 <= i < front.len() implies is_decimal_digit(#[trigger] front[i]) by {
            assert(front[i] == digits[i]);
        }
        lemma_digits_value_prefix(front, n);
        assert(front.take(n) =~= digits.take(n));
        assert(is_decimal_digit(digits[digits.len() - 1]));
    }
}

/// Reads a decimal number of at most 64 bits.
pub fn parse_u64(text: &str) -> (number: Option<u64>)
    ensures
        number == decimal_u64(text@),
{
    let len = text.unicode_len();
    if len == 0 {
        return None;
    }
    let start: usize = if text.get_char(0) == '+' {
        1
    } else {
        0
    };
    let ghost digits = unsigned_part(text@);
    assert(digits =~= text@.subrange(start as int, len as int));
    if start == len {
        return None;
    }
    let mut value: u64 = 0;
    let mut i: usize = start;
    while i < len
        invariant
            start <= i <= len,
            len == text@.len(),
            digits == text@.subrange(start as int, len as int),
            digits == unsigned_part(text@),
            all_decimal_digits(digits.take(i - start)),
            value == digits_value(digits.take(i - start)),
        decreases len - i,
    {
        let c = text.get_char(i);
        let code = c as u32;
        let ghost seen = digits.take(i - start);
        let ghost next = digits.take(i + 1 - start);
        proof {
            assert(digits[i - start] == c);
            assert(next.drop_last() =~= seen);
            assert(next.last() == c);
        }
        if code < 48 || code > 57 {
            proof {
                lemma_not_a_number(text@, i - start);
            }
            return None;
        }
        let grown = match value.checked_mul(10) {
            Some(tenfold) => tenfold.checked_add((code - 48) as u64),
            None => None,
        };
        match grown {
            Some(v) => {
                value = v;
            },
            None => {
                proof {
                    assert(digits_value(next) > u64::MAX);
                    if all_decimal_digits(digits) {
                        lemma_digits_value_prefix(digits, i + 1 - start);
                    }
                }
                return None;
            },
        }
        proof {
            assert forall|j: int| 0 <= j < next.len() implies is_decimal_digit(#[trigger] next[j]) by {
                if j < seen.len() {
                    assert(seen[j] == next[j]);
                }
            }
        }
        i += 1;
    }
    proof {
        assert(digits.take(len - start) =~= digits);
    }
    Some(value)
}

/// The period that a setting gives.
pub open spec fn period_of(number: Option<Option<u64>>) -> Result<u64, ConfigError> {
    match number {
        None => Err(ConfigError::MissingPeriod),
        Some(None) => Err(ConfigError::InvalidPeriod),
        Some(Some(minutes)) => if minutes == 0 {
            Err(ConfigError::ZeroPeriod)
        } else {
            Ok(minutes)
        },
    }
}

/// The boost that a setting gives; a setting that is absent gives none.
pub open spec fn boost_of(key: Option<Option<Seq<u8>>>) -> Result<Option<Seq<u8>>, ConfigError> {
    match key {
        None => Ok(None),
        Some(None) => Err(ConfigError::InvalidBoost),
        Some(Some(bytes)) => Ok(Some(bytes)),
    }
}

/// The text of a setting, where it is set.
pub open spec fn text_of(value: Option<&str>) -> Option<Seq<char>> {
    match value {
        None => None,
        Some(text) => Some(text@),
    }
}

/// The number that a setting writes, where it is set.
pub open spec fn number_in(value: Option<Seq<char>>) -> Option<Option<u64>> {
    match value {
        None => None,
        Some(text) => Some(decimal_u64(text)),
    }
}

/// The key that a setting writes, where it is set.
pub open spec fn key_in(value: Option<Seq<char>>) -> Option<Option<Seq<u8>>> {
    match value {
        None => None,
        Some(text) => Some(base58_pubkey(text)),
    }
}

/// The bytes of a boost, where there is one.
pub open spec fn bytes_of(key: Option<Address>) -> Option<Seq<u8>> {
    match key {
        None => None,
        Some(a) => Some(a@),
    }
}

/// Judges a period that has been read: it must be set, be a number, and not be zero.
pub fn period_from(number: Option<Option<u64>>) -> (r: Result<u64, ConfigError>)
    ensures
        r == period_of(number),
{
    match number {
        None => Err(ConfigError::MissingPeriod),
        Some(None) => Err(ConfigError::InvalidPeriod),
        Some(Some(minutes)) => if minutes == 0 {
            Err(ConfigError::ZeroPeriod)
        } else {
            Ok(minutes)
        },
    }
}

/// Judges a boost that has been read: it may be absent, but not be unreadable.
pub fn boost_from(key: Option<Option<Address>>) -> (r: Result<Option<Address>, ConfigError>)
    ensures
        r == (match key {
            None => Ok::<Option<Address>, ConfigError>(None),
            Some(None) => Err::<Option<Address>, ConfigError>(ConfigError::InvalidBoost),
            Some(Some(a)) => Ok::<Option<Address>, ConfigError>(Some(a)),
        }),
{
    match key {
        None => Ok(None),
        Some(None) => Err(ConfigError::InvalidBoost),
        Some(Some(a)) => Ok(Some(a)),
    }
}

/// Period of the attribution loop, in minutes.
pub fn attribution_epoch(value: Option<&str>) -> (r: Result<u64, ConfigError>)
    ensures
        r == period_of(number_in(text_of(value))),
{
    match value {
        None => period_from(None),
        Some(text) => period_from(Some(parse_u64(text))),
    }
}

/// Period of the stake-commitment loop, in minutes.
pub fn stake_commit_epoch(value: Option<&str>) -> (r: Result<u64, ConfigError>)
    ensures
        r == period_of(number_in(text_of(value))),
{
    match value {
        None => period_from(None),
        Some(text) => period_from(Some(parse_u64(text))),
    }
}

/// One optional boost.
pub fn load_boost(value: Option<&str>) -> (r: Result<Option<Address>, ConfigError>)
    ensures
        r is Ok <==> boost_of(key_in(text_of(value))) is Ok,
        r matches Ok(boost) ==> Ok::<Option<Seq<u8>>, ConfigError>(bytes_of(boost)) == boost_of(
            key_in(text_of(value)),
        ),
        r matches Err(e) ==> e == ConfigError::InvalidBoost,
{
    match value {
        None => boost_from(None),
        Some(text) => boost_from(Some(Address::from_text(text))),
    }
}

/// The boosts that are present among `slots`, in order.
pub open spec fn present(slots: Seq<Option<Address>>) -> Seq<Address>
    decreases slots.len(),
{
    if slots.len() == 0 {
        Seq::empty()
    } else {
        match slots.last() {
            Some(a) => present(slots.drop_last()).push(a),
            None => present(slots.drop_last()),
        }
    }
}

/// Keeps the boosts that are set, in order.
pub fn collect_boosts(slots: &Vec<Option<Address>>) -> (boosts: Vec<Address>)
    ensures
        boosts@ == present(slots@),
{
    let n = slots.len();
    let mut boosts: Vec<Address> = Vec::new();
    let mut i: usize = 0;
    while i < n
        invariant
            i <= n,
            n == slots@.len(),
            boosts@ == present(slots@.take(i as int)),
        decreases n - i,
    {
        proof {
            assert(slots@.take(i + 1).drop_last() =~= slots@.take(i as int));
        }
        match slots[i] {
            Some(a) => {
                boosts.push(a);
            },
            None => {},
        }
        i += 1;
    }
    proof {
        assert(slots@.take(n as int) =~= slots@);
    }
    boosts
}

/// The keys of `boosts`, in order.
pub open spec fn keys(boosts: Seq<Address>) -> Seq<Seq<u8>> {
    Seq::new(boosts.len(), |i: int| boosts[i]@)
}

/// The keys that are set among `slots`, in order.
pub open spec fn set_keys(slots: Seq<Option<Seq<u8>>>) -> Seq<Seq<u8>>
    decreases slots.len(),
{
    if slots.len() == 0 {
        Seq::empty()
    } else {
        match slots.last() {
            Some(k) => set_keys(slots.drop_last()).push(k),
            None => set_keys(slots.drop_last()),
        }
    }
}

/// The keys of the slots, empty slots kept.
pub open spec fn slot_keys(slots: Seq<Option<Address>>) -> Seq<Option<Seq<u8>>> {
    Seq::new(slots.len(), |i: int| bytes_of(slots[i]))
}

/// The keys of the boosts that are present are the keys that are set.
pub proof fn lemma_present_keys(slots: Seq<Option<Address>>)
    ensures
        keys(present(slots)) == set_keys(slot_keys(slots)),
    decreases slots.len(),
{
    if slots.len() == 0 {
        assert(keys(present(slots)) =~= set_keys(slot_keys(slots)));
    } else {
        let front = slots.drop_last();
        lemma_present_keys(front);
        assert(slot_keys(slots).drop_last() =~= slot_keys(front));
        assert(slot_keys(slots).last() == bytes_of(slots.last()));
        match slots.last() {
            Some(a) => {
                assert(keys(present(front).push(a)) =~= keys(present(front)).push(a@));
            },
            None => {},
        }
    }
}

/// The configured boosts, up to three. A boost that is set but unreadable
/// refuses the configuration; the boosts that are set come out in order.
pub fn load_boosts(one: Option<&str>, two: Option<&str>, three: Option<&str>) -> (r: Result<
    Vec<Address>,
    ConfigError,
>)
    ensures
        r is Ok <==> boost_of(key_in(text_of(one))) is Ok && boost_of(key_in(text_of(two))) is Ok
            && boost_of(key_in(text_of(three))) is Ok,
        r matches Ok(boosts) ==> keys(boosts@) == set_keys(
            seq![
                boost_of(key_in(text_of(one)))->Ok_0,
                boost_of(key_in(text_of(two)))->Ok_0,
                boost_of(key_in(text_of(three)))->Ok_0,
            ],
        ),
        r matches Err(e) ==> e == ConfigError::InvalidBoost,
{
    let a = match load_boost(one) {
        Ok(a) => a,
        Err(e) => {
            return Err(e);
        },
    };
    let b = match load_boost(two) {
        Ok(b) => b,
        Err(e) => {
            return Err(e);
        },
    };
    let c = match load_boost(three) {
        Ok(c) => c,
        Err(e) => {
            return Err(e);
        },
    };
    let mut slots: Vec<Option<Address>> = Vec::new();
    slots.push(a);
    slots.push(b);
    slots.push(c);
    proof {
        lemma_present_keys(slots@);
        assert(slot_keys(slots@) =~= seq![bytes_of(a), bytes_of(b), bytes_of(c)]);
    }
    Ok(collect_boosts(&slots))
}

} // verus!
