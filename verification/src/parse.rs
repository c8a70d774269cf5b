//! Parsing of the configuration surface: the update period, the
//! `temperature:fan_speed` curve specification, and the driver version
//! string, all over the UTF-8 bytes of the input.

use vstd::prelude::*;
use vstd::string::StringSliceAdditionalSpecFns;

use crate::curve::{TempFanPair, MAX_FAN_SPEED, MAX_TEMPERATURE};

verus! {

/// Longest accepted fan-speed update period (s).
pub const MAX_FAN_SPEED_UPDATE_PERIOD: u64 = 60;

/// Why a configuration string was rejected.
#[derive(Clone, Copy, Debug, PartialEq, Eq, Structural)]
pub enum ConfigError {
    /// A curve entry is not exactly `temperature:fan_speed`.
    PairFormat,
    /// The temperature of an entry is not an unsigned decimal number.
    InvalidTemperature,
    /// The temperature of an entry exceeds `MAX_TEMPERATURE`.
    TemperatureTooHigh,
    /// The fan speed of an entry is not an unsigned decimal number.
    InvalidFanSpeed,
    /// The fan speed of an entry exceeds `MAX_FAN_SPEED`.
    FanSpeedTooHigh,
    /// The update period is not an unsigned decimal number.
    InvalidPeriod,
    /// The update period exceeds `MAX_FAN_SPEED_UPDATE_PERIOD`.
    PeriodTooLong,
    /// The driver version's major number is not a decimal number.
    InvalidDriverVersion,
    /// The driver's major version is older than the oldest supported one.
    DriverTooOld,
}

/// Oldest driver major version the controller supports.
pub const MIN_DRIVER_VERSION_MAJOR: i32 = 520;

/// ASCII whitespace, as `str::trim` removes it from ASCII text.
pub open spec fn is_ascii_ws(b: u8) -> bool {
    b == 32 || b == 9 || b == 10 || b == 11 || b == 12 || b == 13
}

/// An ASCII decimal digit.
pub open spec fn is_dec_digit(b: u8) -> bool {
    48 <= b <= 57
}

/// Every byte is a decimal digit.
pub open spec fn all_digits(s: Seq<u8>) -> bool {
    forall|i: int| 0 <= i < s.len() ==> is_dec_digit(#[trigger] s[i])
}

/// The value of a string of decimal digits, most significant first.
pub open spec fn dec_val(s: Seq<u8>) -> int
    recommends
        all_digits(s),
    decreases s.len(),
{
    if s.len() == 0 {
        0
    } else {
        dec_val(s.drop_last()) * 10 + (s.last() - 48)
    }
}

/// The input without its leading ASCII whitespace.
pub open spec fn trim_front(s: Seq<u8>) -> Seq<u8>
    decreases s.len(),
{
    if s.len() > 0 && is_ascii_ws(s[0]) {
        trim_front(s.drop_first())
    } else {
        s
    }
}

/// The input without its trailing ASCII whitespace.
pub open spec fn trim_back(s: Seq<u8>) -> Seq<u8>
    decreases s.len(),
{
    if s.len() > 0 && is_ascii_ws(s.last()) {
        trim_back(s.drop_last())
    } else {
        s
    }
}

/// The input without leading and trailing ASCII whitespace.
pub open spec fn trim_spec(s: Seq<u8>) -> Seq<u8> {
    trim_back(trim_front(s))
}

/// The value of a bare digit string, `None` when it is empty, holds a
/// non-digit, or exceeds `u64::MAX`.
pub open spec fn parse_digits_spec(s: Seq<u8>) -> Option<u64> {
    if s.len() > 0 && all_digits(s) && dec_val(s) <= u64::MAX {
        Some(dec_val(s) as u64)
    } else {
        None
    }
}

/// The digits of an unsigned decimal number: what follows one optional
/// leading `+`.
pub open spec fn digits_of(s: Seq<u8>) -> Seq<u8> {
    if s.len() > 0 && s[0] == 43 {
        s.drop_first()
    } else {
        s
    }
}

/// The value of an unsigned decimal number: one optional leading `+`,
/// then digits.
pub open spec fn parse_u64_spec(s: Seq<u8>) -> Option<u64> {
    parse_digits_spec(digits_of(s))
}

/// A digit string's value is never negative.
proof fn lemma_dec_val_nonneg(s: Seq<u8>)
    requires
        all_digits(s),
    ensures
        dec_val(s) >= 0,
    decreases s.len(),
{
    if s.len() > 0 {
        assert(all_digits(s.drop_last()));
        lemma_dec_val_nonneg(s.drop_last());
    }
}

/// A digit string's value is at least the value of any of its prefixes.
proof fn lemma_dec_val_prefix(s: Seq<u8>, k: int)
    requires
        all_digits(s),
        0 <= k <= s.len(),
    ensures
        dec_val(s.take(k)) <= dec_val(s),
    decreases s.len(),
{
    if k == s.len() {
        assert(s.take(k) =~= s);
    } else {
        assert(all_digits(s.drop_last()));
        lemma_dec_val_prefix(s.drop_last(), k);
        assert(s.drop_last().take(k) =~= s.take(k));
        lemma_dec_val_nonneg(s.drop_last());
    }
}

/// Parses the bare digit string in `bytes[lo..hi]`.
fn parse_digits_range(bytes: &[u8], lo: usize, hi: usize) -> (r: Option<u64>)
    requires
        lo <= hi <= bytes@.len(),
    ensures
        r == parse_digits_spec(bytes@.subrange(lo as int, hi as int)),
        r matches Some(v) ==> dec_val(bytes@.subrange(lo as int, hi as int)) == v as int,
{
    let ghost s = bytes@.subrange(lo as int, hi as int);
    if lo == hi {
        return None;
    }
    let mut acc: u128 = 0;
    let mut i: usize = lo;
    while i < hi
        invariant
            lo <= i <= hi <= bytes@.len(),
            s == bytes@.subrange(lo as int, hi as int),
            all_digits(s.take(i - lo)),
            acc == dec_val(s.take(i - lo)),
            acc <= u64::MAX,
        decreases hi - i,
    {
        let b = bytes[i];
        proof {
            assert(s[i - lo] == b);
        }
        if b < 48 || b > 57 {
            proof {
                assert(!is_dec_digit(s[i - lo]));
            }
            return None;
        }
        proof {
            assert(s.take(i - lo + 1).drop_last() =~= s.take(i - lo));
            assert(s.take(i - lo + 1).last() == b);
        }
        acc = acc * 10 + ((b - 48) as u128);
        let ghost k = i - lo + 1;
        if acc > u64::MAX as u128 {
            proof {
                if all_digits(s) {
                    lemma_dec_val_prefix(s, k);
                }
            }
            return None;
        }
        i = i + 1;
    }
    proof {
        assert(s.take(hi - lo) =~= s);
    }
    Some(acc as u64)
}

/// Parses the unsigned decimal number (optional `+`, then digits) in
/// `bytes[lo..hi]`.
fn parse_number_range(bytes: &[u8], lo: usize, hi: usize) -> (r: Option<u64>)
    requires
        lo <= hi <= bytes@.len(),
    ensures
        r == parse_u64_spec(bytes@.subrange(lo as int, hi as int)),
        r matches Some(v) ==> dec_val(digits_of(bytes@.subrange(lo as int, hi as int))) == v as int,
{
    let ghost s = bytes@.subrange(lo as int, hi as int);
    if lo < hi && bytes[lo] == 43 {
        proof {
            assert(s.drop_first() =~= bytes@.subrange(lo + 1, hi as int));
        }
        parse_digits_range(bytes, lo + 1, hi)
    } else {
        parse_digits_range(bytes, lo, hi)
    }
}

/// The input split at every occurrence of `sep`: the list of the
/// (possibly empty) stretches between the separators, in order.
pub open spec fn split_on(s: Seq<u8>, sep: u8) -> Seq<Seq<u8>>
    decreases s.len(),
{
    if s.len() == 0 {
        seq![Seq::<u8>::empty()]
    } else if s[0] == sep {
        seq![Seq::<u8>::empty()] + split_on(s.drop_first(), sep)
    } else {
        let rest = split_on(s.drop_first(), sep);
        seq![seq![s[0]] + rest[0]] + rest.drop_first()
    }
}

/// Splitting always yields at least one stretch.
pub proof fn lemma_split_len(s: Seq<u8>, sep: u8)
    ensures
        split_on(s, sep).len() >= 1,
    decreases s.len(),
{
    if s.len() > 0 {
        lemma_split_len(s.drop_first(), sep);
    }
}

/// An input free of the separator splits into itself alone.
pub proof fn lemma_split_no_sep(s: Seq<u8>, sep: u8)
    requires
        forall|j: int| 0 <= j < s.len() ==> s[j] != sep,
    ensures
        split_on(s, sep) == seq![s],
    decreases s.len(),
{
    if s.len() == 0 {
        assert(split_on(s, sep) =~~= seq![s]);
    } else {
        lemma_split_no_sep(s.drop_first(), sep);
        let rest = split_on(s.drop_first(), sep);
        assert(seq![s[0]] + rest[0] =~= s);
        assert(rest.drop_first() =~= Seq::<Seq<u8>>::empty());
        assert(split_on(s, sep) =~~= seq![s]);
    }
}

/// Splitting at the first separator: the stretch before it, then the
/// split of what follows it.
pub proof fn lemma_split_at_first_sep(s: Seq<u8>, sep: u8, i: int)
    requires
        0 <= i < s.len(),
        s[i] == sep,
        forall|j: int| 0 <= j < i ==> s[j] != sep,
    ensures
        split_on(s, sep) == seq![s.take(i)] + split_on(s.skip(i + 1), sep),
    decreases i,
{
    if i == 0 {
        assert(s.take(0) =~= Seq::<u8>::empty());
        assert(s.skip(1) =~= s.drop_first());
        assert(split_on(s, sep) =~~= seq![s.take(0)] + split_on(s.skip(1), sep));
    } else {
        lemma_split_at_first_sep(s.drop_first(), sep, i - 1);
        let rest = split_on(s.drop_first(), sep);
        lemma_split_len(s.drop_first().skip(i), sep);
        assert(s.drop_first().take(i - 1) =~= s.take(i).drop_first());
        assert(s.drop_first().skip(i) =~= s.skip(i + 1));
        assert(seq![s[0]] + rest[0] =~= s.take(i));
        assert(rest.drop_first() =~~= split_on(s.skip(i + 1), sep));
        assert(split_on(s, sep) =~~= seq![s.take(i)] + split_on(s.skip(i + 1), sep));
    }
}

/// The value of one side of a curve entry: trimmed of whitespace, an
/// unsigned decimal number that fits a `u32`.
pub open spec fn parse_part_u32(s: Seq<u8>) -> Option<u32> {
    match parse_u64_spec(trim_spec(s)) {
        Option::None => None,
        Option::Some(v) => if v > u32::MAX {
            None
        } else {
            Some(v as u32)
        },
    }
}

/// The verdict on one curve entry already split into its two sides:
/// the temperature is parsed, then the fan speed, then each is held to
/// its bound.
pub open spec fn pair_spec(a: Seq<u8>, b: Seq<u8>) -> Result<TempFanPair, ConfigError> {
    match parse_part_u32(a) {
        Option::None => Err(ConfigError::InvalidTemperature),
        Option::Some(temperature) => match parse_part_u32(b) {
            Option::None => Err(ConfigError::InvalidFanSpeed),
            Option::Some(fan_speed) => if temperature > MAX_TEMPERATURE {
                Err(ConfigError::TemperatureTooHigh)
            } else if fan_speed > MAX_FAN_SPEED {
                Err(ConfigError::FanSpeedTooHigh)
            } else {
                Ok(TempFanPair { temperature, fan_speed })
            },
        },
    }
}

/// The verdict on one comma-separated stretch of the curve
/// specification: it must hold exactly one `:`, and each side must be an
/// in-range number.
pub open spec fn segment_spec(seg: Seq<u8>) -> Result<TempFanPair, ConfigError> {
    let parts = split_on(seg, 58);
    if parts.len() != 2 {
        Err(ConfigError::PairFormat)
    } else {
        pair_spec(parts[0], parts[1])
    }
}

/// The verdict on the curve specification's stretches from index `i`
/// upward: the parsed entries, or the first offence.
pub open spec fn segments_from_spec(segs: Seq<Seq<u8>>, i: int) -> Result<
    Seq<TempFanPair>,
    ConfigError,
>
    decreases segs.len() - i,
{
    if i >= segs.len() {
        Ok(Seq::<TempFanPair>::empty())
    } else {
        match segment_spec(segs[i]) {
            Result::Err(e) => Err(e),
            Result::Ok(p) => match segments_from_spec(segs, i + 1) {
                Result::Err(e) => Err(e),
                Result::Ok(rest) => Ok(seq![p] + rest),
            },
        }
    }
}

/// The verdict on a whole curve specification: what each of its
/// comma-separated stretches parses to, or the first offence.
pub open spec fn pairs_spec(s: Seq<u8>) -> Result<Seq<TempFanPair>, ConfigError> {
    segments_from_spec(split_on(s, 44), 0)
}

/// Decides ASCII whitespace.
fn is_ws_byte(b: u8) -> (r: bool)
    ensures
        r == is_ascii_ws(b),
{
    b == 32 || b == 9 || b == 10 || b == 11 || b == 12 || b == 13
}

/// Narrows `bytes[lo..hi]` to its whitespace-trimmed middle.
fn trim_range(bytes: &[u8], lo: usize, hi: usize) -> (r: (usize, usize))
    requires
        lo <= hi <= bytes@.len(),
    ensures
        lo <= r.0 <= r.1 <= hi,
        bytes@.subrange(r.0 as int, r.1 as int) == trim_spec(
            bytes@.subrange(lo as int, hi as int),
        ),
{
    let ghost s = bytes@.subrange(lo as int, hi as int);
    let mut a: usize = lo;
    let mut b: usize = hi;
    while a < b && is_ws_byte(bytes[a])
        invariant
            lo <= a <= b,
            b == hi <= bytes@.len(),
            trim_front(s) == trim_front(bytes@.subrange(a as int, hi as int)),
        decreases b - a,
    {
        proof {
            assert(bytes@.subrange(a as int, hi as int).drop_first() =~= bytes@.subrange(
                a + 1,
                hi as int,
            ));
        }
        a = a + 1;
    }
    proof {
        assert(trim_front(s) == bytes@.subrange(a as int, hi as int));
    }
    while a < b && is_ws_byte(bytes[b - 1])
        invariant
            lo <= a <= b <= hi <= bytes@.len(),
            trim_front(s) == bytes@.subrange(a as int, hi as int),
            trim_back(trim_front(s)) == trim_back(bytes@.subrange(a as int, b as int)),
        decreases b - a,
    {
        proof {
            assert(bytes@.subrange(a as int, b as int).drop_last() =~= bytes@.subrange(
                a as int,
                b - 1,
            ));
        }
        b = b - 1;
    }
    (a, b)
}

/// Parses one side of a curve entry in `bytes[lo..hi]`: trimmed, an
/// unsigned decimal number fitting a `u32`.
fn parse_part_range(bytes: &[u8], lo: usize, hi: usize) -> (r: Option<u32>)
    requires
        lo <= hi <= bytes@.len(),
    ensures
        r == parse_part_u32(bytes@.subrange(lo as int, hi as int)),
{
    let (a, b) = trim_range(bytes, lo, hi);
    match parse_number_range(bytes, a, b) {
        None => None,
        Some(v) => {
            if v > u32::MAX as u64 {
                None
            } else {
                Some(v as u32)
            }
        },
    }
}

/// Parses one comma-separated stretch of the curve specification,
/// `bytes[lo..hi]`: exactly one `:`, an in-range number on each side.
fn parse_segment_range(bytes: &[u8], lo: usize, hi: usize) -> (r: Result<TempFanPair, ConfigError>)
    requires
        lo <= hi <= bytes@.len(),
    ensures
        r == segment_spec(bytes@.subrange(lo as int, hi as int)),
{
    let ghost seg = bytes@.subrange(lo as int, hi as int);
    let mut i: usize = lo;
    while i < hi && bytes[i] != 58
        invariant
            lo <= i <= hi <= bytes@.len(),
            seg == bytes@.subrange(lo as int, hi as int),
            forall|j: int| 0 <= j < i - lo ==> seg[j] != 58,
        decreases hi - i,
    {
        i = i + 1;
    }
    if i == hi {
        proof {
            lemma_split_no_sep(seg, 58);
        }
        return Err(ConfigError::PairFormat);
    }
    proof {
        assert(seg[i - lo] == 58);
        lemma_split_at_first_sep(seg, 58, i - lo);
        assert(seg.take(i - lo) =~= bytes@.subrange(lo as int, i as int));
        assert(seg.skip(i - lo + 1) =~= bytes@.subrange(i + 1, hi as int));
    }
    let mut j: usize = i + 1;
    while j < hi && bytes[j] != 58
        invariant
            lo <= i < j <= hi <= bytes@.len(),
            seg == bytes@.subrange(lo as int, hi as int),
            forall|k: int| i - lo < k < j - lo ==> seg[k] != 58,
        decreases hi - j,
    {
        j = j + 1;
    }
    let ghost tail = bytes@.subrange(i + 1, hi as int);
    if j < hi {
        proof {
            assert(tail[j - i - 1] == 58);
            lemma_split_at_first_sep(tail, 58, j - i - 1);
            lemma_split_len(tail.skip(j - i), 58);
        }
        return Err(ConfigError::PairFormat);
    }
    proof {
        lemma_split_no_sep(tail, 58);
    }
    match parse_part_range(bytes, lo, i) {
        None => Err(ConfigError::InvalidTemperature),
        Some(temperature) => {
            match parse_part_range(bytes, i + 1, hi) {
                None => Err(ConfigError::InvalidFanSpeed),
                Some(fan_speed) => {
                    if temperature > MAX_TEMPERATURE {
                        Err(ConfigError::TemperatureTooHigh)
                    } else if fan_speed > MAX_FAN_SPEED {
                        Err(ConfigError::FanSpeedTooHigh)
                    } else {
                        Ok(TempFanPair { temperature, fan_speed })
                    }
                },
            }
        },
    }
}

/// Parses one curve entry already split into its parts: exactly two,
/// the temperature and the fan speed, each a trimmed in-range unsigned
/// decimal number.
pub fn parse_temperature_fan_speed_parts(parts: &[&str]) -> (r: Result<TempFanPair, ConfigError>)
    ensures
        parts@.len() != 2 ==> r == Result::<TempFanPair, ConfigError>::Err(ConfigError::PairFormat),
        parts@.len() == 2 ==> r == pair_spec(parts@[0].spec_bytes(), parts@[1].spec_bytes()),
{
    if parts.len() != 2 {
        return Err(ConfigError::PairFormat);
    }
    let temp_bytes = parts[0].as_bytes();
    let speed_bytes = parts[1].as_bytes();
    proof {
        assert(temp_bytes@.subrange(0, temp_bytes@.len() as int) =~= parts@[0].spec_bytes());
        assert(speed_bytes@.subrange(0, speed_bytes@.len() as int) =~= parts@[1].spec_bytes());
    }
    match parse_part_range(temp_bytes, 0, temp_bytes.len()) {
        None => Err(ConfigError::InvalidTemperature),
        Some(temperature) => {
            match parse_part_range(speed_bytes, 0, speed_bytes.len()) {
                None => Err(ConfigError::InvalidFanSpeed),
                Some(fan_speed) => {
                    if temperature > MAX_TEMPERATURE {
                        Err(ConfigError::TemperatureTooHigh)
                    } else if fan_speed > MAX_FAN_SPEED {
                        Err(ConfigError::FanSpeedTooHigh)
                    } else {
                        Ok(TempFanPair { temperature, fan_speed })
                    }
                },
            }
        },
    }
}

/// The entries already parsed, followed by whatever the stretches from
/// index `i` upward yield: the shape of the partially processed curve
/// specification.
pub open spec fn compose_segments(
    done: Seq<TempFanPair>,
    segs: Seq<Seq<u8>>,
    i: int,
) -> Result<Seq<TempFanPair>, ConfigError> {
    match segments_from_spec(segs, i) {
        Result::Ok(rest) => Ok(done + rest),
        Result::Err(e) => Err(e),
    }
}

/// Parses a whole curve specification: entries of the form
/// `temperature:fan_speed`, separated by commas.  Returns the entries in
/// order, or the first offence among them.
pub fn parse_temperature_fan_speed_pairs(pairs: &str) -> (r: Result<Vec<TempFanPair>, ConfigError>)
    ensures
        r matches Ok(v) ==> pairs_spec(pairs.spec_bytes()) == Result::<
            Seq<TempFanPair>,
            ConfigError,
        >::Ok(v@),
        r matches Err(e) ==> pairs_spec(pairs.spec_bytes()) == Result::<
            Seq<TempFanPair>,
            ConfigError,
        >::Err(e),
{
    let bytes = pairs.as_bytes();
    let ghost full = bytes@;
    let ghost segs = split_on(full, 44);
    let hi = bytes.len();

    // Split into the comma-separated stretches, as index ranges.
    let mut ranges: Vec<(usize, usize)> = Vec::new();
    let mut start: usize = 0;
    let mut i: usize = 0;
    proof {
        assert(full.skip(0) =~= full);
        assert(segs.skip(0) =~= segs);
    }
    while i < hi
        invariant
            0 <= start <= i <= hi == full.len(),
            full == bytes@,
            segs == split_on(full, 44),
            ranges@.len() <= segs.len(),
            forall|j: int|
                0 <= j < ranges@.len() ==> (#[trigger] ranges@[j]).0 <= ranges@[j].1 <= full.len()
                    && segs[j] == full.subrange(ranges@[j].0 as int, ranges@[j].1 as int),
            split_on(full.skip(start as int), 44) == segs.skip(ranges@.len() as int),
            forall|j: int| start <= j < i ==> full[j] != 44,
        decreases hi - i,
    {
        if bytes[i] == 44 {
            let ghost rem = full.skip(start as int);
            proof {
                let k = ranges@.len() as int;
                assert forall|j: int| 0 <= j < i - start implies rem[j] != 44 by {
                    assert(rem[j] == full[start + j]);
                }
                assert(rem[i - start] == full[i as int]);
                lemma_split_at_first_sep(rem, 44, i - start);
                assert(rem.take(i - start) =~= full.subrange(start as int, i as int));
                assert(rem.skip(i - start + 1) =~= full.skip(i + 1));
                let tail_split = split_on(full.skip(i + 1), 44);
                assert(segs.skip(k) == seq![full.subrange(start as int, i as int)] + tail_split);
                assert(segs.skip(k).len() == segs.len() - k);
                assert(segs.skip(k)[0] == full.subrange(start as int, i as int));
                assert(segs[k] == segs.skip(k)[0]);
                assert(segs.skip(k + 1) =~= tail_split) by {
                    assert(segs.skip(k + 1).len() == tail_split.len());
                    assert forall|j: int| 0 <= j < tail_split.len() implies segs.skip(k + 1)[j]
                        == tail_split[j] by {
                        assert(segs.skip(k + 1)[j] == segs[k + 1 + j]);
                        assert(segs.skip(k)[j + 1] == segs[k + 1 + j]);
                        assert(segs.skip(k)[j + 1] == tail_split[j]);
                    }
                }
            }
            ranges.push((start, i));
            start = i + 1;
        }
        i = i + 1;
    }
    proof {
        let rem = full.skip(start as int);
        assert forall|j: int| 0 <= j < rem.len() implies rem[j] != 44 by {
            assert(rem[j] == full[start + j]);
        }
        lemma_split_no_sep(rem, 44);
        let k = ranges@.len() as int;
        assert(segs.skip(k) == seq![rem]);
        assert(segs.skip(k).len() == segs.len() - k);
        assert(segs.len() == k + 1);
        assert(segs.skip(k)[0] == rem);
        assert(segs[k] == segs.skip(k)[0]);
        assert(rem =~= full.subrange(start as int, hi as int));
    }
    ranges.push((start, hi));

    // Parse each stretch in order, stopping at the first offence.
    let mut result: Vec<TempFanPair> = Vec::new();
    let mut s_i: usize = 0;
    proof {
        if segments_from_spec(segs, 0) is Ok {
            let rest = segments_from_spec(segs, 0)->Ok_0;
            assert(Seq::<TempFanPair>::empty() + rest =~= rest);
        }
    }
    while s_i < ranges.len()
        invariant
            full == bytes@,
            full == pairs.spec_bytes(),
            segs == split_on(full, 44),
            ranges@.len() == segs.len(),
            0 <= s_i <= ranges@.len(),
            result@.len() == s_i,
            forall|j: int|
                0 <= j < ranges@.len() ==> (#[trigger] ranges@[j]).0 <= ranges@[j].1 <= full.len()
                    && segs[j] == full.subrange(ranges@[j].0 as int, ranges@[j].1 as int),
            segments_from_spec(segs, 0) == compose_segments(result@, segs, s_i as int),
        decreases ranges@.len() - s_i,
    {
        let (lo_s, hi_s) = ranges[s_i];
        proof {
            assert(segs[s_i as int] == full.subrange(lo_s as int, hi_s as int));
        }
        match parse_segment_range(bytes, lo_s, hi_s) {
            Err(e) => {
                proof {
                    assert(segments_from_spec(segs, s_i as int) == Result::<
                        Seq<TempFanPair>,
                        ConfigError,
                    >::Err(e));
                }
                return Err(e);
            },
            Ok(p) => {
                let ghost old_res = result@;
                result.push(p);
                proof {
                    let k = s_i as int;
                    assert(result@ =~= old_res + seq![p]);
                    if segments_from_spec(segs, k + 1) is Ok {
                        let rest = segments_from_spec(segs, k + 1)->Ok_0;
                        assert(old_res + (seq![p] + rest) =~= (old_res + seq![p]) + rest);
                    }
                }
            },
        }
        s_i = s_i + 1;
    }
    proof {
        assert(result@ + Seq::<TempFanPair>::empty() =~= result@);
    }
    Ok(result)
}

/// The verdict on an update-period string: its numeric value, when it is
/// an unsigned decimal number no longer than the configured maximum.
pub open spec fn period_spec(s: Seq<u8>) -> Result<u64, ConfigError> {
    match parse_u64_spec(s) {
        Option::None => Err(ConfigError::InvalidPeriod),
        Option::Some(p) => if p > MAX_FAN_SPEED_UPDATE_PERIOD {
            Err(ConfigError::PeriodTooLong)
        } else {
            Ok(p)
        },
    }
}

/// The value of a signed decimal number that fits an `i32`: one optional
/// leading `+` or `-`, then digits.
pub open spec fn parse_i32_spec(s: Seq<u8>) -> Option<i32> {
    let neg = s.len() > 0 && s[0] == 45;
    let ds = if s.len() > 0 && (s[0] == 45 || s[0] == 43) {
        s.drop_first()
    } else {
        s
    };
    if ds.len() > 0 && all_digits(ds) {
        if neg && -dec_val(ds) >= i32::MIN {
            Some((-dec_val(ds)) as i32)
        } else if !neg && dec_val(ds) <= i32::MAX {
            Some(dec_val(ds) as i32)
        } else {
            None
        }
    } else {
        None
    }
}

/// The verdict on a driver version string: its major version — the part
/// before the first `.`, a signed decimal number — must be at least
/// `MIN_DRIVER_VERSION_MAJOR`.
pub open spec fn driver_check_spec(s: Seq<u8>) -> Result<(), ConfigError> {
    match parse_i32_spec(split_on(s, 46)[0]) {
        Option::None => Err(ConfigError::InvalidDriverVersion),
        Option::Some(m) => if m < MIN_DRIVER_VERSION_MAJOR {
            Err(ConfigError::DriverTooOld)
        } else {
            Ok(())
        },
    }
}

/// Checks that the driver is recent enough: the major version named
/// before the first `.` of `driver_version` must parse and be at least
/// `MIN_DRIVER_VERSION_MAJOR`.
pub fn check_driver_version(driver_version: &str) -> (r: Result<(), ConfigError>)
    ensures
        r == driver_check_spec(driver_version.spec_bytes()),
{
    let bytes = driver_version.as_bytes();
    let ghost full = bytes@;
    let ghost major = split_on(full, 46)[0];
    let hi = bytes.len();

    let mut k: usize = 0;
    while k < hi && bytes[k] != 46
        invariant
            0 <= k <= hi <= bytes@.len(),
            full == bytes@,
            full == driver_version.spec_bytes(),
            hi == bytes@.len(),
            forall|j: int| 0 <= j < k ==> full[j] != 46,
        decreases hi - k,
    {
        k = k + 1;
    }
    proof {
        if k < hi {
            lemma_split_at_first_sep(full, 46, k as int);
        } else {
            lemma_split_no_sep(full, 46);
        }
        assert(major == full.take(k as int));
        assert(full.take(k as int) =~= full.subrange(0, k as int));
    }

    if k > 0 && bytes[0] == 45 {
        proof {
            assert(major[0] == 45);
            assert(major.drop_first() =~= full.subrange(1, k as int));
        }
        match parse_digits_range(bytes, 1, k) {
            None => Err(ConfigError::InvalidDriverVersion),
            Some(v) => {
                if v <= 2147483648 {
                    Err(ConfigError::DriverTooOld)
                } else {
                    Err(ConfigError::InvalidDriverVersion)
                }
            },
        }
    } else {
        match parse_number_range(bytes, 0, k) {
            None => Err(ConfigError::InvalidDriverVersion),
            Some(v) => {
                if v > i32::MAX as u64 {
                    Err(ConfigError::InvalidDriverVersion)
                } else if (v as i32) < MIN_DRIVER_VERSION_MAJOR {
                    Err(ConfigError::DriverTooOld)
                } else {
                    Ok(())
                }
            },
        }
    }
}

/// Parses and bounds the fan-speed update period: the number of seconds
/// when `value` is an unsigned decimal number of at most
/// `MAX_FAN_SPEED_UPDATE_PERIOD`, the exact offence otherwise.
pub fn validate_fan_speed_update_period(value: &str) -> (r: Result<u64, ConfigError>)
    ensures
        r == period_spec(value.spec_bytes()),
{
    let bytes = value.as_bytes();
    proof {
        assert(bytes@.subrange(0, bytes@.len() as int) =~= value.spec_bytes());
    }
    match parse_number_range(bytes, 0, bytes.len()) {
        None => Err(ConfigError::InvalidPeriod),
        Some(p) => {
            if p > MAX_FAN_SPEED_UPDATE_PERIOD {
                Err(ConfigError::PeriodTooLong)
            } else {
                Ok(p)
            }
        },
    }
}

} // verus!
