use vstd::prelude::*;
use vstd::string::StrSliceExecFns;

use crate::error::Errors;

verus! {

/// `c` is one of `0` to `9`.
pub open spec fn is_digit(c: char) -> bool {
    '0' <= c && c <= '9'
}

/// The value of a decimal digit.
pub open spec fn digit_value(c: char) -> int {
    c as int - '0' as int
}

/// Every character of `s` is a decimal digit.
pub open spec fn all_digits(s: Seq<char>) -> bool {
    forall|i: int| 0 <= i < s.len() ==> is_digit(#[trigger] s[i])
}

/// The number that the decimal digits `s` spell.
pub open spec fn decimal_value(s: Seq<char>) -> int
    decreases s.len(),
{
    if s.len() == 0 {
        0
    } else {
        decimal_value(s.drop_last()) * 10 + digit_value(s.last())
    }
}

/// The digits of a decimal text: the text without a leading `+`, if the text
/// has more than that sign.
pub open spec fn unsigned_digits(s: Seq<char>) -> Seq<char> {
    if s.len() > 1 && s[0] == '+' {
        s.subrange(1, s.len() as int)
    } else {
        s
    }
}

/// The integer that a string denotes as an unsigned 64-bit decimal: an
/// optional `+`, then one or more digits, with a value that fits.
pub open spec fn parse_u64(s: Seq<char>) -> Option<u64> {
    let digits = unsigned_digits(s);
    if digits.len() == 0 || !all_digits(digits) || decimal_value(digits) > u64::MAX {
        None
    } else {
        Some(decimal_value(digits) as u64)
    }
}

/// The character of the digit `d`.
pub open spec fn digit_char(d: int) -> char {
    if d == 0 {
        '0'
    } else if d == 1 {
        '1'
    } else if d == 2 {
        '2'
    } else if d == 3 {
        '3'
    } else if d == 4 {
        '4'
    } else if d == 5 {
        '5'
    } else if d == 6 {
        '6'
    } else if d == 7 {
        '7'
    } else if d == 8 {
        '8'
    } else {
        '9'
    }
}

/// The canonical decimal form of `n`.
pub open spec fn decimal_of(n: nat) -> Seq<char>
    decreases n,
{
    if n < 10 {
        seq![digit_char(n as int)]
    } else {
        decimal_of(n / 10).push(digit_char((n % 10) as int))
    }
}

/// A prefix of a digit string is worth no more than the whole.
proof fn lemma_decimal_prefix_le(s: Seq<char>, k: int)
    requires
        all_digits(s),
        0 <= k <= s.len(),
    ensures
        decimal_value(s.subrange(0, k)) <= decimal_value(s),
        decimal_value(s) >= 0,
    decreases s.len(),
{
    if s.len() > 0 {
        let init = s.drop_last();
        assert(all_digits(init)) by {
            assert forall|i: int| 0 <= i < init.len() implies is_digit(#[trigger] init[i]) by {
                assert(init[i] == s[i]);
            }
        }
        assert(is_digit(s[s.len() - 1]));
        if k < s.len() {
            lemma_decimal_prefix_le(init, k);
            assert(init.subrange(0, k) =~= s.subrange(0, k));
        } else {
            lemma_decimal_prefix_le(init, 0);
            assert(s.subrange(0, k) =~= s);
        }
    } else {
        assert(s.subrange(0, k) =~= s);
    }
}

proof fn lemma_digit_char(d: int)
    requires
        0 <= d < 10,
    ensures
        is_digit(digit_char(d)),
        digit_value(digit_char(d)) == d,
{
}

proof fn lemma_decimal_of(n: nat)
    ensures
        decimal_of(n).len() > 0,
        all_digits(decimal_of(n)),
        decimal_value(decimal_of(n)) == n,
        decimal_of(n)[0] != '+',
    decreases n,
{
    lemma_digit_char((n % 10) as int);
    if n < 10 {
        assert(decimal_of(n).drop_last() =~= Seq::<char>::empty());
        assert(decimal_value(Seq::<char>::empty()) == 0);
    } else {
        lemma_decimal_of(n / 10);
        let s = decimal_of(n);
        assert(s.drop_last() =~= decimal_of(n / 10));
        assert((n / 10) * 10 + n % 10 == n);
        assert forall|i: int| 0 <= i < s.len() implies is_digit(#[trigger] s[i]) by {
            if i < s.len() - 1 {
                assert(s[i] == decimal_of(n / 10)[i]);
            }
        }
    }
}

/// The decimal text of any unsigned 64-bit number normalizes to that number,
/// as the number itself does; an empty text normalizes to nothing.
pub proof fn lemma_string_and_number_ids_agree(n: u64, text: NcmId, number: NcmId)
    requires
        text matches NcmId::String(s) && s@ == decimal_of(n as nat),
        number == NcmId::Integer(n),
    ensures
        id_value(text) == Some(n),
        id_value(number) == Some(n),
        id_value(text) == id_value(number),
        parse_u64(Seq::<char>::empty()) is None,
{
    lemma_decimal_of(n as nat);
}

/// An identifier as JSON writes it: a string or a number.
#[derive(Debug, PartialEq, Eq)]
pub enum NcmId {
    String(String),
    Integer(u64),
}

/// The number that an identifier stands for, if any.
pub open spec fn id_value(id: NcmId) -> Option<u64> {
    match id {
        NcmId::String(s) => parse_u64(s@),
        NcmId::Integer(n) => Some(n),
    }
}

/// The number of an identifier, or 0 where it has none.
pub open spec fn id_or_zero(id: NcmId) -> u64 {
    match id_value(id) {
        Some(v) => v,
        None => 0,
    }
}

/// Parses an unsigned 64-bit decimal as `u64::from_str` does.
fn parse_decimal(s: &str) -> (r: Option<u64>)
    ensures
        r == parse_u64(s@),
{
    let n = s.unicode_len();
    if n == 0 {
        return None;
    }
    let mut i: usize = 0;
    if n > 1 && s.get_char(0) == '+' {
        i = 1;
    }
    let first = i;
    let ghost digits = unsigned_digits(s@);
    assert(digits =~= s@.subrange(first as int, n as int));
    if first == n {
        return None;
    }
    let mut acc: u64 = 0;
    while i < n
        invariant
            first <= i <= n,
            n == s@.len(),
            digits =~= s@.subrange(first as int, n as int),
            digits == unsigned_digits(s@),
            all_digits(digits.subrange(0, i - first)),
            acc == decimal_value(digits.subrange(0, i - first)),
        decreases n - i,
    {
        let c = s.get_char(i);
        let ghost k = i - first;
        assert(digits.subrange(0, k + 1).drop_last() =~= digits.subrange(0, k));
        assert(digits[k] == c);
        if !(c >= '0' && c <= '9') {
            assert(!is_digit(digits[k]));
            assert(!all_digits(digits));
            return None;
        }
        let d: u64 = (c as u32 - '0' as u32) as u64;
        if acc > (u64::MAX - d) / 10 {
            proof {
                assert(acc * 10 + d > u64::MAX) by (nonlinear_arith)
                    requires
                        acc > (u64::MAX - d) / 10,
                        d <= 9,
                ;
                assert(digit_value(c) == d);
                assert(decimal_value(digits.subrange(0, k + 1)) == acc * 10 + d);
                if all_digits(digits) {
                    lemma_decimal_prefix_le(digits, k + 1);
                }
            }
            return None;
        }
        acc = acc * 10 + d;
        i = i + 1;
        proof {
            assert forall|t: int| 0 <= t < k + 1 implies is_digit(
                #[trigger] digits.subrange(0, k + 1)[t],
            ) by {
                if t < k {
                    assert(digits.subrange(0, k + 1)[t] == digits.subrange(0, k)[t]);
                }
            }
        }
    }
    assert(digits.subrange(0, n - first) =~= digits);
    Some(acc)
}

impl NcmId {
    /// Normalizes the identifier: a number as it is, a string that holds an
    /// unsigned 64-bit decimal as its value; any other string is an error.
    pub fn get_id(&self) -> (r: Result<u64, Errors>)
        ensures
            match id_value(*self) {
                Some(v) => r == Ok::<u64, Errors>(v),
                None => r == Err::<u64, Errors>(Errors::InfoDecodeError),
            },
    {
        match self {
            NcmId::String(s) => {
                if s.as_str().unicode_len() == 0 {
                    return Err(Errors::InfoDecodeError);
                }
                match parse_decimal(s.as_str()) {
                    Some(v) => Ok(v),
                    None => Err(Errors::InfoDecodeError),
                }
            },
            NcmId::Integer(num) => Ok(*num),
        }
    }
}

/// Track information as the metadata JSON holds it.
#[derive(Debug, PartialEq, Eq)]
pub struct RawNcmInfo {
    /// The name of the track.
    pub name: String,
    /// The identifier of the track.
    pub id: NcmId,
    /// The album.
    pub album: String,
    /// The artists: name and identifier.
    pub artist: Vec<(String, NcmId)>,
    /// The bit rate.
    pub bitrate: NcmId,
    /// The duration.
    pub duration: NcmId,
    /// The audio format, such as `mp3` or `flac`.
    pub format: String,
    /// The identifier of the music video.
    pub mv_id: Option<NcmId>,
    /// The alias names.
    pub alias: Option<Vec<String>>,
}

/// Track information with every identifier normalized to an integer.
#[derive(Debug, PartialEq, Eq)]
pub struct NcmInfo {
    /// The name of the track.
    pub name: String,
    /// The identifier of the track.
    pub id: u64,
    /// The album.
    pub album: String,
    /// The artists: name and identifier.
    pub artist: Vec<(String, u64)>,
    /// The bit rate.
    pub bitrate: u64,
    /// The duration.
    pub duration: u64,
    /// The audio format, such as `mp3` or `flac`.
    pub format: String,
    /// The identifier of the music video.
    pub mv_id: Option<u64>,
    /// The alias names.
    pub alias: Option<Vec<String>>,
}

/// The identifier of the music video, where it normalizes.
pub open spec fn mv_id_of(mv_id: Option<NcmId>) -> Option<u64> {
    match mv_id {
        Some(id) => id_value(id),
        None => None,
    }
}

impl NcmInfo {
    /// Normalizes the identifiers of `raw`. An identifier that does not
    /// normalize becomes 0; a music-video identifier that does not becomes
    /// `None`.
    pub fn from(raw: RawNcmInfo) -> (r: NcmInfo)
        ensures
            r.name == raw.name,
            r.id == id_or_zero(raw.id),
            r.album == raw.album,
            r.artist@.len() == raw.artist@.len(),
            forall|i: int|
                0 <= i < r.artist@.len() ==> (#[trigger] r.artist@[i]).0@ == raw.artist@[i].0@
                    && r.artist@[i].1 == id_or_zero(raw.artist@[i].1),
            r.bitrate == id_or_zero(raw.bitrate),
            r.duration == id_or_zero(raw.duration),
            r.format == raw.format,
            r.mv_id == mv_id_of(raw.mv_id),
            r.alias == raw.alias,
    {
        let RawNcmInfo { name, id, album, artist, bitrate, duration, format, mv_id, alias } = raw;
        let mut artists: Vec<(String, u64)> = Vec::new();
        let mut i: usize = 0;
        while i < artist.len()
            invariant
                artist == raw.artist,
                i <= artist@.len(),
                artists@.len() == i,
                forall|t: int|
                    0 <= t < i ==> (#[trigger] artists@[t]).0@ == artist@[t].0@ && artists@[t].1
                        == id_or_zero(artist@[t].1),
            decreases artist@.len() - i,
        {
            let artist_name = artist[i].0.clone();
            let artist_id = match artist[i].1.get_id() {
                Ok(v) => v,
                Err(_) => 0,
            };
            artists.push((artist_name, artist_id));
            i = i + 1;
        }
        let mv = match &mv_id {
            Some(v) => match v.get_id() {
                Ok(x) => Some(x),
                Err(_) => None,
            },
            None => None,
        };
        NcmInfo {
            name,
            id: match id.get_id() {
                Ok(v) => v,
                Err(_) => 0,
            },
            album,
            artist: artists,
            bitrate: match bitrate.get_id() {
                Ok(v) => v,
                Err(_) => 0,
            },
            duration: match duration.get_id() {
                Ok(v) => v,
                Err(_) => 0,
            },
            format,
            mv_id: mv,
            alias,
        }
    }
}

} // verus!
