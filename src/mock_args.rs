//! Options of the mock-flipbook generator: languages, image size and page range, and
//! how the latter two are read from text such as "640,480".
use vstd::prelude::*;
use vstd::string::*;
use crate::paths::last_index_of;

verus! {

/// A language the mock generator produces texts and speech in.
#[derive(Clone, Copy, Debug, PartialEq, Eq, Hash, Structural)]
pub enum Language {
    English,
    Spanish,
    Swedish,
}

/// How many languages there are.
pub const LANGUAGE_COUNT: usize = 3;

pub open spec fn all_languages() -> Seq<Language> {
    seq![Language::English, Language::Spanish, Language::Swedish]
}

pub open spec fn language_name(l: Language) -> Seq<char> {
    match l {
        Language::English => seq!['E', 'n', 'g', 'l', 'i', 's', 'h'],
        Language::Spanish => seq!['S', 'p', 'a', 'n', 'i', 's', 'h'],
        Language::Swedish => seq!['S', 'w', 'e', 'd', 'i', 's', 'h'],
    }
}

impl Language {
    /// Every language, in declaration order.
    pub fn all() -> (r: Vec<Language>)
        ensures
            r@ == all_languages(),
            r@.len() == LANGUAGE_COUNT,
    {
        let r = vec![Language::English, Language::Spanish, Language::Swedish];
        assert(r@ =~= all_languages());
        r
    }

    /// The language's name, which also serves as its language code and file prefix.
    pub fn name(&self) -> (r: String)
        ensures
            r@ == language_name(*self),
    {
        proof {
            reveal_strlit("English");
            reveal_strlit("Spanish");
            reveal_strlit("Swedish");
        }
        match self {
            Language::English => String::from_str("English"),
            Language::Spanish => String::from_str("Spanish"),
            Language::Swedish => String::from_str("Swedish"),
        }
    }
}

/// Why an option value was refused.
#[derive(Clone, Copy, Debug, PartialEq, Eq, Structural)]
pub enum InvalidValue {
    /// Not two comma-separated numbers in 0..=65535.
    NotAPair,
    /// A page range that is empty of pages or whose maximum is below its minimum.
    BadRange,
}

/// A character of Unicode's White_Space property.
pub open spec fn is_white_space(c: char) -> bool {
    let u = c as u32;
    ||| 0x9 <= u <= 0xd
    ||| u == 0x20
    ||| u == 0x85
    ||| u == 0xa0
    ||| u == 0x1680
    ||| 0x2000 <= u <= 0x200a
    ||| u == 0x2028
    ||| u == 0x2029
    ||| u == 0x202f
    ||| u == 0x205f
    ||| u == 0x3000
}

/// The text without its leading white space.
pub open spec fn trim_start_of(s: Seq<char>) -> Seq<char>
    decreases s.len(),
{
    if s.len() > 0 && is_white_space(s[0]) {
        trim_start_of(s.skip(1))
    } else {
        s
    }
}

/// The text without its trailing white space.
pub open spec fn trim_end_of(s: Seq<char>) -> Seq<char>
    decreases s.len(),
{
    if s.len() > 0 && is_white_space(s.last()) {
        trim_end_of(s.drop_last())
    } else {
        s
    }
}

/// The text without its leading and trailing white space.
pub open spec fn trimmed(s: Seq<char>) -> Seq<char> {
    trim_end_of(trim_start_of(s))
}

#[verifier::external_body]
fn trim(s: &str) -> (r: &str)
    ensures
        r@ == trimmed(s@),
{
    s.trim()
}

pub open spec fn is_digit(c: char) -> bool {
    '0' <= c && c <= '9'
}

/// The value of a string of decimal digits.
pub open spec fn digits_value(s: Seq<char>) -> nat
    decreases s.len(),
{
    if s.len() == 0 {
        0
    } else {
        digits_value(s.drop_last()) * 10 + ((s.last() as u32 - '0' as u32) as nat)
    }
}

/// The text without its leading '+', if it has one.
pub open spec fn unsigned_part(s: Seq<char>) -> Seq<char> {
    if s.len() > 0 && s[0] == '+' {
        s.skip(1)
    } else {
        s
    }
}

/// What `u16::from_str` gives: an optional '+', then one or more digits whose value fits.
pub open spec fn parse_u16(s: Seq<char>) -> Option<u16> {
    let d = unsigned_part(s);
    if d.len() > 0 && (forall|i: int| 0 <= i < d.len() ==> is_digit(#[trigger] d[i])) && digits_value(d)
        <= 65535 {
        Some(digits_value(d) as u16)
    } else {
        None
    }
}

/// Two numbers separated by the only comma of the text, each with surrounding whitespace.
pub open spec fn parse_pair(s: Seq<char>) -> Option<(u16, u16)> {
    let i = last_index_of(s, ',');
    if i < 0 || last_index_of(s.take(i), ',') >= 0 {
        None
    } else {
        match (parse_u16(trimmed(s.take(i))), parse_u16(trimmed(s.skip(i + 1)))) {
            (Some(a), Some(b)) => Some((a, b)),
            _ => None,
        }
    }
}

pub proof fn lemma_digits_value_prefix(s: Seq<char>, k: int)
    requires
        0 <= k <= s.len(),
    ensures
        digits_value(s.take(k)) <= digits_value(s),
    decreases s.len() - k,
{
    if k < s.len() {
        lemma_digits_value_prefix(s, k + 1);
        assert(s.take(k + 1).drop_last() =~= s.take(k));
    } else {
        assert(s.take(k) =~= s);
    }
}

/// Reads a number in 0..=65535 as `u16::from_str` does.
pub fn parse_number(s: &str) -> (r: Option<u16>)
    ensures
        r == parse_u16(s@),
{
    let n = s.unicode_len();
    let start: usize = if n > 0 && s.get_char(0) == '+' {
        1
    } else {
        0
    };
    let ghost d = unsigned_part(s@);
    assert(d =~= s@.subrange(start as int, n as int));
    if start == n {
        return None;
    }
    let mut acc: u32 = 0;
    let mut i: usize = start;
    while i < n
        invariant
            start <= i <= n,
            n == s@.len(),
            d =~= s@.subrange(start as int, n as int),
            d == unsigned_part(s@),
            forall|k: int| 0 <= k < i - start ==> is_digit(#[trigger] d[k]),
            acc == digits_value(d.take(i - start)),
            acc <= 65535,
        decreases n - i,
    {
        let c = s.get_char(i);
        assert(d[i - start] == c);
        if c < '0' || c > '9' {
            assert(!is_digit(d[i - start]));
            return None;
        }
        let v = (c as u32) - ('0' as u32);
        assert(d.take(i - start + 1).drop_last() =~= d.take(i - start));
        assert(d.take(i - start + 1).last() == c);
        assert(digits_value(d.take(i - start + 1)) == acc * 10 + v);
        if acc * 10 + v > 65535 {
            proof {
                lemma_digits_value_prefix(d, i - start + 1);
            }
            return None;
        }
        acc = acc * 10 + v;
        i = i + 1;
    }
    assert(d.take(n - start) =~= d);
    Some(acc as u16)
}

/// Reads "a,b" into the pair `(a, b)`.
pub fn parse_number_pair(s: &str) -> (r: Option<(u16, u16)>)
    ensures
        r == parse_pair(s@),
{
    let n = s.unicode_len();
    match crate::paths::find_last(s, ',') {
        None => None,
        Some(i) => {
            let head = s.substring_char(0, i);
            assert(head@ =~= s@.take(i as int));
            if crate::paths::find_last(head, ',').is_some() {
                return None;
            }
            let tail = s.substring_char(i + 1, n);
            assert(tail@ =~= s@.skip(i + 1));
            let a = parse_number(trim(head));
            let b = parse_number(trim(tail));
            match (a, b) {
                (Some(x), Some(y)) => Some((x, y)),
                _ => None,
            }
        },
    }
}

/// Width and height, in pixels, of the mock images.
#[derive(Clone, Debug)]
pub struct ImageSize {
    pub width: u16,
    pub height: u16,
}

impl ImageSize {
    /// 1080 wide, 1920 high.
    pub fn default() -> (r: ImageSize)
        ensures
            r.width == 1080 && r.height == 1920,
    {
        ImageSize { width: 1080, height: 1920 }
    }

    /// Reads "width,height".
    pub fn from_str(s: &str) -> (r: Result<ImageSize, InvalidValue>)
        ensures
            match parse_pair(s@) {
                Some((w, h)) => r matches Ok(v) && v.width == w && v.height == h,
                None => r == Err::<ImageSize, InvalidValue>(InvalidValue::NotAPair),
            },
    {
        match parse_number_pair(s) {
            Some((w, h)) => Ok(ImageSize { width: w, height: h }),
            None => Err(InvalidValue::NotAPair),
        }
    }

    /// "width,height", as `from_str` reads it.
    pub fn to_string(&self) -> (r: String)
        ensures
            r@ == crate::string_id::decimal_of(self.width as nat) + seq![','] + crate::string_id::decimal_of(
                self.height as nat,
            ),
    {
        pair_text(self.width, self.height)
    }
}

fn pair_text(a: u16, b: u16) -> (r: String)
    ensures
        r@ == crate::string_id::decimal_of(a as nat) + seq![','] + crate::string_id::decimal_of(b as nat),
{
    proof {
        reveal_strlit(",");
    }
    let mut s = crate::string_id::decimal(a as usize);
    s.append(",");
    let t = crate::string_id::decimal(b as usize);
    s.append(t.as_str());
    s
}

/// The range of page counts of the mock flipbooks: at least `min`, below `max`.
#[derive(Clone, Debug)]
pub struct PageRange {
    pub min: u16,
    pub max: u16,
}

impl PageRange {
    /// From 16 to 32 pages.
    pub fn default() -> (r: PageRange)
        ensures
            r.min == 16 && r.max == 32,
    {
        PageRange { min: 16, max: 32 }
    }

    /// Reads "min,max"; both zero, or a maximum below the minimum, is refused.
    pub fn from_str(s: &str) -> (r: Result<PageRange, InvalidValue>)
        ensures
            match parse_pair(s@) {
                Some((lo, hi)) => if (lo == 0 && hi == 0) || hi < lo {
                    r == Err::<PageRange, InvalidValue>(InvalidValue::BadRange)
                } else {
                    r matches Ok(v) && v.min == lo && v.max == hi
                },
                None => r == Err::<PageRange, InvalidValue>(InvalidValue::NotAPair),
            },
    {
        match parse_number_pair(s) {
            Some((lo, hi)) => {
                if lo == hi && lo == 0 {
                    return Err(InvalidValue::BadRange);
                }
                if hi < lo {
                    return Err(InvalidValue::BadRange);
                }
                Ok(PageRange { min: lo, max: hi })
            },
            None => Err(InvalidValue::NotAPair),
        }
    }

    /// "min,max", as `from_str` reads it.
    pub fn to_string(&self) -> (r: String)
        ensures
            r@ == crate::string_id::decimal_of(self.min as nat) + seq![','] + crate::string_id::decimal_of(
                self.max as nat,
            ),
    {
        pair_text(self.min, self.max)
    }
}

} // verus!
