//! StringIDs: the keys of the text and audio tables (`TITLE_<lang>`, `SUMMARY_<lang>`,
//! `PAGE_<index>_<lang>`).
use vstd::prelude::*;
use vstd::string::*;

verus! {

pub open spec fn is_digit(c: char) -> bool {
    '0' <= c && c <= '9'
}

pub open spec fn digit_char(d: nat) -> char {
    (('0' as u32) + (d % 10) as u32) as char
}

/// Decimal rendering of a natural number, without leading zeros.
pub open spec fn decimal_of(n: nat) -> Seq<char>
    decreases n,
{
    if n < 10 {
        seq![digit_char(n)]
    } else {
        decimal_of(n / 10).push(digit_char(n % 10))
    }
}

pub open spec fn page_prefix() -> Seq<char> {
    seq!['P', 'A', 'G', 'E', '_']
}

pub open spec fn title_prefix() -> Seq<char> {
    seq!['T', 'I', 'T', 'L', 'E', '_']
}

pub open spec fn summary_prefix() -> Seq<char> {
    seq!['S', 'U', 'M', 'M', 'A', 'R', 'Y', '_']
}

/// `PAGE_<page>_<lang>`
pub open spec fn page_id(page: nat, lang: Seq<char>) -> Seq<char> {
    page_prefix() + decimal_of(page) + seq!['_'] + lang
}

/// `TITLE_<lang>`
pub open spec fn title_id(lang: Seq<char>) -> Seq<char> {
    title_prefix() + lang
}

/// `SUMMARY_<lang>`
pub open spec fn summary_id(lang: Seq<char>) -> Seq<char> {
    summary_prefix() + lang
}

pub proof fn lemma_decimal_digits(n: nat)
    ensures
        decimal_of(n).len() >= 1,
        forall|i: int| 0 <= i < decimal_of(n).len() ==> is_digit(#[trigger] decimal_of(n)[i]),
    decreases n,
{
    if n >= 10 {
        lemma_decimal_digits(n / 10);
    }
}

pub proof fn lemma_digit_char_injective(x: nat, y: nat)
    requires
        digit_char(x) == digit_char(y),
    ensures
        x % 10 == y % 10,
{
    assert(digit_char(x) as u32 == ('0' as u32) + (x % 10) as u32);
    assert(digit_char(y) as u32 == ('0' as u32) + (y % 10) as u32);
}

pub proof fn lemma_decimal_injective(a: nat, b: nat)
    requires
        decimal_of(a) == decimal_of(b),
    ensures
        a == b,
    decreases a,
{
    if a >= 10 {
        lemma_decimal_digits(a / 10);
        assert(decimal_of(a) == decimal_of(a / 10).push(digit_char(a % 10)));
    }
    if b >= 10 {
        lemma_decimal_digits(b / 10);
        assert(decimal_of(b) == decimal_of(b / 10).push(digit_char(b % 10)));
    }
    if a >= 10 && b >= 10 {
        assert(decimal_of(a).drop_last() =~= decimal_of(a / 10));
        assert(decimal_of(b).drop_last() =~= decimal_of(b / 10));
        lemma_decimal_injective(a / 10, b / 10);
        assert(decimal_of(a).last() == digit_char(a % 10));
        assert(decimal_of(b).last() == digit_char(b % 10));
        lemma_digit_char_injective(a % 10, b % 10);
    } else if a < 10 && b < 10 {
        assert(decimal_of(a) == seq![digit_char(a)]);
        assert(decimal_of(b) == seq![digit_char(b)]);
        assert(decimal_of(a)[0] == digit_char(a));
        assert(decimal_of(b)[0] == digit_char(b));
        lemma_digit_char_injective(a, b);
    } else {
        assert(decimal_of(a).len() != decimal_of(b).len());
    }
}

/// Distinct (page, language) pairs get distinct page StringIDs.
pub proof fn lemma_page_id_injective(a: nat, x: Seq<char>, b: nat, y: Seq<char>)
    requires
        page_id(a, x) == page_id(b, y),
    ensures
        a == b,
        x == y,
{
    let s = page_id(a, x);
    let da = decimal_of(a);
    let la = da.len() as int;
    let db = decimal_of(b);
    let lb = db.len() as int;
    lemma_decimal_digits(a);
    lemma_decimal_digits(b);
    if da.len() < db.len() {
        assert(s[5 + la] == '_');
        assert(page_id(b, y)[5 + la] == db[la]);
    } else if db.len() < da.len() {
        assert(page_id(b, y)[5 + lb] == '_');
        assert(s[5 + lb] == da[lb]);
    }
    assert(da.len() == db.len());
    assert(da =~= s.subrange(5, 5 + la));
    assert(db =~= page_id(b, y).subrange(5, 5 + lb));
    lemma_decimal_injective(a, b);
    assert(x =~= s.subrange(6 + la, s.len() as int));
    assert(y =~= page_id(b, y).subrange(6 + lb, s.len() as int));
}

pub proof fn lemma_title_id_injective(x: Seq<char>, y: Seq<char>)
    requires
        title_id(x) == title_id(y),
    ensures
        x == y,
{
    assert(x =~= title_id(x).subrange(6, title_id(x).len() as int));
    assert(y =~= title_id(y).subrange(6, title_id(y).len() as int));
}

pub proof fn lemma_summary_id_injective(x: Seq<char>, y: Seq<char>)
    requires
        summary_id(x) == summary_id(y),
    ensures
        x == y,
{
    assert(x =~= summary_id(x).subrange(8, summary_id(x).len() as int));
    assert(y =~= summary_id(y).subrange(8, summary_id(y).len() as int));
}

/// StringIDs of different kinds never coincide: they differ in their first character.
pub proof fn lemma_id_kinds_differ(p: nat, x: Seq<char>, y: Seq<char>, z: Seq<char>)
    ensures
        page_id(p, x) != title_id(y),
        page_id(p, x) != summary_id(z),
        title_id(y) != summary_id(z),
{
    assert(page_id(p, x)[0] == 'P');
    assert(title_id(y)[0] == 'T');
    assert(summary_id(z)[0] == 'S');
}

fn digit_str(d: usize) -> (r: &'static str)
    requires
        d < 10,
    ensures
        r@ == seq![digit_char(d as nat)],
{
    proof {
        reveal_strlit("0");
        reveal_strlit("1");
        reveal_strlit("2");
        reveal_strlit("3");
        reveal_strlit("4");
        reveal_strlit("5");
        reveal_strlit("6");
        reveal_strlit("7");
        reveal_strlit("8");
        reveal_strlit("9");
    }
    match d {
        0 => "0",
        1 => "1",
        2 => "2",
        3 => "3",
        4 => "4",
        5 => "5",
        6 => "6",
        7 => "7",
        8 => "8",
        _ => "9",
    }
}

/// Decimal rendering of `n`.
pub fn decimal(n: usize) -> (r: String)
    ensures
        r@ == decimal_of(n as nat),
    decreases n,
{
    if n < 10 {
        String::from_str(digit_str(n))
    } else {
        let mut s = decimal(n / 10);
        s.append(digit_str(n % 10));
        s
    }
}

/// The StringID of the text or audio of page `page` in language `lang`.
pub fn page_string_id(page: usize, lang: &str) -> (r: String)
    ensures
        r@ == page_id(page as nat, lang@),
{
    proof {
        reveal_strlit("PAGE_");
        reveal_strlit("_");
    }
    let mut s = String::from_str("PAGE_");
    let d = decimal(page);
    s.append(d.as_str());
    s.append("_");
    s.append(lang);
    s
}

/// The StringID of the title in language `lang`.
pub fn title_string_id(lang: &str) -> (r: String)
    ensures
        r@ == title_id(lang@),
{
    proof {
        reveal_strlit("TITLE_");
    }
    let mut s = String::from_str("TITLE_");
    s.append(lang);
    s
}

/// The StringID of the summary in language `lang`.
pub fn summary_string_id(lang: &str) -> (r: String)
    ensures
        r@ == summary_id(lang@),
{
    proof {
        reveal_strlit("SUMMARY_");
    }
    let mut s = String::from_str("SUMMARY_");
    s.append(lang);
    s
}

} // verus!
