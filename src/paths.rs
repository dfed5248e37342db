//! File-name handling on '/'-separated paths, written over the characters of the path.
use vstd::prelude::*;
use vstd::string::*;

verus! {

/// Index of the last occurrence of `c` in `s`, or -1 when `c` does not occur.
pub open spec fn last_index_of(s: Seq<char>, c: char) -> int
    decreases s.len(),
{
    if s.len() == 0 {
        -1
    } else if s.last() == c {
        s.len() - 1
    } else {
        last_index_of(s.drop_last(), c)
    }
}

/// What follows the last '/' of the path (the whole path when it has none).
pub open spec fn last_component(p: Seq<char>) -> Seq<char> {
    p.subrange(last_index_of(p, '/') + 1, p.len() as int)
}

/// The path without its trailing separators and trailing "." components
/// (`foo.txt/.//` becomes `foo.txt`).
pub open spec fn trim_tail(p: Seq<char>) -> Seq<char>
    decreases p.len(),
{
    if p.len() > 0 && p.last() == '/' {
        trim_tail(p.drop_last())
    } else if p.len() >= 2 && p.last() == '.' && p[p.len() - 2] == '/' {
        trim_tail(p.drop_last())
    } else {
        p
    }
}

/// The file-name component of a path: its last component once trailing separators and
/// "." components are dropped; none when that is empty, "." or "..".
pub open spec fn file_name_of(p: Seq<char>) -> Option<Seq<char>> {
    let c = last_component(trim_tail(p));
    if c.len() == 0 || c == seq!['.'] || c == seq!['.', '.'] {
        None
    } else {
        Some(c)
    }
}

/// The extension of a path: what follows the last '.' of its file name, where that dot
/// is not the name's first character.
pub open spec fn extension_of(p: Seq<char>) -> Option<Seq<char>> {
    match file_name_of(p) {
        None => None,
        Some(n) => {
            let d = last_index_of(n, '.');
            if d > 0 {
                Some(n.subrange(d + 1, n.len() as int))
            } else {
                None
            }
        },
    }
}

/// The file name without its extension (and without the dot before it).
pub open spec fn stem_of(p: Seq<char>) -> Option<Seq<char>> {
    match file_name_of(p) {
        None => None,
        Some(n) => {
            let d = last_index_of(n, '.');
            if d > 0 {
                Some(n.subrange(0, d))
            } else {
                Some(n)
            }
        },
    }
}

pub open spec fn ascii_lower_char(c: char) -> char {
    if 'A' <= c && c <= 'Z' {
        ((c as u32) + 32) as char
    } else {
        c
    }
}

pub open spec fn ascii_lower(s: Seq<char>) -> Seq<char> {
    Seq::new(s.len(), |i: int| ascii_lower_char(s[i]))
}

/// The format tag of an asset: its extension in lower case, when it has a non-empty one.
pub open spec fn format_of(p: Seq<char>) -> Option<Seq<char>> {
    match extension_of(p) {
        Some(e) => if e.len() > 0 {
            Some(ascii_lower(e))
        } else {
            None
        },
        None => None,
    }
}

/// Relies on str::to_ascii_lowercase: 'A'..='Z' become 'a'..='z', every other char stays.
#[verifier::external_body]
fn to_ascii_lower(s: &str) -> (r: String)
    ensures
        r@ == ascii_lower(s@),
{
    s.to_ascii_lowercase()
}

/// Position of the last `c` in `s`.
pub fn find_last(s: &str, c: char) -> (r: Option<usize>)
    ensures
        match r {
            Some(i) => i as int == last_index_of(s@, c) && i < s@.len() && s@[i as int] == c,
            None => last_index_of(s@, c) == -1,
        },
{
    let n = s.unicode_len();
    let mut i: usize = n;
    assert(s@.subrange(0, n as int) =~= s@);
    while i > 0
        invariant
            i <= n,
            n == s@.len(),
            last_index_of(s@, c) == last_index_of(s@.subrange(0, i as int), c),
        decreases i,
    {
        let ghost prefix = s@.subrange(0, i as int);
        assert(prefix.drop_last() =~= s@.subrange(0, i - 1));
        if s.get_char(i - 1) == c {
            return Some(i - 1);
        }
        i = i - 1;
    }
    assert(s@.subrange(0, 0).len() == 0);
    None
}

fn is_dot_name(c: &str) -> (r: bool)
    ensures
        r == (c@ == seq!['.'] || c@ == seq!['.', '.']),
{
    let n = c.unicode_len();
    if n == 1 {
        let r = c.get_char(0) == '.';
        assert(r ==> c@ =~= seq!['.']);
        assert(c@ == seq!['.'] ==> r);
        r
    } else if n == 2 {
        let r = c.get_char(0) == '.' && c.get_char(1) == '.';
        assert(r ==> c@ =~= seq!['.', '.']);
        assert(c@ == seq!['.', '.'] ==> r);
        r
    } else {
        false
    }
}

/// The file-name component of `path`.
pub fn file_name(path: &str) -> (r: Option<String>)
    ensures
        match r {
            Some(n) => file_name_of(path@) == Some(n@),
            None => file_name_of(path@) is None,
        },
{
    let mut n = path.unicode_len();
    assert(path@.take(n as int) =~= path@);
    loop
        invariant
            n <= path@.len(),
            trim_tail(path@) == trim_tail(path@.take(n as int)),
        ensures
            n <= path@.len(),
            trim_tail(path@) == path@.take(n as int),
        decreases n,
    {
        let ghost t = path@.take(n as int);
        if n > 0 && path.get_char(n - 1) == '/' {
            assert(t.drop_last() =~= path@.take(n - 1));
            n = n - 1;
        } else if n >= 2 && path.get_char(n - 1) == '.' && path.get_char(n - 2) == '/' {
            assert(t.drop_last() =~= path@.take(n - 1));
            n = n - 1;
        } else {
            proof {
                if n > 0 {
                    assert(t.last() == path@[n - 1]);
                }
                if n >= 2 {
                    assert(t[n - 2] == path@[n - 2]);
                }
                assert(trim_tail(t) == t);
            }
            break;
        }
    }
    let head = path.substring_char(0, n);
    assert(head@ =~= path@.take(n as int));
    let start: usize = match find_last(head, '/') {
        Some(i) => i + 1,
        None => 0,
    };
    let comp = head.substring_char(start, n);
    if comp.unicode_len() == 0 || is_dot_name(comp) {
        None
    } else {
        Some(String::from_str(comp))
    }
}

/// The extension of `path`, without its dot.
pub fn extension(path: &str) -> (r: Option<String>)
    ensures
        match r {
            Some(e) => extension_of(path@) == Some(e@),
            None => extension_of(path@) is None,
        },
{
    match file_name(path) {
        None => None,
        Some(name) => {
            let n = name.as_str().unicode_len();
            match find_last(name.as_str(), '.') {
                Some(d) => if d > 0 {
                    Some(String::from_str(name.as_str().substring_char(d + 1, n)))
                } else {
                    None
                },
                None => None,
            }
        },
    }
}

/// The file name of `path` without its extension.
pub fn file_stem(path: &str) -> (r: Option<String>)
    ensures
        match r {
            Some(s) => stem_of(path@) == Some(s@),
            None => stem_of(path@) is None,
        },
{
    match file_name(path) {
        None => None,
        Some(name) => {
            match find_last(name.as_str(), '.') {
                Some(d) => if d > 0 {
                    Some(String::from_str(name.as_str().substring_char(0, d)))
                } else {
                    Some(name)
                },
                None => Some(name),
            }
        },
    }
}

/// The format tag of an asset at `path`: its lower-cased extension.
pub fn format_tag(path: &str) -> (r: Option<String>)
    ensures
        match r {
            Some(f) => format_of(path@) == Some(f@),
            None => format_of(path@) is None,
        },
{
    match extension(path) {
        Some(e) => if e.as_str().unicode_len() > 0 {
            Some(to_ascii_lower(e.as_str()))
        } else {
            None
        },
        None => None,
    }
}

} // verus!
