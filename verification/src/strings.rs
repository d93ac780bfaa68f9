//! String helpers: equality, decimal rendering for generated ids, prefix
//! extraction, and case-insensitive substring search.

use vstd::prelude::*;
use vstd::string::StrSliceExecFns;
use vstd::string::StringExecFns;

verus! {

broadcast use vstd::string::group_string_axioms;

/// Equality of two strings, stated over their character sequences.
pub fn str_eq(a: &String, b: &String) -> (r: bool)
    ensures
        r == (a@ == b@),
{
    *a == *b
}

/// The character for a single decimal digit.
pub open spec fn digit_char(d: nat) -> char {
    if d == 0 {
        '0'
    } else if d == 1 {
        '1'
    } else if d == 2 {
        '2'
    } else if d == 3 {
        '3'
    } else if d == 4 {
        '4'
    } else if d == 5 {
        '5'
    } else if d == 6 {
        '6'
    } else if d == 7 {
        '7'
    } else if d == 8 {
        '8'
    } else {
        '9'
    }
}

/// The decimal rendering of a natural number, most significant digit first.
pub open spec fn dec_digits(n: nat) -> Seq<char>
    decreases n,
{
    if n < 10 {
        seq![digit_char(n)]
    } else {
        dec_digits(n / 10).push(digit_char(n % 10))
    }
}

fn digit_str(d: u64) -> (r: &'static str)
    requires
        d < 10,
    ensures
        r@ == seq![digit_char(d as nat)],
{
    proof {
        reveal_strlit("0");
        reveal_strlit("1");
        reveal_strlit("2");
        reveal_strlit("3");
        reveal_strlit("4");
        reveal_strlit("5");
        reveal_strlit("6");
        reveal_strlit("7");
        reveal_strlit("8");
        reveal_strlit("9");
    }
    let r = if d == 0 {
        "0"
    } else if d == 1 {
        "1"
    } else if d == 2 {
        "2"
    } else if d == 3 {
        "3"
    } else if d == 4 {
        "4"
    } else if d == 5 {
        "5"
    } else if d == 6 {
        "6"
    } else if d == 7 {
        "7"
    } else if d == 8 {
        "8"
    } else {
        "9"
    };
    proof {
        assert(r@ =~= seq![digit_char(d as nat)]);
    }
    r
}

/// Renders a number in decimal.
pub fn u64_to_dec(n: u64) -> (r: String)
    ensures
        r@ == dec_digits(n as nat),
    decreases n,
{
    if n < 10 {
        String::from_str(digit_str(n))
    } else {
        let mut s = u64_to_dec(n / 10);
        s.append(digit_str(n % 10));
        proof {
            assert(s@ =~= dec_digits(n as nat));
        }
        s
    }
}

/// The character sequence of a generated id: prefix, underscore, then the
/// decimal rendering of the time the entity was created at.
pub open spec fn id_seq(prefix: Seq<char>, now: u64) -> Seq<char> {
    prefix + seq!['_'] + dec_digits(now as nat)
}

/// Builds a fresh entity id from a type prefix and the current time.
pub fn make_id(prefix: &str, now: u64) -> (r: String)
    ensures
        r@ == id_seq(prefix@, now),
{
    let mut s = String::from_str(prefix);
    s.append("_");
    let digits = u64_to_dec(now);
    s.append(digits.as_str());
    proof {
        reveal_strlit("_");
        assert(s@ =~= id_seq(prefix@, now));
    }
    s
}

/// The characters of a string as a vector, for index-based scanning.
pub fn char_vec(s: &str) -> (r: Vec<char>)
    ensures
        r@ == s@,
{
    let n = s.unicode_len();
    let mut out: Vec<char> = Vec::new();
    let mut i: usize = 0;
    while i < n
        invariant
            n == s@.len(),
            i <= n,
            out@ == s@.take(i as int),
        decreases n - i,
    {
        out.push(s.get_char(i));
        i = i + 1;
        proof {
            assert(out@ =~= s@.take(i as int));
        }
    }
    proof {
        assert(out@ =~= s@);
    }
    out
}

/// Whether `needle` occurs as a contiguous run inside `hay`.
pub open spec fn contains_sub(hay: Seq<char>, needle: Seq<char>) -> bool {
    exists|i: int|
        0 <= i && i + needle.len() <= hay.len() && #[trigger] hay.subrange(i, i + needle.len())
            == needle
}

fn match_at(hay: &Vec<char>, needle: &Vec<char>, at: usize) -> (r: bool)
    requires
        at + needle@.len() <= hay@.len(),
    ensures
        r == (hay@.subrange(at as int, at + needle@.len()) == needle@),
{
    let hl = hay.len();
    let nn = needle.len();
    let mut j: usize = 0;
    while j < nn
        invariant
            hl == hay@.len(),
            nn == needle@.len(),
            at + nn <= hl,
            j <= nn,
            forall|k: int| 0 <= k < j ==> hay@[at + k] == needle@[k],
        decreases nn - j,
    {
        if hay[at + j] != needle[j] {
            proof {
                assert(hay@.subrange(at as int, at + needle@.len())[j as int] != needle@[j as int]);
            }
            return false;
        }
        j = j + 1;
    }
    proof {
        assert(hay@.subrange(at as int, at + needle@.len()) =~= needle@);
    }
    true
}

/// Substring search over character vectors.
pub fn find_sub(hay: &Vec<char>, needle: &Vec<char>) -> (r: bool)
    ensures
        r == contains_sub(hay@, needle@),
{
    let hl = hay.len();
    let nn = needle.len();
    if nn > hl {
        proof {
            assert(!contains_sub(hay@, needle@));
        }
        return false;
    }
    let end = hl - nn;
    let mut i: usize = 0;
    loop
        invariant
            hl == hay@.len(),
            nn == needle@.len(),
            nn <= hl,
            end == hl - nn,
            i <= end,
            forall|k: int|
                0 <= k < i ==> #[trigger] hay@.subrange(k, k + needle@.len()) != needle@,
        decreases end - i,
    {
        if match_at(hay, needle, i) {
            return true;
        }
        if i == end {
            proof {
                assert(forall|k: int|
                    0 <= k && k + needle@.len() <= hay@.len() ==> #[trigger] hay@.subrange(
                        k,
                        k + needle@.len(),
                    ) != needle@);
            }
            return false;
        }
        i = i + 1;
    }
}

/// The result of the standard library's Unicode lowercasing; it depends on
/// the characters of the input alone.
pub uninterp spec fn lower_of(s: Seq<char>) -> Seq<char>;

/// Relies on str::to_lowercase: the Unicode lowercase of the input,
/// a function of its characters alone.
#[verifier::external_body]
pub fn lower(s: &String) -> (r: String)
    ensures
        r@ == lower_of(s@),
{
    s.as_str().to_lowercase()
}

/// The first `k` characters of a string, or the whole string when it is
/// shorter than that.
pub fn take_prefix(s: &String, k: usize) -> (r: String)
    ensures
        r@ == s@.take(spec_min(k as int, s@.len() as int)),
{
    let n = s.as_str().unicode_len();
    let end = if n < k {
        n
    } else {
        k
    };
    let cut = s.as_str().substring_char(0, end);
    let r = String::from_str(cut);
    proof {
        assert(r@ =~= s@.take(spec_min(k as int, s@.len() as int)));
    }
    r
}

/// Minimum of two integers.
pub open spec fn spec_min(a: int, b: int) -> int {
    if a < b {
        a
    } else {
        b
    }
}

} // verus!
