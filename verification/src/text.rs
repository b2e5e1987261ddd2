//! Decimal rendering and parsing, and plain-text searching, proved against
//! character-sequence specifications. The SQL builders and output-file
//! naming rest on these.

use vstd::prelude::*;
use vstd::string::StrSliceExecFns;
use vstd::string::StringExecFns;

verus! {

/// The decimal digit character for a value below ten.
pub open spec fn digit_char(d: int) -> char {
    if d == 0 {
        '0'
    } else if d == 1 {
        '1'
    } else if d == 2 {
        '2'
    } else if d == 3 {
        '3'
    } else if d == 4 {
        '4'
    } else if d == 5 {
        '5'
    } else if d == 6 {
        '6'
    } else if d == 7 {
        '7'
    } else if d == 8 {
        '8'
    } else {
        '9'
    }
}

/// The value of a decimal digit character, or -1 when the character is no
/// digit.
pub open spec fn char_digit(c: char) -> int {
    if c == '0' {
        0
    } else if c == '1' {
        1
    } else if c == '2' {
        2
    } else if c == '3' {
        3
    } else if c == '4' {
        4
    } else if c == '5' {
        5
    } else if c == '6' {
        6
    } else if c == '7' {
        7
    } else if c == '8' {
        8
    } else if c == '9' {
        9
    } else {
        -1
    }
}

/// The decimal digits of a non-negative integer, most significant first.
pub open spec fn dec_nat(n: nat) -> Seq<char>
    decreases n,
{
    if n < 10 {
        seq![digit_char(n as int)]
    } else {
        dec_nat(n / 10) + seq![digit_char((n % 10) as int)]
    }
}

/// The decimal rendering of an integer, with a leading minus sign when it
/// is negative.
pub open spec fn dec_int(n: int) -> Seq<char> {
    if n < 0 {
        seq!['-'] + dec_nat((-n) as nat)
    } else {
        dec_nat(n as nat)
    }
}

/// A decimal rendering is never empty.
pub proof fn lemma_dec_nat_len(n: nat)
    ensures
        dec_nat(n).len() >= 1,
    decreases n,
{
    if n >= 10 {
        lemma_dec_nat_len(n / 10);
    }
}

/// A signed decimal rendering is never empty.
pub proof fn lemma_dec_int_len(n: int)
    ensures
        dec_int(n).len() >= 1,
{
    if n < 0 {
        lemma_dec_nat_len((-n) as nat);
    } else {
        lemma_dec_nat_len(n as nat);
    }
}

/// The one-character string for a decimal digit.
fn digit_str(d: u64) -> (r: &'static str)
    requires
        d < 10,
    ensures
        r@ == seq![digit_char(d as int)],
{
    proof {
        reveal_strlit("0");
        reveal_strlit("1");
        reveal_strlit("2");
        reveal_strlit("3");
        reveal_strlit("4");
        reveal_strlit("5");
        reveal_strlit("6");
        reveal_strlit("7");
        reveal_strlit("8");
        reveal_strlit("9");
    }
    let r = match d {
        0 => "0",
        1 => "1",
        2 => "2",
        3 => "3",
        4 => "4",
        5 => "5",
        6 => "6",
        7 => "7",
        8 => "8",
        _ => "9",
    };
    proof {
        assert(r@ =~= seq![digit_char(d as int)]);
    }
    r
}

/// Appends the decimal rendering of `n` to `s`.
pub fn push_dec_u64(s: &mut String, n: u64)
    ensures
        final(s)@ == old(s)@ + dec_nat(n as nat),
    decreases n,
{
    if n >= 10 {
        push_dec_u64(s, n / 10);
        let d = digit_str(n % 10);
        s.append(d);
        proof {
            assert(s@ =~= old(s)@ + dec_nat(n as nat));
        }
    } else {
        let d = digit_str(n);
        s.append(d);
        proof {
            assert(s@ =~= old(s)@ + dec_nat(n as nat));
        }
    }
}

/// Appends the decimal rendering of `n` to `s`, with a minus sign when it
/// is negative.
pub fn push_dec_i32(s: &mut String, n: i32)
    ensures
        final(s)@ == old(s)@ + dec_int(n as int),
{
    if n < 0 {
        proof {
            reveal_strlit("-");
        }
        s.append("-");
        proof {
            assert(s@ =~= old(s)@ + seq!['-']);
        }
        let wide: i64 = n as i64;
        push_dec_u64(s, (-wide) as u64);
        proof {
            assert(s@ =~= old(s)@ + dec_int(n as int));
        }
    } else {
        push_dec_u64(s, n as u64);
    }
}

/// The value of a sequence of decimal digit characters, most significant
/// first.
pub open spec fn digits_val(s: Seq<char>) -> int
    decreases s.len(),
{
    if s.len() == 0 {
        0
    } else {
        digits_val(s.drop_last()) * 10 + char_digit(s.last())
    }
}

/// Whether every character of `s` is a decimal digit.
pub open spec fn all_digits(s: Seq<char>) -> bool {
    forall|i: int| 0 <= i < s.len() ==> char_digit(#[trigger] s[i]) >= 0
}

proof fn lemma_digits_val_nonneg(s: Seq<char>)
    requires
        all_digits(s),
    ensures
        digits_val(s) >= 0,
    decreases s.len(),
{
    if s.len() > 0 {
        assert(all_digits(s.drop_last())) by {
            assert(forall|i: int|
                0 <= i < s.len() - 1 ==> #[trigger] s.drop_last()[i] == s[i]);
        }
        lemma_digits_val_nonneg(s.drop_last());
    }
}

proof fn lemma_digits_val_prefix_le(s: Seq<char>, i: int)
    requires
        all_digits(s),
        0 <= i <= s.len(),
    ensures
        digits_val(s.take(i)) <= digits_val(s),
    decreases s.len() - i,
{
    if i < s.len() {
        let t = s.take(i + 1);
        assert(all_digits(t)) by {
            assert(forall|j: int| 0 <= j < i + 1 ==> #[trigger] t[j] == s[j]);
        }
        assert(t.drop_last() =~= s.take(i));
        lemma_digits_val_nonneg(s.take(i));
        assert(digits_val(t) == digits_val(s.take(i)) * 10 + char_digit(t.last()));
        assert(digits_val(s.take(i)) * 10 >= digits_val(s.take(i))) by (nonlinear_arith)
            requires
                digits_val(s.take(i)) >= 0,
        ;
        lemma_digits_val_prefix_le(s, i + 1);
    } else {
        assert(s.take(i) =~= s);
    }
}

/// Whether a string is a well-formed non-negative decimal number whose
/// value fits in a machine word.
pub open spec fn parses_usize(s: Seq<char>) -> bool {
    s.len() > 0 && all_digits(s) && digits_val(s) <= usize::MAX
}

/// The exec counterpart of [`char_digit`]: the value of a digit character,
/// or `None` when the character is no digit.
fn digit_of(c: char) -> (r: Option<u64>)
    ensures
        char_digit(c) >= 0 ==> r == Some(char_digit(c) as u64),
        char_digit(c) < 0 ==> r is None,
{
    match c {
        '0' => Some(0),
        '1' => Some(1),
        '2' => Some(2),
        '3' => Some(3),
        '4' => Some(4),
        '5' => Some(5),
        '6' => Some(6),
        '7' => Some(7),
        '8' => Some(8),
        '9' => Some(9),
        _ => None,
    }
}

/// Parses a non-negative decimal integer, as the thread-count argument
/// requires. Succeeds exactly on non-empty all-digit strings whose value
/// fits in `usize`.
pub fn parse_usize(v: &str) -> (r: Result<usize, crate::error::GeneratorError>)
    ensures
        r is Ok <==> parses_usize(v@),
        r is Ok ==> r->Ok_0 == digits_val(v@),
        r is Err ==> r->Err_0 is IntParseError,
{
    let len = v.unicode_len();
    if len == 0 {
        return Err(crate::error::GeneratorError::IntParseError(String::from_str(
            "an empty string is no number",
        )));
    }
    let mut acc: usize = 0;
    let mut i: usize = 0;
    while i < len
        invariant
            0 <= i <= len,
            len == v@.len(),
            all_digits(v@.take(i as int)),
            acc == digits_val(v@.take(i as int)),
        decreases len - i,
    {
        let c = v.get_char(i);
        let d = match digit_of(c) {
            Some(d) => d,
            None => {
                return Err(crate::error::GeneratorError::IntParseError(String::from_str(
                    "not a decimal digit",
                )));
            },
        };
        proof {
            lemma_digits_val_nonneg(v@.take(i as int));
        }
        let du = d as usize;
        if acc > (usize::MAX - du) / 10 {
            proof {
                let t = v@.take(i as int + 1);
                assert(t.drop_last() =~= v@.take(i as int));
                assert(all_digits(t)) by {
                    assert(forall|j: int| 0 <= j < t.len() ==> #[trigger] t[j] == v@[j]);
                }
                assert(t.last() == v@[i as int]);
                assert(digits_val(t) == acc * 10 + du);
                assert(acc * 10 + du > usize::MAX) by (nonlinear_arith)
                    requires
                        acc > (usize::MAX - du) / 10,
                        acc >= 0,
                        0 <= du < 10,
                ;
                if all_digits(v@) {
                    lemma_digits_val_prefix_le(v@, i as int + 1);
                }
            }
            return Err(crate::error::GeneratorError::IntParseError(String::from_str(
                "the number does not fit in a machine word",
            )));
        }
        proof {
            assert(acc * 10 + du <= usize::MAX) by (nonlinear_arith)
                requires
                    acc <= (usize::MAX - du) / 10,
                    acc >= 0,
                    0 <= du < 10,
            ;
        }
        let next = acc * 10 + du;
        proof {
            let t = v@.take(i as int + 1);
            assert(t.drop_last() =~= v@.take(i as int));
            assert(t.last() == v@[i as int]);
            assert(all_digits(t)) by {
                assert(forall|j: int| 0 <= j < t.len() ==> #[trigger] t[j] == v@[j]);
            }
        }
        acc = next;
        i = i + 1;
    }
    proof {
        assert(v@.take(len as int) =~= v@);
    }
    Ok(acc)
}

/// Whether `needle` occurs as a contiguous part of `hay`.
pub open spec fn contains_seq(hay: Seq<char>, needle: Seq<char>) -> bool {
    exists|i: int|
        0 <= i <= hay.len() - needle.len() && #[trigger] hay.subrange(
            i,
            i + needle.len(),
        ) == needle
}

/// Whether `needle` occurs at position `i` of `hay`.
spec fn matches_at(hay: Seq<char>, needle: Seq<char>, i: int) -> bool {
    &&& 0 <= i <= hay.len() - needle.len()
    &&& hay.subrange(i, i + needle.len()) == needle
}

/// Plain-text search: whether `needle` occurs anywhere in `hay`.
pub fn str_contains(hay: &str, needle: &str) -> (r: bool)
    ensures
        r == contains_seq(hay@, needle@),
{
    let hl = hay.unicode_len();
    let nl = needle.unicode_len();
    if nl > hl {
        return false;
    }
    if nl == 0 {
        proof {
            assert(hay@.subrange(0, 0) =~= needle@);
            assert(matches_at(hay@, needle@, 0));
        }
        return true;
    }
    let mut i: usize = 0;
    while i <= hl - nl
        invariant
            0 <= i <= hl - nl + 1,
            1 <= nl <= hl,
            hl == hay@.len(),
            nl == needle@.len(),
            forall|k: int| 0 <= k < i ==> !matches_at(hay@, needle@, k),
        decreases hl - nl + 1 - i,
    {
        let mut j: usize = 0;
        let mut all_match = true;
        while j < nl
            invariant
                0 <= j <= nl,
                0 <= i <= hl - nl,
                hl == hay@.len(),
                nl == needle@.len(),
                all_match ==> forall|k: int|
                    0 <= k < j ==> hay@[i + k] == #[trigger] needle@[k],
                !all_match ==> hay@.subrange(i as int, i + nl) != needle@,
            decreases nl - j,
        {
            if hay.get_char(i + j) != needle.get_char(j) {
                all_match = false;
                proof {
                    assert(hay@.subrange(i as int, i + nl) != needle@) by {
                        assert(hay@.subrange(i as int, i + nl)[j as int] == hay@[i + j]);
                    }
                }
                j = nl;
            } else {
                j = j + 1;
            }
        }
        if all_match {
            proof {
                assert(hay@.subrange(i as int, i + nl) =~= needle@);
                assert(matches_at(hay@, needle@, i as int));
            }
            return true;
        }
        proof {
            assert(!matches_at(hay@, needle@, i as int));
        }
        i = i + 1;
    }
    proof {
        assert(forall|k: int| 0 <= k <= hl - nl ==> !matches_at(hay@, needle@, k));
        assert(!contains_seq(hay@, needle@)) by {
            if contains_seq(hay@, needle@) {
                let w = choose|w: int|
                    0 <= w <= hay@.len() - needle@.len() && #[trigger] hay@.subrange(
                        w,
                        w + needle@.len(),
                    ) == needle@;
                assert(matches_at(hay@, needle@, w));
            }
        }
    }
    false
}

/// Whether `x` occurs in `v`.
pub fn contains_i32(v: &[i32], x: i32) -> (r: bool)
    ensures
        r == v@.contains(x),
{
    let mut i: usize = 0;
    while i < v.len()
        invariant
            0 <= i <= v@.len(),
            forall|j: int| 0 <= j < i ==> v@[j] != x,
        decreases v@.len() - i,
    {
        if v[i] == x {
            return true;
        }
        i = i + 1;
    }
    proof {
        assert(!v@.contains(x));
    }
    false
}

} // verus!
