use vstd::prelude::*;
use vstd::string::*;

verus! {

/// Whether two strings hold the same characters.
pub fn same_text(a: &str, b: &str) -> (r: bool)
    ensures
        r == (a@ == b@),
{
    let n = a.unicode_len();
    if n != b.unicode_len() {
        return false;
    }
    let mut i: usize = 0;
    while i < n
        invariant
            n == a@.len(),
            n == b@.len(),
            i <= n,
            forall|j: int| 0 <= j < i ==> a@[j] == b@[j],
        decreases n - i,
    {
        if a.get_char(i) != b.get_char(i) {
            return false;
        }
        i = i + 1;
    }
    assert(a@ =~= b@);
    true
}

/// The decimal digit character for `d`.
pub open spec fn digit_char(d: nat) -> char {
    if d == 0 { '0' }
    else if d == 1 { '1' }
    else if d == 2 { '2' }
    else if d == 3 { '3' }
    else if d == 4 { '4' }
    else if d == 5 { '5' }
    else if d == 6 { '6' }
    else if d == 7 { '7' }
    else if d == 8 { '8' }
    else { '9' }
}

/// Decimal representation of a natural number, most significant digit first,
/// with no leading zeros.
pub open spec fn decimal(n: nat) -> Seq<char>
    decreases n,
{
    if n < 10 {
        seq![digit_char(n)]
    } else {
        decimal(n / 10).push(digit_char(n % 10))
    }
}

/// Decimal representation of an integer, with a leading `-` when negative.
pub open spec fn signed_decimal(n: int) -> Seq<char> {
    if n < 0 {
        seq!['-'] + decimal((-n) as nat)
    } else {
        decimal(n as nat)
    }
}

fn digit_text(d: u64) -> (s: &'static str)
    requires
        d < 10,
    ensures
        s@ == seq![digit_char(d as nat)],
{
    proof {
        reveal_strlit("0");
        reveal_strlit("1");
        reveal_strlit("2");
        reveal_strlit("3");
        reveal_strlit("4");
        reveal_strlit("5");
        reveal_strlit("6");
        reveal_strlit("7");
        reveal_strlit("8");
        reveal_strlit("9");
    }
    match d {
        0 => "0",
        1 => "1",
        2 => "2",
        3 => "3",
        4 => "4",
        5 => "5",
        6 => "6",
        7 => "7",
        8 => "8",
        _ => "9",
    }
}

/// Append the decimal digits of `n` to `out`.
pub fn push_decimal(out: &mut String, n: u64)
    ensures
        final(out)@ == old(out)@ + decimal(n as nat),
    decreases n,
{
    if n >= 10 {
        push_decimal(out, n / 10);
    }
    out.append(digit_text(n % 10));
    proof {
        if n >= 10 {
            assert(decimal(n as nat) == decimal((n / 10) as nat).push(digit_char((n % 10) as nat)));
        }
    }
    assert(out@ =~= old(out)@ + decimal(n as nat));
}

/// Append the decimal digits of `n` to `out`, after a `-` when negative.
pub fn push_signed_decimal(out: &mut String, n: i64)
    ensures
        final(out)@ == old(out)@ + signed_decimal(n as int),
{
    if n < 0 {
        out.append("-");
        proof {
            reveal_strlit("-");
        }
        let m: u64 = if n == i64::MIN {
            0x8000_0000_0000_0000u64
        } else {
            (-n) as u64
        };
        push_decimal(out, m);
        assert(out@ =~= old(out)@ + signed_decimal(n as int));
    } else {
        push_decimal(out, n as u64);
    }
}

/// Whether a character has the Unicode `Uppercase` property.
pub uninterp spec fn uppercase_char(c: char) -> bool;

/// Calls `char::is_uppercase`, which tests the Unicode `Uppercase` property;
/// the result is named by `uppercase_char`. Of ASCII it states what the
/// property gives: the capital letters have it; the small letters, the
/// digits and the underscore do not.
#[verifier::external_body]
pub(crate) fn char_is_uppercase(c: char) -> (r: bool)
    ensures
        r == uppercase_char(c),
        'A' <= c <= 'Z' ==> r,
        ('a' <= c <= 'z' || '0' <= c <= '9' || c == '_') ==> !r,
{
    c.is_uppercase()
}

/// The Unicode lowercase mapping of a string.
pub uninterp spec fn lowercase(s: Seq<char>) -> Seq<char>;

/// Calls `str::to_lowercase`, the Unicode lowercase mapping; the result is
/// named by `lowercase`.
#[verifier::external_body]
pub(crate) fn to_lowercase_text(s: &str) -> (r: String)
    ensures
        r@ == lowercase(s@),
{
    s.to_lowercase()
}

/// `needle` occurs as a contiguous run of `hay`.
pub open spec fn occurs_in(hay: Seq<char>, needle: Seq<char>) -> bool {
    exists|i: int| #[trigger] matches_at(hay, needle, i)
}

/// `needle` occurs in `hay` starting at position `i`.
pub open spec fn matches_at(hay: Seq<char>, needle: Seq<char>, i: int) -> bool {
    0 <= i && i + needle.len() <= hay.len() && hay.subrange(i, i + needle.len()) == needle
}

/// Whether `needle` occurs in `hay` (the empty needle occurs everywhere).
pub fn contains_text(hay: &str, needle: &str) -> (r: bool)
    ensures
        r == occurs_in(hay@, needle@),
{
    let n = hay.unicode_len();
    let m = needle.unicode_len();
    if m > n {
        assert forall|k: int| !#[trigger] matches_at(hay@, needle@, k) by {}
        return false;
    }
    let mut i: usize = 0;
    while i <= n - m
        invariant
            n == hay@.len(),
            m == needle@.len(),
            m <= n,
            i <= n - m + 1,
            forall|k: int| 0 <= k < i ==> !#[trigger] matches_at(hay@, needle@, k),
        decreases n - m + 1 - i,
    {
        let mut j: usize = 0;
        while j < m && hay.get_char(i + j) == needle.get_char(j)
            invariant
                n == hay@.len(),
                m == needle@.len(),
                i + m <= n,
                j <= m,
                forall|l: int| 0 <= l < j ==> hay@[i + l] == needle@[l],
            decreases m - j,
        {
            j = j + 1;
        }
        if j == m {
            assert(hay@.subrange(i as int, i + m) =~= needle@);
            assert(matches_at(hay@, needle@, i as int));
            return true;
        }
        assert(hay@.subrange(i as int, i + m)[j as int] != needle@[j as int]);
        i = i + 1;
    }
    false
}

/// `m:ss` for a number of seconds: whole minutes, then the seconds past
/// the minute as two digits.
pub open spec fn duration_text(seconds: u32) -> Seq<char> {
    decimal((seconds / 60) as nat) + seq![':'] + seq![
        digit_char(((seconds % 60) / 10) as nat),
        digit_char(((seconds % 60) % 10) as nat),
    ]
}

/// Format a number of seconds as `m:ss` (for example 125 gives `2:05`).
pub fn fmt_duration(seconds: u32) -> (r: String)
    ensures
        r@ == duration_text(seconds),
{
    let mut out = String::new();
    push_decimal(&mut out, (seconds / 60) as u64);
    proof {
        reveal_strlit(":");
    }
    out.append(":");
    let rem = seconds % 60;
    out.append(digit_text((rem / 10) as u64));
    out.append(digit_text((rem % 10) as u64));
    assert(out@ =~= duration_text(seconds));
    out
}

/// The value of a decimal digit character.
pub open spec fn digit_value(c: char) -> int {
    (c as int) - ('0' as int)
}

/// A decimal digit character.
pub open spec fn is_digit(c: char) -> bool {
    '0' <= c <= '9'
}

/// The number a run of decimal digits reads as, most significant first.
pub open spec fn decimal_value(s: Seq<char>) -> int
    decreases s.len(),
{
    if s.len() == 0 {
        0
    } else {
        decimal_value(s.drop_last()) * 10 + digit_value(s.last())
    }
}

proof fn lemma_digit_char(d: nat)
    requires
        d < 10,
    ensures
        is_digit(digit_char(d)),
        digit_value(digit_char(d)) == d,
{
}

/// The decimal text of `n` is all digits and reads back as `n`.
pub proof fn lemma_decimal_reads_back(n: nat)
    ensures
        decimal(n).len() > 0,
        forall|i: int| 0 <= i < decimal(n).len() ==> is_digit(#[trigger] decimal(n)[i]),
        decimal_value(decimal(n)) == n,
    decreases n,
{
    if n < 10 {
        lemma_digit_char(n);
        assert(decimal(n).drop_last() =~= Seq::<char>::empty());
        assert(decimal_value(Seq::<char>::empty()) == 0);
        assert(decimal_value(decimal(n)) == 0 * 10 + digit_value(digit_char(n)));
    } else {
        lemma_decimal_reads_back(n / 10);
        lemma_digit_char(n % 10);
        let prev = decimal(n / 10);
        assert(decimal(n).drop_last() =~= prev);
        assert(decimal(n).last() == digit_char(n % 10));
        assert(decimal_value(decimal(n)) == (n / 10) as int * 10 + (n % 10) as int);
        assert((n / 10) as int * 10 + (n % 10) as int == n) by (nonlinear_arith);
        assert forall|i: int| 0 <= i < decimal(n).len() implies is_digit(#[trigger] decimal(n)[i]) by {
            if i < prev.len() {
                assert(decimal(n)[i] == prev[i]);
            }
        }
    }
}

/// The clock text of a duration splits at its only colon into the minutes
/// and exactly two second digits, all decimal digits, that read back as
/// `seconds / 60` and `seconds % 60`; so the two parts give back `seconds`.
pub proof fn lemma_duration_text_reads_back(seconds: u32)
    ensures
        ({
            let t = duration_text(seconds);
            let p = t.len() - 3;
            &&& p > 0
            &&& t[p] == ':'
            &&& forall|i: int| 0 <= i < t.len() && i != p ==> is_digit(#[trigger] t[i])
            &&& t.skip(p + 1).len() == 2
            &&& decimal_value(t.take(p)) == seconds / 60
            &&& decimal_value(t.skip(p + 1)) == seconds % 60
            &&& decimal_value(t.take(p)) * 60 + decimal_value(t.skip(p + 1)) == seconds
        }),
{
    let m = decimal((seconds / 60) as nat);
    let rem = seconds % 60;
    let d1 = digit_char((rem / 10) as nat);
    let d2 = digit_char((rem % 10) as nat);
    let t = duration_text(seconds);
    lemma_decimal_reads_back((seconds / 60) as nat);
    lemma_digit_char((rem / 10) as nat);
    lemma_digit_char((rem % 10) as nat);
    let p = t.len() - 3;
    assert(p == m.len());
    assert(t.take(p) =~= m);
    assert(t.skip(p + 1) =~= seq![d1, d2]);
    assert(seq![d1, d2].drop_last() =~= seq![d1]);
    assert(seq![d1].drop_last() =~= Seq::<char>::empty());
    assert(decimal_value(Seq::<char>::empty()) == 0);
    assert(decimal_value(seq![d1]) == (rem / 10) as int);
    assert(decimal_value(seq![d1, d2]) == (rem / 10) as int * 10 + (rem % 10) as int);
    assert((rem / 10) as int * 10 + (rem % 10) as int == rem) by (nonlinear_arith);
    assert((seconds / 60) as int * 60 + (seconds % 60) as int == seconds) by (nonlinear_arith);
    assert forall|i: int| 0 <= i < t.len() && i != p implies is_digit(#[trigger] t[i]) by {
        if i < p {
            assert(t[i] == m[i]);
        }
    }
}

/// The clock text of a duration given as whole seconds or as nothing: the
/// `m:ss` text, or `-` when absent.
pub fn optional_duration(seconds: Option<u32>) -> (r: String)
    ensures
        r@ == match seconds {
            Some(s) => duration_text(s),
            None => "-"@,
        },
{
    match seconds {
        Some(s) => fmt_duration(s),
        None => String::from_str("-"),
    }
}

} // verus!
