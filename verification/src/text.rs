//! Small verified text routines: decimal identifiers and href splitting.

use vstd::prelude::*;
use vstd::string::*;

verus! {

/// Equality of string slices, `str::eq` of std: two slices are equal exactly
/// when they hold the same characters.
pub assume_specification[ <str as PartialEq>::eq ](a: &str, b: &str) -> (same: bool)
    ensures
        same == (a@ == b@),
;

/// The character that stands for the digit `d`.
pub open spec fn digit_char(d: nat) -> char {
    if d == 0 {
        '0'
    } else if d == 1 {
        '1'
    } else if d == 2 {
        '2'
    } else if d == 3 {
        '3'
    } else if d == 4 {
        '4'
    } else if d == 5 {
        '5'
    } else if d == 6 {
        '6'
    } else if d == 7 {
        '7'
    } else if d == 8 {
        '8'
    } else {
        '9'
    }
}

/// Whether `c` is one of the ASCII digits `0` to `9`.
pub open spec fn is_digit(c: char) -> bool {
    '0' <= c && c <= '9'
}

/// The value of the digit `c`.
pub open spec fn digit_value(c: char) -> nat
    recommends
        is_digit(c),
{
    (c as u32 - 48) as nat
}

/// Decimal notation of `n`, most significant digit first, without padding.
pub open spec fn decimal(n: nat) -> Seq<char>
    decreases n,
{
    if n < 10 {
        seq![digit_char(n)]
    } else {
        decimal(n / 10).push(digit_char(n % 10))
    }
}

/// Whether every character of `s` is a digit.
pub open spec fn all_digits(s: Seq<char>) -> bool {
    forall|i: int| 0 <= i < s.len() ==> is_digit(#[trigger] s[i])
}

/// The number that a run of digits denotes.
pub open spec fn digits_value(s: Seq<char>) -> nat
    decreases s.len(),
{
    if s.len() == 0 {
        0
    } else {
        digits_value(s.drop_last()) * 10 + digit_value(s.last())
    }
}

/// The digits of an identifier name: the name without one leading `+`.
pub open spec fn unsigned_part(s: Seq<char>) -> Seq<char> {
    if s.len() > 0 && s[0] == '+' {
        s.drop_first()
    } else {
        s
    }
}

/// The identifier that a name denotes: an optional `+`, then at least one
/// digit, the whole no larger than `u32::MAX`.
pub open spec fn parsed_id(s: Seq<char>) -> Option<u32> {
    let body = unsigned_part(s);
    if body.len() > 0 && all_digits(body) && digits_value(body) <= u32::MAX {
        Some(digits_value(body) as u32)
    } else {
        None
    }
}

/// Length of the part of `s` up to and including its last `/`; zero when
/// `s` holds none.
pub open spec fn slash_cut(s: Seq<char>) -> nat
    decreases s.len(),
{
    if s.len() == 0 {
        0
    } else if s.last() == '/' {
        s.len()
    } else {
        slash_cut(s.drop_last())
    }
}

/// Everything up to and including the last `/`.
pub open spec fn href_prefix(s: Seq<char>) -> Seq<char> {
    s.take(slash_cut(s) as int)
}

/// Everything after the last `/`.
pub open spec fn href_suffix(s: Seq<char>) -> Seq<char> {
    s.skip(slash_cut(s) as int)
}

/// A prefix of a digit run denotes no more than the whole run.
pub proof fn lemma_digits_prefix(s: Seq<char>, k: int)
    requires
        0 <= k <= s.len(),
    ensures
        digits_value(s.take(k)) <= digits_value(s),
    decreases s.len(),
{
    if k == s.len() {
        assert(s.take(k) =~= s);
    } else {
        lemma_digits_prefix(s.drop_last(), k);
        assert(s.drop_last().take(k) =~= s.take(k));
    }
}

/// The cut never exceeds the length, and the character before it is `/`.
pub proof fn lemma_slash_cut(s: Seq<char>)
    ensures
        slash_cut(s) <= s.len(),
        slash_cut(s) > 0 ==> s[slash_cut(s) - 1] == '/',
        forall|i: int| slash_cut(s) <= i < s.len() ==> s[i] != '/',
        slash_cut(s) == 0 <==> !s.contains('/'),
    decreases s.len(),
{
    if s.len() == 0 {
    } else if s.last() == '/' {
        assert(s[s.len() - 1] == '/');
    } else {
        let t = s.drop_last();
        lemma_slash_cut(t);
        assert forall|i: int| slash_cut(s) <= i < s.len() implies s[i] != '/' by {
            if i < t.len() {
                assert(t[i] == s[i]);
            }
        }
        if t.contains('/') {
            let j = choose|j: int| 0 <= j < t.len() && t[j] == '/';
            assert(s[j] == '/');
        }
        if s.contains('/') {
            let j = choose|j: int| 0 <= j < s.len() && s[j] == '/';
            assert(t[j] == '/');
        }
    }
}

/// Splitting at the last `/` loses nothing: the two parts make the whole,
/// and the second part holds no `/`.
pub proof fn lemma_href_parts(s: Seq<char>)
    ensures
        href_prefix(s) + href_suffix(s) == s,
        !href_suffix(s).contains('/'),
        s.contains('/') ==> href_prefix(s).len() > 0 && href_prefix(s).last() == '/',
{
    lemma_slash_cut(s);
    assert(href_prefix(s) + href_suffix(s) =~= s);
    if href_suffix(s).contains('/') {
        let j = choose|j: int| 0 <= j < href_suffix(s).len() && href_suffix(s)[j] == '/';
        assert(s[slash_cut(s) + j] == '/');
    }
}

/// The decimal notation of a number is a non-empty run of digits that
/// denotes that number.
pub proof fn lemma_decimal_digits(n: nat)
    ensures
        decimal(n).len() > 0,
        all_digits(decimal(n)),
        digits_value(decimal(n)) == n,
    decreases n,
{
    if n < 10 {
        let s = decimal(n);
        assert(s.len() == 1);
        assert(s.drop_last().len() == 0);
        assert(digits_value(s.drop_last()) == 0);
        assert(s.last() == digit_char(n));
        assert(digit_value(digit_char(n)) == n);
    } else {
        let t = decimal(n / 10);
        let c = digit_char(n % 10);
        lemma_decimal_digits(n / 10);
        let s = t.push(c);
        assert(s.drop_last() =~= t);
        assert(s.last() == c);
        assert(digit_value(c) == n % 10);
        assert forall|i: int| 0 <= i < s.len() implies is_digit(#[trigger] s[i]) by {
            if i < t.len() {
                assert(s[i] == t[i]);
            }
        }
    }
}

/// Reading back the decimal name of an identifier gives the identifier.
pub proof fn lemma_name_round_trip(n: u32)
    ensures
        parsed_id(decimal(n as nat)) == Some(n),
{
    lemma_decimal_digits(n as nat);
    let s = decimal(n as nat);
    assert(is_digit(s[0]));
    assert(unsigned_part(s) == s);
}

/// Whether two string slices hold the same characters.
pub fn same_text(a: &str, b: &str) -> (same: bool)
    ensures
        same == (a@ == b@),
{
    a.eq(b)
}

fn digit_str(d: u64) -> (r: &'static str)
    requires
        d < 10,
    ensures
        r@ == seq![digit_char(d as nat)],
{
    proof {
        reveal_strlit("0");
        reveal_strlit("1");
        reveal_strlit("2");
        reveal_strlit("3");
        reveal_strlit("4");
        reveal_strlit("5");
        reveal_strlit("6");
        reveal_strlit("7");
        reveal_strlit("8");
        reveal_strlit("9");
    }
    let r = if d == 0 {
        "0"
    } else if d == 1 {
        "1"
    } else if d == 2 {
        "2"
    } else if d == 3 {
        "3"
    } else if d == 4 {
        "4"
    } else if d == 5 {
        "5"
    } else if d == 6 {
        "6"
    } else if d == 7 {
        "7"
    } else if d == 8 {
        "8"
    } else {
        "9"
    };
    assert(r@ =~= seq![digit_char(d as nat)]);
    r
}

/// The decimal notation of a number.
pub fn number_name(n: u64) -> (r: String)
    ensures
        r@ == decimal(n as nat),
    decreases n,
{
    if n < 10 {
        String::from_str(digit_str(n))
    } else {
        let mut s = number_name(n / 10);
        s.append(digit_str(n % 10));
        assert(s@ =~= decimal(n as nat));
        s
    }
}

/// The decimal name of an identifier, as used for directories and files.
pub fn id_name(n: u32) -> (r: String)
    ensures
        r@ == decimal(n as nat),
{
    number_name(n as u64)
}

/// The trailing path segment of an href: what follows its last `/`, or all
/// of it when it holds none.
pub fn href_tail(href: &str) -> (r: String)
    ensures
        r@ == href_suffix(href@),
{
    match split_href(href) {
        Some(parts) => parts.1,
        None => {
            proof {
                lemma_slash_cut(href@);
                assert(href@.skip(0) =~= href@);
            }
            String::from_str(href)
        },
    }
}

/// The part of an href up to and including its last `/`; empty when it
/// holds none.
pub fn href_head(href: &str) -> (r: String)
    ensures
        r@ == href_prefix(href@),
{
    match split_href(href) {
        Some(parts) => parts.0,
        None => {
            proof {
                lemma_slash_cut(href@);
                assert(href@.take(0) =~= Seq::<char>::empty());
            }
            String::new()
        },
    }
}

/// Reads an identifier from a directory or file name.
pub fn parse_id(name: &str) -> (r: Option<u32>)
    ensures
        r == parsed_id(name@),
{
    let n: usize = name.unicode_len();
    let start: usize = if n > 0 && name.get_char(0) == '+' {
        1
    } else {
        0
    };
    if start == n {
        return None;
    }
    let ghost body = unsigned_part(name@);
    assert(body =~= name@.skip(start as int));
    let mut acc: u64 = 0;
    let mut i: usize = start;
    while i < n
        invariant
            start <= i <= n,
            n == name@.len(),
            body == name@.skip(start as int),
            body == unsigned_part(name@),
            acc == digits_value(body.take(i - start)),
            acc <= u32::MAX,
            all_digits(body.take(i - start)),
        decreases n - i,
    {
        let c: char = name.get_char(i);
        assert(body[i - start] == c);
        if !('0' <= c && c <= '9') {
            assert(!is_digit(body[i - start]));
            return None;
        }
        let d: u64 = (c as u32 - 48) as u64;
        let next: u64 = acc * 10 + d;
        proof {
            let t = body.take(i - start + 1);
            assert(t.drop_last() =~= body.take(i - start));
            assert(t.last() == c);
            assert(next == digits_value(t));
            assert forall|j: int| 0 <= j < t.len() implies is_digit(#[trigger] t[j]) by {
                if j < i - start {
                    assert(t[j] == body.take(i - start)[j]);
                }
            }
            lemma_digits_prefix(body, i - start + 1);
        }
        if next > 4294967295 {
            assert(digits_value(body) > u32::MAX);
            return None;
        }
        acc = next;
        i = i + 1;
    }
    assert(body.take(i - start) =~= body);
    Some(acc as u32)
}

/// Splits an href at its last `/`: the first part ends with that `/`, the
/// second is the trailing path segment. `None` when the href holds no `/`.
pub fn split_href(href: &str) -> (r: Option<(String, String)>)
    ensures
        r is Some <==> href@.contains('/'),
        r matches Some(parts) ==> parts.0@ == href_prefix(href@) && parts.1@ == href_suffix(
            href@,
        ),
{
    let n: usize = href.unicode_len();
    let mut i: usize = n;
    assert(href@.take(n as int) =~= href@);
    while i > 0 && href.get_char(i - 1) != '/'
        invariant
            i <= n,
            n == href@.len(),
            slash_cut(href@) == slash_cut(href@.take(i as int)),
        decreases i,
    {
        proof {
            let t = href@.take(i as int);
            assert(t.last() == href@[i - 1]);
            assert(t.drop_last() =~= href@.take(i - 1));
        }
        i = i - 1;
    }
    proof {
        lemma_slash_cut(href@);
        let t = href@.take(i as int);
        if i > 0 {
            assert(t.last() == href@[i - 1]);
        }
        assert(slash_cut(href@) == i);
    }
    if i == 0 {
        None
    } else {
        let head = String::from_str(href.substring_char(0, i));
        let tail = String::from_str(href.substring_char(i, n));
        assert(head@ =~= href_prefix(href@));
        assert(tail@ =~= href_suffix(href@));
        Some((head, tail))
    }
}

} // verus!
