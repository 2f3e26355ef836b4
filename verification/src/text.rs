//! Character-level helpers shared by the address formatter, the template
//! parameter builder and the name resolver: decimal and hexadecimal digit
//! strings, JSON string escaping, splitting a name on dots, and suffix tests.

use vstd::prelude::*;
use vstd::string::*;

verus! {

/// Relies on `String::push` from std: appends one character to the string.
pub assume_specification[ String::push ](s: &mut String, ch: char)
    ensures
        final(s)@ == old(s)@.push(ch),
;

/// The decimal digit `d` as a character, for `d < 10`.
pub open spec fn digit_char(d: nat) -> char
    recommends
        d < 10,
{
    if d == 0 {
        '0'
    } else if d == 1 {
        '1'
    } else if d == 2 {
        '2'
    } else if d == 3 {
        '3'
    } else if d == 4 {
        '4'
    } else if d == 5 {
        '5'
    } else if d == 6 {
        '6'
    } else if d == 7 {
        '7'
    } else if d == 8 {
        '8'
    } else {
        '9'
    }
}

/// The hexadecimal digit `d` as a lower-case character, for `d < 16`.
pub open spec fn hex_digit_char(d: nat) -> char
    recommends
        d < 16,
{
    if d < 10 {
        digit_char(d)
    } else if d == 10 {
        'a'
    } else if d == 11 {
        'b'
    } else if d == 12 {
        'c'
    } else if d == 13 {
        'd'
    } else if d == 14 {
        'e'
    } else {
        'f'
    }
}

/// `n` written in decimal, without leading zeroes (`0` for zero).
pub open spec fn decimal_seq(n: nat) -> Seq<char>
    decreases n,
{
    if n < 10 {
        seq![digit_char(n)]
    } else {
        decimal_seq(n / 10).push(digit_char(n % 10))
    }
}

/// `n` written in lower-case hexadecimal, without leading zeroes.
pub open spec fn hex_seq(n: nat) -> Seq<char>
    decreases n,
{
    if n < 16 {
        seq![hex_digit_char(n)]
    } else {
        hex_seq(n / 16).push(hex_digit_char(n % 16))
    }
}

fn digit(d: u8) -> (c: char)
    requires
        d < 10,
    ensures
        c == digit_char(d as nat),
{
    if d == 0 {
        '0'
    } else if d == 1 {
        '1'
    } else if d == 2 {
        '2'
    } else if d == 3 {
        '3'
    } else if d == 4 {
        '4'
    } else if d == 5 {
        '5'
    } else if d == 6 {
        '6'
    } else if d == 7 {
        '7'
    } else if d == 8 {
        '8'
    } else {
        '9'
    }
}

fn hex_digit(d: u8) -> (c: char)
    requires
        d < 16,
    ensures
        c == hex_digit_char(d as nat),
{
    if d < 10 {
        digit(d)
    } else if d == 10 {
        'a'
    } else if d == 11 {
        'b'
    } else if d == 12 {
        'c'
    } else if d == 13 {
        'd'
    } else if d == 14 {
        'e'
    } else {
        'f'
    }
}

/// Appends `n` in decimal to `s`.
pub fn push_decimal(s: &mut String, n: usize)
    ensures
        final(s)@ == old(s)@ + decimal_seq(n as nat),
    decreases n,
{
    if n >= 10 {
        push_decimal(s, n / 10);
        s.push(digit((n % 10) as u8));
        assert(final(s)@ =~= old(s)@ + decimal_seq(n as nat));
    } else {
        s.push(digit(n as u8));
        assert(final(s)@ =~= old(s)@ + decimal_seq(n as nat));
    }
}

/// Appends `n` in lower-case hexadecimal to `s`.
pub fn push_hex(s: &mut String, n: usize)
    ensures
        final(s)@ == old(s)@ + hex_seq(n as nat),
    decreases n,
{
    if n >= 16 {
        push_hex(s, n / 16);
        s.push(hex_digit((n % 16) as u8));
        assert(final(s)@ =~= old(s)@ + hex_seq(n as nat));
    } else {
        s.push(hex_digit(n as u8));
        assert(final(s)@ =~= old(s)@ + hex_seq(n as nat));
    }
}

/// How one character is written inside a JSON string literal: quotes and
/// backslashes are escaped, control characters take the `\u00XX` form, and
/// every other character stands as it is.
pub open spec fn json_escaped_char(c: char) -> Seq<char> {
    if c == '"' {
        seq!['\\', '"']
    } else if c == '\\' {
        seq!['\\', '\\']
    } else if (c as u32) < 32 {
        seq!['\\', 'u', '0', '0', hex_digit_char(((c as u32) / 16) as nat), hex_digit_char(
            ((c as u32) % 16) as nat,
        )]
    } else {
        seq![c]
    }
}

/// The body of a JSON string literal holding the text `s`.
pub open spec fn json_escape_seq(s: Seq<char>) -> Seq<char>
    decreases s.len(),
{
    if s.len() == 0 {
        Seq::empty()
    } else {
        json_escape_seq(s.drop_last()) + json_escaped_char(s.last())
    }
}

/// A complete JSON string literal holding the text `s`, quotes included.
pub open spec fn json_string_seq(s: Seq<char>) -> Seq<char> {
    seq!['"'] + json_escape_seq(s) + seq!['"']
}

/// Appends the JSON string literal holding `s` (quotes included).
pub fn push_json_string(out: &mut String, s: &str)
    ensures
        final(out)@ == old(out)@ + json_string_seq(s@),
{
    out.push('"');
    let n = s.unicode_len();
    let mut i: usize = 0;
    while i < n
        invariant
            n == s@.len(),
            0 <= i <= n,
            out@ == old(out)@ + seq!['"'] + json_escape_seq(s@.subrange(0, i as int)),
        decreases n - i,
    {
        let c = s.get_char(i);
        if c == '"' {
            out.push('\\');
            out.push('"');
        } else if c == '\\' {
            out.push('\\');
            out.push('\\');
        } else if (c as u32) < 32 {
            out.push('\\');
            out.push('u');
            out.push('0');
            out.push('0');
            out.push(hex_digit(((c as u32) / 16) as u8));
            out.push(hex_digit(((c as u32) % 16) as u8));
        } else {
            out.push(c);
        }
        proof {
            let pre = s@.subrange(0, i as int);
            let cur = s@.subrange(0, i + 1 as int);
            assert(cur.drop_last() =~= pre);
            assert(cur.last() == s@[i as int]);
            assert(out@ =~= old(out)@ + seq!['"'] + json_escape_seq(cur));
        }
        i = i + 1;
    }
    proof {
        assert(s@.subrange(0, s@.len() as int) =~= s@);
    }
    out.push('"');
    proof {
        assert(final(out)@ =~= old(out)@ + json_string_seq(s@));
    }
}

/// Index of the first dot in `s`, or `-1` when `s` holds none.
pub open spec fn first_dot(s: Seq<char>) -> int
    decreases s.len(),
{
    if s.len() == 0 {
        -1
    } else if s[0] == '.' {
        0
    } else {
        let r = first_dot(s.drop_first());
        if r < 0 {
            -1
        } else {
            r + 1
        }
    }
}

pub proof fn lemma_first_dot_bounds(s: Seq<char>)
    ensures
        -1 <= first_dot(s) < s.len(),
        first_dot(s) >= 0 ==> s[first_dot(s)] == '.',
        forall|m: int| 0 <= m < first_dot(s) ==> s[m] != '.',
        first_dot(s) == -1 ==> forall|m: int| 0 <= m < s.len() ==> s[m] != '.',
    decreases s.len(),
{
    if s.len() == 0 {
    } else if s[0] == '.' {
    } else {
        lemma_first_dot_bounds(s.drop_first());
        assert(forall|m: int| 1 <= m < s.len() ==> s[m] == s.drop_first()[m - 1]);
    }
}

/// The converse direction: a dot at `j` with none before it pins `first_dot`.
pub proof fn lemma_first_dot_at(s: Seq<char>, j: int)
    requires
        0 <= j < s.len(),
        s[j] == '.',
        forall|m: int| 0 <= m < j ==> s[m] != '.',
    ensures
        first_dot(s) == j,
    decreases s.len(),
{
    if j == 0 {
    } else {
        assert(forall|m: int| 0 <= m < j - 1 ==> s.drop_first()[m] == s[m + 1]);
        lemma_first_dot_at(s.drop_first(), j - 1);
    }
}

/// The labels of `s`, split on dots, left to right. A name without dots is
/// one label; every dot separates two labels, so consecutive dots and dots at
/// either end yield empty labels.
pub open spec fn split_dots(s: Seq<char>) -> Seq<Seq<char>>
    decreases s.len(),
    via split_dots_decreases
{
    let i = first_dot(s);
    if i < 0 {
        seq![s]
    } else {
        seq![s.subrange(0, i)] + split_dots(s.subrange(i + 1, s.len() as int))
    }
}

#[via_fn]
proof fn split_dots_decreases(s: Seq<char>) {
    lemma_first_dot_bounds(s);
}

/// Splits `name` on dots into its labels, left to right.
pub fn split_labels(name: &str) -> (labels: Vec<String>)
    ensures
        labels.deep_view() == split_dots(name@),
{
    let n = name.unicode_len();
    let mut labels: Vec<String> = Vec::new();
    let mut start: usize = 0;
    let mut i: usize = 0;
    proof {
        assert(labels.deep_view() =~~= Seq::<Seq<char>>::empty());
        assert(name@.subrange(0, n as int) =~= name@);
    }
    while i < n
        invariant
            n == name@.len(),
            0 <= start <= i <= n,
            forall|m: int| start <= m < i ==> name@[m] != '.',
            split_dots(name@) =~~= labels.deep_view() + split_dots(
                name@.subrange(start as int, n as int),
            ),
        decreases n - i,
    {
        let c = name.get_char(i);
        if c == '.' {
            let label = name.substring_char(start, i);
            labels.push(String::from_str(label));
            proof {
                let rest = name@.subrange(start as int, n as int);
                assert(forall|m: int| 0 <= m < i - start ==> rest[m] == name@[start + m]);
                assert(rest[i - start as int] == '.');
                lemma_first_dot_at(rest, i - start as int);
                assert(rest.subrange(0, i - start as int) =~= name@.subrange(
                    start as int,
                    i as int,
                ));
                assert(rest.subrange(i - start + 1, rest.len() as int) =~= name@.subrange(
                    i + 1 as int,
                    n as int,
                ));
                assert(split_dots(name@) =~~= labels.deep_view() + split_dots(
                    name@.subrange(i + 1 as int, n as int),
                ));
            }
            start = i + 1;
        }
        i = i + 1;
    }
    let label = name.substring_char(start, n);
    labels.push(String::from_str(label));
    proof {
        let rest = name@.subrange(start as int, n as int);
        assert(forall|m: int| 0 <= m < rest.len() ==> rest[m] == name@[start + m]);
        lemma_first_dot_bounds(rest);
        assert(first_dot(rest) == -1);
        assert(split_dots(rest) =~~= seq![rest]);
        assert(labels.deep_view() =~~= split_dots(name@));
    }
    labels
}

/// `suffix` stands at the end of `s`.
pub open spec fn suffix_matches(suffix: Seq<char>, s: Seq<char>) -> bool {
    suffix.len() <= s.len() && s.subrange(s.len() - suffix.len(), s.len() as int) == suffix
}

/// Whether `s` ends with `suffix`.
pub fn str_ends_with(s: &str, suffix: &str) -> (r: bool)
    ensures
        r == suffix_matches(suffix@, s@),
{
    let n = s.unicode_len();
    let k = suffix.unicode_len();
    if k > n {
        return false;
    }
    let mut i: usize = 0;
    while i < k
        invariant
            n == s@.len(),
            k == suffix@.len(),
            k <= n,
            0 <= i <= k,
            forall|m: int| 0 <= m < i ==> s@[n - k + m] == suffix@[m],
        decreases k - i,
    {
        if s.get_char(n - k + i) != suffix.get_char(i) {
            proof {
                let tail = s@.subrange(n - k as int, n as int);
                assert(tail[i as int] == s@[n - k + i]);
                assert(tail[i as int] != suffix@[i as int]);
            }
            return false;
        }
        i = i + 1;
    }
    proof {
        assert(s@.subrange(n - k as int, n as int) =~= suffix@);
    }
    true
}

} // verus!
