//! Small text-level building blocks shared by the collectors and the
//! transport: decimal rendering, hexadecimal values, token splitting and
//! first-occurrence scans over character sequences.

use vstd::prelude::*;
use vstd::string::*;

verus! {

/// The decimal digit character for a value below ten.
pub open spec fn dec_digit(d: int) -> char
    recommends
        0 <= d < 10,
{
    if d == 0 {
        '0'
    } else if d == 1 {
        '1'
    } else if d == 2 {
        '2'
    } else if d == 3 {
        '3'
    } else if d == 4 {
        '4'
    } else if d == 5 {
        '5'
    } else if d == 6 {
        '6'
    } else if d == 7 {
        '7'
    } else if d == 8 {
        '8'
    } else {
        '9'
    }
}

/// The usual decimal rendering of a non-negative integer, most significant
/// digit first, with no leading zeros (a lone zero for zero).
pub open spec fn dec_rep(n: int) -> Seq<char>
    recommends
        n >= 0,
    decreases n,
{
    if n < 10 {
        seq![dec_digit(n)]
    } else {
        dec_rep(n / 10).push(dec_digit(n % 10))
    }
}

fn dec_digit_str(d: u64) -> (r: &'static str)
    requires
        d < 10,
    ensures
        r@ == seq![dec_digit(d as int)],
{
    proof {
        reveal_strlit("0");
        reveal_strlit("1");
        reveal_strlit("2");
        reveal_strlit("3");
        reveal_strlit("4");
        reveal_strlit("5");
        reveal_strlit("6");
        reveal_strlit("7");
        reveal_strlit("8");
        reveal_strlit("9");
    }
    let r = match d {
        0 => "0",
        1 => "1",
        2 => "2",
        3 => "3",
        4 => "4",
        5 => "5",
        6 => "6",
        7 => "7",
        8 => "8",
        _ => "9",
    };
    assert(r@ =~= seq![dec_digit(d as int)]);
    r
}

/// Renders a number in decimal.
pub fn u64_to_dec_string(n: u64) -> (r: String)
    ensures
        r@ == dec_rep(n as int),
    decreases n,
{
    if n < 10 {
        String::from_str(dec_digit_str(n))
    } else {
        let prefix = u64_to_dec_string(n / 10);
        let r = prefix.concat(dec_digit_str(n % 10));
        assert(r@ =~= dec_rep(n as int));
        r
    }
}

/// Index of the first `true` in a sequence of outcomes; the length if none.
pub open spec fn first_true(s: Seq<bool>) -> int
    decreases s.len(),
{
    if s.len() == 0 {
        0
    } else if s[0] {
        0
    } else {
        1 + first_true(s.skip(1))
    }
}

pub proof fn lemma_first_true(s: Seq<bool>)
    ensures
        0 <= first_true(s) <= s.len(),
        forall|j: int| 0 <= j < first_true(s) ==> !s[j],
        first_true(s) < s.len() ==> s[first_true(s)],
    decreases s.len(),
{
    if s.len() == 0 {
    } else if s[0] {
    } else {
        lemma_first_true(s.skip(1));
        assert forall|j: int| 0 <= j < first_true(s) implies !s[j] by {
            if j > 0 {
                assert(!s.skip(1)[j - 1]);
            }
        }
        if first_true(s) < s.len() {
            assert(s.skip(1)[first_true(s) - 1]);
        }
    }
}

/// A scan that has seen `i` outcomes, none of them `true`, pins the first
/// `true` of the whole sequence beyond `i`.
pub proof fn lemma_first_true_beyond(s: Seq<bool>, i: int)
    requires
        0 <= i <= s.len(),
        forall|j: int| 0 <= j < i ==> !s[j],
    ensures
        first_true(s) >= i,
    decreases i,
{
    lemma_first_true(s);
    if i > 0 {
        assert(!s[0]);
        assert forall|j: int| 0 <= j < i - 1 implies !s.skip(1)[j] by {
            assert(!s[j + 1]);
        }
        lemma_first_true_beyond(s.skip(1), i - 1);
    }
}

/// An ASCII decimal digit.
pub open spec fn is_ascii_digit(c: char) -> bool {
    48 <= c as u32 && c as u32 <= 57
}

/// An ASCII hexadecimal digit, either case.
pub open spec fn is_hex_digit(c: char) -> bool {
    ||| is_ascii_digit(c)
    ||| 97 <= c as u32 && c as u32 <= 102
    ||| 65 <= c as u32 && c as u32 <= 70
}

/// The value of one hexadecimal digit.
pub open spec fn hex_digit_val(c: char) -> int
    recommends
        is_hex_digit(c),
{
    if is_ascii_digit(c) {
        c as u32 - 48
    } else if 97 <= c as u32 && c as u32 <= 102 {
        c as u32 - 87
    } else {
        c as u32 - 55
    }
}

/// Every character is a hexadecimal digit.
pub open spec fn all_hex(s: Seq<char>) -> bool {
    forall|i: int| 0 <= i < s.len() ==> is_hex_digit(s[i])
}

/// Every character is a decimal digit.
pub open spec fn all_digits(s: Seq<char>) -> bool {
    forall|i: int| 0 <= i < s.len() ==> is_ascii_digit(s[i])
}

/// The value of a big-endian string of hexadecimal digits.
pub open spec fn hex_val(s: Seq<char>) -> int
    recommends
        all_hex(s),
    decreases s.len(),
{
    if s.len() == 0 {
        0
    } else {
        16 * hex_val(s.drop_last()) + hex_digit_val(s.last())
    }
}

/// The value of a big-endian string of decimal digits.
pub open spec fn dec_val(s: Seq<char>) -> int
    recommends
        all_digits(s),
    decreases s.len(),
{
    if s.len() == 0 {
        0
    } else {
        10 * dec_val(s.drop_last()) + (s.last() as u32 - 48)
    }
}

pub proof fn lemma_hex_val_nonneg(s: Seq<char>)
    requires
        all_hex(s),
    ensures
        hex_val(s) >= 0,
    decreases s.len(),
{
    if s.len() > 0 {
        assert(all_hex(s.drop_last()));
        lemma_hex_val_nonneg(s.drop_last());
    }
}

/// A prefix of a hexadecimal string never exceeds the whole string's value.
pub proof fn lemma_hex_val_prefix(s: Seq<char>, i: int)
    requires
        all_hex(s),
        0 <= i <= s.len(),
    ensures
        hex_val(s.take(i)) <= hex_val(s),
    decreases s.len(),
{
    if i == s.len() {
        assert(s.take(i) =~= s);
    } else {
        let head = s.drop_last();
        assert(all_hex(head));
        lemma_hex_val_nonneg(head);
        lemma_hex_val_prefix(head, i);
        assert(head.take(i) =~= s.take(i));
    }
}

/// Unrolls `hex_val` one digit forward.
pub proof fn lemma_hex_val_step(s: Seq<char>, i: int)
    requires
        0 <= i < s.len(),
    ensures
        hex_val(s.take(i + 1)) == 16 * hex_val(s.take(i)) + hex_digit_val(s[i]),
{
    assert(s.take(i + 1).drop_last() =~= s.take(i));
    assert(s.take(i + 1).last() == s[i]);
}

pub proof fn lemma_dec_val_nonneg(s: Seq<char>)
    requires
        all_digits(s),
    ensures
        dec_val(s) >= 0,
    decreases s.len(),
{
    if s.len() > 0 {
        assert(all_digits(s.drop_last()));
        lemma_dec_val_nonneg(s.drop_last());
    }
}

/// A prefix of a decimal string never exceeds the whole string's value.
pub proof fn lemma_dec_val_prefix(s: Seq<char>, i: int)
    requires
        all_digits(s),
        0 <= i <= s.len(),
    ensures
        dec_val(s.take(i)) <= dec_val(s),
    decreases s.len(),
{
    if i == s.len() {
        assert(s.take(i) =~= s);
    } else {
        let head = s.drop_last();
        assert(all_digits(head));
        lemma_dec_val_nonneg(head);
        lemma_dec_val_prefix(head, i);
        assert(head.take(i) =~= s.take(i));
    }
}

/// Unrolls `dec_val` one digit forward.
pub proof fn lemma_dec_val_step(s: Seq<char>, i: int)
    requires
        0 <= i < s.len(),
    ensures
        dec_val(s.take(i + 1)) == 10 * dec_val(s.take(i)) + (s[i] as u32 - 48),
{
    assert(s.take(i + 1).drop_last() =~= s.take(i));
    assert(s.take(i + 1).last() == s[i]);
}

fn hex_digit_value(c: char) -> (r: Option<u8>)
    ensures
        r is Some <==> is_hex_digit(c),
        r matches Some(v) ==> v == hex_digit_val(c),
{
    let u = c as u32;
    if 48 <= u && u <= 57 {
        Some((u - 48) as u8)
    } else if 97 <= u && u <= 102 {
        Some((u - 87) as u8)
    } else if 65 <= u && u <= 70 {
        Some((u - 55) as u8)
    } else {
        None
    }
}

/// Reads a non-empty string of hexadecimal digits as a big-endian value,
/// rejecting anything over `max` (and any malformed string).
pub fn parse_hex_bounded(s: &str, max: u64) -> (r: Option<u64>)
    requires
        max <= 0xFFFF_FFFF,
    ensures
        r is Some <==> (s@.len() > 0 && all_hex(s@) && hex_val(s@) <= max),
        r matches Some(v) ==> v == hex_val(s@),
{
    let n = s.unicode_len();
    if n == 0 {
        return None;
    }
    let mut acc: u64 = 0;
    let mut i: usize = 0;
    while i < n
        invariant
            n == s@.len(),
            i <= n,
            max <= 0xFFFF_FFFF,
            forall|j: int| 0 <= j < i ==> is_hex_digit(s@[j]),
            acc == hex_val(s@.take(i as int)),
            acc <= max,
        decreases n - i,
    {
        let c = s.get_char(i);
        match hex_digit_value(c) {
            None => {
                return None;
            },
            Some(d) => {
                let v = acc * 16 + d as u64;
                proof {
                    lemma_hex_val_step(s@, i as int);
                }
                if v > max {
                    proof {
                        if all_hex(s@) {
                            lemma_hex_val_prefix(s@, i as int + 1);
                        }
                    }
                    return None;
                }
                acc = v;
                i += 1;
            },
        }
    }
    proof {
        assert(s@.take(n as int) =~= s@);
    }
    Some(acc)
}

/// Reads a non-empty string of decimal digits as a value that fits in 32
/// bits, rejecting anything larger (and any malformed string).
pub fn parse_dec_u32(s: &str) -> (r: Option<u32>)
    ensures
        r is Some <==> (s@.len() > 0 && all_digits(s@) && dec_val(s@) <= u32::MAX),
        r matches Some(v) ==> v == dec_val(s@),
{
    let n = s.unicode_len();
    if n == 0 {
        return None;
    }
    let mut acc: u64 = 0;
    let mut i: usize = 0;
    while i < n
        invariant
            n == s@.len(),
            i <= n,
            forall|j: int| 0 <= j < i ==> is_ascii_digit(s@[j]),
            acc == dec_val(s@.take(i as int)),
            acc <= u32::MAX,
        decreases n - i,
    {
        let c = s.get_char(i);
        let u = c as u32;
        if !(48 <= u && u <= 57) {
            return None;
        }
        let v = acc * 10 + (u - 48) as u64;
        proof {
            lemma_dec_val_step(s@, i as int);
        }
        if v > u32::MAX as u64 {
            proof {
                if all_digits(s@) {
                    lemma_dec_val_prefix(s@, i as int + 1);
                }
            }
            return None;
        }
        acc = v;
        i += 1;
    }
    proof {
        assert(s@.take(n as int) =~= s@);
    }
    Some(acc as u32)
}

/// Whether a directory-entry name is purely numeric, the way process
/// entries of the process listing are named.
pub fn is_numeric_name(s: &str) -> (r: bool)
    ensures
        r == all_digits(s@),
{
    let n = s.unicode_len();
    let mut i: usize = 0;
    while i < n
        invariant
            n == s@.len(),
            i <= n,
            forall|j: int| 0 <= j < i ==> is_ascii_digit(s@[j]),
        decreases n - i,
    {
        let u = s.get_char(i) as u32;
        if !(48 <= u && u <= 57) {
            return false;
        }
        i += 1;
    }
    true
}

/// Index of the first space; the length if there is none.
pub open spec fn first_space(s: Seq<char>) -> int
    decreases s.len(),
{
    if s.len() == 0 {
        0
    } else if s[0] == ' ' {
        0
    } else {
        1 + first_space(s.skip(1))
    }
}

pub proof fn lemma_first_space(s: Seq<char>)
    ensures
        0 <= first_space(s) <= s.len(),
        forall|j: int| 0 <= j < first_space(s) ==> s[j] != ' ',
        first_space(s) < s.len() ==> s[first_space(s)] == ' ',
        s.len() > 0 && s[0] != ' ' ==> first_space(s) >= 1,
    decreases s.len(),
{
    if s.len() == 0 {
    } else if s[0] == ' ' {
    } else {
        lemma_first_space(s.skip(1));
        assert forall|j: int| 0 <= j < first_space(s) implies s[j] != ' ' by {
            if j > 0 {
                assert(s.skip(1)[j - 1] != ' ');
            }
        }
        if first_space(s) < s.len() {
            assert(s.skip(1)[first_space(s) - 1] == ' ');
        }
    }
}

/// A scan that has seen `i` characters, none of them a space, pins the
/// first space beyond `i`.
pub proof fn lemma_first_space_beyond(s: Seq<char>, i: int)
    requires
        0 <= i <= s.len(),
        forall|j: int| 0 <= j < i ==> s[j] != ' ',
    ensures
        first_space(s) >= i,
    decreases i,
{
    lemma_first_space(s);
    if i > 0 {
        assert forall|j: int| 0 <= j < i - 1 implies s.skip(1)[j] != ' ' by {
            assert(s[j + 1] != ' ');
        }
        lemma_first_space_beyond(s.skip(1), i - 1);
    }
}

/// The maximal space-free tokens of a line, in order: what splitting on
/// runs of spaces yields.
pub open spec fn split_tokens(s: Seq<char>) -> Seq<Seq<char>>
    decreases s.len(),
    when true
    via split_tokens_decreases
{
    if s.len() == 0 {
        Seq::empty()
    } else if s[0] == ' ' {
        split_tokens(s.skip(1))
    } else {
        seq![s.take(first_space(s))] + split_tokens(s.skip(first_space(s)))
    }
}

#[via_fn]
proof fn split_tokens_decreases(s: Seq<char>) {
    if s.len() > 0 && s[0] != ' ' {
        lemma_first_space(s);
    }
}

/// Splits a line into its space-delimited columns.
pub fn split_columns(s: &str) -> (r: Vec<String>)
    ensures
        r@.map_values(|t: String| t@) == split_tokens(s@),
{
    let n = s.unicode_len();
    let mut out: Vec<String> = Vec::new();
    let mut i: usize = 0;
    proof {
        assert(s@.skip(0) =~= s@);
        assert(out@.map_values(|t: String| t@) + split_tokens(s@) =~= split_tokens(s@));
    }
    while i < n
        invariant
            n == s@.len(),
            i <= n,
            out@.map_values(|t: String| t@) + split_tokens(s@.skip(i as int)) == split_tokens(s@),
        decreases n - i,
    {
        let ghost prefix = out@.map_values(|t: String| t@);
        let c = s.get_char(i);
        if c == ' ' {
            proof {
                assert(s@.skip(i as int).skip(1) =~= s@.skip(i as int + 1));
            }
            i += 1;
        } else {
            let mut j = i + 1;
            while j < n && s.get_char(j) != ' '
                invariant
                    n == s@.len(),
                    i < j <= n,
                    forall|k: int| i < k < j ==> s@[k] != ' ',
                decreases n - j,
            {
                j += 1;
            }
            let token = s.substring_char(i, j);
            proof {
                let rest = s@.skip(i as int);
                lemma_first_space(rest);
                assert forall|k: int| 0 <= k < j - i implies rest[k] != ' ' by {
                    assert(s@[i + k] != ' ');
                }
                lemma_first_space_beyond(rest, j - i);
                if j < n {
                    assert(rest[j - i] == s@[j as int]);
                    assert(first_space(rest) <= j - i);
                }
                assert(first_space(rest) == j - i);
                assert(rest.take(j - i) =~= s@.subrange(i as int, j as int));
                assert(rest.skip(j - i) =~= s@.skip(j as int));
            }
            out.push(String::from_str(token));
            proof {
                let rest = s@.skip(i as int);
                assert(out@.map_values(|t: String| t@) =~= prefix + seq![token@]);
                assert(seq![token@] + split_tokens(s@.skip(j as int)) == split_tokens(rest));
                assert((prefix + seq![token@]) + split_tokens(s@.skip(j as int)) =~= prefix + (
                seq![token@] + split_tokens(s@.skip(j as int))));
            }
            i = j;
        }
    }
    proof {
        assert(s@.skip(n as int) =~= Seq::<char>::empty());
        assert(split_tokens(Seq::<char>::empty()) =~= Seq::<Seq<char>>::empty());
        assert(out@.map_values(|t: String| t@) =~= out@.map_values(|t: String| t@) + Seq::<
            Seq<char>,
        >::empty());
    }
    out
}

/// Index of the first colon; the length if there is none.
pub open spec fn first_colon(s: Seq<char>) -> int
    decreases s.len(),
{
    if s.len() == 0 {
        0
    } else if s[0] == ':' {
        0
    } else {
        1 + first_colon(s.skip(1))
    }
}

pub proof fn lemma_first_colon(s: Seq<char>)
    ensures
        0 <= first_colon(s) <= s.len(),
        forall|j: int| 0 <= j < first_colon(s) ==> s[j] != ':',
        first_colon(s) < s.len() ==> s[first_colon(s)] == ':',
    decreases s.len(),
{
    if s.len() == 0 {
    } else if s[0] == ':' {
    } else {
        lemma_first_colon(s.skip(1));
        assert forall|j: int| 0 <= j < first_colon(s) implies s[j] != ':' by {
            if j > 0 {
                assert(s.skip(1)[j - 1] != ':');
            }
        }
        if first_colon(s) < s.len() {
            assert(s.skip(1)[first_colon(s) - 1] == ':');
        }
    }
}

/// A scan that has seen `i` characters, none of them a colon, pins the
/// first colon beyond `i`.
pub proof fn lemma_first_colon_beyond(s: Seq<char>, i: int)
    requires
        0 <= i <= s.len(),
        forall|j: int| 0 <= j < i ==> s[j] != ':',
    ensures
        first_colon(s) >= i,
    decreases i,
{
    lemma_first_colon(s);
    if i > 0 {
        assert forall|j: int| 0 <= j < i - 1 implies s.skip(1)[j] != ':' by {
            assert(s[j + 1] != ':');
        }
        lemma_first_colon_beyond(s.skip(1), i - 1);
    }
}

/// Whether `needle` occurs contiguously inside `hay`.
pub open spec fn contains_seq(hay: Seq<char>, needle: Seq<char>) -> bool {
    exists|k: int|
        0 <= k && k + needle.len() <= hay.len() && #[trigger] hay.subrange(k, k + needle.len())
            == needle
}

/// Substring search: whether `needle` occurs inside `hay`.
pub fn str_contains(hay: &str, needle: &str) -> (r: bool)
    ensures
        r == contains_seq(hay@, needle@),
{
    let n = hay.unicode_len();
    let m = needle.unicode_len();
    if m > n {
        proof {
            assert(!contains_seq(hay@, needle@));
        }
        return false;
    }
    if m == 0 {
        proof {
            assert(hay@.subrange(0, 0 + needle@.len() as int) =~= needle@);
        }
        return true;
    }
    let mut k: usize = 0;
    while k <= n - m
        invariant
            n == hay@.len(),
            m == needle@.len(),
            0 < m <= n,
            k <= n - m + 1,
            forall|k2: int|
                0 <= k2 < k ==> #[trigger] hay@.subrange(k2, k2 + needle@.len()) != needle@,
        decreases n - k,
    {
        let mut j: usize = 0;
        let mut matched = true;
        while j < m
            invariant
                n == hay@.len(),
                m == needle@.len(),
                k + m <= n,
                j <= m,
                matched ==> forall|j2: int| 0 <= j2 < j ==> hay@[k + j2] == needle@[j2],
                !matched ==> hay@.subrange(k as int, k as int + m) != needle@,
            decreases m - j,
        {
            if hay.get_char(k + j) != needle.get_char(j) {
                proof {
                    assert(hay@.subrange(k as int, k as int + m)[j as int] != needle@[j as int]);
                }
                matched = false;
                j = m;
            } else {
                j += 1;
            }
        }
        if matched {
            proof {
                assert(hay@.subrange(k as int, k as int + m) =~= needle@);
            }
            return true;
        }
        k += 1;
    }
    proof {
        assert forall|k2: int| 0 <= k2 && k2 + needle@.len() <= hay@.len() implies #[trigger] hay@.subrange(
            k2,
            k2 + needle@.len(),
        ) != needle@ by {
            assert(k2 < k);
        }
    }
    false
}

/// A character that ends the command token of a raw command line: the NUL
/// that delimits its arguments, or a space inside the first argument.
pub open spec fn is_command_break(c: char) -> bool {
    c == '\0' || c == ' '
}

/// Index of the first command break; the length if there is none.
pub open spec fn first_break(s: Seq<char>) -> int
    decreases s.len(),
{
    if s.len() == 0 {
        0
    } else if is_command_break(s[0]) {
        0
    } else {
        1 + first_break(s.skip(1))
    }
}

pub proof fn lemma_first_break(s: Seq<char>)
    ensures
        0 <= first_break(s) <= s.len(),
        forall|j: int| 0 <= j < first_break(s) ==> !is_command_break(s[j]),
        first_break(s) < s.len() ==> is_command_break(s[first_break(s)]),
    decreases s.len(),
{
    if s.len() == 0 {
    } else if is_command_break(s[0]) {
    } else {
        lemma_first_break(s.skip(1));
        assert forall|j: int| 0 <= j < first_break(s) implies !is_command_break(s[j]) by {
            if j > 0 {
                assert(!is_command_break(s.skip(1)[j - 1]));
            }
        }
        if first_break(s) < s.len() {
            assert(is_command_break(s.skip(1)[first_break(s) - 1]));
        }
    }
}

/// A scan that has seen `i` characters, none of them a break, pins the
/// first break beyond `i`.
pub proof fn lemma_first_break_beyond(s: Seq<char>, i: int)
    requires
        0 <= i <= s.len(),
        forall|j: int| 0 <= j < i ==> !is_command_break(s[j]),
    ensures
        first_break(s) >= i,
    decreases i,
{
    lemma_first_break(s);
    if i > 0 {
        assert forall|j: int| 0 <= j < i - 1 implies !is_command_break(s.skip(1)[j]) by {
            assert(!is_command_break(s[j + 1]));
        }
        lemma_first_break_beyond(s.skip(1), i - 1);
    }
}

/// The command named by a raw NUL-delimited command line: the first
/// whitespace token of the first NUL-delimited field, that is, the longest
/// prefix holding neither a NUL nor a space.
pub open spec fn command_of(cmdline: Seq<char>) -> Seq<char> {
    cmdline.take(first_break(cmdline))
}

/// Extracts the command token of a raw command line.
pub fn command_token(s: &str) -> (r: String)
    ensures
        r@ == command_of(s@),
{
    let n = s.unicode_len();
    let mut i: usize = 0;
    while i < n && s.get_char(i) != '\0' && s.get_char(i) != ' '
        invariant
            n == s@.len(),
            i <= n,
            forall|j: int| 0 <= j < i ==> !is_command_break(s@[j]),
        decreases n - i,
    {
        i += 1;
    }
    proof {
        lemma_first_break(s@);
        lemma_first_break_beyond(s@, i as int);
        assert(first_break(s@) == i);
    }
    let token = s.substring_char(0, i);
    proof {
        assert(token@ =~= command_of(s@));
    }
    String::from_str(token)
}

/// Index of the first `false` in a sequence of outcomes; the length if none.
pub open spec fn first_false(s: Seq<bool>) -> int
    decreases s.len(),
{
    if s.len() == 0 {
        0
    } else if !s[0] {
        0
    } else {
        1 + first_false(s.skip(1))
    }
}

pub proof fn lemma_first_false(s: Seq<bool>)
    ensures
        0 <= first_false(s) <= s.len(),
        forall|j: int| 0 <= j < first_false(s) ==> s[j],
        first_false(s) < s.len() ==> !s[first_false(s)],
    decreases s.len(),
{
    if s.len() == 0 {
    } else if !s[0] {
    } else {
        lemma_first_false(s.skip(1));
        assert forall|j: int| 0 <= j < first_false(s) implies s[j] by {
            if j > 0 {
                assert(s.skip(1)[j - 1]);
            }
        }
        if first_false(s) < s.len() {
            assert(!s.skip(1)[first_false(s) - 1]);
        }
    }
}

/// A scan that has seen `i` outcomes, all of them `true`, pins the first
/// `false` of the whole sequence beyond `i`.
pub proof fn lemma_first_false_beyond(s: Seq<bool>, i: int)
    requires
        0 <= i <= s.len(),
        forall|j: int| 0 <= j < i ==> s[j],
    ensures
        first_false(s) >= i,
    decreases i,
{
    lemma_first_false(s);
    if i > 0 {
        assert(s[0]);
        assert forall|j: int| 0 <= j < i - 1 implies s.skip(1)[j] by {
            assert(s[j + 1]);
        }
        lemma_first_false_beyond(s.skip(1), i - 1);
    }
}

} // verus!
