//! Small operations on strings that the rest of the library builds on: decimal numbers
//! written out and read back, prefixes, and the last component of a path; and strings
//! taken as values, for contracts.

use vstd::prelude::*;
use vstd::string::StrSliceExecFns;
use vstd::string::StringExecFns;

verus! {

/// Strings as values.
pub open spec fn spec_string_views(strings: Seq<String>) -> Seq<Seq<char>> {
    Seq::new(strings.len(), |i: int| strings[i]@)
}

/// Pairs of strings as values.
pub open spec fn spec_pair_views(pairs: Seq<(String, String)>) -> Seq<(Seq<char>, Seq<char>)> {
    Seq::new(pairs.len(), |i: int| (pairs[i].0@, pairs[i].1@))
}

/// An optional string as a value.
pub open spec fn spec_option_view(s: Option<String>) -> Option<Seq<char>> {
    match s {
        Some(s) => Some(s@),
        None => None,
    }
}

/// The character that stands for the digit `d`.
pub open spec fn spec_digit_char(d: int) -> char {
    if d == 0 {
        '0'
    } else if d == 1 {
        '1'
    } else if d == 2 {
        '2'
    } else if d == 3 {
        '3'
    } else if d == 4 {
        '4'
    } else if d == 5 {
        '5'
    } else if d == 6 {
        '6'
    } else if d == 7 {
        '7'
    } else if d == 8 {
        '8'
    } else {
        '9'
    }
}

/// The digit that `c` stands for, or nothing where it stands for none.
pub open spec fn spec_digit_value(c: char) -> Option<int> {
    if c == '0' {
        Some(0)
    } else if c == '1' {
        Some(1)
    } else if c == '2' {
        Some(2)
    } else if c == '3' {
        Some(3)
    } else if c == '4' {
        Some(4)
    } else if c == '5' {
        Some(5)
    } else if c == '6' {
        Some(6)
    } else if c == '7' {
        Some(7)
    } else if c == '8' {
        Some(8)
    } else if c == '9' {
        Some(9)
    } else {
        None
    }
}

/// `n` written in decimal, without leading zeros.
pub open spec fn spec_decimal(n: nat) -> Seq<char>
    decreases n,
{
    if n < 10 {
        seq![spec_digit_char(n as int)]
    } else {
        spec_decimal(n / 10).push(spec_digit_char((n % 10) as int))
    }
}

/// Whether every character is a decimal digit.
pub open spec fn spec_all_digits(s: Seq<char>) -> bool {
    forall|i: int| 0 <= i < s.len() ==> spec_digit_value(#[trigger] s[i]).is_some()
}

/// The number that the digits `s` stand for in decimal.
pub open spec fn spec_decimal_value(s: Seq<char>) -> nat
    decreases s.len(),
{
    if s.len() == 0 {
        0
    } else {
        let last = match spec_digit_value(s.last()) {
            Some(d) => d,
            None => 0,
        };
        (spec_decimal_value(s.drop_last()) * 10 + last) as nat
    }
}

/// The number that `s` stands for as a `u32`, or nothing where it stands for none: an
/// optional `+`, then at least one decimal digit and nothing else, the number being at
/// most `u32::MAX`.
pub open spec fn spec_parse_u32(s: Seq<char>) -> Option<u32> {
    let digits = if s.len() > 0 && s[0] == '+' {
        s.subrange(1, s.len() as int)
    } else {
        s
    };
    if digits.len() > 0 && spec_all_digits(digits) && spec_decimal_value(digits) <= u32::MAX {
        Some(spec_decimal_value(digits) as u32)
    } else {
        None
    }
}

/// Place of the first `c` in `s` at or behind `from`, or the length of `s` where there
/// is none.
pub open spec fn spec_find(s: Seq<char>, c: char, from: int) -> int
    decreases s.len() - from,
{
    if from < 0 || from >= s.len() {
        s.len() as int
    } else if s[from] == c {
        from
    } else {
        spec_find(s, c, from + 1)
    }
}

/// Whether `s` starts with `prefix`.
pub open spec fn spec_starts_with(s: Seq<char>, prefix: Seq<char>) -> bool {
    prefix.len() <= s.len() && s.subrange(0, prefix.len() as int) == prefix
}

/// Start of the last component of the path `s[..end]`, the component ending at `end`:
/// the place behind the last `/` in front of `end`.
pub open spec fn spec_component_start(s: Seq<char>, end: int) -> int
    decreases end,
{
    if end <= 0 {
        0
    } else if end <= s.len() && s[end - 1] == '/' {
        end
    } else {
        spec_component_start(s, end - 1)
    }
}

/// The file name of the path `s[..end]`: its last component, where components are
/// parted by `/`, empty components and `.` count for nothing, and a path that ends in
/// `..` or has no component has no file name, which is given as the empty string.
pub open spec fn spec_file_name_upto(s: Seq<char>, end: int) -> Seq<char>
    decreases end,
{
    if end <= 0 || end > s.len() {
        Seq::empty()
    } else {
        let start = spec_component_start(s, end);
        let component = s.subrange(start, end);
        if component.len() == 0 {
            spec_file_name_upto(s, end - 1)
        } else if component == seq!['.'] {
            spec_file_name_upto(s, end - 1)
        } else if component == seq!['.', '.'] {
            Seq::empty()
        } else {
            component
        }
    }
}

/// The file name of the path `s`.
pub open spec fn spec_file_name(s: Seq<char>) -> Seq<char> {
    spec_file_name_upto(s, s.len() as int)
}

pub proof fn lemma_component_start_bounds(s: Seq<char>, end: int)
    requires
        0 <= end <= s.len(),
    ensures
        0 <= spec_component_start(s, end) <= end,
    decreases end,
{
    if end > 0 && s[end - 1] != '/' {
        lemma_component_start_bounds(s, end - 1);
    }
}

pub proof fn lemma_find_bounds(s: Seq<char>, c: char, from: int)
    requires
        0 <= from <= s.len(),
    ensures
        from <= spec_find(s, c, from) <= s.len(),
        spec_find(s, c, from) < s.len() ==> s[spec_find(s, c, from)] == c,
    decreases s.len() - from,
{
    if from < s.len() && s[from] != c {
        lemma_find_bounds(s, c, from + 1);
    }
}

/// More digits never stand for a smaller number.
pub proof fn lemma_decimal_value_grows(s: Seq<char>, k: int)
    requires
        0 <= k <= s.len(),
    ensures
        spec_decimal_value(s.take(k)) <= spec_decimal_value(s),
    decreases s.len() - k,
{
    if k < s.len() {
        lemma_decimal_value_grows(s.drop_last(), k);
        assert(s.drop_last().take(k) == s.take(k));
    } else {
        assert(s.take(k) == s);
    }
}

/// The digit `d` as a string.
pub fn digit_str(d: u64) -> (s: &'static str)
    requires
        d < 10,
    ensures
        s@ == seq![spec_digit_char(d as int)],
{
    proof {
        reveal_strlit("0");
        reveal_strlit("1");
        reveal_strlit("2");
        reveal_strlit("3");
        reveal_strlit("4");
        reveal_strlit("5");
        reveal_strlit("6");
        reveal_strlit("7");
        reveal_strlit("8");
        reveal_strlit("9");
    }
    let s = if d == 0 {
        "0"
    } else if d == 1 {
        "1"
    } else if d == 2 {
        "2"
    } else if d == 3 {
        "3"
    } else if d == 4 {
        "4"
    } else if d == 5 {
        "5"
    } else if d == 6 {
        "6"
    } else if d == 7 {
        "7"
    } else if d == 8 {
        "8"
    } else {
        "9"
    };
    assert(s@ =~= seq![spec_digit_char(d as int)]);
    s
}

/// `n` written in decimal.
pub fn decimal_string(n: u64) -> (s: String)
    ensures
        s@ == spec_decimal(n as nat),
    decreases n,
{
    if n < 10 {
        String::from_str(digit_str(n))
    } else {
        let mut s = decimal_string(n / 10);
        s.append(digit_str(n % 10));
        assert(s@ =~= spec_decimal((n / 10) as nat).push(spec_digit_char((n % 10) as int)));
        s
    }
}

/// The digit that `c` stands for.
pub fn digit_value(c: char) -> (d: Option<u64>)
    ensures
        match d {
            Some(d) => spec_digit_value(c) == Some(d as int) && d < 10,
            None => spec_digit_value(c).is_none(),
        },
{
    if c == '0' {
        Some(0)
    } else if c == '1' {
        Some(1)
    } else if c == '2' {
        Some(2)
    } else if c == '3' {
        Some(3)
    } else if c == '4' {
        Some(4)
    } else if c == '5' {
        Some(5)
    } else if c == '6' {
        Some(6)
    } else if c == '7' {
        Some(7)
    } else if c == '8' {
        Some(8)
    } else if c == '9' {
        Some(9)
    } else {
        None
    }
}

/// Reads `s` as a `u32` written in decimal.
pub fn parse_u32(s: &str) -> (n: Option<u32>)
    ensures
        n == spec_parse_u32(s@),
{
    let len = s.unicode_len();
    let first: usize = if len > 0 && s.get_char(0) == '+' { 1 } else { 0 };
    let ghost digits = if s@.len() > 0 && s@[0] == '+' {
        s@.subrange(1, s@.len() as int)
    } else {
        s@
    };
    proof {
        assert(digits =~= s@.subrange(first as int, len as int));
    }
    if first == len {
        return None;
    }
    let mut value: u64 = 0;
    let mut i: usize = first;
    while i < len
        invariant
            first <= i <= len,
            len == s@.len(),
            digits == s@.subrange(first as int, len as int),
            digits == (if s@.len() > 0 && s@[0] == '+' {
                s@.subrange(1, s@.len() as int)
            } else {
                s@
            }),
            spec_all_digits(digits.take(i - first)),
            value == spec_decimal_value(digits.take(i - first)),
            value <= u32::MAX,
        decreases len - i,
    {
        let c = s.get_char(i);
        proof {
            assert(digits.take(i - first + 1).drop_last() == digits.take(i - first));
            assert(digits.take(i - first + 1).last() == c);
            assert(digits[i - first] == c);
        }
        match digit_value(c) {
            Some(d) => {
                assert(spec_decimal_value(digits.take(i - first + 1)) == value * 10 + d);
                let next: u64 = value * 10 + d;
                if next > u32::MAX as u64 {
                    proof {
                        lemma_decimal_value_grows(digits, i - first + 1);
                    }
                    return None;
                }
                value = next;
                proof {
                    let longer = digits.take(i - first + 1);
                    assert forall|j: int| 0 <= j < longer.len() implies spec_digit_value(
                        #[trigger] longer[j],
                    ).is_some() by {
                        if j < i - first {
                            assert(longer[j] == digits.take(i - first)[j]);
                        }
                    }
                }
            },
            None => {
                assert(spec_digit_value(digits[i - first]).is_none());
                return None;
            },
        }
        i = i + 1;
    }
    proof {
        assert(digits.take(len - first) == digits);
    }
    Some(value as u32)
}

/// Whether the two strings hold the same characters.
pub fn str_eq(a: &str, b: &str) -> (equal: bool)
    ensures
        equal == (a@ == b@),
{
    let len = a.unicode_len();
    if len != b.unicode_len() {
        return false;
    }
    let mut i: usize = 0;
    while i < len
        invariant
            i <= len,
            len == a@.len(),
            len == b@.len(),
            a@.subrange(0, i as int) == b@.subrange(0, i as int),
        decreases len - i,
    {
        if a.get_char(i) != b.get_char(i) {
            return false;
        }
        proof {
            assert(a@.subrange(0, i + 1) == a@.subrange(0, i as int).push(a@[i as int]));
            assert(b@.subrange(0, i + 1) == b@.subrange(0, i as int).push(b@[i as int]));
        }
        i = i + 1;
    }
    proof {
        assert(a@.subrange(0, len as int) == a@);
        assert(b@.subrange(0, len as int) == b@);
    }
    true
}

/// What follows `prefix` in `s`, or nothing where `s` does not start with it.
pub fn strip_prefix(s: &str, prefix: &str) -> (rest: Option<String>)
    ensures
        match rest {
            Some(rest) => spec_starts_with(s@, prefix@) && rest@ == s@.subrange(
                prefix@.len() as int,
                s@.len() as int,
            ),
            None => !spec_starts_with(s@, prefix@),
        },
{
    let len = s.unicode_len();
    let prefix_len = prefix.unicode_len();
    if prefix_len > len {
        return None;
    }
    if str_eq(s.substring_char(0, prefix_len), prefix) {
        Some(String::from_str(s.substring_char(prefix_len, len)))
    } else {
        None
    }
}

/// Place of the first `c` in `s`, or the length of `s` where there is none.
pub fn find_char(s: &str, c: char) -> (place: usize)
    ensures
        place == spec_find(s@, c, 0),
        place <= s@.len(),
{
    let len = s.unicode_len();
    let mut i: usize = 0;
    proof {
        lemma_find_bounds(s@, c, 0);
    }
    while i < len && s.get_char(i) != c
        invariant
            i <= len,
            len == s@.len(),
            spec_find(s@, c, i as int) == spec_find(s@, c, 0),
        decreases len - i,
    {
        i = i + 1;
    }
    i
}

/// The file name of the path `path`: its last component, or the empty string where it
/// has none.
pub fn file_name(path: &str) -> (name: String)
    ensures
        name@ == spec_file_name(path@),
{
    let len = path.unicode_len();
    let mut end: usize = len;
    loop
        invariant
            end <= len,
            len == path@.len(),
            spec_file_name_upto(path@, end as int) == spec_file_name(path@),
        decreases end,
    {
        proof {
            reveal_strlit(".");
            reveal_strlit("..");
            reveal_strlit("");
            assert("."@ =~= seq!['.']);
            assert(".."@ =~= seq!['.', '.']);
            assert(""@ =~= Seq::<char>::empty());
        }
        if end == 0 {
            return String::from_str("");
        }
        let mut start: usize = end;
        while start > 0 && path.get_char(start - 1) != '/'
            invariant
                start <= end <= len,
                len == path@.len(),
                spec_component_start(path@, start as int) == spec_component_start(
                    path@,
                    end as int,
                ),
            decreases start,
        {
            start = start - 1;
        }
        let component = path.substring_char(start, end);
        proof {
            lemma_component_start_bounds(path@, end as int);
            assert(start == spec_component_start(path@, end as int));
        }
        if start == end {
            end = end - 1;
        } else if str_eq(component, ".") {
            end = start;
        } else if str_eq(component, "..") {
            return String::from_str("");
        } else {
            return String::from_str(component);
        }
    }
}

} // verus!
