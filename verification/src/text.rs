//! Text as sequences of characters.

use vstd::prelude::*;

verus! {

/// `String::push`: appends one character.
pub assume_specification[ String::push ](s: &mut String, c: char)
    ensures
        final(s)@ == old(s)@.push(c),
;

/// The characters of a string.
pub fn chars_of(s: &str) -> (r: Vec<char>)
    ensures
        r@ == s@,
{
    let mut r: Vec<char> = Vec::new();
    for c in it: s.chars()
        invariant
            it.seq() == s@,
            r@ == s@.take(it.index()),
    {
        r.push(c);
    }
    assert(s@.take(s@.len() as int) == s@);
    r
}

/// The string that holds the given characters.
pub fn string_of(chars: &[char]) -> (r: String)
    ensures
        r@ == chars@,
{
    let mut r: String = String::new();
    let mut i: usize = 0;
    while i < chars.len()
        invariant
            i <= chars.len(),
            r@ == chars@.take(i as int),
        decreases chars.len() - i,
    {
        r.push(chars[i]);
        i = i + 1;
    }
    assert(chars@.take(chars@.len() as int) == chars@);
    r
}

/// A copy of a text.
pub fn copy_text(s: &str) -> (r: String)
    ensures
        r@ == s@,
{
    string_of(&chars_of(s))
}

/// The contents of several strings.
pub open spec fn texts(v: Seq<String>) -> Seq<Seq<char>> {
    Seq::new(v.len(), |i: int| v[i]@)
}

/// Appends a text.
pub fn append(s: &mut String, t: &str)
    ensures
        final(s)@ == old(s)@ + t@,
{
    let chars = chars_of(t);
    let ghost before = s@;
    let mut i: usize = 0;
    assert(before + t@.take(0) == before);
    while i < chars.len()
        invariant
            i <= chars.len(),
            chars@ == t@,
            s@ == before + t@.take(i as int),
        decreases chars.len() - i,
    {
        s.push(chars[i]);
        i = i + 1;
        assert(t@.take(i as int) == t@.take(i as int - 1).push(t@[i as int - 1]));
        assert(s@ =~= before + t@.take(i as int));
    }
    assert(t@.take(i as int) == t@);
}

/// Unicode's White_Space property.
pub open spec fn white_space(c: char) -> bool {
    let u = c as u32;
    ||| 0x09 <= u <= 0x0D
    ||| u == 0x20
    ||| u == 0x85
    ||| u == 0xA0
    ||| u == 0x1680
    ||| 0x2000 <= u <= 0x200A
    ||| u == 0x2028
    ||| u == 0x2029
    ||| u == 0x202F
    ||| u == 0x205F
    ||| u == 0x3000
}

pub open spec fn trimmed_start(s: Seq<char>) -> Seq<char>
    decreases s.len(),
{
    if s.len() > 0 && white_space(s.first()) {
        trimmed_start(s.drop_first())
    } else {
        s
    }
}

pub open spec fn trimmed_end(s: Seq<char>) -> Seq<char>
    decreases s.len(),
{
    if s.len() > 0 && white_space(s.last()) {
        trimmed_end(s.drop_last())
    } else {
        s
    }
}

/// The text without the white space around it.
pub open spec fn trimmed(s: Seq<char>) -> Seq<char> {
    trimmed_end(trimmed_start(s))
}

pub open spec fn lower_char(c: char) -> char {
    if 'A' <= c && c <= 'Z' {
        (c as u32 + 32) as char
    } else {
        c
    }
}

pub open spec fn upper_char(c: char) -> char {
    if 'a' <= c && c <= 'z' {
        (c as u32 - 32) as char
    } else {
        c
    }
}

/// The text with its ASCII letters in lower case.
pub open spec fn lower(s: Seq<char>) -> Seq<char> {
    Seq::new(s.len(), |i: int| lower_char(s[i]))
}

/// The text with its ASCII letters in upper case.
pub open spec fn upper(s: Seq<char>) -> Seq<char> {
    Seq::new(s.len(), |i: int| upper_char(s[i]))
}

/// The first place at or after `from` that holds one of the separators.
pub open spec fn next_separator(s: Seq<char>, separators: Seq<char>, from: int) -> int
    decreases s.len() - from,
{
    if from >= s.len() {
        s.len() as int
    } else if separators.contains(s[from]) {
        from
    } else {
        next_separator(s, separators, from + 1)
    }
}

/// The text before the first separator.
pub open spec fn first_part(s: Seq<char>, separators: Seq<char>) -> Seq<char> {
    s.take(next_separator(s, separators, 0))
}

/// Removes a suffix as often as it occurs.
pub open spec fn without_suffixes(s: Seq<char>, suffix: Seq<char>) -> Seq<char>
    decreases s.len(),
{
    if suffix.len() > 0 && s.len() >= suffix.len() && s.skip(s.len() - suffix.len()) == suffix {
        without_suffixes(s.take(s.len() - suffix.len()), suffix)
    } else {
        s
    }
}

pub open spec fn digit_char(c: char) -> bool {
    '0' <= c && c <= '9'
}

pub open spec fn digit_of(c: char) -> int {
    c as u32 - '0' as u32
}

pub open spec fn all_digits(s: Seq<char>) -> bool {
    forall|i: int| 0 <= i < s.len() ==> digit_char(#[trigger] s[i])
}

/// The number that a run of decimal digits stands for.
pub open spec fn digits_value(s: Seq<char>) -> int
    decreases s.len(),
{
    if s.len() == 0 {
        0
    } else {
        10 * digits_value(s.drop_last()) + digit_of(s.last())
    }
}

/// The integer that a text stands for: an optional sign and digits.
pub open spec fn integer_value(s: Seq<char>) -> Option<int> {
    if s.len() == 0 {
        None
    } else {
        let signed = s[0] == '-' || s[0] == '+';
        let digits = if signed {
            s.drop_first()
        } else {
            s
        };
        if digits.len() == 0 || !all_digits(digits) {
            None
        } else if s[0] == '-' {
            Some(-digits_value(digits))
        } else {
            Some(digits_value(digits))
        }
    }
}

/// An integer text that fits in an `i64`.
pub open spec fn i64_value(s: Seq<char>) -> Option<i64> {
    match integer_value(s) {
        Some(n) => if i64::MIN <= n <= i64::MAX {
            Some(n as i64)
        } else {
            None
        },
        None => None,
    }
}

/// An integer text without a minus sign that fits in a `usize`.
pub open spec fn usize_value(s: Seq<char>) -> Option<usize> {
    match integer_value(s) {
        Some(n) => if s[0] != '-' && n <= usize::MAX {
            Some(n as usize)
        } else {
            None
        },
        None => None,
    }
}

pub fn is_white_space(c: char) -> (r: bool)
    ensures
        r == white_space(c),
{
    let u: u32 = c as u32;
    (0x09 <= u && u <= 0x0D) || u == 0x20 || u == 0x85 || u == 0xA0 || u == 0x1680 || (0x2000 <= u
        && u <= 0x200A) || u == 0x2028 || u == 0x2029 || u == 0x202F || u == 0x205F || u == 0x3000
}

/// Whether two texts hold the same characters.
pub fn same_chars(a: &[char], b: &[char]) -> (r: bool)
    ensures
        r == (a@ == b@),
{
    if a.len() != b.len() {
        return false;
    }
    let mut i: usize = 0;
    while i < a.len()
        invariant
            a.len() == b.len(),
            i <= a.len(),
            forall|j: int| 0 <= j < i ==> a[j] == b[j],
        decreases a.len() - i,
    {
        if a[i] != b[i] {
            assert(a@[i as int] != b@[i as int]);
            return false;
        }
        i = i + 1;
    }
    assert(a@ =~= b@);
    true
}

/// Whether two strings are equal.
pub fn same_text(a: &str, b: &str) -> (r: bool)
    ensures
        r == (a@ == b@),
{
    let x = chars_of(a);
    let y = chars_of(b);
    same_chars(&x, &y)
}

/// The text without the white space around it.
pub fn trim(s: &[char]) -> (r: Vec<char>)
    ensures
        r@ == trimmed(s@),
{
    let mut start: usize = 0;
    assert(s@.skip(0) == s@);
    while start < s.len() && is_white_space(s[start])
        invariant
            start <= s.len(),
            trimmed_start(s@.skip(start as int)) == trimmed_start(s@),
        decreases s.len() - start,
    {
        assert(s@.skip(start as int).drop_first() == s@.skip(start + 1));
        start = start + 1;
    }
    let ghost rest = s@.skip(start as int);
    assert(rest == trimmed_start(s@));
    let mut end: usize = s.len();
    assert(s@.subrange(start as int, end as int) == rest);
    while end > start && is_white_space(s[end - 1])
        invariant
            start <= end <= s.len(),
            trimmed_end(s@.subrange(start as int, end as int)) == trimmed_end(rest),
        decreases end,
    {
        assert(s@.subrange(start as int, end as int).drop_last() == s@.subrange(start as int, end - 1));
        end = end - 1;
    }
    piece(s, start, end)
}

/// The characters from `start` on and before `end`.
pub fn piece(s: &[char], start: usize, end: usize) -> (r: Vec<char>)
    requires
        start <= end <= s.len(),
    ensures
        r@ == s@.subrange(start as int, end as int),
{
    let mut r: Vec<char> = Vec::new();
    let mut i: usize = start;
    while i < end
        invariant
            start <= i <= end <= s.len(),
            r@ == s@.subrange(start as int, i as int),
        decreases end - i,
    {
        r.push(s[i]);
        i = i + 1;
    }
    r
}

/// The text with its ASCII letters in lower case.
pub fn to_lower(s: &[char]) -> (r: Vec<char>)
    ensures
        r@ == lower(s@),
{
    let mut r: Vec<char> = Vec::new();
    let mut i: usize = 0;
    while i < s.len()
        invariant
            i <= s.len(),
            r.len() == i,
            forall|j: int| 0 <= j < i ==> r[j] == lower_char(s[j]),
        decreases s.len() - i,
    {
        let c: char = s[i];
        r.push(if 'A' <= c && c <= 'Z' { (c as u8 + 32) as char } else { c });
        i = i + 1;
    }
    assert(r@ =~= lower(s@));
    r
}

/// The text with its ASCII letters in upper case.
pub fn to_upper(s: &[char]) -> (r: Vec<char>)
    ensures
        r@ == upper(s@),
{
    let mut r: Vec<char> = Vec::new();
    let mut i: usize = 0;
    while i < s.len()
        invariant
            i <= s.len(),
            r.len() == i,
            forall|j: int| 0 <= j < i ==> r[j] == upper_char(s[j]),
        decreases s.len() - i,
    {
        let c: char = s[i];
        r.push(if 'a' <= c && c <= 'z' { (c as u8 - 32) as char } else { c });
        i = i + 1;
    }
    assert(r@ =~= upper(s@));
    r
}

/// Whether two strings are equal up to the case of ASCII letters.
pub fn same_ignoring_case(a: &str, b: &str) -> (r: bool)
    ensures
        r == (lower(a@) == lower(b@)),
{
    let x = to_lower(&chars_of(a));
    let y = to_lower(&chars_of(b));
    same_chars(&x, &y)
}

/// Whether a character is one of the given ones.
pub fn one_of(c: char, separators: &[char]) -> (r: bool)
    ensures
        r == separators@.contains(c),
{
    let mut i: usize = 0;
    while i < separators.len()
        invariant
            i <= separators.len(),
            forall|j: int| 0 <= j < i ==> separators[j] != c,
        decreases separators.len() - i,
    {
        if separators[i] == c {
            assert(separators@[i as int] == c);
            return true;
        }
        i = i + 1;
    }
    false
}

/// The first place at or after `from` that holds one of the separators.
pub fn find_separator(s: &[char], separators: &[char], from: usize) -> (r: usize)
    requires
        from <= s.len(),
    ensures
        r == next_separator(s@, separators@, from as int),
        from <= r <= s.len(),
{
    let mut i: usize = from;
    while i < s.len() && !one_of(s[i], separators)
        invariant
            from <= i <= s.len(),
            next_separator(s@, separators@, i as int) == next_separator(s@, separators@, from as int),
        decreases s.len() - i,
    {
        i = i + 1;
    }
    i
}

/// The text before the first separator.
pub fn part_before(s: &[char], separators: &[char]) -> (r: Vec<char>)
    ensures
        r@ == first_part(s@, separators@),
{
    let end: usize = find_separator(s, separators, 0);
    let r = piece(s, 0, end);
    assert(s@.take(end as int) == s@.subrange(0, end as int));
    r
}

/// Removes a suffix as often as it occurs.
pub fn strip_suffixes(s: &[char], suffix: &[char]) -> (r: Vec<char>)
    ensures
        r@ == without_suffixes(s@, suffix@),
{
    let mut end: usize = s.len();
    assert(s@.take(s@.len() as int) == s@);
    while suffix.len() > 0 && end >= suffix.len() && same_chars(
        &piece(s, end - suffix.len(), end),
        suffix,
    )
        invariant
            end <= s.len(),
            without_suffixes(s@.take(end as int), suffix@) == without_suffixes(s@, suffix@),
        decreases end,
    {
        let ghost head = s@.take(end as int);
        assert(head.skip(head.len() - suffix.len()) == s@.subrange(end - suffix.len(), end as int));
        assert(head.take(head.len() - suffix.len()) == s@.take(end - suffix.len()));
        end = end - suffix.len();
    }
    let ghost head = s@.take(end as int);
    assert(end >= suffix.len() ==> head.skip(head.len() - suffix.len()) == s@.subrange(
        end - suffix.len(),
        end as int,
    ));
    let r = piece(s, 0, end);
    assert(s@.subrange(0, end as int) == head);
    r
}

/// The end of the run of digits that starts at `from`.
pub fn digits_end(s: &[char], from: usize) -> (r: usize)
    requires
        from <= s.len(),
    ensures
        from <= r <= s.len(),
        all_digits(s@.subrange(from as int, r as int)),
        r < s.len() ==> !digit_char(s[r as int]),
{
    let mut i: usize = from;
    while i < s.len() && '0' <= s[i] && s[i] <= '9'
        invariant
            from <= i <= s.len(),
            forall|j: int| from <= j < i ==> digit_char(s[j]),
        decreases s.len() - i,
    {
        i = i + 1;
    }
    i
}

pub proof fn lemma_digits_value_nonnegative(s: Seq<char>)
    requires
        all_digits(s),
    ensures
        digits_value(s) >= 0,
    decreases s.len(),
{
    if s.len() > 0 {
        assert forall|i: int| 0 <= i < s.drop_last().len() implies digit_char(#[trigger] s.drop_last()[i]) by {
            assert(digit_char(s[i]));
        }
        lemma_digits_value_nonnegative(s.drop_last());
        assert(digit_char(s.last()));
    }
}

/// A prefix of digits stands for no more than the whole.
proof fn lemma_digits_value_prefix(s: Seq<char>, n: int)
    requires
        all_digits(s),
        0 <= n <= s.len(),
    ensures
        digits_value(s.take(n)) <= digits_value(s),
    decreases s.len(),
{
    if n == s.len() {
        assert(s.take(n) == s);
    } else {
        let t = s.drop_last();
        assert forall|i: int| 0 <= i < t.len() implies digit_char(#[trigger] t[i]) by {
            assert(digit_char(s[i]));
        }
        lemma_digits_value_prefix(t, n);
        assert(t.take(n) == s.take(n));
        lemma_digits_value_nonnegative(t);
        assert(digit_char(s.last()));
    }
}

/// The value of a run of digits, where it stays below `2^64`.
fn digits_number(s: &[char]) -> (r: Option<u64>)
    requires
        all_digits(s@),
    ensures
        match r {
            Some(n) => n == digits_value(s@),
            None => digits_value(s@) > u64::MAX,
        },
{
    let mut n: u64 = 0;
    let mut i: usize = 0;
    while i < s.len()
        invariant
            all_digits(s@),
            i <= s.len(),
            n == digits_value(s@.take(i as int)),
        decreases s.len() - i,
    {
        let ghost next = s@.take(i + 1);
        proof {
            assert(next.drop_last() == s@.take(i as int));
            assert(digit_char(s@[i as int]));
            lemma_digits_value_prefix(s@, i + 1);
        }
        let d: u64 = (s[i] as u32 - '0' as u32) as u64;
        if n > (u64::MAX - d) / 10 {
            return None;
        }
        n = n * 10 + d;
        i = i + 1;
    }
    assert(s@.take(s@.len() as int) == s@);
    Some(n)
}

/// The digits of a signed number, with whether a minus sign stands before
/// them; `None` where the text is no integer.
fn signed_digits(s: &[char]) -> (r: Option<(bool, Vec<char>)>)
    ensures
        match r {
            Some(p) => {
                &&& all_digits(p.1@)
                &&& s.len() > 0
                &&& p.0 == (s[0] == '-')
                &&& integer_value(s@) == Some(if p.0 { -digits_value(p.1@) } else { digits_value(p.1@) })
            },
            None => integer_value(s@) is None,
        },
{
    if s.len() == 0 {
        return None;
    }
    let signed: bool = s[0] == '-' || s[0] == '+';
    let start: usize = if signed { 1 } else { 0 };
    let digits = piece(s, start, s.len());
    assert(signed ==> digits@ == s@.drop_first());
    assert(!signed ==> digits@ == s@);
    let end: usize = digits_end(&digits, 0);
    assert(digits@.subrange(0, digits@.len() as int) == digits@);
    if digits.len() == 0 || end < digits.len() {
        return None;
    }
    Some((s[0] == '-', digits))
}

/// Reads an `i64`.
pub fn parse_i64(s: &[char]) -> (r: Option<i64>)
    ensures
        r == i64_value(s@),
{
    match signed_digits(s) {
        None => None,
        Some(p) => {
            proof {
                lemma_digits_value_nonnegative(p.1@);
            }
            match digits_number(&p.1) {
                None => None,
                Some(n) => {
                    if p.0 {
                        if n <= 0x7FFF_FFFF_FFFF_FFFF {
                            Some(-(n as i64))
                        } else if n == 0x8000_0000_0000_0000 {
                            Some(i64::MIN)
                        } else {
                            None
                        }
                    } else if n <= 0x7FFF_FFFF_FFFF_FFFF {
                        Some(n as i64)
                    } else {
                        None
                    }
                },
            }
        },
    }
}

/// Reads a `usize`.
pub fn parse_usize(s: &[char]) -> (r: Option<usize>)
    ensures
        r == usize_value(s@),
{
    match signed_digits(s) {
        None => None,
        Some(p) => {
            proof {
                lemma_digits_value_nonnegative(p.1@);
            }
            match digits_number(&p.1) {
                None => None,
                Some(n) => if !p.0 && n <= usize::MAX as u64 {
                    Some(n as usize)
                } else {
                    None
                },
            }
        },
    }
}

/// The character of a decimal digit.
pub open spec fn digit_text(d: nat) -> char {
    ('0' as u32 + d % 10) as char
}

/// The decimal digits of a number.
pub open spec fn decimal_text(n: nat) -> Seq<char>
    decreases n,
{
    if n < 10 {
        seq![digit_text(n)]
    } else {
        decimal_text(n / 10).push(digit_text(n))
    }
}

/// The character of the last decimal digit of a number.
pub fn last_digit(n: u128) -> (r: char)
    ensures
        r == digit_text(n as nat),
{
    let digits: [char; 10] = ['0', '1', '2', '3', '4', '5', '6', '7', '8', '9'];
    let digit: char = digits[(n % 10) as usize];
    assert(digit as u32 == '0' as u32 + n % 10);
    digit
}

/// The decimal digits of a number.
pub fn to_decimal(n: u128) -> (r: Vec<char>)
    ensures
        r@ == decimal_text(n as nat),
    decreases n,
{
    if n < 10 {
        let mut r: Vec<char> = Vec::new();
        r.push(last_digit(n));
        assert(r@ =~= decimal_text(n as nat));
        r
    } else {
        let mut r = to_decimal(n / 10);
        r.push(last_digit(n));
        r
    }
}

/// The decimal digits of a number stand for that number.
pub proof fn law_decimal_text_reads_back(n: nat)
    ensures
        all_digits(decimal_text(n)),
        digits_value(decimal_text(n)) == n,
    decreases n,
{
    if n < 10 {
        assert(decimal_text(n).drop_last() =~= Seq::<char>::empty());
        assert(digits_value(decimal_text(n).drop_last()) == 0);
    } else {
        law_decimal_text_reads_back(n / 10);
        assert(decimal_text(n).drop_last() =~= decimal_text(n / 10));
    }
}

/// The bytes that a character takes in UTF-8.
pub open spec fn utf8_width(c: char) -> nat {
    let u = c as u32;
    if u < 0x80 {
        1
    } else if u < 0x800 {
        2
    } else if u < 0x1_0000 {
        3
    } else {
        4
    }
}

/// The bytes that a text takes in UTF-8.
pub open spec fn utf8_len(s: Seq<char>) -> nat
    decreases s.len(),
{
    if s.len() == 0 {
        0
    } else {
        utf8_len(s.drop_last()) + utf8_width(s.last())
    }
}

/// Whether a number of bytes ends between two characters of a text.
pub open spec fn boundary_at(s: Seq<char>, bytes: nat) -> bool {
    exists|n: int| 0 <= n <= s.len() && #[trigger] utf8_len(s.take(n)) == bytes
}

/// The first characters of a text that take the given number of bytes.
pub open spec fn first_bytes(s: Seq<char>, bytes: nat) -> Seq<char> {
    s.take(choose|n: int| 0 <= n <= s.len() && #[trigger] utf8_len(s.take(n)) == bytes)
}

proof fn lemma_utf8_len_mono(s: Seq<char>, a: int, b: int)
    requires
        0 <= a < b <= s.len(),
    ensures
        utf8_len(s.take(a)) < utf8_len(s.take(b)),
    decreases b - a,
{
    assert(s.take(b).drop_last() =~= s.take(b - 1));
    if a < b - 1 {
        lemma_utf8_len_mono(s, a, b - 1);
    }
}

/// The text where it takes at most `limit` bytes, or else its first `limit`
/// bytes.
pub open spec fn cut_text(s: Seq<char>, limit: nat) -> Seq<char> {
    if utf8_len(s) <= limit {
        s
    } else {
        first_bytes(s, limit)
    }
}

/// Finds how many characters of a text take at most `limit` bytes; nothing
/// where the limit falls inside a character.
pub fn cut_at(s: &[char], limit: usize) -> (r: Option<usize>)
    requires
        limit < 0x1000_0000,
    ensures
        match r {
            Some(n) => {
                &&& n <= s.len()
                &&& s@.take(n as int) == cut_text(s@, limit as nat)
                &&& n == s.len() <==> utf8_len(s@) <= limit
                &&& utf8_len(s@) <= limit || boundary_at(s@, limit as nat)
            },
            None => utf8_len(s@) > limit && !boundary_at(s@, limit as nat),
        },
{
    let mut bytes: usize = 0;
    let mut i: usize = 0;
    assert(s@.take(0) =~= Seq::<char>::empty());
    while i < s.len()
        invariant
            i <= s.len(),
            limit < 0x1000_0000,
            bytes == utf8_len(s@.take(i as int)),
            bytes <= limit,
        decreases s.len() - i,
    {
        let u: u32 = s[i] as u32;
        let width: usize = if u < 0x80 {
            1
        } else if u < 0x800 {
            2
        } else if u < 0x1_0000 {
            3
        } else {
            4
        };
        proof {
            assert(s@.take(i as int + 1).drop_last() =~= s@.take(i as int));
            assert(s@.take(i as int + 1).last() == s@[i as int]);
        }
        if bytes + width > limit {
            proof {
                assert(s@.take(s@.len() as int) =~= s@);
                if i + 1 < s.len() {
                    lemma_utf8_len_mono(s@, i as int + 1, s@.len() as int);
                }
                assert forall|n: int| 0 <= n <= s@.len() && #[trigger] utf8_len(s@.take(n)) == limit implies n
                    == i by {
                    if n < i {
                        lemma_utf8_len_mono(s@, n, i as int);
                    } else if n > i + 1 {
                        lemma_utf8_len_mono(s@, i as int + 1, n);
                    }
                }
            }
            return if bytes == limit {
                Some(i)
            } else {
                None
            };
        }
        bytes = bytes + width;
        i = i + 1;
    }
    assert(s@.take(i as int) =~= s@);
    Some(i)
}

/// Letters change their case and come back, and nothing else changes.
pub proof fn law_case_comes_back(s: Seq<char>)
    ensures
        lower(upper(s)) == lower(s),
        upper(lower(s)) == upper(s),
        lower(lower(s)) == lower(s),
        lower(s).len() == s.len(),
        upper(s).len() == s.len(),
        forall|i: int|
            0 <= i < s.len() && !('A' <= #[trigger] s[i] && s[i] <= 'Z') ==> lower(s)[i] == s[i],
        forall|i: int|
            0 <= i < s.len() && !('a' <= #[trigger] s[i] && s[i] <= 'z') ==> upper(s)[i] == s[i],
{
    assert(lower(upper(s)) =~= lower(s));
    assert(upper(lower(s)) =~= upper(s));
    assert(lower(lower(s)) =~= lower(s));
}

/// White space around a text is trimmed, and nothing inside it is.
pub proof fn law_trimming_leaves_the_inside(s: Seq<char>, c: char)
    requires
        white_space(c),
    ensures
        trimmed(seq![c] + s) == trimmed(s),
        s.len() > 0 && !white_space(s.first()) ==> trimmed(s.push(c)) == trimmed(s),
        s.len() > 0 && !white_space(s.first()) && !white_space(s.last()) ==> trimmed(s) == s,
        s.len() == 0 ==> trimmed(s) == s,
{
    let t = seq![c] + s;
    assert(t.first() == c);
    assert(t.drop_first() =~= s);
    assert(trimmed_start(t) == trimmed_start(s));
    if s.len() > 0 && !white_space(s.first()) {
        let u = s.push(c);
        assert(u.first() == s.first());
        assert(trimmed_start(u) == u);
        assert(trimmed_start(s) == s);
        assert(u.last() == c);
        assert(u.drop_last() =~= s);
        assert(trimmed_end(u) == trimmed_end(s));
    }
}

} // verus!
