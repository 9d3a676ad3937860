//! Text as sequences of characters.
//!
//! Strings are modelled by their characters (`s@`). The functions here are the
//! few string operations that the rest of the crate is built on.

use vstd::prelude::*;
use vstd::utf8::{decode_utf8, valid_utf8};

verus! {

/// Appends one character. `String::push` puts the given `char` at the end of
/// the string and leaves what was there before.
pub assume_specification[ String::push ](s: &mut String, c: char)
    ensures
        final(s)@ == old(s)@.push(c),
;

/// `std::str::from_utf8` succeeds exactly on valid UTF-8 and gives the text that
/// the bytes encode.
#[verifier::external_body]
pub(crate) fn utf8_text(bytes: &[u8]) -> (r: Option<&str>)
    ensures
        match r {
            Some(s) => valid_utf8(bytes@) && s@ == decode_utf8(bytes@),
            None => !valid_utf8(bytes@),
        },
{
    std::str::from_utf8(bytes).ok()
}

/// What `String::from_utf8_lossy` makes of bytes.
pub uninterp spec fn lossy_text(bytes: Seq<u8>) -> Seq<char>;

/// `String::from_utf8_lossy` reads valid UTF-8 as it is; what it puts in place of
/// invalid sequences is left to its documentation.
#[verifier::external_body]
pub(crate) fn utf8_lossy(bytes: &[u8]) -> (r: String)
    ensures
        r@ == lossy_text(bytes@),
        valid_utf8(bytes@) ==> r@ == decode_utf8(bytes@),
{
    String::from_utf8_lossy(bytes).into_owned()
}

/// A text in lower case, by Unicode's rules.
pub uninterp spec fn lower_text(s: Seq<char>) -> Seq<char>;

/// `str::to_lowercase` follows Unicode; on ASCII text it lowers the letters.
#[verifier::external_body]
pub(crate) fn to_lower(s: &str) -> (r: String)
    ensures
        r@ == lower_text(s@),
        vstd::utf8::is_ascii_chars(s@) ==> r@ == ascii_lower(s@),
{
    s.to_lowercase()
}

/// The texts held by a sequence of strings.
pub open spec fn texts(list: Seq<String>) -> Seq<Seq<char>> {
    list.map_values(|s: String| s@)
}

/// The text of an optional string.
pub open spec fn opt_text(value: Option<String>) -> Option<Seq<char>> {
    match value {
        Some(s) => Some(s@),
        None => None,
    }
}

/// The characters of `s`.
pub fn chars_of(s: &str) -> (chars: Vec<char>)
    ensures
        chars@ == s@,
{
    let mut chars: Vec<char> = Vec::new();
    for c in it: s.chars()
        invariant
            chars@ == s@.take(it.index() as int),
            it.seq() == s@,
    {
        chars.push(c);
    }
    chars
}

/// The string made of `chars`.
pub fn string_of(chars: &[char]) -> (s: String)
    ensures
        s@ == chars@,
{
    let mut s = String::new();
    let mut i: usize = 0;
    while i < chars.len()
        invariant
            i <= chars.len(),
            s@ == chars@.take(i as int),
        decreases chars.len() - i,
    {
        s.push(chars[i]);
        i = i + 1;
    }
    assert(chars@.take(i as int) == chars@);
    s
}

/// Whether two texts are equal.
pub fn same_text(a: &str, b: &str) -> (r: bool)
    ensures
        r == (a@ == b@),
{
    let left = chars_of(a);
    let right = chars_of(b);
    same_chars(left.as_slice(), right.as_slice())
}

/// Whether two slices hold the same characters.
pub fn same_chars(a: &[char], b: &[char]) -> (r: bool)
    ensures
        r == (a@ == b@),
{
    if a.len() != b.len() {
        return false;
    }
    let mut i: usize = 0;
    while i < a.len()
        invariant
            i <= a.len(),
            a.len() == b.len(),
            forall|j: int| 0 <= j < i ==> a@[j] == b@[j],
        decreases a.len() - i,
    {
        if a[i] != b[i] {
            return false;
        }
        i = i + 1;
    }
    assert(a@ =~= b@);
    true
}

/// Whether one of the strings of `list` has the text of `name`.
pub fn any_text(list: &[String], name: &str) -> (r: bool)
    ensures
        r == texts(list@).contains(name@),
{
    let mut i: usize = 0;
    while i < list.len()
        invariant
            i <= list.len(),
            forall|j: int| 0 <= j < i ==> list@[j]@ != name@,
        decreases list.len() - i,
    {
        if same_text(list[i].as_str(), name) {
            assert(texts(list@)[i as int] == name@);
            return true;
        }
        i = i + 1;
    }
    assert forall|j: int| 0 <= j < texts(list@).len() implies texts(list@)[j] != name@ by {
        assert(texts(list@)[j] == list@[j]@);
    }
    false
}

/// A copy of a list of strings.
pub fn copy_texts(list: &[String]) -> (r: Vec<String>)
    ensures
        texts(r@) == texts(list@),
{
    let mut r: Vec<String> = Vec::new();
    let mut i: usize = 0;
    while i < list.len()
        invariant
            i <= list.len(),
            r.len() == i,
            forall|j: int| 0 <= j < i ==> r@[j]@ == list@[j]@,
        decreases list.len() - i,
    {
        r.push(list[i].clone());
        i = i + 1;
    }
    assert(texts(r@) =~= texts(list@));
    r
}

/// `prefix` followed by whatever comes after it.
pub open spec fn has_prefix(s: Seq<char>, prefix: Seq<char>) -> bool {
    prefix.len() <= s.len() && s.take(prefix.len() as int) == prefix
}

/// `suffix` preceded by whatever comes before it.
pub open spec fn has_suffix(s: Seq<char>, suffix: Seq<char>) -> bool {
    suffix.len() <= s.len() && s.skip(s.len() - suffix.len()) == suffix
}

/// `needle` stands in `s` at position `i`.
pub open spec fn occurs_at(s: Seq<char>, needle: Seq<char>, i: int) -> bool {
    0 <= i <= s.len() - needle.len() && s.subrange(i, i + needle.len()) == needle
}

/// `needle` stands somewhere in `s`.
pub open spec fn has_text(s: Seq<char>, needle: Seq<char>) -> bool {
    exists|i: int| occurs_at(s, needle, i)
}

/// Whether `needle` stands in `s` at position `i`.
pub fn stands_at(s: &[char], needle: &[char], i: usize) -> (r: bool)
    ensures
        r == occurs_at(s@, needle@, i as int),
{
    if needle.len() > s.len() || i > s.len() - needle.len() {
        return false;
    }
    let mut k: usize = 0;
    while k < needle.len()
        invariant
            k <= needle.len(),
            i + needle.len() <= s.len(),
            forall|j: int| 0 <= j < k ==> s@[i + j] == needle@[j],
        decreases needle.len() - k,
    {
        if s[i + k] != needle[k] {
            assert(s@.subrange(i as int, i + needle@.len())[k as int] != needle@[k as int]);
            return false;
        }
        k = k + 1;
    }
    assert(s@.subrange(i as int, i + needle@.len()) =~= needle@);
    true
}

/// The first position at which `needle` stands in `s`.
pub fn find_chars(s: &[char], needle: &[char]) -> (r: Option<usize>)
    ensures
        match r {
            Some(i) => occurs_at(s@, needle@, i as int) && forall|j: int|
                0 <= j < i ==> !occurs_at(s@, needle@, j),
            None => !has_text(s@, needle@),
        },
{
    let mut i: usize = 0;
    while i < s.len()
        invariant
            i <= s.len(),
            forall|j: int| 0 <= j < i ==> !occurs_at(s@, needle@, j),
        decreases s.len() - i,
    {
        if stands_at(s, needle, i) {
            return Some(i);
        }
        i = i + 1;
    }
    if stands_at(s, needle, i) {
        return Some(i);
    }
    None
}

/// Whether `needle` stands somewhere in `s`.
pub fn text_contains(s: &str, needle: &str) -> (r: bool)
    ensures
        r == has_text(s@, needle@),
{
    let hay = chars_of(s);
    let wanted = chars_of(needle);
    match find_chars(hay.as_slice(), wanted.as_slice()) {
        Some(_) => true,
        None => false,
    }
}

/// Whether `s` begins with `prefix`.
pub fn starts_with(s: &str, prefix: &str) -> (r: bool)
    ensures
        r == has_prefix(s@, prefix@),
{
    let hay = chars_of(s);
    let wanted = chars_of(prefix);
    let r = stands_at(hay.as_slice(), wanted.as_slice(), 0);
    assert(prefix@.len() <= s@.len() ==> s@.subrange(0, prefix@.len() as int) == s@.take(
        prefix@.len() as int,
    ));
    r
}

/// Whether `s` ends with `suffix`.
pub fn ends_with(s: &str, suffix: &str) -> (r: bool)
    ensures
        r == has_suffix(s@, suffix@),
{
    let hay = chars_of(s);
    let wanted = chars_of(suffix);
    if wanted.len() > hay.len() {
        return false;
    }
    let r = stands_at(hay.as_slice(), wanted.as_slice(), hay.len() - wanted.len());
    assert(s@.subrange(s@.len() - suffix@.len(), s@.len() as int) == s@.skip(
        s@.len() - suffix@.len(),
    ));
    r
}

/// The characters with the Unicode property `White_Space`.
pub open spec fn is_space(c: char) -> bool {
    let n = c as u32;
    ||| 0x09 <= n <= 0x0d
    ||| n == 0x20
    ||| n == 0x85
    ||| n == 0xa0
    ||| n == 0x1680
    ||| 0x2000 <= n <= 0x200a
    ||| n == 0x2028
    ||| n == 0x2029
    ||| n == 0x202f
    ||| n == 0x205f
    ||| n == 0x3000
}

/// Whether `c` is white space.
pub fn space(c: char) -> (r: bool)
    ensures
        r == is_space(c),
{
    let n: u32 = c as u32;
    (0x09 <= n && n <= 0x0d) || n == 0x20 || n == 0x85 || n == 0xa0 || n == 0x1680 || (0x2000 <= n
        && n <= 0x200a) || n == 0x2028 || n == 0x2029 || n == 0x202f || n == 0x205f || n == 0x3000
}

/// `s` without its leading white space.
pub open spec fn trimmed_start(s: Seq<char>) -> Seq<char>
    decreases s.len(),
{
    if s.len() > 0 && is_space(s[0]) {
        trimmed_start(s.drop_first())
    } else {
        s
    }
}

/// `s` without its trailing white space.
pub open spec fn trimmed_end(s: Seq<char>) -> Seq<char>
    decreases s.len(),
{
    if s.len() > 0 && is_space(s.last()) {
        trimmed_end(s.drop_last())
    } else {
        s
    }
}

/// `s` without white space at either end.
pub open spec fn trimmed(s: Seq<char>) -> Seq<char> {
    trimmed_end(trimmed_start(s))
}

/// The characters of `s` without white space at either end.
pub fn trim(s: &[char]) -> (r: Vec<char>)
    ensures
        r@ == trimmed(s@),
{
    let mut from: usize = 0;
    assert(s@.skip(0) =~= s@);
    while from < s.len() && space(s[from])
        invariant
            from <= s.len(),
            trimmed_start(s@) == trimmed_start(s@.skip(from as int)),
        decreases s.len() - from,
    {
        assert(s@.skip(from as int).drop_first() =~= s@.skip(from + 1));
        from = from + 1;
    }
    let mut to: usize = s.len();
    proof {
        assert(trimmed_start(s@) == s@.skip(from as int));
        assert(s@.skip(from as int) =~= s@.subrange(from as int, to as int));
    }
    while to > from && space(s[to - 1])
        invariant
            from <= to <= s.len(),
            trimmed(s@) == trimmed_end(s@.subrange(from as int, to as int)),
        decreases to - from,
    {
        assert(s@.subrange(from as int, to as int).drop_last() =~= s@.subrange(
            from as int,
            to - 1,
        ));
        to = to - 1;
    }
    copy_range(s, from, to)
}

/// The characters of `s` from `from` up to `to`.
pub fn copy_range(s: &[char], from: usize, to: usize) -> (r: Vec<char>)
    requires
        from <= to <= s@.len(),
    ensures
        r@ == s@.subrange(from as int, to as int),
{
    let mut r: Vec<char> = Vec::new();
    let mut i: usize = from;
    while i < to
        invariant
            from <= i <= to <= s@.len(),
            r@ == s@.subrange(from as int, i as int),
        decreases to - i,
    {
        r.push(s[i]);
        i = i + 1;
    }
    r
}

/// The text of each part of a list of character vectors.
pub open spec fn parts(list: Seq<Vec<char>>) -> Seq<Seq<char>> {
    list.map_values(|v: Vec<char>| v@)
}

/// `s` cut at every `sep`: one piece more than there are separators.
pub open spec fn split_on(s: Seq<char>, sep: char) -> Seq<Seq<char>>
    decreases s.len(),
{
    if s.len() == 0 {
        seq![Seq::<char>::empty()]
    } else {
        let before = split_on(s.drop_last(), sep);
        if s.last() == sep {
            before.push(Seq::<char>::empty())
        } else {
            before.drop_last().push(before.last().push(s.last()))
        }
    }
}

/// Cutting a text leaves at least one piece.
pub proof fn lemma_split_nonempty(s: Seq<char>, sep: char)
    ensures
        split_on(s, sep).len() > 0,
    decreases s.len(),
{
    if s.len() > 0 {
        lemma_split_nonempty(s.drop_last(), sep);
    }
}

/// The pieces of `s` between the characters `sep`.
pub fn split(s: &[char], sep: char) -> (r: Vec<Vec<char>>)
    ensures
        parts(r@) == split_on(s@, sep),
        r.len() > 0,
{
    let mut done: Vec<Vec<char>> = Vec::new();
    let mut piece: Vec<char> = Vec::new();
    let mut i: usize = 0;
    assert(parts(done@).push(piece@) =~= split_on(s@.take(0), sep));
    while i < s.len()
        invariant
            i <= s.len(),
            parts(done@).push(piece@) == split_on(s@.take(i as int), sep),
        decreases s.len() - i,
    {
        proof {
            assert(s@.take(i + 1).drop_last() =~= s@.take(i as int));
            assert(s@.take(i + 1).last() == s@[i as int]);
            assert(parts(done@).push(piece@).drop_last() =~= parts(done@));
        }
        if s[i] == sep {
            let ghost before = done@;
            done.push(piece);
            assert(parts(done@) =~= parts(before).push(piece@));
            piece = Vec::new();
        } else {
            piece.push(s[i]);
        }
        i = i + 1;
    }
    assert(s@.take(i as int) =~= s@);
    let ghost before = done@;
    done.push(piece);
    assert(parts(done@) =~= parts(before).push(piece@));
    done
}

/// One ASCII letter in lower case; every other character as it is.
pub open spec fn ascii_lower_char(c: char) -> char {
    if 'A' <= c <= 'Z' {
        ((c as u32) + 32) as char
    } else {
        c
    }
}

/// `s` with its ASCII letters in lower case.
pub open spec fn ascii_lower(s: Seq<char>) -> Seq<char> {
    s.map_values(|c: char| ascii_lower_char(c))
}

/// The characters of `s` with the ASCII letters in lower case.
pub fn to_ascii_lower(s: &str) -> (r: String)
    ensures
        r@ == ascii_lower(s@),
{
    let chars = chars_of(s);
    let mut r = String::new();
    let mut i: usize = 0;
    while i < chars.len()
        invariant
            i <= chars.len(),
            r@ == ascii_lower(chars@.take(i as int)),
        decreases chars.len() - i,
    {
        let c = chars[i];
        let lower = if 'A' <= c && c <= 'Z' {
            (c as u8 + 32) as char
        } else {
            c
        };
        assert(ascii_lower(chars@.take(i + 1)) =~= ascii_lower(chars@.take(i as int)).push(lower));
        r.push(lower);
        i = i + 1;
    }
    assert(chars@.take(i as int) =~= s@);
    r
}

/// The decimal digit with value `d`.
pub open spec fn digit_char(d: nat) -> char {
    (48 + d) as char
}

/// The decimal digits of `n`, the most significant first.
pub open spec fn decimal(n: nat) -> Seq<char>
    decreases n,
{
    if n < 10 {
        seq![digit_char(n)]
    } else {
        decimal(n / 10).push(digit_char(n % 10))
    }
}

/// `n` written in decimal.
pub fn decimal_text(n: u128) -> (r: String)
    ensures
        r@ == decimal(n as nat),
    decreases n,
{
    if n < 10 {
        let mut r = String::new();
        let d: u8 = n as u8;
        r.push((48 + d) as char);
        assert(r@ =~= decimal(n as nat));
        r
    } else {
        let mut r = decimal_text(n / 10);
        let d: u8 = (n % 10) as u8;
        r.push((48 + d) as char);
        r
    }
}

/// Doubles a number written in decimal and adds a carry.
pub(crate) fn double_digits(digits: Vec<char>, carry: u8, n: Ghost<nat>) -> (r: Vec<char>)
    requires
        digits@ == decimal(n@),
        carry <= 1,
    ensures
        r@ == decimal(2 * n@ + carry as nat),
    decreases n@,
{
    let ghost m = 2 * n@ + carry as nat;
    let mut head = digits;
    assert(decimal(n@).len() > 0);
    let last = head.pop().unwrap();
    let d: u8 = last as u8 - 48;
    let v: u8 = 2 * d + carry;
    if head.len() == 0 {
        proof {
            if n@ >= 10 {
                assert(decimal(n@ / 10).len() > 0);
            }
            assert(d == n@);
        }
        let mut r: Vec<char> = Vec::new();
        if v >= 10 {
            r.push('1');
            r.push((48 + (v - 10)) as char);
            assert(decimal(1) =~= seq!['1']);
            assert(r@ =~= decimal(m));
        } else {
            r.push((48 + v) as char);
            assert(r@ =~= decimal(m));
        }
        r
    } else {
        proof {
            assert(n@ >= 10);
            assert(d == n@ % 10);
            assert(head@ =~= decimal(n@ / 10));
            assert(m / 10 == 2 * (n@ / 10) + v as nat / 10 && m % 10 == v as nat % 10);
        }
        let mut r = double_digits(head, v / 10, Ghost(n@ / 10));
        r.push((48 + v % 10) as char);
        r
    }
}

/// Whether `c` is one of the ten ASCII digits.
pub open spec fn is_digit(c: char) -> bool {
    '0' <= c <= '9'
}

/// The number that a row of digits stands for.
pub open spec fn digits_value(s: Seq<char>) -> nat
    decreases s.len(),
{
    if s.len() == 0 {
        0
    } else {
        10 * digits_value(s.drop_last()) + ((s.last() as u32) - 48) as nat
    }
}

/// `s` without one leading plus sign.
pub open spec fn unsigned_digits(s: Seq<char>) -> Seq<char> {
    if s.len() > 0 && s[0] == '+' {
        s.skip(1)
    } else {
        s
    }
}

/// What an unsigned decimal number no greater than `max` reads as: an optional
/// plus sign and at least one digit, nothing else.
pub open spec fn parsed_number(s: Seq<char>, max: nat) -> Option<nat> {
    let digits = unsigned_digits(s);
    if digits.len() > 0 && (forall|i: int| 0 <= i < digits.len() ==> is_digit(digits[i]))
        && digits_value(digits) <= max {
        Some(digits_value(digits))
    } else {
        None
    }
}

/// The more digits, the greater the number.
pub proof fn lemma_digits_value_grows(s: Seq<char>, i: int)
    requires
        0 <= i <= s.len(),
        forall|j: int| 0 <= j < s.len() ==> is_digit(s[j]),
    ensures
        digits_value(s.take(i)) <= digits_value(s),
    decreases s.len() - i,
{
    if i < s.len() {
        lemma_digits_value_grows(s, i + 1);
        assert(s.take(i + 1).drop_last() =~= s.take(i));
    } else {
        assert(s.take(i) =~= s);
    }
}

/// Reads an unsigned decimal number no greater than `max`.
pub fn parse_number(s: &[char], max: u64) -> (r: Option<u64>)
    ensures
        r is Some <==> parsed_number(s@, max as nat) is Some,
        r is Some ==> parsed_number(s@, max as nat) == Some(r->0 as nat),
{
    let from: usize = if s.len() > 0 && s[0] == '+' {
        1
    } else {
        0
    };
    let ghost digits = unsigned_digits(s@);
    assert(digits == s@.skip(from as int)) by {
        assert(s@.skip(0) =~= s@);
    }
    if s.len() == from {
        return None;
    }
    let mut value: u64 = 0;
    let mut i: usize = from;
    while i < s.len()
        invariant
            from <= i <= s.len(),
            digits == s@.skip(from as int),
            digits == unsigned_digits(s@),
            value == digits_value(digits.take(i - from)),
            value <= max,
            forall|j: int| 0 <= j < i - from ==> is_digit(digits[j]),
        decreases s.len() - i,
    {
        let c = s[i];
        assert(digits[i - from] == c);
        if !('0' <= c && c <= '9') {
            return None;
        }
        let d: u64 = (c as u32 - 48) as u64;
        assert(digits.take(i - from + 1).drop_last() =~= digits.take(i - from));
        if value > (u64::MAX - d) / 10 || 10 * value + d > max {
            proof {
                if forall|j: int| 0 <= j < digits.len() ==> is_digit(digits[j]) {
                    lemma_digits_value_grows(digits, i - from + 1);
                }
            }
            return None;
        }
        value = 10 * value + d;
        i = i + 1;
    }
    assert(digits.take(i - from) =~= digits);
    Some(value)
}

/// `s` without the characters `c` at its end.
pub open spec fn without_trailing(s: Seq<char>, c: char) -> Seq<char>
    decreases s.len(),
{
    if s.len() > 0 && s.last() == c {
        without_trailing(s.drop_last(), c)
    } else {
        s
    }
}

/// The text of `s` without the characters `c` at its end.
pub fn trim_end_char(s: &str, c: char) -> (r: String)
    ensures
        r@ == without_trailing(s@, c),
{
    let chars = chars_of(s);
    let mut to: usize = chars.len();
    assert(s@.take(to as int) =~= s@);
    while to > 0 && chars[to - 1] == c
        invariant
            to <= chars.len(),
            chars@ == s@,
            without_trailing(s@, c) == without_trailing(s@.take(to as int), c),
        decreases to,
    {
        assert(s@.take(to as int).drop_last() =~= s@.take(to - 1));
        to = to - 1;
    }
    let kept = copy_range(chars.as_slice(), 0, to);
    assert(kept@ =~= s@.take(to as int));
    string_of(kept.as_slice())
}

/// A copy of an optional string.
pub fn copy_opt(value: &Option<String>) -> (r: Option<String>)
    ensures
        opt_text(r) == opt_text(*value),
{
    match value {
        Some(s) => Some(s.clone()),
        None => None,
    }
}

/// The items of a list that are not empty.
pub open spec fn nonempty(list: Seq<Seq<char>>) -> Seq<Seq<char>>
    decreases list.len(),
{
    if list.len() == 0 {
        list
    } else {
        let before = nonempty(list.drop_last());
        if list.last().len() > 0 {
            before.push(list.last())
        } else {
            before
        }
    }
}

/// `s` cut at every white space.
pub open spec fn split_spaces(s: Seq<char>) -> Seq<Seq<char>>
    decreases s.len(),
{
    if s.len() == 0 {
        seq![Seq::<char>::empty()]
    } else {
        let before = split_spaces(s.drop_last());
        if is_space(s.last()) {
            before.push(Seq::<char>::empty())
        } else {
            before.drop_last().push(before.last().push(s.last()))
        }
    }
}

/// The words of a text: what stands between white space.
pub open spec fn words(s: Seq<char>) -> Seq<Seq<char>> {
    nonempty(split_spaces(s))
}

/// The words of `s`.
pub fn words_of(s: &[char]) -> (r: Vec<Vec<char>>)
    ensures
        parts(r@) == words(s@),
{
    let mut done: Vec<Vec<char>> = Vec::new();
    let mut piece: Vec<char> = Vec::new();
    let ghost mut pieces: Seq<Seq<char>> = Seq::empty();
    let mut i: usize = 0;
    assert(pieces.push(piece@) =~= split_spaces(s@.take(0)));
    assert(parts(done@) =~= nonempty(pieces));
    while i < s.len()
        invariant
            i <= s.len(),
            pieces.push(piece@) == split_spaces(s@.take(i as int)),
            parts(done@) == nonempty(pieces),
        decreases s.len() - i,
    {
        proof {
            assert(s@.take(i + 1).drop_last() =~= s@.take(i as int));
            assert(s@.take(i + 1).last() == s@[i as int]);
            assert(pieces.push(piece@).drop_last() =~= pieces);
        }
        if space(s[i]) {
            proof {
                pieces = pieces.push(piece@);
                assert(pieces.drop_last() =~= pieces.take(pieces.len() - 1));
            }
            if piece.len() > 0 {
                let ghost before = done@;
                done.push(piece);
                assert(parts(done@) =~= parts(before).push(piece@));
            }
            piece = Vec::new();
        } else {
            piece.push(s[i]);
        }
        i = i + 1;
    }
    assert(s@.take(i as int) =~= s@);
    assert(pieces.push(piece@).drop_last() =~= pieces);
    if piece.len() > 0 {
        let ghost before = done@;
        done.push(piece);
        assert(parts(done@) =~= parts(before).push(piece@));
    }
    done
}

/// Each text of a list without white space at either end.
pub open spec fn trimmed_all(list: Seq<Seq<char>>) -> Seq<Seq<char>> {
    list.map_values(|t: Seq<char>| trimmed(t))
}

/// The cells of a comma-separated list.
pub open spec fn cells(s: Seq<char>) -> Seq<Seq<char>> {
    trimmed_all(split_on(s, ','))
}

/// The cells of a comma-separated list, without white space around them.
pub fn cells_of(s: &str) -> (r: Vec<Vec<char>>)
    ensures
        parts(r@) == cells(s@),
{
    let chars = chars_of(s);
    let pieces = split(chars.as_slice(), ',');
    let mut r: Vec<Vec<char>> = Vec::new();
    let mut i: usize = 0;
    while i < pieces.len()
        invariant
            i <= pieces.len(),
            r.len() == i,
            forall|j: int| 0 <= j < i ==> (#[trigger] r@[j])@ == trimmed(pieces@[j]@),
        decreases pieces.len() - i,
    {
        r.push(trim(pieces[i].as_slice()));
        i = i + 1;
    }
    proof {
        assert forall|j: int| 0 <= j < r.len() implies parts(r@)[j] == cells(s@)[j] by {
            assert(parts(pieces@)[j] == pieces@[j]@);
        }
        assert(parts(r@) =~= cells(s@));
    }
    r
}

/// The place of the first `c` in `s`, counted from `from`.
pub open spec fn index_of_char(s: Seq<char>, c: char, from: int) -> Option<int>
    decreases s.len() - from,
{
    if 0 <= from < s.len() {
        if s[from] == c {
            Some(from)
        } else {
            index_of_char(s, c, from + 1)
        }
    } else {
        None
    }
}

/// The place of the first `c` in `s`.
pub fn find_char(s: &[char], c: char) -> (r: Option<usize>)
    ensures
        match r {
            Some(i) => i < s.len() && s@[i as int] == c && index_of_char(s@, c, 0) == Some(
                i as int,
            ),
            None => index_of_char(s@, c, 0) is None && !s@.contains(c),
        },
{
    let mut i: usize = 0;
    while i < s.len()
        invariant
            i <= s.len(),
            forall|j: int| 0 <= j < i ==> s@[j] != c,
            index_of_char(s@, c, 0) == index_of_char(s@, c, i as int),
        decreases s.len() - i,
    {
        if s[i] == c {
            return Some(i);
        }
        i = i + 1;
    }
    None
}

/// `s` from `from` on, with every `needle` taken out.
pub open spec fn without_text(s: Seq<char>, needle: Seq<char>, from: int) -> Seq<char>
    decreases s.len() - from,
{
    if !(0 <= from < s.len()) {
        Seq::empty()
    } else if needle.len() > 0 && occurs_at(s, needle, from) {
        without_text(s, needle, from + needle.len())
    } else {
        seq![s[from]] + without_text(s, needle, from + 1)
    }
}

/// A text with every `needle` taken out.
pub fn remove_text(s: &str, needle: &str) -> (r: String)
    ensures
        r@ == without_text(s@, needle@, 0),
{
    let chars = chars_of(s);
    let piece = chars_of(needle);
    let mut out: Vec<char> = Vec::new();
    let mut i: usize = 0;
    assert(out@ + without_text(s@, needle@, 0) =~= without_text(s@, needle@, 0));
    while i < chars.len()
        invariant
            i <= chars.len(),
            chars@ == s@,
            piece@ == needle@,
            out@ + without_text(s@, needle@, i as int) == without_text(s@, needle@, 0),
        decreases chars.len() - i,
    {
        if !piece.is_empty() && stands_at(chars.as_slice(), piece.as_slice(), i) {
            i = i + piece.len();
        } else {
            let ghost before = out@;
            out.push(chars[i]);
            assert(before + (seq![s@[i as int]] + without_text(s@, needle@, i + 1)) =~= out@
                + without_text(s@, needle@, i + 1));
            i = i + 1;
        }
    }
    assert(out@ =~= without_text(s@, needle@, 0));
    string_of(out.as_slice())
}

/// Trimming takes white space off both ends and nothing else: what is left stands in
/// the text with only white space around it, and has none at its own ends.
pub proof fn law_trimming(s: Seq<char>) -> (cut: (int, int))
    ensures
        0 <= cut.0 <= cut.1 <= s.len(),
        trimmed(s) == s.subrange(cut.0, cut.1),
        forall|i: int| 0 <= i < cut.0 ==> is_space(#[trigger] s[i]),
        forall|i: int| cut.1 <= i < s.len() ==> is_space(#[trigger] s[i]),
        cut.0 < cut.1 ==> !is_space(s[cut.0]) && !is_space(s[cut.1 - 1]),
{
    let from = lemma_trimmed_start(s);
    let rest = s.skip(from);
    let to = lemma_trimmed_end(rest);
    assert(rest.take(to) =~= s.subrange(from, from + to));
    assert forall|i: int| from + to <= i < s.len() implies is_space(#[trigger] s[i]) by {
        assert(rest[i - from] == s[i]);
    }
    (from, from + to)
}

proof fn lemma_trimmed_start(s: Seq<char>) -> (from: int)
    ensures
        0 <= from <= s.len(),
        trimmed_start(s) == s.skip(from),
        forall|i: int| 0 <= i < from ==> is_space(#[trigger] s[i]),
        from < s.len() ==> !is_space(s[from]),
    decreases s.len(),
{
    if s.len() > 0 && is_space(s[0]) {
        let rest = s.drop_first();
        let n = lemma_trimmed_start(rest);
        assert(rest.skip(n) =~= s.skip(n + 1));
        assert forall|i: int| 0 <= i < n + 1 implies is_space(#[trigger] s[i]) by {
            if i > 0 {
                assert(rest[i - 1] == s[i]);
            }
        }
        n + 1
    } else {
        assert(s.skip(0) =~= s);
        0
    }
}

proof fn lemma_trimmed_end(s: Seq<char>) -> (to: int)
    ensures
        0 <= to <= s.len(),
        trimmed_end(s) == s.take(to),
        forall|i: int| to <= i < s.len() ==> is_space(#[trigger] s[i]),
        to > 0 ==> !is_space(s[to - 1]),
    decreases s.len(),
{
    if s.len() > 0 && is_space(s.last()) {
        let rest = s.drop_last();
        let n = lemma_trimmed_end(rest);
        assert(rest.take(n) =~= s.take(n));
        assert forall|i: int| n <= i < s.len() implies is_space(#[trigger] s[i]) by {
            if i < rest.len() {
                assert(rest[i] == s[i]);
            }
        }
        n
    } else {
        assert(s.take(s.len() as int) =~= s);
        s.len() as int
    }
}

/// The pieces of a list with a separator between them.
pub open spec fn joined(list: Seq<Seq<char>>, sep: char) -> Seq<char>
    decreases list.len(),
{
    if list.len() == 0 {
        Seq::empty()
    } else if list.len() == 1 {
        list[0]
    } else {
        joined(list.drop_last(), sep).push(sep) + list.last()
    }
}

/// Cutting a text at a separator is undone by joining the pieces again, and no piece
/// holds the separator.
pub proof fn law_joining_undoes_splitting(s: Seq<char>, sep: char)
    ensures
        split_on(s, sep).len() > 0,
        joined(split_on(s, sep), sep) == s,
        forall|i: int|
            0 <= i < split_on(s, sep).len() ==> !(#[trigger] split_on(s, sep)[i]).contains(sep),
    decreases s.len(),
{
    let list = split_on(s, sep);
    if s.len() == 0 {
        assert(joined(list, sep) =~= s);
    } else {
        let head = s.drop_last();
        let before = split_on(head, sep);
        law_joining_undoes_splitting(head, sep);
        if s.last() == sep {
            assert(list.drop_last() =~= before);
            assert(joined(list, sep) =~= s);
        } else {
            let piece = before.last().push(s.last());
            assert(list.drop_last() =~= before.drop_last());
            assert(!piece.contains(sep)) by {
                if piece.contains(sep) {
                    let k = choose|k: int| 0 <= k < piece.len() && piece[k] == sep;
                    assert(before.last()[k] == sep);
                    assert(!before[before.len() - 1].contains(sep));
                }
            }
            assert(list.len() == before.len());
            assert(list.last() =~= before.last().push(s.last()));
            if before.len() > 1 {
                let front = joined(before.drop_last(), sep).push(sep);
                assert(joined(before, sep) == front + before.last());
                assert(joined(list, sep) == front + list.last());
                assert(front + list.last() =~= head.push(s.last()));
            } else {
                assert(joined(before, sep) == before[0]);
                assert(joined(list, sep) == list[0]);
                assert(list[0] =~= head.push(s.last()));
            }
            assert(head.push(s.last()) =~= s);
            assert forall|i: int| 0 <= i < list.len() implies !(#[trigger] list[i]).contains(
                sep,
            ) by {
                if i < list.len() - 1 {
                    assert(list[i] == before[i]);
                }
            }
        }
    }
}

/// A number reads back from its decimal digits, which start with a zero only if it is
/// zero.
pub proof fn law_decimal_reads_back(n: nat, max: nat)
    ensures
        decimal(n).len() > 0,
        decimal(n)[0] == '0' ==> n == 0,
        digits_value(decimal(n)) == n,
        parsed_number(decimal(n), max) == (if n <= max {
            Some(n)
        } else {
            None
        }),
    decreases n,
{
    lemma_decimal_digits(n);
    assert(unsigned_digits(decimal(n)) == decimal(n));
}

proof fn lemma_decimal_digits(n: nat)
    ensures
        decimal(n).len() > 0,
        decimal(n)[0] == '0' ==> n == 0,
        digits_value(decimal(n)) == n,
        forall|i: int| 0 <= i < decimal(n).len() ==> is_digit(#[trigger] decimal(n)[i]),
    decreases n,
{
    let s = decimal(n);
    if n < 10 {
        assert(s.drop_last() =~= Seq::empty());
        assert(digits_value(s.drop_last()) == 0);
    } else {
        lemma_decimal_digits(n / 10);
        assert(s.drop_last() =~= decimal(n / 10));
        assert forall|i: int| 0 <= i < s.len() implies is_digit(#[trigger] s[i]) by {
            if i < s.len() - 1 {
                assert(s[i] == decimal(n / 10)[i]);
            }
        }
    }
}

/// What the words of a text are: white space at its end adds none, and a run of other
/// characters behind white space is one more.
pub proof fn law_words(s: Seq<char>, gap: char, word: Seq<char>)
    requires
        is_space(gap),
        word.len() > 0,
        forall|i: int| 0 <= i < word.len() ==> !is_space(#[trigger] word[i]),
    ensures
        words(Seq::empty()) == Seq::<Seq<char>>::empty(),
        words(word) == seq![word],
        words(s.push(gap)) == words(s),
        words(s.push(gap) + word) == words(s).push(word),
{
    let none = Seq::<Seq<char>>::empty();
    let blank = Seq::<char>::empty();
    assert(nonempty(none) =~= none);
    assert(split_spaces(blank).drop_last() =~= none);
    assert(words(blank) =~= none);
    lemma_word_at_end(blank, word);
    assert(blank + word =~= word);
    assert(split_spaces(blank).drop_last().push(blank + word) =~= seq![word]);
    assert(seq![word].drop_last() =~= none);
    assert(words(word) =~= seq![word]);
    let cut = split_spaces(s.push(gap));
    assert(s.push(gap).drop_last() =~= s);
    assert(cut =~= split_spaces(s).push(blank));
    assert(cut.drop_last() =~= split_spaces(s));
    lemma_word_at_end(s.push(gap), word);
    assert(cut.last() + word =~= word);
    let all = split_spaces(s).push(word);
    assert(cut.drop_last().push(cut.last() + word) =~= all);
    assert(all.drop_last() =~= split_spaces(s));
}

proof fn lemma_word_at_end(s: Seq<char>, word: Seq<char>)
    requires
        forall|i: int| 0 <= i < word.len() ==> !is_space(#[trigger] word[i]),
    ensures
        split_spaces(s).len() > 0,
        split_spaces(s + word) == split_spaces(s).drop_last().push(split_spaces(s).last() + word),
    decreases word.len(),
{
    lemma_spaces_nonempty(s);
    let cut = split_spaces(s);
    if word.len() == 0 {
        assert(s + word =~= s);
        assert(cut.last() + word =~= cut.last());
        assert(cut.drop_last().push(cut.last()) =~= cut);
    } else {
        let head = word.drop_last();
        assert forall|i: int| 0 <= i < head.len() implies !is_space(#[trigger] head[i]) by {
            assert(head[i] == word[i]);
        }
        lemma_word_at_end(s, head);
        assert((s + word).drop_last() =~= s + head);
        let before = split_spaces(s + head);
        assert(before.drop_last() =~= cut.drop_last());
        assert(before.last().push(word.last()) =~= cut.last() + word);
        assert(!is_space(word[word.len() - 1]));
    }
}

proof fn lemma_spaces_nonempty(s: Seq<char>)
    ensures
        split_spaces(s).len() > 0,
    decreases s.len(),
{
    if s.len() > 0 {
        lemma_spaces_nonempty(s.drop_last());
    }
}

/// The first place of a character holds it, and no place before does; there is none
/// only if the text does not hold it.
pub proof fn law_first_place(s: Seq<char>, c: char, from: int)
    requires
        0 <= from,
    ensures
        match index_of_char(s, c, from) {
            Some(i) => from <= i < s.len() && s[i] == c && forall|j: int|
                from <= j < i ==> #[trigger] s[j] != c,
            None => forall|j: int| from <= j < s.len() ==> #[trigger] s[j] != c,
        },
    decreases s.len() - from,
{
    if from < s.len() && s[from] != c {
        law_first_place(s, c, from + 1);
    }
}

/// Taking a character off the end takes all of it there and nothing else.
pub proof fn law_trailing(s: Seq<char>, c: char) -> (to: int)
    ensures
        0 <= to <= s.len(),
        without_trailing(s, c) == s.take(to),
        forall|i: int| to <= i < s.len() ==> #[trigger] s[i] == c,
        to > 0 ==> s[to - 1] != c,
    decreases s.len(),
{
    if s.len() > 0 && s.last() == c {
        let rest = s.drop_last();
        let n = law_trailing(rest, c);
        assert(rest.take(n) =~= s.take(n));
        assert forall|i: int| n <= i < s.len() implies #[trigger] s[i] == c by {
            if i < rest.len() {
                assert(rest[i] == s[i]);
            }
        }
        n
    } else {
        assert(s.take(s.len() as int) =~= s);
        s.len() as int
    }
}

/// Taking a text out: it goes wherever it stands in front, every other character stays,
/// and a text that does not hold it stays as it is.
pub proof fn law_taking_out(s: Seq<char>, needle: Seq<char>, from: int)
    requires
        needle.len() > 0,
        0 <= from <= s.len(),
    ensures
        occurs_at(s, needle, from) && from < s.len() ==> without_text(s, needle, from)
            == without_text(s, needle, from + needle.len()),
        (forall|i: int| from <= i < s.len() ==> !occurs_at(s, needle, i)) ==> without_text(
            s,
            needle,
            from,
        ) == s.skip(from),
        from < s.len() && !occurs_at(s, needle, from) ==> without_text(s, needle, from)
            == seq![s[from]] + without_text(s, needle, from + 1),
    decreases s.len() - from,
{
    if from < s.len() {
        law_taking_out(s, needle, from + 1);
        assert(seq![s[from]] + s.skip(from + 1) =~= s.skip(from));
    } else {
        assert(s.skip(from) =~= Seq::empty());
    }
}

/// Only empty items are left out of a list, and the others keep their order.
pub proof fn law_nonempty_items_stay(list: Seq<Seq<char>>, item: Seq<char>)
    ensures
        nonempty(list.push(item)) == (if item.len() > 0 {
            nonempty(list).push(item)
        } else {
            nonempty(list)
        }),
        nonempty(Seq::<Seq<char>>::empty()).len() == 0,
        item.len() > 0 ==> (nonempty(list).contains(item) <==> list.contains(item)),
        !nonempty(list).contains(Seq::empty()),
    decreases list.len(),
{
    assert(list.push(item).drop_last() =~= list);
    if list.len() > 0 {
        let head = list.drop_last();
        law_nonempty_items_stay(head, item);
        let before = nonempty(head);
        let now = nonempty(list);
        assert(list =~= head.push(list.last()));
        if list.contains(item) && item.len() > 0 {
            let k = choose|k: int| 0 <= k < list.len() && list[k] == item;
            if k < head.len() {
                assert(head[k] == item);
                let j = choose|j: int| 0 <= j < before.len() && before[j] == item;
                assert(now[j] == item);
            } else {
                assert(now[now.len() - 1] == item);
            }
        }
        if now.contains(item) && item.len() > 0 {
            let j = choose|j: int| 0 <= j < now.len() && now[j] == item;
            if list.last().len() > 0 && j == now.len() - 1 {
                assert(list[list.len() - 1] == item);
            } else {
                assert(before[j] == item);
                let k = choose|k: int| 0 <= k < head.len() && head[k] == item;
                assert(list[k] == item);
            }
        }
        if now.contains(Seq::empty()) {
            let j = choose|j: int| 0 <= j < now.len() && now[j] == Seq::<char>::empty();
            if j < before.len() {
                assert(before[j] == Seq::<char>::empty());
            }
        }
    }
}

/// No digit is white space.
pub proof fn lemma_decimal_has_no_space(n: nat)
    ensures
        decimal(n).len() > 0,
        forall|i: int| 0 <= i < decimal(n).len() ==> !is_space(#[trigger] decimal(n)[i]),
{
    lemma_decimal_digits(n);
    assert forall|i: int| 0 <= i < decimal(n).len() implies !is_space(#[trigger] decimal(n)[i]) by {
        assert(is_digit(decimal(n)[i]));
    }
}

/// What stands before the first separator is the first piece.
pub proof fn law_first_piece(piece: Seq<char>, sep: char, rest: Seq<char>)
    requires
        !piece.contains(sep),
    ensures
        split_on(piece, sep) == seq![piece],
        split_on(piece.push(sep) + rest, sep)[0] == piece,
    decreases rest.len(),
{
    lemma_unsplit(piece, sep);
    if rest.len() == 0 {
        assert(piece.push(sep) + rest =~= piece.push(sep));
        assert(piece.push(sep).drop_last() =~= piece);
    } else {
        let all = piece.push(sep) + rest;
        assert(all.drop_last() =~= piece.push(sep) + rest.drop_last());
        law_first_piece(piece, sep, rest.drop_last());
        lemma_at_least_two_pieces(piece, sep, rest.drop_last());
    }
}

proof fn lemma_at_least_two_pieces(piece: Seq<char>, sep: char, rest: Seq<char>)
    ensures
        split_on(piece.push(sep) + rest, sep).len() >= 2,
    decreases rest.len(),
{
    if rest.len() == 0 {
        assert(piece.push(sep) + rest =~= piece.push(sep));
        assert(piece.push(sep).drop_last() =~= piece);
        law_joining_undoes_splitting(piece, sep);
    } else {
        assert((piece.push(sep) + rest).drop_last() =~= piece.push(sep) + rest.drop_last());
        lemma_at_least_two_pieces(piece, sep, rest.drop_last());
    }
}

proof fn lemma_unsplit(piece: Seq<char>, sep: char)
    requires
        !piece.contains(sep),
    ensures
        split_on(piece, sep) == seq![piece],
    decreases piece.len(),
{
    if piece.len() > 0 {
        let head = piece.drop_last();
        assert(!head.contains(sep)) by {
            if head.contains(sep) {
                let i = choose|i: int| 0 <= i < head.len() && head[i] == sep;
                assert(piece[i] == sep);
            }
        }
        lemma_unsplit(head, sep);
        assert(piece.last() == piece[piece.len() - 1]);
        assert(head.push(piece.last()) =~= piece);
        assert(split_on(piece, sep) =~= seq![piece]);
    } else {
        assert(piece =~= Seq::empty());
    }
}

/// A number may have a plus sign in front. Anything else than digits behind that makes
/// it no number, and so does a value beyond the limit.
pub proof fn law_numbers_are_digits(n: nat, max: nat, s: Seq<char>, i: int)
    ensures
        parsed_number(seq!['+'] + decimal(n), max) == parsed_number(decimal(n), max),
        0 < i < s.len() && !is_digit(s[i]) ==> parsed_number(s, max) is None,
        s.len() > 0 && !is_digit(s[0]) && s[0] != '+' ==> parsed_number(s, max) is None,
        s.len() == 0 ==> parsed_number(s, max) is None,
        s == seq!['+'] ==> parsed_number(s, max) is None,
{
    law_decimal_reads_back(n, max);
    lemma_decimal_digits(n);
    let plus = seq!['+'] + decimal(n);
    assert(plus.skip(1) =~= decimal(n));
    assert(is_digit(decimal(n)[0]));
    let digits = unsigned_digits(s);
    if 0 < i < s.len() && !is_digit(s[i]) {
        if s[0] == '+' {
            assert(digits[i - 1] == s[i]);
        } else {
            assert(digits[i] == s[i]);
        }
    }
    if s.len() > 0 && !is_digit(s[0]) && s[0] != '+' {
        assert(digits[0] == s[0]);
    }
}

/// Lowering a text changes its capital ASCII letters and nothing else.
pub proof fn law_lowering(s: Seq<char>, i: int)
    requires
        0 <= i < s.len(),
    ensures
        ascii_lower(s).len() == s.len(),
        'A' <= s[i] <= 'Z' ==> ascii_lower(s)[i] as int == s[i] as int + 32,
        !('A' <= s[i] <= 'Z') ==> ascii_lower(s)[i] == s[i],
{
}

/// A cell is what stands between two commas, without the white space around it.
pub proof fn law_cells(s: Seq<char>, i: int)
    requires
        0 <= i < split_on(s, ',').len(),
    ensures
        cells(s).len() == split_on(s, ',').len(),
        cells(s)[i] == trimmed(split_on(s, ',')[i]),
{
}

/// A text with nothing but other characters around it is what trimming gives.
pub proof fn lemma_trimmed_already(s: Seq<char>)
    requires
        s.len() > 0,
        !is_space(s[0]),
        !is_space(s.last()),
    ensures
        trimmed(s) == s,
{
    let (from, to) = law_trimming(s);
    assert(from == 0) by {
        if from > 0 {
            assert(is_space(s[0]));
        }
    }
    assert(to == s.len()) by {
        if to < s.len() {
            assert(is_space(s[s.len() - 1]));
        }
    }
    assert(s.subrange(0, s.len() as int) =~= s);
}

/// The decimal text of a number is made of digits.
pub proof fn lemma_decimal_is_digits(n: nat)
    ensures
        decimal(n).len() > 0,
        forall|i: int| 0 <= i < decimal(n).len() ==> is_digit(#[trigger] decimal(n)[i]),
{
    lemma_decimal_digits(n);
}

/// A text with one separator is cut into what stands before it and what stands behind.
pub proof fn law_two_pieces(first: Seq<char>, sep: char, second: Seq<char>)
    requires
        !first.contains(sep),
        !second.contains(sep),
    ensures
        split_on(first.push(sep) + second, sep) == seq![first, second],
    decreases second.len(),
{
    let whole = first.push(sep) + second;
    if second.len() == 0 {
        lemma_unsplit(first, sep);
        assert(whole =~= first.push(sep));
        assert(whole.drop_last() =~= first);
        assert(second =~= Seq::empty());
        assert(split_on(whole, sep) =~= seq![first, second]);
    } else {
        let head = second.drop_last();
        assert(!head.contains(sep)) by {
            if head.contains(sep) {
                let i = choose|i: int| 0 <= i < head.len() && head[i] == sep;
                assert(second[i] == sep);
            }
        }
        law_two_pieces(first, sep, head);
        assert(whole.drop_last() =~= first.push(sep) + head);
        assert(whole.last() == second[second.len() - 1]);
        assert(head.push(second.last()) =~= second);
        assert(split_on(whole, sep) =~= seq![first, second]);
    }
}

/// A text stands in another as soon as it stands in a part of it.
pub proof fn law_found_in_a_part(before: Seq<char>, part: Seq<char>, behind: Seq<char>, needle: Seq<char>)
    requires
        has_text(part, needle),
    ensures
        has_text(before + part + behind, needle),
{
    let i = choose|i: int| occurs_at(part, needle, i);
    let whole = before + part + behind;
    let k = before.len() + i;
    assert(whole.subrange(k, k + needle.len()) =~= part.subrange(i, i + needle.len()));
    assert(occurs_at(whole, needle, k));
}

/// White space around a text that does not begin or end with any is what trimming
/// takes off.
pub proof fn law_trimmed_between(before: Seq<char>, text: Seq<char>, behind: Seq<char>)
    requires
        text.len() > 0,
        !is_space(text[0]),
        !is_space(text.last()),
        forall|i: int| 0 <= i < before.len() ==> is_space(#[trigger] before[i]),
        forall|i: int| 0 <= i < behind.len() ==> is_space(#[trigger] behind[i]),
    ensures
        trimmed(before + text + behind) == text,
{
    let all = before + text + behind;
    let (from, to) = law_trimming(all);
    let (b, e) = (before.len() as int, before.len() + text.len());
    assert(all[b] == text[0]);
    assert(all[e - 1] == text.last());
    assert(from <= b) by {
        if from > b {
            assert(is_space(all[b]));
        }
    }
    assert(to >= e) by {
        if to < e {
            assert(is_space(all[e - 1]));
        }
    }
    assert(from >= b) by {
        if from < b {
            assert(all[from] == before[from]);
        }
    }
    assert(to <= e) by {
        if to > e {
            assert(all[to - 1] == behind[to - 1 - e]);
        }
    }
    assert(all.subrange(from, to) =~= text);
}

} // verus!
