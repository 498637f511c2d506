//! Character-level text helpers: whitespace trimming, ASCII case folding,
//! decimal numbers, and building strings out of characters.
use vstd::prelude::*;

verus! {

// ---------------------------------------------------------------------------
// Specifications
// ---------------------------------------------------------------------------

/// The Unicode `White_Space` property, which `char::is_whitespace` reports.
pub open spec fn is_ws(c: char) -> bool {
    let u = c as u32;
    ||| 0x9 <= u <= 0xd
    ||| u == 0x20
    ||| u == 0x85
    ||| u == 0xa0
    ||| u == 0x1680
    ||| 0x2000 <= u <= 0x200a
    ||| u == 0x2028
    ||| u == 0x2029
    ||| u == 0x202f
    ||| u == 0x205f
    ||| u == 0x3000
}

/// `s` without its leading whitespace.
pub open spec fn trim_start(s: Seq<char>) -> Seq<char>
    decreases s.len(),
{
    if s.len() > 0 && is_ws(s[0]) {
        trim_start(s.drop_first())
    } else {
        s
    }
}

/// `s` without its trailing whitespace.
pub open spec fn trim_end(s: Seq<char>) -> Seq<char>
    decreases s.len(),
{
    if s.len() > 0 && is_ws(s.last()) {
        trim_end(s.drop_last())
    } else {
        s
    }
}

/// `s` without leading and trailing whitespace, as `str::trim` gives it.
pub open spec fn trim(s: Seq<char>) -> Seq<char> {
    trim_end(trim_start(s))
}

pub open spec fn is_ascii_upper(c: char) -> bool {
    'A' as u32 <= c as u32 <= 'Z' as u32
}

/// The ASCII lower-case form of one character; other characters are kept.
pub open spec fn lower_char(c: char) -> char {
    if is_ascii_upper(c) {
        ((c as u32) + 32) as char
    } else {
        c
    }
}

/// `s` with every ASCII upper-case letter turned into lower case.
pub open spec fn ascii_lower(s: Seq<char>) -> Seq<char> {
    s.map_values(|c: char| lower_char(c))
}

pub open spec fn is_digit(c: char) -> bool {
    '0' as u32 <= c as u32 <= '9' as u32
}

pub open spec fn digit_value(c: char) -> nat {
    ((c as u32) - ('0' as u32)) as nat
}

pub open spec fn all_digits(s: Seq<char>) -> bool {
    forall|i: int| 0 <= i < s.len() ==> #[trigger] is_digit(s[i])
}

/// The number that a sequence of decimal digits denotes.
pub open spec fn digits_value(s: Seq<char>) -> nat
    decreases s.len(),
{
    if s.len() == 0 {
        0
    } else {
        digits_value(s.drop_last()) * 10 + digit_value(s.last())
    }
}

/// The digits of `s` once an optional leading `+` is removed, as the
/// standard library's unsigned integer parsing reads them.
pub open spec fn unsigned_digits(s: Seq<char>) -> Seq<char> {
    if s.len() > 0 && s[0] == '+' {
        s.drop_first()
    } else {
        s
    }
}

/// Whether `s` is an unsigned decimal number, with an optional leading `+`.
pub open spec fn is_unsigned_number(s: Seq<char>) -> bool {
    let d = unsigned_digits(s);
    d.len() > 0 && all_digits(d)
}

/// What `str::parse::<u32>` gives for `s`.
pub open spec fn parse_u32_spec(s: Seq<char>) -> Option<u32> {
    if is_unsigned_number(s) && digits_value(unsigned_digits(s)) <= u32::MAX {
        Some(digits_value(unsigned_digits(s)) as u32)
    } else {
        None
    }
}

/// What `str::parse::<u64>` gives for `s`.
pub open spec fn parse_u64_spec(s: Seq<char>) -> Option<u64> {
    if is_unsigned_number(s) && digits_value(unsigned_digits(s)) <= u64::MAX {
        Some(digits_value(unsigned_digits(s)) as u64)
    } else {
        None
    }
}

pub open spec fn digit_char(d: nat) -> char {
    (('0' as u32) + d) as char
}

/// The decimal text of `n`, without leading zeros (`0` is "0").
pub open spec fn decimal(n: nat) -> Seq<char>
    decreases n,
{
    if n < 10 {
        seq![digit_char(n)]
    } else {
        decimal(n / 10).push(digit_char(n % 10))
    }
}

/// Whether `needle` occurs in `hay` starting at position `i`.
pub open spec fn occurs_at(hay: Seq<char>, needle: Seq<char>, i: int) -> bool {
    0 <= i && i + needle.len() <= hay.len() && hay.subrange(i, i + needle.len()) == needle
}

/// Whether `needle` occurs anywhere in `hay`.
pub open spec fn contains_text(hay: Seq<char>, needle: Seq<char>) -> bool {
    exists|i: int| occurs_at(hay, needle, i)
}

/// The position of the first occurrence of `needle` in `hay` (`str::find`).
#[verifier::opaque]
pub open spec fn find_text(hay: Seq<char>, needle: Seq<char>) -> Option<int> {
    if contains_text(hay, needle) {
        Some(
            choose|i: int|
                occurs_at(hay, needle, i) && forall|j: int| 0 <= j < i ==> !occurs_at(hay, needle, j),
        )
    } else {
        None
    }
}

/// The number of ASCII digits at the start of `s`.
pub open spec fn digit_run(s: Seq<char>) -> int
    decreases s.len(),
{
    if s.len() > 0 && is_digit(s[0]) {
        1 + digit_run(s.drop_first())
    } else {
        0
    }
}

/// `items` joined by `sep`.
pub open spec fn joined(items: Seq<Seq<char>>, sep: Seq<char>) -> Seq<char>
    decreases items.len(),
{
    if items.len() == 0 {
        Seq::empty()
    } else if items.len() == 1 {
        items[0]
    } else {
        joined(items.drop_last(), sep) + sep + items.last()
    }
}

// ---------------------------------------------------------------------------
// Lemmas
// ---------------------------------------------------------------------------

proof fn lemma_trim_start_skip(s: Seq<char>, i: int)
    requires
        0 <= i <= s.len(),
        forall|k: int| 0 <= k < i ==> is_ws(#[trigger] s[k]),
    ensures
        trim_start(s) == trim_start(s.subrange(i, s.len() as int)),
    decreases i,
{
    if i > 0 {
        lemma_trim_start_skip(s, i - 1);
        let t = s.subrange(i - 1, s.len() as int);
        assert(t.drop_first() == s.subrange(i, s.len() as int));
    } else {
        assert(s.subrange(0, s.len() as int) == s);
    }
}

proof fn lemma_trim_end_skip(s: Seq<char>, j: int)
    requires
        0 <= j <= s.len(),
        forall|k: int| j <= k < s.len() ==> is_ws(#[trigger] s[k]),
    ensures
        trim_end(s) == trim_end(s.subrange(0, j)),
    decreases s.len() - j,
{
    if j < s.len() {
        lemma_trim_end_skip(s, j + 1);
        let t = s.subrange(0, j + 1);
        assert(t.drop_last() == s.subrange(0, j));
    } else {
        assert(s.subrange(0, s.len() as int) == s);
    }
}

/// What trimming leaves starts and ends with something other than
/// whitespace.
pub proof fn lemma_trim_edges(s: Seq<char>)
    ensures
        trim(s).len() > 0 ==> !is_ws(trim(s)[0]) && !is_ws(trim(s).last()),
{
    lemma_trim_start_edge(s);
    lemma_trim_end_prefix(trim_start(s));
}

proof fn lemma_trim_start_edge(s: Seq<char>)
    ensures
        trim_start(s).len() > 0 ==> !is_ws(trim_start(s)[0]),
    decreases s.len(),
{
    if s.len() > 0 && is_ws(s[0]) {
        lemma_trim_start_edge(s.drop_first());
    }
}

proof fn lemma_trim_end_prefix(s: Seq<char>)
    ensures
        trim_end(s).len() <= s.len(),
        trim_end(s) == s.take(trim_end(s).len() as int),
        trim_end(s).len() > 0 ==> !is_ws(trim_end(s).last()),
    decreases s.len(),
{
    if s.len() > 0 && is_ws(s.last()) {
        lemma_trim_end_prefix(s.drop_last());
        assert(s.drop_last().take(trim_end(s).len() as int) == s.take(trim_end(s).len() as int));
    } else {
        assert(s.take(s.len() as int) == s);
    }
}

/// Text that neither starts nor ends with whitespace is its own trim.
pub proof fn lemma_trim_of_trimmed(s: Seq<char>)
    requires
        s.len() > 0 ==> !is_ws(s[0]) && !is_ws(s.last()),
    ensures
        trim(s) == s,
{
}

/// ASCII lower-casing keeps whitespace and non-whitespace apart, leaves no
/// upper-case letter, and changes nothing a second time.
pub proof fn lemma_lower_char(c: char)
    ensures
        is_ws(lower_char(c)) == is_ws(c),
        !is_ascii_upper(lower_char(c)),
        lower_char(lower_char(c)) == lower_char(c),
{
}

proof fn lemma_digits_monotone(s: Seq<char>, i: int)
    requires
        all_digits(s),
        0 <= i <= s.len(),
    ensures
        digits_value(s.subrange(0, i)) <= digits_value(s),
    decreases s.len() - i,
{
    if i < s.len() {
        lemma_digits_monotone(s, i + 1);
        let t = s.subrange(0, i + 1);
        assert(t.drop_last() == s.subrange(0, i));
    } else {
        assert(s.subrange(0, s.len() as int) == s);
    }
}

proof fn lemma_decimal_digits(n: nat)
    ensures
        all_digits(decimal(n)),
        decimal(n).len() > 0,
        digits_value(decimal(n)) == n,
    decreases n,
{
    let c = digit_char(n % 10);
    assert(digit_value(c) == n % 10);
    assert(decimal(n).last() == c);
    if n >= 10 {
        lemma_decimal_digits(n / 10);
        let d = decimal(n / 10);
        assert(decimal(n).drop_last() == d);
        assert(n == (n / 10) * 10 + n % 10);
        assert(digits_value(decimal(n)) == digits_value(d) * 10 + digit_value(c));
    } else {
        assert(decimal(n).drop_last() == Seq::<char>::empty());
        assert(digits_value(decimal(n)) == digits_value(Seq::<char>::empty()) * 10 + digit_value(c));
        assert(n % 10 == n);
    }
}

// ---------------------------------------------------------------------------
// Executable helpers
// ---------------------------------------------------------------------------

/// The characters of a string slice, in order.
pub fn chars_of(s: &str) -> (r: Vec<char>)
    ensures
        r@ == s@,
{
    let mut r: Vec<char> = Vec::new();
    for c in it: s.chars()
        invariant
            it.seq() == s@,
            r@ == s@.take(it.index() as int),
    {
        r.push(c);
    }
    assert(s@.take(s@.len() as int) == s@);
    r
}

/// Appends one character to a string (`String::push`).
#[verifier::external_body]
pub fn push_char(s: &mut String, c: char)
    ensures
        final(s)@ == old(s)@.push(c),
{
    s.push(c);
}

/// Appends a sequence of characters to a string.
pub fn push_chars(s: &mut String, chars: &[char])
    ensures
        final(s)@ == old(s)@ + chars@,
{
    let ghost start = s@;
    for i in 0..chars.len()
        invariant
            s@ == start + chars@.take(i as int),
    {
        push_char(s, chars[i]);
        assert(chars@.take(i + 1) == chars@.take(i as int).push(chars@[i as int]));
    }
    assert(chars@.take(chars@.len() as int) == chars@);
}

/// Appends a string slice to a string.
pub fn push_str(s: &mut String, t: &str)
    ensures
        final(s)@ == old(s)@ + t@,
{
    let chars = chars_of(t);
    push_chars(s, chars.as_slice());
}

/// A string made of the given characters.
pub fn string_from(chars: &[char]) -> (r: String)
    ensures
        r@ == chars@,
{
    let mut r = String::new();
    push_chars(&mut r, chars);
    r
}

/// Whether `c` is whitespace (`char::is_whitespace`).
pub fn is_whitespace(c: char) -> (r: bool)
    ensures
        r == is_ws(c),
{
    let u = c as u32;
    (0x9 <= u && u <= 0xd) || u == 0x20 || u == 0x85 || u == 0xa0 || u == 0x1680 || (0x2000 <= u
        && u <= 0x200a) || u == 0x2028 || u == 0x2029 || u == 0x202f || u == 0x205f || u == 0x3000
}

/// The bounds of the trimmed part of `s`: `s[start..end]` equals `trim(s)`.
pub fn trim_bounds(s: &[char]) -> (r: (usize, usize))
    ensures
        r.0 <= r.1 <= s@.len(),
        s@.subrange(r.0 as int, r.1 as int) == trim(s@),
{
    let mut start: usize = 0;
    while start < s.len() && is_whitespace(s[start])
        invariant
            start <= s@.len(),
            forall|k: int| 0 <= k < start ==> is_ws(#[trigger] s@[k]),
        decreases s@.len() - start,
    {
        start = start + 1;
    }
    proof {
        lemma_trim_start_skip(s@, start as int);
    }
    let ghost rest = s@.subrange(start as int, s@.len() as int);
    assert(trim_start(rest) == rest);
    let mut end: usize = s.len();
    while end > start && is_whitespace(s[end - 1])
        invariant
            start <= end <= s@.len(),
            rest == s@.subrange(start as int, s@.len() as int),
            forall|k: int| end <= k < s@.len() ==> is_ws(#[trigger] s@[k]),
        decreases end,
    {
        end = end - 1;
    }
    proof {
        assert forall|k: int| end - start <= k < rest.len() implies is_ws(#[trigger] rest[k]) by {
            assert(rest[k] == s@[k + start]);
        }
        lemma_trim_end_skip(rest, end - start);
        assert(rest.subrange(0, end - start) == s@.subrange(start as int, end as int));
    }
    (start, end)
}

/// The trimmed characters of `s` (`str::trim`).
pub fn trimmed(s: &[char]) -> (r: Vec<char>)
    ensures
        r@ == trim(s@),
{
    let (start, end) = trim_bounds(s);
    slice_range(s, start, end)
}

/// A copy of `s[start..end]`.
pub fn slice_range(s: &[char], start: usize, end: usize) -> (r: Vec<char>)
    requires
        start <= end <= s@.len(),
    ensures
        r@ == s@.subrange(start as int, end as int),
{
    let mut r: Vec<char> = Vec::new();
    let mut i = start;
    while i < end
        invariant
            start <= i <= end <= s@.len(),
            r@ == s@.subrange(start as int, i as int),
        decreases end - i,
    {
        r.push(s[i]);
        i = i + 1;
    }
    r
}

/// The ASCII lower-case form of `c` (`char::to_ascii_lowercase`).
pub fn to_lower(c: char) -> (r: char)
    ensures
        r == lower_char(c),
{
    let u = c as u32;
    if ('A' as u32) <= u && u <= ('Z' as u32) {
        let lowered = (c as u8) + 32;
        assert(lowered == u + 32);
        lowered as char
    } else {
        c
    }
}

/// `s` with ASCII letters in lower case (`str::to_ascii_lowercase`).
pub fn lowered(s: &[char]) -> (r: Vec<char>)
    ensures
        r@ == ascii_lower(s@),
{
    let mut r: Vec<char> = Vec::new();
    for i in 0..s.len()
        invariant
            r@ == ascii_lower(s@.take(i as int)),
    {
        r.push(to_lower(s[i]));
        assert(ascii_lower(s@.take(i + 1)) == ascii_lower(s@.take(i as int)).push(
            lower_char(s@[i as int]),
        ));
    }
    assert(s@.take(s@.len() as int) == s@);
    r
}

/// Whether two character sequences are equal.
pub fn same_chars(a: &[char], b: &[char]) -> (r: bool)
    ensures
        r == (a@ == b@),
{
    if a.len() != b.len() {
        return false;
    }
    let mut i: usize = 0;
    while i < a.len()
        invariant
            a@.len() == b@.len(),
            i <= a@.len(),
            forall|k: int| 0 <= k < i ==> a@[k] == b@[k],
        decreases a@.len() - i,
    {
        if a[i] != b[i] {
            return false;
        }
        i = i + 1;
    }
    assert(a@ == b@);
    true
}

/// Whether `needle` occurs in `hay` at position `i`.
pub fn matches_at(hay: &[char], needle: &[char], i: usize) -> (r: bool)
    ensures
        r == occurs_at(hay@, needle@, i as int),
{
    if i > hay.len() || needle.len() > hay.len() - i {
        return false;
    }
    let mut k: usize = 0;
    while k < needle.len()
        invariant
            i + needle@.len() <= hay@.len(),
            i <= hay.len(),
            k <= needle@.len(),
            forall|m: int| 0 <= m < k ==> hay@[i + m] == needle@[m],
        decreases needle@.len() - k,
    {
        assert(i + k < hay@.len());
        if hay[i + k] != needle[k] {
            assert(hay@.subrange(i as int, i + needle@.len())[k as int] != needle@[k as int]);
            return false;
        }
        k = k + 1;
    }
    assert(hay@.subrange(i as int, i + needle@.len()) == needle@);
    true
}

/// The first position at or after `from` where `needle` occurs in `hay`.
pub fn find_from(hay: &[char], needle: &[char], from: usize) -> (r: Option<usize>)
    ensures
        r matches Some(i) ==> from <= i && occurs_at(hay@, needle@, i as int) && forall|j: int|
            from <= j < i ==> !occurs_at(hay@, needle@, j),
        r is None ==> forall|j: int| from <= j ==> !occurs_at(hay@, needle@, j),
{
    let mut i = from;
    while i <= hay.len()
        invariant
            from <= i,
            forall|j: int| from <= j < i ==> !occurs_at(hay@, needle@, j),
        decreases hay@.len() + 1 - i,
    {
        if matches_at(hay, needle, i) {
            return Some(i);
        }
        if i == hay.len() {
            assert forall|j: int| from <= j implies !occurs_at(hay@, needle@, j) by {
                if j > i {
                    assert(j + needle@.len() > hay@.len());
                }
            }
            return None;
        }
        i = i + 1;
    }
    None
}

/// Whether `needle` occurs in `hay` (`str::contains`).
pub fn contains(hay: &[char], needle: &[char]) -> (r: bool)
    ensures
        r == contains_text(hay@, needle@),
{
    match find_from(hay, needle, 0) {
        Some(i) => true,
        None => false,
    }
}

/// Parses an unsigned decimal number no larger than `max`.
fn parse_unsigned(s: &[char], max: u64) -> (r: Option<u64>)
    requires
        max >= 9,
    ensures
        r == (if is_unsigned_number(s@) && digits_value(unsigned_digits(s@)) <= max {
            Some(digits_value(unsigned_digits(s@)) as u64)
        } else {
            None::<u64>
        }),
{
    let start: usize = if s.len() > 0 && s[0] == '+' {
        1
    } else {
        0
    };
    let ghost d = unsigned_digits(s@);
    assert(d == s@.subrange(start as int, s@.len() as int));
    if start == s.len() {
        return None;
    }
    let mut value: u64 = 0;
    let mut i = start;
    while i < s.len()
        invariant
            start <= i <= s@.len(),
            start < s@.len(),
            d == s@.subrange(start as int, s@.len() as int),
            d == unsigned_digits(s@),
            all_digits(s@.subrange(start as int, i as int)),
            value == digits_value(s@.subrange(start as int, i as int)),
            value <= max,
            max >= 9,
        decreases s@.len() - i,
    {
        let c = s[i];
        let ghost prefix = s@.subrange(start as int, i as int);
        let ghost next = s@.subrange(start as int, i + 1);
        assert(next.drop_last() == prefix);
        assert(next.last() == c);
        if !(('0' as u32) <= (c as u32) && (c as u32) <= ('9' as u32)) {
            assert(d[i - start] == c);
            assert(!is_digit(d[i - start]));
            return None;
        }
        let digit = ((c as u32) - ('0' as u32)) as u64;
        assert(digit <= 9);
        assert(digit == digit_value(c));
        if value > (max - digit) / 10 {
            proof {
                assert(value * 10 + digit > max) by (nonlinear_arith)
                    requires
                        value > (max - digit) / 10,
                        digit <= max,
                ;
                assert(digits_value(next) == value * 10 + digit);
                if all_digits(d) {
                    lemma_digits_monotone(d, i + 1 - start);
                    assert(d.subrange(0, i + 1 - start) == next);
                }
            }
            return None;
        }
        assert(value * 10 + digit <= max) by (nonlinear_arith)
            requires
                value <= (max - digit) / 10,
                digit <= max,
        ;
        value = value * 10 + digit;
        i = i + 1;
    }
    assert(s@.subrange(start as int, s@.len() as int) == d);
    Some(value)
}

/// `str::parse::<u32>` on a character sequence.
pub fn parse_u32(s: &[char]) -> (r: Option<u32>)
    ensures
        r == parse_u32_spec(s@),
{
    match parse_unsigned(s, u32::MAX as u64) {
        Some(v) => Some(v as u32),
        None => None,
    }
}

/// `str::parse::<u64>` on a character sequence.
pub fn parse_u64(s: &[char]) -> (r: Option<u64>)
    ensures
        r == parse_u64_spec(s@),
{
    parse_unsigned(s, u64::MAX)
}

/// The character of a decimal digit.
fn digit_to_char(d: u64) -> (r: char)
    requires
        d < 10,
    ensures
        r == digit_char(d as nat),
{
    let b: u8 = 48u8 + (d as u8);
    b as char
}

/// The decimal digits of `n`.
pub fn decimal_chars(n: u64) -> (r: Vec<char>)
    ensures
        r@ == decimal(n as nat),
    decreases n,
{
    if n < 10 {
        let mut v: Vec<char> = Vec::new();
        v.push(digit_to_char(n));
        assert(v@ == seq![digit_char(n as nat)]);
        v
    } else {
        let mut v = decimal_chars(n / 10);
        v.push(digit_to_char(n % 10));
        v
    }
}

/// Appends the decimal text of `n` to a string.
pub fn push_decimal(s: &mut String, n: u64)
    ensures
        final(s)@ == old(s)@ + decimal(n as nat),
{
    let digits = decimal_chars(n);
    push_chars(s, digits.as_slice());
}

/// The views of a sequence of strings.
pub open spec fn string_views(v: Seq<String>) -> Seq<Seq<char>> {
    v.map_values(|s: String| s@)
}

/// The position of the first whitespace character of `s`, or its length.
pub open spec fn first_ws(s: Seq<char>) -> int
    decreases s.len(),
{
    if s.len() == 0 {
        0
    } else if is_ws(s[0]) {
        0
    } else {
        1 + first_ws(s.drop_first())
    }
}

/// The first whitespace-separated word of `s`
/// (`str::split_whitespace().next()`, with an empty result for none).
pub open spec fn first_word(s: Seq<char>) -> Seq<char> {
    let t = trim_start(s);
    t.subrange(0, first_ws(t))
}

proof fn lemma_first_ws_at(s: Seq<char>, i: int)
    requires
        0 <= i <= s.len(),
        forall|j: int| 0 <= j < i ==> !is_ws(#[trigger] s[j]),
        i < s.len() ==> is_ws(s[i]),
    ensures
        first_ws(s) == i,
    decreases i,
{
    if i > 0 {
        let t = s.drop_first();
        assert forall|j: int| 0 <= j < i - 1 implies !is_ws(#[trigger] t[j]) by {
            assert(t[j] == s[j + 1]);
        }
        lemma_first_ws_at(t, i - 1);
    }
}

/// The first whitespace-separated word of `s`.
pub fn first_word_of(s: &[char]) -> (r: Vec<char>)
    ensures
        r@ == first_word(s@),
{
    let mut start: usize = 0;
    while start < s.len() && is_whitespace(s[start])
        invariant
            start <= s@.len(),
            forall|k: int| 0 <= k < start ==> is_ws(#[trigger] s@[k]),
        decreases s@.len() - start,
    {
        start = start + 1;
    }
    proof {
        lemma_trim_start_skip(s@, start as int);
    }
    let ghost rest = s@.subrange(start as int, s@.len() as int);
    assert(trim_start(rest) == rest);
    let mut end = start;
    while end < s.len() && !is_whitespace(s[end])
        invariant
            start <= end <= s@.len(),
            forall|k: int| start <= k < end ==> !is_ws(#[trigger] s@[k]),
        decreases s@.len() - end,
    {
        end = end + 1;
    }
    proof {
        assert forall|j: int| 0 <= j < end - start implies !is_ws(#[trigger] rest[j]) by {
            assert(rest[j] == s@[j + start]);
        }
        lemma_first_ws_at(rest, end - start);
        assert(rest.subrange(0, end - start) == s@.subrange(start as int, end as int));
    }
    slice_range(s, start, end)
}

/// The position of the first `c` in `s`, or `s.len()`.
pub fn position_of_char(s: &[char], c: char) -> (r: usize)
    ensures
        r == crate::id_lists::first_index(s@, c),
{
    let mut i: usize = 0;
    while i < s.len() && s[i] != c
        invariant
            i <= s@.len(),
            forall|j: int| 0 <= j < i ==> s@[j] != c,
        decreases s@.len() - i,
    {
        i = i + 1;
    }
    proof {
        crate::id_lists::lemma_first_index_at(s@, c, i as int);
    }
    i
}

/// The lines of `s`, split at each `'\n'`; a final line ending does not
/// start another, empty line (`str::lines`, before each line is trimmed).
pub open spec fn split_lines(s: Seq<char>) -> Seq<Seq<char>>
    decreases s.len(),
{
    if s.len() == 0 {
        Seq::empty()
    } else {
        let i = crate::id_lists::first_index(s, '\n');
        if i >= s.len() {
            seq![s]
        } else {
            proof {
                crate::id_lists::lemma_first_index(s, '\n');
            }
            seq![s.subrange(0, i)] + split_lines(s.subrange(i + 1, s.len() as int))
        }
    }
}

/// The lines of `s`.
pub fn lines_of(s: &[char]) -> (r: Vec<Vec<char>>)
    ensures
        r@.len() == split_lines(s@).len(),
        forall|k: int| 0 <= k < r@.len() ==> (#[trigger] r@[k])@ == split_lines(s@)[k],
{
    let mut r: Vec<Vec<char>> = Vec::new();
    let mut start: usize = 0;
    assert(s@.subrange(0, s@.len() as int) == s@);
    assert(split_lines(s@).take(0) + split_lines(s@) == split_lines(s@));
    while start < s.len()
        invariant
            start <= s@.len(),
            ({
                let done = split_lines(s@).len() - split_lines(s@.subrange(start as int, s@.len() as int)).len();
                &&& r@.len() == done
                &&& forall|k: int| 0 <= k < r@.len() ==> (#[trigger] r@[k])@ == split_lines(s@)[k]
                &&& split_lines(s@) == split_lines(s@).take(done) + split_lines(
                    s@.subrange(start as int, s@.len() as int),
                )
            }),
        decreases s@.len() - start,
    {
        let ghost rest = s@.subrange(start as int, s@.len() as int);
        let mut end = start;
        while end < s.len() && s[end] != '\n'
            invariant
                start <= end <= s@.len(),
                forall|k: int| start <= k < end ==> s@[k] != '\n',
            decreases s@.len() - end,
        {
            end = end + 1;
        }
        proof {
            assert forall|j: int| 0 <= j < end - start implies rest[j] != '\n' by {
                assert(rest[j] == s@[j + start]);
            }
            crate::id_lists::lemma_first_index_at(rest, '\n', end - start);
            assert(rest.subrange(0, end - start) == s@.subrange(start as int, end as int));
        }
        let line = slice_range(s, start, end);
        let ghost done = split_lines(s@).len() - split_lines(rest).len();
        r.push(line);
        if end < s.len() {
            proof {
                assert(rest.subrange(end - start + 1, rest.len() as int) == s@.subrange(
                    end + 1,
                    s@.len() as int,
                ));
                let tail = s@.subrange(end + 1, s@.len() as int);
                assert(split_lines(rest) == seq![line@] + split_lines(tail));
                let sl = split_lines(s@);
                assert(sl == sl.take(done) + seq![line@] + split_lines(tail));
                assert(sl.take(done + 1) == sl.take(done).push(line@));
                assert(sl == sl.take(done + 1) + split_lines(tail));
                assert(sl[done] == line@);
            }
            start = end + 1;
        } else {
            proof {
                assert(split_lines(rest) == seq![line@]);
                let sl = split_lines(s@);
                assert(sl[done] == line@);
                assert(s@.subrange(s@.len() as int, s@.len() as int).len() == 0);
                assert(sl.len() == done + 1);
            }
            start = end;
        }
    }
    proof {
        assert(s@.subrange(start as int, s@.len() as int).len() == 0);
    }
    r
}

/// The position of the first occurrence of `needle` in `hay`.
pub fn find_text_in(hay: &[char], needle: &[char]) -> (r: Option<usize>)
    ensures
        r matches Some(i) ==> find_text(hay@, needle@) == Some(i as int) && occurs_at(
            hay@,
            needle@,
            i as int,
        ),
        r is None ==> find_text(hay@, needle@) is None,
{
    let found = find_from(hay, needle, 0);
    reveal(find_text);
    match found {
        Some(i) => {
            proof {
                let c = choose|c: int|
                    occurs_at(hay@, needle@, c) && forall|j: int|
                        0 <= j < c ==> !occurs_at(hay@, needle@, j);
                assert(occurs_at(hay@, needle@, i as int) && forall|j: int|
                    0 <= j < i ==> !occurs_at(hay@, needle@, j));
                assert(c == i) by {
                    if c < i {
                        assert(!occurs_at(hay@, needle@, c));
                    } else if c > i {
                        assert(!occurs_at(hay@, needle@, i as int));
                    }
                }
            }
            Some(i)
        },
        None => {
            assert(!contains_text(hay@, needle@));
            None
        },
    }
}

proof fn lemma_digit_run_at(s: Seq<char>, i: int)
    requires
        0 <= i <= s.len(),
        forall|j: int| 0 <= j < i ==> is_digit(#[trigger] s[j]),
        i < s.len() ==> !is_digit(s[i]),
    ensures
        digit_run(s) == i,
    decreases i,
{
    if i > 0 {
        let t = s.drop_first();
        assert forall|j: int| 0 <= j < i - 1 implies is_digit(#[trigger] t[j]) by {
            assert(t[j] == s[j + 1]);
        }
        lemma_digit_run_at(t, i - 1);
    }
}

/// The number of ASCII digits at the start of `s`.
pub fn digit_run_of(s: &[char]) -> (r: usize)
    ensures
        r == digit_run(s@),
        r <= s@.len(),
{
    let mut i: usize = 0;
    while i < s.len() && ('0' as u32) <= (s[i] as u32) && (s[i] as u32) <= ('9' as u32)
        invariant
            i <= s@.len(),
            forall|j: int| 0 <= j < i ==> is_digit(#[trigger] s@[j]),
        decreases s@.len() - i,
    {
        i = i + 1;
    }
    proof {
        lemma_digit_run_at(s@, i as int);
    }
    i
}

/// Appends `items` joined by `sep`.
pub fn push_joined(r: &mut String, items: &[String], sep: &str)
    ensures
        final(r)@ == old(r)@ + joined(string_views(items@), sep@),
{
    let ghost start = r@;
    let ghost views = string_views(items@);
    for i in 0..items.len()
        invariant
            views == string_views(items@),
            r@ == start + joined(views.take(i as int), sep@),
    {
        assert(views.take(i + 1).drop_last() == views.take(i as int));
        if i > 0 {
            push_str(r, sep);
        } else {
            assert(views.take(0) == Seq::<Seq<char>>::empty());
        }
        push_str(r, items[i].as_str());
    }
    assert(views.take(views.len() as int) == views);
}

} // verus!
