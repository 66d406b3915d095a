//! Text as sequences of characters: trimming, splitting, joining, numbers.
//!
//! Every function here is stated over `Seq<char>`, the view of `str` and
//! `String`, so that the modules above it can speak of text directly.

use vstd::prelude::*;

verus! {

/// `String::push` of the standard library: the character is appended.
pub assume_specification[ String::push ](s: &mut String, c: char)
    ensures
        final(s)@ == old(s)@.push(c),
;

// ---------------------------------------------------------------------------
// Characters
// ---------------------------------------------------------------------------

/// The characters with Unicode's `White_Space` property.
pub open spec fn is_space(c: char) -> bool {
    let u = c as u32;
    ||| 9 <= u <= 13
    ||| u == 32
    ||| u == 0x85
    ||| u == 0xa0
    ||| u == 0x1680
    ||| 0x2000 <= u <= 0x200a
    ||| u == 0x2028
    ||| u == 0x2029
    ||| u == 0x202f
    ||| u == 0x205f
    ||| u == 0x3000
}

/// Whether a character is white space.
pub fn char_is_space(c: char) -> (b: bool)
    ensures
        b == is_space(c),
{
    let u: u32 = c as u32;
    (9 <= u && u <= 13) || u == 32 || u == 0x85 || u == 0xa0 || u == 0x1680 || (0x2000 <= u && u
        <= 0x200a) || u == 0x2028 || u == 0x2029 || u == 0x202f || u == 0x205f || u == 0x3000
}

/// The lower-case form of an ASCII letter; any other byte is itself.
pub open spec fn lower_byte(b: u8) -> u8 {
    if 65 <= b <= 90 {
        (b + 32) as u8
    } else {
        b
    }
}

/// The lower-case form of an ASCII letter; any other character is itself.
pub open spec fn lower_char(c: char) -> char {
    if 'A' <= c <= 'Z' {
        (c as u8 + 32) as char
    } else {
        c
    }
}

/// [`lower_byte`], computed.
pub fn byte_to_lower(b: u8) -> (r: u8)
    ensures
        r == lower_byte(b),
{
    if 65 <= b && b <= 90 {
        b + 32
    } else {
        b
    }
}

/// [`lower_char`], computed.
pub fn char_to_lower(c: char) -> (r: char)
    ensures
        r == lower_char(c),
{
    if 'A' <= c && c <= 'Z' {
        (c as u8 + 32) as char
    } else {
        c
    }
}

/// A text with its ASCII letters in lower case.
pub open spec fn lower_ascii(s: Seq<char>) -> Seq<char> {
    Seq::new(s.len(), |i: int| lower_char(s[i]))
}

// ---------------------------------------------------------------------------
// Text and its characters
// ---------------------------------------------------------------------------

/// The views of a list of strings.
pub open spec fn views(v: Seq<String>) -> Seq<Seq<char>> {
    Seq::new(v.len(), |i: int| v[i]@)
}

/// The characters of a text.
pub fn to_chars(s: &str) -> (v: Vec<char>)
    ensures
        v@ == s@,
{
    let mut out: Vec<char> = Vec::new();
    for c in it: s.chars()
        invariant
            out@ == it.seq().take(it.index() as int),
            it.seq() == s@,
    {
        out.push(c);
    }
    out
}

/// The text made of the characters from `from` up to `to`.
pub fn from_chars(v: &Vec<char>, from: usize, to: usize) -> (s: String)
    requires
        from <= to <= v.len(),
    ensures
        s@ == v@.subrange(from as int, to as int),
{
    let mut out = String::new();
    let mut i: usize = from;
    while i < to
        invariant
            from <= i <= to <= v.len(),
            out@ == v@.subrange(from as int, i as int),
        decreases to - i,
    {
        out.push(v[i]);
        i += 1;
    }
    out
}

/// Whether two texts are the same.
pub fn same(a: &str, b: &str) -> (r: bool)
    ensures
        r == (a@ == b@),
{
    a.to_owned() == b.to_owned()
}

/// The lower-case form of a text, as `str::to_lowercase` gives it.
pub uninterp spec fn lowercase(s: Seq<char>) -> Seq<char>;

/// `str::to_lowercase` of the standard library: the text in lower case by
/// Unicode's rules.
#[verifier::external_body]
pub(crate) fn to_lowercase(s: &str) -> (r: String)
    ensures
        r@ == lowercase(s@),
{
    s.to_lowercase()
}

// ---------------------------------------------------------------------------
// Trimming
// ---------------------------------------------------------------------------

/// A text without its leading white space.
pub open spec fn trim_start(s: Seq<char>) -> Seq<char>
    decreases s.len(),
{
    if s.len() > 0 && is_space(s[0]) {
        trim_start(s.drop_first())
    } else {
        s
    }
}

/// A text without its trailing white space.
pub open spec fn trim_end(s: Seq<char>) -> Seq<char>
    decreases s.len(),
{
    if s.len() > 0 && is_space(s.last()) {
        trim_end(s.drop_last())
    } else {
        s
    }
}

/// A text without the white space around it.
pub open spec fn trim(s: Seq<char>) -> Seq<char> {
    trim_end(trim_start(s))
}

/// The text without the white space around it.
pub fn trimmed(s: &str) -> (r: String)
    ensures
        r@ == trim(s@),
{
    let v = to_chars(s);
    let mut i: usize = 0;
    assert(v@.skip(0) =~= v@);
    while i < v.len() && char_is_space(v[i])
        invariant
            i <= v.len(),
            trim_start(v@) == trim_start(v@.skip(i as int)),
        decreases v.len() - i,
    {
        assert(v@.skip(i as int).drop_first() =~= v@.skip(i + 1));
        i += 1;
    }
    assert(trim_start(v@) == v@.skip(i as int));
    let mut j: usize = v.len();
    assert(v@.skip(i as int) =~= v@.subrange(i as int, j as int));
    while i < j && char_is_space(v[j - 1])
        invariant
            i <= j <= v.len(),
            trim(v@) == trim_end(v@.subrange(i as int, j as int)),
        decreases j,
    {
        assert(v@.subrange(i as int, j as int).drop_last() =~= v@.subrange(i as int, j - 1));
        j -= 1;
    }
    from_chars(&v, i, j)
}

/// Whether nothing but white space is in the text.
pub fn is_blank(s: &str) -> (b: bool)
    ensures
        b == (trim(s@).len() == 0),
{
    let t = trimmed(s);
    to_chars(t.as_str()).len() == 0
}

/// The text without its leading white space.
pub fn trimmed_start(s: &str) -> (r: String)
    ensures
        r@ == trim_start(s@),
{
    let v = to_chars(s);
    let mut i: usize = 0;
    assert(v@.skip(0) =~= v@);
    while i < v.len() && char_is_space(v[i])
        invariant
            i <= v.len(),
            trim_start(v@) == trim_start(v@.skip(i as int)),
        decreases v.len() - i,
    {
        assert(v@.skip(i as int).drop_first() =~= v@.skip(i + 1));
        i += 1;
    }
    assert(v@.skip(i as int) =~= v@.subrange(i as int, v@.len() as int));
    from_chars(&v, i, v.len())
}

// ---------------------------------------------------------------------------
// Splitting and joining
// ---------------------------------------------------------------------------

/// The pieces of a text between the occurrences of a separator. There is
/// always one piece more than there are separators.
pub open spec fn split(s: Seq<char>, sep: char) -> Seq<Seq<char>>
    decreases s.len(),
{
    if s.len() == 0 {
        seq![Seq::empty()]
    } else {
        let before = split(s.drop_last(), sep);
        if s.last() == sep {
            before.push(Seq::empty())
        } else {
            before.drop_last().push(before.last().push(s.last()))
        }
    }
}

/// A split is never empty.
pub proof fn lemma_split_nonempty(s: Seq<char>, sep: char)
    ensures
        split(s, sep).len() >= 1,
    decreases s.len(),
{
    if s.len() > 0 {
        lemma_split_nonempty(s.drop_last(), sep);
    }
}

/// The pieces of a text between the occurrences of a separator.
pub fn pieces(s: &str, sep: char) -> (r: Vec<String>)
    ensures
        views(r@) == split(s@, sep),
        r.len() >= 1,
{
    let v = to_chars(s);
    let mut out: Vec<String> = Vec::new();
    let mut cur = String::new();
    let mut i: usize = 0;
    while i < v.len()
        invariant
            i <= v.len(),
            views(out@).push(cur@) =~= split(v@.take(i as int), sep),
        decreases v.len() - i,
    {
        let ghost done = views(out@).push(cur@);
        assert(v@.take(i + 1).drop_last() =~= v@.take(i as int));
        assert(done.drop_last() =~= views(out@));
        let c = v[i];
        if c == sep {
            out.push(cur);
            cur = String::new();
            assert(views(out@) =~= done);
        } else {
            cur.push(c);
        }
        i += 1;
    }
    assert(v@.take(v@.len() as int) =~= s@);
    let ghost last = cur@;
    let ghost init = views(out@);
    out.push(cur);
    assert(views(out@) =~= init.push(last));
    out
}

/// A line without the carriage return that ends it.
pub open spec fn strip_cr(s: Seq<char>) -> Seq<char> {
    if s.len() > 0 && s.last() == '\r' {
        s.drop_last()
    } else {
        s
    }
}

/// The lines of a text: what stands between line feeds, each terminated line
/// without its carriage return, and no empty line after a final line feed.
pub open spec fn lines(s: Seq<char>) -> Seq<Seq<char>> {
    let parts = split(s, '\n');
    let last = parts.len() - 1;
    let count = if parts.last().len() == 0 {
        last
    } else {
        last + 1
    };
    Seq::new(
        count as nat,
        |i: int|
            if i < last {
                strip_cr(parts[i])
            } else {
                parts[i]
            },
    )
}

/// The lines of a text.
pub fn lines_of(s: &str) -> (r: Vec<String>)
    ensures
        views(r@) == lines(s@),
{
    let parts = pieces(s, '\n');
    let mut out: Vec<String> = Vec::new();
    let ghost p = split(s@, '\n');
    let last: usize = parts.len() - 1;
    let mut i: usize = 0;
    while i < last
        invariant
            last == parts.len() - 1,
            i <= last,
            views(parts@) == p,
            p == split(s@, '\n'),
            out.len() == i,
            forall|k: int| 0 <= k < i ==> (#[trigger] out@[k])@ == strip_cr(p[k]),
        decreases last - i,
    {
        assert(p[i as int] == parts@[i as int]@);
        let chars = to_chars(parts[i].as_str());
        let n: usize = chars.len();
        if n > 0 && chars[n - 1] == '\r' {
            let line = from_chars(&chars, 0, n - 1);
            assert(line@ =~= strip_cr(p[i as int]));
            out.push(line);
        } else {
            out.push(parts[i].clone());
        }
        i += 1;
    }
    let tail = to_chars(parts[last].as_str());
    assert(p[last as int] == parts@[last as int]@);
    if tail.len() > 0 {
        out.push(parts[last].clone());
    }
    assert(views(out@) =~= lines(s@));
    out
}

/// The texts one after another with a separator between them.
pub open spec fn join(parts: Seq<Seq<char>>, sep: Seq<char>) -> Seq<char>
    decreases parts.len(),
{
    if parts.len() == 0 {
        Seq::empty()
    } else if parts.len() == 1 {
        parts[0]
    } else {
        join(parts.drop_last(), sep) + sep + parts.last()
    }
}

/// The texts one after another with a separator between them.
pub fn joined(parts: &Vec<String>, sep: &str) -> (r: String)
    ensures
        r@ == join(views(parts@), sep@),
{
    let r = joined_range(parts, 0, parts.len(), sep);
    assert(views(parts@).subrange(0, parts@.len() as int) =~= views(parts@));
    r
}

/// The texts from `from` up to `to`, one after another with a separator
/// between them.
pub fn joined_range(parts: &Vec<String>, from: usize, to: usize, sep: &str) -> (r: String)
    requires
        from <= to <= parts.len(),
    ensures
        r@ == join(views(parts@).subrange(from as int, to as int), sep@),
{
    let mut out = String::new();
    let mut i: usize = from;
    let ghost all = views(parts@);
    while i < to
        invariant
            from <= i <= to <= parts.len(),
            all == views(parts@),
            out@ == join(all.subrange(from as int, i as int), sep@),
        decreases to - i,
    {
        let ghost next = all.subrange(from as int, i + 1);
        assert(next.drop_last() =~= all.subrange(from as int, i as int));
        assert(next.last() == parts@[i as int]@);
        if i > from {
            out.append(sep);
        }
        out.append(parts[i].as_str());
        assert(out@ =~= join(next, sep@));
        i += 1;
    }
    out
}

/// Where a character first stands in a text, if it does.
pub open spec fn first_of(s: Seq<char>, c: char) -> Option<int>
    decreases s.len(),
{
    if s.len() == 0 {
        None
    } else if s[0] == c {
        Some(0)
    } else {
        match first_of(s.drop_first(), c) {
            Some(i) => Some(i + 1),
            None => None,
        }
    }
}

/// Where a character last stands in a text, if it does.
pub open spec fn last_of(s: Seq<char>, c: char) -> Option<int>
    decreases s.len(),
{
    if s.len() == 0 {
        None
    } else if s.last() == c {
        Some(s.len() - 1)
    } else {
        last_of(s.drop_last(), c)
    }
}

/// Where a character last stands among the first `end` characters.
pub fn find_last(v: &Vec<char>, end: usize, c: char) -> (r: Option<usize>)
    requires
        end <= v.len(),
    ensures
        (match r {
            Some(i) => last_of(v@.take(end as int), c) == Some(i as int) && i < end && v@[i as int]
                == c,
            None => last_of(v@.take(end as int), c) is None,
        }),
{
    let mut n: usize = end;
    while n > 0
        invariant
            n <= end <= v.len(),
            last_of(v@.take(end as int), c) == last_of(v@.take(n as int), c),
        decreases n,
    {
        assert(v@.take(n as int).drop_last() =~= v@.take(n - 1));
        if v[n - 1] == c {
            return Some(n - 1);
        }
        n -= 1;
    }
    None
}

/// Where a character first stands in the text.
pub fn find_first(v: &Vec<char>, c: char) -> (r: Option<usize>)
    ensures
        (match r {
            Some(i) => first_of(v@, c) == Some(i as int) && i < v.len() && v@[i as int] == c,
            None => first_of(v@, c) is None,
        }),
{
    let mut i: usize = 0;
    assert(v@.skip(0) =~= v@);
    while i < v.len()
        invariant
            i <= v.len(),
            first_of(v@, c) == (match first_of(v@.skip(i as int), c) {
                Some(k) => Some(k + i),
                None => None,
            }),
        decreases v.len() - i,
    {
        assert(v@.skip(i as int).drop_first() =~= v@.skip(i + 1));
        if v[i] == c {
            return Some(i);
        }
        i += 1;
    }
    None
}

/// Whether one text stands somewhere in another.
pub open spec fn occurs(hay: Seq<char>, needle: Seq<char>) -> bool {
    exists|i: int|
        0 <= i <= hay.len() - needle.len() && #[trigger] hay.subrange(i, i + needle.len())
            == needle
}

/// Whether one text stands somewhere in another.
pub fn contains(hay: &str, needle: &str) -> (r: bool)
    ensures
        r == occurs(hay@, needle@),
{
    let h = to_chars(hay);
    let n = to_chars(needle);
    if n.len() > h.len() {
        return false;
    }
    let mut i: usize = 0;
    let top: usize = h.len() - n.len();
    while i <= top
        invariant
            h@ == hay@,
            n@ == needle@,
            n.len() <= h.len(),
            top == h.len() - n.len(),
            i <= top + 1,
            forall|k: int| 0 <= k < i ==> #[trigger] h@.subrange(k, k + n@.len()) != n@,
        decreases top + 1 - i,
    {
        if matches_at(&h, &n, i) {
            return true;
        }
        if i == top {
            return false;
        }
        i += 1;
    }
    false
}

/// Whether the text `n` stands at position `at` of `h`.
fn matches_at(h: &Vec<char>, n: &Vec<char>, at: usize) -> (r: bool)
    requires
        at + n.len() <= h.len(),
    ensures
        r == (h@.subrange(at as int, at + n@.len()) == n@),
{
    let mut k: usize = 0;
    while k < n.len()
        invariant
            k <= n.len(),
            at + n.len() <= h.len(),
            forall|j: int| 0 <= j < k ==> h@[at + j] == #[trigger] n@[j],
        decreases n.len() - k,
    {
        if h[at + k] != n[k] {
            assert(h@.subrange(at as int, at + n@.len())[k as int] != n@[k as int]);
            return false;
        }
        k += 1;
    }
    assert(h@.subrange(at as int, at + n@.len()) =~= n@);
    true
}

/// Whether a text begins with another.
pub open spec fn begins(s: Seq<char>, prefix: Seq<char>) -> bool {
    prefix.len() <= s.len() && s.take(prefix.len() as int) == prefix
}

/// Whether a text begins with another.
pub fn starts_with(s: &str, prefix: &str) -> (r: bool)
    ensures
        r == begins(s@, prefix@),
{
    let v = to_chars(s);
    let p = to_chars(prefix);
    if p.len() > v.len() {
        return false;
    }
    let r = matches_at(&v, &p, 0);
    assert(v@.subrange(0, p@.len() as int) =~= v@.take(p@.len() as int));
    r
}

/// The text with its ASCII letters in lower case.
pub fn to_lower_ascii(s: &str) -> (r: String)
    ensures
        r@ == lower_ascii(s@),
{
    let v = to_chars(s);
    let mut out = String::new();
    let mut i: usize = 0;
    while i < v.len()
        invariant
            i <= v.len(),
            out@ == lower_ascii(v@).take(i as int),
        decreases v.len() - i,
    {
        out.push(char_to_lower(v[i]));
        assert(out@ =~= lower_ascii(v@).take(i + 1));
        i += 1;
    }
    assert(lower_ascii(v@).take(v@.len() as int) =~= lower_ascii(v@));
    out
}

// ---------------------------------------------------------------------------
// Numbers
// ---------------------------------------------------------------------------

/// The character of a decimal digit.
pub open spec fn digit_char(d: nat) -> char {
    (d + 48) as char
}

/// A number in decimal, without leading zeros.
pub open spec fn decimal(n: nat) -> Seq<char>
    decreases n,
{
    if n < 10 {
        seq![digit_char(n)]
    } else {
        decimal(n / 10).push(digit_char(n % 10))
    }
}

/// A number in decimal.
pub fn number(n: u64) -> (s: String)
    ensures
        s@ == decimal(n as nat),
    decreases n,
{
    let c = (48 + (n % 10) as u8) as char;
    if n < 10 {
        let mut s = String::new();
        s.push(c);
        assert(s@ =~= decimal(n as nat));
        s
    } else {
        let mut s = number(n / 10);
        s.push(c);
        s
    }
}

/// A signed number in decimal, a minus sign before a negative one.
pub open spec fn signed_decimal(n: int) -> Seq<char> {
    if n < 0 {
        seq!['-'] + decimal((-n) as nat)
    } else {
        decimal(n as nat)
    }
}

/// A signed number in decimal.
pub fn signed_number(n: i64) -> (s: String)
    ensures
        s@ == signed_decimal(n as int),
{
    if n < 0 {
        let magnitude: u64 = if n == i64::MIN {
            0x8000_0000_0000_0000
        } else {
            (-n) as u64
        };
        let mut s = String::new();
        s.push('-');
        assert(s@ =~= seq!['-']);
        let d = number(magnitude);
        s.append(d.as_str());
        s
    } else {
        number(n as u64)
    }
}

/// Whether a character is a decimal digit.
pub open spec fn is_digit(c: char) -> bool {
    '0' <= c <= '9'
}

/// The value of a string of decimal digits.
pub open spec fn digits_value(s: Seq<char>) -> nat
    decreases s.len(),
{
    if s.len() == 0 {
        0
    } else {
        (digits_value(s.drop_last()) * 10 + (s.last() as nat - 48)) as nat
    }
}

/// The digits of a number as it is written, with an optional plus sign before
/// them.
pub open spec fn unsigned_part(s: Seq<char>) -> Seq<char> {
    if s.len() > 0 && s[0] == '+' {
        s.drop_first()
    } else {
        s
    }
}

/// What a text says as an unsigned number of at most `max`: an optional plus
/// sign, then at least one digit and nothing else.
pub open spec fn parse_value(s: Seq<char>, max: nat) -> Option<nat> {
    let d = unsigned_part(s);
    if d.len() > 0 && (forall|i: int| 0 <= i < d.len() ==> is_digit(#[trigger] d[i]))
        && digits_value(d) <= max {
        Some(digits_value(d))
    } else {
        None
    }
}

/// More digits never make a number smaller.
proof fn lemma_digits_grow(s: Seq<char>, i: int)
    requires
        0 <= i <= s.len(),
        forall|k: int| 0 <= k < s.len() ==> is_digit(#[trigger] s[k]),
    ensures
        digits_value(s.take(i)) <= digits_value(s),
    decreases s.len() - i,
{
    if i == s.len() {
        assert(s.take(i) =~= s);
    } else {
        lemma_digits_grow(s, i + 1);
        assert(s.take(i + 1).drop_last() =~= s.take(i));
    }
}

/// Reads an unsigned number of at most `max`.
pub fn parse_up_to(s: &str, max: u64) -> (r: Option<u64>)
    ensures
        (match r {
            Some(n) => parse_value(s@, max as nat) == Some(n as nat),
            None => parse_value(s@, max as nat) is None,
        }),
{
    let v = to_chars(s);
    let start: usize = if v.len() > 0 && v[0] == '+' {
        1
    } else {
        0
    };
    let ghost d = unsigned_part(v@);
    assert(d =~= v@.skip(start as int));
    if start == v.len() {
        return None;
    }
    let mut value: u64 = 0;
    let mut i: usize = start;
    while i < v.len()
        invariant
            start <= i <= v.len(),
            s@ == v@,
            d == v@.skip(start as int),
            d == unsigned_part(s@),
            value == digits_value(d.take(i - start)),
            value <= max,
            forall|k: int| 0 <= k < i - start ==> is_digit(#[trigger] d[k]),
        decreases v.len() - i,
    {
        let c = v[i];
        assert(d[i - start] == c);
        assert(d.take(i - start + 1).drop_last() =~= d.take(i - start));
        if c < '0' || c > '9' {
            return None;
        }
        let digit: u64 = c as u64 - 48;
        assert(digits_value(d.take(i - start + 1)) == value * 10 + digit);
        if value > max / 10 || digit > max - value * 10 {
            proof {
                if forall|k: int| 0 <= k < d.len() ==> is_digit(#[trigger] d[k]) {
                    lemma_digits_grow(d, i - start + 1);
                }
            }
            return None;
        }
        value = value * 10 + digit;
        i += 1;
    }
    assert(d.take(d.len() as int) =~= d);
    Some(value)
}

/// Reads an unsigned number that fits a `usize`.
pub fn parse_usize(s: &str) -> (r: Option<usize>)
    ensures
        (match r {
            Some(n) => parse_value(s@, usize::MAX as nat) == Some(n as nat),
            None => parse_value(s@, usize::MAX as nat) is None,
        }),
{
    match parse_up_to(s, usize::MAX as u64) {
        Some(n) => Some(n as usize),
        None => None,
    }
}

// ---------------------------------------------------------------------------
// Columns
// ---------------------------------------------------------------------------

/// `n` spaces.
pub open spec fn blanks(n: int) -> Seq<char> {
    Seq::new(
        if n > 0 {
            n as nat
        } else {
            0
        },
        |i: int| ' ',
    )
}

/// A text in a column of `width` characters, filled with spaces on the right.
pub open spec fn pad_right(s: Seq<char>, width: nat) -> Seq<char> {
    s + blanks(width - s.len())
}

/// A text in a column of `width` characters, filled with spaces on the left.
pub open spec fn pad_left(s: Seq<char>, width: nat) -> Seq<char> {
    blanks(width - s.len()) + s
}

/// `n` spaces.
pub fn spaces(n: usize) -> (r: String)
    ensures
        r@ == blanks(n as int),
{
    let mut out = String::new();
    let mut i: usize = 0;
    while i < n
        invariant
            i <= n,
            out@ == blanks(i as int),
        decreases n - i,
    {
        out.push(' ');
        i += 1;
        assert(out@ =~= blanks(i as int));
    }
    out
}

/// [`pad_right`], computed.
pub fn padded_right(s: &str, width: usize) -> (r: String)
    ensures
        r@ == pad_right(s@, width as nat),
{
    let n: usize = to_chars(s).len();
    let gap: usize = if n < width {
        width - n
    } else {
        0
    };
    let fill = spaces(gap);
    let mut out = s.to_owned();
    out.append(fill.as_str());
    assert(out@ =~= pad_right(s@, width as nat));
    out
}

/// [`pad_left`], computed.
pub fn padded_left(s: &str, width: usize) -> (r: String)
    ensures
        r@ == pad_left(s@, width as nat),
{
    let n: usize = to_chars(s).len();
    let gap: usize = if n < width {
        width - n
    } else {
        0
    };
    let mut out = spaces(gap);
    out.append(s);
    assert(out@ =~= pad_left(s@, width as nat));
    out
}

/// Where a text first stands in another, at or after `from`.
pub open spec fn occurrence(hay: Seq<char>, needle: Seq<char>, from: int) -> Option<int>
    decreases hay.len() - from + 1,
{
    if from < 0 || from + needle.len() > hay.len() {
        None
    } else if hay.subrange(from, from + needle.len()) == needle {
        Some(from)
    } else {
        occurrence(hay, needle, from + 1)
    }
}

/// What stands before and after the first occurrence of a separator.
pub open spec fn split_once(s: Seq<char>, sep: Seq<char>) -> Option<(Seq<char>, Seq<char>)> {
    match occurrence(s, sep, 0) {
        Some(i) => Some((s.take(i), s.skip(i + sep.len()))),
        None => None,
    }
}

/// What stands before and after the first occurrence of a separator.
pub fn parted(s: &str, sep: &str) -> (r: Option<(String, String)>)
    ensures
        (match r {
            Some((a, b)) => split_once(s@, sep@) == Some((a@, b@)),
            None => split_once(s@, sep@) is None,
        }),
{
    let v = to_chars(s);
    let n = to_chars(sep);
    if n.len() > v.len() {
        return None;
    }
    let top: usize = v.len() - n.len();
    let mut i: usize = 0;
    while i <= top
        invariant
            v@ == s@,
            n@ == sep@,
            n.len() <= v.len(),
            top == v.len() - n.len(),
            i <= top + 1,
            occurrence(v@, n@, 0) == occurrence(v@, n@, i as int),
        decreases top + 1 - i,
    {
        if matches_at(&v, &n, i) {
            let before = from_chars(&v, 0, i);
            let after = from_chars(&v, i + n.len(), v.len());
            assert(before@ =~= v@.take(i as int));
            assert(after@ =~= v@.skip(i + n@.len()));
            return Some((before, after));
        }
        if i == top {
            assert(occurrence(v@, n@, i + 1) is None);
            return None;
        }
        i += 1;
    }
    None
}

// ---------------------------------------------------------------------------
// Laws
// ---------------------------------------------------------------------------

/// What stands between two texts occurs in the whole.
pub proof fn lemma_stands_between(before: Seq<char>, s: Seq<char>, after: Seq<char>)
    ensures
        occurs(before + s + after, s),
{
    let whole = before + s + after;
    let i = before.len() as int;
    assert(whole.subrange(i, i + s.len()) =~= s);
}

/// What stands at the end of a text occurs in it.
pub proof fn lemma_stands_at_the_end(before: Seq<char>, s: Seq<char>)
    ensures
        occurs(before + s, s),
{
    let whole = before + s;
    let i = before.len() as int;
    assert(whole.subrange(i, i + s.len()) =~= s);
}

/// Texts put together one after another are the same whichever are put together
/// first.
pub proof fn lemma_same_either_way(a: Seq<char>, b: Seq<char>, c: Seq<char>)
    ensures
        a + b + c == a + (b + c),
{
    assert(a + b + c =~= a + (b + c));
}

/// The pieces of a text hold no separator, and joined by it they are the text
/// again.
pub proof fn pieces_join_to_the_text(s: Seq<char>, sep: char)
    ensures
        join(split(s, sep), seq![sep]) == s,
        forall|i: int|
            0 <= i < split(s, sep).len() ==> !(#[trigger] split(s, sep)[i]).contains(sep),
    decreases s.len(),
{
    let parts = split(s, sep);
    if s.len() == 0 {
        assert(parts[0] =~= s);
    } else {
        let rest = s.drop_last();
        let before = split(rest, sep);
        lemma_split_nonempty(rest, sep);
        pieces_join_to_the_text(rest, sep);
        assert(s =~= rest.push(s.last()));
        if s.last() == sep {
            assert(parts.drop_last() =~= before);
            assert(join(parts, seq![sep]) =~= rest + seq![sep] + Seq::empty());
        } else {
            let last = before.last().push(s.last());
            assert(parts.drop_last() =~= before.drop_last());
            assert(parts.last() == last);
            assert(!before[before.len() - 1].contains(sep));
            assert forall|k: int| 0 <= k < last.len() implies last[k] != sep by {
                if k < before.last().len() {
                    assert(last[k] == before.last()[k]);
                    assert(before.last().contains(before.last()[k]));
                }
            }
            assert(!last.contains(sep));
            if before.len() == 1 {
                assert(join(parts, seq![sep]) =~= s);
            } else {
                assert(join(parts, seq![sep]) =~= join(before, seq![sep]).push(s.last()));
            }
        }
        assert forall|i: int| 0 <= i < parts.len() implies !(#[trigger] parts[i]).contains(
            sep,
        ) by {
            if i < parts.len() - 1 {
                assert(parts[i] == before[i]);
            }
        }
    }
}

/// Each text of several occurs where they are joined, behind the separator
/// where it is not the first.
pub proof fn each_part_stands_in_the_join(parts: Seq<Seq<char>>, sep: Seq<char>, i: int)
    requires
        0 <= i < parts.len(),
    ensures
        i == 0 ==> begins(join(parts, sep), parts[0]),
        i > 0 ==> occurs(join(parts, sep), sep + parts[i]),
    decreases parts.len(),
{
    let whole = join(parts, sep);
    if parts.len() == 1 {
        assert(whole.take(parts[0].len() as int) =~= parts[0]);
    } else {
        let rest = parts.drop_last();
        let before = join(rest, sep);
        if i < rest.len() {
            each_part_stands_in_the_join(rest, sep, i);
            if i == 0 {
                assert(whole.take(parts[0].len() as int) =~= before.take(parts[0].len() as int));
            } else {
                let p = sep + parts[i];
                let k = choose|k: int|
                    0 <= k <= before.len() - p.len() && #[trigger] before.subrange(k, k + p.len())
                        == p;
                assert(whole.subrange(k, k + p.len()) =~= before.subrange(k, k + p.len()));
            }
        } else {
            let p = sep + parts[i];
            let k = before.len() as int;
            assert(whole.subrange(k, k + p.len()) =~= p);
        }
    }
}

/// Trimming takes white space from both ends, all of it, and nothing else.
pub proof fn trimming_takes_only_white_space(s: Seq<char>)
    ensures
        ({
            let t = trim(s);
            &&& t.len() > 0 ==> !is_space(t[0]) && !is_space(t.last())
            &&& exists|i: int|
                0 <= i <= s.len() - t.len() && #[trigger] s.subrange(i, i + t.len()) == t && (
                forall|k: int| 0 <= k < i || i + t.len() <= k < s.len() ==> is_space(#[trigger] s[k]))
        }),
{
    let m = trim_start(s);
    lemma_trim_start(s);
    lemma_trim_end(m);
    let t = trim(s);
    let i = s.len() - m.len();
    assert(s.subrange(i, i + t.len()) =~= t);
    assert forall|k: int| 0 <= k < i || i + t.len() <= k < s.len() implies is_space(
        #[trigger] s[k],
    ) by {
        if k >= i {
            assert(m[k - i] == s[k]);
        }
    }
    if t.len() > 0 {
        assert(t[0] == m[0]);
    }
}

pub(crate) proof fn lemma_trim_start(s: Seq<char>)
    ensures
        ({
            let t = trim_start(s);
            &&& t.len() <= s.len()
            &&& t == s.skip(s.len() - t.len())
            &&& t.len() > 0 ==> !is_space(t[0])
            &&& forall|k: int| 0 <= k < s.len() - t.len() ==> is_space(#[trigger] s[k])
        }),
    decreases s.len(),
{
    let t = trim_start(s);
    if s.len() > 0 && is_space(s[0]) {
        let rest = s.drop_first();
        lemma_trim_start(rest);
        assert(t =~= s.skip(s.len() - t.len()));
        assert forall|k: int| 0 <= k < s.len() - t.len() implies is_space(#[trigger] s[k]) by {
            if k > 0 {
                assert(rest[k - 1] == s[k]);
            }
        }
    } else {
        assert(s.skip(0) =~= s);
    }
}

proof fn lemma_trim_end(s: Seq<char>)
    ensures
        ({
            let t = trim_end(s);
            &&& t.len() <= s.len()
            &&& t == s.take(t.len() as int)
            &&& t.len() > 0 ==> !is_space(t.last())
            &&& forall|k: int| t.len() <= k < s.len() ==> is_space(#[trigger] s[k])
        }),
    decreases s.len(),
{
    let t = trim_end(s);
    if s.len() > 0 && is_space(s.last()) {
        let rest = s.drop_last();
        lemma_trim_end(rest);
        assert(t =~= s.take(t.len() as int));
        assert forall|k: int| t.len() <= k < s.len() implies is_space(#[trigger] s[k]) by {
            if k < rest.len() {
                assert(rest[k] == s[k]);
            }
        }
    } else {
        assert(s.take(s.len() as int) =~= s);
    }
}

/// An occurrence that is found is one, and the first from where the search
/// began; where none is found there is none.
pub proof fn the_first_occurrence_is_found(hay: Seq<char>, needle: Seq<char>, from: int)
    requires
        0 <= from,
    ensures
        (match occurrence(hay, needle, from) {
            Some(i) => {
                &&& from <= i <= hay.len() - needle.len()
                &&& hay.subrange(i, i + needle.len()) == needle
                &&& forall|k: int|
                    from <= k < i ==> #[trigger] hay.subrange(k, k + needle.len()) != needle
            },
            None => forall|k: int|
                from <= k <= hay.len() - needle.len() ==> #[trigger] hay.subrange(
                    k,
                    k + needle.len(),
                ) != needle,
        }),
    decreases hay.len() - from + 1,
{
    if from + needle.len() <= hay.len() && hay.subrange(from, from + needle.len()) != needle {
        the_first_occurrence_is_found(hay, needle, from + 1);
    }
}

/// A text that is parted is what stands before the separator, the separator,
/// and what stands after it, and the separator does not stand earlier.
pub proof fn a_parted_text_is_whole(s: Seq<char>, sep: Seq<char>)
    ensures
        (match split_once(s, sep) {
            Some((a, b)) => {
                &&& s == a + sep + b
                &&& forall|k: int|
                    0 <= k < a.len() ==> #[trigger] s.subrange(k, k + sep.len()) != sep
            },
            None => !occurs(s, sep),
        }),
{
    the_first_occurrence_is_found(s, sep, 0);
    if let Some(i) = occurrence(s, sep, 0) {
        assert(s =~= s.take(i) + s.subrange(i, i + sep.len()) + s.skip(i + sep.len()));
    }
}

/// A column holds its text, and is filled with spaces to its width; a text that
/// is wider is kept whole.
pub proof fn a_column_holds_its_text(s: Seq<char>, width: nat)
    ensures
        begins(pad_right(s, width), s),
        pad_left(s, width).len() == pad_right(s, width).len(),
        pad_right(s, width).len() == (if s.len() < width {
            width
        } else {
            s.len()
        }),
        pad_left(s, width).skip(pad_left(s, width).len() - s.len()) == s,
        forall|i: int|
            s.len() <= i < pad_right(s, width).len() ==> #[trigger] pad_right(s, width)[i] == ' ',
        forall|i: int|
            0 <= i < pad_left(s, width).len() - s.len() ==> #[trigger] pad_left(s, width)[i] == ' ',
{
    assert(pad_right(s, width).take(s.len() as int) =~= s);
    assert(pad_left(s, width).skip(pad_left(s, width).len() - s.len()) =~= s);
}

} // verus!
