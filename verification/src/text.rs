//! Operations on text, stated over sequences of characters.

use vstd::prelude::*;

verus! {

/// `String::push` of std: appends one character.
pub assume_specification[ String::push ](text: &mut String, c: char)
    ensures
        final(text)@ == old(text)@.push(c),
;

/// Whether a character is white space, by Unicode's property of that name.
pub open spec fn is_space(c: char) -> bool {
    ||| 0x9 <= c as u32 <= 0xD
    ||| c as u32 == 0x20
    ||| c as u32 == 0x85
    ||| c as u32 == 0xA0
    ||| c as u32 == 0x1680
    ||| 0x2000 <= c as u32 <= 0x200A
    ||| c as u32 == 0x2028
    ||| c as u32 == 0x2029
    ||| c as u32 == 0x202F
    ||| c as u32 == 0x205F
    ||| c as u32 == 0x3000
}

/// A text without the white space in front of it.
pub open spec fn without_leading(s: Seq<char>) -> Seq<char>
    decreases s.len(),
{
    if s.len() > 0 && is_space(s[0]) {
        without_leading(s.drop_first())
    } else {
        s
    }
}

/// A text without the white space behind it.
pub open spec fn without_trailing(s: Seq<char>) -> Seq<char>
    decreases s.len(),
{
    if s.len() > 0 && is_space(s.last()) {
        without_trailing(s.drop_last())
    } else {
        s
    }
}

/// A text without the white space around it.
pub open spec fn trimmed(s: Seq<char>) -> Seq<char> {
    without_trailing(without_leading(s))
}

/// A character with an ASCII capital made small.
pub open spec fn small(c: char) -> char {
    if 'A' <= c <= 'Z' {
        (c as u8 + 32) as char
    } else {
        c
    }
}

/// A character with a small ASCII letter made a capital.
pub open spec fn capital(c: char) -> char {
    if 'a' <= c <= 'z' {
        (c as u8 - 32) as char
    } else {
        c
    }
}

/// A text with its ASCII capitals made small.
pub open spec fn lowered(s: Seq<char>) -> Seq<char> {
    s.map_values(|c: char| small(c))
}

/// A text with its small ASCII letters made capitals.
pub open spec fn raised(s: Seq<char>) -> Seq<char> {
    s.map_values(|c: char| capital(c))
}

/// The part of a text before the first occurrence of a mark; all of it where
/// the mark does not occur.
pub open spec fn before(s: Seq<char>, mark: char) -> Seq<char>
    decreases s.len(),
{
    if s.len() == 0 || s[0] == mark {
        Seq::empty()
    } else {
        seq![s[0]] + before(s.drop_first(), mark)
    }
}

/// The part of a text behind the first occurrence of a mark.
pub open spec fn behind(s: Seq<char>, mark: char) -> Seq<char> {
    s.skip(before(s, mark).len() as int + 1)
}

/// What `before` is: the longest prefix without the mark.
pub proof fn lemma_before(s: Seq<char>, mark: char)
    ensures
        before(s, mark).len() <= s.len(),
        before(s, mark) == s.take(before(s, mark).len() as int),
        !before(s, mark).contains(mark),
        before(s, mark).len() < s.len() ==> s[before(s, mark).len() as int] == mark,
        s.contains(mark) <==> before(s, mark).len() < s.len(),
    decreases s.len(),
{
    if s.len() == 0 || s[0] == mark {
        assert(before(s, mark) =~= s.take(0));
        if s.len() > 0 {
            assert(s.contains(mark));
        }
    } else {
        let rest = s.drop_first();
        lemma_before(rest, mark);
        let b = before(s, mark);
        assert(b =~= s.take(b.len() as int)) by {
            assert forall|i: int| 0 <= i < b.len() implies b[i] == s[i] by {
                if i > 0 {
                    assert(before(rest, mark)[i - 1] == rest.take(before(rest, mark).len() as int)[i - 1]);
                }
            }
        }
        assert(!b.contains(mark)) by {
            if b.contains(mark) {
                let i = choose|i: int| 0 <= i < b.len() && b[i] == mark;
                assert(i > 0);
                assert(before(rest, mark)[i - 1] == mark);
                assert(before(rest, mark).contains(mark));
            }
        }
        if s.contains(mark) {
            let i = choose|i: int| 0 <= i < s.len() && s[i] == mark;
            assert(rest[i - 1] == mark);
            assert(rest.contains(mark));
        }
        if b.len() < s.len() {
            assert(s[b.len() as int] == rest[before(rest, mark).len() as int]);
            assert(s.contains(mark));
        }
    }
}

/// The characters of a text.
pub fn chars_of(text: &str) -> (r: Vec<char>)
    ensures
        r@ == text@,
{
    let mut out: Vec<char> = Vec::new();
    for c in it: text.chars()
        invariant
            it.seq() == text@,
            out@ == text@.take(it.index() as int),
    {
        proof {
            assert(text@.take(it.index() as int).push(c) =~= text@.take(it.index() as int + 1));
        }
        out.push(c);
    }
    proof {
        assert(text@.take(text@.len() as int) =~= text@);
    }
    out
}

/// The text of some of the characters of a list.
pub fn text_of_range(chars: &Vec<char>, from: usize, to: usize) -> (r: String)
    requires
        from <= to <= chars@.len(),
    ensures
        r@ == chars@.subrange(from as int, to as int),
{
    let mut out: String = String::new();
    let mut i: usize = from;
    while i < to
        invariant
            from <= i <= to <= chars@.len(),
            out@ == chars@.subrange(from as int, i as int),
        decreases to - i,
    {
        proof {
            assert(chars@.subrange(from as int, i as int).push(chars@[i as int]) =~= chars@.subrange(
                from as int,
                i + 1,
            ));
        }
        out.push(chars[i]);
        i = i + 1;
    }
    out
}

/// Whether two texts are the same.
pub fn same_text(a: &str, b: &str) -> (r: bool)
    ensures
        r == (a@ == b@),
{
    let left: String = a.to_owned();
    let right: String = b.to_owned();
    left == right
}

/// Whether two strings hold the same text.
pub fn same_string(a: &String, b: &String) -> (r: bool)
    ensures
        r == (a@ == b@),
{
    *a == *b
}

/// Whether a text begins with a prefix.
pub fn starts_with(text: &str, prefix: &str) -> (r: bool)
    ensures
        r == prefix@.is_prefix_of(text@),
{
    let t: Vec<char> = chars_of(text);
    let p: Vec<char> = chars_of(prefix);
    if p.len() > t.len() {
        return false;
    }
    let mut i: usize = 0;
    while i < p.len()
        invariant
            i <= p@.len() <= t@.len(),
            t@ == text@,
            p@ == prefix@,
            forall|j: int| 0 <= j < i ==> p@[j] == t@[j],
        decreases p@.len() - i,
    {
        if p[i] != t[i] {
            proof {
                assert(text@.take(p@.len() as int)[i as int] != prefix@[i as int]);
            }
            return false;
        }
        i = i + 1;
    }
    proof {
        assert(text@.take(p@.len() as int) =~= prefix@);
    }
    true
}

/// The part of a text before the first occurrence of a mark; all of it where
/// the mark does not occur.
pub fn text_before(text: &str, mark: char) -> (r: String)
    ensures
        r@ == before(text@, mark),
{
    let chars: Vec<char> = chars_of(text);
    let mut i: usize = 0;
    proof {
        lemma_before(chars@, mark);
        assert(chars@.skip(0) =~= chars@);
    }
    while i < chars.len() && chars[i] != mark
        invariant
            i <= chars@.len(),
            forall|j: int| 0 <= j < i ==> chars@[j] != mark,
        decreases chars@.len() - i,
    {
        i = i + 1;
    }
    proof {
        let n = before(chars@, mark).len();
        if i < n {
            assert(before(chars@, mark)[i as int] == chars@[i as int]);
            assert(before(chars@, mark).contains(mark));
        }
        assert(chars@.subrange(0, i as int) =~= chars@.take(i as int));
    }
    text_of_range(&chars, 0, i)
}

/// The parts of a text before and behind the first occurrence of a mark;
/// `None` where the mark does not occur.
pub fn split_once(text: &str, mark: char) -> (r: Option<(String, String)>)
    ensures
        r is Some <==> text@.contains(mark),
        r matches Some(parts) ==> parts.0@ == before(text@, mark) && parts.1@ == behind(text@, mark),
{
    let chars: Vec<char> = chars_of(text);
    let mut i: usize = 0;
    proof {
        lemma_before(chars@, mark);
    }
    while i < chars.len() && chars[i] != mark
        invariant
            i <= chars@.len(),
            forall|j: int| 0 <= j < i ==> chars@[j] != mark,
        decreases chars@.len() - i,
    {
        i = i + 1;
    }
    proof {
        let n = before(chars@, mark).len();
        if i < n {
            assert(before(chars@, mark)[i as int] == chars@[i as int]);
            assert(before(chars@, mark).contains(mark));
        }
    }
    if i == chars.len() {
        return None;
    }
    proof {
        assert(chars@.subrange(0, i as int) =~= chars@.take(i as int));
        assert(chars@.subrange(i + 1, chars@.len() as int) =~= behind(chars@, mark));
    }
    let front: String = text_of_range(&chars, 0, i);
    let back: String = text_of_range(&chars, i + 1, chars.len());
    Some((front, back))
}

/// A text with its ASCII capitals made small.
pub fn lowercase(text: &str) -> (r: String)
    ensures
        r@ == lowered(text@),
{
    let chars: Vec<char> = chars_of(text);
    let mut out: String = String::new();
    let mut i: usize = 0;
    while i < chars.len()
        invariant
            i <= chars@.len(),
            out@ == lowered(chars@.take(i as int)),
        decreases chars@.len() - i,
    {
        let c: char = chars[i];
        let d: char = if 'A' <= c && c <= 'Z' {
            (c as u8 + 32) as char
        } else {
            c
        };
        proof {
            assert(lowered(chars@.take(i as int)).push(d) =~= lowered(chars@.take(i + 1)));
        }
        out.push(d);
        i = i + 1;
    }
    proof {
        assert(chars@.take(i as int) =~= text@);
    }
    out
}

/// A text with its small ASCII letters made capitals.
pub fn uppercase(text: &str) -> (r: String)
    ensures
        r@ == raised(text@),
{
    let chars: Vec<char> = chars_of(text);
    let mut out: String = String::new();
    let mut i: usize = 0;
    while i < chars.len()
        invariant
            i <= chars@.len(),
            out@ == raised(chars@.take(i as int)),
        decreases chars@.len() - i,
    {
        let c: char = chars[i];
        let d: char = if 'a' <= c && c <= 'z' {
            (c as u8 - 32) as char
        } else {
            c
        };
        proof {
            assert(raised(chars@.take(i as int)).push(d) =~= raised(chars@.take(i + 1)));
        }
        out.push(d);
        i = i + 1;
    }
    proof {
        assert(chars@.take(i as int) =~= text@);
    }
    out
}

/// Whether a character is white space.
fn space(c: char) -> (r: bool)
    ensures
        r == is_space(c),
{
    let n: u32 = c as u32;
    (0x9 <= n && n <= 0xD) || n == 0x20 || n == 0x85 || n == 0xA0 || n == 0x1680 || (0x2000 <= n && n
        <= 0x200A) || n == 0x2028 || n == 0x2029 || n == 0x202F || n == 0x205F || n == 0x3000
}

/// A text without the white space around it.
pub fn trim(text: &str) -> (r: String)
    ensures
        r@ == trimmed(text@),
{
    let chars: Vec<char> = chars_of(text);
    let mut from: usize = 0;
    proof {
        assert(chars@.skip(0) =~= chars@);
    }
    while from < chars.len() && space(chars[from])
        invariant
            from <= chars@.len(),
            without_leading(chars@) == without_leading(chars@.skip(from as int)),
        decreases chars@.len() - from,
    {
        proof {
            assert(chars@.skip(from as int).drop_first() =~= chars@.skip(from + 1));
        }
        from = from + 1;
    }
    let ghost led = chars@.skip(from as int);
    let mut to: usize = chars.len();
    proof {
        assert(chars@.subrange(from as int, to as int) =~= led);
    }
    while to > from && space(chars[to - 1])
        invariant
            from <= to <= chars@.len(),
            without_trailing(led) == without_trailing(chars@.subrange(from as int, to as int)),
        decreases to,
    {
        proof {
            assert(chars@.subrange(from as int, to as int).drop_last() =~= chars@.subrange(
                from as int,
                to - 1,
            ));
        }
        to = to - 1;
    }
    text_of_range(&chars, from, to)
}

/// Whether a text is nothing but white space.
pub fn is_blank(text: &str) -> (r: bool)
    ensures
        r == (trimmed(text@).len() == 0),
{
    let rest: String = trim(text);
    rest.as_str().is_empty()
}

/// Texts put together with a separator between them.
pub open spec fn joined(parts: Seq<Seq<char>>, separator: Seq<char>) -> Seq<char>
    decreases parts.len(),
{
    if parts.len() == 0 {
        Seq::empty()
    } else if parts.len() == 1 {
        parts[0]
    } else {
        joined(parts.drop_last(), separator) + separator + parts.last()
    }
}

/// The texts of a list of strings.
pub open spec fn texts(list: Seq<String>) -> Seq<Seq<char>> {
    list.map_values(|s: String| s@)
}

/// Texts put together with a separator between them.
pub fn join(parts: &Vec<String>, separator: &str) -> (r: String)
    ensures
        r@ == joined(texts(parts@), separator@),
{
    let mut out: String = String::new();
    let mut i: usize = 0;
    while i < parts.len()
        invariant
            i <= parts@.len(),
            out@ == joined(texts(parts@).take(i as int), separator@),
        decreases parts@.len() - i,
    {
        proof {
            assert(texts(parts@).take(i + 1).drop_last() =~= texts(parts@).take(i as int));
        }
        if i > 0 {
            out.append(separator);
        }
        out.append(parts[i].as_str());
        i = i + 1;
    }
    proof {
        assert(texts(parts@).take(i as int) =~= texts(parts@));
    }
    out
}

/// Two texts put together.
pub fn concat2(a: &str, b: &str) -> (r: String)
    ensures
        r@ == a@ + b@,
{
    let mut out: String = a.to_owned();
    out.append(b);
    out
}

/// A digit below ten.
pub open spec fn digit(d: nat) -> char {
    (48 + d) as u8 as char
}

/// A number written in decimal digits.
pub open spec fn digits(n: nat) -> Seq<char>
    decreases n,
{
    if n < 10 {
        seq![digit(n)]
    } else {
        digits(n / 10).push(digit(n % 10))
    }
}

/// A number written in decimal digits.
pub fn number_text(n: u64) -> (r: String)
    ensures
        r@ == digits(n as nat),
    decreases n,
{
    let last: char = (48 + (n % 10) as u8) as char;
    let mut out: String = if n < 10 {
        String::new()
    } else {
        number_text(n / 10)
    };
    out.push(last);
    proof {
        if n < 10 {
            assert(out@ =~= seq![digit(n as nat)]);
        }
    }
    out
}

pub open spec fn is_digit(c: char) -> bool {
    '0' <= c <= '9'
}

/// The number that a sequence of decimal digits writes.
pub open spec fn digits_value(s: Seq<char>) -> nat
    decreases s.len(),
{
    if s.len() == 0 {
        0
    } else {
        (10 * digits_value(s.drop_last()) + (s.last() as u32 - 48)) as nat
    }
}

/// The digits of a number with an optional plus sign in front.
pub open spec fn unsigned_part(s: Seq<char>) -> Seq<char> {
    if s.len() > 0 && s[0] == '+' {
        s.drop_first()
    } else {
        s
    }
}

/// The whole number that a text writes, where it is no larger than a bound: an
/// optional plus sign, and then at least one digit and nothing else.
pub open spec fn whole_number(s: Seq<char>, bound: nat) -> Option<nat> {
    let d = unsigned_part(s);
    if d.len() > 0 && (forall|i: int| 0 <= i < d.len() ==> is_digit(d[i])) && digits_value(d) <= bound {
        Some(digits_value(d))
    } else {
        None
    }
}

/// More digits do not make a number smaller.
proof fn lemma_digits_value_grows(s: Seq<char>, n: int)
    requires
        0 <= n <= s.len(),
        forall|i: int| 0 <= i < s.len() ==> is_digit(s[i]),
    ensures
        digits_value(s.take(n)) <= digits_value(s),
    decreases s.len(),
{
    if n == s.len() {
        assert(s.take(n) =~= s);
    } else {
        lemma_digits_value_grows(s.drop_last(), n);
        assert(s.drop_last().take(n) =~= s.take(n));
    }
}

/// Reads a whole number.
pub fn read_u64(text: &str) -> (r: Option<u64>)
    ensures
        match r {
            Some(n) => whole_number(text@, u64::MAX as nat) == Some(n as nat),
            None => whole_number(text@, u64::MAX as nat) is None,
        },
{
    let chars: Vec<char> = chars_of(text);
    let start: usize = if chars.len() > 0 && chars[0] == '+' {
        1
    } else {
        0
    };
    let ghost d = unsigned_part(chars@);
    proof {
        assert(d =~= chars@.skip(start as int));
    }
    if start == chars.len() {
        return None;
    }
    let mut value: u64 = 0;
    let mut i: usize = start;
    while i < chars.len()
        invariant
            start <= i <= chars@.len(),
            d == chars@.skip(start as int),
            d == unsigned_part(text@),
            forall|j: int| 0 <= j < i - start ==> is_digit(d[j]),
            value == digits_value(d.take(i - start)),
        decreases chars@.len() - i,
    {
        let c: char = chars[i];
        proof {
            assert(d[i - start] == c);
            assert(d.take(i + 1 - start).drop_last() =~= d.take(i - start));
        }
        if !('0' <= c && c <= '9') {
            return None;
        }
        let wide: u128 = value as u128 * 10 + (c as u32 - 48) as u128;
        if wide > u64::MAX as u128 {
            proof {
                if forall|j: int| 0 <= j < d.len() ==> is_digit(d[j]) {
                    lemma_digits_value_grows(d, i + 1 - start);
                }
            }
            return None;
        }
        value = wide as u64;
        i = i + 1;
    }
    proof {
        assert(d.take(i - start) =~= d);
    }
    Some(value)
}

/// Reads a whole number.
pub fn read_usize(text: &str) -> (r: Option<usize>)
    ensures
        match r {
            Some(n) => whole_number(text@, usize::MAX as nat) == Some(n as nat),
            None => whole_number(text@, usize::MAX as nat) is None,
        },
{
    match read_u64(text) {
        Some(n) => {
            if n <= usize::MAX as u64 {
                Some(n as usize)
            } else {
                None
            }
        },
        None => None,
    }
}

/// A text cut to a number of characters, with dots in place of the last three
/// where something is cut off.
pub open spec fn shortened(s: Seq<char>, max_len: nat) -> Seq<char> {
    if s.len() <= max_len {
        s
    } else {
        s.take(if max_len >= 3 { max_len - 3 } else { 0 }) + "..."@
    }
}

/// A text cut to a number of characters for a column of a table.
pub fn truncate(input: &str, max_len: usize) -> (r: String)
    ensures
        r@ == shortened(input@, max_len as nat),
{
    let chars: Vec<char> = chars_of(input);
    if chars.len() <= max_len {
        return input.to_owned();
    }
    let keep: usize = max_len.saturating_sub(3);
    let mut out: String = text_of_range(&chars, 0, keep);
    proof {
        assert(chars@.subrange(0, keep as int) =~= chars@.take(keep as int));
    }
    out.append("...");
    out
}

/// A text with every double quote written twice.
pub open spec fn quotes_doubled(s: Seq<char>) -> Seq<char>
    decreases s.len(),
{
    if s.len() == 0 {
        Seq::empty()
    } else if s.last() == '"' {
        quotes_doubled(s.drop_last()).push('"').push('"')
    } else {
        quotes_doubled(s.drop_last()).push(s.last())
    }
}

/// A text with every double quote written twice.
pub fn double_quotes(input: &str) -> (r: String)
    ensures
        r@ == quotes_doubled(input@),
{
    let chars: Vec<char> = chars_of(input);
    let mut out: String = String::new();
    let mut i: usize = 0;
    while i < chars.len()
        invariant
            i <= chars@.len(),
            out@ == quotes_doubled(chars@.take(i as int)),
        decreases chars@.len() - i,
    {
        proof {
            assert(chars@.take(i + 1).drop_last() =~= chars@.take(i as int));
        }
        if chars[i] == '"' {
            out.push('"');
        }
        out.push(chars[i]);
        i = i + 1;
    }
    proof {
        assert(chars@.take(i as int) =~= input@);
    }
    out
}

/// The order of texts: by the first character in which they differ, a text
/// before its own continuations.
pub open spec fn comes_before(a: Seq<char>, b: Seq<char>) -> bool
    decreases a.len(),
{
    if b.len() == 0 {
        false
    } else if a.len() == 0 {
        true
    } else if a[0] != b[0] {
        a[0] < b[0]
    } else {
        comes_before(a.drop_first(), b.drop_first())
    }
}

/// Of two different texts one comes before the other, and not both.
pub proof fn lemma_order_is_total(a: Seq<char>, b: Seq<char>)
    ensures
        comes_before(a, b) || comes_before(b, a) || a == b,
        !(comes_before(a, b) && comes_before(b, a)),
        a == b ==> !comes_before(a, b),
    decreases a.len(),
{
    if a.len() > 0 && b.len() > 0 && a[0] == b[0] {
        lemma_order_is_total(a.drop_first(), b.drop_first());
        if a.drop_first() == b.drop_first() {
            assert forall|i: int| 0 <= i < a.len() implies a[i] == b[i] by {
                if i > 0 {
                    assert(a[i] == a.drop_first()[i - 1]);
                    assert(b[i] == b.drop_first()[i - 1]);
                }
            }
            assert(a.len() == a.drop_first().len() + 1);
            assert(a =~= b);
        }
    } else if a.len() == 0 && b.len() == 0 {
        assert(a =~= b);
    }
}

/// The order of texts carries over.
pub proof fn lemma_order_is_transitive(a: Seq<char>, b: Seq<char>, c: Seq<char>)
    requires
        comes_before(a, b),
        comes_before(b, c),
    ensures
        comes_before(a, c),
    decreases a.len(),
{
    if a.len() > 0 && a[0] == b[0] && b[0] == c[0] {
        lemma_order_is_transitive(a.drop_first(), b.drop_first(), c.drop_first());
    }
}

/// Whether one text comes before another.
pub fn text_precedes(a: &str, b: &str) -> (r: bool)
    ensures
        r == comes_before(a@, b@),
{
    let x: Vec<char> = chars_of(a);
    let y: Vec<char> = chars_of(b);
    let mut i: usize = 0;
    proof {
        assert(x@.skip(0) =~= a@);
        assert(y@.skip(0) =~= b@);
    }
    while i < x.len() && i < y.len() && x[i] == y[i]
        invariant
            i <= x@.len(),
            i <= y@.len(),
            comes_before(a@, b@) == comes_before(x@.skip(i as int), y@.skip(i as int)),
        decreases x@.len() - i,
    {
        proof {
            assert(x@.skip(i as int).drop_first() =~= x@.skip(i + 1));
            assert(y@.skip(i as int).drop_first() =~= y@.skip(i + 1));
        }
        i = i + 1;
    }
    if i == y.len() {
        return false;
    }
    if i == x.len() {
        return true;
    }
    x[i] < y[i]
}

proof fn lemma_without_leading(s: Seq<char>)
    ensures
        without_leading(s).len() > 0 ==> !is_space(without_leading(s)[0]),
    decreases s.len(),
{
    if s.len() > 0 && is_space(s[0]) {
        lemma_without_leading(s.drop_first());
    }
}

proof fn lemma_without_trailing(s: Seq<char>)
    ensures
        without_trailing(s).is_prefix_of(s),
        without_trailing(s).len() > 0 ==> !is_space(without_trailing(s).last()),
    decreases s.len(),
{
    if s.len() > 0 && is_space(s.last()) {
        lemma_without_trailing(s.drop_last());
    }
}

/// Taking the white space off a text and making its letters small leaves nothing
/// to do a second time.
pub proof fn law_cleaning_twice(s: Seq<char>)
    ensures
        lowered(trimmed(lowered(trimmed(s)))) == lowered(trimmed(s)),
{
    let t = trimmed(s);
    let l = lowered(t);
    lemma_without_leading(s);
    lemma_without_trailing(without_leading(s));
    if t.len() > 0 {
        assert(t[0] == without_leading(s)[0]);
        assert(l[0] == small(t[0]));
        assert(l.last() == small(t.last()));
        assert(!is_space(l[0]) && !is_space(l.last()));
    }
    assert(without_leading(l) == l);
    assert(without_trailing(l) == l);
    assert(lowered(l) =~= l) by {
        assert forall|i: int| 0 <= i < l.len() implies small(#[trigger] l[i]) == l[i] by {
            assert(l[i] == small(t[i]));
        }
    }
}

proof fn lemma_leading_part(s: Seq<char>) -> (n: int)
    ensures
        0 <= n <= s.len(),
        without_leading(s) == s.skip(n),
        forall|i: int| 0 <= i < n ==> is_space(#[trigger] s[i]),
    decreases s.len(),
{
    if s.len() > 0 && is_space(s[0]) {
        let rest = s.drop_first();
        let n = lemma_leading_part(rest);
        assert(rest.skip(n) =~= s.skip(n + 1));
        assert forall|i: int| 0 <= i < n + 1 implies is_space(#[trigger] s[i]) by {
            if i > 0 {
                assert(rest[i - 1] == s[i]);
            }
        }
        n + 1
    } else {
        assert(s.skip(0) =~= s);
        0
    }
}

proof fn lemma_trailing_part(s: Seq<char>) -> (n: int)
    ensures
        0 <= n <= s.len(),
        without_trailing(s) == s.take(n),
        forall|i: int| n <= i < s.len() ==> is_space(#[trigger] s[i]),
    decreases s.len(),
{
    if s.len() > 0 && is_space(s.last()) {
        let rest = s.drop_last();
        let n = lemma_trailing_part(rest);
        assert(rest.take(n) =~= s.take(n));
        assert forall|i: int| n <= i < s.len() implies is_space(#[trigger] s[i]) by {
            if i < rest.len() {
                assert(rest[i] == s[i]);
            }
        }
        n
    } else {
        assert(s.take(s.len() as int) =~= s);
        s.len() as int
    }
}

/// A trimmed text is the part of the text from one place to another; all in front
/// of it and behind it is white space, and it neither begins nor ends with any.
pub proof fn law_trimmed_text(s: Seq<char>) -> (at: (int, int))
    ensures
        0 <= at.0 <= at.1 <= s.len(),
        trimmed(s) == s.subrange(at.0, at.1),
        forall|i: int| 0 <= i < at.0 ==> is_space(#[trigger] s[i]),
        forall|i: int| at.1 <= i < s.len() ==> is_space(#[trigger] s[i]),
        trimmed(s).len() > 0 ==> !is_space(s[at.0]) && !is_space(s[at.1 - 1]),
{
    let n = lemma_leading_part(s);
    let rest = s.skip(n);
    let m = lemma_trailing_part(rest);
    lemma_without_leading(s);
    lemma_without_trailing(rest);
    assert(rest.take(m) =~= s.subrange(n, n + m));
    assert forall|i: int| n + m <= i < s.len() implies is_space(#[trigger] s[i]) by {
        assert(rest[i - n] == s[i]);
    }
    if trimmed(s).len() > 0 {
        assert(rest[0] == s[n]);
        assert(trimmed(s).last() == s[n + m - 1]);
    }
    (n, n + m)
}

/// Small letters and capitals: only the letters from a to z change, each for its
/// own counterpart, and no text changes its length.
pub proof fn law_letters_change_alone(s: Seq<char>, i: int)
    requires
        0 <= i < s.len(),
    ensures
        lowered(s).len() == s.len(),
        raised(s).len() == s.len(),
        'A' <= s[i] <= 'Z' ==> lowered(s)[i] as u32 == s[i] as u32 + 32,
        !('A' <= s[i] <= 'Z') ==> lowered(s)[i] == s[i],
        'a' <= s[i] <= 'z' ==> raised(s)[i] as u32 + 32 == s[i] as u32,
        !('a' <= s[i] <= 'z') ==> raised(s)[i] == s[i],
{
}

/// A text that holds a mark is what is before its first one, the mark, and what is
/// behind it.
pub proof fn law_split_at_the_first_mark(s: Seq<char>, mark: char)
    ensures
        !before(s, mark).contains(mark),
        s.contains(mark) ==> s == before(s, mark) + seq![mark] + behind(s, mark),
        !s.contains(mark) ==> before(s, mark) == s,
{
    lemma_before(s, mark);
    if s.contains(mark) {
        assert(s =~= before(s, mark) + seq![mark] + behind(s, mark));
    } else {
        assert(s.take(s.len() as int) =~= s);
    }
}

/// One text comes before another exactly where they agree up to a place at which
/// the first ends and the other does not, or at which its character is the lower
/// one.
pub proof fn law_order_is_by_the_first_difference(a: Seq<char>, b: Seq<char>)
    ensures
        comes_before(a, b) <==> exists|k: int|
            0 <= k <= a.len() && k < b.len() && #[trigger] a.take(k) == b.take(k) && (k == a.len()
                || a[k] < b[k]),
    decreases a.len(),
{
    if a.len() > 0 && b.len() > 0 && a[0] == b[0] {
        let x = a.drop_first();
        let y = b.drop_first();
        law_order_is_by_the_first_difference(x, y);
        if comes_before(x, y) {
            let k = choose|k: int|
                0 <= k <= x.len() && k < y.len() && #[trigger] x.take(k) == y.take(k) && (k
                    == x.len() || x[k] < y[k]);
            assert(a.take(k + 1) =~= b.take(k + 1)) by {
                assert forall|i: int| 0 <= i < k + 1 implies a[i] == b[i] by {
                    if i > 0 {
                        assert(x.take(k)[i - 1] == y.take(k)[i - 1]);
                    }
                }
            }
        }
        if exists|k: int|
            0 <= k <= a.len() && k < b.len() && #[trigger] a.take(k) == b.take(k) && (k == a.len()
                || a[k] < b[k]) {
            let k = choose|k: int|
                0 <= k <= a.len() && k < b.len() && #[trigger] a.take(k) == b.take(k) && (k
                    == a.len() || a[k] < b[k]);
            assert(k > 0);
            assert(x.take(k - 1) =~= y.take(k - 1)) by {
                assert forall|i: int| 0 <= i < k - 1 implies x[i] == y[i] by {
                    assert(a.take(k)[i + 1] == b.take(k)[i + 1]);
                }
            }
        }
    } else if b.len() > 0 {
        assert(a.take(0) =~= b.take(0));
        if exists|k: int|
            0 <= k <= a.len() && k < b.len() && #[trigger] a.take(k) == b.take(k) && (k == a.len()
                || a[k] < b[k]) {
            let k = choose|k: int|
                0 <= k <= a.len() && k < b.len() && #[trigger] a.take(k) == b.take(k) && (k
                    == a.len() || a[k] < b[k]);
            if k > 0 {
                assert(a.take(k)[0] == b.take(k)[0]);
            }
        }
    }
}

/// The digits of a number are digits, write the number, and begin with a zero only
/// where it is zero.
pub proof fn law_digits_write_the_number(n: nat)
    ensures
        digits(n).len() > 0,
        forall|i: int| 0 <= i < digits(n).len() ==> is_digit(#[trigger] digits(n)[i]),
        digits_value(digits(n)) == n,
        n > 0 ==> digits(n)[0] != '0',
        n == 0 ==> digits(n) == seq!['0'],
    decreases n,
{
    if n < 10 {
        let s = digits(n);
        assert(s.drop_last() =~= Seq::<char>::empty());
        assert(digits_value(s.drop_last()) == 0);
        assert(s.last() as u32 == 48 + n);
    } else {
        law_digits_write_the_number(n / 10);
        let s = digits(n);
        assert(s.drop_last() =~= digits(n / 10));
        assert(s.last() == digit(n % 10));
        assert(s.last() as u32 == 48 + n % 10);
        assert forall|i: int| 0 <= i < s.len() implies is_digit(#[trigger] s[i]) by {
            if i < s.len() - 1 {
                assert(s[i] == digits(n / 10)[i]);
            }
        }
        assert(s[0] == digits(n / 10)[0]);
    }
}

/// A number that is written in digits, with or without a plus sign, is read back,
/// where it is not above the bound, and is refused otherwise.
pub proof fn law_written_numbers_are_read(n: nat, bound: nat)
    ensures
        n <= bound ==> whole_number(digits(n), bound) == Some(n),
        n <= bound ==> whole_number(seq!['+'] + digits(n), bound) == Some(n),
        n > bound ==> whole_number(digits(n), bound) is None,
{
    law_digits_write_the_number(n);
    let s = digits(n);
    assert(is_digit(s[0]));
    assert(unsigned_part(s) == s);
    assert((seq!['+'] + s).drop_first() =~= s);
}

/// A text that reads as a number is made of digits, behind a plus sign at most; an
/// empty text reads as none.
pub proof fn law_only_digits_are_read(s: Seq<char>, bound: nat)
    ensures
        whole_number(s, bound) is Some ==> {
            let from: int = if s[0] == '+' {
                1
            } else {
                0
            };
            &&& s.len() > from
            &&& forall|i: int| from <= i < s.len() ==> '0' <= #[trigger] s[i] <= '9'
            &&& whole_number(s, bound)->0 <= bound
        },
        s.len() == 0 ==> whole_number(s, bound) is None,
{
    if whole_number(s, bound) is Some {
        let from: int = if s[0] == '+' {
            1
        } else {
            0
        };
        let d = unsigned_part(s);
        assert forall|i: int| from <= i < s.len() implies '0' <= #[trigger] s[i] <= '9' by {
            assert(d[i - from] == s[i]);
            assert(is_digit(d[i - from]));
        }
    }
}

/// A shortened text that fits is the text; otherwise it is its beginning with dots
/// behind it, and no longer than asked for, unless that is shorter than the dots.
pub proof fn law_shortened_text(s: Seq<char>, max_len: nat)
    ensures
        s.len() <= max_len ==> shortened(s, max_len) == s,
        s.len() > max_len && max_len >= 3 ==> {
            let r = shortened(s, max_len);
            &&& r.len() == max_len
            &&& r.take(max_len - 3) == s.take(max_len - 3)
            &&& r[max_len - 3] == '.' && r[max_len - 2] == '.' && r[max_len - 1] == '.'
        },
        s.len() > max_len && max_len < 3 ==> shortened(s, max_len) == seq!['.', '.', '.'],
{
    reveal_strlit("...");
    if s.len() > max_len {
        let r = shortened(s, max_len);
        if max_len >= 3 {
            assert(r.take(max_len - 3) =~= s.take(max_len - 3));
        } else {
            assert(r =~= seq!['.', '.', '.']);
        }
    }
}

/// Doubling quotes goes character by character: a quote becomes two, any other
/// character stays, and the parts of a text can be done by themselves.
pub proof fn law_quotes_are_doubled(a: Seq<char>, b: Seq<char>, c: char)
    ensures
        quotes_doubled(seq!['"']) == seq!['"', '"'],
        c != '"' ==> quotes_doubled(seq![c]) == seq![c],
        quotes_doubled(Seq::empty()) == Seq::<char>::empty(),
        quotes_doubled(a + b) == quotes_doubled(a) + quotes_doubled(b),
    decreases b.len(),
{
    assert(seq!['"'].drop_last() =~= Seq::<char>::empty());
    assert(quotes_doubled(seq!['"'].drop_last()) == Seq::<char>::empty());
    assert(quotes_doubled(seq!['"']) =~= seq!['"', '"']);
    assert(seq![c].drop_last() =~= Seq::<char>::empty());
    assert(quotes_doubled(seq![c].drop_last()) == Seq::<char>::empty());
    if c != '"' {
        assert(quotes_doubled(seq![c]) =~= seq![c]);
    }
    if b.len() == 0 {
        assert(a + b =~= a);
        assert(quotes_doubled(a) + quotes_doubled(b) =~= quotes_doubled(a));
    } else {
        law_quotes_are_doubled(a, b.drop_last(), c);
        assert((a + b).drop_last() =~= a + b.drop_last());
        assert((a + b).last() == b.last());
        assert(quotes_doubled(a + b) =~= quotes_doubled(a) + quotes_doubled(b));
    }
}

/// Joined texts are the texts in their order with the separator between each two:
/// joining two lists that are not empty is joining what they come to.
pub proof fn law_joined_texts(a: Seq<Seq<char>>, b: Seq<Seq<char>>, separator: Seq<char>)
    ensures
        joined(Seq::empty(), separator) == Seq::<char>::empty(),
        a.len() == 1 ==> joined(a, separator) == a[0],
        a.len() > 0 && b.len() > 0 ==> joined(a + b, separator) == joined(a, separator) + separator
            + joined(b, separator),
    decreases b.len(),
{
    if a.len() > 0 && b.len() > 0 {
        assert((a + b).last() == b.last());
        assert((a + b).drop_last() =~= a + b.drop_last());
        if b.len() == 1 {
            assert(a + b.drop_last() =~= a);
        } else {
            law_joined_texts(a, b.drop_last(), separator);
            assert(joined(a + b, separator) =~= joined(a, separator) + separator + joined(
                b,
                separator,
            ));
        }
    }
}

/// White space is these characters and no others: those from the tab to the
/// carriage return, the spaces of ASCII and of Latin-1, the next line, and the
/// spaces and separators of the other blocks.
pub proof fn law_white_space(c: char)
    ensures
        is_space(c) <==> (seq![
            0x9u32,
            0xA,
            0xB,
            0xC,
            0xD,
            0x20,
            0x85,
            0xA0,
            0x1680,
            0x2000,
            0x2001,
            0x2002,
            0x2003,
            0x2004,
            0x2005,
            0x2006,
            0x2007,
            0x2008,
            0x2009,
            0x200A,
            0x2028,
            0x2029,
            0x202F,
            0x205F,
            0x3000,
        ]).contains(c as u32),
{
    let list = seq![
        0x9u32,
        0xA,
        0xB,
        0xC,
        0xD,
        0x20,
        0x85,
        0xA0,
        0x1680,
        0x2000,
        0x2001,
        0x2002,
        0x2003,
        0x2004,
        0x2005,
        0x2006,
        0x2007,
        0x2008,
        0x2009,
        0x200A,
        0x2028,
        0x2029,
        0x202F,
        0x205F,
        0x3000,
    ];
    let n = c as u32;
    if is_space(c) {
        let i: int = if n <= 0xD {
            n - 9
        } else if n == 0x20 {
            5
        } else if n == 0x85 {
            6
        } else if n == 0xA0 {
            7
        } else if n == 0x1680 {
            8
        } else if n <= 0x200A {
            9 + (n - 0x2000)
        } else if n == 0x2028 {
            20
        } else if n == 0x2029 {
            21
        } else if n == 0x202F {
            22
        } else if n == 0x205F {
            23
        } else {
            24
        };
        assert(list[i] == n);
    }
}

} // verus!
