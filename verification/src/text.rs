//! Text helpers: decimal numbers, searching, joining and UTF-16 decoding.

use num_format::{Locale, ToFormattedString};
use vstd::prelude::*;

verus! {

/// `String::push` of the standard library: the character is appended to the end.
pub assume_specification[ String::push ](s: &mut String, c: char)
    ensures
        final(s)@ == old(s)@.push(c),
;

/// `char::from_u32` of the standard library: a character exactly for the
/// numbers up to 0x10FFFF that are not surrogate code points.
pub assume_specification[ char::from_u32 ](i: u32) -> (c: Option<char>)
    ensures
        c is Some <==> (i < 0xd800 || 0xe000 <= i <= 0x10ffff),
        c matches Some(ch) ==> ch == i as char,
;

/// What lowercasing a text gives (the full Unicode mapping).
pub uninterp spec fn lowercase(text: Seq<char>) -> Seq<char>;

/// `str::to_lowercase` of the standard library. Its result is a function of the
/// text alone; which character maps to which is left to [`lowercase`].
#[verifier::external_body]
pub(crate) fn to_lowercase(text: &str) -> (r: String)
    ensures
        r@ == lowercase(text@),
{
    text.to_lowercase()
}

/// A text between double quotes with the escapes of the debug format.
pub uninterp spec fn quoted(text: Seq<char>) -> Seq<char>;

/// Formatting a `str` with `{:?}`, as the standard library does it. The result
/// is a function of the text alone; which characters are escaped is left to
/// [`quoted`].
#[verifier::external_body]
pub(crate) fn quote(text: &str) -> (r: String)
    ensures
        r@ == quoted(text@),
{
    format!("{:?}", text)
}

/// The character of one decimal digit.
pub open spec fn digit_char(d: nat) -> char
    recommends
        d < 10,
{
    ((48 + d) as u8) as char
}

/// A number in decimal notation, without leading zeros.
pub open spec fn decimal(n: nat) -> Seq<char>
    decreases n,
{
    if n < 10 {
        seq![digit_char(n)]
    } else {
        decimal(n / 10).push(digit_char(n % 10))
    }
}

/// A number in decimal notation with a comma before every group of three
/// digits, counted from the right: 1,234,567.
pub open spec fn grouped(n: nat) -> Seq<char>
    decreases n,
{
    if n < 1000 {
        decimal(n)
    } else {
        grouped(n / 1000) + seq![
            ',',
            digit_char(n % 1000 / 100),
            digit_char(n % 100 / 10),
            digit_char(n % 10),
        ]
    }
}

/// `num_format::ToFormattedString::to_formatted_string` with `Locale::en`,
/// whose separator is a comma and whose grouping puts one before every three
/// digits from the right.
#[verifier::external_body]
pub(crate) fn format_count(n: u64) -> (r: String)
    ensures
        r@ == grouped(n as nat),
{
    n.to_formatted_string(&Locale::en)
}

/// Writes a number in decimal notation.
pub fn decimal_text(n: u64) -> (r: String)
    ensures
        r@ == decimal(n as nat),
    decreases n,
{
    let mut out: String = if n < 10 {
        String::new()
    } else {
        decimal_text(n / 10)
    };
    let digit: u8 = 48 + (n % 10) as u8;
    out.push(digit as char);
    out
}

/// Appends `piece` to `out`.
pub(crate) fn put(out: &mut String, piece: &str)
    ensures
        final(out)@ == old(out)@ + piece@,
{
    out.append(piece);
}

/// Whether two texts hold the same characters.
pub(crate) fn same_text(a: &str, b: &str) -> (r: bool)
    ensures
        r == (a@ == b@),
{
    a.to_owned() == b.to_owned()
}

/// The characters of a text, one by one.
pub(crate) fn characters(text: &str) -> (r: Vec<char>)
    ensures
        r@ == text@,
{
    let mut out: Vec<char> = Vec::new();
    for c in it: text.chars()
        invariant
            out@ =~= it.seq().take(it.index()),
            it.seq() == text@,
    {
        out.push(c);
    }
    out
}

/// The white-space characters of Unicode.
pub open spec fn is_white_space(c: char) -> bool {
    let n = c as u32;
    ||| 0x9 <= n <= 0xd
    ||| n == 0x20
    ||| n == 0x85
    ||| n == 0xa0
    ||| n == 0x1680
    ||| 0x2000 <= n <= 0x200a
    ||| n == 0x2028
    ||| n == 0x2029
    ||| n == 0x202f
    ||| n == 0x205f
    ||| n == 0x3000
}

/// True of a text in which nothing but white space stands, the empty one too.
pub open spec fn blank(text: Seq<char>) -> bool {
    forall|i: int| 0 <= i < text.len() ==> is_white_space(#[trigger] text[i])
}

/// Whether nothing is left of a text once white space is trimmed off its ends.
pub fn is_blank(text: &str) -> (r: bool)
    ensures
        r == blank(text@),
{
    let chars: Vec<char> = characters(text);
    for i in 0..chars.len()
        invariant
            chars@ == text@,
            forall|j: int| 0 <= j < i ==> is_white_space(#[trigger] text@[j]),
    {
        let n: u32 = chars[i] as u32;
        let white: bool = (0x9 <= n && n <= 0xd) || n == 0x20 || n == 0x85 || n == 0xa0 || n == 0x1680
            || (0x2000 <= n && n <= 0x200a) || n == 0x2028 || n == 0x2029 || n == 0x202f || n == 0x205f
            || n == 0x3000;
        if !white {
            assert(!is_white_space(text@[i as int]));
            return false;
        }
    }
    true
}

/// True when `needle` stands in `hay` at position `i`.
pub open spec fn stands_at(hay: Seq<char>, needle: Seq<char>, i: int) -> bool {
    &&& 0 <= i
    &&& i + needle.len() <= hay.len()
    &&& hay.subrange(i, i + needle.len()) == needle
}

/// True when `needle` stands somewhere in `hay`.
pub open spec fn occurs(hay: Seq<char>, needle: Seq<char>) -> bool {
    exists|i: int| stands_at(hay, needle, i)
}

/// Whether `needle` stands in `hay` at position `at`.
fn found_at(hay: &Vec<char>, needle: &Vec<char>, at: usize) -> (r: bool)
    requires
        at + needle@.len() <= hay@.len(),
    ensures
        r == stands_at(hay@, needle@, at as int),
{
    for j in 0..needle.len()
        invariant
            at + needle.len() <= hay.len(),
            forall|k: int| 0 <= k < j ==> hay@[at + k] == #[trigger] needle@[k],
    {
        if hay[at + j] != needle[j] {
            assert(hay@.subrange(at as int, at + needle@.len())[j as int] != needle@[j as int]);
            return false;
        }
    }
    assert(hay@.subrange(at as int, at + needle@.len()) =~= needle@);
    true
}

/// Whether `needle` stands somewhere in `hay`.
pub fn contains_text(hay: &str, needle: &str) -> (r: bool)
    ensures
        r == occurs(hay@, needle@),
{
    let h: Vec<char> = characters(hay);
    let n: Vec<char> = characters(needle);
    if n.len() > h.len() {
        return false;
    }
    let last: usize = h.len() - n.len();
    let mut at: usize = 0;
    while at <= last
        invariant
            h@ == hay@,
            n@ == needle@,
            n@.len() <= h@.len(),
            last == h@.len() - n@.len(),
            at <= last + 1,
            forall|i: int| 0 <= i < at ==> !stands_at(hay@, needle@, i),
        decreases last + 1 - at,
    {
        if found_at(&h, &n, at) {
            return true;
        }
        if at == last {
            assert forall|i: int| !stands_at(hay@, needle@, i) by {}
            return false;
        }
        at += 1;
    }
    false
}

/// The lower-case form of an ASCII letter; any other character is kept.
pub open spec fn ascii_lower(c: char) -> char {
    if 'A' <= c && c <= 'Z' {
        ((c as u8 + 32) as u8) as char
    } else {
        c
    }
}

/// True when two texts differ at most in the case of ASCII letters.
pub open spec fn same_but_ascii_case(a: Seq<char>, b: Seq<char>) -> bool {
    &&& a.len() == b.len()
    &&& forall|i: int| 0 <= i < a.len() ==> ascii_lower(#[trigger] a[i]) == ascii_lower(b[i])
}

fn to_ascii_lower(c: char) -> (r: char)
    ensures
        r == ascii_lower(c),
{
    if 'A' <= c && c <= 'Z' {
        (c as u8 + 32) as char
    } else {
        c
    }
}

/// Whether two texts are equal up to the case of ASCII letters.
pub fn eq_ignore_ascii_case(a: &str, b: &str) -> (r: bool)
    ensures
        r == same_but_ascii_case(a@, b@),
{
    let x: Vec<char> = characters(a);
    let y: Vec<char> = characters(b);
    if x.len() != y.len() {
        return false;
    }
    for i in 0..x.len()
        invariant
            x@ == a@,
            y@ == b@,
            x@.len() == y@.len(),
            forall|j: int| 0 <= j < i ==> ascii_lower(#[trigger] a@[j]) == ascii_lower(b@[j]),
    {
        if to_ascii_lower(x[i]) != to_ascii_lower(y[i]) {
            assert(ascii_lower(a@[i as int]) != ascii_lower(b@[i as int]));
            return false;
        }
    }
    true
}

/// The texts one after the other, with `separator` between neighbours.
pub open spec fn joined(parts: Seq<Seq<char>>, separator: Seq<char>) -> Seq<char>
    decreases parts.len(),
{
    if parts.len() == 0 {
        seq![]
    } else if parts.len() == 1 {
        parts[0]
    } else {
        joined(parts.drop_last(), separator) + separator + parts.last()
    }
}

/// The characters of each of some strings.
pub open spec fn texts(parts: Seq<String>) -> Seq<Seq<char>> {
    parts.map_values(|p: String| p@)
}

/// The characters of an optional text.
pub open spec fn text_view(text: Option<&str>) -> Option<Seq<char>> {
    match text {
        Some(t) => Some(t@),
        None => None,
    }
}

/// The characters of an optional string.
pub open spec fn string_view(text: Option<String>) -> Option<Seq<char>> {
    match text {
        Some(t) => Some(t@),
        None => None,
    }
}

/// Joins strings with `separator` between neighbours.
pub fn join(parts: &Vec<String>, separator: &str) -> (r: String)
    ensures
        r@ == joined(texts(parts@), separator@),
{
    let mut out: String = String::new();
    for i in 0..parts.len()
        invariant
            out@ == joined(texts(parts@).take(i as int), separator@),
    {
        if i > 0 {
            put(&mut out, separator);
        }
        put(&mut out, parts[i].as_str());
        proof {
            let next = texts(parts@).take(i + 1);
            assert(next.drop_last() =~= texts(parts@).take(i as int));
            assert(next.last() == parts@[i as int]@);
            if i == 0 {
                assert(out@ =~= parts@[0]@);
            }
        }
    }
    assert(texts(parts@).take(parts@.len() as int) =~= texts(parts@));
    out
}

pub open spec fn is_high_surrogate(unit: u16) -> bool {
    0xd800 <= unit <= 0xdbff
}

pub open spec fn is_low_surrogate(unit: u16) -> bool {
    0xdc00 <= unit <= 0xdfff
}

/// UTF-16 text, with U+FFFD in place of every surrogate that has no partner.
pub open spec fn utf16_lossy(units: Seq<u16>) -> Seq<char>
    decreases units.len(),
{
    if units.len() == 0 {
        seq![]
    } else if is_high_surrogate(units[0]) && units.len() > 1 && is_low_surrogate(units[1]) {
        seq![(0x10000 + (units[0] - 0xd800) * 0x400 + (units[1] - 0xdc00)) as u32 as char]
            + utf16_lossy(units.skip(2))
    } else if is_high_surrogate(units[0]) || is_low_surrogate(units[0]) {
        seq!['\u{fffd}'] + utf16_lossy(units.skip(1))
    } else {
        seq![units[0] as char] + utf16_lossy(units.skip(1))
    }
}

/// Decodes UTF-16, putting U+FFFD in place of unpaired surrogates.
pub fn decode_utf16_lossy(units: &Vec<u16>) -> (r: String)
    ensures
        r@ == utf16_lossy(units@),
{
    let mut out: String = String::new();
    let mut i: usize = 0;
    assert(units@.skip(0) =~= units@);
    while i < units.len()
        invariant
            i <= units@.len(),
            out@ + utf16_lossy(units@.skip(i as int)) == utf16_lossy(units@),
        decreases units@.len() - i,
    {
        let ghost rest = units@.skip(i as int);
        let ghost before = out@;
        let u: u32 = units[i] as u32;
        let pair: bool = 0xd800 <= u && u <= 0xdbff && units.len() - i > 1 && 0xdc00 <= units[i + 1]
            && units[i + 1] <= 0xdfff;
        if pair {
            let low: u32 = units[i + 1] as u32;
            let code: u32 = 0x10000 + (u - 0xd800) * 0x400 + (low - 0xdc00);
            if let Some(c) = char::from_u32(code) {
                out.push(c);
            }
            proof {
                assert(rest.skip(2) =~= units@.skip(i + 2));
                assert(out@ + utf16_lossy(units@.skip(i + 2)) =~= before + utf16_lossy(rest));
            }
            i += 2;
        } else {
            match char::from_u32(u) {
                Some(c) => out.push(c),
                None => out.push('\u{fffd}'),
            }
            proof {
                assert(rest.skip(1) =~= units@.skip(i + 1));
                assert(out@ + utf16_lossy(units@.skip(i + 1)) =~= before + utf16_lossy(rest));
            }
            i += 1;
        }
    }
    assert(utf16_lossy(units@.skip(i as int)) =~= seq![]);
    assert(out@ =~= utf16_lossy(units@));
    out
}

/// The UTF-16 units of a character: one, or two surrogates.
pub open spec fn char_units(c: char) -> Seq<u16> {
    let code = c as u32;
    if code < 0x10000 {
        seq![code as u16]
    } else {
        seq![
            (0xd800 + (code - 0x10000) / 0x400) as u16,
            (0xdc00 + (code - 0x10000) % 0x400) as u16,
        ]
    }
}

/// The UTF-16 units of a text.
pub open spec fn utf16_units(text: Seq<char>) -> Seq<u16>
    decreases text.len(),
{
    if text.len() == 0 {
        seq![]
    } else {
        char_units(text[0]) + utf16_units(text.skip(1))
    }
}

proof fn lemma_char_is_read_back(c: char, rest: Seq<u16>)
    ensures
        utf16_lossy(char_units(c) + rest) == seq![c] + utf16_lossy(rest),
{
    let units = char_units(c) + rest;
    let code = c as u32;
    if code < 0x10000 {
        assert(units.skip(1) =~= rest);
        assert(units[0] == code);
    } else {
        assert(units.skip(2) =~= rest);
        assert(units[0] == 0xd800 + (code - 0x10000) / 0x400);
        assert(units[1] == 0xdc00 + (code - 0x10000) % 0x400);
        assert(0x10000 + (units[0] - 0xd800) * 0x400 + (units[1] - 0xdc00) == code);
    }
}

/// A text is read back from its UTF-16 units.
pub proof fn utf16_is_read_back(text: Seq<char>)
    ensures
        utf16_lossy(utf16_units(text)) == text,
    decreases text.len(),
{
    if text.len() > 0 {
        utf16_is_read_back(text.skip(1));
        lemma_char_is_read_back(text[0], utf16_units(text.skip(1)));
        assert(seq![text[0]] + text.skip(1) =~= text);
    }
}

/// A text without its commas.
pub open spec fn without_commas(text: Seq<char>) -> Seq<char> {
    text.filter(|c: char| c != ',')
}

/// The number that a text of decimal digits denotes.
pub open spec fn digits_value(text: Seq<char>) -> nat
    decreases text.len(),
{
    if text.len() == 0 {
        0
    } else {
        digits_value(text.drop_last()) * 10 + (text.last() as u32 - 48) as nat
    }
}

/// True of a text of decimal digits.
pub open spec fn all_digits(text: Seq<char>) -> bool {
    forall|i: int| 0 <= i < text.len() ==> '0' <= #[trigger] text[i] && text[i] <= '9'
}

/// The decimal notation of a number consists of digits and denotes that number.
pub proof fn decimal_denotes_number(n: nat)
    ensures
        decimal(n).len() > 0,
        all_digits(decimal(n)),
        digits_value(decimal(n)) == n,
    decreases n,
{
    if n < 10 {
        assert(decimal(n).drop_last() =~= seq![]);
        assert(digits_value(seq![]) == 0);
    } else {
        decimal_denotes_number(n / 10);
        assert(decimal(n).drop_last() =~= decimal(n / 10));
    }
}

/// Grouping only inserts commas: without them, the plain decimal notation is left.
pub proof fn grouping_only_inserts_commas(n: nat)
    ensures
        without_commas(grouped(n)) == decimal(n),
    decreases n,
{
    let keep = |c: char| c != ',';
    if n < 1000 {
        decimal_denotes_number(n);
        assert forall|i: int| 0 <= i < decimal(n).len() implies keep(#[trigger] decimal(n)[i]) by {}
        lemma_filter_keeps_all(decimal(n), keep);
    } else {
        grouping_only_inserts_commas(n / 1000);
        let a = digit_char(n % 1000 / 100);
        let b = digit_char(n % 100 / 10);
        let c = digit_char(n % 10);
        let head = grouped(n / 1000);
        assert(grouped(n) =~= head.push(',').push(a).push(b).push(c));
        lemma_filter_push(head, ',', keep);
        lemma_filter_push(head.push(','), a, keep);
        lemma_filter_push(head.push(',').push(a), b, keep);
        lemma_filter_push(head.push(',').push(a).push(b), c, keep);
        let tens = n / 10;
        let hundreds = n / 100;
        assert(tens / 10 == hundreds && hundreds / 10 == n / 1000);
        assert(hundreds % 10 == n % 1000 / 100 && tens % 10 == n % 100 / 10);
        assert(decimal(n) == decimal(tens).push(c));
        assert(decimal(tens) == decimal(hundreds).push(b));
        assert(decimal(hundreds) == decimal(n / 1000).push(a));
    }
}

/// The number that a text denotes once its commas are dropped: decimal digits,
/// with or without a plus sign before them. `None` for any other text, and for
/// numbers beyond 64 bits.
pub open spec fn count_value(text: Seq<char>) -> Option<u64> {
    let plain = without_commas(text);
    let digits = if plain.len() > 0 && plain[0] == '+' {
        plain.skip(1)
    } else {
        plain
    };
    if digits.len() > 0 && all_digits(digits) && digits_value(digits) <= u64::MAX {
        Some(digits_value(digits) as u64)
    } else {
        None
    }
}

/// Drops the commas of a text.
fn drop_commas(text: &str) -> (r: Vec<char>)
    ensures
        r@ == without_commas(text@),
{
    let all: Vec<char> = characters(text);
    let mut out: Vec<char> = Vec::new();
    let ghost keep = |c: char| c != ',';
    proof {
        reveal(Seq::filter);
        assert(all@.take(0).filter(keep) =~= seq![]);
    }
    for i in 0..all.len()
        invariant
            keep == (|c: char| c != ','),
            out@ == all@.take(i as int).filter(keep),
    {
        let c: char = all[i];
        proof {
            assert(all@.take(i + 1) =~= all@.take(i as int).push(c));
            lemma_filter_push(all@.take(i as int), c, keep);
        }
        if c != ',' {
            out.push(c);
        }
    }
    assert(all@.take(all@.len() as int) =~= all@);
    out
}

/// A longer text of digits denotes no smaller number.
proof fn lemma_digits_grow(text: Seq<char>, n: int)
    requires
        0 <= n <= text.len(),
    ensures
        digits_value(text.take(n)) <= digits_value(text),
    decreases text.len() - n,
{
    if n < text.len() {
        lemma_digits_grow(text, n + 1);
        assert(text.take(n + 1).drop_last() =~= text.take(n));
    } else {
        assert(text.take(n) =~= text);
    }
}

/// Reads a number with commas, as [`count_value`] says.
pub fn parse_count(text: &str) -> (r: Option<u64>)
    ensures
        r == count_value(text@),
{
    let plain: Vec<char> = drop_commas(text);
    let start: usize = if plain.len() > 0 && plain[0] == '+' {
        1
    } else {
        0
    };
    let ghost digits = if plain@.len() > 0 && plain@[0] == '+' {
        plain@.skip(1)
    } else {
        plain@
    };
    assert(digits =~= plain@.skip(start as int));
    if plain.len() == start {
        return None;
    }
    let mut value: u64 = 0;
    assert(digits.take(0) =~= seq![]);
    for i in start..plain.len()
        invariant
            plain@ == without_commas(text@),
            start <= i,
            start <= plain@.len(),
            digits == plain@.skip(start as int),
            count_value(text@) == if digits.len() > 0 && all_digits(digits) && digits_value(digits)
                <= u64::MAX {
                Some(digits_value(digits) as u64)
            } else {
                None
            },
            value == digits_value(digits.take(i - start)),
            all_digits(digits.take(i - start)),
    {
        let c: char = plain[i];
        let ghost known = digits.take(i - start);
        let ghost longer = digits.take(i - start + 1);
        proof {
            assert(digits[i - start] == c);
            assert(longer.drop_last() =~= known);
            assert(longer.last() == c);
            lemma_digits_grow(digits, i - start + 1);
        }
        if c < '0' || '9' < c {
            return None;
        }
        let digit: u64 = c as u64 - 48;
        if value > (u64::MAX - digit) / 10 {
            return None;
        }
        value = value * 10 + digit;
        assert forall|k: int| 0 <= k < longer.len() implies '0' <= #[trigger] longer[k] && longer[k]
            <= '9' by {
            if k < known.len() {
                assert(longer[k] == known[k]);
            }
        }
    }
    assert(digits.take(plain@.len() - start) =~= digits);
    Some(value)
}

/// A number written with commas is read back.
pub proof fn grouped_count_is_read_back(n: u64)
    ensures
        count_value(grouped(n as nat)) == Some(n),
{
    grouping_only_inserts_commas(n as nat);
    decimal_denotes_number(n as nat);
    assert('0' <= decimal(n as nat)[0]);
}

proof fn lemma_filter_push(s: Seq<char>, c: char, keep: spec_fn(char) -> bool)
    ensures
        s.push(c).filter(keep) == if keep(c) {
            s.filter(keep).push(c)
        } else {
            s.filter(keep)
        },
{
    reveal(Seq::filter);
    assert(s.push(c).drop_last() =~= s);
}

proof fn lemma_filter_keeps_all(s: Seq<char>, keep: spec_fn(char) -> bool)
    requires
        forall|i: int| 0 <= i < s.len() ==> keep(#[trigger] s[i]),
    ensures
        s.filter(keep) == s,
    decreases s.len(),
{
    reveal(Seq::filter);
    if s.len() > 0 {
        lemma_filter_keeps_all(s.drop_last(), keep);
        assert(s.drop_last().push(s.last()) =~= s);
    }
}

/// A text occurs in another exactly when its characters stand there one after the
/// other, wherever that is.
pub proof fn occurring_means_standing_somewhere(hay: Seq<char>, needle: Seq<char>)
    ensures
        occurs(hay, needle) <==> exists|before: Seq<char>, after: Seq<char>|
            hay == #[trigger] (before + needle + after),
{
    if occurs(hay, needle) {
        let i = choose|i: int| stands_at(hay, needle, i);
        let before = hay.take(i);
        let after = hay.skip(i + needle.len());
        assert(hay =~= before + needle + after);
    }
    if exists|before: Seq<char>, after: Seq<char>| hay == #[trigger] (before + needle + after) {
        let (before, after) = choose|before: Seq<char>, after: Seq<char>|
            hay == #[trigger] (before + needle + after);
        let i = before.len() as int;
        assert(hay.subrange(i, i + needle.len()) =~= needle);
        assert(stands_at(hay, needle, i));
    }
}

/// Decimal notation has no needless zeros in front.
pub proof fn decimal_has_no_leading_zero(n: nat)
    ensures
        n > 0 ==> decimal(n)[0] != '0',
        n == 0 ==> decimal(n) == seq!['0'],
    decreases n,
{
    if n >= 10 {
        decimal_has_no_leading_zero(n / 10);
        decimal_denotes_number(n / 10);
    }
}

/// Different numbers have different decimal notations.
pub proof fn decimals_tell_numbers_apart(m: nat, n: nat)
    ensures
        decimal(m) == decimal(n) <==> m == n,
{
    decimal_denotes_number(m);
    decimal_denotes_number(n);
}

/// A grouped number has a comma before every three digits from the right, and nowhere
/// else.
pub proof fn commas_stand_every_three_digits(n: nat, k: int)
    requires
        0 <= k < grouped(n).len(),
    ensures
        grouped(n)[grouped(n).len() - 1 - k] == ',' <==> k % 4 == 3,
        '0' <= grouped(n)[0] && grouped(n)[0] <= '9',
        n > 0 ==> grouped(n)[0] != '0',
    decreases n,
{
    if n < 1000 {
        decimal_denotes_number(n);
        decimal_has_no_leading_zero(n);
        reveal_with_fuel(decimal, 4);
        assert(decimal(n).len() <= 3);
    } else {
        let head = grouped(n / 1000);
        if k >= 4 {
            commas_stand_every_three_digits(n / 1000, k - 4);
        } else {
            grouped_is_not_empty(n / 1000);
            commas_stand_every_three_digits(n / 1000, 0);
        }
    }
}

proof fn grouped_is_not_empty(n: nat)
    ensures
        grouped(n).len() > 0,
{
    decimal_denotes_number(n);
}

/// Parts are joined in order, with the separator between two of them and nowhere else.
pub proof fn separators_stand_between_parts(
    parts: Seq<Seq<char>>,
    part: Seq<char>,
    separator: Seq<char>,
)
    ensures
        joined(seq![], separator) == Seq::<char>::empty(),
        joined(seq![part], separator) == part,
        parts.len() > 0 ==> joined(parts.push(part), separator) == joined(parts, separator)
            + separator + part,
{
    assert(parts.push(part).drop_last() =~= parts);
}

/// Spaces, tabs and line breaks are white space; printable ASCII characters are not. A
/// text is blank exactly when all its parts are.
pub proof fn blank_texts_are_white_space(a: Seq<char>, b: Seq<char>, c: char)
    ensures
        c == ' ' || c == '\t' || c == '\n' || c == '\r' ==> is_white_space(c),
        '!' <= c && c <= '~' ==> !is_white_space(c),
        blank(seq![]),
        blank(seq![c]) <==> is_white_space(c),
        blank(a + b) <==> blank(a) && blank(b),
{
    assert(seq![c][0] == c);
    if blank(a + b) {
        assert forall|i: int| 0 <= i < a.len() implies is_white_space(#[trigger] a[i]) by {
            assert((a + b)[i] == a[i]);
        }
        assert forall|i: int| 0 <= i < b.len() implies is_white_space(#[trigger] b[i]) by {
            assert((a + b)[a.len() + i] == b[i]);
        }
    }
}

/// Two texts are the same but for ASCII case exactly when they agree character by
/// character, where a letter from A to Z agrees with its small form.
pub proof fn ascii_case_is_all_that_differs(a: Seq<char>, b: Seq<char>)
    ensures
        same_but_ascii_case(a, b) <==> a.len() == b.len() && forall|i: int|
            #![trigger a[i]]
            0 <= i < a.len() ==> {
                ||| a[i] == b[i]
                ||| 'A' <= a[i] && a[i] <= 'Z' && b[i] as u32 == a[i] as u32 + 32
                ||| 'A' <= b[i] && b[i] <= 'Z' && a[i] as u32 == b[i] as u32 + 32
            },
{
    if a.len() == b.len() {
        assert forall|i: int| 0 <= i < a.len() implies (ascii_lower(#[trigger] a[i]) == ascii_lower(b[i])
            <==> {
            ||| a[i] == b[i]
            ||| 'A' <= a[i] && a[i] <= 'Z' && b[i] as u32 == a[i] as u32 + 32
            ||| 'A' <= b[i] && b[i] <= 'Z' && a[i] as u32 == b[i] as u32 + 32
        }) by {
            lemma_ascii_case(a[i], b[i]);
        }
    }
}

proof fn lemma_ascii_case(a: char, b: char)
    ensures
        ascii_lower(a) == ascii_lower(b) <==> {
            ||| a == b
            ||| 'A' <= a && a <= 'Z' && b as u32 == a as u32 + 32
            ||| 'A' <= b && b <= 'Z' && a as u32 == b as u32 + 32
        },
{
}

/// A surrogate that is not half of a pair is read as the replacement character, and
/// reading goes on behind it.
pub proof fn lone_surrogates_are_replaced(unit: u16, rest: Seq<u16>)
    ensures
        0xdc00 <= unit <= 0xdfff || (0xd800 <= unit <= 0xdbff && !(rest.len() > 0 && 0xdc00 <= rest[0]
            <= 0xdfff)) ==> utf16_lossy(seq![unit] + rest) == seq!['\u{fffd}'] + utf16_lossy(rest),
{
    let units = seq![unit] + rest;
    assert(units.skip(1) =~= rest);
    if rest.len() > 0 {
        assert(units[1] == rest[0]);
    }
}

proof fn lemma_digits_without_commas(digits: Seq<char>)
    requires
        all_digits(digits),
    ensures
        without_commas(digits) == digits,
        without_commas(seq!['+'] + digits) == seq!['+'] + digits,
{
    let signed = seq!['+'] + digits;
    let keep = |c: char| c != ',';
    assert forall|i: int| 0 <= i < digits.len() implies keep(#[trigger] digits[i]) by {}
    assert forall|i: int| 0 <= i < signed.len() implies keep(#[trigger] signed[i]) by {
        if i > 0 {
            assert(signed[i] == digits[i - 1]);
        }
    }
    lemma_filter_keeps_all(digits, keep);
    lemma_filter_keeps_all(signed, keep);
}

/// Plain digits denote their number, with or without a plus sign before them.
pub proof fn plain_counts_are_read_back(n: u64)
    ensures
        count_value(decimal(n as nat)) == Some(n),
        count_value(seq!['+'] + decimal(n as nat)) == Some(n),
{
    decimal_denotes_number(n as nat);
    lemma_digits_denote(decimal(n as nat), n);
}

proof fn lemma_digits_denote(digits: Seq<char>, n: u64)
    requires
        digits.len() > 0,
        all_digits(digits),
        digits_value(digits) == n,
    ensures
        count_value(digits) == Some(n),
        count_value(seq!['+'] + digits) == Some(n),
{
    lemma_digits_without_commas(digits);
    assert('0' <= digits[0]);
    assert(digits[0] != '+');
    let signed = seq!['+'] + digits;
    assert(signed[0] == '+');
    assert(signed.skip(1) =~= digits);
}

/// A text with anything but digits, commas and plus signs in it denotes no count.
pub proof fn other_texts_are_no_counts(text: Seq<char>, i: int)
    requires
        0 <= i < text.len(),
        !('0' <= text[i] && text[i] <= '9') && text[i] != ',' && text[i] != '+',
    ensures
        count_value(text) is None,
{
    let keep = |c: char| c != ',';
    let plain = without_commas(text);
    assert(keep(text[i]));
    text.lemma_filter_contains(keep, i);
    let k = choose|k: int| 0 <= k < plain.len() && plain[k] == text[i];
    if plain[0] == '+' {
        assert(plain.skip(1)[k - 1] == plain[k]);
    }
}

/// The characters of white space, one by one.
pub proof fn white_space_characters(c: char)
    ensures
        is_white_space(c) <==> {
            ||| c == '\t' || c == '\n' || c == '\u{b}' || c == '\u{c}' || c == '\r' || c == ' '
            ||| c == '\u{85}' || c == '\u{a0}' || c == '\u{1680}'
            ||| '\u{2000}' <= c && c <= '\u{200a}'
            ||| c == '\u{2028}' || c == '\u{2029}' || c == '\u{202f}' || c == '\u{205f}'
            ||| c == '\u{3000}'
        },
{
}

/// Commas do not count, wherever they stand.
pub proof fn commas_do_not_count(a: Seq<char>, b: Seq<char>)
    ensures
        count_value(a + seq![','] + b) == count_value(a + b),
{
    let keep = |c: char| c != ',';
    Seq::filter_distributes_over_add(a + seq![','], b, keep);
    Seq::filter_distributes_over_add(a, b, keep);
    lemma_filter_push(a, ',', keep);
    assert(a.push(',') =~= a + seq![',']);
    assert(without_commas(a + seq![','] + b) =~= without_commas(a + b));
}

/// Digits denote the number they spell; beyond 64 bits they are no count, and neither is
/// nothing at all, nor a plus sign behind a digit.
pub proof fn digits_are_counts(digits: Seq<char>, rest: Seq<char>)
    requires
        all_digits(digits),
    ensures
        digits.len() > 0 && digits_value(digits) <= u64::MAX ==> count_value(digits) == Some(
            digits_value(digits) as u64,
        ),
        digits.len() > 0 && digits_value(digits) > u64::MAX ==> count_value(digits) is None,
        digits.len() == 0 ==> count_value(digits) is None,
        digits.len() > 0 ==> count_value(digits + seq!['+'] + rest) is None,
{
    let keep = |c: char| c != ',';
    assert forall|i: int| 0 <= i < digits.len() implies keep(#[trigger] digits[i]) by {}
    lemma_filter_keeps_all(digits, keep);
    if digits.len() > 0 {
        assert('0' <= digits[0] && digits[0] <= '9');
        let text = digits + seq!['+'] + rest;
        Seq::filter_distributes_over_add(digits + seq!['+'], rest, keep);
        lemma_filter_push(digits, '+', keep);
        assert(digits.push('+') =~= digits + seq!['+']);
        let plain = without_commas(text);
        assert(plain[digits.len() as int] == '+');
        assert(plain[0] == digits[0]);
    }
}

/// What is seen of texts is every character of them.
pub proof fn views_show_whole_texts(parts: Seq<String>, part: String, slice: &str)
    ensures
        texts(parts).len() == parts.len(),
        forall|i: int| 0 <= i < parts.len() ==> #[trigger] texts(parts)[i] == parts[i]@,
        text_view(Some(slice)) == Some(slice@),
        text_view(None) is None,
        string_view(Some(part)) == Some(part@),
        string_view(None) is None,
{
}

} // verus!
