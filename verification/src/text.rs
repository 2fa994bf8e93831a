//! Character-level text utilities shared by the rendering passes.
//!
//! Every function here is stated over the character sequence of a string, the
//! view that `vstd` gives to `str` and `String`.

use vstd::prelude::*;
use vstd::string::*;

verus! {

/// `String::push` appends exactly one character to the end of the string.
pub assume_specification[ String::push ](s: &mut String, c: char)
    ensures
        final(s)@ == old(s)@.push(c),
;

/// `str::eq`, the `==` of string slices, holds exactly when both hold the
/// same characters.
pub assume_specification[ <str as PartialEq>::eq ](a: &str, b: &str) -> (r: bool)
    ensures
        r == (a@ == b@),
;

/// Whether `a` and `b` hold the same characters.
pub fn same(a: &str, b: &str) -> (r: bool)
    ensures
        r == (a@ == b@),
{
    a.eq(b)
}

/// The characters of `s`, in order.
pub fn to_chars(s: &str) -> (v: Vec<char>)
    ensures
        v@ == s@,
{
    let mut v: Vec<char> = Vec::new();
    let chars = s.chars();
    for c in it: chars
        invariant
            v@ == it.seq().take(it.index()),
            it.seq() == s@,
    {
        v.push(c);
    }
    v
}

/// The string made of the characters `v[start..end]`.
pub fn from_chars(v: &Vec<char>, start: usize, end: usize) -> (s: String)
    requires
        start <= end <= v.len(),
    ensures
        s@ == v@.subrange(start as int, end as int),
{
    let mut s = String::new();
    let mut i: usize = start;
    while i < end
        invariant
            start <= i <= end <= v.len(),
            s@ == v@.subrange(start as int, i as int),
        decreases end - i,
    {
        s.push(v[i]);
        i += 1;
        assert(s@ =~= v@.subrange(start as int, i as int));
    }
    s
}

/// `open`, `inner` and `close` written one after the other.
pub fn wrapped(open: &str, inner: &str, close: &str) -> (r: String)
    ensures
        r@ == open@ + inner@ + close@,
{
    let mut r = open.to_owned();
    r.append(inner);
    r.append(close);
    r
}

/// What one character becomes in HTML text: the five markup characters and
/// the slash become entities, every other character stays.
pub open spec fn escape_char(c: char) -> Seq<char> {
    if c == '&' {
        "&amp;"@
    } else if c == '<' {
        "&lt;"@
    } else if c == '>' {
        "&gt;"@
    } else if c == '"' {
        "&quot;"@
    } else if c == '\'' {
        "&#x27;"@
    } else if c == '/' {
        "&#x2F;"@
    } else {
        seq![c]
    }
}

/// `s` with every character escaped for HTML text.
pub open spec fn escaped(s: Seq<char>) -> Seq<char>
    decreases s.len(),
{
    if s.len() == 0 {
        Seq::empty()
    } else {
        escaped(s.drop_last()) + escape_char(s.last())
    }
}

/// Calls `tera::escape_html`, which walks the characters of its input and
/// writes `&amp;`, `&lt;`, `&gt;`, `&quot;`, `&#x27;` and `&#x2F;` for
/// `&`, `<`, `>`, `"`, `'` and `/`, and every other character unchanged.
#[verifier::external_body]
pub(crate) fn escape_html(s: &str) -> (r: String)
    ensures
        r@ == escaped(s@),
{
    tera::escape_html(s)
}

/// The upper-case form of a character, which may take more than one
/// character.
pub uninterp spec fn uppercase(c: char) -> Seq<char>;

/// Calls `char::to_uppercase`, whose result depends on the character alone,
/// and collects the characters it yields.
#[verifier::external_body]
fn to_uppercase(c: char) -> (r: Vec<char>)
    ensures
        r@ == uppercase(c),
{
    c.to_uppercase().collect()
}

/// `word` with `initial` in place of its first character; an empty word
/// stays empty.
pub open spec fn with_initial(initial: Seq<char>, word: Seq<char>) -> Seq<char> {
    if word.len() == 0 {
        word
    } else {
        initial + word.drop_first()
    }
}

/// Puts `initial` in place of the first character of `word`.
pub fn replace_initial(initial: &Vec<char>, word: &Vec<char>) -> (r: String)
    ensures
        r@ == with_initial(initial@, word@),
{
    if word.len() == 0 {
        return String::new();
    }
    let mut r = from_chars(initial, 0, initial.len());
    let rest = from_chars(word, 1, word.len());
    r.append(rest.as_str());
    assert(initial@.subrange(0, initial@.len() as int) =~= initial@);
    r
}

/// `s` with its first character in upper case.
pub open spec fn capitalized(s: Seq<char>) -> Seq<char> {
    if s.len() == 0 {
        s
    } else {
        with_initial(uppercase(s[0]), s)
    }
}

/// Puts the first character of `s` in upper case and keeps the rest.
pub fn capitalize_first_letter(s: &str) -> (r: String)
    ensures
        r@ == capitalized(s@),
{
    let chars = to_chars(s);
    if chars.len() == 0 {
        return String::new();
    }
    let upper = to_uppercase(chars[0]);
    replace_initial(&upper, &chars)
}

/// The position of the first `c` among `s[from..]`.
pub open spec fn first_char(s: Seq<char>, c: char, from: int) -> Option<int>
    decreases s.len() - from,
{
    if from < 0 || from >= s.len() {
        None
    } else if s[from] == c {
        Some(from)
    } else {
        first_char(s, c, from + 1)
    }
}

/// A position that `first_char` gives lies in the text, at or after the
/// start of the search, and holds the character.
pub proof fn lemma_first_char(s: Seq<char>, c: char, from: int)
    requires
        0 <= from,
    ensures
        first_char(s, c, from) matches Some(i) ==> from <= i < s.len() && s[i] == c,
    decreases s.len() - from,
{
    if from < s.len() && s[from] != c {
        lemma_first_char(s, c, from + 1);
    }
}

/// The position of the first `c` in `s` at or after `from`.
pub fn find_char(s: &Vec<char>, c: char, from: usize) -> (r: Option<usize>)
    ensures
        match r {
            Some(i) => first_char(s@, c, from as int) == Some(i as int) && from <= i < s.len()
                && s[i as int] == c,
            None => first_char(s@, c, from as int) is None,
        },
{
    let mut i: usize = from;
    while i < s.len()
        invariant
            from <= i,
            first_char(s@, c, from as int) == first_char(s@, c, i as int),
        decreases s.len() - i,
    {
        if s[i] == c {
            return Some(i);
        }
        i += 1;
    }
    None
}

/// Whether a character is white space: the characters that Unicode gives
/// the property White_Space.
pub open spec fn white_space(c: char) -> bool {
    let u = c as u32;
    ||| 0x0009 <= u <= 0x000D
    ||| u == 0x0020
    ||| u == 0x0085
    ||| u == 0x00A0
    ||| u == 0x1680
    ||| 0x2000 <= u <= 0x200A
    ||| u == 0x2028
    ||| u == 0x2029
    ||| u == 0x202F
    ||| u == 0x205F
    ||| u == 0x3000
}

/// Calls `char::is_whitespace`, which holds exactly of the characters with
/// the Unicode property White_Space: U+0009 to U+000D, U+0020, U+0085,
/// U+00A0, U+1680, U+2000 to U+200A, U+2028, U+2029, U+202F, U+205F and
/// U+3000.
#[verifier::external_body]
fn is_whitespace(c: char) -> (r: bool)
    ensures
        r == white_space(c),
{
    c.is_whitespace()
}

/// A set of characters that can be trimmed from the ends of a text.
#[derive(Clone, Copy, Debug, PartialEq, Eq)]
pub enum CharClass {
    /// White space.
    Space,
    /// The dollar sign that delimits a formula.
    Dollar,
}

/// Whether `c` belongs to `class`.
pub open spec fn in_class(class: CharClass, c: char) -> bool {
    match class {
        CharClass::Space => white_space(c),
        CharClass::Dollar => c == '$',
    }
}

/// How many characters of `class` the text starts with.
pub open spec fn leading(s: Seq<char>, class: CharClass) -> nat
    decreases s.len(),
{
    if s.len() > 0 && in_class(class, s[0]) {
        1 + leading(s.drop_first(), class)
    } else {
        0
    }
}

/// How many characters of `class` the text ends with.
pub open spec fn trailing(s: Seq<char>, class: CharClass) -> nat
    decreases s.len(),
{
    if s.len() > 0 && in_class(class, s.last()) {
        1 + trailing(s.drop_last(), class)
    } else {
        0
    }
}

/// `s` without the characters of `class` that it starts with.
pub open spec fn trimmed_start(s: Seq<char>, class: CharClass) -> Seq<char> {
    s.skip(leading(s, class) as int)
}

/// `s` without the characters of `class` at either end.
pub open spec fn trimmed(s: Seq<char>, class: CharClass) -> Seq<char> {
    let rest = trimmed_start(s, class);
    rest.take(rest.len() - trailing(rest, class))
}

fn has_class(class: CharClass, c: char) -> (r: bool)
    ensures
        r == in_class(class, c),
{
    match class {
        CharClass::Space => is_whitespace(c),
        CharClass::Dollar => c == '$',
    }
}

/// How many characters of `class` stand at the start of `s[from..]`.
pub fn count_leading(s: &Vec<char>, from: usize, class: CharClass) -> (n: usize)
    requires
        from <= s.len(),
    ensures
        n == leading(s@.skip(from as int), class),
        from + n <= s.len(),
{
    let mut i: usize = from;
    while i < s.len() && has_class(class, s[i])
        invariant
            from <= i <= s.len(),
            leading(s@.skip(from as int), class) == (i - from) + leading(s@.skip(i as int), class),
        decreases s.len() - i,
    {
        assert(s@.skip(i as int).drop_first() =~= s@.skip(i + 1));
        i += 1;
    }
    i - from
}

/// How many characters of `class` stand at the end of `s[from..]`.
pub fn count_trailing(s: &Vec<char>, from: usize, class: CharClass) -> (n: usize)
    requires
        from <= s.len(),
    ensures
        n == trailing(s@.skip(from as int), class),
        from + n <= s.len(),
{
    let mut end: usize = s.len();
    while end > from && has_class(class, s[end - 1])
        invariant
            from <= end <= s.len(),
            trailing(s@.skip(from as int), class) == (s.len() - end) + trailing(
                s@.subrange(from as int, end as int),
                class,
            ),
        decreases end,
    {
        assert(s@.subrange(from as int, end as int).drop_last() =~= s@.subrange(
            from as int,
            end - 1,
        ));
        end -= 1;
    }
    assert(s@.skip(from as int) =~= s@.subrange(from as int, s.len() as int));
    s.len() - end
}

/// `s` without the characters of `class` at either end.
pub fn trim(s: &str, class: CharClass) -> (r: String)
    ensures
        r@ == trimmed(s@, class),
{
    let chars = to_chars(s);
    let start = count_leading(&chars, 0, class);
    let end = chars.len() - count_trailing(&chars, start, class);
    assert(chars@.skip(0) =~= chars@);
    let r = from_chars(&chars, start, end);
    assert(r@ =~= trimmed(s@, class));
    r
}

/// Whether `pat` stands in `s` at position `i`.
pub open spec fn is_at(s: Seq<char>, i: int, pat: Seq<char>) -> bool {
    0 <= i && i + pat.len() <= s.len() && s.subrange(i, i + pat.len()) == pat
}

/// Whether `pat` stands in `s` at position `i`.
pub fn matches_at(s: &Vec<char>, i: usize, pat: &Vec<char>) -> (r: bool)
    ensures
        r == is_at(s@, i as int, pat@),
{
    if i > s.len() || pat.len() > s.len() - i {
        return false;
    }
    let mut k: usize = 0;
    while k < pat.len()
        invariant
            k <= pat.len(),
            i + pat.len() <= s.len(),
            forall|j: int| 0 <= j < k ==> s[i + j] == pat[j],
        decreases pat.len() - k,
    {
        if s[i + k] != pat[k] {
            assert(s@.subrange(i as int, i + pat.len())[k as int] != pat@[k as int]);
            return false;
        }
        k += 1;
    }
    assert(s@.subrange(i as int, i + pat.len()) =~= pat@);
    true
}

/// `s` with the first `limit` occurrences of `pat` replaced by `rep`. The
/// occurrences are found from the left and do not overlap; an empty `pat`
/// occurs nowhere.
pub open spec fn replaced(s: Seq<char>, pat: Seq<char>, rep: Seq<char>, limit: nat) -> Seq<char>
    decreases s.len(),
{
    if limit == 0 || pat.len() == 0 || s.len() < pat.len() {
        s
    } else if is_at(s, 0, pat) {
        rep + replaced(s.skip(pat.len() as int), pat, rep, (limit - 1) as nat)
    } else {
        seq![s[0]] + replaced(s.drop_first(), pat, rep, limit)
    }
}

/// `s` with every occurrence of `pat` replaced by `rep`: a text holds no
/// more occurrences than characters.
pub open spec fn replaced_all(s: Seq<char>, pat: Seq<char>, rep: Seq<char>) -> Seq<char> {
    replaced(s, pat, rep, s.len())
}

/// Replaces the first `limit` occurrences of `pat` in `s` by `rep`.
pub fn replace_first(s: &str, pat: &str, rep: &str, limit: usize) -> (r: String)
    ensures
        r@ == replaced(s@, pat@, rep@, limit as nat),
{
    let text = to_chars(s);
    let pattern = to_chars(pat);
    let mut out = String::new();
    let mut i: usize = 0;
    let mut left: usize = limit;
    if pattern.len() == 0 {
        return s.to_owned();
    }
    assert(text@.skip(0) =~= s@);
    assert(out@ + replaced(s@, pat@, rep@, limit as nat) =~= replaced(s@, pat@, rep@, limit as nat));
    while i < text.len() && left > 0
        invariant
            i <= text.len(),
            pattern.len() > 0,
            pattern@ == pat@,
            replaced(s@, pat@, rep@, limit as nat) == out@ + replaced(
                text@.skip(i as int),
                pat@,
                rep@,
                left as nat,
            ),
        decreases text.len() - i,
    {
        let ghost rest = text@.skip(i as int);
        if matches_at(&text, i, &pattern) {
            assert(rest.subrange(0, pattern.len() as int) =~= text@.subrange(
                i as int,
                i + pattern.len(),
            ));
            assert(rest.skip(pattern.len() as int) =~= text@.skip(i + pattern.len()));
            let ghost before = out@;
            out.append(rep);
            i += pattern.len();
            left -= 1;
            assert(before + (rep@ + replaced(text@.skip(i as int), pat@, rep@, left as nat))
                =~= out@ + replaced(text@.skip(i as int), pat@, rep@, left as nat));
        } else {
            proof {
                if rest.len() >= pattern.len() {
                    assert(rest.subrange(0, pattern.len() as int) =~= text@.subrange(
                        i as int,
                        i + pattern.len(),
                    ));
                }
            }
            assert(rest.drop_first() =~= text@.skip(i + 1));
            let ghost before = out@;
            out.push(text[i]);
            i += 1;
            assert(before + (seq![rest[0]] + replaced(text@.skip(i as int), pat@, rep@, left as nat))
                =~= out@ + replaced(text@.skip(i as int), pat@, rep@, left as nat));
        }
    }
    let tail = from_chars(&text, i, text.len());
    out.append(tail.as_str());
    proof {
        let rest = text@.skip(i as int);
        assert(tail@ =~= rest);
        if left == 0 {
        } else {
            assert(rest.len() == 0);
        }
    }
    out
}

/// Replaces every occurrence of `pat` in `s` by `rep`.
pub fn replace_all(s: &str, pat: &str, rep: &str) -> (r: String)
    ensures
        r@ == replaced_all(s@, pat@, rep@),
{
    replace_first(s, pat, rep, s.unicode_len())
}


/// The value of a decimal digit.
pub open spec fn digit_value(c: char) -> Option<nat> {
    if '0' <= c && c <= '9' {
        Some((c as nat - '0' as nat) as nat)
    } else {
        None
    }
}

/// The value of a run of decimal digits; nothing for an empty run or one
/// that holds another character.
pub open spec fn digits_value(s: Seq<char>) -> Option<nat>
    decreases s.len(),
{
    if s.len() == 0 {
        None
    } else if s.len() == 1 {
        digit_value(s[0])
    } else {
        match (digits_value(s.drop_last()), digit_value(s.last())) {
            (Some(a), Some(d)) => Some(a * 10 + d),
            _ => None,
        }
    }
}

/// The number that a text spells: an optional plus sign, then decimal
/// digits whose value fits the machine word.
pub open spec fn number_of(s: Seq<char>) -> Option<nat> {
    let digits = if s.len() > 0 && s[0] == '+' {
        s.drop_first()
    } else {
        s
    };
    match digits_value(digits) {
        Some(n) => if n <= usize::MAX {
            Some(n)
        } else {
            None
        },
        None => None,
    }
}

/// The decimal digit for a value below ten.
pub open spec fn digit_char(d: nat) -> char {
    if d == 0 {
        '0'
    } else if d == 1 {
        '1'
    } else if d == 2 {
        '2'
    } else if d == 3 {
        '3'
    } else if d == 4 {
        '4'
    } else if d == 5 {
        '5'
    } else if d == 6 {
        '6'
    } else if d == 7 {
        '7'
    } else if d == 8 {
        '8'
    } else {
        '9'
    }
}

/// The decimal spelling of `n`, without leading zeros.
pub open spec fn decimal(n: nat) -> Seq<char>
    decreases n,
{
    if n < 10 {
        seq![digit_char(n)]
    } else {
        decimal(n / 10).push(digit_char(n % 10))
    }
}

fn digit_of(c: char) -> (r: Option<usize>)
    ensures
        match r {
            Some(d) => digit_value(c) == Some(d as nat) && d < 10,
            None => digit_value(c) is None,
        },
{
    if '0' <= c && c <= '9' {
        Some((c as u32 - '0' as u32) as usize)
    } else {
        None
    }
}

/// Once a prefix of a run of digits exceeds a bound, the whole run does.
proof fn lemma_digits_grow(s: Seq<char>, k: int)
    requires
        0 < k <= s.len(),
        digits_value(s) is Some,
    ensures
        digits_value(s.take(k)) is Some,
        digits_value(s.take(k))->0 <= digits_value(s)->0,
    decreases s.len() - k,
{
    if k == s.len() {
        assert(s.take(k) =~= s);
    } else {
        assert(s.drop_last().take(k) =~= s.take(k));
        lemma_digits_grow(s.drop_last(), k);
    }
}

/// A run of digits has a value only if each of its prefixes has one.
proof fn lemma_digits_prefix(s: Seq<char>, k: int)
    requires
        0 < k <= s.len(),
        digits_value(s.take(k)) is None,
    ensures
        digits_value(s) is None,
{
    if digits_value(s) is Some {
        lemma_digits_grow(s, k);
    }
}

/// Reads the number that `s` spells.
pub fn parse_number(s: &str) -> (r: Option<usize>)
    ensures
        match r {
            Some(n) => number_of(s@) == Some(n as nat),
            None => number_of(s@) is None,
        },
{
    let chars = to_chars(s);
    let start: usize = if chars.len() > 0 && chars[0] == '+' {
        1
    } else {
        0
    };
    let ghost digits = chars@.skip(start as int);
    proof {
        if start == 1 {
            assert(digits =~= s@.drop_first());
        } else {
            assert(digits =~= s@);
        }
    }
    if start >= chars.len() {
        return None;
    }
    let mut value: usize = match digit_of(chars[start]) {
        Some(d) => d,
        None => {
            proof {
                assert(digits.take(1) =~= seq![chars@[start as int]]);
                lemma_digits_prefix(digits, 1);
            }
            return None;
        },
    };
    let mut i: usize = start + 1;
    assert(digits.take(1) =~= seq![chars@[start as int]]);
    while i < chars.len()
        invariant
            start < i <= chars.len(),
            digits == chars@.skip(start as int),
            digits == if s@.len() > 0 && s@[0] == '+' {
                s@.drop_first()
            } else {
                s@
            },
            digits_value(digits.take(i - start)) == Some(value as nat),
        decreases chars.len() - i,
    {
        let ghost next = digits.take(i - start + 1);
        assert(next.drop_last() =~= digits.take(i - start));
        assert(next.last() == chars@[i as int]);
        let d = match digit_of(chars[i]) {
            Some(d) => d,
            None => {
                proof {
                    lemma_digits_prefix(digits, i - start + 1);
                }
                return None;
            },
        };
        let next_value = match value.checked_mul(10) {
            Some(v) => v.checked_add(d),
            None => None,
        };
        match next_value {
            Some(v) => {
                value = v;
            },
            None => {
                proof {
                    assert(digits_value(next) == Some((value * 10 + d) as nat));
                    if digits_value(digits) is Some {
                        lemma_digits_grow(digits, i - start + 1);
                    }
                }
                return None;
            },
        }
        i += 1;
    }
    assert(digits.take(i - start) =~= digits);
    Some(value)
}

fn char_of_digit(d: usize) -> (c: char)
    requires
        d < 10,
    ensures
        c == digit_char(d as nat),
{
    if d == 0 {
        '0'
    } else if d == 1 {
        '1'
    } else if d == 2 {
        '2'
    } else if d == 3 {
        '3'
    } else if d == 4 {
        '4'
    } else if d == 5 {
        '5'
    } else if d == 6 {
        '6'
    } else if d == 7 {
        '7'
    } else if d == 8 {
        '8'
    } else {
        '9'
    }
}

/// Spells `n` in decimal digits.
pub fn to_decimal(n: usize) -> (r: String)
    ensures
        r@ == decimal(n as nat),
    decreases n,
{
    if n < 10 {
        let mut r = String::new();
        r.push(char_of_digit(n));
        assert(r@ =~= decimal(n as nat));
        r
    } else {
        let mut r = to_decimal(n / 10);
        r.push(char_of_digit(n % 10));
        r
    }
}

/// The content of a list of strings.
pub open spec fn strings_of(v: Seq<String>) -> Seq<Seq<char>> {
    Seq::new(v.len(), |i: int| v[i]@)
}

/// Joins `parts` with `sep` between them.
pub open spec fn joined(parts: Seq<Seq<char>>, sep: Seq<char>) -> Seq<char>
    decreases parts.len(),
{
    if parts.len() == 0 {
        Seq::empty()
    } else if parts.len() == 1 {
        parts[0]
    } else {
        joined(parts.drop_last(), sep) + sep + parts.last()
    }
}

/// The position of the last occurrence of `pat` in `s` that starts before
/// `upto`.
pub open spec fn last_match(s: Seq<char>, pat: Seq<char>, upto: int) -> Option<int>
    decreases upto,
{
    if upto <= 0 {
        None
    } else if is_at(s, upto - 1, pat) {
        Some(upto - 1)
    } else {
        last_match(s, pat, upto - 1)
    }
}

/// The position of the last occurrence of `pat` in `s`.
pub fn find_last(s: &Vec<char>, pat: &Vec<char>) -> (r: Option<usize>)
    ensures
        match r {
            Some(i) => last_match(s@, pat@, s@.len() as int) == Some(i as int) && is_at(
                s@,
                i as int,
                pat@,
            ),
            None => last_match(s@, pat@, s@.len() as int) is None,
        },
{
    let mut upto: usize = s.len();
    while upto > 0
        invariant
            upto <= s.len(),
            last_match(s@, pat@, s@.len() as int) == last_match(s@, pat@, upto as int),
        decreases upto,
    {
        if matches_at(s, upto - 1, pat) {
            return Some(upto - 1);
        }
        upto -= 1;
    }
    None
}

} // verus!
