//! Text as sequences of characters: the pieces that both stages build their
//! output from, and the scanners that the back end reads its input with.

use vstd::prelude::*;

verus! {

/// The views of a list of strings, in order.
pub open spec fn texts(list: Seq<String>) -> Seq<Seq<char>> {
    list.map_values(|s: String| s@)
}

/// The decimal digit that stands for a value below ten.
pub open spec fn digit_char(d: int) -> char {
    if d == 0 {
        '0'
    } else if d == 1 {
        '1'
    } else if d == 2 {
        '2'
    } else if d == 3 {
        '3'
    } else if d == 4 {
        '4'
    } else if d == 5 {
        '5'
    } else if d == 6 {
        '6'
    } else if d == 7 {
        '7'
    } else if d == 8 {
        '8'
    } else {
        '9'
    }
}

/// The decimal numeral of `n`, without sign or leading zeros.
pub open spec fn decimal(n: nat) -> Seq<char>
    decreases n,
{
    if n < 10 {
        seq![digit_char(n as int)]
    } else {
        decimal(n / 10).push(digit_char((n % 10) as int))
    }
}

/// The first `n` of `parts`, each but the first preceded by `sep`.
pub open spec fn joined(parts: Seq<Seq<char>>, sep: char, n: nat) -> Seq<char>
    decreases n,
{
    if n == 0 || n > parts.len() {
        Seq::empty()
    } else if n == 1 {
        parts[0]
    } else {
        joined(parts, sep, (n - 1) as nat).push(sep) + parts[n - 1]
    }
}

/// All of `parts` with `sep` between neighbours.
pub open spec fn join(parts: Seq<Seq<char>>, sep: char) -> Seq<char> {
    joined(parts, sep, parts.len())
}

fn digit_str(d: usize) -> (s: &'static str)
    requires
        d < 10,
    ensures
        s@ == seq![digit_char(d as int)],
{
    proof {
        reveal_strlit("0");
        reveal_strlit("1");
        reveal_strlit("2");
        reveal_strlit("3");
        reveal_strlit("4");
        reveal_strlit("5");
        reveal_strlit("6");
        reveal_strlit("7");
        reveal_strlit("8");
        reveal_strlit("9");
    }
    let s = match d {
        0 => "0",
        1 => "1",
        2 => "2",
        3 => "3",
        4 => "4",
        5 => "5",
        6 => "6",
        7 => "7",
        8 => "8",
        _ => "9",
    };
    assert(s@ =~= seq![digit_char(d as int)]);
    s
}

/// Writes `n` as a decimal numeral.
pub fn decimal_string(n: usize) -> (s: String)
    ensures
        s@ == decimal(n as nat),
    decreases n,
{
    if n < 10 {
        String::from_str(digit_str(n))
    } else {
        let mut s = decimal_string(n / 10);
        s.append(digit_str(n % 10));
        assert(s@ =~= decimal((n / 10) as nat).push(digit_char((n % 10) as int)));
        s
    }
}

/// The characters of `s`, one element each.
pub fn chars_of(s: &str) -> (out: Vec<char>)
    ensures
        out@ == s@,
{
    let mut out: Vec<char> = Vec::new();
    for c in it: s.chars()
        invariant
            out@ == it.seq().take(it.index() as int),
            it.seq() == s@,
    {
        out.push(c);
    }
    out
}

/// Joins `parts` with `sep`, which holds the one character `sep_char`.
fn join_with(parts: &Vec<String>, sep: &str, Ghost(sep_char): Ghost<char>) -> (out: String)
    requires
        sep@ == seq![sep_char],
    ensures
        out@ == join(texts(parts@), sep_char),
{
    let mut out = String::new();
    let mut i: usize = 0;
    while i < parts.len()
        invariant
            i <= parts.len(),
            sep@ == seq![sep_char],
            out@ == joined(texts(parts@), sep_char, i as nat),
        decreases parts.len() - i,
    {
        if i > 0 {
            out.append(sep);
        }
        out.append(parts[i].as_str());
        i = i + 1;
        assert(out@ =~= joined(texts(parts@), sep_char, i as nat));
    }
    out
}

/// Joins `parts` with single spaces.
pub fn join_spaces(parts: &Vec<String>) -> (out: String)
    ensures
        out@ == join(texts(parts@), ' '),
{
    proof {
        reveal_strlit(" ");
    }
    assert(" "@ =~= seq![' ']);
    join_with(parts, " ", Ghost(' '))
}

/// Joins `parts` with line feeds.
pub fn join_lines(parts: &Vec<String>) -> (out: String)
    ensures
        out@ == join(texts(parts@), '\n'),
{
    proof {
        reveal_strlit("\n");
    }
    assert("\n"@ =~= seq!['\n']);
    join_with(parts, "\n", Ghost('\n'))
}


/// Whether `needle` stands in `hay` at index `i`.
pub open spec fn occurs_at(hay: Seq<char>, needle: Seq<char>, i: int) -> bool {
    &&& 0 <= i
    &&& i + needle.len() <= hay.len()
    &&& hay.subrange(i, i + needle.len()) == needle
}

/// Whether `needle` stands somewhere in `hay`.
pub open spec fn contains(hay: Seq<char>, needle: Seq<char>) -> bool {
    exists|i: int| occurs_at(hay, needle, i)
}

/// Whether `s` begins with `prefix`.
pub open spec fn starts_with(s: Seq<char>, prefix: Seq<char>) -> bool {
    occurs_at(s, prefix, 0)
}

/// The first index from `i` on at which `s` holds `c`; the length of `s`
/// where there is none.
pub open spec fn find_char(s: Seq<char>, c: char, i: int) -> int
    decreases s.len() - i,
{
    if i < 0 || i >= s.len() || s[i] == c {
        i
    } else {
        find_char(s, c, i + 1)
    }
}

pub proof fn lemma_find_char_bounds(s: Seq<char>, c: char, i: int)
    requires
        0 <= i <= s.len(),
    ensures
        i <= find_char(s, c, i) <= s.len(),
        find_char(s, c, i) < s.len() ==> s[find_char(s, c, i)] == c,
        forall|k: int| i <= k < find_char(s, c, i) ==> s[k] != c,
    decreases s.len() - i,
{
    if i < s.len() && s[i] != c {
        lemma_find_char_bounds(s, c, i + 1);
    }
}

/// The maximal runs of characters other than `' '` in `s` from index `i` on,
/// in order.
pub open spec fn words_from(s: Seq<char>, i: int) -> Seq<Seq<char>>
    decreases s.len() - i,
{
    if i < 0 || i >= s.len() {
        Seq::empty()
    } else if s[i] == ' ' {
        words_from(s, i + 1)
    } else {
        let end = find_char(s, ' ', i + 1);
        if end <= i || end > s.len() {
            Seq::empty()
        } else {
            seq![s.subrange(i, end)] + words_from(s, end)
        }
    }
}

/// The words of a line: what stands between its spaces, empty pieces left out.
pub open spec fn words(s: Seq<char>) -> Seq<Seq<char>> {
    words_from(s, 0)
}

/// The pieces of `s` from index `i` on that line feeds separate.
pub open spec fn lines_from(s: Seq<char>, i: int) -> Seq<Seq<char>>
    decreases s.len() - i,
{
    if i < 0 || i > s.len() {
        Seq::empty()
    } else {
        let end = find_char(s, '\n', i);
        if end < i || end >= s.len() {
            seq![s.subrange(i, s.len() as int)]
        } else {
            seq![s.subrange(i, end)] + lines_from(s, end + 1)
        }
    }
}

/// The lines of a text. A text that ends in a line feed ends in an empty line.
pub open spec fn lines(s: Seq<char>) -> Seq<Seq<char>> {
    lines_from(s, 0)
}

/// `s` from index `i` on, with every occurrence of `pat` replaced by `to`,
/// found from the left and never overlapping.
pub open spec fn replaced_from(s: Seq<char>, pat: Seq<char>, to: Seq<char>, i: int) -> Seq<char>
    decreases s.len() - i,
{
    if pat.len() == 0 || i < 0 || i >= s.len() {
        Seq::empty()
    } else if occurs_at(s, pat, i) {
        to + replaced_from(s, pat, to, i + pat.len())
    } else {
        seq![s[i]] + replaced_from(s, pat, to, i + 1)
    }
}

/// `s` with every occurrence of `pat` replaced by `to`. An empty `pat`
/// occurs nowhere: `s` stays as it is.
pub open spec fn replaced(s: Seq<char>, pat: Seq<char>, to: Seq<char>) -> Seq<char> {
    if pat.len() == 0 {
        s
    } else {
        replaced_from(s, pat, to, 0)
    }
}

/// The characters with the Unicode property `White_Space`.
pub open spec fn is_whitespace(c: char) -> bool {
    ||| ('\u{9}' <= c && c <= '\u{D}')
    ||| c == ' '
    ||| c == '\u{85}'
    ||| c == '\u{A0}'
    ||| c == '\u{1680}'
    ||| ('\u{2000}' <= c && c <= '\u{200A}')
    ||| c == '\u{2028}'
    ||| c == '\u{2029}'
    ||| c == '\u{202F}'
    ||| c == '\u{205F}'
    ||| c == '\u{3000}'
}

/// The first index from `i` on at which `s` holds no white space; the length
/// of `s` where there is none.
pub open spec fn skip_whitespace(s: Seq<char>, i: int) -> int
    decreases s.len() - i,
{
    if i < 0 || i >= s.len() || !is_whitespace(s[i]) {
        i
    } else {
        skip_whitespace(s, i + 1)
    }
}

/// The end of `s[..n]` once the white space at its end is cut off.
pub open spec fn drop_whitespace(s: Seq<char>, n: int) -> int
    decreases n,
{
    if n <= 0 || n > s.len() || !is_whitespace(s[n - 1]) {
        n
    } else {
        drop_whitespace(s, n - 1)
    }
}

/// `s` without the white space at its two ends.
pub open spec fn trimmed(s: Seq<char>) -> Seq<char> {
    let from = skip_whitespace(s, 0);
    let to = drop_whitespace(s, s.len() as int);
    if from < to {
        s.subrange(from, to)
    } else {
        Seq::empty()
    }
}

/// Whether `c` is one of the ten decimal digits.
pub open spec fn is_digit(c: char) -> bool {
    '0' <= c && c <= '9'
}

/// The value of a decimal digit; zero for any other character.
pub open spec fn digit_value(c: char) -> nat {
    if is_digit(c) {
        (c as u32 - '0' as u32) as nat
    } else {
        0
    }
}

/// The number that the first `n` characters of `s` spell in base ten.
pub open spec fn digits_value(s: Seq<char>, n: nat) -> nat
    decreases n,
{
    if n == 0 || n > s.len() {
        0
    } else {
        digits_value(s, (n - 1) as nat) * 10 + digit_value(s[n - 1])
    }
}

/// Whether `s` holds decimal digits only.
pub open spec fn all_digits(s: Seq<char>) -> bool {
    forall|i: int| 0 <= i < s.len() ==> is_digit(#[trigger] s[i])
}

/// `s` without the one `'+'` that may stand at its front.
pub open spec fn unsigned_part(s: Seq<char>) -> Seq<char> {
    if s.len() > 0 && s[0] == '+' {
        s.subrange(1, s.len() as int)
    } else {
        s
    }
}

/// The byte that `s` spells: an optional `'+'`, then one or more decimal
/// digits whose value is at most 255. Anything else spells no byte.
pub open spec fn parse_u8(s: Seq<char>) -> Option<u8> {
    let digits = unsigned_part(s);
    let value = digits_value(digits, digits.len());
    if digits.len() > 0 && all_digits(digits) && value <= 255 {
        Some(value as u8)
    } else {
        None
    }
}

pub proof fn lemma_digits_value_grows(s: Seq<char>, n: nat, m: nat)
    requires
        n <= m <= s.len(),
    ensures
        digits_value(s, n) <= digits_value(s, m),
    decreases m,
{
    if n < m {
        lemma_digits_value_grows(s, n, (m - 1) as nat);
    }
}


/// Whether `needle` stands in `hay` at index `i`.
fn occurs_at_index(hay: &Vec<char>, needle: &Vec<char>, i: usize) -> (found: bool)
    ensures
        found == occurs_at(hay@, needle@, i as int),
{
    let m = needle.len();
    if m > hay.len() || i > hay.len() - m {
        return false;
    }
    let mut k: usize = 0;
    while k < m
        invariant
            k <= m,
            m == needle.len(),
            i + m <= hay.len(),
            forall|j: int| 0 <= j < k ==> hay[i + j] == needle[j],
        decreases m - k,
    {
        if hay[i + k] != needle[k] {
            assert(hay@.subrange(i as int, i + m)[k as int] != needle@[k as int]);
            return false;
        }
        k = k + 1;
    }
    assert(hay@.subrange(i as int, i + m) =~= needle@);
    true
}

/// Whether two texts hold the same characters.
pub fn same_text(a: &str, b: &str) -> (same: bool)
    ensures
        same == (a@ == b@),
{
    let left = chars_of(a);
    let right = chars_of(b);
    if left.len() != right.len() {
        return false;
    }
    let found = occurs_at_index(&left, &right, 0);
    assert(left@.subrange(0, left@.len() as int) =~= left@);
    found
}

/// Whether `s` begins with `prefix`.
pub fn text_starts_with(s: &str, prefix: &str) -> (found: bool)
    ensures
        found == starts_with(s@, prefix@),
{
    let hay = chars_of(s);
    let needle = chars_of(prefix);
    occurs_at_index(&hay, &needle, 0)
}

/// Whether `needle` stands somewhere in `hay`.
pub fn text_contains(hay: &str, needle: &str) -> (found: bool)
    ensures
        found == contains(hay@, needle@),
{
    let h = chars_of(hay);
    let n = chars_of(needle);
    if n.len() > h.len() {
        return false;
    }
    let last = h.len() - n.len();
    let mut i: usize = 0;
    loop
        invariant
            i <= last,
            last == h.len() - n.len(),
            n.len() <= h.len(),
            h@ == hay@,
            n@ == needle@,
            forall|j: int| 0 <= j < i ==> !occurs_at(h@, n@, j),
        decreases last - i,
    {
        if occurs_at_index(&h, &n, i) {
            assert(occurs_at(hay@, needle@, i as int));
            return true;
        }
        if i == last {
            return false;
        }
        i = i + 1;
    }
}

/// The first index from `i` on at which `chars` holds `c`.
fn find_char_from(chars: &Vec<char>, c: char, i: usize) -> (j: usize)
    requires
        i <= chars.len(),
    ensures
        j == find_char(chars@, c, i as int),
        i <= j <= chars.len(),
{
    let mut j = i;
    while j < chars.len() && chars[j] != c
        invariant
            i <= j <= chars.len(),
            find_char(chars@, c, j as int) == find_char(chars@, c, i as int),
        decreases chars.len() - j,
    {
        j = j + 1;
    }
    j
}

/// Splits a line at its spaces and leaves the empty pieces out.
pub fn split_words(line: &str) -> (out: Vec<String>)
    ensures
        texts(out@) == words(line@),
{
    let chars = chars_of(line);
    let n = chars.len();
    let mut out: Vec<String> = Vec::new();
    let mut i: usize = 0;
    assert(texts(out@) =~= Seq::<Seq<char>>::empty());
    while i < n
        invariant
            i <= n,
            n == chars.len(),
            chars@ == line@,
            texts(out@) + words_from(line@, i as int) == words(line@),
        decreases n - i,
    {
        if chars[i] == ' ' {
            i = i + 1;
        } else {
            let end = find_char_from(&chars, ' ', i + 1);
            let word = String::from_str(line.substring_char(i, end));
            let ghost before = texts(out@);
            out.push(word);
            assert(texts(out@) =~= before.push(line@.subrange(i as int, end as int)));
            assert(texts(out@) + words_from(line@, end as int) =~= before + words_from(
                line@,
                i as int,
            ));
            i = end;
        }
    }
    assert(texts(out@) + words_from(line@, n as int) =~= texts(out@));
    out
}

/// Splits a text at its line feeds.
pub fn split_lines(text: &str) -> (out: Vec<String>)
    ensures
        texts(out@) == lines(text@),
{
    let chars = chars_of(text);
    let n = chars.len();
    let mut out: Vec<String> = Vec::new();
    let mut i: usize = 0;
    assert(texts(out@) =~= Seq::<Seq<char>>::empty());
    loop
        invariant_except_break
            i <= n,
            n == chars.len(),
            chars@ == text@,
            texts(out@) + lines_from(text@, i as int) == lines(text@),
        ensures
            texts(out@) == lines(text@),
        decreases n - i,
    {
        let end = find_char_from(&chars, '\n', i);
        let piece = String::from_str(text.substring_char(i, end));
        let ghost before = texts(out@);
        out.push(piece);
        assert(texts(out@) =~= before.push(text@.subrange(i as int, end as int)));
        if end >= n {
            assert(texts(out@) =~= before + lines_from(text@, i as int));
            break;
        }
        assert(texts(out@) + lines_from(text@, end + 1) =~= before + lines_from(text@, i as int));
        i = end + 1;
    }
    out
}

/// Replaces every occurrence of `pat` in `s` by `to`. With an empty `pat`
/// the result is a copy of `s`.
pub fn replace_all(s: &str, pat: &str, to: &str) -> (out: String)
    ensures
        out@ == replaced(s@, pat@, to@),
{
    let chars = chars_of(s);
    let needle = chars_of(pat);
    if needle.len() == 0 {
        return String::from_str(s);
    }
    let n = chars.len();
    let mut out = String::new();
    let mut kept: usize = 0;
    let mut i: usize = 0;
    while i < n
        invariant
            kept <= i <= n,
            n == chars.len(),
            chars@ == s@,
            needle@ == pat@,
            pat@.len() > 0,
            out@ + s@.subrange(kept as int, i as int) + replaced_from(s@, pat@, to@, i as int)
                == replaced(s@, pat@, to@),
        decreases n - i,
    {
        if occurs_at_index(&chars, &needle, i) {
            let ghost before = out@;
            out.append(s.substring_char(kept, i));
            out.append(to);
            let next = i + needle.len();
            assert(out@ + s@.subrange(next as int, next as int) + replaced_from(
                s@,
                pat@,
                to@,
                next as int,
            ) =~= before + s@.subrange(kept as int, i as int) + replaced_from(
                s@,
                pat@,
                to@,
                i as int,
            ));
            i = next;
            kept = next;
        } else {
            assert(out@ + s@.subrange(kept as int, i + 1) + replaced_from(s@, pat@, to@, i + 1)
                =~= out@ + s@.subrange(kept as int, i as int) + replaced_from(
                s@,
                pat@,
                to@,
                i as int,
            ));
            i = i + 1;
        }
    }
    let ghost before = out@;
    out.append(s.substring_char(kept, n));
    assert(out@ =~= before + s@.subrange(kept as int, n as int) + replaced_from(
        s@,
        pat@,
        to@,
        n as int,
    ));
    out
}

/// Whether `c` has the Unicode property `White_Space`.
pub fn is_whitespace_char(c: char) -> (white: bool)
    ensures
        white == is_whitespace(c),
{
    (c >= '\u{9}' && c <= '\u{D}') || c == ' ' || c == '\u{85}' || c == '\u{A0}' || c
        == '\u{1680}' || (c >= '\u{2000}' && c <= '\u{200A}') || c == '\u{2028}' || c == '\u{2029}'
        || c == '\u{202F}' || c == '\u{205F}' || c == '\u{3000}'
}

/// Cuts the white space off both ends of `s`.
pub fn trim(s: &str) -> (out: &str)
    ensures
        out@ == trimmed(s@),
{
    let chars = chars_of(s);
    let n = chars.len();
    let mut from: usize = 0;
    while from < n && is_whitespace_char(chars[from])
        invariant
            from <= n,
            n == chars.len(),
            skip_whitespace(chars@, from as int) == skip_whitespace(chars@, 0),
        decreases n - from,
    {
        from = from + 1;
    }
    let mut to: usize = n;
    while to > 0 && is_whitespace_char(chars[to - 1])
        invariant
            to <= n,
            n == chars.len(),
            drop_whitespace(chars@, to as int) == drop_whitespace(chars@, n as int),
        decreases to,
    {
        to = to - 1;
    }
    if from < to {
        s.substring_char(from, to)
    } else {
        let out = s.substring_char(0, 0);
        assert(out@ =~= Seq::<char>::empty());
        out
    }
}

/// Reads a byte in decimal notation.
pub fn parse_byte(s: &str) -> (out: Option<u8>)
    ensures
        out == parse_u8(s@),
{
    let chars = chars_of(s);
    let n = chars.len();
    let start: usize = if n > 0 && chars[0] == '+' {
        1
    } else {
        0
    };
    let ghost digits = unsigned_part(s@);
    assert(digits.len() == n - start);
    assert(forall|k: int| 0 <= k < digits.len() ==> digits[k] == chars@[k + start]);
    if start == n {
        return None;
    }
    let mut value: u32 = 0;
    let mut i: usize = start;
    while i < n
        invariant
            start <= i <= n,
            n == chars.len(),
            digits == unsigned_part(s@),
            digits.len() == n - start,
            forall|k: int| 0 <= k < digits.len() ==> digits[k] == chars@[k + start],
            forall|k: int| 0 <= k < i - start ==> is_digit(digits[k]),
            value == digits_value(digits, (i - start) as nat),
            value <= 255,
        decreases n - i,
    {
        let c = chars[i];
        if !(c >= '0' && c <= '9') {
            assert(!is_digit(digits[i - start]));
            assert(!all_digits(digits));
            return None;
        }
        let d = (c as u32) - ('0' as u32);
        let next = value * 10 + d;
        assert(next == digits_value(digits, (i + 1 - start) as nat));
        if next > 255 {
            proof {
                lemma_digits_value_grows(digits, (i + 1 - start) as nat, digits.len());
            }
            assert(digits_value(digits, digits.len()) > 255);
            return None;
        }
        value = next;
        i = i + 1;
    }
    Some(value as u8)
}


/// Whether `s` is a decimal numeral without sign or leading zeros.
pub open spec fn is_numeral(s: Seq<char>) -> bool {
    &&& s.len() > 0
    &&& all_digits(s)
    &&& s.len() == 1 || s[0] != '0'
}

/// A decimal numeral is made of digits and has no leading zero.
pub proof fn lemma_decimal_is_numeral(n: nat)
    ensures
        is_numeral(decimal(n)),
        n >= 10 ==> decimal(n).len() >= 2,
        n >= 1 ==> decimal(n)[0] != '0',
    decreases n,
{
    if n >= 10 {
        lemma_decimal_is_numeral(n / 10);
        let front = decimal(n / 10);
        let whole = front.push(digit_char((n % 10) as int));
        assert(whole[0] == front[0]);
        assert forall|i: int| 0 <= i < whole.len() implies is_digit(#[trigger] whole[i]) by {
            if i < front.len() {
                assert(whole[i] == front[i]);
            }
        }
    }
}

/// Two numbers with the same decimal numeral are the same number.
pub proof fn lemma_decimal_injective(a: nat, b: nat)
    requires
        decimal(a) == decimal(b),
    ensures
        a == b,
    decreases a,
{
    lemma_decimal_is_numeral(a);
    lemma_decimal_is_numeral(b);
    if a >= 10 && b >= 10 {
        let fa = decimal(a / 10);
        let fb = decimal(b / 10);
        let da = digit_char((a % 10) as int);
        let db = digit_char((b % 10) as int);
        assert(fa.push(da).last() == da);
        assert(fb.push(db).last() == db);
        assert(fa.push(da).drop_last() =~= fa);
        assert(fb.push(db).drop_last() =~= fb);
        lemma_decimal_injective(a / 10, b / 10);
    } else if a < 10 && b < 10 {
        assert(decimal(a)[0] == digit_char(a as int));
        assert(decimal(b)[0] == digit_char(b as int));
    }
}


/// Joining a list behind one more part puts the part and the separator in
/// front of the joined list.
pub proof fn lemma_joined_behind(first: Seq<char>, rest: Seq<Seq<char>>, sep: char, n: nat)
    requires
        1 <= n <= rest.len(),
    ensures
        joined(seq![first] + rest, sep, n + 1) == first.push(sep) + joined(rest, sep, n),
    decreases n,
{
    let parts = seq![first] + rest;
    assert(parts[0] == first);
    assert(parts[n as int] == rest[n - 1]);
    if n == 1 {
        assert(joined(parts, sep, 1) == first);
        assert(joined(parts, sep, 2) =~= first.push(sep) + rest[0]);
    } else {
        lemma_joined_behind(first, rest, sep, (n - 1) as nat);
        assert(joined(parts, sep, n + 1) =~= first.push(sep) + joined(rest, sep, n));
    }
}

/// A text has at least one line, and its lines joined by line feeds are the
/// text again.
pub proof fn lemma_lines_join(s: Seq<char>, i: int)
    requires
        0 <= i <= s.len(),
    ensures
        lines_from(s, i).len() >= 1,
        join(lines_from(s, i), '\n') == s.subrange(i, s.len() as int),
    decreases s.len() - i,
{
    lemma_find_char_bounds(s, '\n', i);
    let end = find_char(s, '\n', i);
    if end >= s.len() {
        assert(lines_from(s, i) =~= seq![s.subrange(i, s.len() as int)]);
    } else {
        lemma_lines_join(s, end + 1);
        let first = s.subrange(i, end);
        let rest = lines_from(s, end + 1);
        lemma_joined_behind(first, rest, '\n', rest.len());
        assert((seq![first] + rest).len() == rest.len() + 1);
        assert(first.push('\n') + s.subrange(end + 1, s.len() as int) =~= s.subrange(
            i,
            s.len() as int,
        ));
    }
}

} // verus!
