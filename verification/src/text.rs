//! Text as sequences of characters: splitting, trimming, joining, and numbers
//! written in and read from a base.

use vstd::prelude::*;

verus! {

/// `String::push` appends the given character to the end of the string.
pub assume_specification[ String::push ](s: &mut String, c: char)
    ensures
        final(s)@ == old(s)@.push(c),
;

/// The `Debug` rendering of a string: the text in double quotes, with the
/// characters that would not print as themselves escaped.
pub uninterp spec fn debug_text(s: Seq<char>) -> Seq<char>;

/// Formats `s` with `{:?}`, the `Debug` implementation of `str`. Which
/// characters are escaped is a table of the Unicode database, so the result is
/// only named.
#[verifier::external_body]
pub(crate) fn quoted(s: &str) -> (r: String)
    ensures
        r@ == debug_text(s@),
{
    format!("{:?}", s)
}

/// The contents of a list of strings.
pub open spec fn texts(v: Seq<String>) -> Seq<Seq<char>> {
    v.map_values(|s: String| s@)
}

/// The contents of an optional string.
pub open spec fn optional_text(s: Option<String>) -> Option<Seq<char>> {
    match s {
        Some(s) => Some(s@),
        None => None,
    }
}

/// The contents of an optional borrowed text.
pub open spec fn optional_str(s: Option<&str>) -> Option<Seq<char>> {
    match s {
        Some(s) => Some(s@),
        None => None,
    }
}

/// The characters of `s`, in order.
pub fn chars_of(s: &str) -> (r: Vec<char>)
    ensures
        r@ == s@,
{
    let mut r: Vec<char> = Vec::new();
    for c in it: s.chars()
        invariant
            it.seq() == s@,
            r@ == s@.take(it.index()),
    {
        r.push(c);
    }
    assert(s@.take(s@.len() as int) == s@);
    r
}

/// The string made of the characters `v[from..to]`.
pub fn text_between(v: &Vec<char>, from: usize, to: usize) -> (r: String)
    requires
        from <= to <= v@.len(),
    ensures
        r@ == v@.subrange(from as int, to as int),
{
    let mut r = String::new();
    for i in from..to
        invariant
            from <= to <= v@.len(),
            r@ == v@.subrange(from as int, i as int),
    {
        r.push(v[i]);
    }
    r
}

/// Whether two texts are the same.
pub fn same(a: &str, b: &str) -> (r: bool)
    ensures
        r == (a@ == b@),
{
    a.to_owned() == b.to_owned()
}

/// Whether an optional text is present and equal to `b`.
pub fn same_optional(a: &Option<String>, b: &str) -> (r: bool)
    ensures
        r == (optional_text(*a) == Some(b@)),
{
    match a {
        Some(a) => same(a.as_str(), b),
        None => false,
    }
}

/// A copy of a list of strings.
pub fn copy_texts(v: &Vec<String>) -> (r: Vec<String>)
    ensures
        texts(r@) == texts(v@),
{
    let mut r: Vec<String> = Vec::new();
    for i in 0..v.len()
        invariant
            texts(r@) == texts(v@).take(i as int),
    {
        let ghost before = texts(r@);
        r.push(v[i].clone());
        assert(texts(r@) == before.push(texts(v@)[i as int]));
    }
    assert(texts(v@).take(v@.len() as int) == texts(v@));
    r
}

// ---------------------------------------------------------------------------
// White space

/// The characters with the Unicode property `White_Space`.
pub open spec fn is_white(c: char) -> bool {
    let u = c as u32;
    ||| 9 <= u <= 13
    ||| u == 0x20
    ||| u == 0x85
    ||| u == 0xa0
    ||| u == 0x1680
    ||| 0x2000 <= u <= 0x200a
    ||| u == 0x2028
    ||| u == 0x2029
    ||| u == 0x202f
    ||| u == 0x205f
    ||| u == 0x3000
}

/// Whether `c` is white space.
pub fn white(c: char) -> (r: bool)
    ensures
        r == is_white(c),
{
    let u: u32 = c as u32;
    (9 <= u && u <= 13) || u == 0x20 || u == 0x85 || u == 0xa0 || u == 0x1680 || (0x2000 <= u && u
        <= 0x200a) || u == 0x2028 || u == 0x2029 || u == 0x202f || u == 0x205f || u == 0x3000
}

/// `s` without the white space it starts with.
pub open spec fn trim_start_of(s: Seq<char>) -> Seq<char>
    decreases s.len(),
{
    if s.len() > 0 && is_white(s[0]) {
        trim_start_of(s.skip(1))
    } else {
        s
    }
}

/// `s` without the white space it ends with.
pub open spec fn trim_end_of(s: Seq<char>) -> Seq<char>
    decreases s.len(),
{
    if s.len() > 0 && is_white(s.last()) {
        trim_end_of(s.drop_last())
    } else {
        s
    }
}

/// `s` without the white space at either end.
pub open spec fn trim_of(s: Seq<char>) -> Seq<char> {
    trim_end_of(trim_start_of(s))
}

/// `s` without the white space at either end.
pub fn trim(s: &str) -> (r: String)
    ensures
        r@ == trim_of(s@),
{
    let v = chars_of(s);
    let mut i: usize = 0;
    assert(s@.skip(0) == s@);
    while i < v.len() && white(v[i])
        invariant
            i <= v@.len(),
            v@ == s@,
            trim_start_of(s@) == trim_start_of(s@.skip(i as int)),
        decreases v@.len() - i,
    {
        assert(s@.skip(i as int).skip(1) == s@.skip(i + 1));
        i = i + 1;
    }
    let mut j: usize = v.len();
    assert(s@.subrange(i as int, j as int) == s@.skip(i as int));
    assert(trim_start_of(s@) == s@.skip(i as int));
    while i < j && white(v[j - 1])
        invariant
            i <= j <= v@.len(),
            v@ == s@,
            trim_of(s@) == trim_end_of(s@.subrange(i as int, j as int)),
        decreases j,
    {
        assert(s@.subrange(i as int, j as int).drop_last() == s@.subrange(i as int, j - 1));
        j = j - 1;
    }
    text_between(&v, i, j)
}

// ---------------------------------------------------------------------------
// Splitting and joining

/// The pieces of `s` between the occurrences of `sep`: one more than there are
/// occurrences.
pub open spec fn pieces(s: Seq<char>, sep: char) -> Seq<Seq<char>>
    decreases s.len(),
{
    if s.len() == 0 {
        seq![Seq::empty()]
    } else {
        let before = pieces(s.drop_last(), sep);
        if s.last() == sep {
            before.push(Seq::empty())
        } else {
            before.drop_last().push(before.last().push(s.last()))
        }
    }
}

/// Splits `s` at every `sep`.
pub fn split_on(s: &str, sep: char) -> (r: Vec<String>)
    ensures
        texts(r@) == pieces(s@, sep),
        r@.len() > 0,
{
    let v = chars_of(s);
    let mut done: Vec<String> = Vec::new();
    let mut current = String::new();
    assert(texts(done@).push(current@) == pieces(s@.take(0), sep));
    for i in 0..v.len()
        invariant
            v@ == s@,
            texts(done@).push(current@) == pieces(s@.take(i as int), sep),
    {
        let ghost before = texts(done@).push(current@);
        assert(before.drop_last() == texts(done@));
        assert(s@.take(i + 1).drop_last() == s@.take(i as int));
        if v[i] == sep {
            done.push(current);
            current = String::new();
            assert(texts(done@) == before);
        } else {
            current.push(v[i]);
        }
    }
    assert(s@.take(s@.len() as int) == s@);
    let ghost last = current@;
    let ghost earlier = texts(done@);
    done.push(current);
    assert(texts(done@) == earlier.push(last));
    done
}

/// The parts with `sep` between each two of them.
pub open spec fn joined(parts: Seq<Seq<char>>, sep: Seq<char>) -> Seq<char>
    decreases parts.len(),
{
    if parts.len() == 0 {
        Seq::empty()
    } else if parts.len() == 1 {
        parts[0]
    } else {
        joined(parts.drop_last(), sep) + sep + parts.last()
    }
}

/// Joins the parts with `sep` between each two of them.
pub fn join(parts: &Vec<String>, sep: &str) -> (r: String)
    ensures
        r@ == joined(texts(parts@), sep@),
{
    let mut r = String::new();
    for i in 0..parts.len()
        invariant
            r@ == joined(texts(parts@).take(i as int), sep@),
    {
        assert(texts(parts@).take(i + 1).drop_last() == texts(parts@).take(i as int));
        if i == 0 {
            r = parts[0].clone();
        } else {
            r.append(sep);
            r.append(parts[i].as_str());
        }
    }
    assert(texts(parts@).take(parts@.len() as int) == texts(parts@));
    r
}

/// A line without the carriage return that its line ending may have left.
pub open spec fn without_return(line: Seq<char>) -> Seq<char> {
    if line.len() > 0 && line.last() == '\r' {
        line.drop_last()
    } else {
        line
    }
}

/// The lines of `s`. A line ends at `\n` or `\r\n`; the last one needs no end,
/// and is there only if it is not empty.
pub open spec fn lines_of(s: Seq<char>) -> Seq<Seq<char>> {
    let parts = pieces(s, '\n');
    let ended = parts.drop_last().map_values(|line: Seq<char>| without_return(line));
    if parts.last().len() == 0 {
        ended
    } else {
        ended.push(parts.last())
    }
}

/// The lines of `s`.
pub fn lines(s: &str) -> (r: Vec<String>)
    ensures
        texts(r@) == lines_of(s@),
{
    let parts = split_on(s, '\n');
    let mut r: Vec<String> = Vec::new();
    let ghost ended = texts(parts@).drop_last().map_values(
        |line: Seq<char>| without_return(line),
    );
    let last: usize = parts.len() - 1;
    for i in 0..last
        invariant
            last == parts@.len() - 1,
            ended == texts(parts@).drop_last().map_values(|line: Seq<char>| without_return(line)),
            texts(r@) == ended.take(i as int),
    {
        let v = chars_of(parts[i].as_str());
        let ghost before = texts(r@);
        let line = if v.len() > 0 && v[v.len() - 1] == '\r' {
            text_between(&v, 0, v.len() - 1)
        } else {
            parts[i].clone()
        };
        assert(line@ == without_return(texts(parts@)[i as int]));
        r.push(line);
        assert(texts(r@) == before.push(line@));
        assert(ended.take(i + 1) == ended.take(i as int).push(ended[i as int]));
    }
    assert(ended.take(last as int) == ended);
    if !parts[last].as_str().is_empty() {
        let ghost before = texts(r@);
        r.push(parts[last].clone());
        assert(texts(r@) == before.push(texts(parts@).last()));
    }
    r
}

/// The runs of characters of `s` that are not white space.
pub open spec fn words_of(s: Seq<char>) -> Seq<Seq<char>>
    decreases s.len(),
{
    if s.len() == 0 {
        Seq::empty()
    } else {
        let before = words_of(s.drop_last());
        if is_white(s.last()) {
            before
        } else if s.len() == 1 || is_white(s[s.len() - 2]) {
            before.push(seq![s.last()])
        } else {
            before.drop_last().push(before.last().push(s.last()))
        }
    }
}

/// Splits `s` at white space.
pub fn words(s: &str) -> (r: Vec<String>)
    ensures
        texts(r@) == words_of(s@),
{
    let v = chars_of(s);
    let mut done: Vec<String> = Vec::new();
    let mut current = String::new();
    let mut open = false;
    for i in 0..v.len()
        invariant
            v@ == s@,
            open == (i > 0 && !is_white(s@[i - 1])),
            open ==> texts(done@).push(current@) == words_of(s@.take(i as int)),
            !open ==> texts(done@) == words_of(s@.take(i as int)),
            !open ==> current@.len() == 0,
    {
        let ghost now = s@.take(i + 1);
        assert(now.drop_last() == s@.take(i as int));
        assert(now.last() == s@[i as int]);
        let ghost before = texts(done@).push(current@);
        assert(before.drop_last() == texts(done@));
        if white(v[i]) {
            if open {
                done.push(current);
                current = String::new();
                open = false;
                assert(texts(done@) == before);
            }
        } else {
            current.push(v[i]);
            assert(!open ==> current@ == seq![s@[i as int]]);
            open = true;
        }
    }
    assert(s@.take(s@.len() as int) == s@);
    if open {
        let ghost before = texts(done@).push(current@);
        done.push(current);
        assert(texts(done@) == before);
    }
    done
}

/// Where `c` first occurs in `s`; the length of `s` if it does not.
pub open spec fn position_of(s: Seq<char>, c: char) -> nat
    decreases s.len(),
{
    if s.len() == 0 || s[0] == c {
        0
    } else {
        1 + position_of(s.skip(1), c)
    }
}

/// A character whose first position is the end does not occur.
pub proof fn lemma_position_absent(s: Seq<char>, c: char)
    ensures
        position_of(s, c) <= s.len(),
        position_of(s, c) == s.len() <==> !s.contains(c),
        forall|i: int| 0 <= i < position_of(s, c) ==> s[i] != c,
    decreases s.len(),
{
    if s.len() > 0 {
        let t = s.skip(1);
        lemma_position_absent(t, c);
        assert forall|i: int| 0 <= i < position_of(s, c) implies s[i] != c by {
            if i > 0 {
                assert(t[i - 1] == s[i]);
            }
        }
        if s.contains(c) && s[0] != c {
            let i = choose|i: int| 0 <= i < s.len() && s[i] == c;
            assert(t[i - 1] == c);
        }
        if t.contains(c) {
            let i = choose|i: int| 0 <= i < t.len() && t[i] == c;
            assert(s[i + 1] == c);
        }
    }
}

/// Finds the first occurrence of `c`.
pub fn position(v: &Vec<char>, c: char) -> (r: usize)
    ensures
        r == position_of(v@, c),
        r <= v@.len(),
        r < v@.len() ==> v@[r as int] == c,
{
    let mut i: usize = 0;
    assert(v@.skip(0) == v@);
    while i < v.len() && v[i] != c
        invariant
            i <= v@.len(),
            position_of(v@, c) == i + position_of(v@.skip(i as int), c),
        decreases v@.len() - i,
    {
        assert(v@.skip(i as int).skip(1) == v@.skip(i + 1));
        i = i + 1;
    }
    i
}

/// `s` cut at the first `sep`: what stands before it and what stands after it.
pub open spec fn cut_at(s: Seq<char>, sep: char) -> Option<(Seq<char>, Seq<char>)> {
    let i = position_of(s, sep) as int;
    if i < s.len() {
        Some((s.take(i), s.skip(i + 1)))
    } else {
        None
    }
}

/// Cuts `s` at the first `sep`.
pub fn split_once(s: &str, sep: char) -> (r: Option<(String, String)>)
    ensures
        match r {
            Some((before, after)) => cut_at(s@, sep) == Some((before@, after@)),
            None => cut_at(s@, sep) is None,
        },
{
    let v = chars_of(s);
    let i = position(&v, sep);
    if i < v.len() {
        let before = text_between(&v, 0, i);
        let after = text_between(&v, i + 1, v.len());
        assert(before@ == s@.take(i as int));
        assert(after@ == s@.skip(i + 1));
        Some((before, after))
    } else {
        None
    }
}

/// Whether `part` occurs in `s`.
pub open spec fn has_part(s: Seq<char>, part: Seq<char>) -> bool {
    exists|i: int|
        0 <= i && i + part.len() <= s.len() && #[trigger] s.subrange(i, i + part.len()) == part
}

/// Whether `part` occurs in `s`.
pub fn contains_text(s: &str, part: &str) -> (r: bool)
    ensures
        r == has_part(s@, part@),
{
    let v = chars_of(s);
    let p = chars_of(part);
    if v.len() < p.len() {
        return false;
    }
    let n: usize = p.len();
    if n == 0 {
        assert(s@.subrange(0, 0int + part@.len()) == part@);
        return true;
    }
    let last: usize = v.len() - n;
    for i in 0..last + 1
        invariant
            v@ == s@,
            p@ == part@,
            n == p@.len(),
            last + n == v@.len(),
            v@.len() <= usize::MAX,
            forall|k: int| 0 <= k < i ==> #[trigger] s@.subrange(k, k + part@.len()) != part@,
    {
        if same(text_between(&v, i, i + n).as_str(), part) {
            assert(s@.subrange(i as int, i + part@.len()) == part@);
            return true;
        }
    }
    false
}

// ---------------------------------------------------------------------------
// Numbers

/// The digit of value `d` in a base up to sixteen.
pub open spec fn digit_char(d: int) -> char {
    if d < 10 {
        ('0' as int + d) as char
    } else {
        ('a' as int + d - 10) as char
    }
}

/// `n` written in base `radix`, without leading zeros.
pub open spec fn number_text(n: nat, radix: nat) -> Seq<char>
    decreases n,
{
    if radix < 2 || n < radix {
        seq![digit_char(n as int)]
    } else {
        proof {
            lemma_quotient(n, radix);
        }
        number_text(n / radix, radix).push(digit_char((n % radix) as int))
    }
}

/// Dividing by the base leaves a smaller number and a digit.
pub proof fn lemma_quotient(n: nat, radix: nat)
    by (nonlinear_arith)
    requires
        2 <= radix <= n,
    ensures
        n / radix < n,
        n == (n / radix) * radix + n % radix,
        n % radix < radix,
{
}

fn digit(d: u64) -> (r: char)
    requires
        d < 16,
    ensures
        r == digit_char(d as int),
{
    if d < 10 {
        (48 + d as u8) as char
    } else {
        (87 + d as u8) as char
    }
}

fn number_in(n: u64, radix: u64) -> (r: String)
    requires
        2 <= radix <= 16,
    ensures
        r@ == number_text(n as nat, radix as nat),
    decreases n,
{
    if n < radix {
        let mut r = String::new();
        r.push(digit(n));
        r
    } else {
        proof {
            lemma_quotient(n as nat, radix as nat);
        }
        let mut r = number_in(n / radix, radix);
        r.push(digit(n % radix));
        r
    }
}

/// `n` in decimal.
pub open spec fn decimal_text(n: nat) -> Seq<char> {
    number_text(n, 10)
}

/// Writes `n` in decimal.
pub fn decimal(n: u64) -> (r: String)
    ensures
        r@ == decimal_text(n as nat),
{
    number_in(n, 10)
}

/// `n` in hexadecimal after `0x`.
pub open spec fn hex_text(n: nat) -> Seq<char> {
    "0x"@ + number_text(n, 16)
}

/// Writes `n` in hexadecimal after `0x`.
pub fn hex(n: u32) -> (r: String)
    ensures
        r@ == hex_text(n as nat),
{
    "0x".to_owned().concat(number_in(n as u64, 16).as_str())
}

/// Why a text is not a number.
#[derive(Debug, Clone, Copy, PartialEq, Eq, Structural)]
pub enum NumberError {
    /// There is no digit at all.
    Empty,
    /// A character is not a digit of the base.
    InvalidDigit,
    /// The number is too large.
    TooLarge,
}

/// The value of a digit in base ten or sixteen.
pub open spec fn digit_value(c: char, radix: nat) -> Option<nat> {
    if '0' <= c <= '9' {
        Some((c as int - '0' as int) as nat)
    } else if radix == 16 && 'a' <= c <= 'f' {
        Some((c as int - 'a' as int + 10) as nat)
    } else if radix == 16 && 'A' <= c <= 'F' {
        Some((c as int - 'A' as int + 10) as nat)
    } else {
        None
    }
}

/// The number that digits stand for, read from the left: the first digit that
/// is none, or that makes the number exceed `max`, ends it.
pub open spec fn digits_value(s: Seq<char>, radix: nat, max: nat) -> Result<nat, NumberError>
    decreases s.len(),
{
    if s.len() == 0 {
        Ok(0)
    } else {
        match digits_value(s.drop_last(), radix, max) {
            Err(e) => Err(e),
            Ok(before) => match digit_value(s.last(), radix) {
                None => Err(NumberError::InvalidDigit),
                Some(d) => if before * radix + d > max {
                    Err(NumberError::TooLarge)
                } else {
                    Ok(before * radix + d)
                },
            },
        }
    }
}

/// The unsigned number that `s` stands for: digits, after an optional `+`.
pub open spec fn number_value(s: Seq<char>, radix: nat, max: nat) -> Result<nat, NumberError> {
    if s.len() == 0 {
        Err(NumberError::Empty)
    } else if s == seq!['+'] {
        Err(NumberError::InvalidDigit)
    } else if s[0] == '+' {
        digits_value(s.skip(1), radix, max)
    } else {
        digits_value(s, radix, max)
    }
}

fn value_of_digit(c: char, radix: u64) -> (r: Option<u64>)
    requires
        radix == 10 || radix == 16,
    ensures
        match r {
            Some(d) => digit_value(c, radix as nat) == Some(d as nat) && d < radix,
            None => digit_value(c, radix as nat) is None,
        },
{
    let u: u32 = c as u32;
    if 48 <= u && u <= 57 {
        Some((u - 48) as u64)
    } else if radix == 16 && 97 <= u && u <= 102 {
        Some((u - 87) as u64)
    } else if radix == 16 && 65 <= u && u <= 70 {
        Some((u - 55) as u64)
    } else {
        None
    }
}

fn parse_number(v: &Vec<char>, radix: u64, max: u64) -> (r: Result<u64, NumberError>)
    requires
        radix == 10 || radix == 16,
    ensures
        match r {
            Ok(n) => number_value(v@, radix as nat, max as nat) == Ok::<nat, NumberError>(n as nat)
                && n <= max,
            Err(e) => number_value(v@, radix as nat, max as nat) == Err::<nat, NumberError>(e),
        },
{
    if v.len() == 0 {
        return Err(NumberError::Empty);
    }
    let from: usize = if v[0] == '+' {
        1
    } else {
        0
    };
    if from == 1 && v.len() == 1 {
        assert(v@ == seq!['+']);
        return Err(NumberError::InvalidDigit);
    }
    let ghost digits = v@.skip(from as int);
    assert(v@.skip(0) == v@);
    assert(number_value(v@, radix as nat, max as nat) == digits_value(
        digits,
        radix as nat,
        max as nat,
    ));
    let mut n: u64 = 0;
    for i in from..v.len()
        invariant
            radix == 10 || radix == 16,
            from <= v@.len(),
            digits == v@.skip(from as int),
            n <= max,
            number_value(v@, radix as nat, max as nat) == digits_value(
                digits,
                radix as nat,
                max as nat,
            ),
            digits_value(digits.take(i - from), radix as nat, max as nat) == Ok::<nat, NumberError>(
                n as nat,
            ),
    {
        let ghost now = digits.take(i - from + 1);
        assert(now.drop_last() == digits.take(i - from));
        assert(now.last() == v@[i as int]);
        match value_of_digit(v[i], radix) {
            None => {
                proof {
                    lemma_digits_stop(digits, i - from + 1, radix as nat, max as nat);
                }
                return Err(NumberError::InvalidDigit);
            },
            Some(d) => {
                let next: u128 = if radix == 10 {
                    n as u128 * 10 + d as u128
                } else {
                    n as u128 * 16 + d as u128
                };
                assert(next == (n as nat) * (radix as nat) + (d as nat));
                if next > max as u128 {
                    proof {
                        lemma_digits_stop(digits, i - from + 1, radix as nat, max as nat);
                    }
                    return Err(NumberError::TooLarge);
                }
                n = next as u64;
            },
        }
    }
    assert(digits.take(digits.len() as int) == digits);
    Ok(n)
}

/// Once the digits read so far are no number, reading on does not change why.
proof fn lemma_digits_stop(s: Seq<char>, n: int, radix: nat, max: nat)
    requires
        0 <= n <= s.len(),
        digits_value(s.take(n), radix, max) is Err,
    ensures
        digits_value(s, radix, max) == digits_value(s.take(n), radix, max),
    decreases s.len() - n,
{
    if n < s.len() {
        assert(s.take(n + 1).drop_last() == s.take(n));
        lemma_digits_stop(s, n + 1, radix, max);
    } else {
        assert(s.take(n) == s);
    }
}

/// Reads an unsigned 32-bit decimal number.
pub fn parse_u32(s: &str) -> (r: Result<u32, NumberError>)
    ensures
        match r {
            Ok(n) => number_value(s@, 10, u32::MAX as nat) == Ok::<nat, NumberError>(n as nat),
            Err(e) => number_value(s@, 10, u32::MAX as nat) == Err::<nat, NumberError>(e),
        },
{
    match parse_number(&chars_of(s), 10, u32::MAX as u64) {
        Ok(n) => Ok(n as u32),
        Err(e) => Err(e),
    }
}

/// Reads an unsigned 32-bit hexadecimal number.
pub fn parse_hex_u32(s: &str) -> (r: Result<u32, NumberError>)
    ensures
        match r {
            Ok(n) => number_value(s@, 16, u32::MAX as nat) == Ok::<nat, NumberError>(n as nat),
            Err(e) => number_value(s@, 16, u32::MAX as nat) == Err::<nat, NumberError>(e),
        },
{
    match parse_number(&chars_of(s), 16, u32::MAX as u64) {
        Ok(n) => Ok(n as u32),
        Err(e) => Err(e),
    }
}

/// Reads an unsigned 64-bit decimal number.
pub fn parse_u64(s: &str) -> (r: Result<u64, NumberError>)
    ensures
        match r {
            Ok(n) => number_value(s@, 10, u64::MAX as nat) == Ok::<nat, NumberError>(n as nat),
            Err(e) => number_value(s@, 10, u64::MAX as nat) == Err::<nat, NumberError>(e),
        },
{
    parse_number(&chars_of(s), 10, u64::MAX)
}

/// The decimal number that `s` stands for, up to `max`, where it is nothing but
/// digits.
pub open spec fn plain_number(s: Seq<char>, max: nat) -> Option<nat> {
    if s.len() == 0 || s[0] == '+' {
        None
    } else {
        match number_value(s, 10, max) {
            Ok(n) => Some(n),
            Err(_) => None,
        }
    }
}

/// Reads a decimal number, up to `max`, that is nothing but digits.
pub fn parse_plain(s: &str, max: u64) -> (r: Option<u64>)
    ensures
        match r {
            Some(n) => plain_number(s@, max as nat) == Some(n as nat) && n <= max,
            None => plain_number(s@, max as nat) is None,
        },
{
    let v = chars_of(s);
    if v.len() == 0 || v[0] == '+' {
        return None;
    }
    match parse_number(&v, 10, max) {
        Ok(n) => Some(n),
        Err(_) => None,
    }
}

// ---------------------------------------------------------------------------
// What holds of texts

/// A text without white space at its ends is what is left of it when that is
/// taken away.
pub proof fn trim_keeps(s: Seq<char>)
    requires
        s.len() > 0,
        !is_white(s[0]),
        !is_white(s.last()),
    ensures
        trim_of(s) == s,
{
}

/// What stands in a text is a part of it.
pub proof fn lemma_part(a: Seq<char>, part: Seq<char>, b: Seq<char>)
    ensures
        has_part(a + part + b, part),
{
    let s = a + part + b;
    let from = a.len() as int;
    assert(s.subrange(from, from + part.len()) =~= part);
}

/// A part of a part is a part.
pub proof fn lemma_part_of_part(s: Seq<char>, middle: Seq<char>, part: Seq<char>)
    requires
        has_part(s, middle),
        has_part(middle, part),
    ensures
        has_part(s, part),
{
    let i = choose|i: int|
        0 <= i <= s.len() - middle.len() && #[trigger] s.subrange(i, i + middle.len()) == middle;
    let j = choose|j: int|
        0 <= j <= middle.len() - part.len() && #[trigger] middle.subrange(j, j + part.len())
            == part;
    assert(s.subrange(i + j, i + j + part.len()) =~= part) by {
        assert forall|k: int| 0 <= k < part.len() implies s.subrange(i + j, i + j + part.len())[k]
            == part[k] by {
            assert(s.subrange(i, i + middle.len())[j + k] == middle[j + k]);
            assert(middle.subrange(j, j + part.len())[k] == part[k]);
        }
    }
}

/// What a text ends with is a part of it.
pub proof fn lemma_last_part(a: Seq<char>, part: Seq<char>)
    ensures
        has_part(a + part, part),
{
    lemma_part(a, part, Seq::empty());
    assert(a + part + Seq::empty() =~= a + part);
}

/// A part of a text is a part of every longer one.
pub proof fn lemma_earlier_part(a: Seq<char>, b: Seq<char>, part: Seq<char>)
    requires
        has_part(a, part),
    ensures
        has_part(a + b, part),
{
    lemma_part(Seq::empty(), a, b);
    assert(Seq::empty() + a + b =~= a + b);
    lemma_part_of_part(a + b, a, part);
}

/// The pieces of a text, put together again with the separator between them,
/// are the text.
pub proof fn pieces_join_back(s: Seq<char>, sep: char)
    ensures
        pieces(s, sep).len() > 0,
        joined(pieces(s, sep), seq![sep]) == s,
    decreases s.len(),
{
    if s.len() > 0 {
        let before = s.drop_last();
        pieces_join_back(before, sep);
        let parts = pieces(before, sep);
        let all = pieces(s, sep);
        if s.last() == sep {
            assert(all.drop_last() == parts);
            assert(joined(all, seq![sep]) =~= s);
        } else {
            let last = parts.last().push(s.last());
            assert(all.drop_last() == parts.drop_last());
            assert(all.last() == last);
            if parts.len() == 1 {
                assert(parts.last() == before);
                assert(joined(all, seq![sep]) =~= s);
            } else {
                assert(joined(all, seq![sep]) =~= joined(parts, seq![sep]).push(s.last()));
                assert(before.push(s.last()) =~= s);
            }
        }
    } else {
        assert(joined(pieces(s, sep), seq![sep]) =~= s);
    }
}

/// A digit reads back as its value.
proof fn lemma_digit(d: int, radix: nat)
    requires
        radix == 10 || radix == 16,
        0 <= d < radix,
    ensures
        digit_value(digit_char(d), radix) == Some(d as nat),
        digit_char(d) != '+',
        !is_white(digit_char(d)),
{
}

/// A number in decimal or in hexadecimal digits starts and ends with a digit.
pub proof fn number_text_ends(n: nat, radix: nat)
    requires
        radix == 10 || radix == 16,
    ensures
        number_text(n, radix).len() > 0,
        number_text(n, radix)[0] != '+',
        !is_white(number_text(n, radix)[0]),
        !is_white(number_text(n, radix).last()),
    decreases n,
{
    if n < radix {
        lemma_digit(n as int, radix);
    } else {
        lemma_quotient(n, radix);
        number_text_ends(n / radix, radix);
        lemma_digit((n % radix) as int, radix);
    }
}

/// The digits of a number read back as the number.
proof fn lemma_digits_back(n: nat, radix: nat, max: nat)
    requires
        radix == 10 || radix == 16,
        n <= max,
    ensures
        digits_value(number_text(n, radix), radix, max) == Ok::<nat, NumberError>(n),
    decreases n,
{
    let s = number_text(n, radix);
    if n < radix {
        lemma_digit(n as int, radix);
        assert(s.drop_last() =~= Seq::empty());
        assert(digits_value(s.drop_last(), radix, max) == Ok::<nat, NumberError>(0));
        assert(0 * radix + n == n);
    } else {
        lemma_quotient(n, radix);
        lemma_digits_back(n / radix, radix, max);
        lemma_digit((n % radix) as int, radix);
        assert(s.drop_last() =~= number_text(n / radix, radix));
    }
}

/// A number in decimal has nothing but decimal digits.
pub proof fn number_text_digits(n: nat)
    ensures
        forall|i: int|
            0 <= i < decimal_text(n).len() ==> '0' <= #[trigger] decimal_text(n)[i] <= '9',
    decreases n,
{
    if n >= 10 {
        lemma_quotient(n, 10);
        number_text_digits(n / 10);
        let s = decimal_text(n);
        assert forall|i: int| 0 <= i < s.len() implies '0' <= #[trigger] s[i] <= '9' by {
            if i < s.len() - 1 {
                assert(s[i] == decimal_text(n / 10)[i]);
            }
        }
    }
}

/// A number that was written, in decimal or in hexadecimal digits, reads back as
/// the number, wherever it is not too large.
pub proof fn number_reads_back(n: nat, radix: nat, max: nat)
    requires
        radix == 10 || radix == 16,
        n <= max,
    ensures
        number_value(number_text(n, radix), radix, max) == Ok::<nat, NumberError>(n),
        trim_of(number_text(n, radix)) == number_text(n, radix),
{
    number_text_ends(n, radix);
    lemma_digits_back(n, radix, max);
    trim_keeps(number_text(n, radix));
}

/// Where a text starts with `a` and a character, and with `b` and that
/// character, and neither holds it, both are the same.
pub proof fn lemma_same_start(s: Seq<char>, a: Seq<char>, b: Seq<char>, c: char)
    requires
        !a.contains(c),
        !b.contains(c),
        a.push(c).is_prefix_of(s),
        b.push(c).is_prefix_of(s),
    ensures
        a == b,
{
    assert(a.push(c)[a.len() as int] == c);
    assert(b.push(c)[b.len() as int] == c);
    assert(s[a.len() as int] == c);
    assert(s[b.len() as int] == c);
    if a.len() < b.len() {
        assert(b.push(c)[a.len() as int] == b[a.len() as int]);
        assert(b.contains(b[a.len() as int]));
    }
    if b.len() < a.len() {
        assert(a.push(c)[b.len() as int] == a[b.len() as int]);
        assert(a.contains(a[b.len() as int]));
    }
    assert forall|i: int| 0 <= i < a.len() implies a[i] == b[i] by {
        assert(a.push(c)[i] == s[i]);
        assert(b.push(c)[i] == s[i]);
    }
    assert(a =~= b);
}

/// Where the parts do not hold the character that the separator starts with,
/// and it is nowhere else in the separator, what was put together can be taken
/// apart again: only the same parts give the same text.
pub proof fn joined_once(a: Seq<Seq<char>>, b: Seq<Seq<char>>, sep: Seq<char>)
    requires
        a.len() > 0,
        b.len() > 0,
        sep.len() > 0,
        forall|i: int| 0 < i < sep.len() ==> #[trigger] sep[i] != sep[0],
        forall|i: int| 0 <= i < a.len() ==> !(#[trigger] a[i]).contains(sep[0]),
        forall|i: int| 0 <= i < b.len() ==> !(#[trigger] b[i]).contains(sep[0]),
        joined(a, sep) == joined(b, sep),
    ensures
        a == b,
    decreases a.len(),
{
    let s = joined(a, sep);
    if a.len() == 1 && b.len() == 1 {
        assert(a =~= b);
    } else if a.len() == 1 {
        let x = joined(b.drop_last(), sep);
        assert(s == x + sep + b.last());
        assert(s[x.len() as int] == sep[0]);
        assert(a[0].contains(sep[0]));
    } else if b.len() == 1 {
        let x = joined(a.drop_last(), sep);
        assert(s == x + sep + a.last());
        assert(s[x.len() as int] == sep[0]);
        assert(b[0].contains(sep[0]));
    } else {
        let x = joined(a.drop_last(), sep);
        let y = joined(b.drop_last(), sep);
        let l = a[a.len() - 1];
        let m = b[b.len() - 1];
        assert(s == x + sep + l);
        assert(s == y + sep + m);
        assert(s[x.len() as int] == sep[0]);
        assert(s[y.len() as int] == sep[0]);
        if x.len() < y.len() {
            let at = y.len() - x.len();
            if at < sep.len() {
                assert(s[y.len() as int] == sep[at]);
            } else {
                assert(s[y.len() as int] == l[at - sep.len()]);
                assert(l.contains(l[at - sep.len()]));
            }
        }
        if y.len() < x.len() {
            let at = x.len() - y.len();
            if at < sep.len() {
                assert(s[x.len() as int] == sep[at]);
            } else {
                assert(s[x.len() as int] == m[at - sep.len()]);
                assert(m.contains(m[at - sep.len()]));
            }
        }
        assert(x =~= s.take(x.len() as int));
        assert(y =~= s.take(y.len() as int));
        assert(l =~= s.skip((x.len() + sep.len()) as int));
        assert(m =~= s.skip((y.len() + sep.len()) as int));
        let p = a.drop_last();
        let q = b.drop_last();
        assert forall|i: int| 0 <= i < p.len() implies !(#[trigger] p[i]).contains(sep[0]) by {
            assert(p[i] == a[i]);
        }
        assert forall|i: int| 0 <= i < q.len() implies !(#[trigger] q[i]).contains(sep[0]) by {
            assert(q[i] == b[i]);
        }
        joined_once(p, q, sep);
        assert(a =~= p.push(l));
        assert(b =~= q.push(m));
    }
}

/// Only the same number gives the same decimal text.
pub proof fn decimal_once(m: nat, n: nat)
    requires
        decimal_text(m) == decimal_text(n),
    ensures
        m == n,
{
    number_reads_back(m, 10, m + n);
    number_reads_back(n, 10, m + n);
}

// ---------------------------------------------------------------------------
// What can be relied on

/// Taking away white space leaves a part of the text that neither starts nor
/// ends with any; what was taken away is nothing but white space.
pub proof fn trimming(s: Seq<char>)
    ensures
        trim_of(s).len() > 0 ==> !is_white(trim_of(s)[0]) && !is_white(trim_of(s).last()),
        exists|i: int, j: int|
            0 <= i <= j <= s.len() && trim_of(s) == #[trigger] s.subrange(i, j) && (forall|k: int|
                0 <= k < i || j <= k < s.len() ==> is_white(#[trigger] s[k])),
{
    lemma_trim_start(s);
    let i = choose|i: int|
        0 <= i <= s.len() && trim_start_of(s) == #[trigger] s.skip(i) && (forall|k: int|
            0 <= k < i ==> is_white(#[trigger] s[k])) && (i < s.len() ==> !is_white(s[i]));
    let t = s.skip(i);
    lemma_trim_end(t);
    let n = choose|n: int|
        0 <= n <= t.len() && trim_end_of(t) == #[trigger] t.take(n) && (forall|k: int|
            n <= k < t.len() ==> is_white(#[trigger] t[k])) && (n > 0 ==> !is_white(t[n - 1]));
    assert(s.subrange(i, i + n) =~= t.take(n));
    assert forall|k: int| 0 <= k < i || i + n <= k < s.len() implies is_white(#[trigger] s[k]) by {
        if k >= i {
            assert(t[k - i] == s[k]);
        }
    }
}

proof fn lemma_trim_start(s: Seq<char>)
    ensures
        exists|i: int|
            0 <= i <= s.len() && trim_start_of(s) == #[trigger] s.skip(i) && (forall|k: int|
                0 <= k < i ==> is_white(#[trigger] s[k])) && (i < s.len() ==> !is_white(s[i])),
    decreases s.len(),
{
    if s.len() > 0 && is_white(s[0]) {
        let t = s.skip(1);
        lemma_trim_start(t);
        let i = choose|i: int|
            0 <= i <= t.len() && trim_start_of(t) == #[trigger] t.skip(i) && (forall|k: int|
                0 <= k < i ==> is_white(#[trigger] t[k])) && (i < t.len() ==> !is_white(t[i]));
        assert(t.skip(i) =~= s.skip(i + 1));
        assert forall|k: int| 0 <= k < i + 1 implies is_white(#[trigger] s[k]) by {
            if k > 0 {
                assert(t[k - 1] == s[k]);
            }
        }
    } else {
        assert(s.skip(0) =~= s);
    }
}

proof fn lemma_trim_end(s: Seq<char>)
    ensures
        exists|n: int|
            0 <= n <= s.len() && trim_end_of(s) == #[trigger] s.take(n) && (forall|k: int|
                n <= k < s.len() ==> is_white(#[trigger] s[k])) && (n > 0 ==> !is_white(s[n - 1])),
    decreases s.len(),
{
    if s.len() > 0 && is_white(s.last()) {
        let t = s.drop_last();
        lemma_trim_end(t);
        let n = choose|n: int|
            0 <= n <= t.len() && trim_end_of(t) == #[trigger] t.take(n) && (forall|k: int|
                n <= k < t.len() ==> is_white(#[trigger] t[k])) && (n > 0 ==> !is_white(t[n - 1]));
        assert(t.take(n) =~= s.take(n));
        assert forall|k: int| n <= k < s.len() implies is_white(#[trigger] s[k]) by {
            if k < t.len() {
                assert(t[k] == s[k]);
            }
        }
    } else {
        assert(s.take(s.len() as int) =~= s);
    }
}

/// What is left has no more to take away.
pub proof fn trim_is_final(s: Seq<char>)
    ensures
        trim_of(trim_of(s)) == trim_of(s),
{
    trimming(s);
    if trim_of(s).len() > 0 {
        trim_keeps(trim_of(s));
    }
}

/// White space is the space, the tab, the line ends, and the other characters
/// that Unicode calls so.
pub proof fn white_space(c: char)
    ensures
        is_white(c) <==> {
            ||| c == ' '
            ||| c == '\t'
            ||| c == '\n'
            ||| c == '\r'
            ||| c as u32 == 11
            ||| c as u32 == 12
            ||| c as u32 == 133
            ||| c as u32 == 160
            ||| c as u32 == 5760
            ||| 8192 <= c as u32 <= 8202
            ||| c as u32 == 8232
            ||| c as u32 == 8233
            ||| c as u32 == 8239
            ||| c as u32 == 8287
            ||| c as u32 == 12288
        },
{
}

/// No number is read that is larger than asked for.
pub proof fn number_in_bounds(s: Seq<char>, radix: nat, max: nat)
    ensures
        match number_value(s, radix, max) {
            Ok(n) => n <= max,
            Err(_) => true,
        },
{
    lemma_digits_in_bounds(s, radix, max);
    if s.len() > 0 {
        lemma_digits_in_bounds(s.skip(1), radix, max);
    }
}

proof fn lemma_digits_in_bounds(s: Seq<char>, radix: nat, max: nat)
    ensures
        match digits_value(s, radix, max) {
            Ok(n) => n <= max,
            Err(_) => true,
        },
    decreases s.len(),
{
    if s.len() > 0 {
        lemma_digits_in_bounds(s.drop_last(), radix, max);
    }
}

proof fn lemma_some_piece(s: Seq<char>, sep: char)
    ensures
        pieces(s, sep).len() > 0,
    decreases s.len(),
{
    if s.len() > 0 {
        lemma_some_piece(s.drop_last(), sep);
    }
}

/// The first piece is what stands before the first separator, or all of the text
/// where there is none.
pub proof fn first_piece(s: Seq<char>, sep: char, i: int)
    requires
        0 <= i <= s.len(),
        i < s.len() ==> s[i] == sep,
        forall|j: int| 0 <= j < i ==> s[j] != sep,
    ensures
        pieces(s, sep)[0] == s.take(i),
        pieces(s, sep).len() == 1 <==> i == s.len(),
    decreases s.len(),
{
    if s.len() == 0 {
        assert(s.take(i) =~= Seq::empty());
    } else {
        let t = s.drop_last();
        lemma_some_piece(t, sep);
        if i == s.len() {
            first_piece(t, sep, i - 1);
            assert(s.last() == s[i - 1]);
            assert(t.take(i - 1) =~= t);
            assert(s.take(i) =~= t.push(s.last()));
        } else if i == s.len() - 1 {
            first_piece(t, sep, i);
            assert(s.take(i) =~= t.take(i));
        } else {
            first_piece(t, sep, i);
            assert(s.take(i) =~= t.take(i));
        }
    }
}

/// No piece holds the separator.
pub proof fn pieces_are_apart(s: Seq<char>, sep: char, i: int)
    requires
        0 <= i < pieces(s, sep).len(),
    ensures
        !pieces(s, sep)[i].contains(sep),
    decreases s.len(),
{
    if s.len() > 0 {
        let t = s.drop_last();
        let before = pieces(t, sep);
        lemma_some_piece(t, sep);
        if s.last() == sep {
            if i < before.len() {
                pieces_are_apart(t, sep, i);
            }
        } else if i < before.len() - 1 {
            pieces_are_apart(t, sep, i);
        } else {
            let last = before.last();
            pieces_are_apart(t, sep, before.len() - 1);
            if last.push(s.last()).contains(sep) {
                let k = choose|k: int| 0 <= k < last.len() + 1 && last.push(s.last())[k] == sep;
                if k < last.len() {
                    assert(last.contains(last[k]));
                }
            }
        }
    }
}

/// What stands before a separator is a piece of its own.
pub proof fn piece_by_piece(a: Seq<char>, rest: Seq<char>, sep: char)
    requires
        !a.contains(sep),
    ensures
        pieces(a, sep) == seq![a],
        pieces(a.push(sep) + rest, sep) == seq![a] + pieces(rest, sep),
    decreases rest.len(),
{
    assert forall|j: int| 0 <= j < a.len() implies a[j] != sep by {
        if a[j] == sep {
            assert(a.contains(sep));
        }
    }
    first_piece(a, sep, a.len() as int);
    assert(a.take(a.len() as int) =~= a);
    assert(pieces(a, sep) =~= seq![a]);
    let s = a.push(sep) + rest;
    if rest.len() == 0 {
        assert(s.drop_last() =~= a);
        assert(pieces(s, sep) =~= seq![a] + pieces(rest, sep));
    } else {
        let r = rest.drop_last();
        piece_by_piece(a, r, sep);
        lemma_some_piece(r, sep);
        assert(s.drop_last() =~= a.push(sep) + r);
        let x = pieces(a.push(sep) + r, sep);
        let y = pieces(r, sep);
        assert(x == seq![a] + y);
        assert(x.last() == y.last());
        assert(x.drop_last() =~= seq![a] + y.drop_last());
        assert(pieces(s, sep) =~= seq![a] + pieces(rest, sep));
    }
}

/// A text is read line by line: what stands before a line feed is a line,
/// without the carriage return before it; what stands after the last line feed
/// is one unless it is empty.
pub proof fn line_by_line(a: Seq<char>, rest: Seq<char>)
    requires
        !a.contains('\n'),
    ensures
        a.len() == 0 ==> lines_of(a) == Seq::<Seq<char>>::empty(),
        a.len() > 0 ==> lines_of(a) == seq![a],
        !(a.len() > 0 && a.last() == '\r') ==> lines_of(a.push('\n') + rest) == seq![a] + lines_of(
            rest,
        ),
        a.len() > 0 && a.last() == '\r' ==> lines_of(a.push('\n') + rest) == seq![a.drop_last()]
            + lines_of(rest),
{
    piece_by_piece(a, rest, '\n');
    lemma_some_piece(rest, '\n');
    let x = pieces(a.push('\n') + rest, '\n');
    let y = pieces(rest, '\n');
    assert(lines_of(a) =~= if a.len() == 0 {
        Seq::empty()
    } else {
        seq![a]
    });
    assert(x == seq![a] + y);
    assert(x.last() == y.last());
    assert(x.drop_last() =~= seq![a] + y.drop_last());
    assert(lines_of(a.push('\n') + rest) =~= seq![without_return(a)] + lines_of(rest));
}

/// A text is read word by word: white space that leads is passed over, and a
/// word goes on up to the next white space.
pub proof fn word_by_word(a: Seq<char>, c: char, rest: Seq<char>)
    requires
        is_white(c),
        forall|j: int| 0 <= j < a.len() ==> !is_white(#[trigger] a[j]),
    ensures
        a.len() == 0 ==> words_of(a.push(c) + rest) == words_of(rest),
        a.len() > 0 ==> words_of(a) == seq![a],
        a.len() > 0 ==> words_of(a.push(c) + rest) == seq![a] + words_of(rest),
    decreases rest.len(),
{
    lemma_one_word(a);
    let s = a.push(c) + rest;
    let head = if a.len() == 0 {
        Seq::empty()
    } else {
        seq![a]
    };
    if rest.len() == 0 {
        assert(s.drop_last() =~= a);
        assert(s.last() == c);
        assert(words_of(s) =~= head + words_of(rest));
    } else {
        let r = rest.drop_last();
        word_by_word(a, c, r);
        assert(s.drop_last() =~= a.push(c) + r);
        assert(words_of(s.drop_last()) =~= head + words_of(r));
        assert(s.last() == rest.last());
        if rest.len() == 1 {
            assert(s[s.len() - 2] == c);
            assert(words_of(s) =~= head + words_of(rest));
        } else {
            assert(s[s.len() - 2] == rest[rest.len() - 2]);
            if !is_white(rest.last()) && !is_white(rest[rest.len() - 2]) {
                lemma_word_is_open(r);
            }
            assert(words_of(s) =~= head + words_of(rest));
        }
    }
    assert(Seq::empty() + words_of(rest) =~= words_of(rest));
}

proof fn lemma_one_word(a: Seq<char>)
    requires
        forall|j: int| 0 <= j < a.len() ==> !is_white(#[trigger] a[j]),
    ensures
        a.len() == 0 ==> words_of(a) == Seq::<Seq<char>>::empty(),
        a.len() > 0 ==> words_of(a) == seq![a],
    decreases a.len(),
{
    if a.len() > 0 {
        let b = a.drop_last();
        lemma_one_word(b);
        assert(a =~= b.push(a.last()));
        assert(!is_white(a[a.len() - 1]));
        if a.len() == 1 {
            assert(a =~= seq![a.last()]);
            assert(words_of(a) =~= seq![a]);
        } else {
            assert(!is_white(a[a.len() - 2]));
            assert(words_of(b).drop_last() =~= Seq::empty());
            assert(words_of(a) =~= seq![a]);
        }
    }
}

proof fn lemma_word_is_open(s: Seq<char>)
    requires
        s.len() > 0,
        !is_white(s.last()),
    ensures
        words_of(s).len() > 0,
{
}

/// A text that has a part is put together from what stands before it, the part,
/// and what stands after it.
pub proof fn parts_are_found(s: Seq<char>, part: Seq<char>)
    requires
        has_part(s, part),
    ensures
        exists|x: Seq<char>, y: Seq<char>| s == #[trigger] (x + part + y),
{
    let i = choose|i: int|
        0 <= i && i + part.len() <= s.len() && #[trigger] s.subrange(i, i + part.len()) == part;
    let x = s.take(i);
    let y = s.skip(i + part.len());
    assert(s =~= x + part + y);
}

/// A text is cut at the first separator, and only where there is one.
pub proof fn cutting(a: Seq<char>, b: Seq<char>, sep: char)
    requires
        !a.contains(sep),
    ensures
        cut_at(a.push(sep) + b, sep) == Some((a, b)),
        cut_at(a, sep) is None,
{
    let s = a.push(sep) + b;
    lemma_position_absent(a, sep);
    lemma_position_absent(s, sep);
    let i = position_of(s, sep) as int;
    let n = a.len() as int;
    assert(s[n] == sep);
    if i > n {
        assert(s[n] != sep);
    }
    assert(s.contains(sep));
    lemma_position_found(s, sep);
    if i < n {
        assert(a[i] == sep);
        assert(a.contains(sep));
    }
    assert(s.take(n) =~= a);
    assert(s.skip(n + 1) =~= b);
}

/// The position that is found holds the character.
pub proof fn lemma_position_found(s: Seq<char>, sep: char)
    ensures
        position_of(s, sep) < s.len() ==> s[position_of(s, sep) as int] == sep,
    decreases s.len(),
{
    if s.len() > 0 && s[0] != sep {
        lemma_position_found(s.skip(1), sep);
    }
}

/// One part more comes after a separator, and the first needs none.
pub proof fn joining(parts: Seq<Seq<char>>, part: Seq<char>, sep: Seq<char>)
    ensures
        joined(Seq::empty(), sep) == Seq::<char>::empty(),
        joined(seq![part], sep) == part,
        parts.len() > 0 ==> joined(parts.push(part), sep) == joined(parts, sep) + sep + part,
{
    assert(parts.push(part).drop_last() =~= parts);
}

/// The digits, in decimal and in hexadecimal.
pub proof fn digits()
    ensures
        digit_char(0) == '0' && digit_char(1) == '1' && digit_char(2) == '2' && digit_char(3) == '3',
        digit_char(4) == '4' && digit_char(5) == '5' && digit_char(6) == '6' && digit_char(7) == '7',
        digit_char(8) == '8' && digit_char(9) == '9' && digit_char(10) == 'a' && digit_char(11)
            == 'b',
        digit_char(12) == 'c' && digit_char(13) == 'd' && digit_char(14) == 'e' && digit_char(15)
            == 'f',
{
}

/// A number is written digit by digit: one below the base is its digit, and a
/// further digit goes to the end.
pub proof fn digit_by_digit(n: nat, d: nat, radix: nat)
    requires
        radix == 10 || radix == 16,
        d < radix,
    ensures
        number_text(d, radix) == seq![digit_char(d as int)],
        n > 0 ==> number_text(n * radix + d, radix) == number_text(n, radix).push(
            digit_char(d as int),
        ),
{
    if n > 0 {
        let m = n * radix + d;
        if radix == 10 {
            assert(m == n * 10 + d);
            assert(m / 10 == n && m % 10 == d);
        } else {
            assert(m == n * 16 + d);
            assert(m / 16 == n && m % 16 == d);
        }
    }
}

/// A mark is written in hexadecimal, after what says so; a table and a count in
/// decimal.
pub proof fn bases(n: nat)
    ensures
        hex_text(n) == "0x"@ + number_text(n, 16),
        decimal_text(n) == number_text(n, 10),
{
}

/// Each digit stands for its value; letters count in hexadecimal alone, large
/// and small ones alike, and nothing else is a digit.
pub proof fn digits_have_values(d: nat, c: char)
    ensures
        d < 10 ==> digit_value(digit_char(d as int), 10) == Some(d),
        d < 16 ==> digit_value(digit_char(d as int), 16) == Some(d),
        digit_value('A', 16) == Some(10nat) && digit_value('B', 16) == Some(11nat) && digit_value(
            'C',
            16,
        ) == Some(12nat),
        digit_value('D', 16) == Some(13nat) && digit_value('E', 16) == Some(14nat) && digit_value(
            'F',
            16,
        ) == Some(15nat),
        !('0' <= c <= '9') ==> digit_value(c, 10) is None,
        !('0' <= c <= '9') && !('a' <= c <= 'f') && !('A' <= c <= 'F') ==> digit_value(c, 16) is None,
{
    if d < 10 {
        lemma_digit(d as int, 10);
    }
    if d < 16 {
        lemma_digit(d as int, 16);
    }
}

/// A number is read digit by digit: a further digit makes it its base times as
/// large and adds its value; what is no digit, and what makes it too large, is an
/// error that stays.
pub proof fn reading_digit_by_digit(s: Seq<char>, c: char, radix: nat, max: nat)
    requires
        s.len() > 0,
        s[0] != '+',
    ensures
        ({
            let before = number_value(s, radix, max);
            let after = number_value(s.push(c), radix, max);
            let d = digit_value(c, radix);
            &&& before is Err ==> after == before
            &&& before is Ok && d is None ==> after == Err::<nat, NumberError>(
                NumberError::InvalidDigit,
            )
            &&& before is Ok && d is Some && (before->Ok_0) * radix + d->0 > max ==> after == Err::<
                nat,
                NumberError,
            >(NumberError::TooLarge)
            &&& before is Ok && d is Some && (before->Ok_0) * radix + d->0 <= max ==> after == Ok::<
                nat,
                NumberError,
            >(((before->Ok_0) * radix + d->0) as nat)
        }),
{
    assert(s.push(c).drop_last() =~= s);
    assert(s.push(c)[0] == s[0]);
    assert(seq!['+'][0] == '+');
}

/// A number may have a plus sign before it, which changes nothing; nothing at
/// all, and a plus sign alone, is no number.
pub proof fn signs(s: Seq<char>, radix: nat, max: nat)
    ensures
        number_value(Seq::empty(), radix, max) == Err::<nat, NumberError>(NumberError::Empty),
        number_value(seq!['+'], radix, max) == Err::<nat, NumberError>(NumberError::InvalidDigit),
        s.len() > 0 && s[0] != '+' ==> number_value(seq!['+'] + s, radix, max) == number_value(
            s,
            radix,
            max,
        ),
{
    if s.len() > 0 {
        let t = seq!['+'] + s;
        assert(t.skip(1) =~= s);
        assert(t.len() > 1);
        assert(seq!['+'].len() == 1);
    }
}

/// A port or a scope is read as it is written, unless it is too large; a plus
/// sign is not taken there.
pub proof fn plain_numbers(n: nat, max: nat, s: Seq<char>)
    ensures
        n <= max ==> plain_number(decimal_text(n), max) == Some(n),
        s.len() == 0 ==> plain_number(s, max) is None,
        plain_number(seq!['+'] + s, max) is None,
        plain_number(s, max) is Some ==> plain_number(s, max)->0 <= max,
{
    number_text_ends(n, 10);
    if n <= max {
        number_reads_back(n, 10, max);
    }
    assert((seq!['+'] + s)[0] == '+');
    number_in_bounds(s, 10, max);
}

/// A number in hexadecimal digits has no slash.
pub proof fn hex_has_no_slash(n: nat)
    ensures
        !hex_text(n).contains('/'),
{
    reveal_strlit("0x");
    lemma_no_slash(n);
    let s = hex_text(n);
    if s.contains('/') {
        let k = choose|k: int| 0 <= k < s.len() && s[k] == '/';
        if k >= 2 {
            let d = number_text(n, 16);
            assert(s[k] == d[k - 2]);
            assert(d.contains(d[k - 2]));
        }
    }
}

proof fn lemma_no_slash(n: nat)
    ensures
        !number_text(n, 16).contains('/'),
    decreases n,
{
    let s = number_text(n, 16);
    if n >= 16 {
        lemma_quotient(n, 16);
        lemma_no_slash(n / 16);
        let t = number_text(n / 16, 16);
        if s.contains('/') {
            let k = choose|k: int| 0 <= k < s.len() && s[k] == '/';
            if k < t.len() {
                assert(t.contains(t[k]));
            }
        }
    }
}

} // verus!
