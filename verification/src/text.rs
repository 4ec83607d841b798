//! Characters, decimal numbers and the pieces of a line of text.
//!
//! Text is modelled as a sequence of characters. The functions here read a
//! `&str` once into a vector of characters and then work on positions in it.
use vstd::prelude::*;
use vstd::std_specs::iter::IteratorSpec;

verus! {

/// Whether `c` is white space: the characters that trimming removes.
pub open spec fn is_space(c: char) -> bool {
    let n = c as u32;
    ||| 0x09 <= n <= 0x0D
    ||| n == 0x20
    ||| n == 0x85
    ||| n == 0xA0
    ||| n == 0x1680
    ||| 0x2000 <= n <= 0x200A
    ||| n == 0x2028
    ||| n == 0x2029
    ||| n == 0x202F
    ||| n == 0x205F
    ||| n == 0x3000
}

/// `s` without the white space at its start.
pub open spec fn trim_start(s: Seq<char>) -> Seq<char>
    decreases s.len(),
{
    if s.len() > 0 && is_space(s[0]) {
        trim_start(s.drop_first())
    } else {
        s
    }
}

/// `s` without the white space at its end.
pub open spec fn trim_end(s: Seq<char>) -> Seq<char>
    decreases s.len(),
{
    if s.len() > 0 && is_space(s.last()) {
        trim_end(s.drop_last())
    } else {
        s
    }
}

/// `s` without the white space at either end.
pub open spec fn trim(s: Seq<char>) -> Seq<char> {
    trim_end(trim_start(s))
}

/// The position of the first `c` in `s`, or the length of `s` if it holds none.
pub open spec fn position_of(s: Seq<char>, c: char) -> int
    decreases s.len(),
{
    if s.len() == 0 || s[0] == c {
        0
    } else {
        1 + position_of(s.drop_first(), c)
    }
}

/// The pieces of `s` between the occurrences of `sep`. A text without `sep`
/// is one piece; `n` separators give `n + 1` pieces, some of them maybe empty.
pub open spec fn split(s: Seq<char>, sep: char) -> Seq<Seq<char>>
    decreases s.len(),
{
    let at = position_of(s, sep);
    if 0 <= at < s.len() {
        seq![s.take(at)] + split(s.skip(at + 1), sep)
    } else {
        seq![s]
    }
}

/// Whether `c` is one of the ten decimal digits.
pub open spec fn is_digit(c: char) -> bool {
    0x30 <= c as u32 <= 0x39
}

/// The number that the digit `c` stands for.
pub open spec fn digit_value(c: char) -> nat {
    if is_digit(c) {
        (c as u32 - 0x30) as nat
    } else {
        0
    }
}

/// Whether `s` holds decimal digits only.
pub open spec fn all_digits(s: Seq<char>) -> bool {
    forall|i: int| 0 <= i < s.len() ==> is_digit(#[trigger] s[i])
}

/// The number that the digits of `s` write in base ten.
pub open spec fn digits_value(s: Seq<char>) -> nat
    decreases s.len(),
{
    if s.len() == 0 {
        0
    } else {
        digits_value(s.drop_last()) * 10 + digit_value(s.last())
    }
}

/// The 16-bit number that `s` writes: an optional `+`, then one digit or
/// more, leading zeros allowed, the whole no larger than 65535. Anything
/// else is no number.
pub open spec fn parse_u16(s: Seq<char>) -> Option<u16> {
    let digits = if s.len() > 0 && s[0] == '+' {
        s.drop_first()
    } else {
        s
    };
    if digits.len() > 0 && all_digits(digits) && digits_value(digits) <= u16::MAX {
        Some(digits_value(digits) as u16)
    } else {
        None
    }
}

/// The character that writes the digit `d`.
pub open spec fn digit_char(d: nat) -> char {
    if d == 0 {
        '0'
    } else if d == 1 {
        '1'
    } else if d == 2 {
        '2'
    } else if d == 3 {
        '3'
    } else if d == 4 {
        '4'
    } else if d == 5 {
        '5'
    } else if d == 6 {
        '6'
    } else if d == 7 {
        '7'
    } else if d == 8 {
        '8'
    } else {
        '9'
    }
}

/// `n` written in base ten, without leading zeros.
pub open spec fn decimal(n: nat) -> Seq<char>
    decreases n,
{
    if n < 10 {
        seq![digit_char(n)]
    } else {
        decimal(n / 10).push(digit_char(n % 10))
    }
}

/// A prefix of a run of digits writes a number no larger than the whole run.
pub proof fn lemma_digits_value_grows(s: Seq<char>, k: int)
    requires
        0 <= k <= s.len(),
    ensures
        digits_value(s.take(k)) <= digits_value(s),
    decreases s.len() - k,
{
    if k == s.len() {
        assert(s.take(k) == s);
    } else {
        lemma_digits_value_grows(s, k + 1);
        assert(s.take(k + 1).drop_last() == s.take(k));
    }
}

/// Where no `c` stands before position `n` of `s`, and one stands there or
/// `s` ends there, `n` is the position of the first `c`.
pub proof fn lemma_position_of(s: Seq<char>, c: char, n: int)
    requires
        0 <= n <= s.len(),
        forall|i: int| 0 <= i < n ==> s[i] != c,
        n == s.len() || s[n] == c,
    ensures
        position_of(s, c) == n,
    decreases s.len(),
{
    if n > 0 {
        let rest = s.drop_first();
        assert forall|i: int| 0 <= i < n - 1 implies rest[i] != c by {
            assert(rest[i] == s[i + 1]);
        }
        lemma_position_of(rest, c, n - 1);
    }
}

/// A text splits into one piece at least.
pub proof fn lemma_split_is_not_empty(s: Seq<char>, sep: char)
    ensures
        split(s, sep).len() >= 1,
{
}

/// The characters of `s`, in a vector.
pub fn chars_of(s: &str) -> (v: Vec<char>)
    ensures
        v@ == s@,
{
    broadcast use vstd::string::group_string_axioms;

    let mut v: Vec<char> = Vec::new();
    let mut it = s.chars();
    loop
        invariant
            it.obeys_prophetic_iter_laws(),
            it.decrease() is Some,
            v@ + it.remaining() == s@,
        ensures
            v@ == s@,
        decreases it.decrease()->0,
    {
        match it.next() {
            Some(c) => {
                v.push(c);
            },
            None => {
                break ;
            },
        }
    }
    v
}

/// Whether `c` is white space.
pub fn char_is_space(c: char) -> (r: bool)
    ensures
        r == is_space(c),
{
    let n: u32 = c as u32;
    (0x09 <= n && n <= 0x0D) || n == 0x20 || n == 0x85 || n == 0xA0 || n == 0x1680 || (0x2000 <= n
        && n <= 0x200A) || n == 0x2028 || n == 0x2029 || n == 0x202F || n == 0x205F || n == 0x3000
}

/// The bounds of the piece `text[from..to]` once trimmed: the first position
/// that holds no white space, and the position after the last one that holds
/// none.
pub fn trim_bounds(text: &Vec<char>, from: usize, to: usize) -> (r: (usize, usize))
    requires
        from <= to <= text.len(),
    ensures
        from <= r.0 <= r.1 <= to,
        text@.subrange(r.0 as int, r.1 as int) == trim(text@.subrange(from as int, to as int)),
{
    let mut a: usize = from;
    while a < to && char_is_space(text[a])
        invariant
            from <= a <= to <= text.len(),
            trim_start(text@.subrange(from as int, to as int)) == trim_start(
                text@.subrange(a as int, to as int),
            ),
        decreases to - a,
    {
        proof {
            let piece = text@.subrange(a as int, to as int);
            assert(piece.drop_first() == text@.subrange(a + 1, to as int));
        }
        a = a + 1;
    }
    let mut b: usize = to;
    while a < b && char_is_space(text[b - 1])
        invariant
            from <= a <= b <= to <= text.len(),
            trim_end(text@.subrange(a as int, to as int)) == trim_end(
                text@.subrange(a as int, b as int),
            ),
        decreases b - a,
    {
        proof {
            let piece = text@.subrange(a as int, b as int);
            assert(piece.drop_last() == text@.subrange(a as int, b - 1));
        }
        b = b - 1;
    }
    (a, b)
}

/// The first position at or after `from`, and before `to`, that holds `c`;
/// `to` if there is none.
pub fn find_char(text: &Vec<char>, from: usize, to: usize, c: char) -> (r: usize)
    requires
        from <= to <= text.len(),
    ensures
        from <= r <= to,
        r - from == position_of(text@.subrange(from as int, to as int), c),
        r < to ==> text[r as int] == c,
        forall|i: int| from <= i < r ==> text[i] != c,
{
    let mut i: usize = from;
    while i < to && text[i] != c
        invariant
            from <= i <= to <= text.len(),
            forall|k: int| from <= k < i ==> text[k] != c,
        decreases to - i,
    {
        i = i + 1;
    }
    proof {
        lemma_position_of(text@.subrange(from as int, to as int), c, i - from);
    }
    i
}

/// The 16-bit number that `text[from..to]` writes, if it writes one.
pub fn read_u16(text: &Vec<char>, from: usize, to: usize) -> (r: Option<u16>)
    requires
        from <= to <= text.len(),
    ensures
        r == parse_u16(text@.subrange(from as int, to as int)),
{
    let ghost piece = text@.subrange(from as int, to as int);
    let ghost expected = parse_u16(piece);
    let start: usize = if from < to && text[from] == '+' {
        from + 1
    } else {
        from
    };
    let ghost digits = text@.subrange(start as int, to as int);
    assert(digits == if piece.len() > 0 && piece[0] == '+' {
        piece.drop_first()
    } else {
        piece
    });
    if start == to {
        return None;
    }
    let mut value: u32 = 0;
    let mut i: usize = start;
    while i < to
        invariant
            start <= i <= to <= text.len(),
            digits == text@.subrange(start as int, to as int),
            expected == parse_u16(text@.subrange(from as int, to as int)),
            expected == if all_digits(digits) && digits_value(digits) <= u16::MAX {
                Some(digits_value(digits) as u16)
            } else {
                None
            },
            all_digits(digits.take(i - start)),
            value == digits_value(digits.take(i - start)),
            value <= u16::MAX,
        decreases to - i,
    {
        let c = text[i];
        let n: u32 = c as u32;
        if n < 0x30 || n > 0x39 {
            assert(!is_digit(digits[i - start]));
            return None;
        }
        let next: u32 = value * 10 + (n - 0x30);
        proof {
            let upto = digits.take(i - start + 1);
            assert(upto.drop_last() == digits.take(i - start));
            assert(upto.last() == c);
            assert(digit_value(c) == n - 0x30);
            assert(next == digits_value(upto));
            assert forall|k: int| 0 <= k < upto.len() implies is_digit(#[trigger] upto[k]) by {
                if k < i - start {
                    assert(digits.take(i - start)[k] == upto[k]);
                }
            }
        }
        if next > 65535 {
            proof {
                lemma_digits_value_grows(digits, i - start + 1);
            }
            return None;
        }
        value = next;
        i = i + 1;
    }
    assert(digits.take(to - start) == digits);
    Some(value as u16)
}

/// Whether `needle` stands somewhere in `hay`, character by character.
pub open spec fn has_infix(hay: Seq<char>, needle: Seq<char>) -> bool {
    exists|at: int|
        0 <= at <= hay.len() - needle.len() && #[trigger] hay.subrange(at, at + needle.len())
            == needle
}

/// The character that begins an escape sequence of the terminal.
pub open spec fn escape() -> char {
    '\u{1b}'
}

/// Whether `s` holds no `c`.
pub open spec fn free_of(s: Seq<char>, c: char) -> bool {
    forall|i: int| 0 <= i < s.len() ==> s[i] != c
}

/// A text without `c` holds no text that begins with `c`.
pub proof fn lemma_free_of_has_no_infix(s: Seq<char>, needle: Seq<char>, c: char)
    requires
        free_of(s, c),
        needle.len() > 0,
        needle[0] == c,
    ensures
        !has_infix(s, needle),
{
    if has_infix(s, needle) {
        let at = choose|at: int|
            0 <= at <= s.len() - needle.len() && #[trigger] s.subrange(at, at + needle.len())
                == needle;
        assert(s.subrange(at, at + needle.len())[0] == s[at]);
    }
}

/// A number in base ten holds digits only, so no escape character.
pub proof fn lemma_decimal_has_no_escape(n: nat)
    ensures
        free_of(decimal(n), escape()),
    decreases n,
{
    if n >= 10 {
        lemma_decimal_has_no_escape(n / 10);
    }
}

/// Whether `needle` stands at position `at` of `hay`.
pub fn stands_at(hay: &Vec<char>, needle: &Vec<char>, at: usize) -> (r: bool)
    requires
        at + needle.len() <= hay.len(),
    ensures
        r == (hay@.subrange(at as int, at + needle.len()) == needle@),
{
    let mut k: usize = 0;
    while k < needle.len()
        invariant
            k <= needle.len(),
            at + needle.len() <= hay.len(),
            forall|j: int| 0 <= j < k ==> hay[at + j] == needle[j],
        decreases needle.len() - k,
    {
        if hay[at + k] != needle[k] {
            assert(hay@.subrange(at as int, at + needle.len())[k as int] != needle@[k as int]);
            return false;
        }
        k = k + 1;
    }
    assert(hay@.subrange(at as int, at + needle.len()) =~= needle@);
    true
}

/// Whether `needle` stands somewhere in `hay`.
pub fn contains_text(hay: &str, needle: &str) -> (r: bool)
    ensures
        r == has_infix(hay@, needle@),
{
    let hay_chars = chars_of(hay);
    let needle_chars = chars_of(needle);
    if needle_chars.len() > hay_chars.len() {
        return false;
    }
    let last = hay_chars.len() - needle_chars.len();
    let mut at: usize = 0;
    loop
        invariant
            at <= last,
            last == hay_chars.len() - needle_chars.len(),
            hay_chars@ == hay@,
            needle_chars@ == needle@,
            forall|j: int|
                0 <= j < at ==> #[trigger] hay@.subrange(j, j + needle@.len()) != needle@,
        decreases last - at,
    {
        if stands_at(&hay_chars, &needle_chars, at) {
            return true;
        }
        if at == last {
            return false;
        }
        at = at + 1;
    }
}

/// The texts of some strings.
pub open spec fn texts(strings: Seq<String>) -> Seq<Seq<char>> {
    Seq::new(strings.len(), |i: int| strings[i]@)
}

/// The pieces of `pieces` that hold more than white space, each trimmed.
pub open spec fn trimmed_pieces(pieces: Seq<Seq<char>>) -> Seq<Seq<char>>
    decreases pieces.len(),
{
    if pieces.len() == 0 {
        Seq::empty()
    } else if trim(pieces.last()).len() == 0 {
        trimmed_pieces(pieces.drop_last())
    } else {
        trimmed_pieces(pieces.drop_last()).push(trim(pieces.last()))
    }
}

/// A line without the carriage return at its end, if it has one.
pub open spec fn without_return(line: Seq<char>) -> Seq<char> {
    if line.len() > 0 && line.last() == '\r' {
        line.drop_last()
    } else {
        line
    }
}

/// The pieces of `pieces` that hold more than white space, each as it
/// stands but for a carriage return at its end.
pub open spec fn filled_lines(pieces: Seq<Seq<char>>) -> Seq<Seq<char>>
    decreases pieces.len(),
{
    if pieces.len() == 0 {
        Seq::empty()
    } else if trim(pieces.last()).len() == 0 {
        filled_lines(pieces.drop_last())
    } else {
        filled_lines(pieces.drop_last()).push(without_return(pieces.last()))
    }
}

/// The pieces of `s` between the occurrences of `sep`, each as a string.
pub fn split_text(s: &str, sep: char) -> (pieces: Vec<String>)
    ensures
        texts(pieces@) == split(s@, sep),
{
    let chars = chars_of(s);
    let n = chars.len();
    let mut pieces: Vec<String> = Vec::new();
    let mut pos: usize = 0;
    assert(chars@.skip(0) == s@);
    assert(texts(pieces@) + split(chars@.skip(0), sep) =~= split(s@, sep));
    loop
        invariant_except_break
            texts(pieces@) + split(chars@.skip(pos as int), sep) == split(s@, sep),
        invariant
            chars@ == s@,
            n == chars.len(),
            pos <= n,
        ensures
            texts(pieces@) == split(s@, sep),
        decreases n - pos,
    {
        let ghost rest = chars@.skip(pos as int);
        let ghost before = pieces@;
        let at = find_char(&chars, pos, n, sep);
        let piece = String::from_str(s.substring_char(pos, at));
        pieces.push(piece);
        proof {
            assert(rest == chars@.subrange(pos as int, n as int));
            assert(rest.take(at - pos) == chars@.subrange(pos as int, at as int));
            assert(texts(pieces@) =~= texts(before).push(piece@));
            if at < n {
                assert(rest.skip(at - pos + 1) == chars@.skip(at + 1));
                assert(texts(pieces@) + split(chars@.skip(at + 1), sep) =~= texts(before) + split(
                    rest,
                    sep,
                ));
            } else {
                assert(rest.take(at - pos) == rest);
                assert(texts(pieces@) =~= texts(before) + split(rest, sep));
            }
        }
        if at == n {
            break ;
        }
        pos = at + 1;
    }
    pieces
}

/// `s` without the white space at either end.
pub fn trimmed(s: &str) -> (r: String)
    ensures
        r@ == trim(s@),
{
    let chars = chars_of(s);
    let (a, b) = trim_bounds(&chars, 0, chars.len());
    assert(chars@.subrange(0, chars.len() as int) == s@);
    String::from_str(s.substring_char(a, b))
}

/// The pieces of `s` between the occurrences of `sep` that hold more than
/// white space, each trimmed.
pub fn split_trimmed(s: &str, sep: char) -> (r: Vec<String>)
    ensures
        texts(r@) == trimmed_pieces(split(s@, sep)),
{
    let pieces = split_text(s, sep);
    let mut r: Vec<String> = Vec::new();
    let mut i: usize = 0;
    while i < pieces.len()
        invariant
            i <= pieces.len(),
            texts(r@) == trimmed_pieces(texts(pieces@).take(i as int)),
        decreases pieces.len() - i,
    {
        let ghost before = r@;
        let piece = trimmed(pieces[i].as_str());
        proof {
            let upto = texts(pieces@).take(i + 1);
            assert(upto.drop_last() == texts(pieces@).take(i as int));
            assert(upto.last() == pieces[i as int]@);
        }
        if !piece.as_str().is_empty() {
            r.push(piece);
            assert(texts(r@) =~= texts(before).push(piece@));
        }
        i = i + 1;
    }
    assert(texts(pieces@).take(i as int) == texts(pieces@));
    r
}

/// The lines of `s` that hold more than white space, each as it stands. A
/// line ends with a line feed, or with a carriage return and a line feed.
pub fn split_lines(s: &str) -> (r: Vec<String>)
    ensures
        texts(r@) == filled_lines(split(s@, '\n')),
{
    let pieces = split_text(s, '\n');
    let mut r: Vec<String> = Vec::new();
    let mut i: usize = 0;
    while i < pieces.len()
        invariant
            i <= pieces.len(),
            texts(r@) == filled_lines(texts(pieces@).take(i as int)),
        decreases pieces.len() - i,
    {
        let ghost before = r@;
        let piece = pieces[i].as_str();
        let chars = chars_of(piece);
        let n = chars.len();
        let (a, b) = trim_bounds(&chars, 0, n);
        proof {
            let upto = texts(pieces@).take(i + 1);
            assert(upto.drop_last() == texts(pieces@).take(i as int));
            assert(upto.last() == pieces[i as int]@);
            assert(chars@.subrange(0, n as int) == piece@);
        }
        if a < b {
            let end = if chars[n - 1] == '\r' {
                n - 1
            } else {
                n
            };
            let line = String::from_str(piece.substring_char(0, end));
            assert(line@ == without_return(piece@));
            r.push(line);
            assert(texts(r@) =~= texts(before).push(line@));
        }
        i = i + 1;
    }
    assert(texts(pieces@).take(i as int) == texts(pieces@));
    r
}

/// The text of one decimal digit.
fn digit_text(d: u16) -> (r: &'static str)
    requires
        d < 10,
    ensures
        r@ == seq![digit_char(d as nat)],
{
    proof {
        reveal_strlit("0");
        reveal_strlit("1");
        reveal_strlit("2");
        reveal_strlit("3");
        reveal_strlit("4");
        reveal_strlit("5");
        reveal_strlit("6");
        reveal_strlit("7");
        reveal_strlit("8");
        reveal_strlit("9");
    }
    let r = if d == 0 {
        "0"
    } else if d == 1 {
        "1"
    } else if d == 2 {
        "2"
    } else if d == 3 {
        "3"
    } else if d == 4 {
        "4"
    } else if d == 5 {
        "5"
    } else if d == 6 {
        "6"
    } else if d == 7 {
        "7"
    } else if d == 8 {
        "8"
    } else {
        "9"
    };
    assert(r@ =~= seq![digit_char(d as nat)]);
    r
}

/// `n` written in base ten.
pub fn decimal_text(n: u16) -> (r: String)
    ensures
        r@ == decimal(n as nat),
    decreases n,
{
    if n < 10 {
        String::from_str(digit_text(n))
    } else {
        let mut s = decimal_text(n / 10);
        s.append(digit_text(n % 10));
        assert(s@ =~= decimal(n as nat));
        s
    }
}

} // verus!
