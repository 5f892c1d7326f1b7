//! Characters, tokens and decimal numbers: the plain-text building blocks of
//! the dictionary file.

use vstd::prelude::*;

verus! {

/// `String::push`, which the standard library documents to append the
/// given character to the end of the string: the text afterwards is the
/// text before with that character added.
pub assume_specification[ String::push ](text: &mut String, ch: char)
    ensures
        final(text)@ == old(text)@.push(ch),
;

/// The characters of `text`, in order.
pub fn chars_of(text: &str) -> (chars: Vec<char>)
    ensures
        chars@ == text@,
{
    broadcast use vstd::string::group_string_axioms;
    let mut chars: Vec<char> = Vec::new();
    for c in it: text.chars()
        invariant
            chars@ == it.seq().take(it.index() as int),
            it.seq() == text@,
    {
        proof {
            assert(it.seq().take(it.index() + 1) == it.seq().take(it.index() as int).push(c));
        }
        chars.push(c);
    }
    proof {
        assert(text@.take(text@.len() as int) == text@);
    }
    chars
}

/// The string made of `chars`, in order.
pub fn string_of(chars: &Vec<char>) -> (text: String)
    ensures
        text@ == chars@,
{
    let mut text = String::new();
    let mut i: usize = 0;
    while i < chars.len()
        invariant
            i <= chars.len(),
            text@ == chars@.take(i as int),
        decreases chars.len() - i,
    {
        proof {
            assert(chars@.take(i + 1) == chars@.take(i as int).push(chars[i as int]));
        }
        text.push(chars[i]);
        i += 1;
    }
    proof {
        assert(chars@.take(chars.len() as int) == chars@);
    }
    text
}

/// Copies the characters of `chars` from position `from` up to `to`.
pub fn slice_of(chars: &Vec<char>, from: usize, to: usize) -> (part: Vec<char>)
    requires
        from <= to <= chars.len(),
    ensures
        part@ == chars@.subrange(from as int, to as int),
{
    let mut part: Vec<char> = Vec::new();
    let mut i: usize = from;
    while i < to
        invariant
            from <= i <= to <= chars.len(),
            part@ == chars@.subrange(from as int, i as int),
        decreases to - i,
    {
        part.push(chars[i]);
        proof {
            assert(part@ =~= chars@.subrange(from as int, i + 1));
        }
        i += 1;
    }
    part
}

/// Whether two character vectors hold the same text.
pub fn same_text(a: &Vec<char>, b: &Vec<char>) -> (same: bool)
    ensures
        same == (a@ == b@),
{
    if a.len() != b.len() {
        return false;
    }
    let mut i: usize = 0;
    while i < a.len()
        invariant
            i <= a.len(),
            a.len() == b.len(),
            forall|k: int| 0 <= k < i ==> a[k] == b[k],
        decreases a.len() - i,
    {
        if a[i] != b[i] {
            return false;
        }
        i += 1;
    }
    proof {
        assert(a@ =~= b@);
    }
    true
}

/// Appends `more` to `out`.
pub fn push_all(out: &mut Vec<char>, more: &Vec<char>)
    ensures
        final(out)@ == old(out)@ + more@,
{
    let mut i: usize = 0;
    while i < more.len()
        invariant
            i <= more.len(),
            out@ == old(out)@ + more@.take(i as int),
        decreases more.len() - i,
    {
        out.push(more[i]);
        proof {
            assert(out@ =~= old(out)@ + more@.take(i + 1));
        }
        i += 1;
    }
    proof {
        assert(more@.take(more.len() as int) == more@);
    }
}

/// Whether one of `wanted` holds the same text as `word`.
pub fn contains_text(wanted: &Vec<Vec<char>>, word: &Vec<char>) -> (found: bool)
    ensures
        found == texts(wanted@).contains(word@),
{
    let mut i: usize = 0;
    while i < wanted.len()
        invariant
            i <= wanted.len(),
            forall|k: int| 0 <= k < i ==> texts(wanted@)[k] != word@,
        decreases wanted.len() - i,
    {
        if same_text(&wanted[i], word) {
            proof {
                assert(texts(wanted@)[i as int] == word@);
            }
            return true;
        }
        i += 1;
    }
    false
}

/// White space as Unicode defines it (the property `White_Space`).
pub open spec fn is_space(c: char) -> bool {
    let code = c as u32;
    ||| 0x09 <= code <= 0x0d
    ||| code == 0x20
    ||| code == 0x85
    ||| code == 0xa0
    ||| code == 0x1680
    ||| 0x2000 <= code <= 0x200a
    ||| code == 0x2028
    ||| code == 0x2029
    ||| code == 0x202f
    ||| code == 0x205f
    ||| code == 0x3000
}

/// Whether `c` is white space.
pub fn is_whitespace(c: char) -> (space: bool)
    ensures
        space == is_space(c),
{
    let code: u32 = c as u32;
    (0x09 <= code && code <= 0x0d) || code == 0x20 || code == 0x85 || code == 0xa0
        || code == 0x1680 || (0x2000 <= code && code <= 0x200a) || code == 0x2028
        || code == 0x2029 || code == 0x202f || code == 0x205f || code == 0x3000
}

/// The tokens of a line: its maximal runs of characters that are not white
/// space, in order. Read from the left: a space ends the token before it, a
/// character after another extends the last token, and a character after a
/// space (or at the start) opens a new one.
pub open spec fn tokens(s: Seq<char>) -> Seq<Seq<char>>
    decreases s.len(),
{
    if s.len() == 0 {
        Seq::empty()
    } else {
        let before = tokens(s.drop_last());
        let c = s.last();
        if is_space(c) {
            before
        } else if s.len() >= 2 && !is_space(s[s.len() - 2]) {
            before.drop_last().push(before.last().push(c))
        } else {
            before.push(seq![c])
        }
    }
}

/// The views of a list of character vectors.
pub open spec fn texts(rows: Seq<Vec<char>>) -> Seq<Seq<char>> {
    rows.map_values(|row: Vec<char>| row@)
}

/// Every token holds at least one character, and none of them is a space;
/// a line that ends in a character other than a space has a token.
pub proof fn lemma_tokens_are_solid(s: Seq<char>)
    ensures
        forall|k: int| 0 <= k < tokens(s).len() ==> (#[trigger] tokens(s)[k]).len() > 0,
        forall|k: int, j: int|
            0 <= k < tokens(s).len() && 0 <= j < tokens(s)[k].len() ==> !is_space(
                #[trigger] tokens(s)[k][j],
            ),
        s.len() > 0 && !is_space(s.last()) ==> tokens(s).len() > 0,
    decreases s.len(),
{
    if s.len() > 0 {
        let before = tokens(s.drop_last());
        let c = s.last();
        lemma_tokens_are_solid(s.drop_last());
        if is_space(c) {
        } else if s.len() >= 2 && !is_space(s[s.len() - 2]) {
            assert(s.drop_last().last() == s[s.len() - 2]);
            let grown = before.last().push(c);
            assert(tokens(s) == before.drop_last().push(grown));
            assert forall|k: int| 0 <= k < tokens(s).len() implies (#[trigger] tokens(s)[k]).len()
                > 0 by {
                if k < before.len() - 1 {
                    assert(tokens(s)[k] == before[k]);
                }
            }
            assert forall|k: int, j: int|
                0 <= k < tokens(s).len() && 0 <= j < tokens(s)[k].len() implies !is_space(
                #[trigger] tokens(s)[k][j],
            ) by {
                if k < before.len() - 1 {
                    assert(tokens(s)[k] == before[k]);
                } else if j < before.last().len() {
                    assert(tokens(s)[k][j] == before[before.len() - 1][j]);
                }
            }
        } else {
            assert(tokens(s) == before.push(seq![c]));
            assert forall|k: int| 0 <= k < tokens(s).len() implies (#[trigger] tokens(s)[k]).len()
                > 0 by {
                if k < before.len() {
                    assert(tokens(s)[k] == before[k]);
                }
            }
            assert forall|k: int, j: int|
                0 <= k < tokens(s).len() && 0 <= j < tokens(s)[k].len() implies !is_space(
                #[trigger] tokens(s)[k][j],
            ) by {
                if k < before.len() {
                    assert(tokens(s)[k] == before[k]);
                }
            }
        }
    }
}

/// Splits a line into its tokens.
pub fn split_tokens(line: &Vec<char>) -> (found: Vec<Vec<char>>)
    ensures
        texts(found@) == tokens(line@),
{
    let mut found: Vec<Vec<char>> = Vec::new();
    let mut current: Vec<char> = Vec::new();
    let mut i: usize = 0;
    while i < line.len()
        invariant
            i <= line.len(),
            current.len() > 0 <==> (i > 0 && !is_space(line[i - 1])),
            tokens(line@.take(i as int)) == if current.len() > 0 {
                texts(found@).push(current@)
            } else {
                texts(found@)
            },
        decreases line.len() - i,
    {
        let c = line[i];
        proof {
            let upto = line@.take(i + 1);
            assert(upto.drop_last() == line@.take(i as int));
            assert(upto.last() == c);
            if i > 0 {
                assert(upto[upto.len() - 2] == line[i - 1]);
            }
        }
        if is_whitespace(c) {
            if current.len() > 0 {
                let ghost earlier = texts(found@);
                found.push(current);
                current = Vec::new();
                proof {
                    assert(texts(found@) =~= earlier.push(found[found.len() - 1]@));
                }
            }
        } else {
            let ghost opened = current@;
            current.push(c);
            proof {
                let listed = texts(found@);
                if opened.len() > 0 {
                    lemma_tokens_are_solid(line@.take(i as int));
                    assert(listed.push(opened).drop_last() =~= listed);
                } else {
                    assert(current@ =~= seq![c]);
                }
            }
        }
        i += 1;
    }
    proof {
        assert(line@.take(line.len() as int) == line@);
    }
    if current.len() > 0 {
        let ghost earlier = texts(found@);
        found.push(current);
        proof {
            assert(texts(found@) =~= earlier.push(found[found.len() - 1]@));
        }
    }
    found
}

/// A decimal digit, `0` to `9`.
pub open spec fn is_digit(c: char) -> bool {
    0x30 <= c as u32 <= 0x39
}

/// The number that a decimal digit stands for.
pub open spec fn digit_value(c: char) -> int {
    c as u32 - 0x30
}

/// Whether every character of `s` is a decimal digit.
pub open spec fn all_digits(s: Seq<char>) -> bool {
    forall|i: int| 0 <= i < s.len() ==> is_digit(#[trigger] s[i])
}

/// The number that a run of decimal digits stands for.
pub open spec fn digits_value(s: Seq<char>) -> int
    decreases s.len(),
{
    if s.len() == 0 {
        0
    } else {
        digits_value(s.drop_last()) * 10 + digit_value(s.last())
    }
}

/// What a token means as a 32-bit signed number: an optional sign, then at
/// least one decimal digit and nothing else, with a value that fits.
pub open spec fn parsed_i32(s: Seq<char>) -> Option<i32> {
    let signed = s.len() > 0 && (s[0] == '-' || s[0] == '+');
    let digits = if signed { s.drop_first() } else { s };
    let magnitude = digits_value(digits);
    let value = if s.len() > 0 && s[0] == '-' { -magnitude } else { magnitude };
    if digits.len() > 0 && all_digits(digits) && i32::MIN <= value <= i32::MAX {
        Some(value as i32)
    } else {
        None
    }
}

/// Reading more digits never makes the number smaller.
pub proof fn lemma_digits_value_grows(s: Seq<char>, k: int)
    requires
        all_digits(s),
        0 <= k <= s.len(),
    ensures
        0 <= digits_value(s.take(k)) <= digits_value(s),
    decreases s.len(),
{
    if s.len() == 0 {
        assert(s.take(k) == s);
    } else {
        let shorter = s.drop_last();
        assert(all_digits(shorter)) by {
            assert forall|i: int| 0 <= i < shorter.len() implies is_digit(#[trigger] shorter[i]) by {
                assert(shorter[i] == s[i]);
            }
        }
        assert(is_digit(s.last()));
        if k == s.len() {
            lemma_digits_value_grows(shorter, k - 1);
            assert(s.take(k) == s);
        } else {
            lemma_digits_value_grows(shorter, k);
            assert(shorter.take(k) == s.take(k));
        }
    }
}

/// Reads a token as a 32-bit signed number.
#[verifier::loop_isolation(false)]
pub fn parse_i32(token: &Vec<char>) -> (value: Option<i32>)
    ensures
        value == parsed_i32(token@),
{
    let n = token.len();
    if n == 0 {
        return None;
    }
    let negative = token[0] == '-';
    let start: usize = if token[0] == '-' || token[0] == '+' { 1 } else { 0 };
    let ghost digits = token@.skip(start as int);
    proof {
        if start == 1 {
            assert(digits == token@.drop_first());
        } else {
            assert(digits == token@);
        }
    }
    if start == n {
        return None;
    }
    let mut magnitude: i64 = 0;
    let mut i: usize = start;
    while i < n
        invariant
            start <= i <= n,
            n == token.len(),
            digits == token@.skip(start as int),
            all_digits(digits.take(i - start)),
            magnitude == digits_value(digits.take(i - start)),
            0 <= magnitude <= 0x8000_0000,
        decreases n - i,
    {
        let c = token[i];
        let code: u32 = c as u32;
        if code < 0x30 || code > 0x39 {
            proof {
                assert(digits[i - start] == c);
                assert(!all_digits(digits));
            }
            return None;
        }
        let digit: i64 = (code - 0x30) as i64;
        proof {
            let longer = digits.take(i + 1 - start);
            assert(longer.drop_last() == digits.take(i - start));
            assert(longer.last() == c);
            assert forall|k: int| 0 <= k < longer.len() implies is_digit(#[trigger] longer[k]) by {
                if k < longer.len() - 1 {
                    assert(longer[k] == digits.take(i - start)[k]);
                }
            }
        }
        magnitude = magnitude * 10 + digit;
        if magnitude > 0x8000_0000 {
            proof {
                if all_digits(digits) {
                    lemma_digits_value_grows(digits, i + 1 - start);
                }
            }
            return None;
        }
        i += 1;
    }
    proof {
        assert(digits.take(n - start) == digits);
    }
    if negative {
        Some((-magnitude) as i32)
    } else if magnitude <= 0x7fff_ffff {
        Some(magnitude as i32)
    } else {
        None
    }
}

/// The character that writes a digit.
pub open spec fn digit_char(digit: int) -> char {
    seq!['0', '1', '2', '3', '4', '5', '6', '7', '8', '9'][digit]
}

/// The decimal digits of a natural number, most significant first, without
/// leading zeros.
pub open spec fn decimal_digits(n: nat) -> Seq<char>
    decreases n,
{
    if n < 10 {
        seq![digit_char(n as int)]
    } else {
        decimal_digits(n / 10).push(digit_char((n % 10) as int))
    }
}

/// A whole number in decimal, with a minus sign in front when it is
/// negative.
pub open spec fn decimal(n: int) -> Seq<char> {
    if n < 0 {
        seq!['-'] + decimal_digits((-n) as nat)
    } else {
        decimal_digits(n as nat)
    }
}

/// Appends the decimal digits of `n` to `out`.
pub fn push_digits(out: &mut Vec<char>, n: u128)
    ensures
        final(out)@ == old(out)@ + decimal_digits(n as nat),
    decreases n,
{
    let shapes: [char; 10] = ['0', '1', '2', '3', '4', '5', '6', '7', '8', '9'];
    if n >= 10 {
        push_digits(out, n / 10);
    }
    let last: usize = (n % 10) as usize;
    out.push(shapes[last]);
    proof {
        assert(out@ =~= old(out)@ + decimal_digits(n as nat));
    }
}

/// Writes a whole number in decimal.
pub fn decimal_of(n: i128) -> (digits: Vec<char>)
    ensures
        digits@ == decimal(n as int),
{
    let mut digits: Vec<char> = Vec::new();
    if n < 0 {
        digits.push('-');
        let magnitude: u128 = (-(n + 1)) as u128 + 1;
        push_digits(&mut digits, magnitude);
    } else {
        push_digits(&mut digits, n as u128);
    }
    digits
}

} // verus!
