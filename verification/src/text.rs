//! Text handling for source lines: characters, whitespace, tokens and
//! decimal numbers.

use vstd::prelude::*;

verus! {

/// Whether `c` is a white-space character in the Unicode sense.
pub open spec fn is_whitespace(c: char) -> bool {
    let p = c as u32;
    ||| 0x09 <= p <= 0x0D
    ||| p == 0x20
    ||| p == 0x85
    ||| p == 0xA0
    ||| p == 0x1680
    ||| 0x2000 <= p <= 0x200A
    ||| p == 0x2028
    ||| p == 0x2029
    ||| p == 0x202F
    ||| p == 0x205F
    ||| p == 0x3000
}

/// Whether every character of `s` is white space; true of the empty text.
pub open spec fn is_blank(s: Seq<char>) -> bool {
    forall|i: int| 0 <= i < s.len() ==> is_whitespace(#[trigger] s[i])
}

/// The maximal runs of characters of `s` that hold no white space, in order.
///
/// Read from the right: a trailing white-space character adds nothing; any
/// other character extends the last token when the character before it
/// belongs to one, and starts a new token otherwise.
pub open spec fn tokens(s: Seq<char>) -> Seq<Seq<char>>
    decreases s.len(),
{
    if s.len() == 0 {
        Seq::empty()
    } else {
        let before = tokens(s.drop_last());
        if is_whitespace(s.last()) {
            before
        } else if s.len() >= 2 && !is_whitespace(s[s.len() - 2]) && before.len() > 0 {
            before.drop_last().push(before.last().push(s.last()))
        } else {
            before.push(seq![s.last()])
        }
    }
}

/// The views of a vector of character vectors.
pub open spec fn views(v: Seq<Vec<char>>) -> Seq<Seq<char>> {
    Seq::new(v.len(), |i: int| v[i]@)
}

pub open spec fn is_digit(c: char) -> bool {
    '0' <= c <= '9'
}

pub open spec fn all_digits(s: Seq<char>) -> bool {
    forall|i: int| 0 <= i < s.len() ==> is_digit(#[trigger] s[i])
}

/// The number that a run of decimal digits writes; zero for the empty run.
pub open spec fn decimal_value(digits: Seq<char>) -> nat
    decreases digits.len(),
{
    if digits.len() == 0 {
        0
    } else {
        decimal_value(digits.drop_last()) * 10 + ((digits.last() as nat) - ('0' as nat)) as nat
    }
}

/// What is left of `s` after one leading plus sign, if it has one.
pub open spec fn unsigned_digits(s: Seq<char>) -> Seq<char> {
    if s.len() > 0 && s[0] == '+' {
        s.drop_first()
    } else {
        s
    }
}

/// The non-negative integer that `s` writes in decimal: an optional plus sign
/// and then at least one digit. `None` for any other text.
pub open spec fn number_of(s: Seq<char>) -> Option<nat> {
    let digits = unsigned_digits(s);
    if digits.len() > 0 && all_digits(digits) {
        Some(decimal_value(digits))
    } else {
        None
    }
}

/// The number as a machine integer, when there is one and it fits.
pub open spec fn fitting(number: Option<nat>) -> Option<usize> {
    match number {
        Some(value) => if value <= usize::MAX {
            Some(value as usize)
        } else {
            None
        },
        None => None,
    }
}

/// A line with no token is a blank line, and only such a line.
pub proof fn lemma_no_tokens_iff_blank(s: Seq<char>)
    ensures
        tokens(s).len() == 0 <==> is_blank(s),
        tokens(s).len() > 0 && s.len() > 0 && !is_whitespace(s.last()) ==> tokens(s).last().len()
            > 0,
    decreases s.len(),
{
    if s.len() > 0 {
        let front = s.drop_last();
        lemma_no_tokens_iff_blank(front);
        if is_blank(s) {
            assert forall|i: int| 0 <= i < front.len() implies is_whitespace(
                #[trigger] front[i],
            ) by {
                assert(front[i] == s[i]);
            }
        }
        if is_blank(front) && is_whitespace(s.last()) {
            assert forall|i: int| 0 <= i < s.len() implies is_whitespace(#[trigger] s[i]) by {
                if i < front.len() {
                    assert(front[i] == s[i]);
                }
            }
        }
    }
}

/// Whether `s` holds no white space.
pub open spec fn is_solid(s: Seq<char>) -> bool {
    forall|i: int| 0 <= i < s.len() ==> !is_whitespace(#[trigger] s[i])
}

/// Every token holds at least one character and no white space.
pub proof fn lemma_tokens_are_solid(s: Seq<char>)
    ensures
        forall|k: int|
            0 <= k < tokens(s).len() ==> (#[trigger] tokens(s)[k]).len() > 0 && is_solid(
                tokens(s)[k],
            ),
    decreases s.len(),
{
    if s.len() > 0 {
        lemma_tokens_are_solid(s.drop_last());
        let before = tokens(s.drop_last());
        if !is_whitespace(s.last()) {
            if s.len() >= 2 && !is_whitespace(s[s.len() - 2]) && before.len() > 0 {
                let grown = before.last().push(s.last());
                assert forall|i: int| 0 <= i < grown.len() implies !is_whitespace(
                    #[trigger] grown[i],
                ) by {
                    if i < before.last().len() {
                        assert(grown[i] == before.last()[i]);
                    }
                }
            } else {
                assert(is_solid(seq![s.last()]));
            }
        }
    }
}

/// A text without white space that is not empty is one token.
pub proof fn lemma_tokens_of_solid(t: Seq<char>)
    requires
        t.len() > 0,
        is_solid(t),
    ensures
        tokens(t) == seq![t],
    decreases t.len(),
{
    let front = t.drop_last();
    assert(!is_whitespace(t[t.len() - 1]));
    if t.len() == 1 {
        assert(tokens(front) =~= Seq::<Seq<char>>::empty());
        assert(seq![t.last()] =~= t);
        assert(tokens(t) =~= seq![t]);
    } else {
        assert forall|i: int| 0 <= i < front.len() implies !is_whitespace(#[trigger] front[i]) by {
            assert(front[i] == t[i]);
        }
        lemma_tokens_of_solid(front);
        assert(!is_whitespace(t[t.len() - 2]));
        assert(front.push(t.last()) =~= t);
        assert(tokens(t) =~= seq![t]);
    }
}

/// White space at the front of a text adds no token.
pub proof fn lemma_tokens_skip_whitespace(w: char, s: Seq<char>)
    requires
        is_whitespace(w),
    ensures
        tokens(seq![w] + s) == tokens(s),
    decreases s.len(),
{
    let whole = seq![w] + s;
    if s.len() == 0 {
        assert(whole.drop_last() =~= s);
        assert(whole.last() == w);
    } else {
        assert(whole.drop_last() =~= seq![w] + s.drop_last());
        assert(whole.last() == s.last());
        lemma_tokens_skip_whitespace(w, s.drop_last());
        if s.len() >= 2 {
            assert(whole[whole.len() - 2] == s[s.len() - 2]);
        } else {
            assert(whole[whole.len() - 2] == w);
            assert(tokens(s.drop_last()) =~= Seq::<Seq<char>>::empty());
        }
    }
}

/// A text that begins with a run `t` of characters that are no white space,
/// followed by nothing or by white space, has `t` as its first token; its
/// other tokens are those of what follows `t`.
pub proof fn lemma_tokens_first(t: Seq<char>, s: Seq<char>)
    requires
        t.len() > 0,
        is_solid(t),
        s.len() > 0 ==> is_whitespace(s[0]),
    ensures
        tokens(t + s) == seq![t] + tokens(s),
    decreases s.len(),
{
    let whole = t + s;
    if s.len() == 0 {
        assert(whole =~= t);
        lemma_tokens_of_solid(t);
        assert(seq![t] + tokens(s) =~= seq![t]);
    } else {
        let front = s.drop_last();
        assert(whole.drop_last() =~= t + front);
        assert(whole.last() == s.last());
        if front.len() > 0 {
            assert(front[0] == s[0]);
        }
        lemma_tokens_first(t, front);
        let before = tokens(front);
        if !is_whitespace(s.last()) {
            assert(s.len() >= 2);
            assert(whole[whole.len() - 2] == s[s.len() - 2]);
            assert(front.last() == s[s.len() - 2]);
            if !is_whitespace(s[s.len() - 2]) {
                lemma_last_token(front);
                assert((seq![t] + before).drop_last() =~= seq![t] + before.drop_last());
                assert(tokens(whole) =~= seq![t] + tokens(s));
            } else {
                assert(tokens(whole) =~= seq![t] + tokens(s));
            }
        }
    }
}

/// A text that ends outside white space ends in its last token.
pub proof fn lemma_last_token(s: Seq<char>)
    requires
        s.len() > 0,
        !is_whitespace(s.last()),
    ensures
        tokens(s).len() > 0,
        tokens(s).last().len() > 0,
        tokens(s).last().last() == s.last(),
{
}

/// No text that ends in `!` is a number.
pub proof fn lemma_marked_is_no_number(s: Seq<char>)
    requires
        s.len() > 0,
        s.last() == '!',
    ensures
        number_of(s) is None,
{
    let digits = unsigned_digits(s);
    assert(digits.len() > 0 && digits.last() == '!');
    assert(!is_digit(digits[digits.len() - 1]));
}

/// A longer run of digits writes a number at least as large as any of its
/// beginnings.
pub proof fn lemma_decimal_value_grows(digits: Seq<char>, k: int)
    requires
        0 <= k <= digits.len(),
        all_digits(digits),
    ensures
        decimal_value(digits.take(k)) <= decimal_value(digits),
    decreases digits.len(),
{
    if k < digits.len() {
        let front = digits.drop_last();
        assert forall|i: int| 0 <= i < front.len() implies is_digit(#[trigger] front[i]) by {
            assert(front[i] == digits[i]);
        }
        lemma_decimal_value_grows(front, k);
        assert(front.take(k) =~= digits.take(k));
        assert(is_digit(digits.last()));
    } else {
        assert(digits.take(k) =~= digits);
    }
}

pub fn is_whitespace_char(c: char) -> (r: bool)
    ensures
        r == is_whitespace(c),
{
    let p = c as u32;
    (0x09 <= p && p <= 0x0D) || p == 0x20 || p == 0x85 || p == 0xA0 || p == 0x1680 || (0x2000 <= p
        && p <= 0x200A) || p == 0x2028 || p == 0x2029 || p == 0x202F || p == 0x205F || p
        == 0x3000
}

/// The characters of `s`, one by one.
pub fn chars_of(s: &str) -> (chars: Vec<char>)
    ensures
        chars@ == s@,
{
    let mut chars: Vec<char> = Vec::new();
    for c in it: s.chars()
        invariant
            chars@ == it.seq().take(it.index() as int),
    {
        chars.push(c);
    }
    chars
}

/// Whether the characters `token` spell `text`.
pub fn is_text(token: &[char], text: &str) -> (r: bool)
    ensures
        r == (token@ == text@),
{
    let expected = chars_of(text);
    if token.len() != expected.len() {
        return false;
    }
    let mut i: usize = 0;
    while i < token.len()
        invariant
            i <= token.len(),
            token.len() == expected.len(),
            expected@ == text@,
            forall|j: int| 0 <= j < i ==> token@[j] == expected@[j],
        decreases token.len() - i,
    {
        if token[i] != expected[i] {
            return false;
        }
        i = i + 1;
    }
    assert(token@ =~= text@);
    true
}

/// Splits a line into its tokens.
pub fn split_whitespace(line: &[char]) -> (parts: Vec<Vec<char>>)
    ensures
        views(parts@) == tokens(line@),
{
    let mut parts: Vec<Vec<char>> = Vec::new();
    let mut current: Vec<char> = Vec::new();
    let mut i: usize = 0;
    while i < line.len()
        invariant
            i <= line.len(),
            current@.len() > 0 <==> (i > 0 && !is_whitespace(line@[i - 1])),
            tokens(line@.take(i as int)) == if current@.len() > 0 {
                views(parts@).push(current@)
            } else {
                views(parts@)
            },
        decreases line.len() - i,
    {
        let c = line[i];
        let ghost seen = line@.take(i as int);
        let ghost next = line@.take(i + 1);
        proof {
            assert(next.drop_last() =~= seen);
            assert(next.last() == c);
            if i > 0 {
                assert(next[next.len() - 2] == line@[i - 1]);
            }
        }
        if is_whitespace_char(c) {
            if current.len() > 0 {
                let ghost before = views(parts@);
                let ghost done = current@;
                parts.push(current);
                current = Vec::new();
                assert(views(parts@) =~= before.push(done));
            }
        } else {
            let ghost before = current@;
            current.push(c);
            proof {
                if before.len() > 0 {
                    assert(views(parts@).push(before).drop_last() =~= views(parts@));
                } else {
                    assert(seq![c] =~= current@);
                }
            }
        }
        i = i + 1;
    }
    assert(line@.take(i as int) =~= line@);
    if current.len() > 0 {
        let ghost before = views(parts@);
        let ghost done = current@;
        parts.push(current);
        assert(views(parts@) =~= before.push(done));
    }
    parts
}

/// Reads a non-negative decimal integer: an optional plus sign, then digits.
/// `None` when the text is no such number or the number does not fit.
pub fn parse_number(s: &[char]) -> (r: Option<usize>)
    ensures
        r == fitting(number_of(s@)),
{
    let start: usize = if s.len() > 0 && s[0] == '+' {
        1
    } else {
        0
    };
    let ghost digits = unsigned_digits(s@);
    assert(digits =~= s@.subrange(start as int, s@.len() as int));
    if start == s.len() {
        return None;
    }
    let mut value: usize = 0;
    let mut i: usize = start;
    while i < s.len()
        invariant
            start <= i <= s.len(),
            digits == unsigned_digits(s@),
            digits == s@.subrange(start as int, s@.len() as int),
            all_digits(digits.take(i - start)),
            value == decimal_value(digits.take(i - start)),
        decreases s.len() - i,
    {
        let c = s[i];
        let ghost seen = digits.take(i - start);
        let ghost next = digits.take(i - start + 1);
        proof {
            assert(next.drop_last() =~= seen);
            assert(next.last() == c);
        }
        if !('0' <= c && c <= '9') {
            assert(!is_digit(digits[i - start]));
            return None;
        }
        proof {
            assert forall|j: int| 0 <= j < next.len() implies is_digit(#[trigger] next[j]) by {
                if j < seen.len() {
                    assert(next[j] == seen[j]);
                }
            }
        }
        let d = (c as u32 - '0' as u32) as usize;
        if value > (usize::MAX - d) / 10 {
            proof {
                assert(decimal_value(next) > usize::MAX);
                if all_digits(digits) {
                    lemma_decimal_value_grows(digits, i - start + 1);
                }
            }
            return None;
        }
        value = value * 10 + d;
        i = i + 1;
    }
    assert(digits.take(i - start) =~= digits);
    Some(value)
}

} // verus!
