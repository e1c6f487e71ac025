//! Text: prefixes, occurrences, replacement, and numbers in decimal.
use vstd::prelude::*;

verus! {

/// `String::push` puts the character behind the text that was there.
pub assume_specification[ String::push ](text: &mut String, c: char)
    ensures
        final(text)@ == old(text)@.push(c),
;

/// `text` begins with `prefix`.
pub open spec fn has_prefix(text: Seq<char>, prefix: Seq<char>) -> bool {
    prefix.len() <= text.len() && text.subrange(0, prefix.len() as int) == prefix
}

/// `needle` stands in `text` at `at`.
pub open spec fn occurs_at(text: Seq<char>, needle: Seq<char>, at: int) -> bool {
    0 <= at && at + needle.len() <= text.len() && text.subrange(at, at + needle.len()) == needle
}

/// `needle` stands somewhere in `text`.
pub open spec fn contains_text(text: Seq<char>, needle: Seq<char>) -> bool {
    exists|at: int| occurs_at(text, needle, at)
}

/// `text` without the slashes that it ends in.
pub open spec fn without_trailing_slashes(text: Seq<char>) -> Seq<char>
    decreases text.len(),
{
    if text.len() > 0 && text.last() == '/' {
        without_trailing_slashes(text.drop_last())
    } else {
        text
    }
}

/// `text` with each `from` in it, taken from the left, turned into `to`.
pub open spec fn replaced(text: Seq<char>, from: Seq<char>, to: char) -> Seq<char>
    decreases text.len(),
{
    if text.len() == 0 || from.len() == 0 {
        text
    } else if has_prefix(text, from) {
        seq![to] + replaced(text.skip(from.len() as int), from, to)
    } else {
        seq![text[0]] + replaced(text.skip(1), from, to)
    }
}

pub open spec fn is_digit(c: char) -> bool {
    '0' <= c <= '9'
}

/// The digit for a value under ten.
pub open spec fn digit_char(value: nat) -> char {
    (value + '0' as nat) as char
}

/// `n` in decimal, without leading zeros.
pub open spec fn decimal(n: nat) -> Seq<char>
    decreases n,
{
    if n < 10 {
        seq![digit_char(n)]
    } else {
        decimal(n / 10).push(digit_char(n % 10))
    }
}

/// The number that `digits` write in decimal.
pub open spec fn decimal_value(digits: Seq<char>) -> nat
    decreases digits.len(),
{
    if digits.len() == 0 {
        0
    } else {
        10 * decimal_value(digits.drop_last()) + (digits.last() as nat - '0' as nat) as nat
    }
}

/// The characters of `text`.
pub fn chars_of(text: &str) -> (chars: Vec<char>)
    ensures
        chars@ == text@,
{
    let mut chars: Vec<char> = Vec::new();
    for c in iter: text.chars()
        invariant
            iter.seq() == text@,
            chars@ == text@.take(iter.index() as int),
    {
        chars.push(c);
    }
    chars
}

/// Whether `needle` stands in `text` at `at`.
pub fn stands_at(text: &Vec<char>, needle: &Vec<char>, at: usize) -> (found: bool)
    requires
        at <= text@.len(),
    ensures
        found == occurs_at(text@, needle@, at as int),
{
    let length: usize = text.len();
    if needle.len() > length - at {
        return false;
    }
    for i in 0..needle.len()
        invariant
            length == text@.len(),
            at + needle@.len() <= text@.len(),
            forall|j: int| 0 <= j < i ==> text@[at + j] == needle@[j],
    {
        if text[at + i] != needle[i] {
            assert(text@.subrange(at as int, at + needle@.len())[i as int] != needle@[i as int]);
            return false;
        }
    }
    assert(text@.subrange(at as int, at + needle@.len()) =~= needle@);
    true
}

/// The characters of `chars` from `from` up to `to`.
pub fn text_between(chars: &Vec<char>, from: usize, to: usize) -> (text: String)
    requires
        from <= to <= chars@.len(),
    ensures
        text@ == chars@.subrange(from as int, to as int),
{
    let mut text = String::new();
    for i in from..to
        invariant
            from <= to <= chars@.len(),
            text@ == chars@.subrange(from as int, i as int),
    {
        text.push(chars[i]);
        assert(chars@.subrange(from as int, i + 1) =~= chars@.subrange(from as int, i as int).push(
            chars@[i as int],
        ));
    }
    text
}

/// Whether two texts are the same.
pub fn same_text(a: &str, b: &str) -> (same: bool)
    ensures
        same == (a@ == b@),
{
    let left = chars_of(a);
    let right = chars_of(b);
    if left.len() != right.len() {
        return false;
    }
    let same = stands_at(&left, &right, 0);
    assert(a@.subrange(0, a@.len() as int) =~= a@);
    same
}

/// `first` and `second`, one behind the other.
pub fn joined(first: &str, second: &str) -> (text: String)
    ensures
        text@ == first@ + second@,
{
    let mut text = first.to_owned();
    text.append(second);
    text
}

/// What follows `prefix` in `text`, where `text` begins with it.
pub fn strip_prefix(text: &str, prefix: &str) -> (rest: Option<String>)
    ensures
        match rest {
            Some(r) => has_prefix(text@, prefix@) && r@ == text@.skip(prefix@.len() as int),
            None => !has_prefix(text@, prefix@),
        },
{
    let chars = chars_of(text);
    let start = chars_of(prefix);
    if stands_at(&chars, &start, 0) {
        assert(text@.subrange(prefix@.len() as int, text@.len() as int) =~= text@.skip(
            prefix@.len() as int,
        ));
        Some(text_between(&chars, start.len(), chars.len()))
    } else {
        None
    }
}

/// `text` without the slashes that it ends in.
pub fn trim_slashes(text: &str) -> (trimmed: String)
    ensures
        trimmed@ == without_trailing_slashes(text@),
{
    let chars = chars_of(text);
    let mut end: usize = chars.len();
    assert(text@.subrange(0, end as int) =~= text@);
    while end > 0 && chars[end - 1] == '/'
        invariant
            chars@ == text@,
            end <= chars@.len(),
            without_trailing_slashes(text@) == without_trailing_slashes(text@.subrange(0, end as int)),
        decreases end,
    {
        assert(text@.subrange(0, end as int).drop_last() =~= text@.subrange(0, end - 1));
        end = end - 1;
    }
    assert(without_trailing_slashes(text@.subrange(0, end as int)) == text@.subrange(0, end as int));
    text_between(&chars, 0, end)
}

/// `text` with each `from` in it, taken from the left, turned into `to`.
pub fn replace(text: &str, from: &str, to: char) -> (result: String)
    requires
        from@.len() > 0,
    ensures
        result@ == replaced(text@, from@, to),
{
    let chars = chars_of(text);
    let needle = chars_of(from);
    let mut result = String::new();
    let mut at: usize = 0;
    assert(text@.skip(0) =~= text@);
    while at < chars.len()
        invariant
            chars@ == text@,
            needle@ == from@,
            needle@.len() > 0,
            at <= chars@.len(),
            replaced(text@, from@, to) == result@ + replaced(text@.skip(at as int), from@, to),
        decreases chars@.len() - at,
    {
        let ghost rest = text@.skip(at as int);
        let ghost before = result@;
        assert(occurs_at(text@, from@, at as int) == has_prefix(rest, from@)) by {
            if at + from@.len() <= text@.len() {
                assert(text@.subrange(at as int, at + from@.len()) =~= rest.subrange(
                    0,
                    from@.len() as int,
                ));
            }
        }
        if stands_at(&chars, &needle, at) {
            result.push(to);
            assert(rest.skip(from@.len() as int) =~= text@.skip(at + from@.len()));
            assert(before + (seq![to] + replaced(rest.skip(from@.len() as int), from@, to))
                =~= before.push(to) + replaced(rest.skip(from@.len() as int), from@, to));
            at = at + needle.len();
        } else {
            result.push(chars[at]);
            assert(rest.skip(1) =~= text@.skip(at + 1));
            assert(before + (seq![rest[0]] + replaced(rest.skip(1), from@, to))
                =~= before.push(rest[0]) + replaced(rest.skip(1), from@, to));
            at = at + 1;
        }
    }
    assert(text@.skip(at as int) =~= Seq::<char>::empty());
    assert(result@ + Seq::<char>::empty() =~= result@);
    result
}

/// Whether `needle` stands somewhere in `text`.
pub fn contains(text: &str, needle: &str) -> (found: bool)
    ensures
        found == contains_text(text@, needle@),
{
    let chars = chars_of(text);
    let wanted = chars_of(needle);
    let mut at: usize = 0;
    while at < chars.len()
        invariant
            chars@ == text@,
            wanted@ == needle@,
            at <= chars@.len(),
            forall|i: int| 0 <= i < at ==> !occurs_at(text@, needle@, i),
        decreases chars@.len() - at,
    {
        if stands_at(&chars, &wanted, at) {
            return true;
        }
        at = at + 1;
    }
    stands_at(&chars, &wanted, at)
}

/// `n` in decimal, without leading zeros.
pub fn to_decimal(n: u128) -> (text: String)
    ensures
        text@ == decimal(n as nat),
    decreases n,
{
    let mut text = if n < 10 {
        String::new()
    } else {
        to_decimal(n / 10)
    };
    let digit: u8 = (n % 10) as u8;
    text.push(('0' as u8 + digit) as char);
    assert(text@ =~= decimal(n as nat));
    text
}

/// The number that `digits` write in decimal, where a `usize` can hold it.
pub fn parse_decimal(digits: &str) -> (n: Option<usize>)
    requires
        forall|i: int| 0 <= i < digits@.len() ==> is_digit(#[trigger] digits@[i]),
    ensures
        match n {
            Some(value) => value == decimal_value(digits@),
            None => decimal_value(digits@) > usize::MAX,
        },
{
    let chars = chars_of(digits);
    let mut value: usize = 0;
    for i in 0..chars.len()
        invariant
            chars@ == digits@,
            value == decimal_value(digits@.take(i as int)),
            forall|j: int| 0 <= j < digits@.len() ==> is_digit(#[trigger] digits@[j]),
    {
        let ghost next = digits@.take(i + 1);
        assert(next.drop_last() =~= digits@.take(i as int));
        assert(is_digit(digits@[i as int]));
        let digit: usize = (chars[i] as u32 - '0' as u32) as usize;
        proof {
            decimal_value_grows(digits@, i + 1);
        }
        match value.checked_mul(10) {
            None => {
                return None;
            },
            Some(shifted) => match shifted.checked_add(digit) {
                None => {
                    return None;
                },
                Some(sum) => {
                    value = sum;
                },
            },
        }
    }
    assert(digits@.take(digits@.len() as int) =~= digits@);
    Some(value)
}

/// Digits behind a number make it no smaller.
proof fn decimal_value_grows(digits: Seq<char>, n: int)
    requires
        0 <= n <= digits.len(),
    ensures
        decimal_value(digits.take(n)) <= decimal_value(digits),
    decreases digits.len() - n,
{
    if n < digits.len() {
        assert(digits.take(n + 1).drop_last() =~= digits.take(n));
        decimal_value_grows(digits, n + 1);
    } else {
        assert(digits.take(n) =~= digits);
    }
}

/// Reading a number back from its decimal form gives the number: the form has digits only, at
/// least one, and their value is the number.
pub proof fn decimal_reads_back(n: nat)
    ensures
        decimal(n).len() > 0,
        forall|i: int| 0 <= i < decimal(n).len() ==> is_digit(#[trigger] decimal(n)[i]),
        decimal_value(decimal(n)) == n,
    decreases n,
{
    if n >= 10 {
        decimal_reads_back(n / 10);
        assert(decimal(n).drop_last() =~= decimal(n / 10));
    } else {
        assert(decimal(n).drop_last() =~= Seq::<char>::empty());
        assert(decimal_value(Seq::<char>::empty()) == 0);
    }
}

/// A text begins with another just where that stands in front of something.
pub proof fn prefix_is_the_front(text: Seq<char>, prefix: Seq<char>, rest: Seq<char>)
    ensures
        has_prefix(prefix + rest, prefix),
        has_prefix(text, prefix) ==> prefix.len() <= text.len() && text == prefix + text.skip(
            prefix.len() as int,
        ),
{
    assert((prefix + rest).subrange(0, prefix.len() as int) =~= prefix);
    if has_prefix(text, prefix) {
        assert(text =~= text.subrange(0, prefix.len() as int) + text.skip(prefix.len() as int));
    }
}

/// A text holds another just where it is that with something before it and something behind it.
pub proof fn held_text_is_between(
    text: Seq<char>,
    needle: Seq<char>,
    front: Seq<char>,
    back: Seq<char>,
    at: int,
)
    ensures
        occurs_at(front + needle + back, needle, front.len() as int),
        contains_text(front + needle + back, needle),
        occurs_at(text, needle, at) ==> 0 <= at && at + needle.len() <= text.len() && text
            == text.take(at) + needle + text.skip((at + needle.len()) as int),
        contains_text(text, needle) ==> exists|i: int|
            0 <= i && i + needle.len() <= text.len() && text == text.take(i) + needle
                + #[trigger] text.skip((i + needle.len()) as int),
{
    let whole = front + needle + back;
    let start = front.len() as int;
    assert(whole.subrange(start, start + needle.len()) =~= needle);
    assert(occurs_at(whole, needle, start));
    assert forall|i: int| occurs_at(text, needle, i) implies text == text.take(i) + needle
        + #[trigger] text.skip((i + needle.len()) as int) by {
        assert(text =~= text.take(i) + text.subrange(i, (i + needle.len()) as int) + text.skip(
            (i + needle.len()) as int,
        ));
    }
    if occurs_at(text, needle, at) {
        let rest = text.skip((at + needle.len()) as int);
    }
    if contains_text(text, needle) {
        let i = choose|i: int| occurs_at(text, needle, i);
        let rest = text.skip((i + needle.len()) as int);
        assert(text == text.take(i) + needle + rest);
    }
}

/// Trimming takes off slashes, all that stand at the end and nothing else.
pub proof fn only_trailing_slashes_go(text: Seq<char>)
    ensures
        without_trailing_slashes(text).len() <= text.len(),
        without_trailing_slashes(text) == text.take(without_trailing_slashes(text).len() as int),
        forall|i: int|
            without_trailing_slashes(text).len() <= i < text.len() ==> #[trigger] text[i] == '/',
        without_trailing_slashes(text).len() > 0 ==> without_trailing_slashes(text).last() != '/',
    decreases text.len(),
{
    let trimmed = without_trailing_slashes(text);
    if text.len() > 0 && text.last() == '/' {
        only_trailing_slashes_go(text.drop_last());
        assert(text.drop_last().take(trimmed.len() as int) =~= text.take(trimmed.len() as int));
        assert forall|i: int| trimmed.len() <= i < text.len() implies #[trigger] text[i] == '/' by {
            if i < text.len() - 1 {
                assert(text.drop_last()[i] == '/');
            }
        }
    } else {
        assert(text.take(text.len() as int) =~= text);
    }
}

/// Where a text does not hold what is to be replaced, it is left as it is.
pub proof fn nothing_to_replace(text: Seq<char>, from: Seq<char>, to: char)
    requires
        from.len() > 0,
        !contains_text(text, from),
    ensures
        replaced(text, from, to) == text,
    decreases text.len(),
{
    if text.len() > 0 {
        let rest = text.skip(1);
        assert(!occurs_at(text, from, 0));
        assert forall|i: int| !occurs_at(rest, from, i) by {
            if occurs_at(rest, from, i) {
                assert(rest.subrange(i, (i + from.len()) as int) =~= text.subrange(
                    i + 1,
                    (i + 1 + from.len()) as int,
                ));
                assert(occurs_at(text, from, i + 1));
            }
        }
        nothing_to_replace(rest, from, to);
        assert(seq![text[0]] + rest =~= text);
    }
}

/// The first of what is to be replaced gives way, what stands before it is left as it is, and behind
/// it things go on in the same way.
pub proof fn first_is_replaced(front: Seq<char>, back: Seq<char>, from: Seq<char>, to: char)
    requires
        from.len() > 0,
        forall|i: int|
            0 <= i < front.len() ==> #[trigger] (front + from + back).subrange(
                i,
                (i + from.len()) as int,
            ) != from,
    ensures
        replaced(front + from + back, from, to) == front + seq![to] + replaced(back, from, to),
    decreases front.len(),
{
    let text = front + from + back;
    if front.len() > 0 {
        let rest = front.skip(1);
        let at: int = 0;
        assert((front + from + back).subrange(at, (at + from.len()) as int) != from);
        assert(text.skip(1) =~= rest + from + back);
        assert forall|i: int| 0 <= i < rest.len() implies #[trigger] (rest + from + back).subrange(
            i,
            (i + from.len()) as int,
        ) != from by {
            assert((rest + from + back).subrange(i, (i + from.len()) as int) =~= text.subrange(
                i + 1,
                (i + 1 + from.len()) as int,
            ));
        }
        first_is_replaced(rest, back, from, to);
        assert(seq![text[0]] + (rest + seq![to] + replaced(back, from, to)) =~= front + seq![to]
            + replaced(back, from, to));
    } else {
        assert(text.subrange(0, from.len() as int) =~= from);
        assert(text.skip(from.len() as int) =~= back);
        assert(front + seq![to] + replaced(back, from, to) =~= seq![to] + replaced(back, from, to));
    }
}

/// Digits are the ten characters from 0 to 9, and a number is written with the digit for its ones
/// behind what is written for its tens.
pub proof fn decimal_is_positional(n: nat, ones: nat)
    requires
        ones < 10,
    ensures
        decimal(ones) == seq!["0123456789"@[ones as int]],
        n > 0 ==> decimal(10 * n + ones) == decimal(n).push("0123456789"@[ones as int]),
{
    reveal_strlit("0123456789");
    assert((10 * n + ones) / 10 == n && (10 * n + ones) % 10 == ones);
}

/// Digits stand for a number by their places: one more digit makes ten times as much, and adds what
/// it stands for.
pub proof fn value_is_positional(digits: Seq<char>, ones: nat, c: char)
    requires
        ones < 10,
    ensures
        decimal_value(Seq::empty()) == 0,
        decimal_value(digits.push("0123456789"@[ones as int])) == 10 * decimal_value(digits) + ones,
        is_digit(c) <==> "0123456789"@.contains(c),
{
    reveal_strlit("0123456789");
    assert(digits.push("0123456789"@[ones as int]).drop_last() =~= digits);
    if is_digit(c) {
        assert("0123456789"@[c as int - '0' as int] == c);
    }
}

} // verus!
