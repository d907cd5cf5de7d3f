//! Text as sequences of characters, and the numbers written in it.

use vstd::prelude::*;

verus! {

/// `String::push` appends one character.
pub assume_specification[ String::push ](s: &mut String, c: char)
    ensures
        final(s)@ == old(s)@.push(c),
;

/// The view of a text that may be absent.
pub open spec fn text_view(text: Option<String>) -> Option<Seq<char>> {
    match text {
        Some(text) => Some(text@),
        None => None,
    }
}

/// The characters of `s`, in order.
pub fn chars_of(s: &str) -> (chars: Vec<char>)
    ensures
        chars@ == s@,
{
    let mut chars: Vec<char> = Vec::new();
    for c in it: s.chars()
        invariant
            it.seq() == s@,
            chars@ == s@.take(it.index() as int),
    {
        chars.push(c);
    }
    chars
}

/// The string that holds the characters `chars[from..to]`, in order.
pub(crate) fn string_of(chars: &Vec<char>, from: usize, to: usize) -> (s: String)
    requires
        from <= to <= chars.len(),
    ensures
        s@ == chars@.subrange(from as int, to as int),
{
    let mut s = String::new();
    let mut i: usize = from;
    while i < to
        invariant
            from <= i <= to <= chars.len(),
            s@ == chars@.subrange(from as int, i as int),
        decreases to - i,
    {
        s.push(chars[i]);
        i += 1;
    }
    s
}

/// Whether `c` is one of the ten ASCII digits.
pub open spec fn is_digit(c: char) -> bool {
    '0' <= c <= '9'
}

/// The number that the ASCII digit `c` stands for.
pub open spec fn digit_value(c: char) -> nat {
    (c as nat - '0' as nat) as nat
}

/// Whether every character of `text` is an ASCII digit.
pub open spec fn all_digits(text: Seq<char>) -> bool {
    forall|i: int| 0 <= i < text.len() ==> is_digit(#[trigger] text[i])
}

/// The number that the digits `digits` write in base ten; 0 for no digits.
pub open spec fn decimal_value(digits: Seq<char>) -> nat
    decreases digits.len(),
{
    if digits.len() == 0 {
        0
    } else {
        decimal_value(digits.drop_last()) * 10 + digit_value(digits.last())
    }
}

/// Whether `c` is an ASCII digit.
pub fn is_ascii_digit(c: char) -> (digit: bool)
    ensures
        digit == is_digit(c),
{
    '0' <= c && c <= '9'
}

/// The number that the ASCII digit `c` stands for.
pub(crate) fn digit_of(c: char) -> (value: u8)
    requires
        is_digit(c),
    ensures
        value == digit_value(c),
        value <= 9,
{
    (c as u32 - '0' as u32) as u8
}

/// The number written by the digits `chars[from..to]`, where all of them are
/// digits and the number is at most `limit`; the empty run writes 0.
pub(crate) fn read_digits(chars: &Vec<char>, from: usize, to: usize, limit: u64) -> (value: Option<
    u64,
>)
    requires
        from <= to <= chars.len(),
    ensures
        value == digits_within(chars@.subrange(from as int, to as int), limit as nat),
{
    let mut total: u64 = 0;
    let mut exceeded = false;
    let mut i: usize = from;
    while i < to
        invariant
            from <= i <= to <= chars.len(),
            all_digits(chars@.subrange(from as int, i as int)),
            !exceeded ==> total == decimal_value(chars@.subrange(from as int, i as int)),
            !exceeded ==> total <= limit,
            exceeded ==> decimal_value(chars@.subrange(from as int, i as int)) > limit,
        decreases to - i,
    {
        let c = chars[i];
        proof {
            let before = chars@.subrange(from as int, i as int);
            let after = chars@.subrange(from as int, i + 1);
            assert(after.drop_last() == before);
        }
        if !is_ascii_digit(c) {
            proof {
                let whole = chars@.subrange(from as int, to as int);
                assert(whole[i - from] == c);
            }
            return None;
        }
        let digit = digit_of(c) as u64;
        if !exceeded {
            if digit > limit || total > (limit - digit) / 10 {
                exceeded = true;
            } else {
                total = total * 10 + digit;
            }
        }
        i += 1;
    }
    if exceeded {
        None
    } else {
        Some(total)
    }
}

/// The number that `digits` writes, where all its characters are digits and
/// the number is at most `limit`.
pub open spec fn digits_within(digits: Seq<char>, limit: nat) -> Option<u64> {
    if all_digits(digits) && decimal_value(digits) <= limit {
        Some(decimal_value(digits) as u64)
    } else {
        None
    }
}

/// The first index at or after `from` at which `text` holds `c`, or the length of
/// `text` where it holds none there.
pub open spec fn index_of(text: Seq<char>, c: char, from: int) -> int
    decreases text.len() - from,
{
    if from >= text.len() {
        text.len() as int
    } else if text[from] == c {
        from
    } else {
        index_of(text, c, from + 1)
    }
}

/// The first index at or after `from` at which `chars` holds `c`, or the
/// length of `chars`.
pub(crate) fn find_char(chars: &Vec<char>, c: char, from: usize) -> (at: usize)
    requires
        from <= chars.len(),
    ensures
        at == index_of(chars@, c, from as int),
        from <= at <= chars.len(),
{
    let mut at: usize = from;
    while at < chars.len() && chars[at] != c
        invariant
            from <= at <= chars.len(),
            index_of(chars@, c, from as int) == index_of(chars@, c, at as int),
        decreases chars.len() - at,
    {
        at += 1;
    }
    at
}

/// Whether all of `chars[from..to]` are ASCII digits.
pub(crate) fn is_digit_run(chars: &Vec<char>, from: usize, to: usize) -> (digits: bool)
    requires
        from <= to <= chars.len(),
    ensures
        digits == all_digits(chars@.subrange(from as int, to as int)),
{
    let mut i: usize = from;
    while i < to
        invariant
            from <= i <= to <= chars.len(),
            all_digits(chars@.subrange(from as int, i as int)),
        decreases to - i,
    {
        if !is_ascii_digit(chars[i]) {
            proof {
                assert(chars@.subrange(from as int, to as int)[i - from] == chars[i as int]);
            }
            return false;
        }
        i += 1;
    }
    true
}

/// `text` without the characters that equal `c`.
pub open spec fn without(text: Seq<char>, c: char) -> Seq<char>
    decreases text.len(),
{
    if text.len() == 0 {
        text
    } else if text.last() == c {
        without(text.drop_last(), c)
    } else {
        without(text.drop_last(), c).push(text.last())
    }
}

/// The characters of `chars` that do not equal `c`, in order.
pub fn remove_char(chars: &Vec<char>, c: char) -> (kept: Vec<char>)
    ensures
        kept@ == without(chars@, c),
{
    let mut kept: Vec<char> = Vec::new();
    let mut i: usize = 0;
    while i < chars.len()
        invariant
            i <= chars.len(),
            kept@ == without(chars@.take(i as int), c),
        decreases chars.len() - i,
    {
        proof {
            assert(chars@.take(i + 1).drop_last() == chars@.take(i as int));
        }
        if chars[i] != c {
            kept.push(chars[i]);
        }
        i += 1;
    }
    proof {
        assert(chars@.take(i as int) == chars@);
    }
    kept
}

/// The fields of `text` between the separators `separator`: one more than
/// there are separators, each possibly empty. The text without an element
/// has one empty field; a separator at its end starts a new, empty field; any
/// other element at its end belongs to the last field.
pub open spec fn split<T>(text: Seq<T>, separator: T) -> Seq<Seq<T>>
    decreases text.len(),
{
    if text.len() == 0 {
        seq![Seq::<T>::empty()]
    } else {
        let before = split(text.drop_last(), separator);
        if text.last() == separator {
            before.push(Seq::<T>::empty())
        } else {
            before.drop_last().push(before.last().push(text.last()))
        }
    }
}

/// There is at least one field.
pub proof fn lemma_split_nonempty<T>(text: Seq<T>, separator: T)
    ensures
        split(text, separator).len() >= 1,
    decreases text.len(),
{
    if text.len() > 0 {
        lemma_split_nonempty(text.drop_last(), separator);
    }
}

/// A text without a separator is its own single field.
pub proof fn lemma_split_single<T>(text: Seq<T>, separator: T)
    requires
        !text.contains(separator),
    ensures
        split(text, separator) == seq![text],
    decreases text.len(),
{
    if text.len() > 0 {
        let rest = text.drop_last();
        lemma_split_single(rest, separator);
        assert(seq![rest].drop_last().push(rest.push(text.last())) == seq![text]) by {
            assert(rest.push(text.last()) == text);
        }
    } else {
        assert(text == Seq::<T>::empty());
    }
}

/// A field that is too long stays too long, whatever follows the text: more
/// text leaves the fields before the last as they are and can only add to
/// the last.
pub proof fn lemma_split_grows<T>(text: Seq<T>, more: Seq<T>, separator: T)
    ensures
        split(text + more, separator).len() >= split(text, separator).len(),
        forall|k: int|
            0 <= k < split(text, separator).len() - 1 ==> #[trigger] split(
                text + more,
                separator,
            )[k] == split(text, separator)[k],
        split(text + more, separator)[split(text, separator).len() - 1].len() >= split(
            text,
            separator,
        ).last().len(),
    decreases more.len(),
{
    lemma_split_nonempty(text, separator);
    if more.len() == 0 {
    } else {
        let shorter = more.drop_last();
        lemma_split_grows(text, shorter, separator);
        lemma_split_nonempty(text + shorter, separator);
        assert((text + more).drop_last() == text + shorter);
    }
}

/// The views of the fields `fields`.
pub open spec fn fields_view(fields: Seq<Vec<char>>) -> Seq<Seq<char>> {
    fields.map_values(|field: Vec<char>| field@)
}

/// The fields of `chars` between the separators `separator`.
pub fn split_chars(chars: &Vec<char>, separator: char) -> (fields: Vec<Vec<char>>)
    ensures
        fields_view(fields@) == split(chars@, separator),
{
    let mut fields: Vec<Vec<char>> = Vec::new();
    let mut current: Vec<char> = Vec::new();
    let mut i: usize = 0;
    while i < chars.len()
        invariant
            i <= chars.len(),
            fields_view(fields@).push(current@) == split(chars@.take(i as int), separator),
        decreases chars.len() - i,
    {
        proof {
            assert(chars@.take(i + 1).drop_last() == chars@.take(i as int));
        }
        if chars[i] == separator {
            fields.push(current);
            current = Vec::new();
        } else {
            current.push(chars[i]);
        }
        i += 1;
    }
    proof {
        assert(chars@.take(i as int) == chars@);
    }
    fields.push(current);
    fields
}

/// Whether `c` is white space: a character with the Unicode property
/// `White_Space`.
pub open spec fn is_space(c: char) -> bool {
    ||| c == ' '
    ||| '\t' <= c <= '\r'
    ||| c == '\u{85}'
    ||| c == '\u{A0}'
    ||| c == '\u{1680}'
    ||| '\u{2000}' <= c <= '\u{200A}'
    ||| c == '\u{2028}'
    ||| c == '\u{2029}'
    ||| c == '\u{202F}'
    ||| c == '\u{205F}'
    ||| c == '\u{3000}'
}

/// `text` without the white space at its end.
pub open spec fn trimmed_end(text: Seq<char>) -> Seq<char>
    decreases text.len(),
{
    if text.len() > 0 && is_space(text.last()) {
        trimmed_end(text.drop_last())
    } else {
        text
    }
}

/// `text` without the white space at its start.
pub open spec fn trimmed_start(text: Seq<char>) -> Seq<char>
    decreases text.len(),
{
    if text.len() > 0 && is_space(text.first()) {
        trimmed_start(text.drop_first())
    } else {
        text
    }
}

/// `text` without the white space at its start and at its end.
pub open spec fn trimmed(text: Seq<char>) -> Seq<char> {
    trimmed_start(trimmed_end(text))
}

/// Whether `c` is white space.
pub fn is_white_space(c: char) -> (space: bool)
    ensures
        space == is_space(c),
{
    c == ' ' || ('\t' <= c && c <= '\r') || c == '\u{85}' || c == '\u{A0}' || c == '\u{1680}' || (
    '\u{2000}' <= c && c <= '\u{200A}') || c == '\u{2028}' || c == '\u{2029}' || c == '\u{202F}'
        || c == '\u{205F}' || c == '\u{3000}'
}

/// The text of `chars` without the white space at its start and at its end.
pub fn trim(chars: &Vec<char>) -> (text: String)
    ensures
        text@ == trimmed(chars@),
{
    let mut end: usize = chars.len();
    proof {
        assert(chars@.take(end as int) == chars@);
    }
    while end > 0 && is_white_space(chars[end - 1])
        invariant
            end <= chars.len(),
            trimmed_end(chars@) == trimmed_end(chars@.take(end as int)),
        decreases end,
    {
        proof {
            assert(chars@.take(end as int).drop_last() == chars@.take(end - 1));
        }
        end -= 1;
    }
    let mut start: usize = 0;
    while start < end && is_white_space(chars[start])
        invariant
            start <= end <= chars.len(),
            trimmed(chars@) == trimmed_start(chars@.subrange(start as int, end as int)),
        decreases end - start,
    {
        proof {
            assert(chars@.subrange(start as int, end as int).drop_first() == chars@.subrange(
                start + 1,
                end as int,
            ));
        }
        start += 1;
    }
    string_of(chars, start, end)
}

/// Whether `pattern` stands in `text` at the index `at`.
pub open spec fn occurs_at(text: Seq<char>, pattern: Seq<char>, at: int) -> bool {
    0 <= at && at + pattern.len() <= text.len() && text.subrange(at, at + pattern.len())
        == pattern
}

/// Whether `pattern` stands somewhere in `text`.
pub open spec fn contains_text(text: Seq<char>, pattern: Seq<char>) -> bool {
    exists|at: int| occurs_at(text, pattern, at)
}

/// Whether `pattern` stands in `chars` at the index `at`.
pub(crate) fn matches_at(chars: &Vec<char>, pattern: &Vec<char>, at: usize) -> (found: bool)
    requires
        at + pattern.len() <= chars.len(),
    ensures
        found == occurs_at(chars@, pattern@, at as int),
{
    let ghost part = chars@.subrange(at as int, at + pattern.len());
    let mut k: usize = 0;
    while k < pattern.len()
        invariant
            k <= pattern.len(),
            at + pattern.len() <= chars.len(),
            part == chars@.subrange(at as int, at + pattern.len()),
            forall|j: int| 0 <= j < k ==> part[j] == pattern[j],
        decreases pattern.len() - k,
    {
        if chars[at + k] != pattern[k] {
            return false;
        }
        k += 1;
    }
    proof {
        assert(part =~= pattern@);
    }
    true
}

/// Whether `pattern` stands somewhere in `chars`.
pub fn contains_chars(chars: &Vec<char>, pattern: &Vec<char>) -> (found: bool)
    ensures
        found == contains_text(chars@, pattern@),
{
    if pattern.len() > chars.len() {
        return false;
    }
    let last: usize = chars.len() - pattern.len();
    let mut at: usize = 0;
    loop
        invariant
            at <= last,
            last == chars.len() - pattern.len(),
            forall|j: int| 0 <= j < at ==> !occurs_at(chars@, pattern@, j),
        decreases last - at,
    {
        if matches_at(chars, pattern, at) {
            return true;
        }
        if at == last {
            return false;
        }
        at += 1;
    }
}

/// Whether `a` stands before `b` in the order of a dictionary: at the first
/// place where they differ `a` has the smaller character, or `a` ends there
/// and `b` goes on.
pub open spec fn text_before(a: Seq<char>, b: Seq<char>) -> bool
    decreases a.len(),
{
    if b.len() == 0 {
        false
    } else if a.len() == 0 {
        true
    } else if a.first() != b.first() {
        a.first() < b.first()
    } else {
        text_before(a.drop_first(), b.drop_first())
    }
}

/// No text stands before itself.
pub proof fn lemma_text_before_irreflexive(a: Seq<char>)
    ensures
        !text_before(a, a),
    decreases a.len(),
{
    if a.len() > 0 {
        lemma_text_before_irreflexive(a.drop_first());
    }
}

/// Of two different texts one stands before the other.
pub proof fn lemma_text_before_total(a: Seq<char>, b: Seq<char>)
    ensures
        a == b || text_before(a, b) || text_before(b, a),
    decreases a.len(),
{
    if a.len() > 0 && b.len() > 0 && a.first() == b.first() {
        lemma_text_before_total(a.drop_first(), b.drop_first());
        if a.drop_first() == b.drop_first() {
            assert(a =~= seq![a.first()] + a.drop_first());
            assert(b =~= seq![b.first()] + b.drop_first());
        }
    } else if a.len() == 0 && b.len() == 0 {
        assert(a =~= b);
    }
}

/// What stands before a text stands before all that the text stands before.
pub proof fn lemma_text_before_transitive(a: Seq<char>, b: Seq<char>, c: Seq<char>)
    requires
        text_before(a, b),
        text_before(b, c),
    ensures
        text_before(a, c),
    decreases a.len(),
{
    if a.len() > 0 && a.first() == b.first() && b.first() == c.first() {
        lemma_text_before_transitive(a.drop_first(), b.drop_first(), c.drop_first());
    }
}

/// Whether `a` stands before `b` in the order of a dictionary.
pub fn stands_before(a: &Vec<char>, b: &Vec<char>) -> (before: bool)
    ensures
        before == text_before(a@, b@),
{
    let mut i: usize = 0;
    proof {
        assert(a@.skip(0) == a@);
        assert(b@.skip(0) == b@);
    }
    while i < a.len() && i < b.len()
        invariant
            i <= a.len(),
            i <= b.len(),
            text_before(a@, b@) == text_before(a@.skip(i as int), b@.skip(i as int)),
        decreases a.len() - i,
    {
        proof {
            assert(a@.skip(i as int).drop_first() == a@.skip(i + 1));
            assert(b@.skip(i as int).drop_first() == b@.skip(i + 1));
        }
        if a[i] != b[i] {
            return a[i] < b[i];
        }
        i += 1;
    }
    i < b.len()
}

} // verus!
