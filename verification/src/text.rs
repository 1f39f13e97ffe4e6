//! Strings as sequences of characters: searching, trimming, building.

use vstd::prelude::*;

verus! {

/// [`String::push`] appends one character.
pub assume_specification[ String::push ](s: &mut String, c: char)
    ensures
        final(s)@ == old(s)@.push(c),
;

/// Whether `c` has the Unicode property `White_Space`.
pub open spec fn is_white_space(c: char) -> bool {
    ||| '\u{9}' <= c <= '\u{d}'
    ||| c == '\u{20}'
    ||| c == '\u{85}'
    ||| c == '\u{a0}'
    ||| c == '\u{1680}'
    ||| '\u{2000}' <= c <= '\u{200a}'
    ||| c == '\u{2028}'
    ||| c == '\u{2029}'
    ||| c == '\u{202f}'
    ||| c == '\u{205f}'
    ||| c == '\u{3000}'
}

/// [`char::is_whitespace`] tells whether a character has the Unicode property
/// `White_Space`, whose members [`is_white_space`] lists.
pub assume_specification[ char::is_whitespace ](c: char) -> (yes: bool)
    ensures
        yes == is_white_space(c),
;

/// The characters of `s`, in order.
pub(crate) fn chars_of(s: &str) -> (chars: Vec<char>)
    ensures
        chars@ == s@,
{
    let mut chars: Vec<char> = Vec::new();
    for c in it: s.chars()
        invariant
            chars@ == it.seq().take(it.index()),
            it.seq() == s@,
    {
        chars.push(c);
    }
    chars
}

/// The string made of `chars[from..to]`.
pub(crate) fn string_of(chars: &Vec<char>, from: usize, to: usize) -> (s: String)
    requires
        from <= to <= chars.len(),
    ensures
        s@ == chars@.subrange(from as int, to as int),
{
    let mut s = String::new();
    let mut i = from;
    while i < to
        invariant
            from <= i <= to <= chars.len(),
            s@ == chars@.subrange(from as int, i as int),
        decreases to - i,
    {
        s.push(chars[i]);
        i += 1;
    }
    s
}

/// Whether `pattern` stands in `text` at position `i`.
pub open spec fn occurs_at(text: Seq<char>, pattern: Seq<char>, i: int) -> bool {
    &&& 0 <= i
    &&& i + pattern.len() <= text.len()
    &&& text.subrange(i, i + pattern.len()) == pattern
}

/// Whether `pattern` stands anywhere in `text`.
pub open spec fn occurs_in(text: Seq<char>, pattern: Seq<char>) -> bool {
    exists|i: int| occurs_at(text, pattern, i)
}

/// Whether the first place at which `pattern` stands in `text` is `i`.
pub open spec fn first_at(text: Seq<char>, pattern: Seq<char>, i: int) -> bool {
    &&& occurs_at(text, pattern, i)
    &&& forall|j: int| 0 <= j < i ==> !occurs_at(text, pattern, j)
}

/// What stands in `text` behind the first `pattern` in it, if there is one.
pub open spec fn after_first(text: Seq<char>, pattern: Seq<char>) -> Option<Seq<char>> {
    if occurs_in(text, pattern) {
        let i = choose|i: int| first_at(text, pattern, i);
        Some(text.skip(i + pattern.len()))
    } else {
        None
    }
}

/// Where `pattern` first stands in `text` at `i`, [`after_first`] is what
/// follows it there.
pub proof fn after_first_is(text: Seq<char>, pattern: Seq<char>, i: int)
    requires
        first_at(text, pattern, i),
    ensures
        after_first(text, pattern) == Some(text.skip(i + pattern.len())),
{
    let k = choose|k: int| first_at(text, pattern, k);
    assert(first_at(text, pattern, k));
    assert(k == i);
}

proof fn lemma_first_exists(text: Seq<char>, pattern: Seq<char>, i: int) -> (first: int)
    requires
        occurs_at(text, pattern, i),
    ensures
        first_at(text, pattern, first),
    decreases i,
{
    if exists|j: int| 0 <= j < i && occurs_at(text, pattern, j) {
        let j = choose|j: int| 0 <= j < i && occurs_at(text, pattern, j);
        lemma_first_exists(text, pattern, j)
    } else {
        i
    }
}

/// [`after_first`] always cuts the text at a place where the pattern stands
/// and before which it does not.
pub proof fn after_first_splits(text: Seq<char>, pattern: Seq<char>)
    ensures
        after_first(text, pattern) is None <==> !occurs_in(text, pattern),
        after_first(text, pattern) matches Some(rest) ==> exists|i: int|
            first_at(text, pattern, i) && #[trigger] text.take(i) + pattern + rest == text,
{
    if occurs_in(text, pattern) {
        let some = choose|i: int| occurs_at(text, pattern, i);
        let i = lemma_first_exists(text, pattern, some);
        after_first_is(text, pattern, i);
        assert(text.take(i) + pattern + text.skip(i + pattern.len()) =~= text) by {
            assert(text.subrange(i, i + pattern.len()) == pattern);
            assert(text.take(i) + text.subrange(i, i + pattern.len()) + text.skip(
                i + pattern.len(),
            ) =~= text);
        }
    }
}

/// Looks for the first `pattern` in `text`; the answer is the position behind it.
pub(crate) fn find_after(text: &Vec<char>, pattern: &str) -> (behind: Option<usize>)
    ensures
        match behind {
            Some(k) => k <= text.len() && after_first(text@, pattern@) == Some(text@.skip(k as int)),
            None => after_first(text@, pattern@) is None,
        },
        behind is Some <==> occurs_in(text@, pattern@),
{
    let wanted = chars_of(pattern);
    let (n, m) = (text.len(), wanted.len());
    if m > n {
        return None;
    }
    let last = n - m;
    let mut i: usize = 0;
    loop
        invariant
            n == text.len(),
            m == wanted.len(),
            wanted@ == pattern@,
            last == n - m,
            i <= last,
            forall|j: int| 0 <= j < i ==> !occurs_at(text@, pattern@, j),
        decreases last - i,
    {
        let mut k: usize = 0;
        while k < m && text[i + k] == wanted[k]
            invariant
                n == text.len(),
                m == wanted.len(),
                last == n - m,
                i <= last,
                k <= m,
                forall|j: int| 0 <= j < k ==> text[i + j] == #[trigger] wanted[j],
            decreases m - k,
        {
            k += 1;
        }
        if k == m {
            proof {
                assert(text@.subrange(i as int, i + m) =~= pattern@);
                assert(first_at(text@, pattern@, i as int));
                after_first_is(text@, pattern@, i as int);
            }
            return Some(i + m);
        }
        assert(!occurs_at(text@, pattern@, i as int)) by {
            if occurs_at(text@, pattern@, i as int) {
                assert(text@.subrange(i as int, i + m)[k as int] == wanted[k as int]);
            }
        }
        if i == last {
            return None;
        }
        i += 1;
    }
}

/// `text` from its first character on that is no white space.
pub open spec fn trimmed_start(text: Seq<char>) -> Seq<char>
    decreases text.len(),
{
    if text.len() > 0 && is_white_space(text[0]) {
        trimmed_start(text.drop_first())
    } else {
        text
    }
}

/// `text` up to its last character that is no white space.
pub open spec fn trimmed_end(text: Seq<char>) -> Seq<char>
    decreases text.len(),
{
    if text.len() > 0 && is_white_space(text.last()) {
        trimmed_end(text.drop_last())
    } else {
        text
    }
}

/// `text` without the white space at either end.
pub open spec fn trimmed(text: Seq<char>) -> Seq<char> {
    trimmed_end(trimmed_start(text))
}

/// Trimming takes away exactly the white space around a text: what is left is
/// empty or neither begins nor ends with white space.
pub proof fn trimmed_is_core(text: Seq<char>) -> (ends: (int, int))
    ensures
        0 <= ends.0 <= ends.1 <= text.len(),
        trimmed(text) == text.subrange(ends.0, ends.1),
        forall|i: int|
            0 <= i < text.len() && !(ends.0 <= i < ends.1) ==> is_white_space(#[trigger] text[i]),
        ends.0 < ends.1 ==> !is_white_space(text[ends.0]) && !is_white_space(text[ends.1 - 1]),
{
    let start = lemma_trimmed_start(text);
    let end = lemma_trimmed_end(trimmed_start(text));
    assert forall|i: int|
        0 <= i < text.len() && !(start <= i < start + end) implies is_white_space(
        #[trigger] text[i],
    ) by {
        if i >= start {
            assert(trimmed_start(text)[i - start] == text[i]);
        }
    }
    assert(trimmed(text) =~= text.subrange(start, start + end));
    if end > 0 {
        assert(trimmed_start(text)[end - 1] == text[start + end - 1]);
    }
    (start, start + end)
}

proof fn lemma_trimmed_start(text: Seq<char>) -> (start: int)
    ensures
        0 <= start <= text.len(),
        trimmed_start(text) == text.skip(start),
        forall|i: int| 0 <= i < start ==> is_white_space(#[trigger] text[i]),
        start < text.len() ==> !is_white_space(text[start]),
    decreases text.len(),
{
    if text.len() > 0 && is_white_space(text[0]) {
        let rest = text.drop_first();
        let start = lemma_trimmed_start(rest);
        assert(rest.skip(start) =~= text.skip(start + 1));
        assert forall|i: int| 0 <= i < start + 1 implies is_white_space(#[trigger] text[i]) by {
            if i > 0 {
                assert(rest[i - 1] == text[i]);
            }
        }
        start + 1
    } else {
        assert(text.skip(0) =~= text);
        0
    }
}

proof fn lemma_trimmed_end(text: Seq<char>) -> (end: int)
    ensures
        0 <= end <= text.len(),
        trimmed_end(text) == text.take(end),
        forall|i: int| end <= i < text.len() ==> is_white_space(#[trigger] text[i]),
        end > 0 ==> !is_white_space(text[end - 1]),
    decreases text.len(),
{
    if text.len() > 0 && is_white_space(text.last()) {
        let rest = text.drop_last();
        let end = lemma_trimmed_end(rest);
        assert(rest.take(end) =~= text.take(end));
        assert forall|i: int| end <= i < text.len() implies is_white_space(#[trigger] text[i]) by {
            if i < rest.len() {
                assert(rest[i] == text[i]);
            }
        }
        end
    } else {
        assert(text.take(text.len() as int) =~= text);
        text.len() as int
    }
}

/// The string made of `text[from..]` without the white space at either end.
pub(crate) fn trim_from(text: &Vec<char>, from: usize) -> (s: String)
    requires
        from <= text.len(),
    ensures
        s@ == trimmed(text@.skip(from as int)),
{
    let ghost whole = text@.skip(from as int);
    let mut start = from;
    while start < text.len() && text[start].is_whitespace()
        invariant
            from <= start <= text.len(),
            whole == text@.skip(from as int),
            trimmed_start(text@.skip(start as int)) == trimmed_start(whole),
        decreases text.len() - start,
    {
        assert(text@.skip(start as int).drop_first() =~= text@.skip(start + 1));
        start += 1;
    }
    let mut end = text.len();
    assert(text@.subrange(start as int, end as int) =~= text@.skip(start as int));
    while end > start && text[end - 1].is_whitespace()
        invariant
            start <= end <= text.len(),
            trimmed_end(text@.subrange(start as int, end as int)) == trimmed(whole),
        decreases end,
    {
        assert(text@.subrange(start as int, end as int).drop_last() =~= text@.subrange(
            start as int,
            end - 1,
        ));
        end -= 1;
    }
    string_of(text, start, end)
}

/// Whether `c` is an ASCII digit.
pub open spec fn is_digit(c: char) -> bool {
    '0' <= c <= '9'
}

/// The ASCII digits with which `text` begins.
pub open spec fn leading_digits(text: Seq<char>) -> Seq<char>
    decreases text.len(),
{
    if text.len() > 0 && is_digit(text[0]) {
        seq![text[0]] + leading_digits(text.drop_first())
    } else {
        Seq::empty()
    }
}

/// [`leading_digits`] is the longest run of digits at the beginning of a text.
pub proof fn leading_digits_are_longest_run(text: Seq<char>)
    ensures
        leading_digits(text).len() <= text.len(),
        leading_digits(text) == text.take(leading_digits(text).len() as int),
        forall|i: int|
            0 <= i < leading_digits(text).len() ==> is_digit(#[trigger] leading_digits(text)[i]),
        leading_digits(text).len() < text.len() ==> !is_digit(
            text[leading_digits(text).len() as int],
        ),
    decreases text.len(),
{
    if text.len() > 0 && is_digit(text[0]) {
        leading_digits_are_longest_run(text.drop_first());
        let rest = leading_digits(text.drop_first());
        assert(leading_digits(text) =~= seq![text[0]] + rest);
        assert(leading_digits(text) =~= text.take(rest.len() as int + 1));
    } else {
        assert(text.take(0) =~= Seq::<char>::empty());
    }
}

/// The string made of the ASCII digits with which `text[from..]` begins.
pub(crate) fn digits_from(text: &Vec<char>, from: usize) -> (s: String)
    requires
        from <= text.len(),
    ensures
        s@ == leading_digits(text@.skip(from as int)),
{
    let mut s = String::new();
    let mut i = from;
    while i < text.len() && '0' <= text[i] && text[i] <= '9'
        invariant
            from <= i <= text.len(),
            s@ + leading_digits(text@.skip(i as int)) == leading_digits(text@.skip(from as int)),
        decreases text.len() - i,
    {
        assert(text@.skip(i as int).drop_first() =~= text@.skip(i + 1));
        let ghost before = s@;
        s.push(text[i]);
        assert(s@ + leading_digits(text@.skip(i + 1)) =~= before + leading_digits(
            text@.skip(i as int),
        ));
        i += 1;
    }
    assert(s@ + Seq::<char>::empty() =~= s@);
    s
}

/// The ASCII digit for `n`, which is below ten.
pub open spec fn digit(n: nat) -> char {
    ('0' as nat + n) as char
}

/// `n` in decimal, without leading zeros.
pub open spec fn decimal(n: nat) -> Seq<char>
    decreases n,
{
    if n < 10 {
        seq![digit(n)]
    } else {
        decimal(n / 10).push(digit(n % 10))
    }
}

/// Writes `n` in decimal.
pub(crate) fn decimal_of(n: u16) -> (s: String)
    ensures
        s@ == decimal(n as nat),
    decreases n,
{
    let mut s = if n < 10 {
        String::new()
    } else {
        decimal_of(n / 10)
    };
    s.push(('0' as u8 + (n % 10) as u8) as char);
    assert(s@ =~= decimal(n as nat));
    s
}

/// The string `a` followed by the string `b`.
pub(crate) fn joined(a: &str, b: &str) -> (s: String)
    ensures
        s@ == a@ + b@,
{
    let mut s = a.to_string();
    s.append(b);
    s
}

/// A text that is split around a pattern holds it there.
pub(crate) proof fn lemma_split_occurs(x: Seq<char>, pattern: Seq<char>, y: Seq<char>)
    ensures
        occurs_at(x + pattern + y, pattern, x.len() as int),
{
    assert((x + pattern + y).subrange(x.len() as int, x.len() as int + pattern.len()) =~= pattern);
}

/// A text that holds a pattern somewhere can be split around it there.
pub(crate) proof fn lemma_occurs_split(text: Seq<char>, pattern: Seq<char>, i: int)
    requires
        occurs_at(text, pattern, i),
    ensures
        text.take(i) + pattern + text.skip(i + pattern.len()) == text,
{
    assert(text.take(i) + text.subrange(i, i + pattern.len()) + text.skip(i + pattern.len())
        =~= text);
}

/// A text holds a pattern exactly where it can be split around it.
pub(crate) proof fn lemma_occurs_iff_split(text: Seq<char>, pattern: Seq<char>)
    ensures
        occurs_in(text, pattern) <==> exists|x: Seq<char>, y: Seq<char>|
            #[trigger] (x + pattern + y) == text,
{
    if occurs_in(text, pattern) {
        let i = choose|i: int| occurs_at(text, pattern, i);
        lemma_occurs_split(text, pattern, i);
    }
    if exists|x: Seq<char>, y: Seq<char>| #[trigger] (x + pattern + y) == text {
        let (x, y) = choose|x: Seq<char>, y: Seq<char>| #[trigger] (x + pattern + y) == text;
        lemma_split_occurs(x, pattern, y);
    }
}

/// What follows the first split of a text around a pattern is what
/// [`after_first`] gives.
pub(crate) proof fn lemma_after_first_split(
    text: Seq<char>,
    before: Seq<char>,
    pattern: Seq<char>,
    rest: Seq<char>,
)
    requires
        text == before + pattern + rest,
        forall|x: Seq<char>, y: Seq<char>|
            #[trigger] (x + pattern + y) == text ==> before.len() <= x.len(),
    ensures
        after_first(text, pattern) == Some(rest),
{
    lemma_split_occurs(before, pattern, rest);
    assert forall|j: int| 0 <= j < before.len() implies !occurs_at(text, pattern, j) by {
        if occurs_at(text, pattern, j) {
            lemma_occurs_split(text, pattern, j);
            assert(text.take(j).len() == j);
        }
    }
    after_first_is(text, pattern, before.len() as int);
    assert(text.skip(before.len() as int + pattern.len()) =~= rest);
}

/// Trimming takes the white space off that was put around a text.
pub(crate) proof fn lemma_trimmed_of_parts(lead: Seq<char>, core: Seq<char>, tail: Seq<char>)
    requires
        forall|i: int| 0 <= i < lead.len() ==> is_white_space(#[trigger] lead[i]),
        forall|i: int| 0 <= i < tail.len() ==> is_white_space(#[trigger] tail[i]),
        core.len() > 0,
        !is_white_space(core[0]),
        !is_white_space(core.last()),
    ensures
        trimmed(lead + core + tail) == core,
    decreases lead.len() + tail.len(),
{
    let text = lead + core + tail;
    if lead.len() > 0 {
        let less = lead.drop_first();
        assert(text[0] == lead[0]);
        assert(text.drop_first() =~= less + core + tail);
        assert forall|i: int| 0 <= i < less.len() implies is_white_space(#[trigger] less[i]) by {
            assert(less[i] == lead[i + 1]);
        }
        lemma_trimmed_of_parts(less, core, tail);
    } else {
        assert(text =~= core + tail);
        assert(text[0] == core[0]);
        assert(trimmed_start(text) == text);
        if tail.len() > 0 {
            let less = tail.drop_last();
            assert(text.last() == tail.last());
            assert(text.drop_last() =~= lead + core + less);
            assert forall|i: int| 0 <= i < less.len() implies is_white_space(
                #[trigger] less[i],
            ) by {
                assert(less[i] == tail[i]);
            }
            lemma_trimmed_of_parts(lead, core, less);
            assert((lead + core + less)[0] == core[0]);
        } else {
            assert(text =~= core);
        }
    }
}

/// Nothing is left of a text that is all white space.
pub(crate) proof fn lemma_trimmed_blank(text: Seq<char>)
    requires
        forall|i: int| 0 <= i < text.len() ==> is_white_space(#[trigger] text[i]),
    ensures
        trimmed(text) == Seq::<char>::empty(),
    decreases text.len(),
{
    if text.len() > 0 {
        let less = text.drop_first();
        assert forall|i: int| 0 <= i < less.len() implies is_white_space(#[trigger] less[i]) by {
            assert(less[i] == text[i + 1]);
        }
        assert(is_white_space(text[0]));
        lemma_trimmed_blank(less);
    } else {
        assert(text =~= Seq::<char>::empty());
    }
}

/// The digits put before a text that begins with none are its leading digits.
pub(crate) proof fn lemma_leading_digits_of_parts(digits: Seq<char>, rest: Seq<char>)
    requires
        forall|i: int| 0 <= i < digits.len() ==> '0' <= #[trigger] digits[i] <= '9',
        rest.len() > 0 ==> !('0' <= rest[0] <= '9'),
    ensures
        leading_digits(digits + rest) == digits,
    decreases digits.len(),
{
    let text = digits + rest;
    if digits.len() > 0 {
        let less = digits.drop_first();
        assert(text[0] == digits[0]);
        assert(text.drop_first() =~= less + rest);
        assert forall|i: int| 0 <= i < less.len() implies '0' <= #[trigger] less[i] <= '9' by {
            assert(less[i] == digits[i + 1]);
        }
        lemma_leading_digits_of_parts(less, rest);
        assert(leading_digits(text) =~= digits);
    } else {
        assert(text =~= rest);
        assert(digits =~= Seq::<char>::empty());
    }
}

/// The characters that count as white space are the twenty-five with the Unicode
/// property `White_Space`.
pub proof fn white_space_is_listed(c: char)
    ensures
        is_white_space(c) <==> seq![
            0x9int,
            0xa,
            0xb,
            0xc,
            0xd,
            0x20,
            0x85,
            0xa0,
            0x1680,
            0x2000,
            0x2001,
            0x2002,
            0x2003,
            0x2004,
            0x2005,
            0x2006,
            0x2007,
            0x2008,
            0x2009,
            0x200a,
            0x2028,
            0x2029,
            0x202f,
            0x205f,
            0x3000,
        ].contains(c as int),
{
    let codes = seq![
        0x9int,
        0xa,
        0xb,
        0xc,
        0xd,
        0x20,
        0x85,
        0xa0,
        0x1680,
        0x2000,
        0x2001,
        0x2002,
        0x2003,
        0x2004,
        0x2005,
        0x2006,
        0x2007,
        0x2008,
        0x2009,
        0x200a,
        0x2028,
        0x2029,
        0x202f,
        0x205f,
        0x3000,
    ];
    let code = c as int;
    if is_white_space(c) {
        let i = if code <= 0xd {
            code - 9
        } else if code == 0x20 {
            5
        } else if code == 0x85 {
            6
        } else if code == 0xa0 {
            7
        } else if code == 0x1680 {
            8
        } else if code <= 0x200a {
            code - 0x2000 + 9
        } else if code == 0x2028 {
            20
        } else if code == 0x2029 {
            21
        } else if code == 0x202f {
            22
        } else if code == 0x205f {
            23
        } else {
            24
        };
        assert(codes[i] == code);
    }
}

/// The number that a run of digits means.
pub open spec fn number_of(digits: Seq<char>) -> int
    decreases digits.len(),
{
    if digits.len() == 0 {
        0
    } else {
        number_of(digits.drop_last()) * 10 + (digits.last() as int - '0' as int)
    }
}

/// A number in decimal is a run of digits that means it and does not begin with a
/// zero, unless the number is zero.
pub proof fn decimal_means_number(n: nat)
    ensures
        number_of(decimal(n)) == n,
        decimal(n).len() > 0,
        forall|i: int| 0 <= i < decimal(n).len() ==> '0' <= #[trigger] decimal(n)[i] <= '9',
        n > 0 ==> decimal(n)[0] != '0',
        n == 0 ==> decimal(n).len() == 1,
    decreases n,
{
    reveal_with_fuel(number_of, 2);
    if n >= 10 {
        decimal_means_number(n / 10);
        assert(decimal(n).drop_last() =~= decimal(n / 10));
        assert(decimal(n)[0] == decimal(n / 10)[0]);
    } else {
        assert(decimal(n).drop_last() =~= Seq::<char>::empty());
    }
}

} // verus!
