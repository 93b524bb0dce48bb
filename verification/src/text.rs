//! Text that the cache writes: numbers in decimal, and comparison of strings.

use vstd::prelude::*;

verus! {

/// The character of a decimal digit.
pub open spec fn digit(d: nat) -> char
    recommends
        d < 10,
{
    seq!['0', '1', '2', '3', '4', '5', '6', '7', '8', '9'][d as int]
}

/// A number in decimal, without leading zeros.
pub open spec fn decimal(n: nat) -> Seq<char>
    decreases n,
{
    if n < 10 {
        seq![digit(n)]
    } else {
        decimal(n / 10).push(digit(n % 10))
    }
}

/// A number in decimal, filled up with zeros on the left to at least two digits.
pub open spec fn decimal2(n: nat) -> Seq<char> {
    if n < 10 {
        seq!['0', digit(n)]
    } else {
        decimal(n)
    }
}

/// Appends one decimal digit.
fn append_digit(text: &mut String, d: u64)
    requires
        d < 10,
    ensures
        final(text)@ == old(text)@.push(digit(d as nat)),
{
    proof {
        reveal_strlit("0");
        reveal_strlit("1");
        reveal_strlit("2");
        reveal_strlit("3");
        reveal_strlit("4");
        reveal_strlit("5");
        reveal_strlit("6");
        reveal_strlit("7");
        reveal_strlit("8");
        reveal_strlit("9");
    }
    let ghost before = text@;
    let c: &str = if d == 0 {
        "0"
    } else if d == 1 {
        "1"
    } else if d == 2 {
        "2"
    } else if d == 3 {
        "3"
    } else if d == 4 {
        "4"
    } else if d == 5 {
        "5"
    } else if d == 6 {
        "6"
    } else if d == 7 {
        "7"
    } else if d == 8 {
        "8"
    } else {
        "9"
    };
    text.append(c);
    assert(text@ =~= before.push(digit(d as nat)));
}

/// Appends a number in decimal.
pub fn append_decimal(text: &mut String, n: u64)
    ensures
        final(text)@ == old(text)@ + decimal(n as nat),
    decreases n,
{
    let ghost before = text@;
    if n < 10 {
        append_digit(text, n);
        assert(text@ =~= before + decimal(n as nat));
    } else {
        append_decimal(text, n / 10);
        append_digit(text, n % 10);
        assert(text@ =~= before + decimal(n as nat));
    }
}

/// Appends a large number in decimal.
pub fn append_large_decimal(text: &mut String, n: u128)
    ensures
        final(text)@ == old(text)@ + decimal(n as nat),
    decreases n,
{
    let ghost before = text@;
    if n < 10 {
        append_digit(text, n as u64);
        assert(text@ =~= before + decimal(n as nat));
    } else {
        append_large_decimal(text, n / 10);
        append_digit(text, (n % 10) as u64);
        assert(text@ =~= before + decimal(n as nat));
    }
}

/// Appends a number in decimal with at least two digits.
pub fn append_decimal2(text: &mut String, n: u64)
    ensures
        final(text)@ == old(text)@ + decimal2(n as nat),
{
    let ghost before = text@;
    if n < 10 {
        append_digit(text, 0);
        append_digit(text, n);
        assert(text@ =~= before + decimal2(n as nat));
    } else {
        append_decimal(text, n);
    }
}

/// A literal followed by a number in decimal.
pub fn labelled(label: &str, n: u64) -> (text: String)
    ensures
        text@ == label@ + decimal(n as nat),
{
    let mut text = String::new();
    text.append(label);
    append_decimal(&mut text, n);
    assert(text@ =~= label@ + decimal(n as nat));
    text
}

/// `String::push` adds a character at the end.
pub assume_specification[ String::push ](text: &mut String, ch: char)
    ensures
        final(text)@ == old(text)@.push(ch),
;

/// Whether a character is white space, as Unicode has it.
pub open spec fn unicode_whitespace(ch: char) -> bool {
    let code = ch as u32;
    ||| 0x9 <= code <= 0xD
    ||| code == 0x20
    ||| code == 0x85
    ||| code == 0xA0
    ||| code == 0x1680
    ||| 0x2000 <= code <= 0x200A
    ||| code == 0x2028
    ||| code == 0x2029
    ||| code == 0x202F
    ||| code == 0x205F
    ||| code == 0x3000
}

/// Whether a character is white space.
fn is_whitespace(ch: char) -> (is: bool)
    ensures
        is == unicode_whitespace(ch),
{
    let code: u32 = ch as u32;
    if code < 0x1680 {
        0x9 <= code && code <= 0xD || code == 0x20 || code == 0x85 || code == 0xA0
    } else {
        code == 0x1680 || 0x2000 <= code && code <= 0x200A || code == 0x2028 || code == 0x2029
            || code == 0x202F || code == 0x205F || code == 0x3000
    }
}

/// The characters of a text.
pub fn chars_of(text: &str) -> (chars: Vec<char>)
    ensures
        chars@ == text@,
{
    let mut chars: Vec<char> = Vec::new();
    for ch in iter: text.chars()
        invariant
            iter.seq() == text@,
            chars@ == text@.take(iter.index() as int),
    {
        chars.push(ch);
        assert(chars@ =~= text@.take(iter.index() + 1));
    }
    assert(chars@ =~= text@);
    chars
}

/// The text of part of a list of characters.
pub fn text_of(chars: &Vec<char>, from: usize, to: usize) -> (text: String)
    requires
        from <= to <= chars@.len(),
    ensures
        text@ == chars@.subrange(from as int, to as int),
{
    let mut text = String::new();
    let mut i: usize = from;
    while i < to
        invariant
            from <= i <= to,
            to <= chars@.len(),
            text@ == chars@.subrange(from as int, i as int),
        decreases to - i,
    {
        text.push(chars[i]);
        i += 1;
        assert(text@ =~= chars@.subrange(from as int, i as int));
    }
    text
}

/// Whether two strings hold the same characters.
pub fn same_text(a: &str, b: &str) -> (same: bool)
    ensures
        same == (a@ == b@),
{
    let a_chars = chars_of(a);
    let b_chars = chars_of(b);
    let n: usize = a_chars.len();
    if n != b_chars.len() {
        return false;
    }
    let mut i: usize = 0;
    while i < n
        invariant
            i <= n,
            n == a_chars@.len(),
            n == b_chars@.len(),
            a_chars@ == a@,
            b_chars@ == b@,
            forall|j: int| 0 <= j < i ==> a_chars@[j] == b_chars@[j],
        decreases n - i,
    {
        if a_chars[i] != b_chars[i] {
            assert(a@[i as int] != b@[i as int]);
            return false;
        }
        i += 1;
    }
    assert(a@ =~= b@);
    true
}

/// Whether a text ends with another.
pub open spec fn has_suffix(text: Seq<char>, suffix: Seq<char>) -> bool {
    suffix.len() <= text.len() && text.skip(text.len() - suffix.len()) == suffix
}

/// Whether a text ends with another.
pub fn ends_with(text: &str, suffix: &str) -> (ends: bool)
    ensures
        ends == has_suffix(text@, suffix@),
        ends <==> exists|rest: Seq<char>| text@ == #[trigger] (rest + suffix@),
{
    proof {
        suffix_is_what_follows_the_rest(text@, suffix@);
    }
    let chars = chars_of(text);
    let last = chars_of(suffix);
    let n: usize = last.len();
    let total: usize = chars.len();
    if total < n {
        return false;
    }
    let start: usize = total - n;
    let mut i: usize = 0;
    while i < n
        invariant
            i <= n,
            n == last@.len(),
            start + n == total,
            total == chars@.len(),
            chars@ == text@,
            last@ == suffix@,
            forall|j: int| 0 <= j < i ==> chars@[start + j] == last@[j],
        decreases n - i,
    {
        if chars[start + i] != last[i] {
            assert(text@.skip(start as int)[i as int] != suffix@[i as int]);
            return false;
        }
        i += 1;
    }
    assert(text@.skip(start as int) =~= suffix@);
    true
}

/// Whether a character occurs in a text.
pub fn contains_char(text: &str, ch: char) -> (contains: bool)
    ensures
        contains == text@.contains(ch),
{
    let chars = chars_of(text);
    let n: usize = chars.len();
    let mut i: usize = 0;
    while i < n
        invariant
            i <= n,
            n == chars@.len(),
            chars@ == text@,
            forall|j: int| 0 <= j < i ==> chars@[j] != ch,
        decreases n - i,
    {
        if chars[i] == ch {
            assert(text@[i as int] == ch);
            return true;
        }
        i += 1;
    }
    false
}

/// The parts of a text between the occurrences of a character.
pub open spec fn split_on(text: Seq<char>, separator: char) -> Seq<Seq<char>>
    decreases text.len(),
{
    if text.len() == 0 {
        seq![Seq::empty()]
    } else {
        let parts = split_on(text.drop_last(), separator);
        if text.last() == separator {
            parts.push(Seq::empty())
        } else {
            parts.drop_last().push(parts.last().push(text.last()))
        }
    }
}

/// Parts of a text, with a text between each and the next.
pub open spec fn joined(parts: Seq<Seq<char>>, separator: Seq<char>) -> Seq<char>
    decreases parts.len(),
{
    if parts.len() == 0 {
        Seq::empty()
    } else if parts.len() == 1 {
        parts[0]
    } else {
        joined(parts.drop_last(), separator) + separator + parts.last()
    }
}

/// The texts of a list of strings.
pub open spec fn texts(strings: Seq<String>) -> Seq<Seq<char>> {
    strings.map_values(|s: String| s@)
}

/// Cuts a text at the occurrences of a character.
pub fn split(text: &str, separator: char) -> (parts: Vec<String>)
    ensures
        texts(parts@) == split_on(text@, separator),
{
    let chars = chars_of(text);
    let n: usize = chars.len();
    let mut parts: Vec<String> = Vec::new();
    let mut current = String::new();
    let mut i: usize = 0;
    assert(texts(parts@).push(current@) =~= split_on(text@.take(0), separator));
    while i < n
        invariant
            i <= n,
            n == chars@.len(),
            chars@ == text@,
            texts(parts@).push(current@) == split_on(text@.take(i as int), separator),
        decreases n - i,
    {
        let ghost before = texts(parts@).push(current@);
        let ch: char = chars[i];
        proof {
            let t = text@.take(i + 1);
            assert(t.drop_last() =~= text@.take(i as int));
            assert(t.last() == ch);
            assert(before.drop_last() =~= texts(parts@));
            assert(before.last() == current@);
        }
        if ch == separator {
            parts.push(current);
            current = String::new();
            assert(texts(parts@) =~= before);
            assert(current@ =~= Seq::<char>::empty());
        } else {
            current.push(ch);
        }
        i += 1;
    }
    assert(text@.take(n as int) =~= text@);
    let ghost done = texts(parts@).push(current@);
    parts.push(current);
    assert(texts(parts@) =~= done);
    parts
}

/// Puts parts together, with a text between each and the next.
pub fn join(parts: &Vec<String>, separator: &str) -> (text: String)
    ensures
        text@ == joined(texts(parts@), separator@),
{
    let mut text = String::new();
    let n: usize = parts.len();
    let mut i: usize = 0;
    assert(texts(parts@.take(0)) =~= Seq::<Seq<char>>::empty());
    assert(text@ =~= joined(texts(parts@.take(0)), separator@));
    while i < n
        invariant
            i <= n,
            n == parts@.len(),
            text@ == joined(texts(parts@.take(i as int)), separator@),
        decreases n - i,
    {
        let ghost before = text@;
        if i > 0 {
            text.append(separator);
        }
        text.append(parts[i].as_str());
        proof {
            let p = texts(parts@.take(i + 1));
            assert(p.drop_last() =~= texts(parts@.take(i as int)));
            assert(p.last() == parts@[i as int]@);
            if i == 0 {
                assert(text@ =~= p[0]);
            } else {
                assert(text@ =~= before + separator@ + p.last());
            }
        }
        i += 1;
    }
    assert(parts@.take(n as int) =~= parts@);
    text
}

/// Whether a text is the part of another that is left without the white space around it.
pub open spec fn is_trimmed(text: Seq<char>, trimmed: Seq<char>) -> bool {
    exists|from: int, to: int|
        {
            &&& 0 <= from <= to <= text.len()
            &&& trimmed == #[trigger] text.subrange(from, to)
            &&& forall|i: int| 0 <= i < from ==> unicode_whitespace(#[trigger] text[i])
            &&& forall|i: int| to <= i < text.len() ==> unicode_whitespace(#[trigger] text[i])
            &&& from < to ==> !unicode_whitespace(text[from]) && !unicode_whitespace(text[to - 1])
        }
}

/// The part of a text that is left without the white space around it.
pub open spec fn trimmed(text: Seq<char>) -> Seq<char> {
    choose|t: Seq<char>| is_trimmed(text, t)
}

/// A text without the white space around it.
pub fn trim(text: &str) -> (rest: String)
    ensures
        is_trimmed(text@, rest@),
        rest@ == trimmed(text@),
{
    let chars = chars_of(text);
    let n: usize = chars.len();
    let mut from: usize = 0;
    while from < n && is_whitespace(chars[from])
        invariant
            from <= n,
            n == chars@.len(),
            forall|i: int| 0 <= i < from ==> unicode_whitespace(#[trigger] chars@[i]),
        ensures
            from < n ==> !unicode_whitespace(chars@[from as int]),
        decreases n - from,
    {
        from += 1;
    }
    let mut to: usize = n;
    while to > from && is_whitespace(chars[to - 1])
        invariant
            from <= to <= n,
            n == chars@.len(),
            forall|i: int| to <= i < n ==> unicode_whitespace(#[trigger] chars@[i]),
        ensures
            from < to ==> !unicode_whitespace(chars@[to - 1]),
        decreases to,
    {
        to -= 1;
    }
    let rest = text_of(&chars, from, to);
    assert(rest@ == text@.subrange(from as int, to as int));
    proof {
        trimming_is_unique(text@, rest@, trimmed(text@));
    }
    rest
}

/// Every character of a number in decimal is a digit.
pub proof fn lemma_decimal_digits(n: nat, i: int)
    requires
        0 <= i < decimal(n).len(),
    ensures
        '0' <= decimal(n)[i] <= '9',
    decreases n,
{
    if n >= 10 && i < decimal(n / 10).len() {
        lemma_decimal_digits(n / 10, i);
    }
}

/// Different numbers are written differently.
pub proof fn decimal_is_injective(a: nat, b: nat)
    requires
        decimal(a) == decimal(b),
    ensures
        a == b,
    decreases a,
{
    assert(decimal(a).len() >= 1 && decimal(b).len() >= 1);
    assert(decimal(a).last() == digit(a % 10));
    assert(decimal(b).last() == digit(b % 10));
    if a >= 10 && b >= 10 {
        assert(decimal(a).drop_last() =~= decimal(a / 10));
        assert(decimal(b).drop_last() =~= decimal(b / 10));
        decimal_is_injective(a / 10, b / 10);
    } else if a >= 10 {
        assert(decimal(a / 10).len() >= 1);
    } else if b >= 10 {
        assert(decimal(b / 10).len() >= 1);
    }
}

/// A text has only one part that is left without the white space around it.
pub proof fn trimming_is_unique(text: Seq<char>, a: Seq<char>, b: Seq<char>)
    requires
        is_trimmed(text, a),
        is_trimmed(text, b),
    ensures
        a == b,
{
    let (f, t): (int, int) = choose|f: int, t: int|
        {
            &&& 0 <= f <= t <= text.len()
            &&& a == #[trigger] text.subrange(f, t)
            &&& forall|i: int| 0 <= i < f ==> unicode_whitespace(#[trigger] text[i])
            &&& forall|i: int| t <= i < text.len() ==> unicode_whitespace(#[trigger] text[i])
            &&& f < t ==> !unicode_whitespace(text[f]) && !unicode_whitespace(text[t - 1])
        };
    let (g, u): (int, int) = choose|g: int, u: int|
        {
            &&& 0 <= g <= u <= text.len()
            &&& b == #[trigger] text.subrange(g, u)
            &&& forall|i: int| 0 <= i < g ==> unicode_whitespace(#[trigger] text[i])
            &&& forall|i: int| u <= i < text.len() ==> unicode_whitespace(#[trigger] text[i])
            &&& g < u ==> !unicode_whitespace(text[g]) && !unicode_whitespace(text[u - 1])
        };
    if f < t && g < u {
        assert(f == g);
        assert(t == u);
    } else if f < t {
        assert(unicode_whitespace(text[f]));
    } else if g < u {
        assert(unicode_whitespace(text[g]));
    } else {
        assert(a =~= b);
    }
}

/// Putting the parts of a text together again gives the text back.
pub proof fn joining_undoes_splitting(text: Seq<char>, separator: char)
    ensures
        split_on(text, separator).len() >= 1,
        joined(split_on(text, separator), seq![separator]) == text,
    decreases text.len(),
{
    if text.len() == 0 {
        assert(text =~= Seq::empty());
    } else {
        let init = text.drop_last();
        joining_undoes_splitting(init, separator);
        let parts = split_on(init, separator);
        let all = split_on(text, separator);
        assert(text =~= init.push(text.last()));
        if text.last() == separator {
            assert(all.drop_last() =~= parts);
            assert(joined(all, seq![separator]) =~= text);
        } else {
            assert(all.drop_last() =~= parts.drop_last());
            assert(joined(all, seq![separator]) =~= text);
        }
    }
}

/// No part of a text holds the character at which it was cut.
pub proof fn parts_hold_no_separator(text: Seq<char>, separator: char, k: int)
    requires
        0 <= k < split_on(text, separator).len(),
    ensures
        !split_on(text, separator)[k].contains(separator),
    decreases text.len(),
{
    if text.len() > 0 {
        let init = text.drop_last();
        joining_undoes_splitting(init, separator);
        let parts = split_on(init, separator);
        if text.last() == separator {
            if k < parts.len() {
                parts_hold_no_separator(init, separator, k);
            }
        } else {
            parts_hold_no_separator(init, separator, k);
            if k == parts.len() - 1 {
                let grown = parts.last().push(text.last());
                assert forall|i: int| 0 <= i < grown.len() implies grown[i] != separator by {
                    if i < parts.last().len() {
                        assert(parts[k][i] != separator);
                    }
                }
            }
        }
    }
}

/// There is one part more than there are occurrences of the character.
pub proof fn parts_count_separators(text: Seq<char>, separator: char)
    ensures
        split_on(text, separator).len() == text.filter(|c: char| c == separator).len() + 1,
    decreases text.len(),
{
    reveal(Seq::filter);
    if text.len() > 0 {
        joining_undoes_splitting(text.drop_last(), separator);
        parts_count_separators(text.drop_last(), separator);
    }
}

/// Every text has a part that is left without the white space around it.
pub proof fn trimming_exists(text: Seq<char>)
    ensures
        is_trimmed(text, trimmed(text)),
{
    let from = lemma_first_visible(text);
    let to = lemma_last_visible(text, from);
    assert(is_trimmed(text, text.subrange(from, to)));
}

proof fn lemma_first_visible(text: Seq<char>) -> (from: int)
    ensures
        0 <= from <= text.len(),
        forall|i: int| 0 <= i < from ==> unicode_whitespace(#[trigger] text[i]),
        from < text.len() ==> !unicode_whitespace(text[from]),
    decreases text.len(),
{
    if text.len() == 0 {
        0
    } else {
        let init = text.drop_last();
        let f = lemma_first_visible(init);
        assert forall|i: int| 0 <= i < f implies unicode_whitespace(#[trigger] text[i]) by {
            assert(init[i] == text[i]);
        }
        if f == init.len() && unicode_whitespace(text.last()) {
            f + 1
        } else {
            f
        }
    }
}

proof fn lemma_last_visible(text: Seq<char>, from: int) -> (to: int)
    requires
        0 <= from <= text.len(),
    ensures
        from <= to <= text.len(),
        forall|i: int| to <= i < text.len() ==> unicode_whitespace(#[trigger] text[i]),
        from < to ==> !unicode_whitespace(text[to - 1]),
    decreases text.len(),
{
    if text.len() == from || !unicode_whitespace(text.last()) {
        text.len() as int
    } else {
        let init = text.drop_last();
        let to = lemma_last_visible(init, from);
        assert forall|i: int| to <= i < text.len() implies unicode_whitespace(
            #[trigger] text[i],
        ) by {
            if i < init.len() {
                assert(init[i] == text[i]);
            }
        }
        to
    }
}

pub proof fn lemma_split_one(text: Seq<char>, separator: char)
    requires
        !text.contains(separator),
    ensures
        split_on(text, separator) == seq![text],
    decreases text.len(),
{
    if text.len() > 0 {
        let init = text.drop_last();
        assert(!init.contains(separator)) by {
            if init.contains(separator) {
                let i = choose|i: int| 0 <= i < init.len() && init[i] == separator;
                assert(text[i] == separator);
            }
        }
        lemma_split_one(init, separator);
        assert(text[text.len() - 1] != separator);
        assert(init.push(text.last()) =~= text);
        assert(split_on(text, separator) =~= seq![text]);
    } else {
        assert(text =~= Seq::empty());
    }
}

pub proof fn lemma_split_more(text: Seq<char>, separator: char, part: Seq<char>)
    requires
        !part.contains(separator),
    ensures
        split_on(text + seq![separator] + part, separator) == split_on(text, separator).push(part),
    decreases part.len(),
{
    let all = text + seq![separator] + part;
    if part.len() == 0 {
        assert(all.drop_last() =~= text);
        assert(part =~= Seq::empty());
    } else {
        let init = part.drop_last();
        assert(!init.contains(separator)) by {
            if init.contains(separator) {
                let i = choose|i: int| 0 <= i < init.len() && init[i] == separator;
                assert(part[i] == separator);
            }
        }
        lemma_split_more(text, separator, init);
        assert(all.drop_last() =~= text + seq![separator] + init);
        assert(part[part.len() - 1] != separator);
        assert(init.push(part.last()) =~= part);
        let before = split_on(text, separator).push(init);
        assert(before.drop_last() =~= split_on(text, separator));
        assert(split_on(all, separator) =~= split_on(text, separator).push(part));
    }
}

/// Parts that do not hold the character come back when they are joined with it and cut at it.
pub proof fn splitting_undoes_joining(parts: Seq<Seq<char>>, separator: char)
    requires
        parts.len() > 0,
        forall|k: int| 0 <= k < parts.len() ==> !(#[trigger] parts[k]).contains(separator),
    ensures
        split_on(joined(parts, seq![separator]), separator) == parts,
    decreases parts.len(),
{
    assert(!parts[parts.len() - 1].contains(separator));
    if parts.len() == 1 {
        lemma_split_one(parts[0], separator);
        assert(parts =~= seq![parts[0]]);
    } else {
        let init = parts.drop_last();
        assert forall|k: int| 0 <= k < init.len() implies !(#[trigger] init[k]).contains(
            separator,
        ) by {
            assert(init[k] == parts[k]);
        }
        splitting_undoes_joining(init, separator);
        lemma_split_more(joined(init, seq![separator]), separator, parts.last());
        assert(init.push(parts.last()) =~= parts);
    }
}

/// The number that digits stand for.
pub open spec fn number_of(digits: Seq<char>) -> int
    decreases digits.len(),
{
    if digits.len() == 0 {
        0
    } else {
        10 * number_of(digits.drop_last()) + (digits.last() as u32 - '0' as u32)
    }
}

/// A number in decimal is at least one digit, stands for the number, and starts with a zero only
/// where the number is zero.
pub proof fn decimal_stands_for_its_number(n: nat)
    ensures
        number_of(decimal(n)) == n,
        decimal(n).len() > 0,
        decimal(n)[0] == '0' <==> n == 0,
        n == 0 ==> decimal(n).len() == 1,
    decreases n,
{
    if n < 10 {
        assert(decimal(n).drop_last() =~= Seq::<char>::empty());
        assert(number_of(Seq::<char>::empty()) == 0);
    } else {
        decimal_stands_for_its_number(n / 10);
        assert(decimal(n).drop_last() =~= decimal(n / 10));
        assert(decimal(n)[0] == decimal(n / 10)[0]);
    }
}

/// Filled up to two digits, a number has two digits or more, stands for the number, and has a zero
/// in front exactly if one digit would do.
pub proof fn filled_decimal_stands_for_its_number(n: nat)
    ensures
        number_of(decimal2(n)) == n,
        decimal2(n).len() >= 2,
        n < 10 ==> decimal2(n).len() == 2,
        n < 10 <==> decimal2(n)[0] == '0',
        n >= 10 ==> decimal2(n) == decimal(n),
{
    decimal_stands_for_its_number(n);
    if n < 10 {
        assert(decimal2(n).drop_last() =~= seq!['0']);
        assert(seq!['0'].drop_last() =~= Seq::<char>::empty());
        assert(number_of(Seq::<char>::empty()) == 0);
        assert(number_of(seq!['0']) == 0);
    } else {
        decimal_stands_for_its_number(n / 10);
    }
}

/// A text ends with another exactly if it is something followed by the other.
pub proof fn suffix_is_what_follows_the_rest(text: Seq<char>, suffix: Seq<char>)
    ensures
        has_suffix(text, suffix) <==> exists|rest: Seq<char>| text == #[trigger] (rest + suffix),
{
    if has_suffix(text, suffix) {
        let rest = text.take(text.len() - suffix.len());
        assert(text =~= rest + suffix);
    }
    if exists|rest: Seq<char>| text == #[trigger] (rest + suffix) {
        let rest = choose|rest: Seq<char>| text == #[trigger] (rest + suffix);
        assert(text.skip(rest.len() as int) =~= suffix);
    }
}

/// Joining parts puts the text between each and the next, and nowhere else.
pub proof fn joining_goes_part_by_part(parts: Seq<Seq<char>>, part: Seq<char>, between: Seq<char>)
    ensures
        joined(Seq::<Seq<char>>::empty(), between).len() == 0,
        joined(seq![part], between) == part,
        parts.len() > 0 ==> joined(parts.push(part), between) == joined(parts, between) + between
            + part,
{
    assert(parts.push(part).drop_last() =~= parts);
}

/// The texts of strings stand in the order of the strings.
pub proof fn texts_are_those_of_the_strings(strings: Seq<String>, i: int)
    requires
        0 <= i < strings.len(),
    ensures
        texts(strings).len() == strings.len(),
        texts(strings)[i] == strings[i]@,
{
}

/// The part of a text that is left without the white space around it is the text but for white space
/// in front of it and behind it, and neither starts nor ends with white space.
pub proof fn trimming_takes_white_space_off(text: Seq<char>)
    ensures
        exists|front: Seq<char>, back: Seq<char>|
            {
                &&& text == #[trigger] (front + trimmed(text) + back)
                &&& forall|i: int| 0 <= i < front.len() ==> unicode_whitespace(#[trigger] front[i])
                &&& forall|i: int| 0 <= i < back.len() ==> unicode_whitespace(#[trigger] back[i])
            },
        trimmed(text).len() > 0 ==> !unicode_whitespace(trimmed(text)[0]) && !unicode_whitespace(
            trimmed(text).last(),
        ),
{
    trimming_exists(text);
    let (f, t): (int, int) = choose|f: int, t: int|
        {
            &&& 0 <= f <= t <= text.len()
            &&& trimmed(text) == #[trigger] text.subrange(f, t)
            &&& forall|i: int| 0 <= i < f ==> unicode_whitespace(#[trigger] text[i])
            &&& forall|i: int| t <= i < text.len() ==> unicode_whitespace(#[trigger] text[i])
            &&& f < t ==> !unicode_whitespace(text[f]) && !unicode_whitespace(text[t - 1])
        };
    let front = text.take(f);
    let back = text.skip(t);
    let rest = trimmed(text);
    assert(rest == text.subrange(f, t));
    assert(text =~= front + rest + back);
    assert forall|i: int| 0 <= i < front.len() implies unicode_whitespace(#[trigger] front[i]) by {
        assert(front[i] == text[i]);
    }
    assert forall|i: int| 0 <= i < back.len() implies unicode_whitespace(#[trigger] back[i]) by {
        assert(back[i] == text[t + i]);
    }
    if rest.len() > 0 {
        assert(rest[0] == text[f]);
        assert(rest.last() == text[t - 1]);
    }
}

/// Trimming a trimmed text changes nothing, nor does white space put around a text.
pub proof fn trimming_is_idempotent(text: Seq<char>)
    ensures
        trimmed(trimmed(text)) == trimmed(text),
{
    trimming_takes_white_space_off(text);
    trimming_exists(trimmed(text));
    let t = trimmed(text);
    assert(t.subrange(0, t.len() as int) =~= t);
    assert(is_trimmed(t, t));
    trimming_is_unique(t, t, trimmed(t));
}

/// White space is the tabulator, the ends of line, the form feed, the space and the no-break space,
/// and the spaces and separators that Unicode adds; nothing else is.
pub proof fn white_space_is_that_of_unicode(ch: char)
    ensures
        unicode_whitespace(ch) <==> ch == '\t' || ch == '\n' || ch == '\u{b}' || ch == '\u{c}' || ch
            == '\r' || ch == ' ' || ch == '\u{85}' || ch == '\u{a0}' || ch == '\u{1680}' || ch
            == '\u{2000}' || ch == '\u{2001}' || ch == '\u{2002}' || ch == '\u{2003}' || ch
            == '\u{2004}' || ch == '\u{2005}' || ch == '\u{2006}' || ch == '\u{2007}' || ch
            == '\u{2008}' || ch == '\u{2009}' || ch == '\u{200a}' || ch == '\u{2028}' || ch
            == '\u{2029}' || ch == '\u{202f}' || ch == '\u{205f}' || ch == '\u{3000}',
{
}

} // verus!
