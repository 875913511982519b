//! Plain text: the order that keys are held in, blankness, and decimal numbers.

use vstd::prelude::*;

use crate::views;

verus! {

/// Where one text stands relative to another.
#[derive(Debug, Clone, Copy, PartialEq, Eq, Structural)]
pub enum Place {
    Before,
    Same,
    After,
}

/// The order of texts by code point, the first difference deciding and a
/// proper prefix standing first.
pub open spec fn text_before(a: Seq<char>, b: Seq<char>) -> bool
    decreases a.len(),
{
    if b.len() == 0 {
        false
    } else if a.len() == 0 {
        true
    } else if a[0] == b[0] {
        text_before(a.drop_first(), b.drop_first())
    } else {
        (a[0] as int) < (b[0] as int)
    }
}

pub proof fn text_before_irreflexive(a: Seq<char>)
    ensures
        !text_before(a, a),
    decreases a.len(),
{
    if a.len() > 0 {
        text_before_irreflexive(a.drop_first());
    }
}

pub proof fn text_before_transitive(a: Seq<char>, b: Seq<char>, c: Seq<char>)
    requires
        text_before(a, b),
        text_before(b, c),
    ensures
        text_before(a, c),
    decreases a.len(),
{
    if a.len() > 0 && a[0] == b[0] && b[0] == c[0] {
        text_before_transitive(a.drop_first(), b.drop_first(), c.drop_first());
    }
}

pub proof fn text_before_total(a: Seq<char>, b: Seq<char>)
    ensures
        text_before(a, b) || text_before(b, a) || a == b,
    decreases a.len(),
{
    if a.len() > 0 && b.len() > 0 && a[0] == b[0] {
        text_before_total(a.drop_first(), b.drop_first());
        if a.drop_first() == b.drop_first() {
            assert(a =~= seq![a[0]] + a.drop_first());
            assert(b =~= seq![b[0]] + b.drop_first());
        }
    } else if a.len() == 0 && b.len() == 0 {
        assert(a =~= b);
    }
}

/// What a comparison of the texts `a` and `b` reports.
pub open spec fn text_place(a: Seq<char>, b: Seq<char>) -> Place {
    if a == b {
        Place::Same
    } else if text_before(a, b) {
        Place::Before
    } else {
        Place::After
    }
}

proof fn text_place_steps(a: Seq<char>, b: Seq<char>)
    ensures
        a.len() > 0 && b.len() > 0 && a[0] == b[0] ==> text_place(a, b) == text_place(
            a.drop_first(),
            b.drop_first(),
        ),
        a.len() == 0 && b.len() == 0 ==> text_place(a, b) == Place::Same,
{
    if a.len() == 0 && b.len() == 0 {
        assert(a =~= b);
    }
    if a.len() > 0 && b.len() > 0 && a[0] == b[0] {
        if a.drop_first() == b.drop_first() {
            assert(a =~= seq![a[0]] + a.drop_first());
            assert(b =~= seq![b[0]] + b.drop_first());
            assert(a == b);
        }
    }
}

/// Compares two texts by code point.
pub fn place_text(a: &str, b: &str) -> (place: Place)
    ensures
        place == text_place(a@, b@),
{
    let mut left = a.chars();
    let mut right = b.chars();
    loop
        invariant
            text_place(
                vstd::std_specs::iter::IteratorSpec::remaining(&left),
                vstd::std_specs::iter::IteratorSpec::remaining(&right),
            ) == text_place(a@, b@),
            vstd::std_specs::iter::IteratorSpec::decrease(&left) is Some,
        decreases vstd::std_specs::iter::IteratorSpec::decrease(&left)->0,
    {
        let ghost rest_a = vstd::std_specs::iter::IteratorSpec::remaining(&left);
        let ghost rest_b = vstd::std_specs::iter::IteratorSpec::remaining(&right);
        let x = left.next();
        let y = right.next();
        proof {
            text_place_steps(rest_a, rest_b);
        }
        match (x, y) {
            (None, None) => {
                return Place::Same;
            },
            (None, Some(_)) => {
                return Place::Before;
            },
            (Some(_), None) => {
                return Place::After;
            },
            (Some(c), Some(d)) => {
                if c < d {
                    return Place::Before;
                }
                if d < c {
                    return Place::After;
                }
            },
        }
    }
}

/// Whether two texts are the same.
pub fn same_text(a: &str, b: &str) -> (same: bool)
    ensures
        same == (a@ == b@),
{
    match place_text(a, b) {
        Place::Same => true,
        _ => false,
    }
}

/// The characters of a text.
pub fn chars_of(text: &str) -> (chars: Vec<char>)
    ensures
        chars@ == text@,
{
    let mut rest = text.chars();
    let mut chars: Vec<char> = Vec::new();
    assert(chars@ + vstd::std_specs::iter::IteratorSpec::remaining(&rest) =~= text@);
    loop
        invariant
            chars@ + vstd::std_specs::iter::IteratorSpec::remaining(&rest) == text@,
            vstd::std_specs::iter::IteratorSpec::decrease(&rest) is Some,
        decreases vstd::std_specs::iter::IteratorSpec::decrease(&rest)->0,
    {
        let ghost left = vstd::std_specs::iter::IteratorSpec::remaining(&rest);
        match rest.next() {
            None => {
                assert(chars@ + left =~= chars@);
                return chars;
            },
            Some(c) => {
                assert(chars@ + left =~= chars@.push(c) + left.drop_first());
                chars.push(c);
            },
        }
    }
}

/// `String::push` of std puts a character behind the ones there are.
pub assume_specification[ std::string::String::push ](held: &mut std::string::String, c: char)
    ensures
        final(held)@ == old(held)@.push(c),
;

/// The text made of the characters from `start` up to `end`.
pub fn text_between(chars: &Vec<char>, start: usize, end: usize) -> (text: String)
    requires
        start <= end <= chars@.len(),
    ensures
        text@ == chars@.subrange(start as int, end as int),
{
    let mut text = String::new();
    let mut index: usize = start;
    assert(text@ =~= chars@.subrange(start as int, start as int));
    while index < end
        invariant
            start <= index <= end <= chars@.len(),
            text@ == chars@.subrange(start as int, index as int),
        decreases end - index,
    {
        text.push(chars[index]);
        assert(chars@.subrange(start as int, index + 1) =~= chars@.subrange(
            start as int,
            index as int,
        ).push(chars@[index as int]));
        index += 1;
    }
    text
}

/// Whether a character is white space: the code points with the Unicode
/// property `White_Space`.
pub open spec fn white(c: char) -> bool {
    let n = c as u32;
    ||| 0x09 <= n <= 0x0d
    ||| n == 0x20
    ||| n == 0x85
    ||| n == 0xa0
    ||| n == 0x1680
    ||| 0x2000 <= n <= 0x200a
    ||| n == 0x2028
    ||| n == 0x2029
    ||| n == 0x202f
    ||| n == 0x205f
    ||| n == 0x3000
}

pub fn is_white(c: char) -> (is: bool)
    ensures
        is == white(c),
{
    let n = c as u32;
    (0x09 <= n && n <= 0x0d) || n == 0x20 || n == 0x85 || n == 0xa0 || n == 0x1680 || (0x2000 <= n
        && n <= 0x200a) || n == 0x2028 || n == 0x2029 || n == 0x202f || n == 0x205f || n == 0x3000
}

/// Text with nothing in it but white space.
pub open spec fn blank(text: Seq<char>) -> bool {
    forall|i: int| 0 <= i < text.len() ==> white(#[trigger] text[i])
}

pub fn is_blank(text: &str) -> (is: bool)
    ensures
        is == blank(text@),
{
    let chars = chars_of(text);
    let mut index: usize = 0;
    while index < chars.len()
        invariant
            index <= chars@.len(),
            chars@ == text@,
            forall|i: int| 0 <= i < index ==> white(#[trigger] text@[i]),
        decreases chars@.len() - index,
    {
        if !is_white(chars[index]) {
            assert(!white(text@[index as int]));
            return false;
        }
        index += 1;
    }
    true
}

/// Text in which some character satisfies `test`.
pub open spec fn holds_char(text: Seq<char>, test: spec_fn(char) -> bool) -> bool {
    exists|i: int| 0 <= i < text.len() && test(#[trigger] text[i])
}

/// Whether the text holds the character `c`.
pub fn has_char(text: &str, c: char) -> (has: bool)
    ensures
        has == text@.contains(c),
{
    let chars = chars_of(text);
    let mut index: usize = 0;
    while index < chars.len()
        invariant
            index <= chars@.len(),
            chars@ == text@,
            forall|i: int| 0 <= i < index ==> #[trigger] text@[i] != c,
        decreases chars@.len() - index,
    {
        if chars[index] == c {
            assert(text@[index as int] == c);
            return true;
        }
        index += 1;
    }
    false
}

/// Whether the text holds white space anywhere.
pub fn has_white(text: &str) -> (has: bool)
    ensures
        has == holds_char(text@, |c: char| white(c)),
{
    let chars = chars_of(text);
    let mut index: usize = 0;
    while index < chars.len()
        invariant
            index <= chars@.len(),
            chars@ == text@,
            forall|i: int| 0 <= i < index ==> !white(#[trigger] text@[i]),
        decreases chars@.len() - index,
    {
        if is_white(chars[index]) {
            assert(white(text@[index as int]));
            return true;
        }
        index += 1;
    }
    false
}

/// The numeral of a number below ten.
pub open spec fn digit(n: u64) -> Seq<char> {
    match n {
        0 => "0"@,
        1 => "1"@,
        2 => "2"@,
        3 => "3"@,
        4 => "4"@,
        5 => "5"@,
        6 => "6"@,
        7 => "7"@,
        8 => "8"@,
        _ => "9"@,
    }
}

/// A number in decimal.
pub open spec fn decimal(n: nat) -> Seq<char>
    decreases n,
{
    if n < 10 {
        digit(n as u64)
    } else {
        decimal(n / 10) + digit((n % 10) as u64)
    }
}

pub fn decimal_text(n: u64) -> (text: String)
    ensures
        text@ == decimal(n as nat),
    decreases n,
{
    let last: &str = match n % 10 {
        0 => "0",
        1 => "1",
        2 => "2",
        3 => "3",
        4 => "4",
        5 => "5",
        6 => "6",
        7 => "7",
        8 => "8",
        _ => "9",
    };
    if n < 10 {
        last.to_owned()
    } else {
        decimal_text(n / 10).concat(last)
    }
}

/// The number that a numeral in decimal stands for, if it is one and is in range.
pub open spec fn number_in(digits: Seq<char>) -> Option<u64>
    decreases digits.len(),
{
    if digits.len() == 0 || !is_digit(digits.last()) {
        None
    } else if digits.len() == 1 {
        Some((digits[0] as int - '0' as int) as u64)
    } else {
        match number_in(digits.drop_last()) {
            None => None,
            Some(front) => {
                let n = front * 10 + (digits.last() as int - '0' as int);
                if n <= u64::MAX {
                    Some(n as u64)
                } else {
                    None
                }
            },
        }
    }
}

pub open spec fn is_digit(c: char) -> bool {
    '0' <= c && c <= '9'
}

pub fn read_number(text: &str) -> (n: Option<u64>)
    ensures
        n == number_in(text@),
{
    let chars = chars_of(text);
    if chars.len() == 0 {
        return None;
    }
    let mut so_far: Option<u64> = None;
    let mut index: usize = 0;
    while index < chars.len()
        invariant
            index <= chars@.len(),
            chars@ == text@,
            so_far == number_in(text@.take(index as int)),
            index > 0 ==> so_far is Some,
            chars@.len() > 0,
        decreases chars@.len() - index,
    {
        let c = chars[index];
        proof {
            assert(text@.take(index + 1).drop_last() =~= text@.take(index as int));
            assert(text@.take(index + 1).last() == c);
        }
        let digit: Option<u64> = if '0' <= c && c <= '9' {
            Some((c as u32 - '0' as u32) as u64)
        } else {
            None
        };
        let next = match digit {
            None => None,
            Some(d) => if index == 0 {
                Some(d)
            } else {
                match so_far {
                    None => None,
                    Some(front) => if front > (u64::MAX - d) / 10 {
                        None
                    } else {
                        Some(front * 10 + d)
                    },
                }
            },
        };
        assert(next == number_in(text@.take(index + 1)));
        match next {
            None => {
                proof {
                    number_in_extends(text@, index + 1);
                }
                return None;
            },
            Some(n) => {
                so_far = Some(n);
            },
        }
        index += 1;
    }
    assert(text@.take(index as int) =~= text@);
    so_far
}

proof fn number_in_extends(digits: Seq<char>, n: int)
    requires
        0 < n <= digits.len(),
        number_in(digits.take(n)) is None,
    ensures
        number_in(digits) is None,
    decreases digits.len() - n,
{
    if n == digits.len() {
        assert(digits.take(n) =~= digits);
    } else {
        assert(digits.take(n + 1).drop_last() =~= digits.take(n));
        number_in_extends(digits, n + 1);
    }
}

/// The texts one behind the other.
pub fn joined(a: &str, b: &str) -> (text: String)
    ensures
        text@ == a@ + b@,
{
    a.to_owned().concat(b)
}

/// Three texts, one behind the other.
pub fn joined3(a: &str, b: &str, c: &str) -> (text: String)
    ensures
        text@ == a@ + b@ + c@,
{
    a.to_owned().concat(b).concat(c)
}

pub fn joined5(a: &str, b: &str, c: &str, d: &str, e: &str) -> (text: String)
    ensures
        text@ == a@ + b@ + c@ + d@ + e@,
{
    a.to_owned().concat(b).concat(c).concat(d).concat(e)
}

/// Whether the text begins with `prefix`.
pub fn begins_with(text: &str, prefix: &str) -> (begins: bool)
    ensures
        begins == prefix@.is_prefix_of(text@),
{
    let whole = chars_of(text);
    let start = chars_of(prefix);
    if start.len() > whole.len() {
        return false;
    }
    let mut index: usize = 0;
    while index < start.len()
        invariant
            index <= start@.len() <= whole@.len(),
            whole@ == text@,
            start@ == prefix@,
            forall|i: int| 0 <= i < index ==> start@[i] == whole@[i],
        decreases start@.len() - index,
    {
        if start[index] != whole[index] {
            assert(prefix@[index as int] != text@.subrange(0, prefix@.len() as int)[index as int]);
            return false;
        }
        index += 1;
    }
    assert(prefix@ =~= text@.subrange(0, prefix@.len() as int));
    true
}

/// Whether an optional text is there and is `b`.
pub fn is_text(a: &Option<String>, b: &str) -> (is: bool)
    ensures
        is == (views::opt_view(*a) == Some(b@)),
{
    match a {
        Some(text) => same_text(text.as_str(), b),
        None => false,
    }
}

/// Whether one of the texts is `text`.
pub fn has_text(items: &Vec<String>, text: &str) -> (has: bool)
    ensures
        has == views::views(items@).contains(text@),
{
    let mut index: usize = 0;
    while index < items.len()
        invariant
            index <= items@.len(),
            forall|i: int| 0 <= i < index ==> (#[trigger] items@[i])@ != text@,
        decreases items@.len() - index,
    {
        if same_text(items[index].as_str(), text) {
            assert(views::views(items@)[index as int] == text@);
            return true;
        }
        index += 1;
    }
    false
}

/// Where the first `c` of a text stands.
pub open spec fn first_at(text: Seq<char>, c: char, at: int) -> bool {
    0 <= at < text.len() && text[at] == c && forall|i: int| 0 <= i < at ==> #[trigger] text[i] != c
}

/// What stands in front of the first `c` and what stands behind it.
pub open spec fn cut(text: Seq<char>, c: char) -> Option<(Seq<char>, Seq<char>)> {
    if text.contains(c) {
        let at = choose|at: int| first_at(text, c, at);
        Some((text.take(at), text.skip(at + 1)))
    } else {
        None
    }
}

/// Where the first `c` stands is where a text is cut.
pub proof fn cut_at(text: Seq<char>, c: char, at: int)
    requires
        first_at(text, c, at),
    ensures
        cut(text, c) == Some((text.take(at), text.skip(at + 1))),
{
    let chosen = choose|i: int| first_at(text, c, i);
    assert(first_at(text, c, chosen));
    if chosen < at {
        assert(text[chosen] != c);
    } else if at < chosen {
        assert(text[at] != c);
    }
    assert(text.contains(c));
}

proof fn first_one(text: Seq<char>, c: char, at: int) -> (first: int)
    requires
        0 <= at < text.len(),
        text[at] == c,
    ensures
        first_at(text, c, first),
    decreases at,
{
    if exists|i: int| 0 <= i < at && #[trigger] text[i] == c {
        first_one(text, c, choose|i: int| 0 <= i < at && #[trigger] text[i] == c)
    } else {
        at
    }
}

/// A text that holds `c` has a first one, and what is cut off around it is the rest.
pub proof fn cut_parts(text: Seq<char>, c: char)
    ensures
        cut(text, c) matches Some((front, back)) ==> {
            &&& front.len() + 1 + back.len() == text.len()
            &&& text == front + seq![c] + back
            &&& !front.contains(c)
        },
        cut(text, c) is Some <==> text.contains(c),
{
    if text.contains(c) {
        let found = choose|i: int| 0 <= i < text.len() && text[i] == c;
        let first = first_one(text, c, found);
        let at = choose|at: int| first_at(text, c, at);
        assert(first_at(text, c, at));
        assert(text =~= text.take(at) + seq![c] + text.skip(at + 1));
        assert forall|j: int| 0 <= j < at implies text.take(at)[j] != c by {
            assert(text[j] != c);
        }
    }
}

pub fn split_once(text: &str, c: char) -> (parts: Option<(String, String)>)
    ensures
        match parts {
            Some((front, back)) => cut(text@, c) == Some((front@, back@)),
            None => cut(text@, c) is None,
        },
{
    let chars = chars_of(text);
    let mut index: usize = 0;
    while index < chars.len()
        invariant
            index <= chars@.len(),
            chars@ == text@,
            forall|i: int| 0 <= i < index ==> #[trigger] text@[i] != c,
        decreases chars@.len() - index,
    {
        if chars[index] == c {
            let front = text_between(&chars, 0, index);
            let back = text_between(&chars, index + 1, chars.len());
            proof {
                cut_at(text@, c, index as int);
                assert(text@.take(index as int) =~= text@.subrange(0, index as int));
                assert(text@.skip(index + 1) =~= text@.subrange(index + 1, text@.len() as int));
            }
            return Some((front, back));
        }
        index += 1;
    }
    None
}

/// The text without the white space around it.
pub open spec fn trimmed(text: Seq<char>) -> Seq<char>
    decreases text.len(),
{
    if text.len() > 0 && white(text[0]) {
        trimmed(text.drop_first())
    } else if text.len() > 0 && white(text.last()) {
        trimmed(text.drop_last())
    } else {
        text
    }
}

pub fn trim_text(text: &str) -> (rest: String)
    ensures
        rest@ == trimmed(text@),
{
    let chars = chars_of(text);
    let mut start: usize = 0;
    assert(chars@.subrange(0, chars@.len() as int) =~= chars@);
    while start < chars.len() && is_white(chars[start])
        invariant
            start <= chars@.len(),
            chars@ == text@,
            trimmed(text@) == trimmed(chars@.subrange(start as int, chars@.len() as int)),
        ensures
            start < chars@.len() ==> !white(chars@[start as int]),
        decreases chars@.len() - start,
    {
        assert(chars@.subrange(start as int, chars@.len() as int).drop_first() =~= chars@.subrange(
            start + 1,
            chars@.len() as int,
        ));
        start += 1;
    }
    let mut end: usize = chars.len();
    while end > start && is_white(chars[end - 1])
        invariant
            start <= end <= chars@.len(),
            chars@ == text@,
            start < chars@.len() ==> !white(chars@[start as int]),
            trimmed(text@) == trimmed(chars@.subrange(start as int, end as int)),
        ensures
            end > start ==> !white(chars@[end - 1]),
        decreases end,
    {
        assert(chars@.subrange(start as int, end as int).drop_last() =~= chars@.subrange(
            start as int,
            end - 1,
        ));
        end -= 1;
    }
    text_between(&chars, start, end)
}

/// The texts in one, with `between` between each two.
pub open spec fn together(texts: Seq<Seq<char>>, between: Seq<char>) -> Seq<char>
    decreases texts.len(),
{
    if texts.len() == 0 {
        Seq::empty()
    } else if texts.len() == 1 {
        texts[0]
    } else {
        together(texts.drop_last(), between) + between + texts.last()
    }
}

pub fn join_texts(texts: &Vec<String>, between: &str) -> (text: String)
    ensures
        text@ == together(views::views(texts@), between@),
{
    let ghost all = views::views(texts@);
    if texts.len() == 0 {
        return String::new();
    }
    let mut text = texts[0].clone();
    let mut index: usize = 1;
    while index < texts.len()
        invariant
            1 <= index <= texts@.len(),
            all == views::views(texts@),
            text@ == together(all.take(index as int), between@),
        decreases texts@.len() - index,
    {
        assert(all.take(index + 1).drop_last() =~= all.take(index as int));
        text = text.concat(between).concat(texts[index].as_str());
        index += 1;
    }
    assert(all.take(index as int) =~= all);
    text
}

/// The text with as many blanks behind it as fill up the width.
pub open spec fn padded(text: Seq<char>, width: nat) -> Seq<char> {
    if text.len() < width {
        text + Seq::new((width - text.len()) as nat, |i: int| ' ')
    } else {
        text
    }
}

pub fn pad_text(text: &str, width: usize) -> (wide: String)
    ensures
        wide@ == padded(text@, width as nat),
{
    let mut wide = text.to_owned();
    let mut count: usize = chars_of(text).len();
    assert(text@ + Seq::new(0, |i: int| ' ') =~= text@);
    while count < width
        invariant
            text@.len() <= count,
            wide@ == text@ + Seq::new((count - text@.len()) as nat, |i: int| ' '),
            count <= width || count == text@.len(),
        decreases width - count,
    {
        wide.push(' ');
        count += 1;
        assert(wide@ =~= text@ + Seq::new((count - text@.len()) as nat, |i: int| ' '));
    }
    wide
}

/// A number in decimal, with its sign where it is below zero.
pub open spec fn signed(n: int) -> Seq<char> {
    if n < 0 {
        "-"@ + decimal((-n) as nat)
    } else {
        decimal(n as nat)
    }
}

pub fn signed_text(n: i64) -> (text: String)
    ensures
        text@ == signed(n as int),
{
    if n < 0 {
        let size = (-(n as i128)) as u64;
        "-".to_owned().concat(decimal_text(size).as_str())
    } else {
        decimal_text(n as u64)
    }
}

} // verus!
