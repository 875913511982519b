//! What trimming, joining, cutting and counting make of texts.

use vstd::prelude::*;

use crate::text;

verus! {

/// Trimming takes white space off both ends and nothing else, and leaves none there.
pub proof fn trimming_takes_the_white_space_around(content: Seq<char>)
    ensures
        ({
            let rest = text::trimmed(content);
            &&& exists|front: Seq<char>, back: Seq<char>| #[trigger]
                around(content, front, rest, back)
            &&& rest.len() > 0 ==> !text::white(rest[0]) && !text::white(rest.last())
        }),
    decreases content.len(),
{
    let rest = text::trimmed(content);
    let none = Seq::<char>::empty();
    if content.len() > 0 && text::white(content[0]) {
        let inner = content.drop_first();
        trimming_takes_the_white_space_around(inner);
        let (front, back) = choose|front: Seq<char>, back: Seq<char>| #[trigger]
            around(inner, front, rest, back);
        assert(seq![content[0]] + front + rest + back =~= seq![content[0]] + inner);
        assert(seq![content[0]] + inner =~= content);
        assert(around(content, seq![content[0]] + front, rest, back));
    } else if content.len() > 0 && text::white(content.last()) {
        let inner = content.drop_last();
        trimming_takes_the_white_space_around(inner);
        let (front, back) = choose|front: Seq<char>, back: Seq<char>| #[trigger]
            around(inner, front, rest, back);
        assert(front + rest + back.push(content.last()) =~= inner.push(content.last()));
        assert(inner.push(content.last()) =~= content);
        assert(around(content, front, rest, back.push(content.last())));
    } else {
        assert(none + rest + none =~= content);
        assert(around(content, none, rest, none));
    }
}

/// A text is another with white space around it.
pub open spec fn around(
    content: Seq<char>,
    front: Seq<char>,
    rest: Seq<char>,
    back: Seq<char>,
) -> bool {
    &&& content == front + rest + back
    &&& text::blank(front)
    &&& text::blank(back)
}

/// One more text goes behind those that are joined, with what is to stand between them.
pub proof fn joining_goes_text_by_text(
    texts: Seq<Seq<char>>,
    content: Seq<char>,
    between: Seq<char>,
)
    ensures
        text::together(Seq::empty(), between) == Seq::<char>::empty(),
        text::together(seq![content], between) == content,
        texts.len() > 0 ==> text::together(texts.push(content), between) == text::together(
            texts,
            between,
        ) + between + content,
{
    assert(texts.push(content).drop_last() =~= texts);
}

/// A text is cut where the character stands first, and only if it is there.
pub proof fn cutting_parts_at_the_first(front: Seq<char>, c: char, back: Seq<char>)
    requires
        !front.contains(c),
    ensures
        text::cut(front.push(c) + back, c) == Some((front, back)),
        text::cut(front, c) is None,
{
    let whole = front.push(c) + back;
    assert forall|i: int| 0 <= i < front.len() implies #[trigger] whole[i] != c by {
        assert(front.contains(front[i]));
    }
    assert(text::first_at(whole, c, front.len() as int));
    text::cut_at(whole, c, front.len() as int);
    assert(whole.take(front.len() as int) =~= front);
    assert(whole.skip(front.len() as int + 1) =~= back);
}

/// A numeral stands for the number that it is made of.
pub proof fn numerals_stand_for_their_numbers(n: u64)
    ensures
        text::number_in(text::decimal(n as nat)) == Some(n),
        text::decimal(n as nat).len() > 0,
    decreases n,
{
    reveal_strlit("0");
    reveal_strlit("1");
    reveal_strlit("2");
    reveal_strlit("3");
    reveal_strlit("4");
    reveal_strlit("5");
    reveal_strlit("6");
    reveal_strlit("7");
    reveal_strlit("8");
    reveal_strlit("9");
    let whole = text::decimal(n as nat);
    let last = text::digit((n % 10) as u64);
    assert(last.len() == 1);
    assert(text::is_digit(last[0]) && last[0] as int - '0' as int == n % 10);
    if n >= 10 {
        numerals_stand_for_their_numbers(n / 10);
        let front = text::decimal((n / 10) as nat);
        assert(whole == front + last);
        assert(whole.drop_last() =~= front);
        assert(whole.last() == last[0]);
    }
}

/// Whether two texts agree up to `n`, where the first ends or has the smaller character.
pub open spec fn differs_first(a: Seq<char>, b: Seq<char>, n: int) -> bool {
    &&& 0 <= n <= a.len() && n < b.len()
    &&& forall|i: int| 0 <= i < n ==> #[trigger] a[i] == b[i]
    &&& n == a.len() || (a[n] as int) < (b[n] as int)
}

/// Texts go by their first difference: the smaller character stands first, and an end before
/// anything else.
pub proof fn texts_go_by_their_first_difference(a: Seq<char>, b: Seq<char>)
    ensures
        text::text_before(a, b) <==> exists|n: int| #[trigger] differs_first(a, b, n),
    decreases a.len(),
{
    if b.len() > 0 && a.len() > 0 && a[0] == b[0] {
        let front = a.drop_first();
        let other = b.drop_first();
        texts_go_by_their_first_difference(front, other);
        if exists|n: int| #[trigger] differs_first(front, other, n) {
            let n = choose|n: int| #[trigger] differs_first(front, other, n);
            assert forall|i: int| 0 <= i < n + 1 implies #[trigger] a[i] == b[i] by {
                if i > 0 {
                    assert(front[i - 1] == other[i - 1]);
                }
            }
            assert(differs_first(a, b, n + 1));
        }
        if exists|n: int| #[trigger] differs_first(a, b, n) {
            let n = choose|n: int| #[trigger] differs_first(a, b, n);
            assert(n > 0);
            assert forall|i: int| 0 <= i < n - 1 implies #[trigger] front[i] == other[i] by {
                assert(a[i + 1] == b[i + 1]);
            }
            assert(differs_first(front, other, n - 1));
        }
    } else if b.len() > 0 {
        if text::text_before(a, b) {
            assert(differs_first(a, b, 0));
        }
        if exists|n: int| #[trigger] differs_first(a, b, n) {
            let n = choose|n: int| #[trigger] differs_first(a, b, n);
            if n > 0 {
                assert(a[0] == b[0]);
            }
        }
    }
}

/// Padding adds blanks behind a text up to the width, and takes nothing away.
pub proof fn padding_fills_up_with_blanks(content: Seq<char>, width: nat)
    ensures
        ({
            let wide = text::padded(content, width);
            &&& wide.len() == (if content.len() < width {
                width
            } else {
                content.len()
            })
            &&& wide.take(content.len() as int) == content
            &&& forall|i: int| content.len() <= i < wide.len() ==> #[trigger] wide[i] == ' '
        }),
{
    let wide = text::padded(content, width);
    assert(wide.take(content.len() as int) =~= content);
}

/// A number below zero has a sign in front of its size, and no other has one.
pub proof fn signs_stand_in_front(n: int)
    ensures
        n >= 0 ==> text::signed(n) == text::decimal(n as nat),
        n < 0 ==> text::signed(n) == seq!['-'] + text::decimal((0 - n) as nat),
{
    reveal_strlit("-");
    assert("-"@ =~= seq!['-']);
}

} // verus!
