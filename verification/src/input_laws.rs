//! What the flags of a command come to.

use vstd::prelude::*;

use crate::attempt::CheckStatus;
use crate::error::ErrorView;
use crate::input;
use crate::input::FileText;
use crate::json::JsonView;
use crate::text;

verus! {

/// Whether a value is a key, the first `c`, and what stands behind it.
pub open spec fn spells(value: Seq<char>, key: Seq<char>, c: char, rest: Seq<char>) -> bool {
    value == key.push(c) + rest && !key.contains(c)
}

proof fn cut_spells(value: Seq<char>, c: char)
    ensures
        text::cut(value, c) matches Some((key, rest)) ==> spells(value, key, c, rest),
        value.contains(c) <==> text::cut(value, c) is Some,
{
    text::cut_parts(value, c);
    if text::cut(value, c) is Some {
        let (key, rest) = text::cut(value, c)->0;
        assert(key.push(c) + rest =~= key + seq![c] + rest);
    }
}

/// Checks are given as a key, a colon and a description, one for one and in their order. One
/// without a colon is refused, and all with it.
pub proof fn checks_are_given_one_for_one(values: Seq<Seq<char>>)
    ensures
        input::checks_given(values) is Ok <==> forall|i: int|
            0 <= i < values.len() ==> (#[trigger] values[i]).contains(':'),
        input::checks_given(values) is Ok ==> {
            let checks = input::checks_given(values)->Ok_0;
            &&& checks.len() == values.len()
            &&& forall|i: int|
                0 <= i < values.len() ==> spells(
                    #[trigger] values[i],
                    checks[i].key,
                    ':',
                    checks[i].description,
                )
        },
    decreases values.len(),
{
    if values.len() > 0 {
        let front = values.drop_last();
        checks_are_given_one_for_one(front);
        cut_spells(values.last(), ':');
        if input::checks_given(front) is Ok {
            assert forall|i: int| 0 <= i < front.len() implies (#[trigger] values[i]).contains(
                ':',
            ) by {
                assert(front[i].contains(':'));
            }
            if input::checks_given(values) is Ok {
                let checks = input::checks_given(values)->Ok_0;
                assert forall|i: int| 0 <= i < values.len() implies spells(
                    #[trigger] values[i],
                    checks[i].key,
                    ':',
                    checks[i].description,
                ) by {
                    if i < front.len() {
                        assert(front[i] == values[i]);
                    }
                }
            } else {
                assert(!values[values.len() - 1].contains(':'));
            }
        } else {
            let i = choose|i: int| 0 <= i < front.len() && !(#[trigger] front[i]).contains(':');
            assert(!values[i].contains(':'));
        }
    }
}

/// Whether the metadata has an entry for what a value spells.
pub open spec fn entered(metadata: Map<Seq<char>, JsonView>, value: Seq<char>) -> bool {
    exists|key: Seq<char>, raw: Seq<char>| #[trigger]
        spells(value, key, '=', raw) && !text::blank(key) && metadata.contains_key(key)
            && metadata[key] == input::meaning(raw, input::json_reading(raw))
}

/// Metadata is given as a key, an equals sign and a value. Each value has its entry, there
/// are as many entries as values, and a value that is no JSON is the text that it is.
pub proof fn metadata_is_given_one_for_one(values: Seq<Seq<char>>, raw: Seq<char>)
    ensures
        input::metadata_given(values) is Ok ==> {
            let metadata = input::metadata_given(values)->Ok_0;
            &&& metadata.dom().finite()
            &&& metadata.len() == values.len()
            &&& forall|i: int| 0 <= i < values.len() ==> entered(metadata, #[trigger] values[i])
        },
        (exists|i: int| 0 <= i < values.len() && !(#[trigger] values[i]).contains('='))
            ==> input::metadata_given(values) is Err,
        input::meaning(raw, None) == JsonView::Text(raw),
    decreases values.len(),
{
    if values.len() > 0 {
        let front = values.drop_last();
        metadata_is_given_one_for_one(front, raw);
        cut_spells(values.last(), '=');
        if exists|i: int| 0 <= i < values.len() && !(#[trigger] values[i]).contains('=') {
            let i = choose|i: int| 0 <= i < values.len() && !(#[trigger] values[i]).contains('=');
            if i < front.len() {
                assert(!front[i].contains('='));
            }
        }
        if input::metadata_given(values) is Ok {
            let before = input::metadata_given(front)->Ok_0;
            let metadata = input::metadata_given(values)->Ok_0;
            let (key, last) = text::cut(values.last(), '=')->0;
            assert(spells(values.last(), key, '=', last));
            assert(entered(metadata, values.last()));
            assert forall|i: int| 0 <= i < values.len() implies entered(
                metadata,
                #[trigger] values[i],
            ) by {
                if i < front.len() {
                    assert(entered(before, front[i]));
                    let (k, r) = choose|k: Seq<char>, r: Seq<char>| #[trigger]
                        spells(front[i], k, '=', r) && !text::blank(k) && before.contains_key(k)
                            && before[k] == input::meaning(r, input::json_reading(r));
                    assert(spells(values[i], k, '=', r));
                    assert(metadata.contains_key(k) && metadata[k] == before[k]);
                }
            }
        }
    }
}

/// Every key that is given as satisfied is judged satisfied, every one that is given as
/// failed is judged failed, on the evidence that is given, and no other key is judged.
pub proof fn verdicts_judge_the_keys_given(
    satisfied: Seq<Seq<char>>,
    failed: Seq<Seq<char>>,
    evidence: Seq<char>,
)
    ensures
        ({
            let updates = input::verdicts(satisfied, failed, evidence);
            &&& updates.len() == satisfied.len() + failed.len()
            &&& forall|i: int|
                0 <= i < satisfied.len() ==> {
                    &&& (#[trigger] updates[i]).key == satisfied[i]
                    &&& updates[i].status == CheckStatus::Satisfied
                    &&& updates[i].evidence == evidence
                }
            &&& forall|i: int|
                satisfied.len() <= i < updates.len() ==> {
                    &&& (#[trigger] updates[i]).key == failed[i - satisfied.len()]
                    &&& updates[i].status == CheckStatus::Failed
                    &&& updates[i].evidence == evidence
                }
        }),
{
}

/// Keys may be judged together if none is blank and none is there twice.
pub proof fn judged_keys_differ(keys: Seq<Seq<char>>)
    ensures
        input::verdict_key_error(keys) is None <==> keys.no_duplicates() && forall|i: int|
            0 <= i < keys.len() ==> !text::blank(#[trigger] keys[i]),
    decreases keys.len(),
{
    if keys.len() > 0 {
        let front = keys.drop_last();
        judged_keys_differ(front);
        if input::verdict_key_error(keys) is None {
            assert forall|i: int| 0 <= i < keys.len() implies !text::blank(#[trigger] keys[i]) by {
                if i < front.len() {
                    assert(!text::blank(front[i]));
                }
            }
            assert forall|i: int, j: int|
                0 <= i < keys.len() && 0 <= j < keys.len() && i != j implies keys[i] != keys[j] by {
                if i < front.len() && j < front.len() {
                    assert(front[i] != front[j]);
                } else if i < front.len() {
                    assert(front.contains(front[i]));
                } else {
                    assert(front.contains(front[j]));
                }
            }
        }
        if keys.no_duplicates() && (forall|i: int|
            0 <= i < keys.len() ==> !text::blank(#[trigger] keys[i])) {
            assert forall|i: int| 0 <= i < front.len() implies !text::blank(#[trigger] front[i]) by {
                assert(front[i] == keys[i]);
            }
            assert(front.no_duplicates());
            if front.contains(keys.last()) {
                let i = choose|i: int| 0 <= i < front.len() && front[i] == keys.last();
                assert(keys[i] == keys[keys.len() - 1]);
            }
            assert(!text::blank(keys[keys.len() - 1]));
        }
    }
}

/// A text is given in line or in a file, not in both; a file that cannot be read gives none.
pub proof fn texts_are_given_in_one_place(
    inline: Option<Seq<char>>,
    source: Option<&FileText>,
    flag: Seq<char>,
)
    ensures
        ({
            let given = input::text_given(inline, source, flag);
            &&& inline is Some && source is None ==> given == Ok::<_, ErrorView>(inline)
            &&& inline is None && source is None ==> given is Ok && given->Ok_0 is None
            &&& inline is Some && source is Some ==> given is Err
            &&& inline is None && source is Some && source->0.read is Ok ==> given is Ok
                && given->Ok_0 == Some(source->0.read->Ok_0@)
            &&& inline is None && source is Some && source->0.read is Err ==> given is Err
                && given->Err_0.code == "input_unavailable"@
        }),
{
}

/// A moment is the one that was read; a text that none was read off is refused.
pub proof fn moments_are_those_that_were_read(
    value: Seq<char>,
    reading: core::result::Result<(i64, u32), Seq<char>>,
)
    ensures
        reading is Ok ==> input::instant_given(value, reading) is Ok && input::instant_given(
            value,
            reading,
        )->Ok_0.seconds == reading->Ok_0.0 && input::instant_given(value, reading)->Ok_0.nanos
            == reading->Ok_0.1,
        reading is Err ==> input::instant_given(value, reading) is Err && input::instant_given(
            value,
            reading,
        )->Err_0.code == "validation_failed"@,
{
}

} // verus!
