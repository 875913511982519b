//! Arguments read as values: checks, metadata, verdicts, texts and moments.

use vstd::prelude::*;

use crate::attempt::{CheckStatus, CheckUpdate, CheckUpdateView};
use crate::catalog::Catalog;
use crate::cli::{AttemptEditArgs, WorkAddArgs, WorkEditArgs};
use crate::error;
use crate::error::{AlderError, ErrorView, Result};
use crate::instant;
use crate::instant::Instant;
use crate::json;
use crate::json::{Json, JsonView};
use crate::text;
use crate::text::{
    chars_of, has_text, is_blank, joined3, joined5, read_number, split_once, text_between,
    trim_text,
};
use crate::views;
use crate::work::{CheckDefinition, CheckDefinitionView};

verus! {

// ---- which fields were given ----

pub open spec fn direct_fields(args: WorkAddArgs) -> bool {
    ||| args.title is Some
    ||| args.spec is Some
    ||| args.priority != 0
    ||| args.requires@.len() > 0
    ||| args.check@.len() > 0
}

/// A graph change stands alone.
pub fn ensure_no_direct_work_fields(args: &WorkAddArgs) -> (outcome: Result<()>)
    ensures
        match outcome {
            Ok(_) => !direct_fields(*args),
            Err(e) => direct_fields(*args) && e@ == error::validation_error(
                "--from cannot be combined with direct work fields"@,
            ),
        },
{
    if args.title.is_some() || args.spec.is_some() || args.priority != 0 || args.requires.len() > 0
        || args.check.len() > 0 {
        Err(
            AlderError::validation(
                "--from cannot be combined with direct work fields".to_owned(),
            ),
        )
    } else {
        Ok(())
    }
}

pub open spec fn edit_fields(args: WorkEditArgs) -> bool {
    ||| args.title is Some
    ||| args.spec is Some
    ||| args.clear_spec
    ||| args.priority is Some
    ||| args.add_requires@.len() > 0
    ||| args.remove_requires@.len() > 0
    ||| args.add_check@.len() > 0
    ||| args.remove_check@.len() > 0
}

/// Whether anything of the work item is to change.
pub fn has_actual_edit_fields(args: &WorkEditArgs) -> (has: bool)
    ensures
        has == edit_fields(*args),
{
    args.title.is_some() || args.spec.is_some() || args.clear_spec || args.priority.is_some()
        || args.add_requires.len() > 0 || args.remove_requires.len() > 0 || args.add_check.len() > 0
        || args.remove_check.len() > 0
}

/// Whether anything was given that speaks of one work item.
pub fn has_single_edit_fields(args: &WorkEditArgs) -> (has: bool)
    ensures
        has == (edit_fields(*args) || args.why is Some),
{
    has_actual_edit_fields(args) || args.why.is_some()
}

pub open spec fn progress_fields(args: AttemptEditArgs) -> bool {
    ||| args.tier is Some
    ||| args.satisfied@.len() > 0
    ||| args.failed@.len() > 0
    ||| args.evidence is Some
    ||| args.evidence_file is Some
    ||| args.note is Some
    ||| args.note_file is Some
}

/// Whether more was given than binding a handle takes.
pub fn handle_edit_has_progress_fields(args: &AttemptEditArgs) -> (has: bool)
    ensures
        has == progress_fields(*args),
{
    args.tier.is_some() || args.satisfied.len() > 0 || args.failed.len() > 0
        || args.evidence.is_some() || args.evidence_file.is_some() || args.note.is_some()
        || args.note_file.is_some()
}

// ---- checks and metadata ----

pub open spec fn check_form_error(value: Seq<char>) -> ErrorView {
    error::validation_error("check `"@ + value + "` must have the form KEY:DESCRIPTION"@)
}

/// The checks that are given as `KEY:DESCRIPTION`, or the complaint about the
/// first that is not.
pub open spec fn checks_given(values: Seq<Seq<char>>) -> core::result::Result<
    Seq<CheckDefinitionView>,
    ErrorView,
>
    decreases values.len(),
{
    if values.len() == 0 {
        Ok(Seq::empty())
    } else {
        match checks_given(values.drop_last()) {
            Err(error) => Err(error),
            Ok(front) => match text::cut(values.last(), ':') {
                None => Err(check_form_error(values.last())),
                Some((key, description)) => Ok(
                    front.push(CheckDefinitionView { key, description }),
                ),
            },
        }
    }
}

proof fn checks_given_extends(values: Seq<Seq<char>>, n: int)
    requires
        0 <= n <= values.len(),
        checks_given(values.take(n)) is Err,
    ensures
        checks_given(values) == checks_given(values.take(n)),
    decreases values.len() - n,
{
    if n == values.len() {
        assert(values.take(n) =~= values);
    } else {
        assert(values.take(n + 1).drop_last() =~= values.take(n));
        checks_given_extends(values, n + 1);
    }
}

pub fn parse_checks(values: &[String]) -> (outcome: Result<Vec<CheckDefinition>>)
    ensures
        match checks_given(views::views(values@)) {
            Ok(checks) => outcome matches Ok(c) && views::views(c@) == checks,
            Err(error) => outcome matches Err(e) && e@ == error,
        },
{
    let ghost all = views::views(values@);
    let mut checks: Vec<CheckDefinition> = Vec::new();
    let mut index: usize = 0;
    assert(all.take(0) =~= Seq::<Seq<char>>::empty());
    assert(views::views(checks@) =~= Seq::<CheckDefinitionView>::empty());
    while index < values.len()
        invariant
            index <= values@.len(),
            all == views::views(values@),
            checks_given(all.take(index as int)) == Ok::<Seq<CheckDefinitionView>, ErrorView>(
                views::views(checks@),
            ),
        decreases values@.len() - index,
    {
        assert(all.take(index + 1).drop_last() =~= all.take(index as int));
        assert(all.take(index + 1).last() == values@[index as int]@);
        match split_once(values[index].as_str(), ':') {
            None => {
                proof {
                    checks_given_extends(all, index + 1);
                }
                return Err(
                    AlderError::validation(
                        joined3(
                            "check `",
                            values[index].as_str(),
                            "` must have the form KEY:DESCRIPTION",
                        ),
                    ),
                );
            },
            Some((key, description)) => {
                let ghost before = checks@;
                checks.push(CheckDefinition { key, description });
                assert(views::views(checks@) =~= views::views(before).push(checks@.last()@));
            },
        }
        index += 1;
    }
    assert(all.take(index as int) =~= all);
    Ok(checks)
}

/// What serde_json reads off a text: a value, or nothing where the text is no
/// JSON. Numbers, arrays and objects are kept as the JSON text of them.
pub uninterp spec fn json_reading(text: Seq<char>) -> Option<JsonView>;

/// `serde_json::from_str::<Value>`, and the compact text of a number, an array or
/// an object by its `Display`. What is read depends on the text alone.
#[verifier::external_body]
fn parsed_json(text: &str) -> (reading: Option<Json>)
    ensures
        views::opt_view(reading) == json_reading(text@),
{
    match serde_json::from_str::<serde_json::Value>(text) {
        Ok(serde_json::Value::Null) => Some(Json::Null),
        Ok(serde_json::Value::Bool(value)) => Some(Json::Bool(value)),
        Ok(serde_json::Value::String(value)) => Some(Json::Text(value)),
        Ok(serde_json::Value::Number(value)) => Some(Json::Raw(value.to_string())),
        Ok(serde_json::Value::Array(items)) => {
            Some(Json::Raw(serde_json::Value::Array(items).to_string()))
        },
        Ok(serde_json::Value::Object(members)) => {
            Some(Json::Raw(serde_json::Value::Object(members).to_string()))
        },
        Err(_) => None,
    }
}

/// The integer that a text is, where it is one and is not beyond 64 bits.
pub open spec fn integer_in(text: Seq<char>) -> Option<int> {
    if text.len() > 0 && text[0] == '-' {
        match text::number_in(text.drop_first()) {
            Some(n) => if n <= 0x8000_0000_0000_0000 {
                Some(-(n as int))
            } else {
                None
            },
            None => None,
        }
    } else {
        match text::number_in(text) {
            Some(n) => Some(n as int),
            None => None,
        }
    }
}

fn read_integer(text: &str) -> (n: Option<i128>)
    ensures
        n is Some <==> integer_in(text@) is Some,
        n is Some ==> integer_in(text@) == Some(n->0 as int),
{
    let chars = chars_of(text);
    if chars.len() > 0 && chars[0] == '-' {
        let digits = text_between(&chars, 1, chars.len());
        assert(digits@ =~= text@.drop_first());
        match read_number(digits.as_str()) {
            Some(n) => if n <= 0x8000_0000_0000_0000 {
                Some(-(n as i128))
            } else {
                None
            },
            None => None,
        }
    } else {
        match read_number(text) {
            Some(n) => Some(n as i128),
            None => None,
        }
    }
}

/// What a metadata value means, given what was read off it: the JSON value, an
/// integer as one, else the text itself.
pub open spec fn meaning(raw: Seq<char>, reading: Option<JsonView>) -> JsonView {
    match reading {
        Some(JsonView::Raw(written)) => match integer_in(written) {
            Some(n) => JsonView::Int(n),
            None => JsonView::Raw(written),
        },
        Some(value) => value,
        None => JsonView::Text(raw),
    }
}

pub fn meant(raw: String, reading: Option<Json>) -> (value: Json)
    ensures
        value@ == meaning(raw@, views::opt_view(reading)),
{
    match reading {
        Some(Json::Raw(written)) => match read_integer(written.as_str()) {
            Some(n) => Json::Int(n),
            None => Json::Raw(written),
        },
        Some(value) => value,
        None => Json::Text(raw),
    }
}

pub open spec fn metadata_form_error(value: Seq<char>) -> ErrorView {
    error::validation_error("metadata `"@ + value + "` must have the form KEY=VALUE"@)
}

pub open spec fn metadata_repeated(key: Seq<char>) -> ErrorView {
    error::validation_error("metadata key `"@ + key + "` was provided more than once"@)
}

/// The metadata that is given as `KEY=VALUE`, or the complaint about the first
/// that is not, that has a blank key, or whose key was given before.
pub open spec fn metadata_given(values: Seq<Seq<char>>) -> core::result::Result<
    Map<Seq<char>, JsonView>,
    ErrorView,
>
    decreases values.len(),
{
    if values.len() == 0 {
        Ok(Map::empty())
    } else {
        match metadata_given(values.drop_last()) {
            Err(error) => Err(error),
            Ok(front) => match text::cut(values.last(), '=') {
                None => Err(metadata_form_error(values.last())),
                Some((key, raw)) => if text::blank(key) {
                    Err(error::validation_error("metadata keys cannot be empty"@))
                } else if front.contains_key(key) {
                    Err(metadata_repeated(key))
                } else {
                    Ok(front.insert(key, meaning(raw, json_reading(raw))))
                },
            },
        }
    }
}

proof fn metadata_given_extends(values: Seq<Seq<char>>, n: int)
    requires
        0 <= n <= values.len(),
        metadata_given(values.take(n)) is Err,
    ensures
        metadata_given(values) == metadata_given(values.take(n)),
    decreases values.len() - n,
{
    if n == values.len() {
        assert(values.take(n) =~= values);
    } else {
        assert(values.take(n + 1).drop_last() =~= values.take(n));
        metadata_given_extends(values, n + 1);
    }
}

pub fn parse_metadata(values: &[String]) -> (outcome: Result<Catalog<String, Json>>)
    ensures
        match metadata_given(views::views(values@)) {
            Ok(metadata) => outcome matches Ok(m) && m@ == metadata,
            Err(error) => outcome matches Err(e) && e@ == error,
        },
{
    let ghost all = views::views(values@);
    let mut metadata: Catalog<String, Json> = Catalog::new();
    let mut index: usize = 0;
    assert(all.take(0) =~= Seq::<Seq<char>>::empty());
    while index < values.len()
        invariant
            index <= values@.len(),
            all == views::views(values@),
            metadata_given(all.take(index as int)) == Ok::<Map<Seq<char>, JsonView>, ErrorView>(
                metadata@,
            ),
        decreases values@.len() - index,
    {
        assert(all.take(index + 1).drop_last() =~= all.take(index as int));
        assert(all.take(index + 1).last() == values@[index as int]@);
        proof {
            if metadata_given(all.take(index + 1)) is Err {
                metadata_given_extends(all, index + 1);
            }
        }
        match split_once(values[index].as_str(), '=') {
            None => {
                return Err(
                    AlderError::validation(
                        joined3(
                            "metadata `",
                            values[index].as_str(),
                            "` must have the form KEY=VALUE",
                        ),
                    ),
                );
            },
            Some((key, raw)) => {
                if is_blank(key.as_str()) {
                    return Err(
                        AlderError::validation("metadata keys cannot be empty".to_owned()),
                    );
                }
                if metadata.contains_key(key.as_str()) {
                    return Err(
                        AlderError::validation(
                            joined3(
                                "metadata key `",
                                key.as_str(),
                                "` was provided more than once",
                            ),
                        ),
                    );
                }
                let reading = parsed_json(raw.as_str());
                metadata.insert(key, meant(raw, reading));
            },
        }
        index += 1;
    }
    assert(all.take(index as int) =~= all);
    Ok(metadata)
}

// ---- texts and verdicts ----

/// A file that an argument names, and what reading it came to: its text, or why
/// there is none.
#[derive(Debug)]
pub struct FileText {
    pub path: String,
    pub read: core::result::Result<String, String>,
}

/// The text that an argument gives: as it stands, or the file's.
pub open spec fn text_given(
    inline: Option<Seq<char>>,
    source: Option<&FileText>,
    flag: Seq<char>,
) -> core::result::Result<Option<Seq<char>>, ErrorView> {
    match (inline, source) {
        (Some(text), None) => Ok(Some(text)),
        (None, Some(file)) => match file.read {
            Ok(text) => Ok(Some(text@)),
            Err(why) => Err(
                error::context_error(
                    "input_unavailable"@,
                    "cannot read "@ + flag + " `"@ + file.path@ + "`: "@ + why@,
                    json::empty_object().with("path"@, JsonView::Text(file.path@)),
                ),
            ),
        },
        (None, None) => Ok(None),
        (Some(_), Some(_)) => Err(
            error::validation_error(flag + " cannot be combined with its inline form"@),
        ),
    }
}

/// Files are local input only: what goes on is the text itself.
pub fn read_text_file(inline: Option<&str>, source: Option<&FileText>, flag: &str) -> (outcome:
    Result<Option<String>>)
    ensures
        match text_given(views::opt_view(inline), source, flag@) {
            Ok(text) => outcome matches Ok(t) && views::opt_view(t) == text,
            Err(error) => outcome matches Err(e) && e@ == error,
        },
{
    match (inline, source) {
        (Some(text), None) => Ok(Some(text.to_owned())),
        (None, Some(file)) => match &file.read {
            Ok(text) => Ok(Some(text.clone())),
            Err(why) => Err(
                AlderError::with_context(
                    "input_unavailable",
                    joined5("cannot read ", flag, " `", file.path.as_str(), "`: ").concat(
                        why.as_str(),
                    ),
                    Json::object().with("path", Json::text(file.path.as_str())),
                ),
            ),
        },
        (None, None) => Ok(None),
        (Some(_), Some(_)) => Err(
            AlderError::validation(
                flag.to_owned().concat(" cannot be combined with its inline form"),
            ),
        ),
    }
}

/// The complaint about the first key that is blank or was there before.
pub open spec fn verdict_key_error(keys: Seq<Seq<char>>) -> Option<ErrorView>
    decreases keys.len(),
{
    if keys.len() == 0 {
        None
    } else {
        match verdict_key_error(keys.drop_last()) {
            Some(error) => Some(error),
            None => if text::blank(keys.last()) {
                Some(error::validation_error("a check key cannot be empty"@))
            } else if keys.drop_last().contains(keys.last()) {
                Some(
                    error::validation_error(
                        "check `"@ + keys.last() + "` was given more than one result"@,
                    ),
                )
            } else {
                None
            },
        }
    }
}

proof fn verdict_key_error_extends(keys: Seq<Seq<char>>, n: int)
    requires
        0 <= n <= keys.len(),
        verdict_key_error(keys.take(n)) is Some,
    ensures
        verdict_key_error(keys) == verdict_key_error(keys.take(n)),
    decreases keys.len() - n,
{
    if n == keys.len() {
        assert(keys.take(n) =~= keys);
    } else {
        assert(keys.take(n + 1).drop_last() =~= keys.take(n));
        verdict_key_error_extends(keys, n + 1);
    }
}

/// One update for each key, the satisfied ones first, all with the same evidence.
pub open spec fn verdicts(
    satisfied: Seq<Seq<char>>,
    failed: Seq<Seq<char>>,
    evidence: Seq<char>,
) -> Seq<CheckUpdateView> {
    Seq::new(
        satisfied.len() + failed.len(),
        |i: int|
            CheckUpdateView {
                key: (satisfied + failed)[i],
                status: if i < satisfied.len() {
                    CheckStatus::Satisfied
                } else {
                    CheckStatus::Failed
                },
                evidence,
            },
    )
}

/// The check results that the flags give. Results and evidence come together;
/// a key has one result.
pub open spec fn verdicts_given(
    satisfied: Seq<Seq<char>>,
    failed: Seq<Seq<char>>,
    evidence: Option<Seq<char>>,
    evidence_file: Option<&FileText>,
) -> core::result::Result<Seq<CheckUpdateView>, ErrorView> {
    if satisfied.len() == 0 && failed.len() == 0 {
        if evidence is Some {
            Err(
                error::validation_error(
                    "--evidence is accepted only with --satisfied or --failed"@,
                ),
            )
        } else if evidence_file is Some {
            Err(
                error::validation_error(
                    "--evidence-file is accepted only with --satisfied or --failed"@,
                ),
            )
        } else {
            Ok(Seq::empty())
        }
    } else {
        match text_given(evidence, evidence_file, "--evidence-file"@) {
            Err(error) => Err(error),
            Ok(given) => if given is None || text::blank(given->0) {
                Err(
                    error::validation_error(
                        "--satisfied and --failed require "@ + if evidence_file is Some {
                            "--evidence-file"@
                        } else {
                            "--evidence"@
                        },
                    ),
                )
            } else {
                match verdict_key_error(satisfied + failed) {
                    Some(error) => Err(error),
                    None => Ok(verdicts(satisfied, failed, given->0)),
                }
            },
        }
    }
}

pub fn parse_check_results(
    satisfied: &[String],
    failed: &[String],
    evidence: Option<&str>,
    evidence_file: Option<&FileText>,
) -> (outcome: Result<Vec<CheckUpdate>>)
    ensures
        match verdicts_given(
            views::views(satisfied@),
            views::views(failed@),
            views::opt_view(evidence),
            evidence_file,
        ) {
            Ok(updates) => outcome matches Ok(u) && views::views(u@) == updates,
            Err(error) => outcome matches Err(e) && e@ == error,
        },
{
    if satisfied.len() == 0 && failed.len() == 0 {
        if evidence.is_some() {
            return Err(
                AlderError::validation(
                    "--evidence is accepted only with --satisfied or --failed".to_owned(),
                ),
            );
        }
        if evidence_file.is_some() {
            return Err(
                AlderError::validation(
                    "--evidence-file is accepted only with --satisfied or --failed".to_owned(),
                ),
            );
        }
        let updates: Vec<CheckUpdate> = Vec::new();
        assert(views::views(updates@) =~= Seq::<CheckUpdateView>::empty());
        return Ok(updates);
    }
    let evidence_flag: &str = if evidence_file.is_some() {
        "--evidence-file"
    } else {
        "--evidence"
    };
    let given = match read_text_file(evidence, evidence_file, "--evidence-file") {
        Err(error) => {
            return Err(error);
        },
        Ok(Some(text)) => if is_blank(text.as_str()) {
            None
        } else {
            Some(text)
        },
        Ok(None) => None,
    };
    let proof_text = match given {
        Some(text) => text,
        None => {
            return Err(
                AlderError::validation(
                    "--satisfied and --failed require ".to_owned().concat(evidence_flag),
                ),
            );
        },
    };
    let ghost all = views::views(satisfied@) + views::views(failed@);
    let mut seen: Vec<String> = Vec::new();
    let mut updates: Vec<CheckUpdate> = Vec::new();
    assert(views::views(seen@) =~= all.take(0));
    let mut index: usize = 0;
    while index < satisfied.len()
        invariant
            index <= satisfied@.len(),
            text_given(views::opt_view(evidence), evidence_file, "--evidence-file"@) == Ok::<
                Option<Seq<char>>,
                ErrorView,
            >(Some(proof_text@)),
            !text::blank(proof_text@),
            satisfied@.len() > 0 || failed@.len() > 0,
            all == views::views(satisfied@) + views::views(failed@),
            views::views(seen@) == all.take(index as int),
            verdict_key_error(all.take(index as int)) is None,
            updates@.len() == index,
            forall|i: int|
                0 <= i < index ==> (#[trigger] updates@[i])@ == (CheckUpdateView {
                    key: all[i],
                    status: CheckStatus::Satisfied,
                    evidence: proof_text@,
                }),
        decreases satisfied@.len() - index,
    {
        let key = &satisfied[index];
        assert(all.take(index + 1).drop_last() =~= all.take(index as int));
        assert(all.take(index + 1).last() == key@);
        proof {
            if verdict_key_error(all.take(index + 1)) is Some {
                verdict_key_error_extends(all, index + 1);
            }
        }
        if let Some(error) = refused_key(&seen, key.as_str()) {
            return Err(error);
        }
        seen.push(key.clone());
        assert(views::views(seen@) =~= all.take(index + 1));
        updates.push(
            CheckUpdate {
                key: key.clone(),
                status: CheckStatus::Satisfied,
                evidence: proof_text.clone(),
            },
        );
        index += 1;
    }
    let ghost count = satisfied@.len();
    let mut next: usize = 0;
    while next < failed.len()
        invariant
            next <= failed@.len(),
            text_given(views::opt_view(evidence), evidence_file, "--evidence-file"@) == Ok::<
                Option<Seq<char>>,
                ErrorView,
            >(Some(proof_text@)),
            !text::blank(proof_text@),
            satisfied@.len() > 0 || failed@.len() > 0,
            count == satisfied@.len(),
            all == views::views(satisfied@) + views::views(failed@),
            views::views(seen@) == all.take(count + next),
            verdict_key_error(all.take(count + next)) is None,
            updates@.len() == count + next,
            forall|i: int|
                0 <= i < count + next ==> (#[trigger] updates@[i])@ == (CheckUpdateView {
                    key: all[i],
                    status: if i < count {
                        CheckStatus::Satisfied
                    } else {
                        CheckStatus::Failed
                    },
                    evidence: proof_text@,
                }),
        decreases failed@.len() - next,
    {
        let key = &failed[next];
        assert(all.take(count + next + 1).drop_last() =~= all.take(count + next));
        assert(all.take(count + next + 1).last() == key@);
        proof {
            if verdict_key_error(all.take(count + next + 1)) is Some {
                verdict_key_error_extends(all, count + next + 1);
            }
        }
        if let Some(error) = refused_key(&seen, key.as_str()) {
            return Err(error);
        }
        seen.push(key.clone());
        assert(views::views(seen@) =~= all.take(count + next + 1));
        updates.push(
            CheckUpdate {
                key: key.clone(),
                status: CheckStatus::Failed,
                evidence: proof_text.clone(),
            },
        );
        next += 1;
    }
    assert(all.take(count + next) =~= all);
    assert(views::views(updates@) =~= verdicts(
        views::views(satisfied@),
        views::views(failed@),
        proof_text@,
    ));
    Ok(updates)
}

fn refused_key(seen: &Vec<String>, key: &str) -> (refusal: Option<AlderError>)
    ensures
        match refusal {
            Some(e) => {
                ||| text::blank(key@) && e@ == error::validation_error(
                    "a check key cannot be empty"@,
                )
                ||| !text::blank(key@) && views::views(seen@).contains(key@) && e@
                    == error::validation_error(
                    "check `"@ + key@ + "` was given more than one result"@,
                )
            },
            None => !text::blank(key@) && !views::views(seen@).contains(key@),
        },
{
    if is_blank(key) {
        return Some(AlderError::validation("a check key cannot be empty".to_owned()));
    }
    if has_text(seen, key) {
        return Some(
            AlderError::validation(joined3("check `", key, "` was given more than one result")),
        );
    }
    None
}

// ---- moments and reasons ----

/// The moment that a text names, with what was read off it.
pub open spec fn instant_given(
    value: Seq<char>,
    reading: core::result::Result<(i64, u32), Seq<char>>,
) -> core::result::Result<Instant, ErrorView> {
    match reading {
        Ok((seconds, nanos)) => Ok(Instant { seconds, nanos }),
        Err(why) => Err(
            error::context_error(
                "validation_failed"@,
                "`"@ + value + "` is not an RFC 3339 instant such as 2026-08-04T15:00:00Z: "@ + why,
                json::empty_object().with("until"@, JsonView::Text(value)),
            ),
        ),
    }
}

/// Reads a moment, such as `2026-08-04T15:00:00Z`, blanks around it or not.
pub fn parse_instant(value: &str) -> (outcome: Result<Instant>)
    ensures
        match instant_given(value@, instant::instant_reading(text::trimmed(value@))) {
            Ok(at) => outcome matches Ok(a) && a == at,
            Err(error) => outcome matches Err(e) && e@ == error,
        },
{
    let bare = trim_text(value);
    judge_instant(value, Instant::read(bare.as_str()))
}

/// What a reading of the text comes to.
pub fn judge_instant(value: &str, reading: core::result::Result<Instant, String>) -> (outcome:
    Result<Instant>)
    ensures
        match reading {
            Ok(at) => outcome matches Ok(a) && a == at,
            Err(why) => outcome matches Err(e) && Err::<Instant, ErrorView>(e@) == instant_given(
                value@,
                Err(why@),
            ),
        },
{
    match reading {
        Ok(at) => Ok(at),
        Err(why) => Err(
            AlderError::with_context(
                "validation_failed",
                joined3(
                    "`",
                    value,
                    "` is not an RFC 3339 instant such as 2026-08-04T15:00:00Z: ",
                ).concat(why.as_str()),
                Json::object().with("until", Json::text(value)),
            ),
        ),
    }
}

pub open spec fn blank_reason(flag: Seq<char>) -> ErrorView {
    error::validation_error(flag + " cannot be empty"@)
}

/// A reason has to say something.
pub fn require_reason(flag: &str, why: Option<&String>) -> (outcome: Result<()>)
    ensures
        match outcome {
            Ok(_) => why is Some && !text::blank(why->0@),
            Err(e) => (why is None || text::blank(why->0@)) && e@ == blank_reason(flag@),
        },
{
    if let Some(reason) = why {
        if !is_blank(reason.as_str()) {
            return Ok(());
        }
    }
    Err(AlderError::validation(flag.to_owned().concat(" cannot be empty")))
}

} // verus!
