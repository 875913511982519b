//! The error envelope: a code to match on, a message to read, and the facts
//! of the refusal.

use vstd::prelude::*;

use crate::catalog::Replica;
use crate::json;
use crate::json::{Json, JsonView};
use crate::sorting;
use crate::sorting::{sort, Ranked};
use crate::text;
use crate::text::{has_char, joined3, place_text, Place};
use crate::views;

verus! {

#[derive(Debug, PartialEq, Eq)]
pub struct AlderError {
    pub code: String,
    pub message: String,
    pub context: Json,
}

pub type Result<T> = core::result::Result<T, AlderError>;

#[verifier::ext_equal]
pub struct ErrorView {
    pub code: Seq<char>,
    pub message: Seq<char>,
    pub context: JsonView,
}

impl View for AlderError {
    type V = ErrorView;

    open spec fn view(&self) -> ErrorView {
        ErrorView { code: self.code@, message: self.message@, context: self.context@ }
    }
}

/// An error that says no more than its message.
pub open spec fn plain_error(code: Seq<char>, message: Seq<char>) -> ErrorView {
    ErrorView { code, message, context: crate::json::empty_object() }
}

/// The refusal of input that breaks a rule.
pub open spec fn validation_error(message: Seq<char>) -> ErrorView {
    plain_error("validation_failed"@, message)
}

pub open spec fn context_error(
    code: Seq<char>,
    message: Seq<char>,
    context: JsonView,
) -> ErrorView {
    ErrorView { code, message, context }
}

/// No object of this kind has this ID.
pub open spec fn not_found_error(kind: Seq<char>, id: Seq<char>) -> ErrorView {
    context_error(
        "not_found"@,
        kind + " `"@ + id + "` was not found"@,
        crate::json::empty_object().with("id"@, JsonView::Text(id)).with(
            "kind"@,
            JsonView::Text(kind),
        ),
    )
}

impl AlderError {
    pub fn new(code: &str, message: String) -> (error: AlderError)
        ensures
            error@ == plain_error(code@, message@),
    {
        AlderError { code: code.to_owned(), message, context: Json::object() }
    }

    pub fn with_context(code: &str, message: String, context: Json) -> (error: AlderError)
        ensures
            error@ == context_error(code@, message@, context@),
    {
        AlderError { code: code.to_owned(), message, context }
    }

    pub fn validation(message: String) -> (error: AlderError)
        ensures
            error@ == validation_error(message@),
    {
        AlderError::new("validation_failed", message)
    }

    pub fn not_found(kind: &str, id: &str) -> (error: AlderError)
        ensures
            error@ == not_found_error(kind@, id@),
    {
        AlderError::with_context(
            "not_found",
            joined3(kind, " `", id).concat("` was not found"),
            Json::object().with("id", Json::text(id)).with("kind", Json::text(kind)),
        )
    }
}

impl Replica for AlderError {
    fn replica(&self) -> (copy: AlderError) {
        AlderError {
            code: self.code.clone(),
            message: self.message.clone(),
            context: self.context.clone(),
        }
    }
}

/// The document of an error, which nobody can take for the answer of a command
/// that went through.
pub open spec fn error_json(error: ErrorView) -> JsonView {
    json::empty_object().with("code"@, JsonView::Text(error.code)).with(
        "context"@,
        error.context,
    ).with("message"@, JsonView::Text(error.message)).with("ok"@, JsonView::Bool(false)).with(
        "schema"@,
        JsonView::Text("alder.error.v0"@),
    )
}

impl AlderError {
    pub fn json(&self) -> (document: Json)
        ensures
            document@ == error_json(self@),
    {
        Json::object().with("code", Json::text(self.code.as_str())).with(
            "context",
            self.context.clone(),
        ).with("message", Json::text(self.message.as_str())).with("ok", Json::Bool(false)).with(
            "schema",
            Json::text("alder.error.v0"),
        )
    }
}

// ---- the facts of a refusal, line by line ----

/// One line about an error: a key, where there is one, and a value. Text on one
/// line stands as it is; any other value is to be encoded, so that one fact is
/// always one line.
#[derive(Debug, PartialEq, Eq)]
pub struct ContextLine {
    pub key: Option<String>,
    pub value: LineValue,
}

#[derive(Debug, PartialEq, Eq)]
pub enum LineValue {
    Bare(String),
    Encoded(Json),
}

#[verifier::ext_equal]
pub struct ContextLineView {
    pub key: Option<Seq<char>>,
    pub value: LineValueView,
}

#[verifier::ext_equal]
pub enum LineValueView {
    Bare(Seq<char>),
    Encoded(JsonView),
}

impl View for LineValue {
    type V = LineValueView;

    open spec fn view(&self) -> LineValueView {
        match self {
            LineValue::Bare(value) => LineValueView::Bare(value@),
            LineValue::Encoded(value) => LineValueView::Encoded(value@),
        }
    }
}

impl View for ContextLine {
    type V = ContextLineView;

    open spec fn view(&self) -> ContextLineView {
        ContextLineView { key: views::opt_view(self.key), value: self.value@ }
    }
}

pub open spec fn field_line(value: JsonView) -> LineValueView {
    match value {
        JsonView::Text(content) => if content.contains('\n') {
            LineValueView::Encoded(value)
        } else {
            LineValueView::Bare(content)
        },
        _ => LineValueView::Encoded(value),
    }
}

fn field(value: &Json) -> (line: LineValue)
    ensures
        line@ == field_line(value@),
{
    match value {
        Json::Text(content) => if has_char(content.as_str(), '\n') {
            LineValue::Encoded(value.clone())
        } else {
            LineValue::Bare(content.clone())
        },
        _ => LineValue::Encoded(value.clone()),
    }
}

/// A member of a context.
#[derive(Debug)]
pub struct Fact {
    pub key: String,
    pub value: Json,
}

#[verifier::ext_equal]
pub struct FactView {
    pub key: Seq<char>,
    pub value: JsonView,
}

impl View for Fact {
    type V = FactView;

    open spec fn view(&self) -> FactView {
        FactView { key: self.key@, value: self.value@ }
    }
}

impl Ranked for Fact {
    open spec fn ahead(a: FactView, b: FactView) -> bool {
        text::text_before(a.key, b.key)
    }

    fn is_ahead(&self, other: &Fact) -> (ahead: bool) {
        proof {
            text::text_before_irreflexive(self.key@);
        }
        match place_text(self.key.as_str(), other.key.as_str()) {
            Place::Before => true,
            _ => false,
        }
    }
}

pub open spec fn facts(members: Seq<(Seq<char>, JsonView)>) -> Seq<FactView> {
    members.map_values(|m: (Seq<char>, JsonView)| FactView { key: m.0, value: m.1 })
}

/// A line for each member of a context, by key; a context that is no object has
/// one line, and none where it is null.
pub open spec fn lines_about(context: JsonView) -> Seq<ContextLineView> {
    match context {
        JsonView::Object(members) => sorting::sorted::<Fact>(facts(members)).map_values(
            |f: FactView| ContextLineView { key: Some(f.key), value: field_line(f.value) },
        ),
        JsonView::Null => Seq::empty(),
        other => seq![ContextLineView { key: None, value: field_line(other) }],
    }
}

pub fn context_lines(context: &Json) -> (lines: Vec<ContextLine>)
    ensures
        views::views(lines@) == lines_about(context@),
{
    let mut lines: Vec<ContextLine> = Vec::new();
    match context {
        Json::Object(members) => {
            let mut found: Vec<Fact> = Vec::new();
            let mut index: usize = 0;
            while index < members.len()
                invariant
                    index <= members@.len(),
                    found@.len() == index,
                    forall|i: int|
                        0 <= i < index ==> (#[trigger] found@[i])@ == (FactView {
                            key: members@[i].0@,
                            value: members@[i].1@,
                        }),
                decreases members@.len() - index,
            {
                found.push(
                    Fact { key: members[index].0.clone(), value: members[index].1.clone() },
                );
                index += 1;
            }
            assert(views::views(found@) =~= facts(context@->Object_0));
            let ordered = sort(found);
            let ghost told = views::views(ordered@).map_values(
                |f: FactView| ContextLineView { key: Some(f.key), value: field_line(f.value) },
            );
            let mut next: usize = 0;
            while next < ordered.len()
                invariant
                    next <= ordered@.len(),
                    lines@.len() == next,
                    told == views::views(ordered@).map_values(
                        |f: FactView|
                            ContextLineView { key: Some(f.key), value: field_line(f.value) },
                    ),
                    forall|i: int| 0 <= i < next ==> (#[trigger] lines@[i])@ == told[i],
                decreases ordered@.len() - next,
            {
                lines.push(
                    ContextLine {
                        key: Some(ordered[next].key.clone()),
                        value: field(&ordered[next].value),
                    },
                );
                next += 1;
            }
            assert(views::views(lines@) =~= told);
        },
        Json::Null => {
            assert(views::views(lines@) =~= Seq::<ContextLineView>::empty());
        },
        other => {
            lines.push(ContextLine { key: None, value: field(other) });
            assert(views::views(lines@) =~= lines_about(context@));
        },
    }
    lines
}

} // verus!
