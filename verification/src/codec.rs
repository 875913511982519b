//! The records that a log holds: typed events as an event type and a JSON body,
//! and back.

use vstd::prelude::*;

use crate::attempt::{
    AttemptDefinition, AttemptDefinitionView, AttemptOutcome, CheckStatus, CheckUpdate,
    CheckUpdateView,
};
use crate::catalog::Replica;
use crate::error;
use crate::error::{AlderError, ErrorView, Result};
use crate::event::{
    Event, EventDraft, EventDraftView, EventPayload, EventPayloadView, EventView,
    LegacyHandoffDefinition, LegacyHandoffDefinitionView, LoopEventPayload, LoopEventPayloadView,
    WorkEventPayload, WorkEventPayloadView,
};
use crate::instant::Instant;
use crate::json;
use crate::json::{Json, JsonView};
use crate::observation::{
    ObservationDefinition, ObservationDefinitionView, ObservationEventPayload,
    ObservationEventPayloadView, ObservationKey, ObservationKeyView,
};
use crate::question::{QuestionDefinition, QuestionDefinitionView};
use crate::text::{joined3, same_text};
use crate::views;
use crate::wire;
use crate::wire::{FromJson, ToJson};
use crate::work::{
    CheckDefinition, CheckDefinitionView, NullableString, WorkDefinition, WorkDefinitionView,
    WorkOperation, WorkOperationView, WorkStateChange, WorkStateChangeView,
};

verus! {

/// A value that is not null reads back through a member that may be missing.
proof fn opt_read_back<T: FromJson>(value: Option<T::V>)
    requires
        wire::opt_wired::<T>(value),
    ensures
        value matches Some(v) ==> T::reading(T::json(v)) == Some(v) && T::json(v) != JsonView::Null,
{
    if value is Some {
        T::reads_back(value->0);
    }
}

impl View for AttemptOutcome {
    type V = AttemptOutcome;

    open spec fn view(&self) -> AttemptOutcome {
        *self
    }
}

impl ToJson for AttemptOutcome {
    open spec fn json(value: AttemptOutcome) -> JsonView {
        JsonView::Text(value.name())
    }

    open spec fn on_calendar(value: AttemptOutcome) -> bool {
        true
    }

    open spec fn wired(value: AttemptOutcome) -> bool {
        true
    }

    fn to_json(&self) -> (written: Json) {
        Json::text(self.as_str())
    }
}

impl FromJson for AttemptOutcome {
    open spec fn reading(json: JsonView) -> Option<AttemptOutcome> {
        match json {
            JsonView::Text(text) => if text == "succeeded"@ {
                Some(AttemptOutcome::Succeeded)
            } else if text == "failed"@ {
                Some(AttemptOutcome::Failed)
            } else if text == "cancelled"@ {
                Some(AttemptOutcome::Cancelled)
            } else if text == "lost"@ {
                Some(AttemptOutcome::Lost)
            } else if text == "not_started"@ {
                Some(AttemptOutcome::NotStarted)
            } else {
                None
            },
            _ => None,
        }
    }

    fn from_json(json: &Json) -> (value: Option<AttemptOutcome>) {
        match json {
            Json::Text(text) => if same_text(text.as_str(), "succeeded") {
                Some(AttemptOutcome::Succeeded)
            } else if same_text(text.as_str(), "failed") {
                Some(AttemptOutcome::Failed)
            } else if same_text(text.as_str(), "cancelled") {
                Some(AttemptOutcome::Cancelled)
            } else if same_text(text.as_str(), "lost") {
                Some(AttemptOutcome::Lost)
            } else if same_text(text.as_str(), "not_started") {
                Some(AttemptOutcome::NotStarted)
            } else {
                None
            },
            _ => None,
        }
    }

    proof fn reads_back(value: AttemptOutcome) {
        reveal_strlit("succeeded");
        assert("succeeded"@.len() == 9);
        reveal_strlit("failed");
        assert("failed"@.len() == 6);
        reveal_strlit("cancelled");
        assert("cancelled"@.len() == 9);
        reveal_strlit("lost");
        assert("lost"@.len() == 4);
        reveal_strlit("not_started");
        assert("not_started"@.len() == 11);
        assert("succeeded"@[0] != "cancelled"@[0]);
    }
}

impl View for CheckStatus {
    type V = CheckStatus;

    open spec fn view(&self) -> CheckStatus {
        *self
    }
}

impl ToJson for CheckStatus {
    open spec fn json(value: CheckStatus) -> JsonView {
        JsonView::Text(value.name())
    }

    open spec fn on_calendar(value: CheckStatus) -> bool {
        true
    }

    open spec fn wired(value: CheckStatus) -> bool {
        true
    }

    fn to_json(&self) -> (written: Json) {
        Json::text(self.as_str())
    }
}

impl FromJson for CheckStatus {
    open spec fn reading(json: JsonView) -> Option<CheckStatus> {
        match json {
            JsonView::Text(text) => if text == "pending"@ {
                Some(CheckStatus::Pending)
            } else if text == "satisfied"@ {
                Some(CheckStatus::Satisfied)
            } else if text == "failed"@ {
                Some(CheckStatus::Failed)
            } else {
                None
            },
            _ => None,
        }
    }

    fn from_json(json: &Json) -> (value: Option<CheckStatus>) {
        match json {
            Json::Text(text) => if same_text(text.as_str(), "pending") {
                Some(CheckStatus::Pending)
            } else if same_text(text.as_str(), "satisfied") {
                Some(CheckStatus::Satisfied)
            } else if same_text(text.as_str(), "failed") {
                Some(CheckStatus::Failed)
            } else {
                None
            },
            _ => None,
        }
    }

    proof fn reads_back(value: CheckStatus) {
        reveal_strlit("pending");
        assert("pending"@.len() == 7);
        reveal_strlit("satisfied");
        assert("satisfied"@.len() == 9);
        reveal_strlit("failed");
        assert("failed"@.len() == 6);
    }
}

/// The members of a check.
pub open spec fn check_definition_members(
    value: CheckDefinitionView,
) -> Seq<(Seq<char>, JsonView)> {
    seq![
        ("key"@, <String as ToJson>::json(value.key)),
        ("description"@, <String as ToJson>::json(value.description)),
    ]
}

proof fn check_definition_keys_differ(value: CheckDefinitionView)
    ensures
        wire::keys_differ(check_definition_members(value)),
{
    reveal_strlit("key");
    assert("key"@.len() == 3);
    reveal_strlit("description");
    assert("description"@.len() == 11);
}

impl ToJson for CheckDefinition {
    open spec fn json(value: CheckDefinitionView) -> JsonView {
        JsonView::Object(check_definition_members(value))
    }

    open spec fn on_calendar(value: CheckDefinitionView) -> bool {
        true
    }

    open spec fn wired(value: CheckDefinitionView) -> bool {
        true
    }

    fn to_json(&self) -> (written: Json) {
        let written = Json::object().with(
            "key",
            self.key.to_json(),
        ).with(
            "description",
            self.description.to_json(),
        );
        assert(written@->Object_0 =~= check_definition_members(self@));
        written
    }
}

impl FromJson for CheckDefinition {
    open spec fn reading(json: JsonView) -> Option<CheckDefinitionView> {
        if !(json is Object) {
            None
        } else {
            match (
                wire::needed::<String>(json, "key"@),
                wire::needed::<String>(json, "description"@),
            ) {
                (Some(key), Some(description)) => Some(
                    CheckDefinitionView { key, description },
                ),
                _ => None,
            }
        }
    }

    fn from_json(json: &Json) -> (value: Option<CheckDefinition>) {
        match json {
            Json::Object(_) => {},
            _ => {
                return None;
            },
        }
        match (
            wire::read_needed::<String>(json, "key"),
            wire::read_needed::<String>(json, "description"),
        ) {
            (Some(key), Some(description)) => Some(
                CheckDefinition { key, description },
            ),
            _ => None,
        }
    }

    proof fn reads_back(value: CheckDefinitionView) {
        let members = check_definition_members(value);
        check_definition_keys_differ(value);
        wire::member_found(members, 0);
        <String as FromJson>::reads_back(value.key);
        wire::member_found(members, 1);
        <String as FromJson>::reads_back(value.description);
    }
}

/// The members of a work definition.
pub open spec fn work_definition_members(value: WorkDefinitionView) -> Seq<(Seq<char>, JsonView)> {
    seq![
        ("id"@, <String as ToJson>::json(value.id)),
        ("title"@, <String as ToJson>::json(value.title)),
        ("spec"@, wire::opt_json::<String>(value.spec)),
        ("priority"@, <i64 as ToJson>::json(value.priority)),
        ("requires"@, wire::list_json::<String>(value.requires)),
        ("checks"@, wire::list_json::<CheckDefinition>(value.checks)),
    ]
}

proof fn work_definition_keys_differ(value: WorkDefinitionView)
    ensures
        wire::keys_differ(work_definition_members(value)),
{
    reveal_strlit("id");
    assert("id"@.len() == 2);
    reveal_strlit("title");
    assert("title"@.len() == 5);
    reveal_strlit("spec");
    assert("spec"@.len() == 4);
    reveal_strlit("priority");
    assert("priority"@.len() == 8);
    reveal_strlit("requires");
    assert("requires"@.len() == 8);
    reveal_strlit("checks");
    assert("checks"@.len() == 6);
    assert("priority"@[0] != "requires"@[0]);
}

impl ToJson for WorkDefinition {
    open spec fn json(value: WorkDefinitionView) -> JsonView {
        JsonView::Object(work_definition_members(value))
    }

    open spec fn on_calendar(value: WorkDefinitionView) -> bool {
        true
    }

    open spec fn wired(value: WorkDefinitionView) -> bool {
        true
    }

    fn to_json(&self) -> (written: Json) {
        let written = Json::object().with(
            "id",
            self.id.to_json(),
        ).with(
            "title",
            self.title.to_json(),
        ).with(
            "spec",
            wire::opt_to_json(&self.spec),
        ).with(
            "priority",
            self.priority.to_json(),
        ).with(
            "requires",
            wire::list_to_json(&self.requires),
        ).with(
            "checks",
            wire::list_to_json(&self.checks),
        );
        assert(written@->Object_0 =~= work_definition_members(self@));
        written
    }
}

impl FromJson for WorkDefinition {
    open spec fn reading(json: JsonView) -> Option<WorkDefinitionView> {
        if !(json is Object) {
            None
        } else {
            match (
                wire::needed::<String>(json, "id"@),
                wire::needed::<String>(json, "title"@),
                wire::optional::<String>(json, "spec"@),
                wire::needed::<i64>(json, "priority"@),
                wire::needed_list::<String>(json, "requires"@),
                wire::needed_list::<CheckDefinition>(json, "checks"@),
            ) {
                (Some(id), Some(title), Some(about), Some(priority), Some(needs), Some(checks)) => Some(
                    WorkDefinitionView {
                        id,
                        title,
                        spec: about,
                        priority,
                        requires: needs,
                        checks,
                    },
                ),
                _ => None,
            }
        }
    }

    fn from_json(json: &Json) -> (value: Option<WorkDefinition>) {
        match json {
            Json::Object(_) => {},
            _ => {
                return None;
            },
        }
        match (
            wire::read_needed::<String>(json, "id"),
            wire::read_needed::<String>(json, "title"),
            wire::read_optional::<String>(json, "spec"),
            wire::read_needed::<i64>(json, "priority"),
            wire::read_needed_list::<String>(json, "requires"),
            wire::read_needed_list::<CheckDefinition>(json, "checks"),
        ) {
            (Some(id), Some(title), Some(about), Some(priority), Some(needs), Some(checks)) => Some(
                WorkDefinition { id, title, spec: about, priority, requires: needs, checks },
            ),
            _ => None,
        }
    }

    proof fn reads_back(value: WorkDefinitionView) {
        let members = work_definition_members(value);
        work_definition_keys_differ(value);
        wire::member_found(members, 0);
        <String as FromJson>::reads_back(value.id);
        wire::member_found(members, 1);
        <String as FromJson>::reads_back(value.title);
        wire::member_found(members, 2);
        opt_read_back::<String>(value.spec);
        wire::member_found(members, 3);
        <i64 as FromJson>::reads_back(value.priority);
        wire::member_found(members, 4);
        wire::list_reads_back::<String>(value.requires);
        wire::member_found(members, 5);
        wire::list_reads_back::<CheckDefinition>(value.checks);
    }
}

/// The members of an attempt definition.
pub open spec fn attempt_definition_members(
    value: AttemptDefinitionView,
) -> Seq<(Seq<char>, JsonView)> {
    seq![
        ("id"@, <String as ToJson>::json(value.id)),
        ("work_id"@, <String as ToJson>::json(value.work_id)),
        ("tier"@, wire::opt_json::<String>(value.tier)),
        ("metadata"@, wire::map_json::<Json>(value.metadata)),
    ]
}

proof fn attempt_definition_keys_differ(value: AttemptDefinitionView)
    ensures
        wire::keys_differ(attempt_definition_members(value)),
{
    reveal_strlit("id");
    assert("id"@.len() == 2);
    reveal_strlit("work_id");
    assert("work_id"@.len() == 7);
    reveal_strlit("tier");
    assert("tier"@.len() == 4);
    reveal_strlit("metadata");
    assert("metadata"@.len() == 8);
}

impl ToJson for AttemptDefinition {
    open spec fn json(value: AttemptDefinitionView) -> JsonView {
        JsonView::Object(attempt_definition_members(value))
    }

    open spec fn on_calendar(value: AttemptDefinitionView) -> bool {
        true
    }

    open spec fn wired(value: AttemptDefinitionView) -> bool {
        value.metadata.dom().finite()
    }

    fn to_json(&self) -> (written: Json) {
        let written = Json::object().with(
            "id",
            self.id.to_json(),
        ).with(
            "work_id",
            self.work_id.to_json(),
        ).with(
            "tier",
            wire::opt_to_json(&self.tier),
        ).with(
            "metadata",
            wire::map_to_json(&self.metadata),
        );
        assert(written@->Object_0 =~= attempt_definition_members(self@));
        written
    }
}

impl FromJson for AttemptDefinition {
    open spec fn reading(json: JsonView) -> Option<AttemptDefinitionView> {
        if !(json is Object) {
            None
        } else {
            match (
                wire::needed::<String>(json, "id"@),
                wire::needed::<String>(json, "work_id"@),
                wire::optional::<String>(json, "tier"@),
                wire::needed_map::<Json>(json, "metadata"@),
            ) {
                (Some(id), Some(work_id), Some(tier), Some(metadata)) => Some(
                    AttemptDefinitionView { id, work_id, tier, metadata },
                ),
                _ => None,
            }
        }
    }

    fn from_json(json: &Json) -> (value: Option<AttemptDefinition>) {
        match json {
            Json::Object(_) => {},
            _ => {
                return None;
            },
        }
        match (
            wire::read_needed::<String>(json, "id"),
            wire::read_needed::<String>(json, "work_id"),
            wire::read_optional::<String>(json, "tier"),
            wire::read_needed_map::<Json>(json, "metadata"),
        ) {
            (Some(id), Some(work_id), Some(tier), Some(metadata)) => Some(
                AttemptDefinition { id, work_id, tier, metadata },
            ),
            _ => None,
        }
    }

    proof fn reads_back(value: AttemptDefinitionView) {
        let members = attempt_definition_members(value);
        attempt_definition_keys_differ(value);
        wire::member_found(members, 0);
        <String as FromJson>::reads_back(value.id);
        wire::member_found(members, 1);
        <String as FromJson>::reads_back(value.work_id);
        wire::member_found(members, 2);
        opt_read_back::<String>(value.tier);
        wire::member_found(members, 3);
        wire::map_reads_back::<Json>(value.metadata);
    }
}

/// The members of a verdict.
pub open spec fn check_update_members(value: CheckUpdateView) -> Seq<(Seq<char>, JsonView)> {
    seq![
        ("key"@, <String as ToJson>::json(value.key)),
        ("status"@, <CheckStatus as ToJson>::json(value.status)),
        ("evidence"@, <String as ToJson>::json(value.evidence)),
    ]
}

proof fn check_update_keys_differ(value: CheckUpdateView)
    ensures
        wire::keys_differ(check_update_members(value)),
{
    reveal_strlit("key");
    assert("key"@.len() == 3);
    reveal_strlit("status");
    assert("status"@.len() == 6);
    reveal_strlit("evidence");
    assert("evidence"@.len() == 8);
}

impl ToJson for CheckUpdate {
    open spec fn json(value: CheckUpdateView) -> JsonView {
        JsonView::Object(check_update_members(value))
    }

    open spec fn on_calendar(value: CheckUpdateView) -> bool {
        true
    }

    open spec fn wired(value: CheckUpdateView) -> bool {
        true
    }

    fn to_json(&self) -> (written: Json) {
        let written = Json::object().with(
            "key",
            self.key.to_json(),
        ).with(
            "status",
            self.status.to_json(),
        ).with(
            "evidence",
            self.evidence.to_json(),
        );
        assert(written@->Object_0 =~= check_update_members(self@));
        written
    }
}

impl FromJson for CheckUpdate {
    open spec fn reading(json: JsonView) -> Option<CheckUpdateView> {
        if !(json is Object) {
            None
        } else {
            match (
                wire::needed::<String>(json, "key"@),
                wire::needed::<CheckStatus>(json, "status"@),
                wire::needed::<String>(json, "evidence"@),
            ) {
                (Some(key), Some(status), Some(evidence)) => Some(
                    CheckUpdateView { key, status, evidence },
                ),
                _ => None,
            }
        }
    }

    fn from_json(json: &Json) -> (value: Option<CheckUpdate>) {
        match json {
            Json::Object(_) => {},
            _ => {
                return None;
            },
        }
        match (
            wire::read_needed::<String>(json, "key"),
            wire::read_needed::<CheckStatus>(json, "status"),
            wire::read_needed::<String>(json, "evidence"),
        ) {
            (Some(key), Some(status), Some(evidence)) => Some(
                CheckUpdate { key, status, evidence },
            ),
            _ => None,
        }
    }

    proof fn reads_back(value: CheckUpdateView) {
        let members = check_update_members(value);
        check_update_keys_differ(value);
        wire::member_found(members, 0);
        <String as FromJson>::reads_back(value.key);
        wire::member_found(members, 1);
        <CheckStatus as FromJson>::reads_back(value.status);
        wire::member_found(members, 2);
        <String as FromJson>::reads_back(value.evidence);
    }
}

/// The members of a question definition.
pub open spec fn question_definition_members(
    value: QuestionDefinitionView,
) -> Seq<(Seq<char>, JsonView)> {
    seq![
        ("id"@, <String as ToJson>::json(value.id)),
        ("work_id"@, <String as ToJson>::json(value.work_id)),
        ("text"@, <String as ToJson>::json(value.text)),
    ]
}

proof fn question_definition_keys_differ(value: QuestionDefinitionView)
    ensures
        wire::keys_differ(question_definition_members(value)),
{
    reveal_strlit("id");
    assert("id"@.len() == 2);
    reveal_strlit("work_id");
    assert("work_id"@.len() == 7);
    reveal_strlit("text");
    assert("text"@.len() == 4);
}

impl ToJson for QuestionDefinition {
    open spec fn json(value: QuestionDefinitionView) -> JsonView {
        JsonView::Object(question_definition_members(value))
    }

    open spec fn on_calendar(value: QuestionDefinitionView) -> bool {
        true
    }

    open spec fn wired(value: QuestionDefinitionView) -> bool {
        true
    }

    fn to_json(&self) -> (written: Json) {
        let written = Json::object().with(
            "id",
            self.id.to_json(),
        ).with(
            "work_id",
            self.work_id.to_json(),
        ).with(
            "text",
            self.text.to_json(),
        );
        assert(written@->Object_0 =~= question_definition_members(self@));
        written
    }
}

impl FromJson for QuestionDefinition {
    open spec fn reading(json: JsonView) -> Option<QuestionDefinitionView> {
        if !(json is Object) {
            None
        } else {
            match (
                wire::needed::<String>(json, "id"@),
                wire::needed::<String>(json, "work_id"@),
                wire::needed::<String>(json, "text"@),
            ) {
                (Some(id), Some(work_id), Some(text)) => Some(
                    QuestionDefinitionView { id, work_id, text },
                ),
                _ => None,
            }
        }
    }

    fn from_json(json: &Json) -> (value: Option<QuestionDefinition>) {
        match json {
            Json::Object(_) => {},
            _ => {
                return None;
            },
        }
        match (
            wire::read_needed::<String>(json, "id"),
            wire::read_needed::<String>(json, "work_id"),
            wire::read_needed::<String>(json, "text"),
        ) {
            (Some(id), Some(work_id), Some(text)) => Some(
                QuestionDefinition { id, work_id, text },
            ),
            _ => None,
        }
    }

    proof fn reads_back(value: QuestionDefinitionView) {
        let members = question_definition_members(value);
        question_definition_keys_differ(value);
        wire::member_found(members, 0);
        <String as FromJson>::reads_back(value.id);
        wire::member_found(members, 1);
        <String as FromJson>::reads_back(value.work_id);
        wire::member_found(members, 2);
        <String as FromJson>::reads_back(value.text);
    }
}

/// The members of a handoff.
pub open spec fn legacy_handoff_definition_members(
    value: LegacyHandoffDefinitionView,
) -> Seq<(Seq<char>, JsonView)> {
    seq![
        ("id"@, <String as ToJson>::json(value.id)),
        ("title"@, <String as ToJson>::json(value.title)),
        ("artifact_ref"@, <String as ToJson>::json(value.artifact_ref)),
        ("note"@, wire::opt_json::<String>(value.note)),
    ]
}

proof fn legacy_handoff_definition_keys_differ(value: LegacyHandoffDefinitionView)
    ensures
        wire::keys_differ(legacy_handoff_definition_members(value)),
{
    reveal_strlit("id");
    assert("id"@.len() == 2);
    reveal_strlit("title");
    assert("title"@.len() == 5);
    reveal_strlit("artifact_ref");
    assert("artifact_ref"@.len() == 12);
    reveal_strlit("note");
    assert("note"@.len() == 4);
}

impl ToJson for LegacyHandoffDefinition {
    open spec fn json(value: LegacyHandoffDefinitionView) -> JsonView {
        JsonView::Object(legacy_handoff_definition_members(value))
    }

    open spec fn on_calendar(value: LegacyHandoffDefinitionView) -> bool {
        true
    }

    open spec fn wired(value: LegacyHandoffDefinitionView) -> bool {
        true
    }

    fn to_json(&self) -> (written: Json) {
        let written = Json::object().with(
            "id",
            self.id.to_json(),
        ).with(
            "title",
            self.title.to_json(),
        ).with(
            "artifact_ref",
            self.artifact_ref.to_json(),
        ).with(
            "note",
            wire::opt_to_json(&self.note),
        );
        assert(written@->Object_0 =~= legacy_handoff_definition_members(self@));
        written
    }
}

impl FromJson for LegacyHandoffDefinition {
    open spec fn reading(json: JsonView) -> Option<LegacyHandoffDefinitionView> {
        if !(json is Object) {
            None
        } else {
            match (
                wire::needed::<String>(json, "id"@),
                wire::needed::<String>(json, "title"@),
                wire::needed::<String>(json, "artifact_ref"@),
                wire::optional::<String>(json, "note"@),
            ) {
                (Some(id), Some(title), Some(artifact_ref), Some(note)) => Some(
                    LegacyHandoffDefinitionView { id, title, artifact_ref, note },
                ),
                _ => None,
            }
        }
    }

    fn from_json(json: &Json) -> (value: Option<LegacyHandoffDefinition>) {
        match json {
            Json::Object(_) => {},
            _ => {
                return None;
            },
        }
        match (
            wire::read_needed::<String>(json, "id"),
            wire::read_needed::<String>(json, "title"),
            wire::read_needed::<String>(json, "artifact_ref"),
            wire::read_optional::<String>(json, "note"),
        ) {
            (Some(id), Some(title), Some(artifact_ref), Some(note)) => Some(
                LegacyHandoffDefinition { id, title, artifact_ref, note },
            ),
            _ => None,
        }
    }

    proof fn reads_back(value: LegacyHandoffDefinitionView) {
        let members = legacy_handoff_definition_members(value);
        legacy_handoff_definition_keys_differ(value);
        wire::member_found(members, 0);
        <String as FromJson>::reads_back(value.id);
        wire::member_found(members, 1);
        <String as FromJson>::reads_back(value.title);
        wire::member_found(members, 2);
        <String as FromJson>::reads_back(value.artifact_ref);
        wire::member_found(members, 3);
        opt_read_back::<String>(value.note);
    }
}

/// The members of an observation key.
pub open spec fn observation_key_members(value: ObservationKeyView) -> Seq<(Seq<char>, JsonView)> {
    seq![
        ("observer"@, <String as ToJson>::json(value.observer)),
        ("subject"@, <String as ToJson>::json(value.subject)),
        ("field"@, <String as ToJson>::json(value.field)),
    ]
}

proof fn observation_key_keys_differ(value: ObservationKeyView)
    ensures
        wire::keys_differ(observation_key_members(value)),
{
    reveal_strlit("observer");
    assert("observer"@.len() == 8);
    reveal_strlit("subject");
    assert("subject"@.len() == 7);
    reveal_strlit("field");
    assert("field"@.len() == 5);
}

impl ToJson for ObservationKey {
    open spec fn json(value: ObservationKeyView) -> JsonView {
        JsonView::Object(observation_key_members(value))
    }

    open spec fn on_calendar(value: ObservationKeyView) -> bool {
        true
    }

    open spec fn wired(value: ObservationKeyView) -> bool {
        true
    }

    fn to_json(&self) -> (written: Json) {
        let written = Json::object().with(
            "observer",
            self.observer.to_json(),
        ).with(
            "subject",
            self.subject.to_json(),
        ).with(
            "field",
            self.field.to_json(),
        );
        assert(written@->Object_0 =~= observation_key_members(self@));
        written
    }
}

impl FromJson for ObservationKey {
    open spec fn reading(json: JsonView) -> Option<ObservationKeyView> {
        if !(json is Object) {
            None
        } else {
            match (
                wire::needed::<String>(json, "observer"@),
                wire::needed::<String>(json, "subject"@),
                wire::needed::<String>(json, "field"@),
            ) {
                (Some(observer), Some(subject), Some(field)) => Some(
                    ObservationKeyView { observer, subject, field },
                ),
                _ => None,
            }
        }
    }

    fn from_json(json: &Json) -> (value: Option<ObservationKey>) {
        match json {
            Json::Object(_) => {},
            _ => {
                return None;
            },
        }
        match (
            wire::read_needed::<String>(json, "observer"),
            wire::read_needed::<String>(json, "subject"),
            wire::read_needed::<String>(json, "field"),
        ) {
            (Some(observer), Some(subject), Some(field)) => Some(
                ObservationKey { observer, subject, field },
            ),
            _ => None,
        }
    }

    proof fn reads_back(value: ObservationKeyView) {
        let members = observation_key_members(value);
        observation_key_keys_differ(value);
        wire::member_found(members, 0);
        <String as FromJson>::reads_back(value.observer);
        wire::member_found(members, 1);
        <String as FromJson>::reads_back(value.subject);
        wire::member_found(members, 2);
        <String as FromJson>::reads_back(value.field);
    }
}

/// The members of an observation definition.
pub open spec fn observation_definition_members(
    value: ObservationDefinitionView,
) -> Seq<(Seq<char>, JsonView)> {
    seq![
        ("key"@, <ObservationKey as ToJson>::json(value.key)),
        ("level"@, <String as ToJson>::json(value.level)),
    ]
}

proof fn observation_definition_keys_differ(value: ObservationDefinitionView)
    ensures
        wire::keys_differ(observation_definition_members(value)),
{
    reveal_strlit("key");
    assert("key"@.len() == 3);
    reveal_strlit("level");
    assert("level"@.len() == 5);
}

impl ToJson for ObservationDefinition {
    open spec fn json(value: ObservationDefinitionView) -> JsonView {
        JsonView::Object(observation_definition_members(value))
    }

    open spec fn on_calendar(value: ObservationDefinitionView) -> bool {
        true
    }

    open spec fn wired(value: ObservationDefinitionView) -> bool {
        true
    }

    fn to_json(&self) -> (written: Json) {
        let written = Json::object().with(
            "key",
            self.key.to_json(),
        ).with(
            "level",
            self.level.to_json(),
        );
        assert(written@->Object_0 =~= observation_definition_members(self@));
        written
    }
}

impl FromJson for ObservationDefinition {
    open spec fn reading(json: JsonView) -> Option<ObservationDefinitionView> {
        if !(json is Object) {
            None
        } else {
            match (
                wire::needed::<ObservationKey>(json, "key"@),
                wire::needed::<String>(json, "level"@),
            ) {
                (Some(key), Some(level)) => Some(
                    ObservationDefinitionView { key, level },
                ),
                _ => None,
            }
        }
    }

    fn from_json(json: &Json) -> (value: Option<ObservationDefinition>) {
        match json {
            Json::Object(_) => {},
            _ => {
                return None;
            },
        }
        match (
            wire::read_needed::<ObservationKey>(json, "key"),
            wire::read_needed::<String>(json, "level"),
        ) {
            (Some(key), Some(level)) => Some(
                ObservationDefinition { key, level },
            ),
            _ => None,
        }
    }

    proof fn reads_back(value: ObservationDefinitionView) {
        let members = observation_definition_members(value);
        observation_definition_keys_differ(value);
        wire::member_found(members, 0);
        <ObservationKey as FromJson>::reads_back(value.key);
        wire::member_found(members, 1);
        <String as FromJson>::reads_back(value.level);
    }
}

// ---- operations ----

pub open spec fn change_members(value: WorkStateChangeView) -> Seq<(Seq<char>, JsonView)> {
    match value {
        WorkStateChangeView::Block { reason, until } => seq![
            ("op"@, JsonView::Text("block"@)),
            ("reason"@, JsonView::Text(reason)),
            ("until"@, wire::opt_json::<Instant>(until)),
        ],
        WorkStateChangeView::Unblock { reason } => seq![
            ("op"@, JsonView::Text("unblock"@)),
            ("reason"@, JsonView::Text(reason)),
        ],
    }
}

impl ToJson for WorkStateChange {
    open spec fn json(value: WorkStateChangeView) -> JsonView {
        JsonView::Object(change_members(value))
    }

    open spec fn on_calendar(value: WorkStateChangeView) -> bool {
        match value {
            WorkStateChangeView::Block { until, .. } => wire::opt_on_calendar::<Instant>(until),
            WorkStateChangeView::Unblock { .. } => true,
        }
    }

    open spec fn wired(value: WorkStateChangeView) -> bool {
        match value {
            WorkStateChangeView::Block { until, .. } => wire::opt_wired::<Instant>(until),
            WorkStateChangeView::Unblock { .. } => true,
        }
    }

    fn to_json(&self) -> (written: Json) {
        let written = match self {
            WorkStateChange::Block { reason, until } => Json::object().with(
                "op",
                Json::text("block"),
            ).with("reason", reason.to_json()).with("until", wire::opt_to_json(until)),
            WorkStateChange::Unblock { reason } => Json::object().with(
                "op",
                Json::text("unblock"),
            ).with("reason", reason.to_json()),
        };
        assert(written@->Object_0 =~= change_members(self@));
        written
    }
}

impl FromJson for WorkStateChange {
    open spec fn reading(json: JsonView) -> Option<WorkStateChangeView> {
        match wire::needed::<String>(json, "op"@) {
            Some(op) => if op == "block"@ {
                match (
                    wire::needed::<String>(json, "reason"@),
                    wire::optional::<Instant>(json, "until"@),
                ) {
                    (Some(reason), Some(until)) => Some(
                        WorkStateChangeView::Block { reason, until },
                    ),
                    _ => None,
                }
            } else if op == "unblock"@ {
                match wire::needed::<String>(json, "reason"@) {
                    Some(reason) => Some(WorkStateChangeView::Unblock { reason }),
                    None => None,
                }
            } else {
                None
            },
            None => None,
        }
    }

    fn from_json(json: &Json) -> (value: Option<WorkStateChange>) {
        match wire::read_needed::<String>(json, "op") {
            Some(op) => if same_text(op.as_str(), "block") {
                match (
                    wire::read_needed::<String>(json, "reason"),
                    wire::read_optional::<Instant>(json, "until"),
                ) {
                    (Some(reason), Some(until)) => Some(WorkStateChange::Block { reason, until }),
                    _ => None,
                }
            } else if same_text(op.as_str(), "unblock") {
                match wire::read_needed::<String>(json, "reason") {
                    Some(reason) => Some(WorkStateChange::Unblock { reason }),
                    None => None,
                }
            } else {
                None
            },
            None => None,
        }
    }

    proof fn reads_back(value: WorkStateChangeView) {
        let members = change_members(value);
        reveal_strlit("op");
        assert("op"@.len() == 2);
        reveal_strlit("reason");
        assert("reason"@.len() == 6);
        reveal_strlit("until");
        assert("until"@.len() == 5);
        reveal_strlit("block");
        assert("block"@.len() == 5);
        reveal_strlit("unblock");
        assert("unblock"@.len() == 7);
        assert(wire::keys_differ(members));
        wire::member_found(members, 0);
        wire::member_found(members, 1);
        assert("block"@.len() != "unblock"@.len());
        if let WorkStateChangeView::Block { until, .. } = value {
            wire::member_found(members, 2);
            opt_read_back::<Instant>(until);
        }
    }
}

/// The members of an operation. An edit that leaves the specification alone has
/// no member for it; one that takes it away has null.
pub open spec fn operation_members(value: WorkOperationView) -> Seq<(Seq<char>, JsonView)> {
    match value {
        WorkOperationView::Add { work } => seq![
            ("op"@, JsonView::Text("add"@)),
            ("work"@, <WorkDefinition as ToJson>::json(work)),
        ],
        WorkOperationView::Edit {
            id,
            title,
            spec,
            priority,
            add_requires,
            remove_requires,
            add_checks,
            remove_checks,
            state_change,
        } => {
            let members = seq![
                ("op"@, JsonView::Text("edit"@)),
                ("id"@, <String as ToJson>::json(id)),
                ("title"@, wire::opt_json::<String>(title)),
                ("priority"@, wire::opt_json::<i64>(priority)),
                ("add_requires"@, wire::list_json::<String>(add_requires)),
                ("remove_requires"@, wire::list_json::<String>(remove_requires)),
                ("add_checks"@, wire::list_json::<CheckDefinition>(add_checks)),
                ("remove_checks"@, wire::list_json::<String>(remove_checks)),
                ("state_change"@, wire::opt_json::<WorkStateChange>(state_change)),
            ];
            match spec {
                Some(text) => members.push(("spec"@, wire::opt_json::<String>(text))),
                None => members,
            }
        },
    }
}

/// A member that may be missing, or null for a text taken away.
pub open spec fn nullable(json: JsonView, key: Seq<char>) -> Option<Option<Option<Seq<char>>>> {
    match json.member(key) {
        None => Some(None),
        Some(JsonView::Null) => Some(Some(None)),
        Some(JsonView::Text(text)) => Some(Some(Some(text))),
        Some(_) => None,
    }
}

fn read_nullable(json: &Json, key: &str) -> (value: Option<Option<NullableString>>)
    ensures
        wire::opt_opt_view(value) == nullable(json@, key@),
{
    match json.get(key) {
        None => Some(None),
        Some(Json::Null) => Some(Some(NullableString(None))),
        Some(Json::Text(text)) => Some(Some(NullableString(Some(text.clone())))),
        Some(_) => None,
    }
}

pub open spec fn edit_reading(json: JsonView) -> Option<WorkOperationView> {
    match (
        wire::needed::<String>(json, "id"@),
        wire::optional::<String>(json, "title"@),
        wire::optional::<i64>(json, "priority"@),
        wire::needed_list::<String>(json, "add_requires"@),
        wire::needed_list::<String>(json, "remove_requires"@),
        wire::needed_list::<CheckDefinition>(json, "add_checks"@),
        wire::needed_list::<String>(json, "remove_checks"@),
        wire::optional::<WorkStateChange>(json, "state_change"@),
        nullable(json, "spec"@),
    ) {
        (
            Some(id),
            Some(title),
            Some(priority),
            Some(add_requires),
            Some(remove_requires),
            Some(add_checks),
            Some(remove_checks),
            Some(state_change),
            Some(about),
        ) => Some(
            WorkOperationView::Edit {
                id,
                title,
                spec: about,
                priority,
                add_requires,
                remove_requires,
                add_checks,
                remove_checks,
                state_change,
            },
        ),
        _ => None,
    }
}

fn read_edit(json: &Json) -> (value: Option<WorkOperation>)
    ensures
        views::opt_view(value) == edit_reading(json@),
{
    match (
        wire::read_needed::<String>(json, "id"),
        wire::read_optional::<String>(json, "title"),
        wire::read_optional::<i64>(json, "priority"),
        wire::read_needed_list::<String>(json, "add_requires"),
        wire::read_needed_list::<String>(json, "remove_requires"),
        wire::read_needed_list::<CheckDefinition>(json, "add_checks"),
        wire::read_needed_list::<String>(json, "remove_checks"),
        wire::read_optional::<WorkStateChange>(json, "state_change"),
        read_nullable(json, "spec"),
    ) {
        (
            Some(id),
            Some(title),
            Some(priority),
            Some(add_requires),
            Some(remove_requires),
            Some(add_checks),
            Some(remove_checks),
            Some(state_change),
            Some(about),
        ) => Some(
            WorkOperation::Edit {
                id,
                title,
                spec: about,
                priority,
                add_requires,
                remove_requires,
                add_checks,
                remove_checks,
                state_change,
            },
        ),
        _ => None,
    }
}

impl ToJson for WorkOperation {
    open spec fn json(value: WorkOperationView) -> JsonView {
        JsonView::Object(operation_members(value))
    }

    open spec fn on_calendar(value: WorkOperationView) -> bool {
        match value {
            WorkOperationView::Add { .. } => true,
            WorkOperationView::Edit { state_change, .. } => wire::opt_on_calendar::<WorkStateChange>(
                state_change,
            ),
        }
    }

    open spec fn wired(value: WorkOperationView) -> bool {
        match value {
            WorkOperationView::Add { .. } => true,
            WorkOperationView::Edit { state_change, .. } => wire::opt_wired::<WorkStateChange>(
                state_change,
            ),
        }
    }

    fn to_json(&self) -> (written: Json) {
        let written = match self {
            WorkOperation::Add { work } => Json::object().with("op", Json::text("add")).with(
                "work",
                work.to_json(),
            ),
            WorkOperation::Edit {
                id,
                title,
                spec,
                priority,
                add_requires,
                remove_requires,
                add_checks,
                remove_checks,
                state_change,
            } => {
                let members = Json::object().with("op", Json::text("edit")).with(
                    "id",
                    id.to_json(),
                ).with(
                    "title",
                    wire::opt_to_json(title),
                ).with(
                    "priority",
                    wire::opt_to_json(priority),
                ).with(
                    "add_requires",
                    wire::list_to_json(add_requires),
                ).with(
                    "remove_requires",
                    wire::list_to_json(remove_requires),
                ).with(
                    "add_checks",
                    wire::list_to_json(add_checks),
                ).with(
                    "remove_checks",
                    wire::list_to_json(remove_checks),
                ).with(
                    "state_change",
                    wire::opt_to_json(state_change),
                );
                match spec {
                    Some(text) => members.with("spec", wire::opt_to_json(&text.0)),
                    None => members,
                }
            },
        };
        assert(written@->Object_0 =~= operation_members(self@));
        written
    }
}

impl FromJson for WorkOperation {
    open spec fn reading(json: JsonView) -> Option<WorkOperationView> {
        match wire::needed::<String>(json, "op"@) {
            Some(op) => if op == "add"@ {
                match wire::needed::<WorkDefinition>(json, "work"@) {
                    Some(work) => Some(WorkOperationView::Add { work }),
                    None => None,
                }
            } else if op == "edit"@ {
                edit_reading(json)
            } else {
                None
            },
            None => None,
        }
    }

    fn from_json(json: &Json) -> (value: Option<WorkOperation>) {
        match wire::read_needed::<String>(json, "op") {
            Some(op) => if same_text(op.as_str(), "add") {
                match wire::read_needed::<WorkDefinition>(json, "work") {
                    Some(work) => Some(WorkOperation::Add { work }),
                    None => None,
                }
            } else if same_text(op.as_str(), "edit") {
                read_edit(json)
            } else {
                None
            },
            None => None,
        }
    }

    proof fn reads_back(value: WorkOperationView) {
        let members = operation_members(value);
        match value {
            WorkOperationView::Add { work } => {
                reveal_strlit("op");
                reveal_strlit("work");
                assert("op"@.len() != "work"@.len());
                assert(wire::keys_differ(members));
                wire::member_found(members, 0);
                wire::member_found(members, 1);
                <WorkDefinition as FromJson>::reads_back(work);
            },
            WorkOperationView::Edit { .. } => {
                edit_reads_back(value);
                reveal_strlit("add");
                reveal_strlit("edit");
                assert("add"@.len() != "edit"@.len());
            },
        }
    }
}

proof fn edit_keys_differ(value: WorkOperationView)
    requires
        value is Edit,
    ensures
        wire::keys_differ(operation_members(value)),
        value->spec is None ==> forall|i: int|
            0 <= i < operation_members(value).len() ==> (#[trigger] operation_members(value)[i]).0
                != "spec"@,
{
    reveal_strlit("op");
    assert("op"@.len() == 2);
    reveal_strlit("id");
    assert("id"@.len() == 2);
    reveal_strlit("title");
    assert("title"@.len() == 5);
    reveal_strlit("priority");
    assert("priority"@.len() == 8);
    reveal_strlit("add_requires");
    assert("add_requires"@.len() == 12);
    reveal_strlit("remove_requires");
    assert("remove_requires"@.len() == 15);
    reveal_strlit("add_checks");
    assert("add_checks"@.len() == 10);
    reveal_strlit("remove_checks");
    assert("remove_checks"@.len() == 13);
    reveal_strlit("state_change");
    assert("state_change"@.len() == 12);
    reveal_strlit("spec");
    assert("spec"@.len() == 4);
    assert("op"@[0] != "id"@[0]);
    assert("add_requires"@[0] != "state_change"@[0]);
}

proof fn edit_reads_back(value: WorkOperationView)
    requires
        value is Edit,
        <WorkOperation as ToJson>::wired(value),
    ensures
        wire::needed::<String>(<WorkOperation as ToJson>::json(value), "op"@) == Some("edit"@),
        edit_reading(<WorkOperation as ToJson>::json(value)) == Some(value),
{
    let members = operation_members(value);
    edit_keys_differ(value);
    wire::member_found(members, 0);
    wire::member_found(members, 1);
    <String as FromJson>::reads_back(value->Edit_id);
    wire::member_found(members, 2);
    opt_read_back::<String>(value->title);
    wire::member_found(members, 3);
    opt_read_back::<i64>(value->priority);
    wire::member_found(members, 4);
    wire::list_reads_back::<String>(value->add_requires);
    wire::member_found(members, 5);
    wire::list_reads_back::<String>(value->remove_requires);
    wire::member_found(members, 6);
    wire::list_reads_back::<CheckDefinition>(value->add_checks);
    wire::member_found(members, 7);
    wire::list_reads_back::<String>(value->remove_checks);
    wire::member_found(members, 8);
    opt_read_back::<WorkStateChange>(value->state_change);
    if value->spec is Some {
        wire::member_found(members, 9);
    } else {
        wire::member_missing(members, "spec"@);
    }
}

// ---- bodies ----

pub open spec fn handoff_submitted_body(
    handoff: LegacyHandoffDefinitionView,
) -> Seq<(Seq<char>, JsonView)> {
    seq![
        ("handoff"@, <LegacyHandoffDefinition as ToJson>::json(handoff)),
    ]
}

pub open spec fn handoff_submitted_reading(json: JsonView) -> Option<WorkEventPayloadView> {
    if !(json is Object) {
        None
    } else {
        match (
            wire::needed::<LegacyHandoffDefinition>(json, "handoff"@),
        ) {
            (Some(handoff),) => Some(
                WorkEventPayloadView::LegacyHandoffSubmitted { handoff },
            ),
            _ => None,
        }
    }
}

fn read_handoff_submitted(json: &Json) -> (payload: Option<WorkEventPayload>)
    ensures
        views::opt_view(payload) == handoff_submitted_reading(json@),
{
    match json {
        Json::Object(_) => {},
        _ => {
            return None;
        },
    }
    match (
        wire::read_needed::<LegacyHandoffDefinition>(json, "handoff"),
    ) {
        (Some(handoff),) => Some(
            WorkEventPayload::LegacyHandoffSubmitted { handoff },
        ),
        _ => None,
    }
}

proof fn handoff_submitted_reads_back(handoff: LegacyHandoffDefinitionView)
    ensures
        handoff_submitted_reading(JsonView::Object(handoff_submitted_body(handoff))) == Some(
            WorkEventPayloadView::LegacyHandoffSubmitted { handoff },
        ),
{
    let members = handoff_submitted_body(handoff);
    wire::member_found(members, 0);
    <LegacyHandoffDefinition as FromJson>::reads_back(handoff);
}

pub open spec fn handoff_integrated_body(
    handoff_id: Seq<char>,
    work: WorkDefinitionView,
) -> Seq<(Seq<char>, JsonView)> {
    seq![
        ("handoff_id"@, <String as ToJson>::json(handoff_id)),
        ("work"@, <WorkDefinition as ToJson>::json(work)),
    ]
}

pub open spec fn handoff_integrated_reading(json: JsonView) -> Option<WorkEventPayloadView> {
    if !(json is Object) {
        None
    } else {
        match (
            wire::needed::<String>(json, "handoff_id"@),
            wire::needed::<WorkDefinition>(json, "work"@),
        ) {
            (Some(handoff_id), Some(work)) => Some(
                WorkEventPayloadView::LegacyHandoffIntegrated { handoff_id, work },
            ),
            _ => None,
        }
    }
}

fn read_handoff_integrated(json: &Json) -> (payload: Option<WorkEventPayload>)
    ensures
        views::opt_view(payload) == handoff_integrated_reading(json@),
{
    match json {
        Json::Object(_) => {},
        _ => {
            return None;
        },
    }
    match (
        wire::read_needed::<String>(json, "handoff_id"),
        wire::read_needed::<WorkDefinition>(json, "work"),
    ) {
        (Some(handoff_id), Some(work)) => Some(
            WorkEventPayload::LegacyHandoffIntegrated { handoff_id, work },
        ),
        _ => None,
    }
}

proof fn handoff_integrated_reads_back(handoff_id: Seq<char>, work: WorkDefinitionView)
    ensures
        handoff_integrated_reading(
            JsonView::Object(handoff_integrated_body(handoff_id, work)),
        ) == Some(WorkEventPayloadView::LegacyHandoffIntegrated { handoff_id, work }),
{
    let members = handoff_integrated_body(handoff_id, work);
    reveal_strlit("handoff_id");
    assert("handoff_id"@.len() == 10);
    reveal_strlit("work");
    assert("work"@.len() == 4);
    assert(wire::keys_differ(members));
    wire::member_found(members, 0);
    <String as FromJson>::reads_back(handoff_id);
    wire::member_found(members, 1);
    <WorkDefinition as FromJson>::reads_back(work);
}

pub open spec fn handoff_withdrawn_body(
    handoff_id: Seq<char>,
    why: Seq<char>,
) -> Seq<(Seq<char>, JsonView)> {
    seq![
        ("handoff_id"@, <String as ToJson>::json(handoff_id)),
        ("why"@, <String as ToJson>::json(why)),
    ]
}

pub open spec fn handoff_withdrawn_reading(json: JsonView) -> Option<WorkEventPayloadView> {
    if !(json is Object) {
        None
    } else {
        match (
            wire::needed::<String>(json, "handoff_id"@),
            wire::needed::<String>(json, "why"@),
        ) {
            (Some(handoff_id), Some(why)) => Some(
                WorkEventPayloadView::LegacyHandoffWithdrawn { handoff_id, why },
            ),
            _ => None,
        }
    }
}

fn read_handoff_withdrawn(json: &Json) -> (payload: Option<WorkEventPayload>)
    ensures
        views::opt_view(payload) == handoff_withdrawn_reading(json@),
{
    match json {
        Json::Object(_) => {},
        _ => {
            return None;
        },
    }
    match (
        wire::read_needed::<String>(json, "handoff_id"),
        wire::read_needed::<String>(json, "why"),
    ) {
        (Some(handoff_id), Some(why)) => Some(
            WorkEventPayload::LegacyHandoffWithdrawn { handoff_id, why },
        ),
        _ => None,
    }
}

proof fn handoff_withdrawn_reads_back(handoff_id: Seq<char>, why: Seq<char>)
    ensures
        handoff_withdrawn_reading(
            JsonView::Object(handoff_withdrawn_body(handoff_id, why)),
        ) == Some(WorkEventPayloadView::LegacyHandoffWithdrawn { handoff_id, why }),
{
    let members = handoff_withdrawn_body(handoff_id, why);
    reveal_strlit("handoff_id");
    assert("handoff_id"@.len() == 10);
    reveal_strlit("why");
    assert("why"@.len() == 3);
    assert(wire::keys_differ(members));
    wire::member_found(members, 0);
    <String as FromJson>::reads_back(handoff_id);
    wire::member_found(members, 1);
    <String as FromJson>::reads_back(why);
}

pub open spec fn work_changed_body(
    why: Option<Seq<char>>,
    operations: Seq<WorkOperationView>,
) -> Seq<(Seq<char>, JsonView)> {
    seq![
        ("why"@, wire::opt_json::<String>(why)),
        ("operations"@, wire::list_json::<WorkOperation>(operations)),
    ]
}

pub open spec fn work_changed_reading(json: JsonView) -> Option<WorkEventPayloadView> {
    if !(json is Object) {
        None
    } else {
        match (
            wire::optional::<String>(json, "why"@),
            wire::needed_list::<WorkOperation>(json, "operations"@),
        ) {
            (Some(why), Some(operations)) => Some(
                WorkEventPayloadView::WorkChanged { why, operations },
            ),
            _ => None,
        }
    }
}

fn read_work_changed(json: &Json) -> (payload: Option<WorkEventPayload>)
    ensures
        views::opt_view(payload) == work_changed_reading(json@),
{
    match json {
        Json::Object(_) => {},
        _ => {
            return None;
        },
    }
    match (
        wire::read_optional::<String>(json, "why"),
        wire::read_needed_list::<WorkOperation>(json, "operations"),
    ) {
        (Some(why), Some(operations)) => Some(
            WorkEventPayload::WorkChanged { why, operations },
        ),
        _ => None,
    }
}

proof fn work_changed_reads_back(why: Option<Seq<char>>, operations: Seq<WorkOperationView>)
    requires
        wire::all_wired::<WorkOperation>(operations),
    ensures
        work_changed_reading(JsonView::Object(work_changed_body(why, operations))) == Some(
            WorkEventPayloadView::WorkChanged { why, operations },
        ),
{
    let members = work_changed_body(why, operations);
    reveal_strlit("why");
    assert("why"@.len() == 3);
    reveal_strlit("operations");
    assert("operations"@.len() == 10);
    assert(wire::keys_differ(members));
    wire::member_found(members, 0);
    opt_read_back::<String>(why);
    wire::member_found(members, 1);
    wire::list_reads_back::<WorkOperation>(operations);
}

pub open spec fn work_finished_body(
    work_id: Seq<char>,
    attempt_id: Option<Seq<char>>,
    external: bool,
    evidence: Option<Seq<char>>,
) -> Seq<(Seq<char>, JsonView)> {
    seq![
        ("work_id"@, <String as ToJson>::json(work_id)),
        ("attempt_id"@, wire::opt_json::<String>(attempt_id)),
        ("external"@, <bool as ToJson>::json(external)),
        ("evidence"@, wire::opt_json::<String>(evidence)),
    ]
}

pub open spec fn work_finished_reading(json: JsonView) -> Option<WorkEventPayloadView> {
    if !(json is Object) {
        None
    } else {
        match (
            wire::needed::<String>(json, "work_id"@),
            wire::optional::<String>(json, "attempt_id"@),
            wire::needed::<bool>(json, "external"@),
            wire::optional::<String>(json, "evidence"@),
        ) {
            (Some(work_id), Some(attempt_id), Some(external), Some(evidence)) => Some(
                WorkEventPayloadView::WorkFinished { work_id, attempt_id, external, evidence },
            ),
            _ => None,
        }
    }
}

fn read_work_finished(json: &Json) -> (payload: Option<WorkEventPayload>)
    ensures
        views::opt_view(payload) == work_finished_reading(json@),
{
    match json {
        Json::Object(_) => {},
        _ => {
            return None;
        },
    }
    match (
        wire::read_needed::<String>(json, "work_id"),
        wire::read_optional::<String>(json, "attempt_id"),
        wire::read_needed::<bool>(json, "external"),
        wire::read_optional::<String>(json, "evidence"),
    ) {
        (Some(work_id), Some(attempt_id), Some(external), Some(evidence)) => Some(
            WorkEventPayload::WorkFinished { work_id, attempt_id, external, evidence },
        ),
        _ => None,
    }
}

proof fn work_finished_reads_back(
    work_id: Seq<char>,
    attempt_id: Option<Seq<char>>,
    external: bool,
    evidence: Option<Seq<char>>,
)
    ensures
        work_finished_reading(
            JsonView::Object(work_finished_body(work_id, attempt_id, external, evidence)),
        ) == Some(WorkEventPayloadView::WorkFinished { work_id, attempt_id, external, evidence }),
{
    let members = work_finished_body(work_id, attempt_id, external, evidence);
    reveal_strlit("work_id");
    assert("work_id"@.len() == 7);
    reveal_strlit("attempt_id");
    assert("attempt_id"@.len() == 10);
    reveal_strlit("external");
    assert("external"@.len() == 8);
    reveal_strlit("evidence");
    assert("evidence"@.len() == 8);
    assert("external"@[1] != "evidence"@[1]);
    assert(wire::keys_differ(members));
    wire::member_found(members, 0);
    <String as FromJson>::reads_back(work_id);
    wire::member_found(members, 1);
    opt_read_back::<String>(attempt_id);
    wire::member_found(members, 2);
    <bool as FromJson>::reads_back(external);
    wire::member_found(members, 3);
    opt_read_back::<String>(evidence);
}

pub open spec fn work_dropped_body(
    work_id: Seq<char>,
    attempt_id: Option<Seq<char>>,
    outcome: Option<AttemptOutcome>,
    why: Seq<char>,
) -> Seq<(Seq<char>, JsonView)> {
    seq![
        ("work_id"@, <String as ToJson>::json(work_id)),
        ("attempt_id"@, wire::opt_json::<String>(attempt_id)),
        ("outcome"@, wire::opt_json::<AttemptOutcome>(outcome)),
        ("why"@, <String as ToJson>::json(why)),
    ]
}

pub open spec fn work_dropped_reading(json: JsonView) -> Option<WorkEventPayloadView> {
    if !(json is Object) {
        None
    } else {
        match (
            wire::needed::<String>(json, "work_id"@),
            wire::optional::<String>(json, "attempt_id"@),
            wire::optional::<AttemptOutcome>(json, "outcome"@),
            wire::needed::<String>(json, "why"@),
        ) {
            (Some(work_id), Some(attempt_id), Some(outcome), Some(why)) => Some(
                WorkEventPayloadView::WorkDropped { work_id, attempt_id, outcome, why },
            ),
            _ => None,
        }
    }
}

fn read_work_dropped(json: &Json) -> (payload: Option<WorkEventPayload>)
    ensures
        views::opt_view(payload) == work_dropped_reading(json@),
{
    match json {
        Json::Object(_) => {},
        _ => {
            return None;
        },
    }
    match (
        wire::read_needed::<String>(json, "work_id"),
        wire::read_optional::<String>(json, "attempt_id"),
        wire::read_optional::<AttemptOutcome>(json, "outcome"),
        wire::read_needed::<String>(json, "why"),
    ) {
        (Some(work_id), Some(attempt_id), Some(outcome), Some(why)) => Some(
            WorkEventPayload::WorkDropped { work_id, attempt_id, outcome, why },
        ),
        _ => None,
    }
}

proof fn work_dropped_reads_back(
    work_id: Seq<char>,
    attempt_id: Option<Seq<char>>,
    outcome: Option<AttemptOutcome>,
    why: Seq<char>,
)
    ensures
        work_dropped_reading(
            JsonView::Object(work_dropped_body(work_id, attempt_id, outcome, why)),
        ) == Some(WorkEventPayloadView::WorkDropped { work_id, attempt_id, outcome, why }),
{
    let members = work_dropped_body(work_id, attempt_id, outcome, why);
    reveal_strlit("work_id");
    assert("work_id"@.len() == 7);
    reveal_strlit("attempt_id");
    assert("attempt_id"@.len() == 10);
    reveal_strlit("outcome");
    assert("outcome"@.len() == 7);
    reveal_strlit("why");
    assert("why"@.len() == 3);
    assert("work_id"@[0] != "outcome"@[0]);
    assert(wire::keys_differ(members));
    wire::member_found(members, 0);
    <String as FromJson>::reads_back(work_id);
    wire::member_found(members, 1);
    opt_read_back::<String>(attempt_id);
    wire::member_found(members, 2);
    opt_read_back::<AttemptOutcome>(outcome);
    wire::member_found(members, 3);
    <String as FromJson>::reads_back(why);
}

pub open spec fn work_reopened_body(
    work_id: Seq<char>,
    why: Seq<char>,
) -> Seq<(Seq<char>, JsonView)> {
    seq![
        ("work_id"@, <String as ToJson>::json(work_id)),
        ("why"@, <String as ToJson>::json(why)),
    ]
}

pub open spec fn work_reopened_reading(json: JsonView) -> Option<WorkEventPayloadView> {
    if !(json is Object) {
        None
    } else {
        match (
            wire::needed::<String>(json, "work_id"@),
            wire::needed::<String>(json, "why"@),
        ) {
            (Some(work_id), Some(why)) => Some(
                WorkEventPayloadView::WorkReopened { work_id, why },
            ),
            _ => None,
        }
    }
}

fn read_work_reopened(json: &Json) -> (payload: Option<WorkEventPayload>)
    ensures
        views::opt_view(payload) == work_reopened_reading(json@),
{
    match json {
        Json::Object(_) => {},
        _ => {
            return None;
        },
    }
    match (
        wire::read_needed::<String>(json, "work_id"),
        wire::read_needed::<String>(json, "why"),
    ) {
        (Some(work_id), Some(why)) => Some(
            WorkEventPayload::WorkReopened { work_id, why },
        ),
        _ => None,
    }
}

proof fn work_reopened_reads_back(work_id: Seq<char>, why: Seq<char>)
    ensures
        work_reopened_reading(JsonView::Object(work_reopened_body(work_id, why))) == Some(
            WorkEventPayloadView::WorkReopened { work_id, why },
        ),
{
    let members = work_reopened_body(work_id, why);
    reveal_strlit("work_id");
    assert("work_id"@.len() == 7);
    reveal_strlit("why");
    assert("why"@.len() == 3);
    assert(wire::keys_differ(members));
    wire::member_found(members, 0);
    <String as FromJson>::reads_back(work_id);
    wire::member_found(members, 1);
    <String as FromJson>::reads_back(why);
}

pub open spec fn attempt_started_body(
    attempt: AttemptDefinitionView,
) -> Seq<(Seq<char>, JsonView)> {
    seq![
        ("attempt"@, <AttemptDefinition as ToJson>::json(attempt)),
    ]
}

pub open spec fn attempt_started_reading(json: JsonView) -> Option<WorkEventPayloadView> {
    if !(json is Object) {
        None
    } else {
        match (
            wire::needed::<AttemptDefinition>(json, "attempt"@),
        ) {
            (Some(attempt),) => Some(
                WorkEventPayloadView::AttemptStarted { attempt },
            ),
            _ => None,
        }
    }
}

fn read_attempt_started(json: &Json) -> (payload: Option<WorkEventPayload>)
    ensures
        views::opt_view(payload) == attempt_started_reading(json@),
{
    match json {
        Json::Object(_) => {},
        _ => {
            return None;
        },
    }
    match (
        wire::read_needed::<AttemptDefinition>(json, "attempt"),
    ) {
        (Some(attempt),) => Some(
            WorkEventPayload::AttemptStarted { attempt },
        ),
        _ => None,
    }
}

proof fn attempt_started_reads_back(attempt: AttemptDefinitionView)
    requires
        <AttemptDefinition as ToJson>::wired(attempt),
    ensures
        attempt_started_reading(JsonView::Object(attempt_started_body(attempt))) == Some(
            WorkEventPayloadView::AttemptStarted { attempt },
        ),
{
    let members = attempt_started_body(attempt);
    wire::member_found(members, 0);
    <AttemptDefinition as FromJson>::reads_back(attempt);
}

pub open spec fn attempt_bound_body(
    attempt_id: Seq<char>,
    handle: Seq<char>,
    metadata: Map<Seq<char>, JsonView>,
) -> Seq<(Seq<char>, JsonView)> {
    seq![
        ("attempt_id"@, <String as ToJson>::json(attempt_id)),
        ("handle"@, <String as ToJson>::json(handle)),
        ("metadata"@, wire::map_json::<Json>(metadata)),
    ]
}

pub open spec fn attempt_bound_reading(json: JsonView) -> Option<WorkEventPayloadView> {
    if !(json is Object) {
        None
    } else {
        match (
            wire::needed::<String>(json, "attempt_id"@),
            wire::needed::<String>(json, "handle"@),
            wire::needed_map::<Json>(json, "metadata"@),
        ) {
            (Some(attempt_id), Some(handle), Some(metadata)) => Some(
                WorkEventPayloadView::AttemptBound { attempt_id, handle, metadata },
            ),
            _ => None,
        }
    }
}

fn read_attempt_bound(json: &Json) -> (payload: Option<WorkEventPayload>)
    ensures
        views::opt_view(payload) == attempt_bound_reading(json@),
{
    match json {
        Json::Object(_) => {},
        _ => {
            return None;
        },
    }
    match (
        wire::read_needed::<String>(json, "attempt_id"),
        wire::read_needed::<String>(json, "handle"),
        wire::read_needed_map::<Json>(json, "metadata"),
    ) {
        (Some(attempt_id), Some(handle), Some(metadata)) => Some(
            WorkEventPayload::AttemptBound { attempt_id, handle, metadata },
        ),
        _ => None,
    }
}

proof fn attempt_bound_reads_back(
    attempt_id: Seq<char>,
    handle: Seq<char>,
    metadata: Map<Seq<char>, JsonView>,
)
    requires
        metadata.dom().finite(),
    ensures
        attempt_bound_reading(
            JsonView::Object(attempt_bound_body(attempt_id, handle, metadata)),
        ) == Some(WorkEventPayloadView::AttemptBound { attempt_id, handle, metadata }),
{
    let members = attempt_bound_body(attempt_id, handle, metadata);
    reveal_strlit("attempt_id");
    assert("attempt_id"@.len() == 10);
    reveal_strlit("handle");
    assert("handle"@.len() == 6);
    reveal_strlit("metadata");
    assert("metadata"@.len() == 8);
    assert(wire::keys_differ(members));
    wire::member_found(members, 0);
    <String as FromJson>::reads_back(attempt_id);
    wire::member_found(members, 1);
    <String as FromJson>::reads_back(handle);
    wire::member_found(members, 2);
    wire::map_reads_back::<Json>(metadata);
}

pub open spec fn attempt_updated_body(
    attempt_id: Seq<char>,
    tier: Option<Seq<char>>,
    metadata: Map<Seq<char>, JsonView>,
    note: Option<Seq<char>>,
    checks: Seq<CheckUpdateView>,
) -> Seq<(Seq<char>, JsonView)> {
    seq![
        ("attempt_id"@, <String as ToJson>::json(attempt_id)),
        ("tier"@, wire::opt_json::<String>(tier)),
        ("metadata"@, wire::map_json::<Json>(metadata)),
        ("note"@, wire::opt_json::<String>(note)),
        ("checks"@, wire::list_json::<CheckUpdate>(checks)),
    ]
}

pub open spec fn attempt_updated_reading(json: JsonView) -> Option<WorkEventPayloadView> {
    if !(json is Object) {
        None
    } else {
        match (
            wire::needed::<String>(json, "attempt_id"@),
            wire::optional::<String>(json, "tier"@),
            wire::needed_map::<Json>(json, "metadata"@),
            wire::optional::<String>(json, "note"@),
            wire::needed_list::<CheckUpdate>(json, "checks"@),
        ) {
            (Some(attempt_id), Some(tier), Some(metadata), Some(note), Some(checks)) => Some(
                WorkEventPayloadView::AttemptUpdated { attempt_id, tier, metadata, note, checks },
            ),
            _ => None,
        }
    }
}

fn read_attempt_updated(json: &Json) -> (payload: Option<WorkEventPayload>)
    ensures
        views::opt_view(payload) == attempt_updated_reading(json@),
{
    match json {
        Json::Object(_) => {},
        _ => {
            return None;
        },
    }
    match (
        wire::read_needed::<String>(json, "attempt_id"),
        wire::read_optional::<String>(json, "tier"),
        wire::read_needed_map::<Json>(json, "metadata"),
        wire::read_optional::<String>(json, "note"),
        wire::read_needed_list::<CheckUpdate>(json, "checks"),
    ) {
        (Some(attempt_id), Some(tier), Some(metadata), Some(note), Some(checks)) => Some(
            WorkEventPayload::AttemptUpdated { attempt_id, tier, metadata, note, checks },
        ),
        _ => None,
    }
}

proof fn attempt_updated_reads_back(
    attempt_id: Seq<char>,
    tier: Option<Seq<char>>,
    metadata: Map<Seq<char>, JsonView>,
    note: Option<Seq<char>>,
    checks: Seq<CheckUpdateView>,
)
    requires
        metadata.dom().finite(),
    ensures
        attempt_updated_reading(
            JsonView::Object(attempt_updated_body(attempt_id, tier, metadata, note, checks)),
        ) == Some(WorkEventPayloadView::AttemptUpdated { attempt_id, tier, metadata, note, checks }),
{
    let members = attempt_updated_body(attempt_id, tier, metadata, note, checks);
    reveal_strlit("attempt_id");
    assert("attempt_id"@.len() == 10);
    reveal_strlit("tier");
    assert("tier"@.len() == 4);
    reveal_strlit("metadata");
    assert("metadata"@.len() == 8);
    reveal_strlit("note");
    assert("note"@.len() == 4);
    reveal_strlit("checks");
    assert("checks"@.len() == 6);
    assert("tier"@[0] != "note"@[0]);
    assert(wire::keys_differ(members));
    wire::member_found(members, 0);
    <String as FromJson>::reads_back(attempt_id);
    wire::member_found(members, 1);
    opt_read_back::<String>(tier);
    wire::member_found(members, 2);
    wire::map_reads_back::<Json>(metadata);
    wire::member_found(members, 3);
    opt_read_back::<String>(note);
    wire::member_found(members, 4);
    wire::list_reads_back::<CheckUpdate>(checks);
}

pub open spec fn attempt_ended_body(
    attempt_id: Seq<char>,
    outcome: AttemptOutcome,
    why: Seq<char>,
) -> Seq<(Seq<char>, JsonView)> {
    seq![
        ("attempt_id"@, <String as ToJson>::json(attempt_id)),
        ("outcome"@, <AttemptOutcome as ToJson>::json(outcome)),
        ("why"@, <String as ToJson>::json(why)),
    ]
}

pub open spec fn attempt_ended_reading(json: JsonView) -> Option<WorkEventPayloadView> {
    if !(json is Object) {
        None
    } else {
        match (
            wire::needed::<String>(json, "attempt_id"@),
            wire::needed::<AttemptOutcome>(json, "outcome"@),
            wire::needed::<String>(json, "why"@),
        ) {
            (Some(attempt_id), Some(outcome), Some(why)) => Some(
                WorkEventPayloadView::AttemptEnded { attempt_id, outcome, why },
            ),
            _ => None,
        }
    }
}

fn read_attempt_ended(json: &Json) -> (payload: Option<WorkEventPayload>)
    ensures
        views::opt_view(payload) == attempt_ended_reading(json@),
{
    match json {
        Json::Object(_) => {},
        _ => {
            return None;
        },
    }
    match (
        wire::read_needed::<String>(json, "attempt_id"),
        wire::read_needed::<AttemptOutcome>(json, "outcome"),
        wire::read_needed::<String>(json, "why"),
    ) {
        (Some(attempt_id), Some(outcome), Some(why)) => Some(
            WorkEventPayload::AttemptEnded { attempt_id, outcome, why },
        ),
        _ => None,
    }
}

proof fn attempt_ended_reads_back(attempt_id: Seq<char>, outcome: AttemptOutcome, why: Seq<char>)
    ensures
        attempt_ended_reading(
            JsonView::Object(attempt_ended_body(attempt_id, outcome, why)),
        ) == Some(WorkEventPayloadView::AttemptEnded { attempt_id, outcome, why }),
{
    let members = attempt_ended_body(attempt_id, outcome, why);
    reveal_strlit("attempt_id");
    assert("attempt_id"@.len() == 10);
    reveal_strlit("outcome");
    assert("outcome"@.len() == 7);
    reveal_strlit("why");
    assert("why"@.len() == 3);
    assert(wire::keys_differ(members));
    wire::member_found(members, 0);
    <String as FromJson>::reads_back(attempt_id);
    wire::member_found(members, 1);
    <AttemptOutcome as FromJson>::reads_back(outcome);
    wire::member_found(members, 2);
    <String as FromJson>::reads_back(why);
}

pub open spec fn question_asked_body(
    question: QuestionDefinitionView,
) -> Seq<(Seq<char>, JsonView)> {
    seq![
        ("question"@, <QuestionDefinition as ToJson>::json(question)),
    ]
}

pub open spec fn question_asked_reading(json: JsonView) -> Option<WorkEventPayloadView> {
    if !(json is Object) {
        None
    } else {
        match (
            wire::needed::<QuestionDefinition>(json, "question"@),
        ) {
            (Some(question),) => Some(
                WorkEventPayloadView::QuestionAsked { question },
            ),
            _ => None,
        }
    }
}

fn read_question_asked(json: &Json) -> (payload: Option<WorkEventPayload>)
    ensures
        views::opt_view(payload) == question_asked_reading(json@),
{
    match json {
        Json::Object(_) => {},
        _ => {
            return None;
        },
    }
    match (
        wire::read_needed::<QuestionDefinition>(json, "question"),
    ) {
        (Some(question),) => Some(
            WorkEventPayload::QuestionAsked { question },
        ),
        _ => None,
    }
}

proof fn question_asked_reads_back(question: QuestionDefinitionView)
    ensures
        question_asked_reading(JsonView::Object(question_asked_body(question))) == Some(
            WorkEventPayloadView::QuestionAsked { question },
        ),
{
    let members = question_asked_body(question);
    wire::member_found(members, 0);
    <QuestionDefinition as FromJson>::reads_back(question);
}

pub open spec fn question_answered_body(
    question_id: Seq<char>,
    answer: Seq<char>,
) -> Seq<(Seq<char>, JsonView)> {
    seq![
        ("question_id"@, <String as ToJson>::json(question_id)),
        ("answer"@, <String as ToJson>::json(answer)),
    ]
}

pub open spec fn question_answered_reading(json: JsonView) -> Option<WorkEventPayloadView> {
    if !(json is Object) {
        None
    } else {
        match (
            wire::needed::<String>(json, "question_id"@),
            wire::needed::<String>(json, "answer"@),
        ) {
            (Some(question_id), Some(answer)) => Some(
                WorkEventPayloadView::QuestionAnswered { question_id, answer },
            ),
            _ => None,
        }
    }
}

fn read_question_answered(json: &Json) -> (payload: Option<WorkEventPayload>)
    ensures
        views::opt_view(payload) == question_answered_reading(json@),
{
    match json {
        Json::Object(_) => {},
        _ => {
            return None;
        },
    }
    match (
        wire::read_needed::<String>(json, "question_id"),
        wire::read_needed::<String>(json, "answer"),
    ) {
        (Some(question_id), Some(answer)) => Some(
            WorkEventPayload::QuestionAnswered { question_id, answer },
        ),
        _ => None,
    }
}

proof fn question_answered_reads_back(question_id: Seq<char>, answer: Seq<char>)
    ensures
        question_answered_reading(
            JsonView::Object(question_answered_body(question_id, answer)),
        ) == Some(WorkEventPayloadView::QuestionAnswered { question_id, answer }),
{
    let members = question_answered_body(question_id, answer);
    reveal_strlit("question_id");
    assert("question_id"@.len() == 11);
    reveal_strlit("answer");
    assert("answer"@.len() == 6);
    assert(wire::keys_differ(members));
    wire::member_found(members, 0);
    <String as FromJson>::reads_back(question_id);
    wire::member_found(members, 1);
    <String as FromJson>::reads_back(answer);
}

pub open spec fn observation_reported_body(
    observation: ObservationDefinitionView,
) -> Seq<(Seq<char>, JsonView)> {
    seq![
        ("observation"@, <ObservationDefinition as ToJson>::json(observation)),
    ]
}

pub open spec fn observation_reported_reading(
    json: JsonView,
) -> Option<ObservationEventPayloadView> {
    if !(json is Object) {
        None
    } else {
        match (
            wire::needed::<ObservationDefinition>(json, "observation"@),
        ) {
            (Some(observation),) => Some(
                ObservationEventPayloadView::ObservationReported { observation },
            ),
            _ => None,
        }
    }
}

fn read_observation_reported(json: &Json) -> (payload: Option<ObservationEventPayload>)
    ensures
        views::opt_view(payload) == observation_reported_reading(json@),
{
    match json {
        Json::Object(_) => {},
        _ => {
            return None;
        },
    }
    match (
        wire::read_needed::<ObservationDefinition>(json, "observation"),
    ) {
        (Some(observation),) => Some(
            ObservationEventPayload::ObservationReported { observation },
        ),
        _ => None,
    }
}

proof fn observation_reported_reads_back(observation: ObservationDefinitionView)
    ensures
        observation_reported_reading(
            JsonView::Object(observation_reported_body(observation)),
        ) == Some(ObservationEventPayloadView::ObservationReported { observation }),
{
    let members = observation_reported_body(observation);
    wire::member_found(members, 0);
    <ObservationDefinition as FromJson>::reads_back(observation);
}

pub open spec fn observation_retired_body(key: ObservationKeyView) -> Seq<(Seq<char>, JsonView)> {
    seq![
        ("key"@, <ObservationKey as ToJson>::json(key)),
    ]
}

pub open spec fn observation_retired_reading(
    json: JsonView,
) -> Option<ObservationEventPayloadView> {
    if !(json is Object) {
        None
    } else {
        match (
            wire::needed::<ObservationKey>(json, "key"@),
        ) {
            (Some(key),) => Some(
                ObservationEventPayloadView::ObservationRetired { key },
            ),
            _ => None,
        }
    }
}

fn read_observation_retired(json: &Json) -> (payload: Option<ObservationEventPayload>)
    ensures
        views::opt_view(payload) == observation_retired_reading(json@),
{
    match json {
        Json::Object(_) => {},
        _ => {
            return None;
        },
    }
    match (
        wire::read_needed::<ObservationKey>(json, "key"),
    ) {
        (Some(key),) => Some(
            ObservationEventPayload::ObservationRetired { key },
        ),
        _ => None,
    }
}

proof fn observation_retired_reads_back(key: ObservationKeyView)
    ensures
        observation_retired_reading(JsonView::Object(observation_retired_body(key))) == Some(
            ObservationEventPayloadView::ObservationRetired { key },
        ),
{
    let members = observation_retired_body(key);
    wire::member_found(members, 0);
    <ObservationKey as FromJson>::reads_back(key);
}

pub open spec fn loop_paused_body(why: Option<Seq<char>>) -> Seq<(Seq<char>, JsonView)> {
    seq![
        ("why"@, wire::opt_json::<String>(why)),
    ]
}

pub open spec fn loop_paused_reading(json: JsonView) -> Option<LoopEventPayloadView> {
    if !(json is Object) {
        None
    } else {
        match (
            wire::optional::<String>(json, "why"@),
        ) {
            (Some(why),) => Some(
                LoopEventPayloadView::LoopPaused { why },
            ),
            _ => None,
        }
    }
}

fn read_loop_paused(json: &Json) -> (payload: Option<LoopEventPayload>)
    ensures
        views::opt_view(payload) == loop_paused_reading(json@),
{
    match json {
        Json::Object(_) => {},
        _ => {
            return None;
        },
    }
    match (
        wire::read_optional::<String>(json, "why"),
    ) {
        (Some(why),) => Some(
            LoopEventPayload::LoopPaused { why },
        ),
        _ => None,
    }
}

proof fn loop_paused_reads_back(why: Option<Seq<char>>)
    ensures
        loop_paused_reading(JsonView::Object(loop_paused_body(why))) == Some(
            LoopEventPayloadView::LoopPaused { why },
        ),
{
    let members = loop_paused_body(why);
    wire::member_found(members, 0);
    opt_read_back::<String>(why);
}

pub open spec fn loop_resumed_body() -> Seq<(Seq<char>, JsonView)> {
    Seq::empty()
}

pub open spec fn loop_resumed_reading(json: JsonView) -> Option<LoopEventPayloadView> {
    if !(json is Object) {
        None
    } else {
        Some(LoopEventPayloadView::LoopResumed {})
    }
}

fn read_loop_resumed(json: &Json) -> (payload: Option<LoopEventPayload>)
    ensures
        views::opt_view(payload) == loop_resumed_reading(json@),
{
    match json {
        Json::Object(_) => {},
        _ => {
            return None;
        },
    }
    Some(LoopEventPayload::LoopResumed {})
}

proof fn loop_resumed_reads_back()
    ensures
        loop_resumed_reading(JsonView::Object(loop_resumed_body())) == Some(
            LoopEventPayloadView::LoopResumed {  },
        ),
{
}

pub open spec fn loop_engine_selected_body(engine: Seq<char>) -> Seq<(Seq<char>, JsonView)> {
    seq![
        ("engine"@, <String as ToJson>::json(engine)),
    ]
}

pub open spec fn loop_engine_selected_reading(json: JsonView) -> Option<LoopEventPayloadView> {
    if !(json is Object) {
        None
    } else {
        match (
            wire::needed::<String>(json, "engine"@),
        ) {
            (Some(engine),) => Some(
                LoopEventPayloadView::LoopEngineSelected { engine },
            ),
            _ => None,
        }
    }
}

fn read_loop_engine_selected(json: &Json) -> (payload: Option<LoopEventPayload>)
    ensures
        views::opt_view(payload) == loop_engine_selected_reading(json@),
{
    match json {
        Json::Object(_) => {},
        _ => {
            return None;
        },
    }
    match (
        wire::read_needed::<String>(json, "engine"),
    ) {
        (Some(engine),) => Some(
            LoopEventPayload::LoopEngineSelected { engine },
        ),
        _ => None,
    }
}

proof fn loop_engine_selected_reads_back(engine: Seq<char>)
    ensures
        loop_engine_selected_reading(JsonView::Object(loop_engine_selected_body(engine))) == Some(
            LoopEventPayloadView::LoopEngineSelected { engine },
        ),
{
    let members = loop_engine_selected_body(engine);
    wire::member_found(members, 0);
    <String as FromJson>::reads_back(engine);
}

pub open spec fn loop_rotation_requested_body(
    why: Option<Seq<char>>,
) -> Seq<(Seq<char>, JsonView)> {
    seq![
        ("why"@, wire::opt_json::<String>(why)),
    ]
}

pub open spec fn loop_rotation_requested_reading(json: JsonView) -> Option<LoopEventPayloadView> {
    if !(json is Object) {
        None
    } else {
        match (
            wire::optional::<String>(json, "why"@),
        ) {
            (Some(why),) => Some(
                LoopEventPayloadView::LoopRotationRequested { why },
            ),
            _ => None,
        }
    }
}

fn read_loop_rotation_requested(json: &Json) -> (payload: Option<LoopEventPayload>)
    ensures
        views::opt_view(payload) == loop_rotation_requested_reading(json@),
{
    match json {
        Json::Object(_) => {},
        _ => {
            return None;
        },
    }
    match (
        wire::read_optional::<String>(json, "why"),
    ) {
        (Some(why),) => Some(
            LoopEventPayload::LoopRotationRequested { why },
        ),
        _ => None,
    }
}

proof fn loop_rotation_requested_reads_back(why: Option<Seq<char>>)
    ensures
        loop_rotation_requested_reading(
            JsonView::Object(loop_rotation_requested_body(why)),
        ) == Some(LoopEventPayloadView::LoopRotationRequested { why }),
{
    let members = loop_rotation_requested_body(why);
    wire::member_found(members, 0);
    opt_read_back::<String>(why);
}

pub open spec fn loop_nudge_requested_body(why: Option<Seq<char>>) -> Seq<(Seq<char>, JsonView)> {
    seq![
        ("why"@, wire::opt_json::<String>(why)),
    ]
}

pub open spec fn loop_nudge_requested_reading(json: JsonView) -> Option<LoopEventPayloadView> {
    if !(json is Object) {
        None
    } else {
        match (
            wire::optional::<String>(json, "why"@),
        ) {
            (Some(why),) => Some(
                LoopEventPayloadView::LoopNudgeRequested { why },
            ),
            _ => None,
        }
    }
}

fn read_loop_nudge_requested(json: &Json) -> (payload: Option<LoopEventPayload>)
    ensures
        views::opt_view(payload) == loop_nudge_requested_reading(json@),
{
    match json {
        Json::Object(_) => {},
        _ => {
            return None;
        },
    }
    match (
        wire::read_optional::<String>(json, "why"),
    ) {
        (Some(why),) => Some(
            LoopEventPayload::LoopNudgeRequested { why },
        ),
        _ => None,
    }
}

proof fn loop_nudge_requested_reads_back(why: Option<Seq<char>>)
    ensures
        loop_nudge_requested_reading(JsonView::Object(loop_nudge_requested_body(why))) == Some(
            LoopEventPayloadView::LoopNudgeRequested { why },
        ),
{
    let members = loop_nudge_requested_body(why);
    wire::member_found(members, 0);
    opt_read_back::<String>(why);
}

impl WorkEventPayloadView {
    /// The body that the statement is written with.
    pub open spec fn body(self) -> JsonView {
        match self {
            WorkEventPayloadView::LegacyHandoffSubmitted { handoff } => JsonView::Object(
                handoff_submitted_body(handoff),
            ),
            WorkEventPayloadView::LegacyHandoffIntegrated { handoff_id, work } => JsonView::Object(
                handoff_integrated_body(handoff_id, work),
            ),
            WorkEventPayloadView::LegacyHandoffWithdrawn { handoff_id, why } => JsonView::Object(
                handoff_withdrawn_body(handoff_id, why),
            ),
            WorkEventPayloadView::WorkChanged { why, operations } => JsonView::Object(
                work_changed_body(why, operations),
            ),
            WorkEventPayloadView::WorkFinished { work_id, attempt_id, external, evidence } => JsonView::Object(
                work_finished_body(work_id, attempt_id, external, evidence),
            ),
            WorkEventPayloadView::WorkDropped { work_id, attempt_id, outcome, why } => JsonView::Object(
                work_dropped_body(work_id, attempt_id, outcome, why),
            ),
            WorkEventPayloadView::WorkReopened { work_id, why } => JsonView::Object(
                work_reopened_body(work_id, why),
            ),
            WorkEventPayloadView::AttemptStarted { attempt } => JsonView::Object(
                attempt_started_body(attempt),
            ),
            WorkEventPayloadView::AttemptBound { attempt_id, handle, metadata } => JsonView::Object(
                attempt_bound_body(attempt_id, handle, metadata),
            ),
            WorkEventPayloadView::AttemptUpdated { attempt_id, tier, metadata, note, checks } => JsonView::Object(
                attempt_updated_body(attempt_id, tier, metadata, note, checks),
            ),
            WorkEventPayloadView::AttemptEnded { attempt_id, outcome, why } => JsonView::Object(
                attempt_ended_body(attempt_id, outcome, why),
            ),
            WorkEventPayloadView::QuestionAsked { question } => JsonView::Object(
                question_asked_body(question),
            ),
            WorkEventPayloadView::QuestionAnswered { question_id, answer } => JsonView::Object(
                question_answered_body(question_id, answer),
            ),
        }
    }

    pub open spec fn on_calendar(self) -> bool {
        match self {
            WorkEventPayloadView::WorkChanged { operations, .. } => wire::all_on_calendar::<
                WorkOperation,
            >(operations),
            _ => true,
        }
    }

    pub open spec fn wired(self) -> bool {
        match self {
            WorkEventPayloadView::WorkChanged { operations, .. } => wire::all_wired::<
                WorkOperation,
            >(operations),
            WorkEventPayloadView::AttemptStarted { attempt } => attempt.metadata.dom().finite(),
            WorkEventPayloadView::AttemptBound { metadata, .. } => metadata.dom().finite(),
            WorkEventPayloadView::AttemptUpdated { metadata, .. } => metadata.dom().finite(),
            _ => true,
        }
    }
}

impl WorkEventPayload {
    pub fn to_body(&self) -> (body: Json)
        ensures
            body@ == self@.body(),
            self@.on_calendar() ==> self@.wired(),
    {
        let body = match self {
            WorkEventPayload::LegacyHandoffSubmitted { handoff } => Json::object().with(
                "handoff",
                handoff.to_json(),
            ),
            WorkEventPayload::LegacyHandoffIntegrated { handoff_id, work } => Json::object().with(
                "handoff_id",
                handoff_id.to_json(),
            ).with("work", work.to_json()),
            WorkEventPayload::LegacyHandoffWithdrawn { handoff_id, why } => Json::object().with(
                "handoff_id",
                handoff_id.to_json(),
            ).with("why", why.to_json()),
            WorkEventPayload::WorkChanged { why, operations } => Json::object().with(
                "why",
                wire::opt_to_json(why),
            ).with("operations", wire::list_to_json(operations)),
            WorkEventPayload::WorkFinished { work_id, attempt_id, external, evidence } => {
                Json::object().with("work_id", work_id.to_json()).with(
                    "attempt_id",
                    wire::opt_to_json(attempt_id),
                ).with("external", external.to_json()).with("evidence", wire::opt_to_json(evidence))
            },
            WorkEventPayload::WorkDropped { work_id, attempt_id, outcome, why } => {
                Json::object().with("work_id", work_id.to_json()).with(
                    "attempt_id",
                    wire::opt_to_json(attempt_id),
                ).with("outcome", wire::opt_to_json(outcome)).with("why", why.to_json())
            },
            WorkEventPayload::WorkReopened { work_id, why } => Json::object().with(
                "work_id",
                work_id.to_json(),
            ).with("why", why.to_json()),
            WorkEventPayload::AttemptStarted { attempt } => Json::object().with(
                "attempt",
                attempt.to_json(),
            ),
            WorkEventPayload::AttemptBound { attempt_id, handle, metadata } => Json::object().with(
                "attempt_id",
                attempt_id.to_json(),
            ).with("handle", handle.to_json()).with("metadata", wire::map_to_json(metadata)),
            WorkEventPayload::AttemptUpdated { attempt_id, tier, metadata, note, checks } => {
                Json::object().with("attempt_id", attempt_id.to_json()).with(
                    "tier",
                    wire::opt_to_json(tier),
                ).with("metadata", wire::map_to_json(metadata)).with("note", wire::opt_to_json(note)).with("checks", wire::list_to_json(checks))
            },
            WorkEventPayload::AttemptEnded { attempt_id, outcome, why } => Json::object().with(
                "attempt_id",
                attempt_id.to_json(),
            ).with("outcome", outcome.to_json()).with("why", why.to_json()),
            WorkEventPayload::QuestionAsked { question } => Json::object().with(
                "question",
                question.to_json(),
            ),
            WorkEventPayload::QuestionAnswered { question_id, answer } => Json::object().with(
                "question_id",
                question_id.to_json(),
            ).with("answer", answer.to_json()),
        };
        assert(body@->Object_0 =~= self@.body()->Object_0);
        body
    }
}

impl ObservationEventPayloadView {
    pub open spec fn body(self) -> JsonView {
        match self {
            ObservationEventPayloadView::ObservationReported { observation } => JsonView::Object(
                observation_reported_body(observation),
            ),
            ObservationEventPayloadView::ObservationRetired { key } => JsonView::Object(
                observation_retired_body(key),
            ),
        }
    }
}

impl ObservationEventPayload {
    pub fn to_body(&self) -> (body: Json)
        ensures
            body@ == self@.body(),
    {
        let body = match self {
            ObservationEventPayload::ObservationReported { observation } => Json::object().with(
                "observation",
                observation.to_json(),
            ),
            ObservationEventPayload::ObservationRetired { key } => Json::object().with(
                "key",
                key.to_json(),
            ),
        };
        assert(body@->Object_0 =~= self@.body()->Object_0);
        body
    }
}

impl LoopEventPayloadView {
    pub open spec fn body(self) -> JsonView {
        match self {
            LoopEventPayloadView::LegacyPassStarted(body) => body,
            LoopEventPayloadView::LegacyPassEnded(body) => body,
            LoopEventPayloadView::LoopPaused { why } => JsonView::Object(
                loop_paused_body(why),
            ),
            LoopEventPayloadView::LoopResumed {} => JsonView::Object(loop_resumed_body()),
            LoopEventPayloadView::LoopEngineSelected { engine } => JsonView::Object(
                loop_engine_selected_body(engine),
            ),
            LoopEventPayloadView::LoopRotationRequested { why } => JsonView::Object(
                loop_rotation_requested_body(why),
            ),
            LoopEventPayloadView::LoopNudgeRequested { why } => JsonView::Object(
                loop_nudge_requested_body(why),
            ),
        }
    }
}

impl LoopEventPayload {
    pub fn to_body(&self) -> (body: Json)
        ensures
            body@ == self@.body(),
    {
        let body = match self {
            LoopEventPayload::LegacyPassStarted(body) => {
                return body.clone();
            },
            LoopEventPayload::LegacyPassEnded(body) => {
                return body.clone();
            },
            LoopEventPayload::LoopPaused { why } => Json::object().with(
                "why",
                wire::opt_to_json(why),
            ),
            LoopEventPayload::LoopResumed {} => Json::object(),
            LoopEventPayload::LoopEngineSelected { engine } => Json::object().with(
                "engine",
                engine.to_json(),
            ),
            LoopEventPayload::LoopRotationRequested { why } => Json::object().with(
                "why",
                wire::opt_to_json(why),
            ),
            LoopEventPayload::LoopNudgeRequested { why } => Json::object().with(
                "why",
                wire::opt_to_json(why),
            ),
        };
        assert(body@->Object_0 =~= self@.body()->Object_0);
        body
    }
}

impl EventPayloadView {
    pub open spec fn body(self) -> JsonView {
        match self {
            EventPayloadView::Work(payload) => payload.body(),
            EventPayloadView::Observation(payload) => payload.body(),
            EventPayloadView::Loop(payload) => payload.body(),
        }
    }

    /// Whether all moments in the statement are on the calendar.
    pub open spec fn on_calendar(self) -> bool {
        match self {
            EventPayloadView::Work(payload) => payload.on_calendar(),
            _ => true,
        }
    }

    pub open spec fn wired(self) -> bool {
        match self {
            EventPayloadView::Work(payload) => payload.wired(),
            _ => true,
        }
    }
}

impl EventPayload {
    pub fn to_body(&self) -> (body: Json)
        ensures
            body@ == self@.body(),
            self@.on_calendar() ==> self@.wired(),
    {
        match self {
            EventPayload::Work(payload) => payload.to_body(),
            EventPayload::Observation(payload) => payload.to_body(),
            EventPayload::Loop(payload) => payload.to_body(),
        }
    }
}

// ---- reading a statement ----

pub open spec fn work_reading(kind: Seq<char>, body: JsonView) -> Option<WorkEventPayloadView> {
    if kind == "handoff.submitted"@ {
        handoff_submitted_reading(body)
    } else if kind == "handoff.integrated"@ {
        handoff_integrated_reading(body)
    } else if kind == "handoff.withdrawn"@ {
        handoff_withdrawn_reading(body)
    } else if kind == "work.changed"@ {
        work_changed_reading(body)
    } else if kind == "work.finished"@ {
        work_finished_reading(body)
    } else if kind == "work.dropped"@ {
        work_dropped_reading(body)
    } else if kind == "work.reopened"@ {
        work_reopened_reading(body)
    } else if kind == "attempt.started"@ {
        attempt_started_reading(body)
    } else if kind == "attempt.bound"@ {
        attempt_bound_reading(body)
    } else if kind == "attempt.updated"@ {
        attempt_updated_reading(body)
    } else if kind == "attempt.ended"@ {
        attempt_ended_reading(body)
    } else if kind == "question.asked"@ {
        question_asked_reading(body)
    } else if kind == "question.answered"@ {
        question_answered_reading(body)
    } else {
        None
    }
}

fn read_work(kind: &str, body: &Json) -> (payload: Option<WorkEventPayload>)
    ensures
        views::opt_view(payload) == work_reading(kind@, body@),
{
    if same_text(kind, "handoff.submitted") {
        read_handoff_submitted(body)
    } else if same_text(kind, "handoff.integrated") {
        read_handoff_integrated(body)
    } else if same_text(kind, "handoff.withdrawn") {
        read_handoff_withdrawn(body)
    } else if same_text(kind, "work.changed") {
        read_work_changed(body)
    } else if same_text(kind, "work.finished") {
        read_work_finished(body)
    } else if same_text(kind, "work.dropped") {
        read_work_dropped(body)
    } else if same_text(kind, "work.reopened") {
        read_work_reopened(body)
    } else if same_text(kind, "attempt.started") {
        read_attempt_started(body)
    } else if same_text(kind, "attempt.bound") {
        read_attempt_bound(body)
    } else if same_text(kind, "attempt.updated") {
        read_attempt_updated(body)
    } else if same_text(kind, "attempt.ended") {
        read_attempt_ended(body)
    } else if same_text(kind, "question.asked") {
        read_question_asked(body)
    } else if same_text(kind, "question.answered") {
        read_question_answered(body)
    } else {
        None
    }
}

pub open spec fn observation_reading(
    kind: Seq<char>,
    body: JsonView,
) -> Option<ObservationEventPayloadView> {
    if kind == "observation.reported"@ {
        observation_reported_reading(body)
    } else if kind == "observation.retired"@ {
        observation_retired_reading(body)
    } else {
        None
    }
}

fn read_observation(kind: &str, body: &Json) -> (payload: Option<ObservationEventPayload>)
    ensures
        views::opt_view(payload) == observation_reading(kind@, body@),
{
    if same_text(kind, "observation.reported") {
        read_observation_reported(body)
    } else if same_text(kind, "observation.retired") {
        read_observation_retired(body)
    } else {
        None
    }
}

pub open spec fn loop_reading(kind: Seq<char>, body: JsonView) -> Option<LoopEventPayloadView> {
    if kind == "loop.paused"@ {
        loop_paused_reading(body)
    } else if kind == "loop.resumed"@ {
        loop_resumed_reading(body)
    } else if kind == "loop.engine_selected"@ {
        loop_engine_selected_reading(body)
    } else if kind == "loop.rotation_requested"@ {
        loop_rotation_requested_reading(body)
    } else if kind == "loop.nudge_requested"@ {
        loop_nudge_requested_reading(body)
    } else if kind == "pass.started"@ {
        Some(LoopEventPayloadView::LegacyPassStarted(body))
    } else if kind == "pass.ended"@ {
        Some(LoopEventPayloadView::LegacyPassEnded(body))
    } else {
        None
    }
}

fn read_loop(kind: &str, body: &Json) -> (payload: Option<LoopEventPayload>)
    ensures
        views::opt_view(payload) == loop_reading(kind@, body@),
{
    if same_text(kind, "loop.paused") {
        read_loop_paused(body)
    } else if same_text(kind, "loop.resumed") {
        read_loop_resumed(body)
    } else if same_text(kind, "loop.engine_selected") {
        read_loop_engine_selected(body)
    } else if same_text(kind, "loop.rotation_requested") {
        read_loop_rotation_requested(body)
    } else if same_text(kind, "loop.nudge_requested") {
        read_loop_nudge_requested(body)
    } else if same_text(kind, "pass.started") {
        Some(LoopEventPayload::LegacyPassStarted(body.clone()))
    } else if same_text(kind, "pass.ended") {
        Some(LoopEventPayload::LegacyPassEnded(body.clone()))
    } else {
        None
    }
}

/// What an event type and a body say, if they say anything.
pub open spec fn payload_reading(kind: Seq<char>, body: JsonView) -> Option<EventPayloadView> {
    match work_reading(kind, body) {
        Some(payload) => Some(EventPayloadView::Work(payload)),
        None => match observation_reading(kind, body) {
            Some(payload) => Some(EventPayloadView::Observation(payload)),
            None => match loop_reading(kind, body) {
                Some(payload) => Some(EventPayloadView::Loop(payload)),
                None => None,
            },
        },
    }
}

pub fn read_payload(kind: &str, body: &Json) -> (payload: Option<EventPayload>)
    ensures
        views::opt_view(payload) == payload_reading(kind@, body@),
{
    match read_work(kind, body) {
        Some(payload) => Some(EventPayload::Work(payload)),
        None => match read_observation(kind, body) {
            Some(payload) => Some(EventPayload::Observation(payload)),
            None => match read_loop(kind, body) {
                Some(payload) => Some(EventPayload::Loop(payload)),
                None => None,
            },
        },
    }
}

proof fn work_types_differ()
    ensures
        "handoff.submitted"@ != "handoff.integrated"@,
        "handoff.submitted"@ != "handoff.withdrawn"@,
        "handoff.submitted"@ != "work.changed"@,
        "handoff.submitted"@ != "work.finished"@,
        "handoff.submitted"@ != "work.dropped"@,
        "handoff.submitted"@ != "work.reopened"@,
        "handoff.submitted"@ != "attempt.started"@,
        "handoff.submitted"@ != "attempt.bound"@,
        "handoff.submitted"@ != "attempt.updated"@,
        "handoff.submitted"@ != "attempt.ended"@,
        "handoff.submitted"@ != "question.asked"@,
        "handoff.submitted"@ != "question.answered"@,
        "handoff.integrated"@ != "handoff.withdrawn"@,
        "handoff.integrated"@ != "work.changed"@,
        "handoff.integrated"@ != "work.finished"@,
        "handoff.integrated"@ != "work.dropped"@,
        "handoff.integrated"@ != "work.reopened"@,
        "handoff.integrated"@ != "attempt.started"@,
        "handoff.integrated"@ != "attempt.bound"@,
        "handoff.integrated"@ != "attempt.updated"@,
        "handoff.integrated"@ != "attempt.ended"@,
        "handoff.integrated"@ != "question.asked"@,
        "handoff.integrated"@ != "question.answered"@,
        "handoff.withdrawn"@ != "work.changed"@,
        "handoff.withdrawn"@ != "work.finished"@,
        "handoff.withdrawn"@ != "work.dropped"@,
        "handoff.withdrawn"@ != "work.reopened"@,
        "handoff.withdrawn"@ != "attempt.started"@,
        "handoff.withdrawn"@ != "attempt.bound"@,
        "handoff.withdrawn"@ != "attempt.updated"@,
        "handoff.withdrawn"@ != "attempt.ended"@,
        "handoff.withdrawn"@ != "question.asked"@,
        "handoff.withdrawn"@ != "question.answered"@,
        "work.changed"@ != "work.finished"@,
        "work.changed"@ != "work.dropped"@,
        "work.changed"@ != "work.reopened"@,
        "work.changed"@ != "attempt.started"@,
        "work.changed"@ != "attempt.bound"@,
        "work.changed"@ != "attempt.updated"@,
        "work.changed"@ != "attempt.ended"@,
        "work.changed"@ != "question.asked"@,
        "work.changed"@ != "question.answered"@,
        "work.finished"@ != "work.dropped"@,
        "work.finished"@ != "work.reopened"@,
        "work.finished"@ != "attempt.started"@,
        "work.finished"@ != "attempt.bound"@,
        "work.finished"@ != "attempt.updated"@,
        "work.finished"@ != "attempt.ended"@,
        "work.finished"@ != "question.asked"@,
        "work.finished"@ != "question.answered"@,
        "work.dropped"@ != "work.reopened"@,
        "work.dropped"@ != "attempt.started"@,
        "work.dropped"@ != "attempt.bound"@,
        "work.dropped"@ != "attempt.updated"@,
        "work.dropped"@ != "attempt.ended"@,
        "work.dropped"@ != "question.asked"@,
        "work.dropped"@ != "question.answered"@,
        "work.reopened"@ != "attempt.started"@,
        "work.reopened"@ != "attempt.bound"@,
        "work.reopened"@ != "attempt.updated"@,
        "work.reopened"@ != "attempt.ended"@,
        "work.reopened"@ != "question.asked"@,
        "work.reopened"@ != "question.answered"@,
        "attempt.started"@ != "attempt.bound"@,
        "attempt.started"@ != "attempt.updated"@,
        "attempt.started"@ != "attempt.ended"@,
        "attempt.started"@ != "question.asked"@,
        "attempt.started"@ != "question.answered"@,
        "attempt.bound"@ != "attempt.updated"@,
        "attempt.bound"@ != "attempt.ended"@,
        "attempt.bound"@ != "question.asked"@,
        "attempt.bound"@ != "question.answered"@,
        "attempt.updated"@ != "attempt.ended"@,
        "attempt.updated"@ != "question.asked"@,
        "attempt.updated"@ != "question.answered"@,
        "attempt.ended"@ != "question.asked"@,
        "attempt.ended"@ != "question.answered"@,
        "question.asked"@ != "question.answered"@,
{
    reveal_strlit("handoff.submitted");
    assert("handoff.submitted"@.len() == 17);
    reveal_strlit("handoff.integrated");
    assert("handoff.integrated"@.len() == 18);
    reveal_strlit("handoff.withdrawn");
    assert("handoff.withdrawn"@.len() == 17);
    reveal_strlit("work.changed");
    assert("work.changed"@.len() == 12);
    reveal_strlit("work.finished");
    assert("work.finished"@.len() == 13);
    reveal_strlit("work.dropped");
    assert("work.dropped"@.len() == 12);
    reveal_strlit("work.reopened");
    assert("work.reopened"@.len() == 13);
    reveal_strlit("attempt.started");
    assert("attempt.started"@.len() == 15);
    reveal_strlit("attempt.bound");
    assert("attempt.bound"@.len() == 13);
    reveal_strlit("attempt.updated");
    assert("attempt.updated"@.len() == 15);
    reveal_strlit("attempt.ended");
    assert("attempt.ended"@.len() == 13);
    reveal_strlit("question.asked");
    assert("question.asked"@.len() == 14);
    reveal_strlit("question.answered");
    assert("question.answered"@.len() == 17);
    assert("handoff.submitted"@[8] != "handoff.withdrawn"@[8]);
    assert("handoff.submitted"@[0] != "question.answered"@[0]);
    assert("handoff.withdrawn"@[0] != "question.answered"@[0]);
    assert("work.changed"@[5] != "work.dropped"@[5]);
    assert("work.finished"@[5] != "work.reopened"@[5]);
    assert("work.finished"@[0] != "attempt.bound"@[0]);
    assert("work.finished"@[0] != "attempt.ended"@[0]);
    assert("work.reopened"@[0] != "attempt.bound"@[0]);
    assert("work.reopened"@[0] != "attempt.ended"@[0]);
    assert("attempt.started"@[8] != "attempt.updated"@[8]);
    assert("attempt.bound"@[8] != "attempt.ended"@[8]);
}

proof fn observation_types_differ()
    ensures
        "observation.reported"@ != "handoff.submitted"@,
        "observation.reported"@ != "handoff.integrated"@,
        "observation.reported"@ != "handoff.withdrawn"@,
        "observation.reported"@ != "work.changed"@,
        "observation.reported"@ != "work.finished"@,
        "observation.reported"@ != "work.dropped"@,
        "observation.reported"@ != "work.reopened"@,
        "observation.reported"@ != "attempt.started"@,
        "observation.reported"@ != "attempt.bound"@,
        "observation.reported"@ != "attempt.updated"@,
        "observation.reported"@ != "attempt.ended"@,
        "observation.reported"@ != "question.asked"@,
        "observation.reported"@ != "question.answered"@,
        "observation.reported"@ != "observation.retired"@,
        "observation.retired"@ != "handoff.submitted"@,
        "observation.retired"@ != "handoff.integrated"@,
        "observation.retired"@ != "handoff.withdrawn"@,
        "observation.retired"@ != "work.changed"@,
        "observation.retired"@ != "work.finished"@,
        "observation.retired"@ != "work.dropped"@,
        "observation.retired"@ != "work.reopened"@,
        "observation.retired"@ != "attempt.started"@,
        "observation.retired"@ != "attempt.bound"@,
        "observation.retired"@ != "attempt.updated"@,
        "observation.retired"@ != "attempt.ended"@,
        "observation.retired"@ != "question.asked"@,
        "observation.retired"@ != "question.answered"@,
{
    reveal_strlit("handoff.submitted");
    assert("handoff.submitted"@.len() == 17);
    reveal_strlit("handoff.integrated");
    assert("handoff.integrated"@.len() == 18);
    reveal_strlit("handoff.withdrawn");
    assert("handoff.withdrawn"@.len() == 17);
    reveal_strlit("work.changed");
    assert("work.changed"@.len() == 12);
    reveal_strlit("work.finished");
    assert("work.finished"@.len() == 13);
    reveal_strlit("work.dropped");
    assert("work.dropped"@.len() == 12);
    reveal_strlit("work.reopened");
    assert("work.reopened"@.len() == 13);
    reveal_strlit("attempt.started");
    assert("attempt.started"@.len() == 15);
    reveal_strlit("attempt.bound");
    assert("attempt.bound"@.len() == 13);
    reveal_strlit("attempt.updated");
    assert("attempt.updated"@.len() == 15);
    reveal_strlit("attempt.ended");
    assert("attempt.ended"@.len() == 13);
    reveal_strlit("question.asked");
    assert("question.asked"@.len() == 14);
    reveal_strlit("question.answered");
    assert("question.answered"@.len() == 17);
    reveal_strlit("observation.reported");
    assert("observation.reported"@.len() == 20);
    reveal_strlit("observation.retired");
    assert("observation.retired"@.len() == 19);
}

proof fn loop_types_differ()
    ensures
        "loop.paused"@ != "handoff.submitted"@,
        "loop.paused"@ != "handoff.integrated"@,
        "loop.paused"@ != "handoff.withdrawn"@,
        "loop.paused"@ != "work.changed"@,
        "loop.paused"@ != "work.finished"@,
        "loop.paused"@ != "work.dropped"@,
        "loop.paused"@ != "work.reopened"@,
        "loop.paused"@ != "attempt.started"@,
        "loop.paused"@ != "attempt.bound"@,
        "loop.paused"@ != "attempt.updated"@,
        "loop.paused"@ != "attempt.ended"@,
        "loop.paused"@ != "question.asked"@,
        "loop.paused"@ != "question.answered"@,
        "loop.paused"@ != "observation.reported"@,
        "loop.paused"@ != "observation.retired"@,
        "loop.paused"@ != "loop.resumed"@,
        "loop.paused"@ != "loop.engine_selected"@,
        "loop.paused"@ != "loop.rotation_requested"@,
        "loop.paused"@ != "loop.nudge_requested"@,
        "loop.paused"@ != "pass.started"@,
        "loop.paused"@ != "pass.ended"@,
        "loop.resumed"@ != "handoff.submitted"@,
        "loop.resumed"@ != "handoff.integrated"@,
        "loop.resumed"@ != "handoff.withdrawn"@,
        "loop.resumed"@ != "work.changed"@,
        "loop.resumed"@ != "work.finished"@,
        "loop.resumed"@ != "work.dropped"@,
        "loop.resumed"@ != "work.reopened"@,
        "loop.resumed"@ != "attempt.started"@,
        "loop.resumed"@ != "attempt.bound"@,
        "loop.resumed"@ != "attempt.updated"@,
        "loop.resumed"@ != "attempt.ended"@,
        "loop.resumed"@ != "question.asked"@,
        "loop.resumed"@ != "question.answered"@,
        "loop.resumed"@ != "observation.reported"@,
        "loop.resumed"@ != "observation.retired"@,
        "loop.resumed"@ != "loop.engine_selected"@,
        "loop.resumed"@ != "loop.rotation_requested"@,
        "loop.resumed"@ != "loop.nudge_requested"@,
        "loop.resumed"@ != "pass.started"@,
        "loop.resumed"@ != "pass.ended"@,
        "loop.engine_selected"@ != "handoff.submitted"@,
        "loop.engine_selected"@ != "handoff.integrated"@,
        "loop.engine_selected"@ != "handoff.withdrawn"@,
        "loop.engine_selected"@ != "work.changed"@,
        "loop.engine_selected"@ != "work.finished"@,
        "loop.engine_selected"@ != "work.dropped"@,
        "loop.engine_selected"@ != "work.reopened"@,
        "loop.engine_selected"@ != "attempt.started"@,
        "loop.engine_selected"@ != "attempt.bound"@,
        "loop.engine_selected"@ != "attempt.updated"@,
        "loop.engine_selected"@ != "attempt.ended"@,
        "loop.engine_selected"@ != "question.asked"@,
        "loop.engine_selected"@ != "question.answered"@,
        "loop.engine_selected"@ != "observation.reported"@,
        "loop.engine_selected"@ != "observation.retired"@,
        "loop.engine_selected"@ != "loop.rotation_requested"@,
        "loop.engine_selected"@ != "loop.nudge_requested"@,
        "loop.engine_selected"@ != "pass.started"@,
        "loop.engine_selected"@ != "pass.ended"@,
        "loop.rotation_requested"@ != "handoff.submitted"@,
        "loop.rotation_requested"@ != "handoff.integrated"@,
        "loop.rotation_requested"@ != "handoff.withdrawn"@,
        "loop.rotation_requested"@ != "work.changed"@,
        "loop.rotation_requested"@ != "work.finished"@,
        "loop.rotation_requested"@ != "work.dropped"@,
        "loop.rotation_requested"@ != "work.reopened"@,
        "loop.rotation_requested"@ != "attempt.started"@,
        "loop.rotation_requested"@ != "attempt.bound"@,
        "loop.rotation_requested"@ != "attempt.updated"@,
        "loop.rotation_requested"@ != "attempt.ended"@,
        "loop.rotation_requested"@ != "question.asked"@,
        "loop.rotation_requested"@ != "question.answered"@,
        "loop.rotation_requested"@ != "observation.reported"@,
        "loop.rotation_requested"@ != "observation.retired"@,
        "loop.rotation_requested"@ != "loop.nudge_requested"@,
        "loop.rotation_requested"@ != "pass.started"@,
        "loop.rotation_requested"@ != "pass.ended"@,
        "loop.nudge_requested"@ != "handoff.submitted"@,
        "loop.nudge_requested"@ != "handoff.integrated"@,
        "loop.nudge_requested"@ != "handoff.withdrawn"@,
        "loop.nudge_requested"@ != "work.changed"@,
        "loop.nudge_requested"@ != "work.finished"@,
        "loop.nudge_requested"@ != "work.dropped"@,
        "loop.nudge_requested"@ != "work.reopened"@,
        "loop.nudge_requested"@ != "attempt.started"@,
        "loop.nudge_requested"@ != "attempt.bound"@,
        "loop.nudge_requested"@ != "attempt.updated"@,
        "loop.nudge_requested"@ != "attempt.ended"@,
        "loop.nudge_requested"@ != "question.asked"@,
        "loop.nudge_requested"@ != "question.answered"@,
        "loop.nudge_requested"@ != "observation.reported"@,
        "loop.nudge_requested"@ != "observation.retired"@,
        "loop.nudge_requested"@ != "pass.started"@,
        "loop.nudge_requested"@ != "pass.ended"@,
        "pass.started"@ != "handoff.submitted"@,
        "pass.started"@ != "handoff.integrated"@,
        "pass.started"@ != "handoff.withdrawn"@,
        "pass.started"@ != "work.changed"@,
        "pass.started"@ != "work.finished"@,
        "pass.started"@ != "work.dropped"@,
        "pass.started"@ != "work.reopened"@,
        "pass.started"@ != "attempt.started"@,
        "pass.started"@ != "attempt.bound"@,
        "pass.started"@ != "attempt.updated"@,
        "pass.started"@ != "attempt.ended"@,
        "pass.started"@ != "question.asked"@,
        "pass.started"@ != "question.answered"@,
        "pass.started"@ != "observation.reported"@,
        "pass.started"@ != "observation.retired"@,
        "pass.started"@ != "pass.ended"@,
        "pass.ended"@ != "handoff.submitted"@,
        "pass.ended"@ != "handoff.integrated"@,
        "pass.ended"@ != "handoff.withdrawn"@,
        "pass.ended"@ != "work.changed"@,
        "pass.ended"@ != "work.finished"@,
        "pass.ended"@ != "work.dropped"@,
        "pass.ended"@ != "work.reopened"@,
        "pass.ended"@ != "attempt.started"@,
        "pass.ended"@ != "attempt.bound"@,
        "pass.ended"@ != "attempt.updated"@,
        "pass.ended"@ != "attempt.ended"@,
        "pass.ended"@ != "question.asked"@,
        "pass.ended"@ != "question.answered"@,
        "pass.ended"@ != "observation.reported"@,
        "pass.ended"@ != "observation.retired"@,
{
    reveal_strlit("handoff.submitted");
    assert("handoff.submitted"@.len() == 17);
    reveal_strlit("handoff.integrated");
    assert("handoff.integrated"@.len() == 18);
    reveal_strlit("handoff.withdrawn");
    assert("handoff.withdrawn"@.len() == 17);
    reveal_strlit("work.changed");
    assert("work.changed"@.len() == 12);
    reveal_strlit("work.finished");
    assert("work.finished"@.len() == 13);
    reveal_strlit("work.dropped");
    assert("work.dropped"@.len() == 12);
    reveal_strlit("work.reopened");
    assert("work.reopened"@.len() == 13);
    reveal_strlit("attempt.started");
    assert("attempt.started"@.len() == 15);
    reveal_strlit("attempt.bound");
    assert("attempt.bound"@.len() == 13);
    reveal_strlit("attempt.updated");
    assert("attempt.updated"@.len() == 15);
    reveal_strlit("attempt.ended");
    assert("attempt.ended"@.len() == 13);
    reveal_strlit("question.asked");
    assert("question.asked"@.len() == 14);
    reveal_strlit("question.answered");
    assert("question.answered"@.len() == 17);
    reveal_strlit("observation.reported");
    assert("observation.reported"@.len() == 20);
    reveal_strlit("observation.retired");
    assert("observation.retired"@.len() == 19);
    reveal_strlit("loop.paused");
    assert("loop.paused"@.len() == 11);
    reveal_strlit("loop.resumed");
    assert("loop.resumed"@.len() == 12);
    reveal_strlit("loop.engine_selected");
    assert("loop.engine_selected"@.len() == 20);
    reveal_strlit("loop.rotation_requested");
    assert("loop.rotation_requested"@.len() == 23);
    reveal_strlit("loop.nudge_requested");
    assert("loop.nudge_requested"@.len() == 20);
    reveal_strlit("pass.started");
    assert("pass.started"@.len() == 12);
    reveal_strlit("pass.ended");
    assert("pass.ended"@.len() == 10);
    assert("loop.resumed"@[0] != "work.changed"@[0]);
    assert("loop.resumed"@[0] != "work.dropped"@[0]);
    assert("loop.resumed"@[0] != "pass.started"@[0]);
    assert("loop.engine_selected"@[0] != "observation.reported"@[0]);
    assert("loop.engine_selected"@[5] != "loop.nudge_requested"@[5]);
    assert("loop.nudge_requested"@[0] != "observation.reported"@[0]);
    assert("pass.started"@[0] != "work.changed"@[0]);
    assert("pass.started"@[0] != "work.dropped"@[0]);
}

proof fn work_reads_back(payload: WorkEventPayloadView)
    requires
        payload.wired(),
    ensures
        work_reading(payload.event_type(), payload.body()) == Some(payload),
{
    work_types_differ();
    match payload {
        WorkEventPayloadView::LegacyHandoffSubmitted { handoff } => {
            handoff_submitted_reads_back(handoff);
        },
        WorkEventPayloadView::LegacyHandoffIntegrated { handoff_id, work } => {
            handoff_integrated_reads_back(handoff_id, work);
        },
        WorkEventPayloadView::LegacyHandoffWithdrawn { handoff_id, why } => {
            handoff_withdrawn_reads_back(handoff_id, why);
        },
        WorkEventPayloadView::WorkChanged { why, operations } => {
            work_changed_reads_back(why, operations);
        },
        WorkEventPayloadView::WorkFinished { work_id, attempt_id, external, evidence } => {
            work_finished_reads_back(work_id, attempt_id, external, evidence);
        },
        WorkEventPayloadView::WorkDropped { work_id, attempt_id, outcome, why } => {
            work_dropped_reads_back(work_id, attempt_id, outcome, why);
        },
        WorkEventPayloadView::WorkReopened { work_id, why } => {
            work_reopened_reads_back(work_id, why);
        },
        WorkEventPayloadView::AttemptStarted { attempt } => {
            attempt_started_reads_back(attempt);
        },
        WorkEventPayloadView::AttemptBound { attempt_id, handle, metadata } => {
            attempt_bound_reads_back(attempt_id, handle, metadata);
        },
        WorkEventPayloadView::AttemptUpdated { attempt_id, tier, metadata, note, checks } => {
            attempt_updated_reads_back(attempt_id, tier, metadata, note, checks);
        },
        WorkEventPayloadView::AttemptEnded { attempt_id, outcome, why } => {
            attempt_ended_reads_back(attempt_id, outcome, why);
        },
        WorkEventPayloadView::QuestionAsked { question } => {
            question_asked_reads_back(question);
        },
        WorkEventPayloadView::QuestionAnswered { question_id, answer } => {
            question_answered_reads_back(question_id, answer);
        },
    }
}

proof fn observation_reads_back(payload: ObservationEventPayloadView)
    ensures
        work_reading(payload.event_type(), payload.body()) is None,
        observation_reading(payload.event_type(), payload.body()) == Some(payload),
{
    observation_types_differ();
    match payload {
        ObservationEventPayloadView::ObservationReported { observation } => {
            observation_reported_reads_back(observation);
        },
        ObservationEventPayloadView::ObservationRetired { key } => {
            observation_retired_reads_back(key);
        },
    }
}

proof fn loop_reads_back(payload: LoopEventPayloadView)
    ensures
        work_reading(payload.event_type(), payload.body()) is None,
        observation_reading(payload.event_type(), payload.body()) is None,
        loop_reading(payload.event_type(), payload.body()) == Some(payload),
{
    loop_types_differ();
    match payload {
        LoopEventPayloadView::LegacyPassStarted(_) => {},
        LoopEventPayloadView::LegacyPassEnded(_) => {},
        LoopEventPayloadView::LoopPaused { why } => {
            loop_paused_reads_back(why);
        },
        LoopEventPayloadView::LoopResumed {} => {
            loop_resumed_reads_back();
        },
        LoopEventPayloadView::LoopEngineSelected { engine } => {
            loop_engine_selected_reads_back(engine);
        },
        LoopEventPayloadView::LoopRotationRequested { why } => {
            loop_rotation_requested_reads_back(why);
        },
        LoopEventPayloadView::LoopNudgeRequested { why } => {
            loop_nudge_requested_reads_back(why);
        },
    }
}

/// A statement is read back from the type and the body that it is written with.
pub proof fn statements_read_back(payload: EventPayloadView)
    requires
        payload.wired(),
    ensures
        payload_reading(payload.event_type(), payload.body()) == Some(payload),
{
    match payload {
        EventPayloadView::Work(p) => {
            work_reads_back(p);
        },
        EventPayloadView::Observation(p) => {
            observation_reads_back(p);
        },
        EventPayloadView::Loop(p) => {
            loop_reads_back(p);
        },
    }
}

/// What is read back is written alike: of whatever event is read off a record that a
/// statement was written as, the type and the body are those of the record.
pub proof fn read_statements_are_written_alike(draft: EventDraftView, seq: u64)
    requires
        draft.payload.wired(),
    ensures
        ({
            let record = encoded(draft).at_seq(seq);
            &&& decoded(record) is Ok
            &&& (decoded(record)->Ok_0).payload.event_type() == record.kind
            &&& (decoded(record)->Ok_0).payload.body() == record.body
        }),
{
    statements_read_back(draft.payload);
}

/// A record that has no place in the log yet.
#[derive(Debug, PartialEq, Eq)]
pub struct RecordDraft {
    pub id: String,
    pub at: Instant,
    pub actor: String,
    pub kind: String,
    pub body: Json,
    pub schema: String,
}

#[verifier::ext_equal]
pub struct RecordDraftView {
    pub id: Seq<char>,
    pub at: Instant,
    pub actor: Seq<char>,
    pub kind: Seq<char>,
    pub body: JsonView,
    pub schema: Seq<char>,
}

impl View for RecordDraft {
    type V = RecordDraftView;

    open spec fn view(&self) -> RecordDraftView {
        RecordDraftView {
            id: self.id@,
            at: self.at,
            actor: self.actor@,
            kind: self.kind@,
            body: self.body@,
            schema: self.schema@,
        }
    }
}

impl Replica for RecordDraft {
    fn replica(&self) -> (copy: RecordDraft) {
        RecordDraft {
            id: self.id.clone(),
            at: self.at,
            actor: self.actor.clone(),
            kind: self.kind.clone(),
            body: self.body.replica(),
            schema: self.schema.clone(),
        }
    }
}

/// A record of the log. The log itself does not look into the body.
#[derive(Debug, PartialEq, Eq)]
pub struct Record {
    pub id: String,
    pub seq: u64,
    pub at: Instant,
    pub actor: String,
    pub kind: String,
    pub body: Json,
    pub schema: String,
}

#[verifier::ext_equal]
pub struct RecordView {
    pub id: Seq<char>,
    pub seq: u64,
    pub at: Instant,
    pub actor: Seq<char>,
    pub kind: Seq<char>,
    pub body: JsonView,
    pub schema: Seq<char>,
}

impl View for Record {
    type V = RecordView;

    open spec fn view(&self) -> RecordView {
        RecordView {
            id: self.id@,
            seq: self.seq,
            at: self.at,
            actor: self.actor@,
            kind: self.kind@,
            body: self.body@,
            schema: self.schema@,
        }
    }
}

impl Replica for Record {
    fn replica(&self) -> (copy: Record) {
        Record {
            id: self.id.clone(),
            seq: self.seq,
            at: self.at,
            actor: self.actor.clone(),
            kind: self.kind.clone(),
            body: self.body.replica(),
            schema: self.schema.clone(),
        }
    }
}

impl RecordDraftView {
    /// The draft at a place in the log.
    pub open spec fn at_seq(self, seq: u64) -> RecordView {
        RecordView {
            id: self.id,
            seq,
            at: self.at,
            actor: self.actor,
            kind: self.kind,
            body: self.body,
            schema: self.schema,
        }
    }
}

impl RecordDraft {
    pub fn materialize(&self, seq: u64) -> (record: Record)
        ensures
            record@ == self@.at_seq(seq),
    {
        Record {
            id: self.id.clone(),
            seq,
            at: self.at,
            actor: self.actor.clone(),
            kind: self.kind.clone(),
            body: self.body.clone(),
            schema: self.schema.clone(),
        }
    }
}

/// The record that a draft is written as.
pub open spec fn encoded(draft: EventDraftView) -> RecordDraftView {
    RecordDraftView {
        id: draft.id,
        at: draft.at,
        actor: draft.actor,
        kind: draft.payload.event_type(),
        body: draft.payload.body(),
        schema: draft.schema,
    }
}

pub open spec fn unreadable(kind: Seq<char>) -> ErrorView {
    error::context_error(
        "invalid_event"@,
        "unsupported or invalid Alder event `"@ + kind
            + "`: data did not match any variant of untagged enum EventPayload"@,
        json::empty_object().with("type"@, JsonView::Text(kind)),
    )
}

/// The event that a record says, or that it says none.
pub open spec fn decoded(record: RecordView) -> core::result::Result<EventView, ErrorView> {
    match payload_reading(record.kind, record.body) {
        Some(payload) => Ok(
            EventView {
                id: record.id,
                seq: record.seq,
                at: record.at,
                actor: record.actor,
                payload,
                schema: record.schema,
            },
        ),
        None => Err(unreadable(record.kind)),
    }
}

/// Writes a draft as a record. At whatever place in the log, the record is read
/// back as the draft at that place.
pub fn encode_draft(draft: &EventDraft) -> (record: RecordDraft)
    ensures
        record@ == encoded(draft@),
        draft@.payload.on_calendar() ==> forall|seq: u64| #[trigger]
            decoded(record@.at_seq(seq)) == Ok::<EventView, ErrorView>(draft@.at_seq(seq)),
{
    let body = draft.payload.to_body();
    proof {
        if draft@.payload.on_calendar() {
            statements_read_back(draft@.payload);
        }
    }
    RecordDraft {
        id: draft.id.clone(),
        at: draft.at,
        actor: draft.actor.clone(),
        kind: draft.payload.event_type().to_owned(),
        body,
        schema: draft.schema.clone(),
    }
}

/// Reads the event that a record says.
pub fn decode_record(record: &Record) -> (outcome: Result<Event>)
    ensures
        crate::store::told(outcome) == decoded(record@),
{
    match read_payload(record.kind.as_str(), &record.body) {
        Some(payload) => Ok(
            Event {
                id: record.id.clone(),
                seq: record.seq,
                at: record.at,
                actor: record.actor.clone(),
                payload,
                schema: record.schema.clone(),
            },
        ),
        None => Err(
            AlderError::with_context(
                "invalid_event",
                joined3(
                    "unsupported or invalid Alder event `",
                    record.kind.as_str(),
                    "`: data did not match any variant of untagged enum EventPayload",
                ),
                Json::object().with("type", Json::text(record.kind.as_str())),
            ),
        ),
    }
}

} // verus!
