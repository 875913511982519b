//! Observations: the current level of each thing that is watched.

use vstd::prelude::*;

use crate::catalog::{Key, Replica};
use crate::text;
use crate::text::{place_text, Place};

verus! {

/// What is watched, and by whom.
#[derive(Debug, PartialEq, Eq)]
pub struct ObservationKey {
    pub observer: String,
    pub subject: String,
    pub field: String,
}

#[verifier::ext_equal]
pub struct ObservationKeyView {
    pub observer: Seq<char>,
    pub subject: Seq<char>,
    pub field: Seq<char>,
}

impl View for ObservationKey {
    type V = ObservationKeyView;

    open spec fn view(&self) -> ObservationKeyView {
        ObservationKeyView {
            observer: self.observer@,
            subject: self.subject@,
            field: self.field@,
        }
    }
}

impl Replica for ObservationKey {
    fn replica(&self) -> (copy: ObservationKey) {
        ObservationKey {
            observer: self.observer.clone(),
            subject: self.subject.clone(),
            field: self.field.clone(),
        }
    }
}

/// The level that was last reported.
#[derive(Debug, PartialEq, Eq)]
pub struct Observation {
    pub key: ObservationKey,
    pub level: String,
    pub reported_seq: u64,
}

#[verifier::ext_equal]
pub struct ObservationView {
    pub key: ObservationKeyView,
    pub level: Seq<char>,
    pub reported_seq: u64,
}

impl View for Observation {
    type V = ObservationView;

    open spec fn view(&self) -> ObservationView {
        ObservationView {
            key: self.key@,
            level: self.level@,
            reported_seq: self.reported_seq,
        }
    }
}

impl Replica for Observation {
    fn replica(&self) -> (copy: Observation) {
        Observation {
            key: self.key.replica(),
            level: self.level.clone(),
            reported_seq: self.reported_seq,
        }
    }
}

/// A level as it is reported.
#[derive(Debug, PartialEq, Eq)]
pub struct ObservationDefinition {
    pub key: ObservationKey,
    pub level: String,
}

#[verifier::ext_equal]
pub struct ObservationDefinitionView {
    pub key: ObservationKeyView,
    pub level: Seq<char>,
}

impl View for ObservationDefinition {
    type V = ObservationDefinitionView;

    open spec fn view(&self) -> ObservationDefinitionView {
        ObservationDefinitionView {
            key: self.key@,
            level: self.level@,
        }
    }
}

impl Replica for ObservationDefinition {
    fn replica(&self) -> (copy: ObservationDefinition) {
        ObservationDefinition {
            key: self.key.replica(),
            level: self.level.clone(),
        }
    }
}

/// Statements about what was observed.
#[derive(Debug, PartialEq, Eq)]
pub enum ObservationEventPayload {
    ObservationReported { observation: ObservationDefinition },
    ObservationRetired { key: ObservationKey },
}

#[verifier::ext_equal]
pub enum ObservationEventPayloadView {
    ObservationReported { observation: ObservationDefinitionView },
    ObservationRetired { key: ObservationKeyView },
}

impl View for ObservationEventPayload {
    type V = ObservationEventPayloadView;

    open spec fn view(&self) -> ObservationEventPayloadView {
        match self {
            ObservationEventPayload::ObservationReported { observation } => {
                ObservationEventPayloadView::ObservationReported { observation: observation@ }
            },
            ObservationEventPayload::ObservationRetired { key } => {
                ObservationEventPayloadView::ObservationRetired { key: key@ }
            },
        }
    }
}

impl Replica for ObservationEventPayload {
    fn replica(&self) -> (copy: ObservationEventPayload) {
        match self {
            ObservationEventPayload::ObservationReported { observation } => {
                ObservationEventPayload::ObservationReported { observation: observation.replica() }
            },
            ObservationEventPayload::ObservationRetired { key } => {
                ObservationEventPayload::ObservationRetired { key: key.replica() }
            },
        }
    }
}

/// The order of keys: by observer, then subject, then field.
pub open spec fn key_before(a: ObservationKeyView, b: ObservationKeyView) -> bool {
    ||| text::text_before(a.observer, b.observer)
    ||| a.observer == b.observer && text::text_before(a.subject, b.subject)
    ||| a.observer == b.observer && a.subject == b.subject && text::text_before(a.field, b.field)
}

impl Key for ObservationKey {
    type Ask = ObservationKey;

    open spec fn before(a: ObservationKeyView, b: ObservationKeyView) -> bool {
        key_before(a, b)
    }

    proof fn irreflexive(a: ObservationKeyView) {
        text::text_before_irreflexive(a.observer);
        text::text_before_irreflexive(a.subject);
        text::text_before_irreflexive(a.field);
    }

    proof fn transitive(a: ObservationKeyView, b: ObservationKeyView, c: ObservationKeyView) {
        if text::text_before(a.observer, b.observer) && text::text_before(b.observer, c.observer) {
            text::text_before_transitive(a.observer, b.observer, c.observer);
        }
        if text::text_before(a.subject, b.subject) && text::text_before(b.subject, c.subject) {
            text::text_before_transitive(a.subject, b.subject, c.subject);
        }
        if text::text_before(a.field, b.field) && text::text_before(b.field, c.field) {
            text::text_before_transitive(a.field, b.field, c.field);
        }
    }

    proof fn total(a: ObservationKeyView, b: ObservationKeyView) {
        text::text_before_total(a.observer, b.observer);
        text::text_before_total(a.subject, b.subject);
        text::text_before_total(a.field, b.field);
    }

    fn place(&self, ask: &ObservationKey) -> (place: Place) {
        proof {
            let (a, b) = (self@, ask@);
            Self::irreflexive(a);
            Self::total(a, b);
            if key_before(a, b) && key_before(b, a) {
                Self::transitive(a, b, a);
            }
            text::text_before_total(a.observer, b.observer);
            text::text_before_total(a.subject, b.subject);
            text::text_before_total(a.field, b.field);
        }
        match place_text(self.observer.as_str(), ask.observer.as_str()) {
            Place::Same => match place_text(self.subject.as_str(), ask.subject.as_str()) {
                Place::Same => place_text(self.field.as_str(), ask.field.as_str()),
                other => other,
            },
            other => other,
        }
    }

    fn as_ask(&self) -> (ask: &ObservationKey) {
        self
    }
}

impl ObservationEventPayloadView {
    pub open spec fn event_type(self) -> Seq<char> {
        match self {
            ObservationEventPayloadView::ObservationReported { .. } => "observation.reported"@,
            ObservationEventPayloadView::ObservationRetired { .. } => "observation.retired"@,
        }
    }
}

impl ObservationEventPayload {
    pub fn event_type(&self) -> (name: &'static str)
        ensures
            name@ == self@.event_type(),
    {
        match self {
            ObservationEventPayload::ObservationReported { .. } => "observation.reported",
            ObservationEventPayload::ObservationRetired { .. } => "observation.retired",
        }
    }
}

} // verus!
