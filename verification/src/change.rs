//! Graph changes as they are asked for: documents with local names, turned into
//! operations on the work graph.

use vstd::prelude::*;

use crate::catalog::Replica;
use crate::error;
use crate::error::{AlderError, ErrorView, Result};
use crate::event::{Event, EventPayload, WorkEventPayload};
use crate::instant::Instant;
use crate::project::{ProjectState, StateView};
use crate::rules;
use crate::text;
use crate::text::{chars_of, decimal_text, has_white, is_blank, joined, joined3, same_text};
use crate::views;
use crate::views::{opt_replica, replicas};
use crate::work::{
    CheckDefinition, CheckDefinitionView, NullableString, WorkDefinition, WorkDefinitionView,
    WorkOperation, WorkOperationView, WorkStateChange, WorkStateChangeView,
};

verus! {

/// A work item to add. Other parts of the document call it `$` and its local
/// name.
#[derive(Debug, PartialEq, Eq)]
pub struct AddWorkInput {
    pub local: Option<String>,
    pub title: String,
    pub spec: Option<String>,
    pub priority: i64,
    pub requires: Vec<String>,
    pub checks: Vec<CheckDefinition>,
}

#[verifier::ext_equal]
pub struct AddWorkInputView {
    pub local: Option<Seq<char>>,
    pub title: Seq<char>,
    pub spec: Option<Seq<char>>,
    pub priority: i64,
    pub requires: Seq<Seq<char>>,
    pub checks: Seq<CheckDefinitionView>,
}

impl View for AddWorkInput {
    type V = AddWorkInputView;

    open spec fn view(&self) -> AddWorkInputView {
        AddWorkInputView {
            local: views::opt_view(self.local),
            title: self.title@,
            spec: views::opt_view(self.spec),
            priority: self.priority,
            requires: views::views(self.requires@),
            checks: views::views(self.checks@),
        }
    }
}

impl Replica for AddWorkInput {
    fn replica(&self) -> (copy: AddWorkInput) {
        AddWorkInput {
            local: opt_replica(&self.local),
            title: self.title.clone(),
            spec: opt_replica(&self.spec),
            priority: self.priority,
            requires: replicas(&self.requires),
            checks: replicas(&self.checks),
        }
    }
}

/// An edit of a work item, which an ID or a local name tells.
#[derive(Debug, PartialEq, Eq)]
pub struct EditWorkInput {
    pub id: String,
    pub title: Option<String>,
    pub spec: Option<NullableString>,
    pub priority: Option<i64>,
    pub add_requires: Vec<String>,
    pub remove_requires: Vec<String>,
    pub add_checks: Vec<CheckDefinition>,
    pub remove_checks: Vec<String>,
    pub block: bool,
    pub unblock: bool,
}

#[verifier::ext_equal]
pub struct EditWorkInputView {
    pub id: Seq<char>,
    pub title: Option<Seq<char>>,
    pub spec: Option<Option<Seq<char>>>,
    pub priority: Option<i64>,
    pub add_requires: Seq<Seq<char>>,
    pub remove_requires: Seq<Seq<char>>,
    pub add_checks: Seq<CheckDefinitionView>,
    pub remove_checks: Seq<Seq<char>>,
    pub block: bool,
    pub unblock: bool,
}

impl View for EditWorkInput {
    type V = EditWorkInputView;

    open spec fn view(&self) -> EditWorkInputView {
        EditWorkInputView {
            id: self.id@,
            title: views::opt_view(self.title),
            spec: views::opt_view(self.spec),
            priority: self.priority,
            add_requires: views::views(self.add_requires@),
            remove_requires: views::views(self.remove_requires@),
            add_checks: views::views(self.add_checks@),
            remove_checks: views::views(self.remove_checks@),
            block: self.block,
            unblock: self.unblock,
        }
    }
}

impl Replica for EditWorkInput {
    fn replica(&self) -> (copy: EditWorkInput) {
        EditWorkInput {
            id: self.id.clone(),
            title: opt_replica(&self.title),
            spec: opt_replica(&self.spec),
            priority: self.priority,
            add_requires: replicas(&self.add_requires),
            remove_requires: replicas(&self.remove_requires),
            add_checks: replicas(&self.add_checks),
            remove_checks: replicas(&self.remove_checks),
            block: self.block,
            unblock: self.unblock,
        }
    }
}

/// Additions and edits that are made together.
#[derive(Debug, PartialEq, Eq)]
pub struct GraphChangeDocument {
    pub why: Option<String>,
    pub add: Vec<AddWorkInput>,
    pub edit: Vec<EditWorkInput>,
}

#[verifier::ext_equal]
pub struct GraphChangeDocumentView {
    pub why: Option<Seq<char>>,
    pub add: Seq<AddWorkInputView>,
    pub edit: Seq<EditWorkInputView>,
}

impl View for GraphChangeDocument {
    type V = GraphChangeDocumentView;

    open spec fn view(&self) -> GraphChangeDocumentView {
        GraphChangeDocumentView {
            why: views::opt_view(self.why),
            add: views::views(self.add@),
            edit: views::views(self.edit@),
        }
    }
}

impl Replica for GraphChangeDocument {
    fn replica(&self) -> (copy: GraphChangeDocument) {
        GraphChangeDocument {
            why: opt_replica(&self.why),
            add: replicas(&self.add),
            edit: replicas(&self.edit),
        }
    }
}

/// What a document is for.
#[derive(Debug, Clone, Copy, PartialEq, Eq, Structural)]
pub enum ChangeMode {
    AddOnly,
    Edit,
    Hypothetical,
}

/// The operations of a document, and the ID that each local name got.
#[derive(Debug)]
pub struct PreparedChange {
    pub operations: Vec<WorkOperation>,
    pub mappings: Vec<(String, String)>,
}

/// A local name and the ID it stands for.
pub type Mapping = (Seq<char>, Seq<char>);

#[verifier::ext_equal]
pub struct PreparedChangeView {
    pub operations: Seq<WorkOperationView>,
    pub mappings: Seq<Mapping>,
}

pub open spec fn mapping_views(mappings: Seq<(String, String)>) -> Seq<Mapping> {
    Seq::new(mappings.len(), |i: int| (mappings[i].0@, mappings[i].1@))
}

impl View for PreparedChange {
    type V = PreparedChangeView;

    open spec fn view(&self) -> PreparedChangeView {
        PreparedChangeView {
            operations: views::views(self.operations@),
            mappings: mapping_views(self.mappings@),
        }
    }
}

/// What a document is refused with before its parts are looked at.
pub open spec fn shape_error(document: GraphChangeDocumentView, mode: ChangeMode) -> Option<
    ErrorView,
> {
    if document.add.len() == 0 && document.edit.len() == 0 {
        Some(error::validation_error("a graph change must contain at least one operation"@))
    } else if mode is AddOnly && document.edit.len() > 0 {
        Some(error::validation_error("add work --from does not accept an edit section"@))
    } else if mode is Edit && document.edit.len() == 0 {
        Some(error::validation_error("edit work --from requires at least one edit"@))
    } else if document.edit.len() > 0 && (document.why is None || text::blank(document.why->0)) {
        Some(error::validation_error("a graph change containing edits requires `why`"@))
    } else {
        None
    }
}

/// The name that an addition goes by, at its place among the additions.
pub open spec fn local_name(add: AddWorkInputView, index: int) -> Seq<char> {
    match add.local {
        Some(name) => name,
        None => "new-"@ + text::decimal((index + 1) as nat),
    }
}

pub open spec fn bad_local_name(name: Seq<char>) -> bool {
    ||| name.len() == 0
    ||| name[0] == '$'
    ||| text::holds_char(name, |c: char| text::white(c))
}

pub open spec fn is_mapped(mappings: Seq<Mapping>, name: Seq<char>) -> bool {
    exists|i: int| 0 <= i < mappings.len() && (#[trigger] mappings[i]).0 == name
}

/// The local names of the additions with the given IDs, or what is wrong with
/// the first bad name.
pub open spec fn mapped(
    adds: Seq<AddWorkInputView>,
    ids: Seq<Seq<char>>,
) -> core::result::Result<Seq<Mapping>, ErrorView>
    decreases adds.len(),
{
    if adds.len() == 0 {
        Ok(Seq::empty())
    } else {
        match mapped(adds.drop_last(), ids) {
            Err(error) => Err(error),
            Ok(front) => {
                let name = local_name(adds.last(), adds.len() - 1);
                if bad_local_name(name) {
                    Err(error::validation_error("invalid local work name `"@ + name + "`"@))
                } else if is_mapped(front, name) {
                    Err(error::validation_error("duplicate local work name `"@ + name + "`"@))
                } else {
                    Ok(front.push((name, ids[adds.len() - 1])))
                }
            },
        }
    }
}

/// The ID that a reference means: itself, or what the local name behind `$`
/// stands for.
pub open spec fn resolved(
    mappings: Seq<Mapping>,
    reference: Seq<char>,
) -> core::result::Result<Seq<char>, ErrorView> {
    if reference.len() > 0 && reference[0] == '$' {
        let name = reference.drop_first();
        if is_mapped(mappings, name) {
            let i = choose|i: int| 0 <= i < mappings.len() && (#[trigger] mappings[i]).0 == name;
            Ok(mappings[i].1)
        } else {
            Err(error::validation_error("unknown local reference `"@ + reference + "`"@))
        }
    } else {
        Ok(reference)
    }
}

pub open spec fn all_resolved(
    mappings: Seq<Mapping>,
    references: Seq<Seq<char>>,
) -> core::result::Result<Seq<Seq<char>>, ErrorView>
    decreases references.len(),
{
    if references.len() == 0 {
        Ok(Seq::empty())
    } else {
        match all_resolved(mappings, references.drop_last()) {
            Err(error) => Err(error),
            Ok(front) => match resolved(mappings, references.last()) {
                Err(error) => Err(error),
                Ok(id) => Ok(front.push(id)),
            },
        }
    }
}

pub open spec fn addition(
    add: AddWorkInputView,
    id: Seq<char>,
    mappings: Seq<Mapping>,
) -> core::result::Result<WorkOperationView, ErrorView> {
    match all_resolved(mappings, add.requires) {
        Err(error) => Err(error),
        Ok(needs) => Ok(
            WorkOperationView::Add {
                work: WorkDefinitionView {
                    id,
                    title: add.title,
                    spec: add.spec,
                    priority: add.priority,
                    requires: needs,
                    checks: add.checks,
                },
            },
        ),
    }
}

/// The operations of the additions, up to the first that does not resolve.
pub open spec fn additions(
    adds: Seq<AddWorkInputView>,
    mappings: Seq<Mapping>,
) -> core::result::Result<Seq<WorkOperationView>, ErrorView>
    decreases adds.len(),
{
    if adds.len() == 0 {
        Ok(Seq::empty())
    } else {
        match additions(adds.drop_last(), mappings) {
            Err(error) => Err(error),
            Ok(front) => match addition(adds.last(), mappings[adds.len() - 1].1, mappings) {
                Err(error) => Err(error),
                Ok(operation) => Ok(front.push(operation)),
            },
        }
    }
}

/// One edit behind the edits in `before`.
pub open spec fn edition(
    edit: EditWorkInputView,
    why: Option<Seq<char>>,
    mappings: Seq<Mapping>,
    before: Seq<WorkOperationView>,
) -> core::result::Result<WorkOperationView, ErrorView> {
    match resolved(mappings, edit.id) {
        Err(error) => Err(error),
        Ok(id) => if rules::targets(before).contains(id) {
            Err(rules::targeted_twice(id))
        } else if edit.block && edit.unblock {
            Err(
                error::validation_error(
                    "work `"@ + id + "` cannot be blocked and unblocked in one operation"@,
                ),
            )
        } else {
            match all_resolved(mappings, edit.add_requires) {
                Err(error) => Err(error),
                Ok(add_requires) => match all_resolved(mappings, edit.remove_requires) {
                    Err(error) => Err(error),
                    Ok(remove_requires) => {
                        let reason = rules::or_else(why, Seq::empty());
                        Ok(
                            WorkOperationView::Edit {
                                id,
                                title: edit.title,
                                spec: edit.spec,
                                priority: edit.priority,
                                add_requires,
                                remove_requires,
                                add_checks: edit.add_checks,
                                remove_checks: edit.remove_checks,
                                state_change: if edit.block {
                                    Some(WorkStateChangeView::Block { reason, until: None })
                                } else if edit.unblock {
                                    Some(WorkStateChangeView::Unblock { reason })
                                } else {
                                    None
                                },
                            },
                        )
                    },
                },
            }
        },
    }
}

pub open spec fn editions(
    edits: Seq<EditWorkInputView>,
    why: Option<Seq<char>>,
    mappings: Seq<Mapping>,
) -> core::result::Result<Seq<WorkOperationView>, ErrorView>
    decreases edits.len(),
{
    if edits.len() == 0 {
        Ok(Seq::empty())
    } else {
        match editions(edits.drop_last(), why, mappings) {
            Err(error) => Err(error),
            Ok(front) => match edition(edits.last(), why, mappings, front) {
                Err(error) => Err(error),
                Ok(operation) => Ok(front.push(operation)),
            },
        }
    }
}

/// What a document comes to, its additions getting the given IDs: operations
/// that the project takes, or why there are none.
pub open spec fn prepared(
    s: StateView,
    document: GraphChangeDocumentView,
    mode: ChangeMode,
    ids: Seq<Seq<char>>,
) -> core::result::Result<PreparedChangeView, ErrorView> {
    match shape_error(document, mode) {
        Some(error) => Err(error),
        None => match mapped(document.add, ids) {
            Err(error) => Err(error),
            Ok(mappings) => match additions(document.add, mappings) {
                Err(error) => Err(error),
                Ok(added) => match editions(document.edit, document.why, mappings) {
                    Err(error) => Err(error),
                    Ok(edited) => match rules::change_work(s, 1, added + edited) {
                        Err(error) => Err(error),
                        Ok(_) => Ok(
                            PreparedChangeView { operations: added + edited, mappings },
                        ),
                    },
                },
            },
        },
    }
}

fn check_shape(document: &GraphChangeDocument, mode: ChangeMode) -> (outcome: Result<()>)
    ensures
        match shape_error(document@, mode) {
            Some(error) => outcome matches Err(e) && e@ == error,
            None => outcome is Ok,
        },
{
    assert(document@.add.len() == document.add@.len());
    assert(document@.edit.len() == document.edit@.len());
    if document.add.len() == 0 && document.edit.len() == 0 {
        return Err(
            AlderError::validation("a graph change must contain at least one operation".to_owned()),
        );
    }
    match mode {
        ChangeMode::AddOnly => {
            if document.edit.len() > 0 {
                return Err(
                    AlderError::validation(
                        "add work --from does not accept an edit section".to_owned(),
                    ),
                );
            }
        },
        ChangeMode::Edit => {
            if document.edit.len() == 0 {
                return Err(
                    AlderError::validation(
                        "edit work --from requires at least one edit".to_owned(),
                    ),
                );
            }
        },
        ChangeMode::Hypothetical => {},
    }
    if document.edit.len() > 0 {
        let said = match &document.why {
            Some(why) => !is_blank(why.as_str()),
            None => false,
        };
        if !said {
            return Err(
                AlderError::validation("a graph change containing edits requires `why`".to_owned()),
            );
        }
    }
    Ok(())
}

fn is_bad_local_name(name: &str) -> (bad: bool)
    ensures
        bad == bad_local_name(name@),
{
    let chars = chars_of(name);
    chars.len() == 0 || chars[0] == '$' || has_white(name)
}

/// Where a name is mapped.
fn find_mapping(mappings: &Vec<(String, String)>, name: &str) -> (place: Option<usize>)
    ensures
        match place {
            Some(i) => i < mappings@.len() && mapping_views(mappings@)[i as int].0 == name@,
            None => !is_mapped(mapping_views(mappings@), name@),
        },
{
    let ghost all = mapping_views(mappings@);
    let mut index: usize = 0;
    while index < mappings.len()
        invariant
            index <= mappings@.len(),
            all == mapping_views(mappings@),
            forall|i: int| 0 <= i < index ==> (#[trigger] all[i]).0 != name@,
        decreases mappings@.len() - index,
    {
        assert(all[index as int].0 == mappings@[index as int].0@);
        if same_text(mappings[index].0.as_str(), name) {
            return Some(index);
        }
        index += 1;
    }
    None
}

proof fn mapped_extends(adds: Seq<AddWorkInputView>, ids: Seq<Seq<char>>, n: int)
    requires
        0 <= n <= adds.len(),
        mapped(adds.take(n), ids) is Err,
    ensures
        mapped(adds, ids) == mapped(adds.take(n), ids),
    decreases adds.len() - n,
{
    if n < adds.len() {
        assert(adds.take(n + 1).drop_last() =~= adds.take(n));
        mapped_extends(adds, ids, n + 1);
    } else {
        assert(adds.take(n) =~= adds);
    }
}

/// Each name is mapped once.
pub open spec fn distinct_names(mappings: Seq<Mapping>) -> bool {
    forall|i: int, j: int|
        0 <= i < j < mappings.len() ==> (#[trigger] mappings[i]).0 != (#[trigger] mappings[j]).0
}

proof fn mapped_shape(adds: Seq<AddWorkInputView>, ids: Seq<Seq<char>>)
    requires
        mapped(adds, ids) is Ok,
    ensures
        mapped(adds, ids)->Ok_0.len() == adds.len(),
        distinct_names(mapped(adds, ids)->Ok_0),
    decreases adds.len(),
{
    if adds.len() > 0 {
        mapped_shape(adds.drop_last(), ids);
    }
}

/// Maps the local names to the IDs.
fn map_names(adds: &Vec<AddWorkInput>, ids: &Vec<String>) -> (outcome: Result<
    Vec<(String, String)>,
>)
    requires
        adds@.len() <= ids@.len(),
    ensures
        match mapped(views::views(adds@), views::views(ids@)) {
            Ok(mappings) => outcome matches Ok(m) && mapping_views(m@) == mappings,
            Err(error) => outcome matches Err(e) && e@ == error,
        },
{
    let ghost all = views::views(adds@);
    let ghost id_views = views::views(ids@);
    let mut mappings: Vec<(String, String)> = Vec::new();
    let mut index: usize = 0;
    assert(all.take(0) =~= Seq::empty());
    assert(mapping_views(mappings@) =~= Seq::empty());
    while index < adds.len()
        invariant
            index <= adds@.len() <= ids@.len(),
            all == views::views(adds@),
            id_views == views::views(ids@),
            mapped(all.take(index as int), id_views) == Ok::<Seq<Mapping>, ErrorView>(
                mapping_views(mappings@),
            ),
        decreases adds@.len() - index,
    {
        assert(all.take(index + 1).drop_last() =~= all.take(index as int));
        assert(all.take(index + 1).last() == adds@[index as int]@);
        let name = match &adds[index].local {
            Some(name) => name.clone(),
            None => joined("new-", decimal_text(index as u64 + 1).as_str()),
        };
        assert(name@ == local_name(adds@[index as int]@, index as int));
        if is_bad_local_name(name.as_str()) {
            proof {
                mapped_extends(all, id_views, index + 1);
            }
            return Err(
                AlderError::validation(joined3("invalid local work name `", name.as_str(), "`")),
            );
        }
        if find_mapping(&mappings, name.as_str()).is_some() {
            proof {
                mapped_extends(all, id_views, index + 1);
            }
            return Err(
                AlderError::validation(joined3("duplicate local work name `", name.as_str(), "`")),
            );
        }
        let ghost before = mapping_views(mappings@);
        let ghost pair = (name@, ids@[index as int]@);
        mappings.push((name, ids[index].clone()));
        assert(mapping_views(mappings@) =~= before.push(pair));
        index += 1;
    }
    assert(all.take(index as int) =~= all);
    Ok(mappings)
}

/// The ID that a reference means.
fn resolve(mappings: &Vec<(String, String)>, reference: &str) -> (outcome: Result<String>)
    requires
        distinct_names(mapping_views(mappings@)),
    ensures
        match resolved(mapping_views(mappings@), reference@) {
            Ok(id) => outcome matches Ok(i) && i@ == id,
            Err(error) => outcome matches Err(e) && e@ == error,
        },
{
    let chars = chars_of(reference);
    if chars.len() > 0 && chars[0] == '$' {
        let name = text::text_between(&chars, 1, chars.len());
        assert(name@ =~= reference@.drop_first());
        match find_mapping(mappings, name.as_str()) {
            Some(index) => {
                proof {
                    let all = mapping_views(mappings@);
                    assert(all[index as int].0 == name@);
                    let i = choose|i: int| 0 <= i < all.len() && (#[trigger] all[i]).0 == name@;
                    assert(i == index);
                }
                Ok(mappings[index].1.clone())
            },
            None => Err(
                AlderError::validation(joined3("unknown local reference `", reference, "`")),
            ),
        }
    } else {
        Ok(reference.to_owned())
    }
}

proof fn all_resolved_extends(mappings: Seq<Mapping>, references: Seq<Seq<char>>, n: int)
    requires
        0 <= n <= references.len(),
        all_resolved(mappings, references.take(n)) is Err,
    ensures
        all_resolved(mappings, references) == all_resolved(mappings, references.take(n)),
    decreases references.len() - n,
{
    if n < references.len() {
        assert(references.take(n + 1).drop_last() =~= references.take(n));
        all_resolved_extends(mappings, references, n + 1);
    } else {
        assert(references.take(n) =~= references);
    }
}

fn resolve_all(mappings: &Vec<(String, String)>, references: &Vec<String>) -> (outcome: Result<
    Vec<String>,
>)
    requires
        distinct_names(mapping_views(mappings@)),
    ensures
        match all_resolved(mapping_views(mappings@), views::views(references@)) {
            Ok(ids) => outcome matches Ok(v) && views::views(v@) == ids,
            Err(error) => outcome matches Err(e) && e@ == error,
        },
{
    let ghost all = views::views(references@);
    let ghost map_view = mapping_views(mappings@);
    let mut ids: Vec<String> = Vec::new();
    let mut index: usize = 0;
    assert(all.take(0) =~= Seq::<Seq<char>>::empty());
    assert(views::views(ids@) =~= Seq::empty());
    while index < references.len()
        invariant
            index <= references@.len(),
            all == views::views(references@),
            map_view == mapping_views(mappings@),
            distinct_names(map_view),
            all_resolved(map_view, all.take(index as int)) == Ok::<Seq<Seq<char>>, ErrorView>(
                views::views(ids@),
            ),
        decreases references@.len() - index,
    {
        assert(all.take(index + 1).drop_last() =~= all.take(index as int));
        assert(all.take(index + 1).last() == references@[index as int]@);
        match resolve(mappings, references[index].as_str()) {
            Err(error) => {
                proof {
                    all_resolved_extends(map_view, all, index + 1);
                }
                return Err(error);
            },
            Ok(id) => {
                let ghost before = ids@;
                let ghost value = id@;
                ids.push(id);
                assert(views::views(ids@) =~= views::views(before).push(value));
            },
        }
        index += 1;
    }
    assert(all.take(index as int) =~= all);
    Ok(ids)
}

proof fn additions_extends(adds: Seq<AddWorkInputView>, mappings: Seq<Mapping>, n: int)
    requires
        0 <= n <= adds.len(),
        additions(adds.take(n), mappings) is Err,
    ensures
        additions(adds, mappings) == additions(adds.take(n), mappings),
    decreases adds.len() - n,
{
    if n < adds.len() {
        assert(adds.take(n + 1).drop_last() =~= adds.take(n));
        additions_extends(adds, mappings, n + 1);
    } else {
        assert(adds.take(n) =~= adds);
    }
}

fn add_operations(adds: &Vec<AddWorkInput>, mappings: &Vec<(String, String)>) -> (outcome: Result<
    Vec<WorkOperation>,
>)
    requires
        distinct_names(mapping_views(mappings@)),
        mappings@.len() == adds@.len(),
    ensures
        match additions(views::views(adds@), mapping_views(mappings@)) {
            Ok(operations) => outcome matches Ok(v) && views::views(v@) == operations,
            Err(error) => outcome matches Err(e) && e@ == error,
        },
{
    let ghost all = views::views(adds@);
    let ghost map_view = mapping_views(mappings@);
    let mut operations: Vec<WorkOperation> = Vec::new();
    let mut index: usize = 0;
    assert(all.take(0) =~= Seq::empty());
    assert(views::views(operations@) =~= Seq::empty());
    while index < adds.len()
        invariant
            index <= adds@.len(),
            mappings@.len() == adds@.len(),
            all == views::views(adds@),
            map_view == mapping_views(mappings@),
            distinct_names(map_view),
            additions(all.take(index as int), map_view) == Ok::<Seq<WorkOperationView>, ErrorView>(
                views::views(operations@),
            ),
        decreases adds@.len() - index,
    {
        assert(all.take(index + 1).drop_last() =~= all.take(index as int));
        assert(all.take(index + 1).last() == adds@[index as int]@);
        let add = &adds[index];
        let needs = match resolve_all(mappings, &add.requires) {
            Err(error) => {
                proof {
                    additions_extends(all, map_view, index + 1);
                }
                return Err(error);
            },
            Ok(needs) => needs,
        };
        let operation = WorkOperation::Add {
            work: WorkDefinition {
                id: mappings[index].1.clone(),
                title: add.title.clone(),
                spec: opt_replica(&add.spec),
                priority: add.priority,
                requires: needs,
                checks: replicas(&add.checks),
            },
        };
        let ghost before = operations@;
        let ghost value = operation@;
        operations.push(operation);
        assert(views::views(operations@) =~= views::views(before).push(value));
        index += 1;
    }
    assert(all.take(index as int) =~= all);
    Ok(operations)
}

/// Whether one of the operations is about the item.
fn is_targeted(operations: &Vec<WorkOperation>, id: &str) -> (is: bool)
    ensures
        is == rules::targets(views::views(operations@)).contains(id@),
{
    let ghost ids = rules::targets(views::views(operations@));
    let mut index: usize = 0;
    while index < operations.len()
        invariant
            index <= operations@.len(),
            ids == rules::targets(views::views(operations@)),
            forall|i: int| 0 <= i < index ==> #[trigger] ids[i] != id@,
        decreases operations@.len() - index,
    {
        assert(ids[index as int] == operations@[index as int]@.target());
        if same_text(operations[index].id(), id) {
            return true;
        }
        index += 1;
    }
    false
}

fn edit_operation(
    edit: &EditWorkInput,
    why: &Option<String>,
    mappings: &Vec<(String, String)>,
    before: &Vec<WorkOperation>,
) -> (outcome: Result<WorkOperation>)
    requires
        distinct_names(mapping_views(mappings@)),
    ensures
        match edition(
            edit@,
            views::opt_view(*why),
            mapping_views(mappings@),
            views::views(before@),
        ) {
            Ok(operation) => outcome matches Ok(o) && o@ == operation,
            Err(error) => outcome matches Err(e) && e@ == error,
        },
{
    let id = match resolve(mappings, edit.id.as_str()) {
        Err(error) => {
            return Err(error);
        },
        Ok(id) => id,
    };
    if is_targeted(before, id.as_str()) {
        return Err(
            AlderError::validation(joined3("work `", id.as_str(), "` is targeted more than once")),
        );
    }
    if edit.block && edit.unblock {
        return Err(
            AlderError::validation(
                joined3(
                    "work `",
                    id.as_str(),
                    "` cannot be blocked and unblocked in one operation",
                ),
            ),
        );
    }
    let add_requires = match resolve_all(mappings, &edit.add_requires) {
        Err(error) => {
            return Err(error);
        },
        Ok(ids) => ids,
    };
    let remove_requires = match resolve_all(mappings, &edit.remove_requires) {
        Err(error) => {
            return Err(error);
        },
        Ok(ids) => ids,
    };
    let reason = match why {
        Some(why) => why.clone(),
        None => String::new(),
    };
    let state_change = if edit.block {
        Some(WorkStateChange::Block { reason, until: None })
    } else if edit.unblock {
        Some(WorkStateChange::Unblock { reason })
    } else {
        None
    };
    Ok(
        WorkOperation::Edit {
            id,
            title: opt_replica(&edit.title),
            spec: opt_replica(&edit.spec),
            priority: edit.priority,
            add_requires,
            remove_requires,
            add_checks: replicas(&edit.add_checks),
            remove_checks: replicas(&edit.remove_checks),
            state_change,
        },
    )
}

proof fn editions_extends(
    edits: Seq<EditWorkInputView>,
    why: Option<Seq<char>>,
    mappings: Seq<Mapping>,
    n: int,
)
    requires
        0 <= n <= edits.len(),
        editions(edits.take(n), why, mappings) is Err,
    ensures
        editions(edits, why, mappings) == editions(edits.take(n), why, mappings),
    decreases edits.len() - n,
{
    if n < edits.len() {
        assert(edits.take(n + 1).drop_last() =~= edits.take(n));
        editions_extends(edits, why, mappings, n + 1);
    } else {
        assert(edits.take(n) =~= edits);
    }
}

fn edit_operations(
    edits: &Vec<EditWorkInput>,
    why: &Option<String>,
    mappings: &Vec<(String, String)>,
) -> (outcome: Result<Vec<WorkOperation>>)
    requires
        distinct_names(mapping_views(mappings@)),
    ensures
        match editions(views::views(edits@), views::opt_view(*why), mapping_views(mappings@)) {
            Ok(operations) => outcome matches Ok(v) && views::views(v@) == operations,
            Err(error) => outcome matches Err(e) && e@ == error,
        },
{
    let ghost all = views::views(edits@);
    let ghost map_view = mapping_views(mappings@);
    let ghost why_view = views::opt_view(*why);
    let mut operations: Vec<WorkOperation> = Vec::new();
    let mut index: usize = 0;
    assert(all.take(0) =~= Seq::empty());
    assert(views::views(operations@) =~= Seq::empty());
    while index < edits.len()
        invariant
            index <= edits@.len(),
            all == views::views(edits@),
            map_view == mapping_views(mappings@),
            why_view == views::opt_view(*why),
            distinct_names(map_view),
            editions(all.take(index as int), why_view, map_view) == Ok::<
                Seq<WorkOperationView>,
                ErrorView,
            >(views::views(operations@)),
        decreases edits@.len() - index,
    {
        assert(all.take(index + 1).drop_last() =~= all.take(index as int));
        assert(all.take(index + 1).last() == edits@[index as int]@);
        match edit_operation(&edits[index], why, mappings, &operations) {
            Err(error) => {
                proof {
                    editions_extends(all, why_view, map_view, index + 1);
                }
                return Err(error);
            },
            Ok(operation) => {
                let ghost before = operations@;
                let ghost value = operation@;
                operations.push(operation);
                assert(views::views(operations@) =~= views::views(before).push(value));
            },
        }
        index += 1;
    }
    assert(all.take(index as int) =~= all);
    Ok(operations)
}

/// Turns a document into operations, its additions getting the given IDs in
/// turn. The operations are tried on the project, which stays as it is.
pub fn prepare_change(
    state: &ProjectState,
    document: &GraphChangeDocument,
    mode: ChangeMode,
    ids: &Vec<String>,
) -> (outcome: Result<PreparedChange>)
    requires
        document@.add.len() <= ids@.len(),
    ensures
        match prepared(state@, document@, mode, views::views(ids@)) {
            Ok(change) => outcome matches Ok(p) && p@ == change,
            Err(error) => outcome matches Err(e) && e@ == error,
        },
{
    assert(document@.add.len() == document.add@.len());
    if let Err(error) = check_shape(document, mode) {
        return Err(error);
    }
    let mappings = match map_names(&document.add, ids) {
        Err(error) => {
            return Err(error);
        },
        Ok(mappings) => mappings,
    };
    proof {
        mapped_shape(document@.add, views::views(ids@));
    }
    assert(mapping_views(mappings@).len() == mappings@.len());
    let mut operations = match add_operations(&document.add, &mappings) {
        Err(error) => {
            return Err(error);
        },
        Ok(operations) => operations,
    };
    let ghost added = views::views(operations@);
    let mut edits = match edit_operations(&document.edit, &document.why, &mappings) {
        Err(error) => {
            return Err(error);
        },
        Ok(operations) => operations,
    };
    let ghost edited = views::views(edits@);
    operations.append(&mut edits);
    assert(views::views(operations@) =~= added + edited);
    let mut candidate = state.replica();
    let event = Event {
        id: "hypothetical".to_owned(),
        seq: 1,
        at: Instant { seconds: 0, nanos: 0 },
        actor: "hypothetical".to_owned(),
        payload: EventPayload::Work(
            WorkEventPayload::WorkChanged {
                why: opt_replica(&document.why),
                operations: replicas(&operations),
            },
        ),
        schema: "alder.event.v0".to_owned(),
    };
    if let Err(error) = candidate.apply(&event) {
        return Err(error);
    }
    Ok(PreparedChange { operations, mappings })
}

} // verus!
