//! What holds of changes to the plan.

use vstd::prelude::*;

use crate::change;
use crate::change::{
    AddWorkInputView, ChangeMode, EditWorkInputView, GraphChangeDocumentView, Mapping,
};
use crate::effect_laws;
use crate::event::{EventPayloadView, EventView, WorkEventPayloadView};
use crate::graph;
use crate::graph::Graph;
use crate::laws;
use crate::project::StateView;
use crate::rules;
use crate::sorting;
use crate::text;
use crate::work::{
    CheckDefinition, CheckDefinitionView, WorkDefinitionView, WorkOperationView,
    WorkStateChangeView, WorkView,
};

verus! {

// ---- the sequence number of a change ----

/// Whether two items differ in their sequence numbers at most.
pub open spec fn alike(a: WorkView, b: WorkView) -> bool {
    a == WorkView { opened_seq: a.opened_seq, changed_seq: a.changed_seq, ..b }
}

/// Whether two projects differ in the sequence numbers of their work at most.
pub open spec fn alike_projects(s: StateView, t: StateView) -> bool {
    &&& s == StateView { work: s.work, ..t }
    &&& s.work.dom() == t.work.dom()
    &&& forall|k: Seq<char>| #[trigger] s.work.contains_key(k) ==> alike(s.work[k], t.work[k])
}

proof fn alike_graphs_hold_alike(a: Graph, b: Graph)
    requires
        a.dom().finite(),
        a.dom() == b.dom(),
        forall|k: Seq<char>| #[trigger] a.contains_key(k) ==> alike(a[k], b[k]),
        graph::graph_error(a) is None,
    ensures
        graph::graph_error(b) is None,
{
    graph::valid_graphs_are_the_acyclic_ones(a);
    graph::valid_graphs_are_the_acyclic_ones(b);
    assert forall|k: Seq<char>| b.contains_key(k) implies #[trigger] graph::sound_item(b, k) by {
        assert(a.contains_key(k));
        assert(graph::sound_item(a, k));
        assert forall|i: int| 0 <= i < b[k].requires.len() implies b.contains_key(
            #[trigger] b[k].requires[i],
        ) && b[k].requires[i] != b[k].id by {
            assert(a.contains_key(a[k].requires[i]));
        }
    }
    assert forall|path: Seq<Seq<char>>| !graph::closed_path(b, path) by {
        if graph::closed_path(b, path) {
            assert forall|i: int| 0 <= i < path.len() - 1 implies a.contains_key(#[trigger] path[i])
                && a[path[i]].requires.contains(path[i + 1]) by {
                assert(b.contains_key(path[i]));
            }
            assert(graph::closed_path(a, path));
        }
    }
}

proof fn operations_apply_alike(
    s: StateView,
    t: StateView,
    first: u64,
    second: u64,
    operation: WorkOperationView,
)
    requires
        alike_projects(s, t),
        rules::edit_work(s, first, operation) is Ok,
    ensures
        rules::edit_work(t, second, operation) is Ok,
        alike_projects(
            rules::edit_work(s, first, operation)->Ok_0,
            rules::edit_work(t, second, operation)->Ok_0,
        ),
        s.work.dom().finite() ==> (rules::edit_work(s, first, operation)->Ok_0).work.dom().finite(),
{
    if let WorkOperationView::Edit { id, .. } = operation {
        assert forall|key: Seq<char>| rules::active_key(t, id, key) implies rules::active_key(
            s,
            id,
            key,
        ) by {}
        if rules::active_attempt(t, id) is Some {
            let key = choose|key: Seq<char>| rules::active_key(t, id, key);
            assert(rules::active_key(s, id, key));
        }
        assert(s.work.contains_key(id));
        assert(alike(s.work[id], t.work[id]));
    }
    let a = rules::edit_work(s, first, operation)->Ok_0;
    let b = rules::edit_work(t, second, operation)->Ok_0;
    assert(a.work.dom() =~= b.work.dom());
}

proof fn all_operations_apply_alike(
    s: StateView,
    first: u64,
    second: u64,
    operations: Seq<WorkOperationView>,
)
    requires
        s.work.dom().finite(),
        rules::operated(s, first, operations) is Ok,
    ensures
        rules::operated(s, second, operations) is Ok,
        alike_projects(
            rules::operated(s, first, operations)->Ok_0,
            rules::operated(s, second, operations)->Ok_0,
        ),
        (rules::operated(s, first, operations)->Ok_0).work.dom().finite(),
    decreases operations.len(),
{
    if operations.len() > 0 {
        let front = operations.drop_last();
        all_operations_apply_alike(s, first, second, front);
        operations_apply_alike(
            rules::operated(s, first, front)->Ok_0,
            rules::operated(s, second, front)->Ok_0,
            first,
            second,
            operations.last(),
        );
    }
}

/// Whether a project takes a change does not depend on where in the log it stands.
pub proof fn changes_apply_at_any_place(
    s: StateView,
    first: u64,
    second: u64,
    operations: Seq<WorkOperationView>,
)
    requires
        s.work.dom().finite(),
        rules::change_work(s, first, operations) is Ok,
    ensures
        rules::change_work(s, second, operations) is Ok,
{
    all_operations_apply_alike(s, first, second, operations);
    alike_graphs_hold_alike(
        (rules::operated(s, first, operations)->Ok_0).work,
        (rules::operated(s, second, operations)->Ok_0).work,
    );
}

/// A document that was prepared for a project is a change that the project takes,
/// wherever in the log it comes to stand and whoever makes it.
pub proof fn prepared_changes_apply(
    s: StateView,
    document: GraphChangeDocumentView,
    mode: ChangeMode,
    ids: Seq<Seq<char>>,
    seq: u64,
    actor: Seq<char>,
)
    requires
        s.work.dom().finite(),
        change::prepared(s, document, mode, ids) is Ok,
    ensures
        rules::work_step(
            s,
            seq,
            actor,
            WorkEventPayloadView::WorkChanged {
                why: document.why,
                operations: (change::prepared(s, document, mode, ids)->Ok_0).operations,
            },
        ) is Ok,
{
    changes_apply_at_any_place(
        s,
        1,
        seq,
        (change::prepared(s, document, mode, ids)->Ok_0).operations,
    );
}

// ---- the operations of a document ----

/// What a reference that resolves stands for.
pub open spec fn meant(mappings: Seq<Mapping>, reference: Seq<char>) -> Seq<char> {
    change::resolved(mappings, reference)->Ok_0
}

/// What the references stand for, in their order.
pub open spec fn all_meant(mappings: Seq<Mapping>, references: Seq<Seq<char>>) -> Seq<Seq<char>> {
    Seq::new(references.len(), |i: int| meant(mappings, references[i]))
}

proof fn references_are_replaced(mappings: Seq<Mapping>, references: Seq<Seq<char>>)
    requires
        change::all_resolved(mappings, references) is Ok,
    ensures
        change::all_resolved(mappings, references)->Ok_0 == all_meant(mappings, references),
    decreases references.len(),
{
    if references.len() > 0 {
        references_are_replaced(mappings, references.drop_last());
    }
    assert(change::all_resolved(mappings, references)->Ok_0 =~= all_meant(mappings, references));
}

proof fn names_are_mapped(adds: Seq<AddWorkInputView>, ids: Seq<Seq<char>>)
    requires
        change::mapped(adds, ids) is Ok,
    ensures
        change::mapped(adds, ids)->Ok_0 == Seq::new(
            adds.len(),
            |i: int| (change::local_name(adds[i], i), ids[i]),
        ),
    decreases adds.len(),
{
    if adds.len() > 0 {
        names_are_mapped(adds.drop_last(), ids);
    }
    assert(change::mapped(adds, ids)->Ok_0 =~= Seq::new(
        adds.len(),
        |i: int| (change::local_name(adds[i], i), ids[i]),
    ));
}

/// The addition under an ID, its references replaced.
pub open spec fn added(
    mappings: Seq<Mapping>,
    add: AddWorkInputView,
    id: Seq<char>,
) -> WorkOperationView {
    WorkOperationView::Add {
        work: WorkDefinitionView {
            id,
            title: add.title,
            spec: add.spec,
            priority: add.priority,
            requires: all_meant(mappings, add.requires),
            checks: add.checks,
        },
    }
}

/// The edit, its references replaced. What blocks or unblocks is the reason of the
/// whole document.
pub open spec fn edited(
    mappings: Seq<Mapping>,
    edit: EditWorkInputView,
    why: Option<Seq<char>>,
) -> WorkOperationView {
    let reason = rules::or_else(why, Seq::empty());
    WorkOperationView::Edit {
        id: meant(mappings, edit.id),
        title: edit.title,
        spec: edit.spec,
        priority: edit.priority,
        add_requires: all_meant(mappings, edit.add_requires),
        remove_requires: all_meant(mappings, edit.remove_requires),
        add_checks: edit.add_checks,
        remove_checks: edit.remove_checks,
        state_change: if edit.block {
            Some(WorkStateChangeView::Block { reason, until: None })
        } else if edit.unblock {
            Some(WorkStateChangeView::Unblock { reason })
        } else {
            None
        },
    }
}

proof fn additions_in_order(adds: Seq<AddWorkInputView>, mappings: Seq<Mapping>)
    requires
        change::additions(adds, mappings) is Ok,
    ensures
        change::additions(adds, mappings)->Ok_0 == Seq::new(
            adds.len(),
            |i: int| added(mappings, adds[i], mappings[i].1),
        ),
    decreases adds.len(),
{
    if adds.len() > 0 {
        additions_in_order(adds.drop_last(), mappings);
        references_are_replaced(mappings, adds.last().requires);
    }
    assert(change::additions(adds, mappings)->Ok_0 =~= Seq::new(
        adds.len(),
        |i: int| added(mappings, adds[i], mappings[i].1),
    ));
}

proof fn edits_in_order(
    edits: Seq<EditWorkInputView>,
    why: Option<Seq<char>>,
    mappings: Seq<Mapping>,
)
    requires
        change::editions(edits, why, mappings) is Ok,
    ensures
        change::editions(edits, why, mappings)->Ok_0 == Seq::new(
            edits.len(),
            |i: int| edited(mappings, edits[i], why),
        ),
    decreases edits.len(),
{
    if edits.len() > 0 {
        edits_in_order(edits.drop_last(), why, mappings);
        references_are_replaced(mappings, edits.last().add_requires);
        references_are_replaced(mappings, edits.last().remove_requires);
    }
    assert(change::editions(edits, why, mappings)->Ok_0 =~= Seq::new(
        edits.len(),
        |i: int| edited(mappings, edits[i], why),
    ));
}

proof fn unrepeated_items_differ(items: Seq<Seq<char>>)
    requires
        rules::first_repeat(items) is None,
    ensures
        items.no_duplicates(),
    decreases items.len(),
{
    if items.len() > 0 {
        let front = items.drop_last();
        unrepeated_items_differ(front);
        assert forall|i: int, j: int|
            0 <= i < items.len() && 0 <= j < items.len() && i != j implies items[i] != items[j] by {
            if i < front.len() && j < front.len() {
                assert(front[i] != front[j]);
            } else if i < front.len() {
                assert(front.contains(front[i]));
            } else {
                assert(front.contains(front[j]));
            }
        }
    }
}

/// The operations of a prepared document are its additions under the given IDs and
/// behind them its edits, in the document's order, each local reference replaced by
/// the ID of what it names; no item is targeted twice. There is at least one, and
/// edits come with a reason.
pub proof fn prepared_changes_follow_the_document(
    s: StateView,
    document: GraphChangeDocumentView,
    mode: ChangeMode,
    ids: Seq<Seq<char>>,
)
    requires
        change::prepared(s, document, mode, ids) is Ok,
    ensures
        ({
            let p = change::prepared(s, document, mode, ids)->Ok_0;
            &&& p.mappings == Seq::new(
                document.add.len(),
                |i: int| (change::local_name(document.add[i], i), ids[i]),
            )
            &&& p.operations == Seq::new(
                document.add.len(),
                |i: int| added(p.mappings, document.add[i], ids[i]),
            ) + Seq::new(
                document.edit.len(),
                |i: int| edited(p.mappings, document.edit[i], document.why),
            )
            &&& p.operations.len() > 0
            &&& rules::targets(p.operations).no_duplicates()
            &&& document.edit.len() > 0 ==> document.why is Some && !text::blank(document.why->0)
        }),
{
    let p = change::prepared(s, document, mode, ids)->Ok_0;
    names_are_mapped(document.add, ids);
    additions_in_order(document.add, p.mappings);
    edits_in_order(document.edit, document.why, p.mappings);
    unrepeated_items_differ(rules::targets(p.operations));
    assert(change::additions(document.add, p.mappings)->Ok_0 =~= Seq::new(
        document.add.len(),
        |i: int| added(p.mappings, document.add[i], ids[i]),
    ));
}

// ---- what operations change ----

/// Whether a check may be had: it has a key of one word without a colon, and says what
/// it asks for.
pub open spec fn usable_check(check: CheckDefinitionView) -> bool {
    &&& !text::blank(check.key)
    &&& !text::blank(check.description)
    &&& forall|i: int|
        0 <= i < check.key.len() ==> !text::white(#[trigger] check.key[i]) && check.key[i] != ':'
}

/// Whether no two of the checks have one key.
pub open spec fn keys_differ(checks: Seq<CheckDefinitionView>) -> bool {
    forall|i: int, j: int|
        0 <= i < j < checks.len() ==> (#[trigger] checks[i]).key != (#[trigger] checks[j]).key
}

/// Whether a project may take the operation, whatever the graph comes to.
pub open spec fn fits(s: StateView, operation: WorkOperationView) -> bool {
    match operation {
        WorkOperationView::Add { work } => {
            &&& !s.work.contains_key(work.id)
            &&& !text::blank(work.title)
            &&& work.requires.no_duplicates()
            &&& forall|i: int| 0 <= i < work.checks.len() ==> usable_check(#[trigger] work.checks[i])
            &&& keys_differ(work.checks)
        },
        WorkOperationView::Edit {
            id,
            title,
            add_requires,
            remove_requires,
            add_checks,
            remove_checks,
            state_change,
            ..
        } => {
            &&& s.work.contains_key(id)
            &&& !(s.work[id].state is Done) && !(s.work[id].state is Dropped)
            &&& title is Some ==> !text::blank(title->0)
            &&& effect_laws::busy(s, id) ==> {
                &&& add_requires.len() == 0 && remove_requires.len() == 0
                &&& add_checks.len() == 0 && remove_checks.len() == 0
            }
            &&& forall|i: int| 0 <= i < add_checks.len() ==> usable_check(#[trigger] add_checks[i])
            &&& keys_differ(add_checks)
            &&& forall|c: CheckDefinitionView, i: int|
                #![trigger s.work[id].checks.contains(c), add_checks[i]]
                s.work[id].checks.contains(c) && 0 <= i < add_checks.len() && c.key
                    == add_checks[i].key ==> remove_checks.contains(c.key)
            &&& match state_change {
                None => true,
                Some(WorkStateChangeView::Block { reason, .. }) => !text::blank(reason),
                Some(WorkStateChangeView::Unblock { reason }) => {
                    &&& !text::blank(reason)
                    &&& s.work[id].state is Blocked
                    &&& !effect_laws::waited_for(s, id)
                },
            }
        },
    }
}

/// The item that an addition opens: what is given, and nothing else.
pub open spec fn opened_as(work: WorkView, given: WorkDefinitionView, seq: u64) -> bool {
    &&& work.id == given.id
    &&& work.title == given.title
    &&& work.spec == given.spec
    &&& work.priority == given.priority
    &&& work.state is Open
    &&& work.block_reason is None && work.block_until is None && work.outcome is None
    &&& work.opened_seq == seq && work.changed_seq == seq
    &&& forall|r: Seq<char>| #[trigger] work.requires.contains(r) <==> given.requires.contains(r)
    &&& forall|c: CheckDefinitionView| #[trigger]
        work.checks.contains(c) <==> given.checks.contains(c)
}

/// What an edit makes of an item: the fields that are given are as given, every other one
/// is as it was. What is required is what was, without what is removed, and what is
/// added; so are the checks. Without a change of state the state, the reason, the
/// deadline and the outcome are as they were.
pub open spec fn edited_as(
    before: WorkView,
    after: WorkView,
    operation: WorkOperationView,
    seq: u64,
) -> bool {
    match operation {
        WorkOperationView::Add { .. } => false,
        WorkOperationView::Edit {
            title,
            spec,
            priority,
            add_requires,
            remove_requires,
            add_checks,
            remove_checks,
            state_change,
            ..
        } => {
            &&& after.id == before.id
            &&& after.opened_seq == before.opened_seq
            &&& after.changed_seq == seq
            &&& after.outcome == before.outcome
            &&& title is None ==> after.title == before.title
            &&& title is Some ==> after.title == title->0
            &&& spec is None ==> after.spec == before.spec
            &&& spec is Some ==> after.spec == spec->0
            &&& priority is None ==> after.priority == before.priority
            &&& priority is Some ==> after.priority == priority->0
            &&& forall|r: Seq<char>| #[trigger]
                after.requires.contains(r) <==> (before.requires.contains(r)
                    && !remove_requires.contains(r)) || add_requires.contains(r)
            &&& forall|c: CheckDefinitionView| #[trigger]
                after.checks.contains(c) <==> (before.checks.contains(c)
                    && !remove_checks.contains(c.key)) || add_checks.contains(c)
            &&& match state_change {
                None => after.state == before.state && after.block_reason == before.block_reason
                    && after.block_until == before.block_until,
                Some(WorkStateChangeView::Block { reason, until }) => after.state is Blocked
                    && after.block_reason == Some(reason) && after.block_until == until,
                Some(WorkStateChangeView::Unblock { .. }) => after.state is Open
                    && after.block_reason is None && after.block_until is None,
            }
        },
    }
}

/// What the operations make of the items: each targeted one is as its operation says, and
/// no other one is touched.
pub open spec fn planned(
    before: Graph,
    operations: Seq<WorkOperationView>,
    seq: u64,
    after: Graph,
) -> bool {
    &&& forall|i: int|
        0 <= i < operations.len() ==> {
            let id = (#[trigger] operations[i]).target();
            &&& after.contains_key(id)
            &&& match operations[i] {
                WorkOperationView::Add { work } => id == work.id && opened_as(
                    after[id],
                    work,
                    seq,
                ),
                WorkOperationView::Edit { id: named, .. } => id == named && before.contains_key(id)
                    && edited_as(before[id], after[id], operations[i], seq),
            }
        }
    &&& forall|k: Seq<char>|
        (forall|i: int| 0 <= i < operations.len() ==> (#[trigger] operations[i]).target() != k)
            ==> (#[trigger] after.contains_key(k) <==> before.contains_key(k)) && (
        before.contains_key(k) ==> after[k] == before[k])
}

/// Whether no two of the operations have one target.
pub open spec fn targets_differ(operations: Seq<WorkOperationView>) -> bool {
    forall|i: int, j: int|
        0 <= i < j < operations.len() ==> (#[trigger] operations[i]).target() != (
        #[trigger] operations[j]).target()
}

/// Whether the items hang together: what is required is there and is another item, and no
/// item requires itself, however far around.
pub open spec fn hangs_together(work: Graph) -> bool {
    &&& forall|k: Seq<char>, r: Seq<char>|
        work.contains_key(k) && #[trigger] work[k].requires.contains(r) ==> work.contains_key(r)
    &&& forall|path: Seq<Seq<char>>| !graph::closed_path(work, path)
}

proof fn usable_is_faultless(check: CheckDefinitionView)
    ensures
        usable_check(check) <==> rules::check_error(check) is None,
{
    if usable_check(check) {
        if check.key.contains(':') {
            let i = choose|i: int| 0 <= i < check.key.len() && check.key[i] == ':';
            assert(check.key[i] != ':');
        }
    } else if rules::check_error(check) is None {
        assert forall|i: int| 0 <= i < check.key.len() implies !text::white(
            #[trigger] check.key[i],
        ) && check.key[i] != ':' by {
            assert(check.key.contains(check.key[i]));
            if text::white(check.key[i]) {
                assert(text::holds_char(check.key, |c: char| text::white(c)));
            }
        }
    }
}

proof fn all_usable_is_faultless(checks: Seq<CheckDefinitionView>)
    ensures
        rules::checks_error(checks) is None <==> forall|i: int|
            0 <= i < checks.len() ==> usable_check(#[trigger] checks[i]),
    decreases checks.len(),
{
    if checks.len() > 0 {
        let front = checks.drop_last();
        all_usable_is_faultless(front);
        usable_is_faultless(checks.last());
        if forall|i: int| 0 <= i < checks.len() ==> usable_check(#[trigger] checks[i]) {
            assert forall|i: int| 0 <= i < front.len() implies usable_check(#[trigger] front[i]) by {
                assert(usable_check(checks[i]));
            }
            assert(usable_check(checks[checks.len() - 1]));
        }
        if rules::checks_error(checks) is None {
            assert forall|i: int| 0 <= i < checks.len() implies usable_check(#[trigger] checks[i]) by {
                if i < front.len() {
                    assert(usable_check(front[i]));
                }
            }
        }
    }
}

proof fn differing_keys(checks: Seq<CheckDefinitionView>)
    ensures
        keys_differ(checks) <==> rules::check_keys(checks).no_duplicates(),
{
    let keys = rules::check_keys(checks);
    if keys_differ(checks) {
        assert forall|i: int, j: int|
            0 <= i < keys.len() && 0 <= j < keys.len() && i != j implies keys[i] != keys[j] by {
            if i < j {
                assert(checks[i].key != checks[j].key);
            } else {
                assert(checks[j].key != checks[i].key);
            }
        }
    }
    if keys.no_duplicates() {
        assert forall|i: int, j: int| 0 <= i < j < checks.len() implies (#[trigger] checks[i]).key
            != (#[trigger] checks[j]).key by {
            assert(keys[i] != keys[j]);
        }
    }
}

proof fn without_holds(items: Seq<Seq<char>>, removed: Seq<Seq<char>>, x: Seq<char>)
    ensures
        rules::without(items, removed).contains(x) <==> items.contains(x) && !removed.contains(x),
    decreases items.len(),
{
    let all = rules::without(items, removed);
    if items.len() > 0 {
        let front = items.drop_last();
        let rest = rules::without(front, removed);
        without_holds(front, removed, x);
        pushed_holds(front, items.last(), x);
        assert(front.push(items.last()) =~= items);
        pushed_holds(rest, items.last(), x);
    }
}

pub(crate) proof fn pushed_holds<T>(items: Seq<T>, item: T, x: T)
    ensures
        items.push(item).contains(x) <==> items.contains(x) || x == item,
{
    let all = items.push(item);
    if items.contains(x) {
        let i = choose|i: int| 0 <= i < items.len() && items[i] == x;
        assert(all[i] == x);
    }
    if x == item {
        assert(all[all.len() - 1] == x);
    }
    if all.contains(x) && x != item {
        let i = choose|i: int| 0 <= i < all.len() && all[i] == x;
        assert(items[i] == x);
    }
}

proof fn with_added_holds(items: Seq<Seq<char>>, added: Seq<Seq<char>>, x: Seq<char>)
    ensures
        rules::with_added(items, added).contains(x) <==> items.contains(x) || added.contains(x),
    decreases added.len(),
{
    if added.len() > 0 {
        let front = added.drop_last();
        with_added_holds(items, front, x);
        pushed_holds(front, added.last(), x);
        assert(front.push(added.last()) =~= added);
        pushed_holds(rules::with_added(items, front), added.last(), x);
        with_added_holds(items, front, added.last());
    }
}

proof fn checks_without_holds(
    checks: Seq<CheckDefinitionView>,
    removed: Seq<Seq<char>>,
    x: CheckDefinitionView,
)
    ensures
        rules::checks_without(checks, removed).contains(x) <==> checks.contains(x)
            && !removed.contains(x.key),
    decreases checks.len(),
{
    if checks.len() > 0 {
        let front = checks.drop_last();
        let rest = rules::checks_without(front, removed);
        checks_without_holds(front, removed, x);
        pushed_holds(front, checks.last(), x);
        assert(front.push(checks.last()) =~= checks);
        pushed_holds(rest, checks.last(), x);
    }
}

proof fn checks_added_holds(
    checks: Seq<CheckDefinitionView>,
    added: Seq<CheckDefinitionView>,
    id: Seq<char>,
)
    ensures
        rules::checks_added(checks, added, id) is Ok <==> {
            &&& forall|i: int| 0 <= i < added.len() ==> usable_check(#[trigger] added[i])
            &&& keys_differ(added)
            &&& forall|c: CheckDefinitionView, i: int|
                #![trigger checks.contains(c), added[i]]
                checks.contains(c) && 0 <= i < added.len() ==> c.key != added[i].key
        },
        rules::checks_added(checks, added, id) is Ok ==> rules::checks_added(checks, added, id)->Ok_0
            == checks + added,
    decreases added.len(),
{
    if added.len() > 0 {
        let front = added.drop_last();
        let last = added.last();
        checks_added_holds(checks, front, id);
        usable_is_faultless(last);
        let before = rules::checks_added(checks, front, id);
        if before is Ok {
            let sofar = before->Ok_0;
            let keys = rules::check_keys(sofar);
            if keys.contains(last.key) {
                let n = choose|n: int| 0 <= n < keys.len() && keys[n] == last.key;
                if n < checks.len() {
                    assert(checks[n] == sofar[n]);
                    assert(checks.contains(checks[n]));
                    assert(added[added.len() - 1] == last);
                } else {
                    assert(front[n - checks.len()] == sofar[n]);
                    assert(added[n - checks.len()].key == added[added.len() - 1].key);
                }
            }
            if rules::checks_added(checks, added, id) is Ok {
                assert forall|i: int| 0 <= i < added.len() implies usable_check(
                    #[trigger] added[i],
                ) by {
                    if i < front.len() {
                        assert(usable_check(front[i]));
                    }
                }
                assert forall|i: int, j: int| 0 <= i < j < added.len() implies (
                #[trigger] added[i]).key != (#[trigger] added[j]).key by {
                    if j < front.len() {
                        assert(front[i].key != front[j].key);
                    } else {
                        assert(sofar[checks.len() + i] == added[i]);
                        assert(keys[checks.len() + i] == added[i].key);
                    }
                }
                assert forall|c: CheckDefinitionView, i: int|
                    #![trigger checks.contains(c), added[i]]
                    checks.contains(c) && 0 <= i < added.len() implies c.key != added[i].key by {
                    if i < front.len() {
                        assert(front[i] == added[i]);
                    } else {
                        let n = choose|n: int| 0 <= n < checks.len() && checks[n] == c;
                        assert(sofar[n] == c);
                        assert(keys[n] == c.key);
                    }
                }
                assert(sofar.push(last) =~= checks + added);
            }
        }
        if (forall|i: int| 0 <= i < added.len() ==> usable_check(#[trigger] added[i]))
            && keys_differ(added) && (forall|c: CheckDefinitionView, i: int|
            #![trigger checks.contains(c), added[i]]
            checks.contains(c) && 0 <= i < added.len() ==> c.key != added[i].key) {
            assert forall|i: int| 0 <= i < front.len() implies usable_check(#[trigger] front[i]) by {
                assert(usable_check(added[i]));
            }
            assert forall|i: int, j: int| 0 <= i < j < front.len() implies (
            #[trigger] front[i]).key != (#[trigger] front[j]).key by {
                assert(added[i].key != added[j].key);
            }
            assert forall|c: CheckDefinitionView, i: int|
                #![trigger checks.contains(c), front[i]]
                checks.contains(c) && 0 <= i < front.len() implies c.key != front[i].key by {
                assert(added[i] == front[i]);
            }
            assert(usable_check(added[added.len() - 1]));
        }
    } else {
        assert(checks + added =~= checks);
    }
}

pub(crate) proof fn joined_holds<T>(a: Seq<T>, b: Seq<T>, x: T)
    ensures
        (a + b).contains(x) <==> a.contains(x) || b.contains(x),
{
    let all = a + b;
    if a.contains(x) {
        let i = choose|i: int| 0 <= i < a.len() && a[i] == x;
        assert(all[i] == x);
    }
    if b.contains(x) {
        let i = choose|i: int| 0 <= i < b.len() && b[i] == x;
        assert(all[a.len() + i] == x);
    }
    if all.contains(x) {
        let i = choose|i: int| 0 <= i < all.len() && all[i] == x;
        if i < a.len() {
            assert(a[i] == x);
        } else {
            assert(b[i - a.len()] == x);
        }
    }
}

/// One operation is taken if it fits, does what it says, and touches nothing else.
proof fn one_operation_does_what_it_says(s: StateView, seq: u64, operation: WorkOperationView)
    requires
        laws::one_attempt_each(s),
    ensures
        rules::edit_work(s, seq, operation) is Ok <==> fits(s, operation),
        rules::edit_work(s, seq, operation) is Ok ==> {
            let t = rules::edit_work(s, seq, operation)->Ok_0;
            let id = operation.target();
            &&& t == StateView { work: t.work, ..s }
            &&& t.work == s.work.insert(id, t.work[id])
            &&& match operation {
                WorkOperationView::Add { work } => id == work.id && opened_as(
                    t.work[id],
                    work,
                    seq,
                ),
                WorkOperationView::Edit { id: named, .. } => id == named && s.work.contains_key(id)
                    && edited_as(
                    s.work[id],
                    t.work[id],
                    operation,
                    seq,
                ),
            }
        },
{
    match operation {
        WorkOperationView::Add { work } => {
            let ordered = sorting::sorted::<CheckDefinition>(work.checks);
            all_usable_is_faultless(ordered);
            assert((forall|i: int| 0 <= i < ordered.len() ==> usable_check(#[trigger] ordered[i]))
                <==> forall|i: int|
                0 <= i < work.checks.len() ==> usable_check(#[trigger] work.checks[i])) by {
                if forall|i: int| 0 <= i < ordered.len() ==> usable_check(#[trigger] ordered[i]) {
                    assert forall|i: int| 0 <= i < work.checks.len() implies usable_check(
                        #[trigger] work.checks[i],
                    ) by {
                        effect_laws::sorted_holds::<CheckDefinition>(work.checks, work.checks[i]);
                        assert(work.checks.contains(work.checks[i]));
                        let j = choose|j: int|
                            0 <= j < ordered.len() && ordered[j] == work.checks[i];
                        assert(usable_check(ordered[j]));
                    }
                }
                if forall|i: int|
                    0 <= i < work.checks.len() ==> usable_check(#[trigger] work.checks[i]) {
                    assert forall|i: int| 0 <= i < ordered.len() implies usable_check(
                        #[trigger] ordered[i],
                    ) by {
                        effect_laws::sorted_holds::<CheckDefinition>(work.checks, ordered[i]);
                        assert(ordered.contains(ordered[i]));
                        let j = choose|j: int|
                            0 <= j < work.checks.len() && work.checks[j] == ordered[i];
                        assert(usable_check(work.checks[j]));
                    }
                }
            }
            differing_keys(work.checks);
            if rules::edit_work(s, seq, operation) is Ok {
                let after = (rules::edit_work(s, seq, operation)->Ok_0).work[work.id];
                assert forall|r: Seq<char>| #[trigger]
                    after.requires.contains(r) <==> work.requires.contains(r) by {
                    effect_laws::sorted_holds::<String>(work.requires, r);
                }
                assert forall|c: CheckDefinitionView| #[trigger]
                    after.checks.contains(c) <==> work.checks.contains(c) by {
                    effect_laws::sorted_holds::<CheckDefinition>(work.checks, c);
                }
            }
        },
        WorkOperationView::Edit {
            id,
            add_requires,
            remove_requires,
            add_checks,
            remove_checks,
            ..
        } => {
            effect_laws::busy_is_active(s, id);
            effect_laws::waited_for_is_unanswered(s, id);
            let before = s.work[id];
            let left = rules::checks_without(before.checks, remove_checks);
            checks_added_holds(left, add_checks, id);
            assert forall|c: CheckDefinitionView| #[trigger]
                left.contains(c) <==> before.checks.contains(c) && !remove_checks.contains(
                    c.key,
                ) by {
                checks_without_holds(before.checks, remove_checks, c);
            }
            if rules::edit_work(s, seq, operation) is Ok {
                let after = (rules::edit_work(s, seq, operation)->Ok_0).work[id];
                let needs = rules::without(before.requires, remove_requires);
                assert forall|r: Seq<char>| #[trigger]
                    after.requires.contains(r) <==> (before.requires.contains(r)
                        && !remove_requires.contains(r)) || add_requires.contains(r) by {
                    without_holds(before.requires, remove_requires, r);
                    with_added_holds(needs, add_requires, r);
                    effect_laws::sorted_holds::<String>(rules::with_added(needs, add_requires), r);
                }
                assert forall|c: CheckDefinitionView| #[trigger]
                    after.checks.contains(c) <==> (before.checks.contains(c)
                        && !remove_checks.contains(c.key)) || add_checks.contains(c) by {
                    checks_without_holds(before.checks, remove_checks, c);
                    joined_holds(left, add_checks, c);
                    effect_laws::sorted_holds::<CheckDefinition>(left + add_checks, c);
                }
                assert forall|c: CheckDefinitionView, i: int|
                    #![trigger before.checks.contains(c), add_checks[i]]
                    before.checks.contains(c) && 0 <= i < add_checks.len() && c.key
                        == add_checks[i].key implies remove_checks.contains(c.key) by {
                    if !remove_checks.contains(c.key) {
                        assert(left.contains(c));
                    }
                }
            }
            if fits(s, operation) {
                assert forall|c: CheckDefinitionView, i: int|
                    #![trigger left.contains(c), add_checks[i]]
                    left.contains(c) && 0 <= i < add_checks.len() implies c.key
                    != add_checks[i].key by {
                    assert(before.checks.contains(c));
                }
            }
        },
    }
}

proof fn fitting_carries_over(s: StateView, m: StateView, operation: WorkOperationView)
    requires
        m == (StateView { work: m.work, ..s }),
        m.work.contains_key(operation.target()) <==> s.work.contains_key(operation.target()),
        s.work.contains_key(operation.target()) ==> m.work[operation.target()]
            == s.work[operation.target()],
    ensures
        fits(m, operation) <==> fits(s, operation),
{
    let id = operation.target();
    assert(effect_laws::busy(m, id) <==> effect_laws::busy(s, id)) by {
        if effect_laws::busy(m, id) {
            let key = choose|key: Seq<char>| effect_laws::live(m, id, key);
            assert(effect_laws::live(s, id, key));
        }
        if effect_laws::busy(s, id) {
            let key = choose|key: Seq<char>| effect_laws::live(s, id, key);
            assert(effect_laws::live(m, id, key));
        }
    }
    assert(effect_laws::waited_for(m, id) <==> effect_laws::waited_for(s, id)) by {
        if effect_laws::waited_for(m, id) {
            let key = choose|key: Seq<char>| effect_laws::pends(m, id, key);
            assert(effect_laws::pends(s, id, key));
        }
        if effect_laws::waited_for(s, id) {
            let key = choose|key: Seq<char>| effect_laws::pends(s, id, key);
            assert(effect_laws::pends(m, id, key));
        }
    }
}

proof fn same_attempts_each(s: StateView, m: StateView)
    requires
        laws::one_attempt_each(s),
        m.attempts == s.attempts,
    ensures
        laws::one_attempt_each(m),
{
    assert forall|w: Seq<char>, a: Seq<char>, b: Seq<char>| #[trigger]
        rules::active_key(m, w, a) && #[trigger] rules::active_key(m, w, b) implies a == b by {
        assert(rules::active_key(s, w, a));
        assert(rules::active_key(s, w, b));
    }
}

proof fn operations_do_what_they_say(s: StateView, seq: u64, operations: Seq<WorkOperationView>)
    requires
        laws::one_attempt_each(s),
        targets_differ(operations),
    ensures
        rules::operated(s, seq, operations) is Ok <==> forall|i: int|
            0 <= i < operations.len() ==> fits(s, #[trigger] operations[i]),
        rules::operated(s, seq, operations) is Ok ==> {
            let t = rules::operated(s, seq, operations)->Ok_0;
            &&& t == StateView { work: t.work, ..s }
            &&& planned(s.work, operations, seq, t.work)
            &&& s.work.dom().finite() ==> t.work.dom().finite()
        },
    decreases operations.len(),
{
    if operations.len() > 0 {
        let front = operations.drop_last();
        let last = operations.last();
        assert(targets_differ(front)) by {
            assert forall|i: int, j: int| 0 <= i < j < front.len() implies (
            #[trigger] front[i]).target() != (#[trigger] front[j]).target() by {
                assert(operations[i].target() != operations[j].target());
            }
        }
        operations_do_what_they_say(s, seq, front);
        if rules::operated(s, seq, front) is Ok {
            let m = rules::operated(s, seq, front)->Ok_0;
            same_attempts_each(s, m);
            assert forall|i: int| 0 <= i < front.len() implies (#[trigger] front[i]).target()
                != last.target() by {
                assert(operations[i].target() != operations[operations.len() - 1].target());
            }
            assert(m.work.contains_key(last.target()) <==> s.work.contains_key(last.target()));
            fitting_carries_over(s, m, last);
            one_operation_does_what_it_says(m, seq, last);
            if rules::operated(s, seq, operations) is Ok {
                let t = rules::operated(s, seq, operations)->Ok_0;
                assert forall|i: int| 0 <= i < operations.len() implies fits(
                    s,
                    #[trigger] operations[i],
                ) by {
                    if i < front.len() {
                        assert(fits(s, front[i]));
                    }
                }
                assert forall|i: int| 0 <= i < operations.len() implies {
                    let id = (#[trigger] operations[i]).target();
                    &&& t.work.contains_key(id)
                    &&& match operations[i] {
                        WorkOperationView::Add { work } => id == work.id && opened_as(
                            t.work[id],
                            work,
                            seq,
                        ),
                        WorkOperationView::Edit { id: named, .. } => id == named
                            && s.work.contains_key(id) && edited_as(
                            s.work[id],
                            t.work[id],
                            operations[i],
                            seq,
                        ),
                    }
                } by {
                    if i < front.len() {
                        assert(front[i] == operations[i]);
                        assert(m.work.contains_key(front[i].target()));
                    }
                }
                assert forall|k: Seq<char>|
                    (forall|i: int|
                        0 <= i < operations.len() ==> (#[trigger] operations[i]).target()
                            != k) implies (#[trigger] t.work.contains_key(k)
                    <==> s.work.contains_key(k)) && (s.work.contains_key(k) ==> t.work[k]
                    == s.work[k]) by {
                    assert(operations[operations.len() - 1].target() != k);
                    assert forall|i: int| 0 <= i < front.len() implies (
                    #[trigger] front[i]).target() != k by {
                        assert(operations[i].target() != k);
                    }
                    assert(m.work.contains_key(k) <==> s.work.contains_key(k));
                }
            }
        }
        if forall|i: int| 0 <= i < operations.len() ==> fits(s, #[trigger] operations[i]) {
            assert forall|i: int| 0 <= i < front.len() implies fits(s, #[trigger] front[i]) by {
                assert(fits(s, operations[i]));
            }
            assert(fits(s, operations[operations.len() - 1]));
        }
    }
}

proof fn hanging_together_is_valid(work: Graph)
    requires
        work.dom().finite(),
        forall|k: Seq<char>| work.contains_key(k) ==> (#[trigger] work[k]).id == k,
    ensures
        hangs_together(work) <==> graph::graph_error(work) is None,
{
    graph::valid_graphs_are_the_acyclic_ones(work);
    if hangs_together(work) {
        assert forall|k: Seq<char>| work.contains_key(k) implies #[trigger] graph::sound_item(
            work,
            k,
        ) by {
            assert forall|i: int| 0 <= i < work[k].requires.len() implies work.contains_key(
                #[trigger] work[k].requires[i],
            ) && work[k].requires[i] != work[k].id by {
                assert(work[k].requires.contains(work[k].requires[i]));
                if work[k].requires[i] == k {
                    let path = seq![k, k];
                    assert(graph::closed_path(work, path));
                }
            }
        }
    }
    if graph::graph_error(work) is None {
        assert forall|k: Seq<char>, r: Seq<char>|
            work.contains_key(k) && #[trigger] work[k].requires.contains(
                r,
            ) implies work.contains_key(r) by {
            assert(graph::sound_item(work, k));
            let i = choose|i: int| 0 <= i < work[k].requires.len() && work[k].requires[i] == r;
            assert(work.contains_key(work[k].requires[i]));
        }
        assert(graph::acyclic(work));
    }
}

proof fn plans_agree_on_requirements(
    before: Graph,
    operations: Seq<WorkOperationView>,
    seq: u64,
    a: Graph,
    b: Graph,
)
    requires
        planned(before, operations, seq, a),
        planned(before, operations, seq, b),
        hangs_together(a),
    ensures
        hangs_together(b),
{
    assert forall|k: Seq<char>| #![trigger a.contains_key(k)] #![trigger b.contains_key(k)]
        (a.contains_key(k) <==> b.contains_key(k)) && (b.contains_key(k) ==> forall|r: Seq<char>|
            #[trigger] b[k].requires.contains(r) <==> a[k].requires.contains(r)) by {
        if exists|i: int| 0 <= i < operations.len() && (#[trigger] operations[i]).target() == k {
            let i = choose|i: int|
                0 <= i < operations.len() && (#[trigger] operations[i]).target() == k;
            assert(operations[i].target() == k);
            assert(a.contains_key(k) && b.contains_key(k));
            match operations[i] {
                WorkOperationView::Add { work } => {
                    assert(opened_as(a[k], work, seq) && opened_as(b[k], work, seq));
                    assert forall|r: Seq<char>| #[trigger]
                        b[k].requires.contains(r) <==> a[k].requires.contains(r) by {}
                },
                WorkOperationView::Edit { .. } => {
                    assert(edited_as(before[k], a[k], operations[i], seq));
                    assert(edited_as(before[k], b[k], operations[i], seq));
                    assert forall|r: Seq<char>| #[trigger]
                        b[k].requires.contains(r) <==> a[k].requires.contains(r) by {}
                },
            }
        }
    }
    assert forall|k: Seq<char>, r: Seq<char>|
        b.contains_key(k) && #[trigger] b[k].requires.contains(r) implies b.contains_key(r) by {
        assert(a.contains_key(k));
        assert(a[k].requires.contains(r));
        assert(a.contains_key(r));
    }
    assert forall|path: Seq<Seq<char>>| !graph::closed_path(b, path) by {
        if graph::closed_path(b, path) {
            assert forall|i: int| 0 <= i < path.len() - 1 implies a.contains_key(#[trigger] path[i])
                && a[path[i]].requires.contains(path[i + 1]) by {
                assert(b.contains_key(path[i]));
            }
            assert(graph::closed_path(a, path));
        }
    }
}

/// A change to the plan is taken as a whole or not at all. It is taken if it has an
/// operation, no item is targeted twice, every operation fits, and the items hang
/// together after it. Each targeted item is as its operation says then, no other item is
/// touched, and nothing but the plan changes.
pub proof fn changes_do_what_their_operations_say(
    s: StateView,
    event: EventView,
    why: Option<Seq<char>>,
    operations: Seq<WorkOperationView>,
)
    requires
        laws::sound(s),
        event.payload == EventPayloadView::Work(
            WorkEventPayloadView::WorkChanged { why, operations },
        ),
    ensures
        rules::step(s, event) is Ok ==> {
            let t = rules::step(s, event)->Ok_0;
            &&& t == StateView { work: t.work, ..s }
            &&& planned(s.work, operations, event.seq, t.work)
            &&& hangs_together(t.work)
            &&& operations.len() > 0
            &&& targets_differ(operations)
            &&& forall|i: int| 0 <= i < operations.len() ==> fits(s, #[trigger] operations[i])
        },
        operations.len() > 0 && targets_differ(operations) && (forall|i: int|
            0 <= i < operations.len() ==> fits(s, #[trigger] operations[i])) && (exists|work: Graph|
            #[trigger] planned(s.work, operations, event.seq, work) && hangs_together(work))
            ==> rules::step(s, event) is Ok,
{
    let targets = rules::targets(operations);
    if rules::first_repeat(targets) is None {
        unrepeated_items_differ(targets);
        assert(targets_differ(operations)) by {
            assert forall|i: int, j: int| 0 <= i < j < operations.len() implies (
            #[trigger] operations[i]).target() != (#[trigger] operations[j]).target() by {
                assert(targets[i] != targets[j]);
            }
        }
    }
    if targets_differ(operations) {
        assert(rules::first_repeat(targets) is None) by {
            differing_items_are_unrepeated(targets, operations);
        }
        operations_do_what_they_say(s, event.seq, operations);
        if rules::operated(s, event.seq, operations) is Ok {
            let t = rules::operated(s, event.seq, operations)->Ok_0;
            laws::operating_keeps(s, event.seq, operations);
            hanging_together_is_valid(t.work);
            if exists|work: Graph|
                #[trigger] planned(s.work, operations, event.seq, work) && hangs_together(work) {
                let work = choose|work: Graph|
                    #[trigger] planned(s.work, operations, event.seq, work) && hangs_together(work);
                plans_agree_on_requirements(s.work, operations, event.seq, work, t.work);
            }
        }
    }
}

proof fn differing_items_are_unrepeated(
    items: Seq<Seq<char>>,
    operations: Seq<WorkOperationView>,
)
    requires
        items == rules::targets(operations),
        targets_differ(operations),
    ensures
        rules::first_repeat(items) is None,
    decreases items.len(),
{
    if items.len() > 0 {
        let front = operations.drop_last();
        assert(items.drop_last() =~= rules::targets(front));
        assert(targets_differ(front)) by {
            assert forall|i: int, j: int| 0 <= i < j < front.len() implies (
            #[trigger] front[i]).target() != (#[trigger] front[j]).target() by {
                assert(operations[i].target() != operations[j].target());
            }
        }
        differing_items_are_unrepeated(items.drop_last(), front);
        if items.drop_last().contains(items.last()) {
            let i = choose|i: int|
                0 <= i < items.drop_last().len() && items.drop_last()[i] == items.last();
            assert(operations[i].target() == operations[operations.len() - 1].target());
        }
    }
}

/// Work that a handoff was integrated as, in logs from long ago, is opened like any other.
pub proof fn integrated_handoffs_open_their_work(
    s: StateView,
    event: EventView,
    handoff_id: Seq<char>,
    work: WorkDefinitionView,
)
    requires
        laws::sound(s),
        event.payload == EventPayloadView::Work(
            WorkEventPayloadView::LegacyHandoffIntegrated { handoff_id, work },
        ),
        rules::step(s, event) is Ok,
    ensures
        ({
            let t = rules::step(s, event)->Ok_0;
            &&& fits(s, WorkOperationView::Add { work })
            &&& t == StateView { work: s.work.insert(work.id, t.work[work.id]), ..s }
            &&& opened_as(t.work[work.id], work, event.seq)
        }),
{
    one_operation_does_what_it_says(s, event.seq, WorkOperationView::Add { work });
    assert(rules::edit_work(s, event.seq, WorkOperationView::Add { work }) == rules::add_work(
        s,
        event.seq,
        work,
    ));
}

/// What a reference means: behind a dollar sign the ID that the local name stands for,
/// else the text itself.
pub proof fn references_mean_what_they_name(mappings: Seq<Mapping>, reference: Seq<char>, i: int)
    requires
        0 <= i < mappings.len(),
        forall|a: int, b: int|
            0 <= a < b < mappings.len() ==> (#[trigger] mappings[a]).0 != (
            #[trigger] mappings[b]).0,
    ensures
        reference == seq!['$'] + mappings[i].0 ==> change::resolved(mappings, reference) is Ok
            && meant(mappings, reference) == mappings[i].1,
        reference.len() == 0 || reference[0] != '$' ==> change::resolved(mappings, reference) is Ok
            && meant(mappings, reference) == reference,
        reference.len() > 0 && reference[0] == '$' && (forall|n: int|
            0 <= n < mappings.len() ==> (#[trigger] mappings[n]).0 != reference.drop_first())
            ==> change::resolved(mappings, reference) is Err,
{
    if reference == seq!['$'] + mappings[i].0 {
        assert(reference[0] == '$');
        assert(reference.drop_first() =~= mappings[i].0);
        let n = choose|n: int|
            0 <= n < mappings.len() && (#[trigger] mappings[n]).0 == reference.drop_first();
        assert(0 <= n < mappings.len() && mappings[n].0 == mappings[i].0);
    }
}

} // verus!
