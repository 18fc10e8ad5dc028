//! What the commands do to the managed directory.
//!
//! The machine of a command touches nothing itself, so what it guarantees
//! of the directory is stated over a model: what stands at each key's
//! target, and which events can answer an action there. The laws below
//! hold of every run in which each event answers the action asked for.

use vstd::prelude::*;

use crate::commands::{registration_start, removal_start};
use crate::failure::FailureModel;
use crate::flow::{
    action_of, inspection_result, next, ActionModel, EventModel, LinkPolicy, OutcomeModel,
    PendingModel, StateModel, TargetKind,
};
use crate::version_key::{parse_key, KeyModel};

verus! {

/// What stands at a key's target.
pub enum Occupant {
    /// A symbolic link to a candidate.
    Link { to: Seq<char> },
    /// A text file with these contents.
    Shim { contents: Seq<char> },
    /// The directory of a full installation.
    Installation,
}

/// The managed directory: whether it exists, and what stands at the
/// targets of the keys.
pub struct World {
    pub parent: bool,
    pub targets: Map<KeyModel, Occupant>,
}

/// What a look at the target of `key` shows.
pub open spec fn kind_at(w: World, key: KeyModel) -> TargetKind {
    if !w.targets.contains_key(key) {
        TargetKind::Absent
    } else if w.targets[key] is Installation {
        TargetKind::Directory
    } else {
        TargetKind::File
    }
}

/// Whether `e` can be the answer to action `a` in world `w`: it is the
/// answer to that kind of action, a look shows what is there, a link is
/// made only where nothing stands, a shim is not written over a directory,
/// and only what is there is deleted.
pub open spec fn answers(w: World, a: ActionModel, e: EventModel) -> bool {
    match (a, e) {
        (ActionModel::Inspect { candidate }, EventModel::Inspected(_)) => true,
        (ActionModel::Validate(_), EventModel::Judged { accepted }) => true,
        (ActionModel::Probe(key), EventModel::Probed(kind)) => kind == kind_at(w, key),
        (ActionModel::EnsureParent(_), EventModel::Prepared { created }) => w.parent ==> created,
        (ActionModel::Link { key, candidate }, EventModel::Linked { created }) => created
            ==> kind_at(w, key) == TargetKind::Absent,
        (ActionModel::WriteShim { key, contents }, EventModel::Written { written }) => written
            ==> kind_at(w, key) != TargetKind::Directory,
        (ActionModel::DeleteFile(key), EventModel::Deleted { deleted }) => deleted ==> kind_at(
            w,
            key,
        ) == TargetKind::File,
        (ActionModel::DeleteTree(key), EventModel::Deleted { deleted }) => deleted ==> kind_at(
            w,
            key,
        ) == TargetKind::Directory,
        (
            ActionModel::Enumerate { include_obtainable },
            EventModel::Enumerated { installed, obtainable },
        ) => true,
        (ActionModel::Enumerate { include_obtainable }, EventModel::Unreadable) => true,
        _ => false,
    }
}

/// The world after action `a` was performed in `w` and answered by `e`.
pub open spec fn effect(w: World, a: ActionModel, e: EventModel) -> World {
    match (a, e) {
        (ActionModel::EnsureParent(_), EventModel::Prepared { created }) => World {
            parent: created,
            targets: w.targets,
        },
        (ActionModel::Link { key, candidate }, EventModel::Linked { created }) => if created {
            World { parent: w.parent, targets: w.targets.insert(key, Occupant::Link { to: candidate }) }
        } else {
            w
        },
        (ActionModel::WriteShim { key, contents }, EventModel::Written { written }) => if written {
            World { parent: w.parent, targets: w.targets.insert(key, Occupant::Shim { contents }) }
        } else {
            w
        },
        (ActionModel::DeleteFile(key), EventModel::Deleted { deleted }) => if deleted {
            World { parent: w.parent, targets: w.targets.remove(key) }
        } else {
            w
        },
        (ActionModel::DeleteTree(key), EventModel::Deleted { deleted }) => if deleted {
            World { parent: w.parent, targets: w.targets.remove(key) }
        } else {
            w
        },
        _ => w,
    }
}

/// Whether each of `events` in turn answers the action asked for, from
/// state `s` in world `w` on.
pub open spec fn faithful(s: StateModel, w: World, events: Seq<EventModel>) -> bool
    decreases events.len(),
{
    events.len() == 0 || (answers(w, action_of(s), events[0]) && faithful(
        next(s, events[0]),
        effect(w, action_of(s), events[0]),
        events.drop_first(),
    ))
}

/// The state and the world after `events`, from state `s` in world `w`.
pub open spec fn play(s: StateModel, w: World, events: Seq<EventModel>) -> (StateModel, World)
    decreases events.len(),
{
    if events.len() == 0 {
        (s, w)
    } else {
        play(next(s, events[0]), effect(w, action_of(s), events[0]), events.drop_first())
    }
}

/// Whether a failure comes before anything is looked at or changed.
pub open spec fn comes_first(f: FailureModel) -> bool {
    !(f is LinkFailed || f is Io)
}

/// What holds of a registration in state `s` and world `w` that began in
/// world `origin`.
pub open spec fn registering(s: StateModel, w: World, origin: World) -> bool {
    match s {
        StateModel::Inspecting { candidate, label, policy } => w == origin,
        StateModel::Validating(p) => w == origin,
        StateModel::Probing(p) => w == origin,
        StateModel::Preparing(p) => w == origin && !origin.targets.contains_key(p.key),
        StateModel::Linking(p) => w.targets == origin.targets && !origin.targets.contains_key(
            p.key,
        ),
        StateModel::WritingShim(p) => w.targets == origin.targets && !origin.targets.contains_key(
            p.key,
        ) && p.policy == LinkPolicy::LinkOrShim,
        StateModel::Done(OutcomeModel::Registered { key, candidate }) => {
            &&& !origin.targets.contains_key(key)
            &&& w.targets == origin.targets.insert(key, Occupant::Link { to: candidate })
                || w.targets == origin.targets.insert(key, Occupant::Shim { contents: candidate })
        },
        StateModel::Done(OutcomeModel::Failed(f)) => {
            &&& w.targets == origin.targets
            &&& comes_first(f) ==> w == origin
            &&& f is Occupied ==> origin.targets.contains_key(f->Occupied_0)
        },
        _ => false,
    }
}

/// What holds of a removal of `key` in state `s` and world `w` that began
/// in world `origin`.
pub open spec fn removing(s: StateModel, w: World, origin: World, key: KeyModel) -> bool {
    match s {
        StateModel::Locating { key: k } => k == key && w == origin,
        StateModel::Deleting { key: k, tree } => k == key && w == origin && kind_at(origin, key)
            == if tree {
            TargetKind::Directory
        } else {
            TargetKind::File
        },
        StateModel::Done(OutcomeModel::NotInstalled) => w == origin && !origin.targets.contains_key(
            key,
        ),
        StateModel::Done(OutcomeModel::RemovedLink(k)) => k == key && kind_at(origin, key)
            == TargetKind::File && w == (World {
            parent: origin.parent,
            targets: origin.targets.remove(key),
        }),
        StateModel::Done(OutcomeModel::RemovedInstallation(k)) => k == key && kind_at(origin, key)
            == TargetKind::Directory && w == (World {
            parent: origin.parent,
            targets: origin.targets.remove(key),
        }),
        StateModel::Done(OutcomeModel::Failed(f)) => f is Io && w == origin
            && origin.targets.contains_key(key),
        _ => false,
    }
}

/// One answered action keeps what holds of a registration.
pub proof fn lemma_registering_step(s: StateModel, w: World, origin: World, e: EventModel)
    requires
        registering(s, w, origin),
        answers(w, action_of(s), e),
    ensures
        registering(next(s, e), effect(w, action_of(s), e), origin),
{
}

/// One answered action keeps what holds of a removal.
pub proof fn lemma_removing_step(
    s: StateModel,
    w: World,
    origin: World,
    key: KeyModel,
    e: EventModel,
)
    requires
        removing(s, w, origin, key),
        answers(w, action_of(s), e),
    ensures
        removing(next(s, e), effect(w, action_of(s), e), origin, key),
{
}

/// A run of answered actions keeps what holds of a registration.
pub proof fn lemma_registering_run(
    s: StateModel,
    w: World,
    origin: World,
    events: Seq<EventModel>,
)
    requires
        registering(s, w, origin),
        faithful(s, w, events),
    ensures
        registering(play(s, w, events).0, play(s, w, events).1, origin),
    decreases events.len(),
{
    if events.len() > 0 {
        lemma_registering_step(s, w, origin, events[0]);
        lemma_registering_run(
            next(s, events[0]),
            effect(w, action_of(s), events[0]),
            origin,
            events.drop_first(),
        );
    }
}

/// A run of answered actions keeps what holds of a removal.
pub proof fn lemma_removing_run(
    s: StateModel,
    w: World,
    origin: World,
    key: KeyModel,
    events: Seq<EventModel>,
)
    requires
        removing(s, w, origin, key),
        faithful(s, w, events),
    ensures
        removing(play(s, w, events).0, play(s, w, events).1, origin, key),
    decreases events.len(),
{
    if events.len() > 0 {
        lemma_removing_step(s, w, origin, key, events[0]);
        lemma_removing_run(
            next(s, events[0]),
            effect(w, action_of(s), events[0]),
            origin,
            key,
            events.drop_first(),
        );
    }
}

/// Registration never overwrites. However a registration runs, it ends
/// registered only where nothing stood at the key's target, which then
/// holds a link to the candidate or a shim with the candidate's path, and
/// nothing else is changed; where it fails, every target is as it was; and
/// where it fails before the target is found free, the world is as it was.
pub proof fn law_registration_never_overwrites(
    path: Seq<char>,
    name: Option<Seq<char>>,
    policy: LinkPolicy,
    w: World,
    events: Seq<EventModel>,
)
    requires
        faithful(registration_start(path, name, policy), w, events),
    ensures
        ({
            let (end, after) = play(registration_start(path, name, policy), w, events);
            &&& end matches StateModel::Done(OutcomeModel::Registered { key, candidate })
                ==> !w.targets.contains_key(key) && candidate == path && (after.targets
                == w.targets.insert(key, Occupant::Link { to: path }) || after.targets
                == w.targets.insert(key, Occupant::Shim { contents: path }))
            &&& end matches StateModel::Done(OutcomeModel::Failed(f)) ==> after.targets
                == w.targets && (comes_first(f) ==> after == w)
            &&& end is Done ==> end->Done_0 is Registered || end->Done_0 is Failed
        }),
{
    let s = registration_start(path, name, policy);
    lemma_registering_run(s, w, w, events);
    lemma_candidate_kept(s, path, events, w);
}

/// Whether state `s` belongs to a registration of the candidate `path`.
pub open spec fn registers(s: StateModel, path: Seq<char>) -> bool {
    match s {
        StateModel::Inspecting { candidate, label, policy } => candidate == path,
        StateModel::Validating(p) => p.candidate == path,
        StateModel::Probing(p) => p.candidate == path,
        StateModel::Preparing(p) => p.candidate == path,
        StateModel::Linking(p) => p.candidate == path,
        StateModel::WritingShim(p) => p.candidate == path,
        StateModel::Done(OutcomeModel::Registered { key, candidate }) => candidate == path,
        _ => true,
    }
}

/// A registration keeps its candidate.
pub proof fn lemma_candidate_kept(s: StateModel, path: Seq<char>, events: Seq<EventModel>, w: World)
    requires
        registers(s, path),
        s is Done ==> s->Done_0 is Registered || s->Done_0 is Failed,
        !(s is Locating || s is Deleting || s is Enumerating),
    ensures
        registers(play(s, w, events).0, path),
    decreases events.len(),
{
    if events.len() > 0 {
        lemma_candidate_kept(
            next(s, events[0]),
            path,
            events.drop_first(),
            effect(w, action_of(s), events[0]),
        );
    }
}

/// A target that is occupied is a conflict: where something stands at the
/// target of the key, the one answer to the look at it ends the
/// registration as `Occupied`, and the world is as it was.
pub proof fn law_occupied_target_is_conflict(p: PendingModel, w: World, e: EventModel)
    requires
        w.targets.contains_key(p.key),
        answers(w, action_of(StateModel::Probing(p)), e),
    ensures
        next(StateModel::Probing(p), e) == StateModel::Done(
            OutcomeModel::Failed(FailureModel::Occupied(p.key)),
        ),
        effect(w, action_of(StateModel::Probing(p)), e) == w,
{
}

/// A candidate that is no interpreter changes nothing: where the
/// inspection fails, the registration ends with that failure at once, and
/// the world is as it was.
pub proof fn law_failed_inspection_changes_nothing(
    path: Seq<char>,
    name: Option<Seq<char>>,
    policy: LinkPolicy,
    w: World,
    events: Seq<EventModel>,
)
    requires
        events.len() > 0,
        faithful(registration_start(path, name, policy), w, events),
        events[0] matches EventModel::Inspected(i) && inspection_result(i) is Err,
    ensures
        events.len() == 1,
        play(registration_start(path, name, policy), w, events) == (
            StateModel::Done(
                OutcomeModel::Failed(inspection_result(events[0]->Inspected_0)->Err_0),
            ),
            w,
        ),
{
    let s = registration_start(path, name, policy);
    let s1 = next(s, events[0]);
    let w1 = effect(w, action_of(s), events[0]);
    assert(w1 == w);
    let rest = events.drop_first();
    assert(faithful(s1, w1, rest));
    assert(s1 is Done);
    assert(rest.len() == 0);
    assert(play(s1, w1, rest) == (s1, w1));
}

/// Where the link cannot be made and shims are allowed, the shim holds the
/// candidate's path and nothing else, and the registration succeeds.
pub proof fn law_shim_holds_candidate_path(p: PendingModel, w: World)
    requires
        p.policy == LinkPolicy::LinkOrShim,
        !w.targets.contains_key(p.key),
    ensures
        ({
            let events = seq![
                EventModel::Linked { created: false },
                EventModel::Written { written: true },
            ];
            let (end, after) = play(StateModel::Linking(p), w, events);
            &&& faithful(StateModel::Linking(p), w, events)
            &&& end == StateModel::Done(
                OutcomeModel::Registered { key: p.key, candidate: p.candidate },
            )
            &&& after.targets == w.targets.insert(p.key, Occupant::Shim { contents: p.candidate })
        }),
{
    let events = seq![EventModel::Linked { created: false }, EventModel::Written { written: true }];
    let s0 = StateModel::Linking(p);
    let s1 = next(s0, events[0]);
    let w1 = effect(w, action_of(s0), events[0]);
    let rest = events.drop_first();
    assert(rest[0] == events[1]);
    let s2 = next(s1, rest[0]);
    let w2 = effect(w1, action_of(s1), rest[0]);
    assert(rest.drop_first().len() == 0);
    assert(play(s2, w2, rest.drop_first()) == (s2, w2));
    assert(faithful(s2, w2, rest.drop_first()));
    assert(play(s1, w1, rest) == (s2, w2));
    assert(faithful(s1, w1, rest));
}

/// Removal is idempotent. Where a first removal of a key has ended without
/// failure, a second removal of that key does not fail and leaves the
/// world as the first left it: it ends as `NotInstalled`.
pub proof fn law_removal_is_idempotent(
    version: Seq<char>,
    w: World,
    first: Seq<EventModel>,
    second: Seq<EventModel>,
)
    requires
        faithful(removal_start(version), w, first),
        play(removal_start(version), w, first).0 matches StateModel::Done(o) && !(o is Failed),
        faithful(removal_start(version), play(removal_start(version), w, first).1, second),
    ensures
        ({
            let between = play(removal_start(version), w, first).1;
            let (end, after) = play(removal_start(version), between, second);
            &&& after == between
            &&& end is Done ==> end->Done_0 is NotInstalled
            &&& !(end is Done) ==> end == removal_start(version)
        }),
{
    let s = removal_start(version);
    match parse_key(version) {
        None => {
            lemma_done_stays(s, w, first);
        },
        Some(key) => {
            lemma_removing_run(s, w, w, key, first);
            let between = play(s, w, first).1;
            assert(!between.targets.contains_key(key));
            lemma_removing_run(s, between, between, key, second);
        },
    }
}

/// A command that has ended stays as it is.
pub proof fn lemma_done_stays(s: StateModel, w: World, events: Seq<EventModel>)
    requires
        s is Done,
    ensures
        play(s, w, events).0 == s,
    decreases events.len(),
{
    if events.len() > 0 {
        lemma_done_stays(s, effect(w, action_of(s), events[0]), events.drop_first());
    }
}

} // verus!
