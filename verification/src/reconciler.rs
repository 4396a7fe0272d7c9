//! The reconciler: what is live, what it was built from, and what each event makes
//! of that. It decides; the scheduler polls, builds and removes, and reports back.

use vstd::prelude::*;

verus! {

/// What names an asset: the slot it has in its store, or a fixed identifier.
#[derive(Debug, Clone, Copy, PartialEq, Eq, Structural)]
pub enum AssetKey {
    Index(u64),
    Uuid(u128),
}

/// The configuration: the source to show and, where there is one, the style sheet
/// to show it with.
#[derive(Debug, Clone, Copy, PartialEq, Eq, Structural)]
pub struct Binding {
    pub source: AssetKey,
    pub style: Option<AssetKey>,
}

/// How far the loading of an asset has come.
#[derive(Debug, Clone, Copy, PartialEq, Eq, Structural)]
pub enum LoadState {
    NotLoaded,
    Loading,
    Loaded,
    Failed,
}

/// What the asset system says of one asset when it is polled.
#[derive(Debug, Clone, Copy, PartialEq, Eq, Structural)]
pub struct AssetStatus {
    /// The asset itself.
    pub load: LoadState,
    /// All that it depends on, and all that those depend on.
    pub dependencies: LoadState,
    /// Whether its content can be had.
    pub available: bool,
}

/// What the asset system says of the assets of a binding. The style has a status
/// where the binding has a style.
#[derive(Debug, Clone, Copy, PartialEq, Eq, Structural)]
pub struct Readiness {
    pub source: AssetStatus,
    pub style: Option<AssetStatus>,
}

/// Why a build has to wait.
#[derive(Debug, Clone, Copy, PartialEq, Eq, Structural)]
pub enum Hold {
    /// Something is not loaded yet.
    Loading,
    /// Something failed to load.
    Failed,
    /// All is loaded, but some content cannot be had.
    Unavailable,
}

/// What reaches the reconciler.
#[derive(Debug, Clone, Copy, PartialEq, Eq, Structural)]
pub enum Event {
    /// The scheduler ticks; `config` is the configuration as it stands.
    Tick { config: Option<Binding> },
    /// The answer to `Action::Poll`.
    Polled { binding: Binding, readiness: Readiness },
    /// The build that `Action::Rebuild` asked for has made the tree under `root`.
    Built { binding: Binding, root: u64 },
    /// The build that `Action::Rebuild` asked for has failed, and has left no tree.
    BuildFailed,
    /// The source `source` has changed; `style` is the style of the configuration
    /// as it stands.
    SourceModified { source: AssetKey, style: Option<AssetKey> },
}

/// What the reconciler asks for.
#[derive(Debug, Clone, Copy, PartialEq, Eq, Structural)]
pub enum Action {
    /// Nothing.
    Idle,
    /// Poll the assets of `binding` and come back with `Event::Polled`.
    Poll { binding: Binding },
    /// Nothing now: the build waits, and the next tick asks again.
    Wait { hold: Hold },
    /// Remove the live tree under `root`.
    Remove { root: u64 },
    /// Remove the live tree under `remove`, if there is one; then build the tree of
    /// `binding` and come back with `Event::Built` or `Event::BuildFailed`.
    Rebuild { remove: Option<u64>, binding: Binding },
}

/// What keeps the live tree in step with the configuration.
#[derive(Debug, Clone, Copy, PartialEq, Eq, Structural)]
pub struct Reconciler {
    /// The binding that the live tree was built from.
    pub last_applied: Option<Binding>,
    /// The root of the live tree.
    pub live_root: Option<u64>,
}

impl AssetStatus {
    /// Why this asset holds a build up, if it does. The asset itself is asked
    /// first, then what it depends on, then its content.
    pub open spec fn hold(self) -> Option<Hold> {
        if self.load == LoadState::Failed {
            Some(Hold::Failed)
        } else if self.load != LoadState::Loaded {
            Some(Hold::Loading)
        } else if self.dependencies == LoadState::Failed {
            Some(Hold::Failed)
        } else if self.dependencies != LoadState::Loaded {
            Some(Hold::Loading)
        } else if !self.available {
            Some(Hold::Unavailable)
        } else {
            None
        }
    }

    /// Why this asset holds a build up, if it does.
    pub fn check(&self) -> (r: Option<Hold>)
        ensures
            r == self.hold(),
    {
        match self.load {
            LoadState::Failed => Some(Hold::Failed),
            LoadState::NotLoaded | LoadState::Loading => Some(Hold::Loading),
            LoadState::Loaded => match self.dependencies {
                LoadState::Failed => Some(Hold::Failed),
                LoadState::NotLoaded | LoadState::Loading => Some(Hold::Loading),
                LoadState::Loaded => if self.available {
                    None
                } else {
                    Some(Hold::Unavailable)
                },
            },
        }
    }
}

impl Readiness {
    /// Why the assets of `binding` hold a build up, if they do. The source is
    /// asked first; the style only where the binding has one, and a style without
    /// a status counts as not loaded.
    pub open spec fn hold(self, binding: Binding) -> Option<Hold> {
        match self.source.hold() {
            Some(hold) => Some(hold),
            None => match binding.style {
                None => None,
                Some(_) => match self.style {
                    Some(status) => status.hold(),
                    None => Some(Hold::Loading),
                },
            },
        }
    }

    /// Why the assets of `binding` hold a build up, if they do.
    pub fn check(&self, binding: &Binding) -> (r: Option<Hold>)
        ensures
            r == self.hold(*binding),
    {
        match self.source.check() {
            Some(hold) => Some(hold),
            None => match binding.style {
                None => None,
                Some(_) => match &self.style {
                    Some(status) => status.check(),
                    None => Some(Hold::Loading),
                },
            },
        }
    }
}

impl Reconciler {
    /// Nothing applied, nothing live.
    pub open spec fn idle() -> Reconciler {
        Reconciler { last_applied: None, live_root: None }
    }

    /// A tree is live exactly where a binding is applied.
    pub open spec fn wf(self) -> bool {
        self.live_root is Some <==> self.last_applied is Some
    }

    /// The action that removes the live tree, if there is one.
    pub open spec fn removal(self) -> Action {
        match self.live_root {
            Some(root) => Action::Remove { root },
            None => Action::Idle,
        }
    }

    /// The state after an event, and the action that answers it.
    ///
    /// A tick without configuration removes the live tree and forgets what was
    /// applied. A tick whose configuration is the one applied does nothing; any
    /// other asks for a poll. A poll that finds everything ready has the old tree
    /// removed and the new one built, and until the build comes back nothing is
    /// live and nothing applied; a poll that does not, waits and leaves the state
    /// as it is. A build that went through is recorded with its binding. A build
    /// that failed leaves nothing applied, so that a later tick tries again. A
    /// change of the source from which the live tree was built has the tree
    /// rebuilt at once, without a poll.
    pub open spec fn step_spec(self, event: Event) -> (Reconciler, Action) {
        match event {
            Event::Tick { config } => match config {
                None => (Reconciler::idle(), self.removal()),
                Some(binding) => if self.last_applied == Some(binding) {
                    (self, Action::Idle)
                } else {
                    (self, Action::Poll { binding })
                },
            },
            Event::Polled { binding, readiness } => if self.last_applied == Some(binding) {
                (self, Action::Idle)
            } else {
                match readiness.hold(binding) {
                    Some(hold) => (self, Action::Wait { hold }),
                    None => (
                        Reconciler::idle(),
                        Action::Rebuild { remove: self.live_root, binding },
                    ),
                }
            },
            Event::Built { binding, root } => (
                Reconciler { last_applied: Some(binding), live_root: Some(root) },
                if self.live_root == Some(root) {
                    Action::Idle
                } else {
                    self.removal()
                },
            ),
            Event::BuildFailed => (Reconciler::idle(), self.removal()),
            Event::SourceModified { source, style } => if self.live_root is Some
                && self.last_applied is Some && self.last_applied->Some_0.source == source {
                (
                    Reconciler::idle(),
                    Action::Rebuild { remove: self.live_root, binding: Binding { source, style } },
                )
            } else {
                (self, Action::Idle)
            },
        }
    }

    /// A reconciler that has applied nothing.
    pub fn new() -> (r: Reconciler)
        ensures
            r == Reconciler::idle(),
    {
        Reconciler { last_applied: None, live_root: None }
    }

    /// Whether `binding` is what the live tree was built from.
    fn has_applied(&self, binding: &Binding) -> (b: bool)
        ensures
            b == (self.last_applied == Some(*binding)),
    {
        match &self.last_applied {
            Some(applied) => *applied == *binding,
            None => false,
        }
    }

    /// The action that removes the live tree, if there is one.
    fn remove_live(&self) -> (action: Action)
        ensures
            action == self.removal(),
    {
        match self.live_root {
            Some(root) => Action::Remove { root },
            None => Action::Idle,
        }
    }

    /// Takes an event in and says what is to be done.
    pub fn step(&mut self, event: Event) -> (action: Action)
        ensures
            (*final(self), action) == old(self).step_spec(event),
            old(self).wf() ==> final(self).wf(),
    {
        match event {
            Event::Tick { config } => match config {
                None => {
                    let action = self.remove_live();
                    self.last_applied = None;
                    self.live_root = None;
                    action
                },
                Some(binding) => if self.has_applied(&binding) {
                    Action::Idle
                } else {
                    Action::Poll { binding }
                },
            },
            Event::Polled { binding, readiness } => {
                if self.has_applied(&binding) {
                    return Action::Idle;
                }
                match readiness.check(&binding) {
                    Some(hold) => Action::Wait { hold },
                    None => {
                        let remove = self.live_root;
                        self.last_applied = None;
                        self.live_root = None;
                        Action::Rebuild { remove, binding }
                    },
                }
            },
            Event::Built { binding, root } => {
                let action = match self.live_root {
                    Some(old) => if old == root {
                        Action::Idle
                    } else {
                        Action::Remove { root: old }
                    },
                    None => Action::Idle,
                };
                self.last_applied = Some(binding);
                self.live_root = Some(root);
                action
            },
            Event::BuildFailed => {
                let action = self.remove_live();
                self.last_applied = None;
                self.live_root = None;
                action
            },
            Event::SourceModified { source, style } => {
                let bound = match &self.last_applied {
                    Some(applied) => applied.source == source,
                    None => false,
                };
                match self.live_root {
                    Some(root) => if bound {
                        self.last_applied = None;
                        self.live_root = None;
                        Action::Rebuild { remove: Some(root), binding: Binding { source, style } }
                    } else {
                        Action::Idle
                    },
                    None => Action::Idle,
                }
            },
        }
    }
}

/// What is done to the live tree.
pub enum LiveOp {
    /// The tree under this root is removed.
    Remove(u64),
    /// The tree of this binding is built.
    Build(Binding),
}

impl Action {
    /// What the action does to the live tree before any build.
    pub open spec fn removals(self) -> Seq<LiveOp> {
        match self {
            Action::Remove { root } => seq![LiveOp::Remove(root)],
            Action::Rebuild { remove: Some(root), .. } => seq![LiveOp::Remove(root)],
            _ => seq![],
        }
    }
}

/// How many trees are built among `ops`.
pub open spec fn builds(ops: Seq<LiveOp>) -> nat
    decreases ops.len(),
{
    if ops.len() == 0 {
        0
    } else {
        builds(ops.drop_last()) + if ops.last() is Build {
            1nat
        } else {
            0nat
        }
    }
}

impl Reconciler {
    /// One whole tick, as the scheduler drives it: the tick itself; the poll, if
    /// the tick asks for one, which finds `readiness`; and the build, if the poll
    /// asks for one, which makes the tree under `outcome` or fails where there is
    /// none. The result is the state after it and what was done to the live tree,
    /// in order.
    pub open spec fn tick_spec(
        self,
        config: Option<Binding>,
        readiness: Readiness,
        outcome: Option<u64>,
    ) -> (Reconciler, Seq<LiveOp>) {
        let (ticked, asked) = self.step_spec(Event::Tick { config });
        match asked {
            Action::Poll { binding } => {
                let (polled, decided) = ticked.step_spec(Event::Polled { binding, readiness });
                match decided {
                    Action::Rebuild { binding, .. } => {
                        let (built, last) = polled.step_spec(
                            match outcome {
                                Some(root) => Event::Built { binding, root },
                                None => Event::BuildFailed,
                            },
                        );
                        (
                            built,
                            decided.removals() + seq![LiveOp::Build(binding)] + last.removals(),
                        )
                    },
                    _ => (polled, decided.removals()),
                }
            },
            _ => (ticked, asked.removals()),
        }
    }
}

/// Every event leaves a tree live exactly where a binding is applied.
pub proof fn lemma_step_keeps_wf(r: Reconciler, event: Event)
    requires
        r.wf(),
    ensures
        r.step_spec(event).0.wf(),
{
}

/// A tick under the configuration that is applied touches nothing: it asks for
/// no poll, and neither removes nor builds.
pub proof fn lemma_unchanged_tick_is_idle(r: Reconciler, binding: Binding)
    requires
        r.last_applied == Some(binding),
    ensures
        r.step_spec(Event::Tick { config: Some(binding) }) == (r, Action::Idle),
        forall|readiness: Readiness, outcome: Option<u64>|
            r.tick_spec(Some(binding), readiness, outcome) == (r, Seq::<LiveOp>::empty()),
{
    assert forall|readiness: Readiness, outcome: Option<u64>|
        r.tick_spec(Some(binding), readiness, outcome) == (r, Seq::<LiveOp>::empty()) by {
        assert(r.tick_spec(Some(binding), readiness, outcome).1 =~= Seq::<LiveOp>::empty());
    }
}

/// Two ticks in a row under one configuration build at most once, and the second
/// does nothing to the live tree and leaves the state as the first left it.
///
/// This holds but where the first tick could not apply the configuration, because
/// it had to wait or its build failed, and the second finds everything ready: the
/// second then builds, as it must.
pub proof fn lemma_second_tick_is_idle(
    r: Reconciler,
    config: Option<Binding>,
    first: Readiness,
    first_outcome: Option<u64>,
    second: Readiness,
    second_outcome: Option<u64>,
)
    requires
        !(config matches Some(binding) && r.tick_spec(config, first, first_outcome).0.last_applied
            != Some(binding) && second.hold(binding) is None),
    ensures
        ({
            let (once, first_ops) = r.tick_spec(config, first, first_outcome);
            let (twice, second_ops) = once.tick_spec(config, second, second_outcome);
            &&& builds(first_ops) + builds(second_ops) <= 1
            &&& second_ops.len() == 0
            &&& twice == once
        }),
{
    let (once, first_ops) = r.tick_spec(config, first, first_outcome);
    lemma_tick_builds_once(r, config, first, first_outcome);
    assert(builds(Seq::<LiveOp>::empty()) == 0);
}

/// One tick builds at most once.
pub proof fn lemma_tick_builds_once(
    r: Reconciler,
    config: Option<Binding>,
    readiness: Readiness,
    outcome: Option<u64>,
)
    ensures
        builds(r.tick_spec(config, readiness, outcome).1) <= 1,
{
    let ops = r.tick_spec(config, readiness, outcome).1;
    lemma_builds_bound(ops);
    let (ticked, asked) = r.step_spec(Event::Tick { config });
    if let Action::Poll { binding } = asked {
        let (polled, decided) = ticked.step_spec(Event::Polled { binding, readiness });
        if let Action::Rebuild { binding, .. } = decided {
            let head = decided.removals() + seq![LiveOp::Build(binding)];
            assert(ops =~= head);
            assert(head.drop_last() =~= decided.removals());
            lemma_removals_build_nothing(decided);
        } else {
            lemma_removals_build_nothing(decided);
        }
    } else {
        lemma_removals_build_nothing(asked);
    }
}

/// No more trees are built than there are operations.
proof fn lemma_builds_bound(ops: Seq<LiveOp>)
    ensures
        builds(ops) <= ops.len(),
    decreases ops.len(),
{
    if ops.len() > 0 {
        lemma_builds_bound(ops.drop_last());
    }
}

/// Removing builds nothing.
proof fn lemma_removals_build_nothing(action: Action)
    ensures
        builds(action.removals()) == 0,
{
    let ops = action.removals();
    if ops.len() > 0 {
        assert(ops.drop_last() =~= Seq::<LiveOp>::empty());
        assert(builds(ops.drop_last()) == 0);
    }
}

/// A tick without configuration removes the live tree, if there is one, and
/// nothing else; after it nothing is live and nothing applied.
pub proof fn lemma_tick_without_configuration(
    r: Reconciler,
    readiness: Readiness,
    outcome: Option<u64>,
)
    ensures
        r.tick_spec(None, readiness, outcome).0 == Reconciler::idle(),
        r.tick_spec(None, readiness, outcome).1 == match r.live_root {
            Some(root) => seq![LiveOp::Remove(root)],
            None => seq![],
        },
{
    let ops = r.tick_spec(None, readiness, outcome).1;
    match r.live_root {
        Some(root) => assert(ops =~= seq![LiveOp::Remove(root)]),
        None => assert(ops =~= seq![]),
    }
}

/// Once a build has gone through, taking the configuration away removes the tree
/// that it made, once: the tick that finds no configuration removes it and leaves
/// nothing live and nothing applied, and the tick after that removes nothing.
pub proof fn lemma_teardown_removes_once(
    r: Reconciler,
    binding: Binding,
    readiness: Readiness,
    root: u64,
    later: Readiness,
    later_outcome: Option<u64>,
)
    requires
        r.last_applied != Some(binding),
        readiness.hold(binding) is None,
    ensures
        ({
            let (built, _) = r.tick_spec(Some(binding), readiness, Some(root));
            let (gone, removed) = built.tick_spec(None, later, later_outcome);
            let (after, again) = gone.tick_spec(None, later, later_outcome);
            &&& built.live_root == Some(root)
            &&& built.last_applied == Some(binding)
            &&& gone == Reconciler::idle()
            &&& removed == seq![LiveOp::Remove(root)]
            &&& after == Reconciler::idle()
            &&& again.len() == 0
        }),
{
    let (built, _) = r.tick_spec(Some(binding), readiness, Some(root));
    let (gone, removed) = built.tick_spec(None, later, later_outcome);
    assert(removed =~= seq![LiveOp::Remove(root)]);
}

} // verus!
