use html_ui::reconciler::LoadState::{Failed, Loaded, Loading, NotLoaded};
use html_ui::reconciler::{
	Action, AssetKey, AssetStatus, Binding, Event, Hold, LoadState, Readiness, Reconciler,
};

const SOURCE: AssetKey = AssetKey::Index(1);
const OTHER: AssetKey = AssetKey::Index(2);
const STYLE: AssetKey = AssetKey::Uuid(0xfeed);

fn plain() -> Binding {
	Binding { source: SOURCE, style: None }
}

fn styled() -> Binding {
	Binding { source: SOURCE, style: Some(STYLE) }
}

fn loaded() -> AssetStatus {
	AssetStatus { load: LoadState::Loaded, dependencies: LoadState::Loaded, available: true }
}

fn ready() -> Readiness {
	Readiness { source: loaded(), style: Some(loaded()) }
}

fn live(binding: Binding, root: u64) -> Reconciler {
	Reconciler { last_applied: Some(binding), live_root: Some(root) }
}

fn idle() -> Reconciler {
	Reconciler { last_applied: None, live_root: None }
}

/// Drives one tick as a scheduler would; gives back how often it built and
/// removed.
fn tick(
	reconciler: &mut Reconciler,
	config: Option<Binding>,
	readiness: Readiness,
	outcome: Option<u64>,
) -> (usize, Vec<u64>) {
	let mut builds = 0;
	let mut removed = Vec::new();
	let mut action = reconciler.step(Event::Tick { config });
	loop {
		action = match action {
			Action::Idle | Action::Wait { .. } => return (builds, removed),
			Action::Poll { binding } => reconciler.step(Event::Polled { binding, readiness }),
			Action::Remove { root } => {
				removed.push(root);
				return (builds, removed);
			},
			Action::Rebuild { remove, binding } => {
				removed.extend(remove);
				builds += 1;
				match outcome {
					Some(root) => reconciler.step(Event::Built { binding, root }),
					None => reconciler.step(Event::BuildFailed),
				}
			},
		};
	}
}

#[test]
fn new_reconciler_is_idle() {
	assert_eq!(Reconciler::new(), idle());
}

#[test]
fn first_tick_polls_then_builds() {
	let mut reconciler = Reconciler::new();
	assert_eq!(
		reconciler.step(Event::Tick { config: Some(styled()) }),
		Action::Poll { binding: styled() }
	);
	assert_eq!(reconciler, idle());
	assert_eq!(
		reconciler.step(Event::Polled { binding: styled(), readiness: ready() }),
		Action::Rebuild { remove: None, binding: styled() }
	);
	assert_eq!(reconciler, idle());
	assert_eq!(reconciler.step(Event::Built { binding: styled(), root: 40 }), Action::Idle);
	assert_eq!(reconciler, live(styled(), 40));
}

#[test]
fn second_tick_without_change_does_nothing() {
	let mut reconciler = Reconciler::new();
	assert_eq!(tick(&mut reconciler, Some(styled()), ready(), Some(40)), (1, vec![]));
	let after_first = reconciler;
	assert_eq!(reconciler.step(Event::Tick { config: Some(styled()) }), Action::Idle);
	assert_eq!(tick(&mut reconciler, Some(styled()), ready(), Some(41)), (0, vec![]));
	assert_eq!(reconciler, after_first);
}

#[test]
fn removing_the_configuration_removes_the_tree_once() {
	let mut reconciler = Reconciler::new();
	assert_eq!(tick(&mut reconciler, Some(plain()), ready(), Some(40)), (1, vec![]));
	assert_eq!(reconciler.live_root, Some(40));
	assert_eq!(tick(&mut reconciler, None, ready(), None), (0, vec![40]));
	assert_eq!(reconciler, idle());
	assert_eq!(tick(&mut reconciler, None, ready(), None), (0, vec![]));
	assert_eq!(reconciler, idle());
}

#[test]
fn tick_without_configuration_and_without_tree_is_idle() {
	let mut reconciler = Reconciler::new();
	assert_eq!(reconciler.step(Event::Tick { config: None }), Action::Idle);
	assert_eq!(reconciler, idle());
}

#[test]
fn changed_configuration_replaces_the_tree() {
	let mut reconciler = live(plain(), 40);
	assert_eq!(tick(&mut reconciler, Some(styled()), ready(), Some(41)), (1, vec![40]));
	assert_eq!(reconciler, live(styled(), 41));
	let moved = Binding { source: OTHER, style: Some(STYLE) };
	assert_eq!(tick(&mut reconciler, Some(moved), ready(), Some(42)), (1, vec![41]));
	assert_eq!(reconciler, live(moved, 42));
}

#[test]
fn waiting_leaves_the_old_tree_alone() {
	let mut reconciler = live(plain(), 40);
	let mut readiness = ready();
	readiness.source.load = LoadState::Loading;
	assert_eq!(
		reconciler.step(Event::Polled { binding: styled(), readiness }),
		Action::Wait { hold: Hold::Loading }
	);
	assert_eq!(tick(&mut reconciler, Some(styled()), readiness, Some(41)), (0, vec![]));
	assert_eq!(reconciler, live(plain(), 40));
	assert_eq!(tick(&mut reconciler, Some(styled()), ready(), Some(41)), (1, vec![40]));
	assert_eq!(reconciler, live(styled(), 41));
}

#[test]
fn each_hold_in_the_order_of_the_checks() {
	let hold = |readiness: Readiness, binding: Binding| readiness.check(&binding);
	assert_eq!(hold(ready(), styled()), None);
	let status = |load, dependencies, available| AssetStatus { load, dependencies, available };
	let of_source = |source| Readiness { source, style: Some(loaded()) };
	let of_style = |style| Readiness { source: loaded(), style: Some(style) };
	assert_eq!(hold(of_source(status(NotLoaded, Loaded, true)), styled()), Some(Hold::Loading));
	assert_eq!(hold(of_source(status(Loading, Failed, false)), styled()), Some(Hold::Loading));
	assert_eq!(hold(of_source(status(Failed, Loaded, true)), styled()), Some(Hold::Failed));
	assert_eq!(hold(of_source(status(Loaded, NotLoaded, true)), styled()), Some(Hold::Loading));
	assert_eq!(hold(of_source(status(Loaded, Loading, false)), styled()), Some(Hold::Loading));
	assert_eq!(hold(of_source(status(Loaded, Failed, true)), styled()), Some(Hold::Failed));
	assert_eq!(hold(of_source(status(Loaded, Loaded, false)), styled()), Some(Hold::Unavailable));
	assert_eq!(hold(of_style(status(Loading, Loaded, true)), styled()), Some(Hold::Loading));
	assert_eq!(hold(of_style(status(Failed, Loaded, true)), styled()), Some(Hold::Failed));
	assert_eq!(hold(of_style(status(Loaded, Loading, true)), styled()), Some(Hold::Loading));
	assert_eq!(hold(of_style(status(Loaded, Loaded, false)), styled()), Some(Hold::Unavailable));
	// the source is asked before the style
	assert_eq!(
		hold(
			Readiness {
				source: status(Loaded, Loaded, false),
				style: Some(status(Failed, Loaded, true))
			},
			styled()
		),
		Some(Hold::Unavailable)
	);
	// a style that is not bound is not asked
	assert_eq!(hold(of_style(status(Failed, Failed, false)), plain()), None);
	assert_eq!(hold(Readiness { source: loaded(), style: None }, plain()), None);
	// a bound style without a status is not loaded
	assert_eq!(hold(Readiness { source: loaded(), style: None }, styled()), Some(Hold::Loading));
}

#[test]
fn failed_build_leaves_nothing_and_is_tried_again() {
	let mut reconciler = live(plain(), 40);
	assert_eq!(tick(&mut reconciler, Some(styled()), ready(), None), (1, vec![40]));
	assert_eq!(reconciler, idle());
	assert_eq!(tick(&mut reconciler, Some(styled()), ready(), Some(41)), (1, vec![]));
	assert_eq!(reconciler, live(styled(), 41));
}

#[test]
fn source_change_rebuilds_at_once() {
	let mut reconciler = live(styled(), 40);
	assert_eq!(
		reconciler.step(Event::SourceModified { source: SOURCE, style: None }),
		Action::Rebuild { remove: Some(40), binding: plain() }
	);
	assert_eq!(reconciler, idle());
	assert_eq!(reconciler.step(Event::Built { binding: plain(), root: 41 }), Action::Idle);
	assert_eq!(reconciler, live(plain(), 41));
}

#[test]
fn change_of_another_source_is_passed_over() {
	let mut reconciler = live(styled(), 40);
	assert_eq!(
		reconciler.step(Event::SourceModified { source: OTHER, style: Some(STYLE) }),
		Action::Idle
	);
	assert_eq!(
		reconciler.step(Event::SourceModified { source: STYLE, style: Some(STYLE) }),
		Action::Idle
	);
	assert_eq!(reconciler, live(styled(), 40));
	let mut nothing_live = idle();
	assert_eq!(
		nothing_live.step(Event::SourceModified { source: SOURCE, style: None }),
		Action::Idle
	);
	assert_eq!(nothing_live, idle());
}

#[test]
fn poll_for_what_is_applied_is_idle() {
	let mut reconciler = live(styled(), 40);
	assert_eq!(
		reconciler.step(Event::Polled { binding: styled(), readiness: ready() }),
		Action::Idle
	);
	assert_eq!(reconciler, live(styled(), 40));
}

#[test]
fn built_over_a_live_tree_removes_the_old_one() {
	let mut reconciler = live(plain(), 40);
	assert_eq!(
		reconciler.step(Event::Built { binding: styled(), root: 41 }),
		Action::Remove { root: 40 }
	);
	assert_eq!(reconciler, live(styled(), 41));
	assert_eq!(reconciler.step(Event::Built { binding: plain(), root: 41 }), Action::Idle);
	assert_eq!(reconciler, live(plain(), 41));
}

#[test]
fn build_failure_over_a_live_tree_removes_it() {
	let mut reconciler = live(plain(), 40);
	assert_eq!(reconciler.step(Event::BuildFailed), Action::Remove { root: 40 });
	assert_eq!(reconciler, idle());
	assert_eq!(reconciler.step(Event::BuildFailed), Action::Idle);
}
