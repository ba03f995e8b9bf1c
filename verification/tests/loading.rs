use flappy::loading::{all_handles_loaded, post_loading, LoadState, LoadingAssets, LoadingBundle};
use std::collections::HashMap;

type Callback = Box<dyn FnOnce(Vec<u64>, &mut Vec<String>)>;

fn states(entries: &[(u64, LoadState)]) -> HashMap<u64, LoadState> {
    let mut map: HashMap<u64, LoadState> = HashMap::new();
    for (handle, state) in entries {
        map.insert(*handle, *state);
    }
    map
}

fn bundle(handles: Vec<u64>, name: &'static str) -> LoadingBundle<&'static str> {
    LoadingBundle { handles, on_load: name }
}

fn names(fired: &Vec<LoadingBundle<&'static str>>) -> Vec<&'static str> {
    fired.iter().map(|bundle| bundle.on_load).collect()
}

#[test]
fn loading_gate_single_fire() {
    let mut gate: LoadingAssets<Callback> = LoadingAssets::new();
    gate.push(LoadingBundle {
        handles: vec![1, 2],
        on_load: Box::new(|handles: Vec<u64>, commands: &mut Vec<String>| {
            commands.push(format!("spawn with {:?}", handles));
        }),
    });
    let mut commands: Vec<String> = Vec::new();
    let mut fired_on: Vec<u32> = Vec::new();
    let polls = vec![
        states(&[(1, LoadState::Pending), (2, LoadState::Pending)]),
        states(&[(1, LoadState::Loaded), (2, LoadState::Pending)]),
        states(&[(1, LoadState::Loaded), (2, LoadState::Pending)]),
        states(&[(1, LoadState::Loaded), (2, LoadState::Loaded)]),
        states(&[(1, LoadState::Loaded), (2, LoadState::Loaded)]),
        states(&[(1, LoadState::Loaded), (2, LoadState::Loaded)]),
    ];
    let mut tick: u32 = 0;
    for poll in &polls {
        let fired = post_loading(&mut gate, poll);
        for bundle in fired {
            (bundle.on_load)(bundle.handles, &mut commands);
            fired_on.push(tick);
        }
        if tick < 3 {
            assert_eq!(gate.len(), 1);
        } else {
            assert_eq!(gate.len(), 0);
        }
        tick += 1;
    }
    assert_eq!(fired_on, vec![3]);
    assert_eq!(commands, vec![String::from("spawn with [1, 2]")]);
}

#[test]
fn loading_gate_never_fire() {
    let mut gate: LoadingAssets<&'static str> = LoadingAssets::new();
    gate.push(bundle(vec![7], "stuck"));
    let poll = states(&[(7, LoadState::Pending)]);
    let mut tick: u32 = 0;
    while tick < 10_000 {
        let fired = post_loading(&mut gate, &poll);
        assert!(fired.is_empty());
        assert_eq!(gate.len(), 1);
        tick += 1;
    }
    assert_eq!(gate.0[0], bundle(vec![7], "stuck"));
}

#[test]
fn a_failed_resource_never_resolves() {
    let mut gate: LoadingAssets<&'static str> = LoadingAssets::new();
    gate.push(bundle(vec![1, 2], "broken"));
    let poll = states(&[(1, LoadState::Loaded), (2, LoadState::Failed)]);
    let mut tick: u32 = 0;
    while tick < 100 {
        assert!(post_loading(&mut gate, &poll).is_empty());
        tick += 1;
    }
    assert_eq!(gate.len(), 1);
}

#[test]
fn an_unreported_resource_is_not_loaded() {
    let mut gate: LoadingAssets<&'static str> = LoadingAssets::new();
    gate.push(bundle(vec![1, 2], "partly known"));
    assert!(post_loading(&mut gate, &states(&[(1, LoadState::Loaded)])).is_empty());
    assert!(post_loading(&mut gate, &states(&[])).is_empty());
    assert_eq!(gate.len(), 1);
}

#[test]
fn a_bundle_without_resources_is_released_at_once() {
    let mut gate: LoadingAssets<&'static str> = LoadingAssets::new();
    gate.push(bundle(Vec::new(), "nothing to wait for"));
    let fired = post_loading(&mut gate, &states(&[]));
    assert_eq!(names(&fired), vec!["nothing to wait for"]);
    assert_eq!(gate.len(), 0);
}

#[test]
fn released_bundles_come_in_the_order_they_waited_in() {
    let mut gate: LoadingAssets<&'static str> = LoadingAssets::new();
    gate.push(bundle(vec![1], "a"));
    gate.push(bundle(vec![2], "b"));
    gate.push(bundle(vec![1, 3], "c"));
    gate.push(bundle(vec![3], "d"));
    gate.push(bundle(vec![2, 1], "e"));
    let poll = states(&[
        (1, LoadState::Loaded),
        (2, LoadState::Pending),
        (3, LoadState::Loaded),
    ]);
    let fired = post_loading(&mut gate, &poll);
    assert_eq!(names(&fired), vec!["a", "c", "d"]);
    assert_eq!(fired[1].handles, vec![1, 3]);
    assert_eq!(names(&gate.0), vec!["b", "e"]);
    let later = states(&[(1, LoadState::Loaded), (2, LoadState::Loaded)]);
    let fired = post_loading(&mut gate, &later);
    assert_eq!(names(&fired), vec!["b", "e"]);
    assert_eq!(gate.len(), 0);
    assert!(post_loading(&mut gate, &later).is_empty());
}

#[test]
fn neighbours_that_are_ready_are_all_released_in_one_poll() {
    let mut gate: LoadingAssets<&'static str> = LoadingAssets::new();
    gate.push(bundle(vec![1], "a"));
    gate.push(bundle(vec![1], "b"));
    gate.push(bundle(vec![1], "c"));
    let fired = post_loading(&mut gate, &states(&[(1, LoadState::Loaded)]));
    assert_eq!(names(&fired), vec!["a", "b", "c"]);
    assert_eq!(gate.len(), 0);
}

#[test]
fn an_empty_gate_releases_nothing() {
    let mut gate: LoadingAssets<&'static str> = LoadingAssets::new();
    assert_eq!(gate.len(), 0);
    assert!(post_loading(&mut gate, &states(&[(1, LoadState::Loaded)])).is_empty());
    assert_eq!(gate.len(), 0);
}

#[test]
fn a_bundle_pushed_later_waits_behind() {
    let mut gate: LoadingAssets<&'static str> = LoadingAssets::new();
    gate.push(bundle(vec![1], "first"));
    assert!(post_loading(&mut gate, &states(&[])).is_empty());
    gate.push(bundle(vec![2], "second"));
    assert_eq!(gate.len(), 2);
    assert_eq!(names(&gate.0), vec!["first", "second"]);
    let fired = post_loading(&mut gate, &states(&[(2, LoadState::Loaded)]));
    assert_eq!(names(&fired), vec!["second"]);
    assert_eq!(names(&gate.0), vec!["first"]);
}

#[test]
fn all_handles_loaded_wants_every_handle_loaded() {
    let poll = states(&[
        (1, LoadState::Loaded),
        (2, LoadState::Pending),
        (3, LoadState::Failed),
        (4, LoadState::Loaded),
    ]);
    assert!(all_handles_loaded(&Vec::new(), &poll));
    assert!(all_handles_loaded(&vec![1], &poll));
    assert!(all_handles_loaded(&vec![1, 4, 1], &poll));
    assert!(!all_handles_loaded(&vec![2], &poll));
    assert!(!all_handles_loaded(&vec![3], &poll));
    assert!(!all_handles_loaded(&vec![5], &poll));
    assert!(!all_handles_loaded(&vec![1, 4, 2], &poll));
    assert!(!all_handles_loaded(&vec![3, 1, 4], &poll));
}

#[test]
fn a_default_gate_is_empty() {
    let mut gate: LoadingAssets<&'static str> = LoadingAssets::default();
    assert_eq!(gate.len(), 0);
    assert_eq!(gate, LoadingAssets::new());
    assert!(post_loading(&mut gate, &states(&[])).is_empty());
}

#[test]
fn bundles_with_the_same_resources_are_released_together() {
    let mut gate: LoadingAssets<&'static str> = LoadingAssets::new();
    gate.push(bundle(vec![1, 2], "twin"));
    gate.push(bundle(vec![3], "other"));
    gate.push(bundle(vec![1, 2], "twin"));
    let fired = post_loading(
        &mut gate,
        &states(&[(1, LoadState::Loaded), (2, LoadState::Loaded), (3, LoadState::Failed)]),
    );
    assert_eq!(names(&fired), vec!["twin", "twin"]);
    assert_eq!(names(&gate.0), vec!["other"]);
}
