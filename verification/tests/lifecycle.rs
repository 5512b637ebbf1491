use std::path::PathBuf;

use scratch_dir::launch::{create, Creation, DirOutcome, LaunchScratch, Settled, CREATE_TRIES};
use scratch_dir::names::pid_from_dir_name;
use scratch_dir::registry::{registry, Registry};
use scratch_dir::removal::{Removal, RemovalStep, REMOVE_RETRIES, REMOVE_RETRY_BASE_MS};
use scratch_dir::sweep::sweep_own_orphans;

const PID: u32 = 4242;

fn creation() -> Creation {
    let pending = create(None, PathBuf::from("/root"), PID).expect("isolation is on");
    assert_eq!(pending.root(), &PathBuf::from("/root"));
    pending.root_made(true).expect("the root is there")
}

fn launch(names: &mut Registry, name: &str) -> LaunchScratch {
    let claim = creation().claim_name(names, name.to_string()).expect("the name is free");
    match claim.settle(names, DirOutcome::Created) {
        Settled::Ready(launch) => launch,
        _ => panic!("a made directory makes a launch"),
    }
}

/// Drives a ladder: attempt `i` succeeds where `succeeds(i)`. Returns the
/// attempts, whether it gave up, and the waits.
fn drive(
    mut removal: Removal,
    names: &mut Registry,
    succeeds: impl Fn(u32) -> bool,
) -> (u32, bool, Vec<u64>) {
    let mut waits = Vec::new();
    let mut attempt = 0;
    loop {
        attempt += 1;
        match removal.step(succeeds(attempt)) {
            RemovalStep::Unregister { name, gave_up, attempts } => {
                assert_eq!(attempts, attempt);
                names.unregister(&name);
                return (attempts, gave_up, waits);
            }
            RemovalStep::Wait { millis, removal: next } => {
                waits.push(millis);
                removal = next;
            }
        }
    }
}

#[test]
fn no_creation_without_isolation_or_root() {
    assert!(create(Some("0"), PathBuf::from("/root"), PID).is_none());
    assert!(create(Some("off"), PathBuf::from("/root"), PID).is_some());
    let pending = create(Some("1"), PathBuf::from("/root"), PID).expect("isolation is on");
    assert!(pending.root_made(false).is_none());
}

#[test]
fn a_claim_is_registered_before_its_directory_is_made() {
    let mut names = registry();
    let claim = creation().claim(&mut names).expect("all names are free");
    let path = claim.path().clone();
    let name = path.file_name().expect("a name").to_string_lossy().into_owned();
    assert_eq!(path, PathBuf::from("/root").join(&name));
    assert_eq!(pid_from_dir_name(&name), Some(PID));
    assert!(names.is_registered(&name));
}

#[test]
fn a_made_directory_makes_a_launch() {
    let mut names = registry();
    let launch = launch(&mut names, "4242-00000001");
    assert_eq!(launch.path(), &PathBuf::from("/root/4242-00000001"));
    assert!(names.is_registered("4242-00000001"));
}

#[test]
fn a_directory_that_cannot_be_made_leaves_no_claim() {
    for (outcome, retry) in [(DirOutcome::AlreadyExists, true), (DirOutcome::Failed, false)] {
        let mut names = registry();
        names.register("4242-other000");
        let mut creation = creation();
        let claim = creation
            .claim_name(&mut names, "4242-00000001".to_string())
            .expect("the name is free");
        match claim.settle(&mut names, outcome) {
            Settled::Retry => assert!(retry),
            Settled::Abandoned => assert!(!retry),
            Settled::Ready(_) => panic!("no directory was made"),
        }
        assert!(!names.is_registered("4242-00000001"));
        assert!(names.is_registered("4242-other000"));
    }
}

#[test]
fn a_creation_has_eight_tries() {
    assert_eq!(CREATE_TRIES, 8);
    let mut names = registry();
    names.register("taken");
    let mut creation = creation();
    for _ in 0..7 {
        assert!(creation.claim_name(&mut names, "taken".to_string()).is_none());
    }
    assert!(creation.claim_name(&mut names, "free".to_string()).is_some());
    assert!(creation.claim_name(&mut names, "free too".to_string()).is_none());
    assert!(!names.is_registered("free too"));
    assert!(creation.claim(&mut names).is_none());
}

fn names_of(names: &[&str]) -> Vec<String> {
    names.iter().map(|name| name.to_string()).collect()
}

#[test]
fn the_first_free_candidate_is_claimed() {
    let mut names = registry();
    names.register("4242-00000001");
    names.register("4242-00000002");
    let mut creation = creation();
    let candidates =
        names_of(&["4242-00000002", "4242-00000001", "4242-00000003", "4242-00000004"]);
    let claim = creation.claim_first(&mut names, candidates).expect("the third is free");
    assert_eq!(claim.path(), &PathBuf::from("/root/4242-00000003"));
    assert!(names.is_registered("4242-00000003"));
    assert!(!names.is_registered("4242-00000004"));
    // Three tries were used.
    assert_eq!(creation.draw().len(), 5);
}

#[test]
fn candidates_that_are_all_taken_leave_the_registry_alone() {
    let mut names = registry();
    names.register("taken");
    let mut creation = creation();
    assert!(creation.claim_first(&mut names, names_of(&["taken", "taken"])).is_none());
    assert_eq!(creation.draw().len(), 6);
    assert!(creation.claim_first(&mut names, Vec::new()).is_none());
    assert_eq!(creation.draw().len(), 6);
    // The seventh candidate is free, but only six are looked at.
    let candidates =
        names_of(&["taken", "taken", "taken", "taken", "taken", "taken", "free"]);
    assert!(creation.claim_first(&mut names, candidates).is_none());
    assert!(!names.is_registered("free"));
    assert!(creation.draw().is_empty());
    assert!(creation.claim_first(&mut names, names_of(&["free"])).is_none());
}

#[test]
fn draws_are_names_of_the_owner_one_for_each_try() {
    let drawn = creation().draw();
    assert_eq!(drawn.len(), 8);
    for (i, name) in drawn.iter().enumerate() {
        assert_eq!(pid_from_dir_name(name), Some(PID));
        assert!(!drawn[..i].contains(name));
    }
}

#[test]
fn live_launches_have_different_directories_under_the_root() {
    let mut names = registry();
    let mut paths: Vec<PathBuf> = Vec::new();
    for _ in 0..5 {
        let claim = creation().claim(&mut names).expect("a name is free");
        let Settled::Ready(launch) = claim.settle(&mut names, DirOutcome::Created) else {
            panic!("a made directory makes a launch");
        };
        assert_eq!(launch.path().parent(), Some(PathBuf::from("/root").as_path()));
        assert!(!paths.contains(launch.path()));
        paths.push(launch.path().clone());
    }
}

#[test]
fn an_existing_directory_costs_one_try_each() {
    let mut names = registry();
    let mut creation = creation();
    let mut claims = 0;
    while let Some(claim) = creation.claim(&mut names) {
        claims += 1;
        assert!(matches!(claim.settle(&mut names, DirOutcome::AlreadyExists), Settled::Retry));
    }
    assert_eq!(claims, 8);
}

/// A handle destroyed without `release` must not leave its name registered
/// forever: the sweep skips every registered name, so the directory would become
/// invisible to the one thing that would have reclaimed it.
#[test]
fn dropping_without_release_still_hands_the_name_back() {
    let mut names = registry();
    let handback = launch(&mut names, "4242-00000001").hand_back(false);
    assert!(handback.unreleased);
    assert_eq!(handback.removal.path(), &PathBuf::from("/root/4242-00000001"));
    assert_eq!(drive(handback.removal, &mut names, |_| true), (1, false, vec![]));
    assert!(!names.is_registered("4242-00000001"), "a dropped name must not stay claimed");
}

/// `release` is the same cleanup, just without the "somebody forgot" report.
#[test]
fn release_removes_the_directory_and_the_registration() {
    let mut names = registry();
    let handback = launch(&mut names, "4242-00000001").release().hand_back(false);
    assert!(!handback.unreleased);
    assert_eq!(handback.removal.path(), &PathBuf::from("/root/4242-00000001"));
    assert_eq!(drive(handback.removal, &mut names, |_| true), (1, false, vec![]));
    assert!(!names.is_registered("4242-00000001"));
}

#[test]
fn without_a_runtime_the_name_is_handed_back_after_one_failure() {
    let mut names = registry();
    let handback = launch(&mut names, "4242-00000001").hand_back(false);
    assert_eq!(drive(handback.removal, &mut names, |_| false), (1, true, vec![]));
    assert!(!names.is_registered("4242-00000001"));
}

#[test]
fn the_ladder_doubles_its_waits_and_gives_up_after_about_a_minute() {
    assert_eq!(REMOVE_RETRIES, 5);
    assert_eq!(REMOVE_RETRY_BASE_MS, 2_000);
    let mut names = registry();
    let handback = launch(&mut names, "4242-00000001").release().hand_back(true);
    let (attempts, gave_up, waits) = drive(handback.removal, &mut names, |_| false);
    assert_eq!(attempts, 6);
    assert!(gave_up);
    assert_eq!(waits, vec![2_000, 4_000, 8_000, 16_000, 32_000]);
    assert_eq!(waits.iter().sum::<u64>(), 62_000);
    assert!(!names.is_registered("4242-00000001"));
}

#[test]
fn the_ladder_ends_with_the_first_success() {
    for last in 1..=6 {
        let mut names = registry();
        let handback = launch(&mut names, "4242-00000001").hand_back(true);
        let (attempts, gave_up, waits) = drive(handback.removal, &mut names, |i| i == last);
        assert_eq!(attempts, last);
        assert!(!gave_up);
        assert_eq!(waits.len() as u32, last - 1);
        assert!(!names.is_registered("4242-00000001"));
    }
}

/// A directory is spared from before it is made until its name is handed back,
/// and reclaimed if it is still there after that.
#[test]
fn the_own_sweep_spares_a_launch_for_as_long_as_it_lives() {
    let mut names = registry();
    let entries = vec!["4242-00000001".to_string()];
    let claim = creation()
        .claim_name(&mut names, "4242-00000001".to_string())
        .expect("the name is free");
    assert!(sweep_own_orphans(&names, &entries, PID).is_empty());
    let Settled::Ready(launch) = claim.settle(&mut names, DirOutcome::Created) else {
        panic!("a made directory makes a launch");
    };
    assert!(sweep_own_orphans(&names, &entries, PID).is_empty());
    let removal = launch.hand_back(true).removal;
    let RemovalStep::Wait { removal, .. } = removal.step(false) else {
        panic!("a first failure is retried");
    };
    assert!(sweep_own_orphans(&names, &entries, PID).is_empty());
    let (_, gave_up, _) = drive_from(removal, &mut names);
    assert!(gave_up);
    assert_eq!(sweep_own_orphans(&names, &entries, PID), vec![0]);
}

/// Lets every further attempt fail.
fn drive_from(mut removal: Removal, names: &mut Registry) -> (u32, bool, u32) {
    let mut further = 0;
    loop {
        further += 1;
        match removal.step(false) {
            RemovalStep::Unregister { name, gave_up, attempts } => {
                names.unregister(&name);
                return (attempts, gave_up, further);
            }
            RemovalStep::Wait { removal: next, .. } => removal = next,
        }
    }
}
