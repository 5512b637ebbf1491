use scratch_dir::readonly::{clear_readonly_recursive, node_plan, NodeMeta, NodePlan};
use scratch_dir::removal::{
    after_clearing, after_second_delete, remove_dir_robust, DeleteOutcome, RobustStep,
};

/// Takes a removal through its steps.
fn remove(
    first: DeleteOutcome<&'static str>,
    cleared: bool,
    second: DeleteOutcome<&'static str>,
) -> Result<(), &'static str> {
    match remove_dir_robust(first) {
        RobustStep::Done(result) => result,
        RobustStep::DeleteAgain => panic!("nothing was cleared yet"),
        RobustStep::ClearReadonly(error) => match after_clearing(error, cleared) {
            RobustStep::Done(result) => result,
            RobustStep::ClearReadonly(_) => panic!("one recovery pass only"),
            RobustStep::DeleteAgain => after_second_delete(second),
        },
    }
}

fn unused() -> DeleteOutcome<&'static str> {
    DeleteOutcome::Failed("not reached")
}

#[test]
fn remove_dir_robust_tolerates_a_missing_directory() {
    assert!(remove(DeleteOutcome::Missing, false, unused()).is_ok());
    assert!(remove(DeleteOutcome::Failed("first"), true, DeleteOutcome::Missing).is_ok());
}

#[test]
fn remove_dir_robust_deletes_read_only_children() {
    assert!(remove(DeleteOutcome::Failed("read-only"), true, DeleteOutcome::Removed).is_ok());
}

#[test]
fn a_first_deletion_that_succeeds_is_the_end() {
    assert_eq!(remove(DeleteOutcome::Removed, false, unused()), Ok(()));
}

#[test]
fn the_error_reported_is_that_of_the_last_deletion() {
    assert_eq!(remove(DeleteOutcome::Failed("first"), false, DeleteOutcome::Removed), Err("first"));
    assert_eq!(
        remove(DeleteOutcome::Failed("first"), true, DeleteOutcome::Failed("second")),
        Err("second")
    );
}

#[test]
fn symlinks_are_not_followed() {
    for readonly in [false, true] {
        for is_dir in [false, true] {
            for blocks in [false, true] {
                assert_eq!(
                    node_plan(NodeMeta { readonly, is_dir, is_symlink: true }, blocks),
                    NodePlan { clear: false, descend: false }
                );
            }
        }
    }
}

#[test]
fn only_what_blocks_deletion_is_cleared() {
    for is_dir in [false, true] {
        let readonly = NodeMeta { readonly: true, is_dir, is_symlink: false };
        let writable = NodeMeta { readonly: false, is_dir, is_symlink: false };
        assert_eq!(node_plan(readonly, true), NodePlan { clear: true, descend: is_dir });
        assert_eq!(node_plan(readonly, false), NodePlan { clear: false, descend: is_dir });
        assert_eq!(node_plan(writable, true), NodePlan { clear: false, descend: is_dir });
        assert_eq!(node_plan(writable, false), NodePlan { clear: false, descend: is_dir });
    }
}

#[test]
fn the_pass_visits_parents_before_children_in_order() {
    let mut walk = clear_readonly_recursive("root");
    let mut visited = Vec::new();
    while let Some(node) = walk.next() {
        visited.push(node);
        match node {
            "root" => walk.found(vec!["a", "b"]),
            "a" => walk.found(vec!["a1", "a2"]),
            _ => walk.found(vec![]),
        }
    }
    assert_eq!(visited, vec!["root", "a", "a1", "a2", "b"]);
    assert!(walk.succeeded());
}

#[test]
fn only_an_unreadable_root_fails_the_pass() {
    let mut walk = clear_readonly_recursive(0);
    assert_eq!(walk.next(), Some(0));
    walk.found(vec![1, 2]);
    assert_eq!(walk.next(), Some(1));
    walk.unreadable();
    assert_eq!(walk.next(), Some(2));
    walk.unreadable();
    assert_eq!(walk.next(), None);
    assert!(walk.succeeded());

    let mut walk = clear_readonly_recursive(0);
    assert_eq!(walk.next(), Some(0));
    walk.unreadable();
    assert_eq!(walk.next(), None);
    assert!(!walk.succeeded());
}
