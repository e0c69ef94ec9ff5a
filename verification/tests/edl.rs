use field_assist::edl::{EditId, EditOp, Edl};

// Snapshots here are timeline lengths in frames.
#[test]
fn undo_redo_and_jump() {
    let mut edl: Edl<u64> = Edl::new(0);
    let a = 10u64;
    let b = 4u64;
    let id_a = edl.push(EditOp::Delete { start: 0, len: 1 }, a);
    let id_b = edl.push(EditOp::Paste { at: 0, len: 4 }, b);
    assert!(edl.can_undo());
    edl.undo();
    assert_eq!(edl.current_id(), id_a);
    edl.redo();
    assert_eq!(edl.current_id(), id_b);
    edl.jump_to(id_a);
    assert_eq!(edl.snapshot(), 10);
}

#[test]
fn new_edit_drops_redo_tail_and_ids_stay_fresh() {
    let mut edl: Edl<u64> = Edl::new(100);
    let first = edl.push(EditOp::Cut { start: 0, len: 10 }, 90);
    edl.push(EditOp::Cut { start: 0, len: 10 }, 80);
    assert_eq!(edl.undo(), Some(90));
    assert!(edl.can_redo());
    let third = edl.push(EditOp::Remove { start: 5, len: 5 }, 85);
    assert!(!edl.can_redo());
    assert_eq!(edl.len(), 3);
    assert_eq!(third, EditId(3));
    assert_eq!(first, EditId(1));
    assert_eq!(edl.ops_from_first_user(), vec![EditOp::Cut { start: 0, len: 10 }, EditOp::Remove { start: 5, len: 5 }]);
    assert_eq!(edl.undo(), Some(90));
    assert_eq!(edl.undo(), Some(100));
    assert_eq!(edl.undo(), None);
    assert_eq!(edl.cursor(), 0);
    assert_eq!(edl.jump_to(EditId(2)), None);
    assert_eq!(edl.jump_to_index(2), Some(85));
    assert_eq!(edl.jump_to_index(3), None);
    assert_eq!(edl.current().op, EditOp::Remove { start: 5, len: 5 });
}

#[test]
fn map_and_replace_snapshots() {
    let mut edl: Edl<u64> = Edl::new(1);
    edl.push(EditOp::Trim { start: 0, len: 2 }, 2);
    edl.map_snapshots(|s: &u64| s.wrapping_mul(10));
    assert_eq!(edl.edits().iter().map(|e| e.snapshot).collect::<Vec<_>>(), vec![10, 20]);
    edl.replace_init_snapshot(7);
    assert_eq!(edl.edits()[0].snapshot, 7);
    assert_eq!(edl.edits()[0].op, EditOp::Init);
    assert_eq!(edl.snapshot(), 20);
}
