use seqdiagsvg::plan::{actor_index_of, plan_diagram};
use seqdiagsvg::{parse_document, resolve_actors};

#[test]
fn message_activation_pairs_with_deactivation() {
    let doc = parse_document("A->+B: x\nA->-B: y").unwrap();
    let actors = resolve_actors(&doc);
    let plan = plan_diagram(&doc, &actors);
    assert_eq!(plan.activations.len(), 1);
    let bar = plan.activations[0];
    assert_eq!((bar.actor, bar.start, bar.end, bar.nesting), (1, 0, Some(1), 0));
}

#[test]
fn modifier_applies_to_the_target() {
    // `-` on a reply deactivates its target, not its sender.
    let doc = parse_document("A->+B: x\nB-->-A: y").unwrap();
    let actors = resolve_actors(&doc);
    let plan = plan_diagram(&doc, &actors);
    assert_eq!(plan.activations.len(), 1);
    let bar = plan.activations[0];
    assert_eq!((bar.actor, bar.start, bar.end, bar.nesting), (1, 0, None, 0));
}

#[test]
fn nested_activations_and_bottom() {
    let doc = parse_document("activate A\nactivate A\ndeactivate A\nB->A: hi").unwrap();
    let actors = resolve_actors(&doc);
    let plan = plan_diagram(&doc, &actors);
    assert_eq!(plan.activations.len(), 2);
    let inner = plan.activations[0];
    assert_eq!((inner.actor, inner.start, inner.end, inner.nesting), (0, 1, Some(2), 1));
    let outer = plan.activations[1];
    assert_eq!((outer.actor, outer.start, outer.end, outer.nesting), (0, 0, None, 0));
}

#[test]
fn destroy_ends_open_activations_newest_first() {
    let doc = parse_document("activate A\nactivate A\ndestroy A\ndestroy A").unwrap();
    let actors = resolve_actors(&doc);
    let plan = plan_diagram(&doc, &actors);
    let bars: Vec<_> = plan.activations.iter().map(|b| (b.start, b.end, b.nesting)).collect();
    assert_eq!(bars, vec![(1, Some(2), 1), (0, Some(2), 0)]);
    assert_eq!(plan.destroyed_at, vec![Some(2)]);
}

#[test]
fn frames_close_inner_first() {
    let doc = parse_document("alt a\nA->B: x\nopt\nelse b\nend\nelse c\nend").unwrap();
    let actors = resolve_actors(&doc);
    let plan = plan_diagram(&doc, &actors);
    assert_eq!(plan.frames.len(), 2);
    let f0 = &plan.frames[0];
    assert_eq!((f0.open, f0.close, f0.depth, f0.elses.clone()), (2, 4, 1, vec![3]));
    let f1 = &plan.frames[1];
    assert_eq!((f1.open, f1.close, f1.depth, f1.elses.clone()), (0, 6, 0, vec![5]));
}

#[test]
fn unclosed_frames_and_stray_ends_are_dropped() {
    let doc = parse_document("end\nalt\nelse\nloop\nend").unwrap();
    let actors = resolve_actors(&doc);
    let plan = plan_diagram(&doc, &actors);
    assert_eq!(plan.frames.len(), 1);
    assert_eq!((plan.frames[0].open, plan.frames[0].close, plan.frames[0].depth), (3, 4, 1));
}

#[test]
fn actor_lookup_by_reference_or_display() {
    let doc = parse_document("participant User as U\nU->S: hi").unwrap();
    let actors = resolve_actors(&doc);
    assert_eq!(actor_index_of(&actors, &"U".to_string()), Some(0));
    assert_eq!(actor_index_of(&actors, &"User".to_string()), Some(0));
    assert_eq!(actor_index_of(&actors, &"S".to_string()), Some(1));
    assert_eq!(actor_index_of(&actors, &"X".to_string()), None);
}

#[test]
fn frames_open_before_each_statement() {
    let doc = parse_document("alt a\nA->B: x\nelse b\nloop c\nend\nend\nend\nelse d").unwrap();
    let actors = resolve_actors(&doc);
    let plan = plan_diagram(&doc, &actors);
    assert_eq!(plan.frames_open_before, vec![0, 1, 1, 1, 2, 1, 0, 0]);
    assert_eq!(plan.frames.len(), 2);
    assert_eq!((plan.frames[0].open, plan.frames[0].close, plan.frames[0].depth), (3, 4, 1));
    assert_eq!((plan.frames[1].open, plan.frames[1].close, plan.frames[1].depth), (0, 5, 0));
    assert_eq!(plan.frames[1].elses, vec![2]);
}
