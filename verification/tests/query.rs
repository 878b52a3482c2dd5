use mini_ecs::access::Access;
use mini_ecs::entity::{ComponentType, Entity, ResourceType};
use mini_ecs::world::World;

const A: ComponentType = ComponentType(0);
const B: ComponentType = ComponentType(1);
const M: ComponentType = ComponentType(2);

fn access(reads: Vec<ComponentType>, writes: Vec<ComponentType>, filters: Vec<ComponentType>) -> Access {
    Access { reads, writes, filters, resource_reads: vec![], resource_writes: vec![] }
}

fn populated() -> (World<u32>, Vec<Entity>) {
    let mut world: World<u32> = World::new();
    let e0 = world.spawn(vec![(A, 0), (M, 0)]);
    let e1 = world.spawn(vec![(A, 1)]);
    let e2 = world.spawn(vec![(B, 2), (M, 0)]);
    let e3 = world.spawn(vec![(A, 3), (B, 3), (M, 0)]);
    (world, vec![e0, e1, e2, e3])
}

#[test]
fn a_query_selects_the_entities_with_every_requested_type_in_creation_order() {
    let (world, e) = populated();
    assert_eq!(world.select(&access(vec![A], vec![], vec![])), vec![e[0], e[1], e[3]]);
    assert_eq!(world.select(&access(vec![A], vec![], vec![M])), vec![e[0], e[3]]);
    assert_eq!(world.select(&access(vec![A], vec![B], vec![])), vec![e[3]]);
    assert_eq!(world.select(&access(vec![], vec![], vec![])), e);
}

#[test]
fn a_query_without_matches_yields_an_empty_sequence() {
    let (world, _) = populated();
    assert_eq!(world.select(&access(vec![ComponentType(9)], vec![], vec![])), vec![]);
    let empty: World<u32> = World::new();
    assert_eq!(empty.select(&access(vec![], vec![], vec![])), vec![]);
}

#[test]
fn a_query_can_be_walked_step_by_step() {
    let (world, _) = populated();
    let q = access(vec![], vec![B], vec![]);
    assert_eq!(world.next_selected(&q, 0), Some(2));
    assert_eq!(world.next_selected(&q, 2), Some(2));
    assert_eq!(world.next_selected(&q, 3), Some(3));
    assert_eq!(world.next_selected(&q, 4), None);
    assert_eq!(world.next_selected(&q, 100), None);
}

#[test]
fn entities_marked_for_removal_are_selected_until_the_boundary() {
    let (mut world, e) = populated();
    world.despawn(e[0]);
    let q = access(vec![A], vec![], vec![]);
    assert_eq!(world.select(&q), vec![e[0], e[1], e[3]]);
    world.flush();
    assert_eq!(world.select(&q), vec![e[1], e[3]]);
}

#[test]
fn a_recycled_slot_is_selected_at_its_place_in_the_creation_order() {
    let (mut world, e) = populated();
    world.despawn(e[0]);
    world.flush();
    let late = world.spawn(vec![(A, 9)]);
    assert_eq!(late.index, 0);
    assert_eq!(world.select(&access(vec![A], vec![], vec![])), vec![e[1], e[3], late]);
}

#[test]
fn fetch_respects_the_grants() {
    let (mut world, e) = populated();
    let reader = access(vec![A], vec![], vec![M]);
    let writer = access(vec![], vec![A], vec![]);
    assert_eq!(world.fetch(&reader, e[0], A), Some(&0));
    assert_eq!(world.fetch(&reader, e[0], M), None);
    assert_eq!(world.fetch(&writer, e[1], A), Some(&1));
    assert_eq!(world.fetch(&reader, e[2], A), None);
    assert!(world.fetch_mut(&reader, e[0], A).is_none());
    *world.fetch_mut(&writer, e[1], A).unwrap() = 11;
    assert_eq!(world.get(e[1], A), Some(&11));
    assert!(world.fetch_mut(&writer, e[2], A).is_none());
    assert!(world.fetch_mut(&writer, e[3], B).is_none());
}

#[test]
fn signatures_conflict_when_they_intersect_with_a_write() {
    let read_a = access(vec![A], vec![], vec![]);
    let write_a = access(vec![], vec![A], vec![]);
    let write_b = access(vec![], vec![B], vec![]);
    let filter_a = access(vec![], vec![], vec![A]);
    assert!(!read_a.conflicts(&read_a));
    assert!(read_a.conflicts(&write_a));
    assert!(write_a.conflicts(&read_a));
    assert!(write_a.conflicts(&write_a));
    assert!(!write_a.conflicts(&write_b));
    assert!(!write_a.conflicts(&filter_a));
    assert!(write_a.writes_overlap(&write_a));
    assert!(!write_a.writes_overlap(&read_a));
    assert!(!write_a.writes_overlap(&write_b));
}

#[test]
fn resources_count_for_conflicts_too() {
    let t = ResourceType(0);
    let reads = Access { reads: vec![], writes: vec![], filters: vec![], resource_reads: vec![t], resource_writes: vec![] };
    let writes = Access { reads: vec![], writes: vec![], filters: vec![], resource_reads: vec![], resource_writes: vec![t] };
    let other = Access { reads: vec![], writes: vec![], filters: vec![], resource_reads: vec![], resource_writes: vec![ResourceType(1)] };
    assert!(!reads.conflicts(&reads));
    assert!(reads.conflicts(&writes));
    assert!(writes.conflicts(&writes));
    assert!(writes.writes_overlap(&writes));
    assert!(!writes.writes_overlap(&reads));
    assert!(!writes.conflicts(&other));
    assert!(writes.may_read_resource(t));
    assert!(writes.may_write_resource(t));
    assert!(reads.may_read_resource(t));
    assert!(!reads.may_write_resource(t));
    let copy = writes.duplicate();
    assert_eq!(copy.resource_writes, vec![t]);
}
