use mini_ecs::access::Access;
use mini_ecs::context::Context;
use mini_ecs::entity::{ComponentType, Entity, ResourceType};

const A: ComponentType = ComponentType(0);
const B: ComponentType = ComponentType(1);
const TIME: ResourceType = ResourceType(0);
const SCORE: ResourceType = ResourceType(1);

fn nothing() -> Access {
    Access::new()
}

fn populated() -> (Context<u32, u64>, Entity, Entity) {
    let mut ctx: Context<u32, u64> = Context::new();
    ctx.spawn(vec![(A, 1), (B, 2)]);
    ctx.spawn(vec![(A, 3)]);
    ctx.settle();
    let e0 = ctx.world().entity_at(0).unwrap();
    let e1 = ctx.world().entity_at(1).unwrap();
    ctx.insert_resource(TIME, 10);
    ctx.insert_resource(SCORE, 20);
    (ctx, e0, e1)
}

#[test]
fn a_new_context_is_empty_and_grants_nothing() {
    let ctx: Context<u32, u64> = Context::new();
    assert_eq!(ctx.world().len(), 0);
    assert_eq!(ctx.pending(), 0);
    assert_eq!(ctx.delta(), 0);
    assert!(!ctx.resources().contains(TIME));
    assert!(!ctx.granted().may_read(A));
    assert!(!ctx.granted().may_write_resource(TIME));
}

#[test]
fn components_are_read_only_under_a_grant() {
    let (mut ctx, e0, e1) = populated();
    assert_eq!(ctx.read(e0, A), None);
    let mut access = nothing();
    access.reads.push(A);
    ctx.grant(access);
    assert_eq!(ctx.read(e0, A), Some(&1));
    assert_eq!(ctx.read(e1, A), Some(&3));
    assert_eq!(ctx.read(e0, B), None);
    assert!(ctx.has(e0, B));
    assert!(!ctx.has(e1, B));
    assert!(ctx.write(e0, A).is_none());
}

#[test]
fn components_are_written_only_under_a_write_grant() {
    let (mut ctx, e0, e1) = populated();
    let mut access = nothing();
    access.writes.push(A);
    ctx.grant(access);
    *ctx.write(e0, A).unwrap() = 100;
    assert_eq!(ctx.read(e0, A), Some(&100));
    assert_eq!(ctx.world().get(e1, A), Some(&3));
    assert!(ctx.write(e0, B).is_none());
    assert!(ctx.write(e1, B).is_none());
    assert_eq!(ctx.world().get(e0, B), Some(&2));
}

#[test]
fn resources_follow_the_grants_too() {
    let (mut ctx, _, _) = populated();
    assert_eq!(ctx.resource(TIME), None);
    assert!(ctx.resource_mut(TIME).is_none());
    let mut access = nothing();
    access.resource_reads.push(TIME);
    access.resource_writes.push(SCORE);
    ctx.grant(access);
    assert_eq!(ctx.resource(TIME), Some(&10));
    assert!(ctx.resource_mut(TIME).is_none());
    assert_eq!(ctx.resource(SCORE), Some(&20));
    *ctx.resource_mut(SCORE).unwrap() += 1;
    assert_eq!(ctx.resource(SCORE), Some(&21));
    assert_eq!(ctx.resource(ResourceType(9)), None);
    assert_eq!(ctx.remove_resource(SCORE), Some(21));
    assert!(ctx.resource_mut(SCORE).is_none());
    assert_eq!(ctx.insert_resource(TIME, 11), Some(10));
}

#[test]
fn the_granted_query_selects_in_creation_order() {
    let (mut ctx, e0, e1) = populated();
    let mut access = nothing();
    access.reads.push(A);
    ctx.grant(access);
    assert_eq!(ctx.select(), vec![e0, e1]);
    assert_eq!(ctx.next_selected(0), Some((0, e0)));
    assert_eq!(ctx.next_selected(1), Some((1, e1)));
    assert_eq!(ctx.next_selected(2), None);
    let mut narrow = nothing();
    narrow.reads.push(A);
    narrow.filters.push(B);
    ctx.grant(narrow);
    assert_eq!(ctx.select(), vec![e0]);
    assert_eq!(ctx.next_selected(1), None);
}

#[test]
fn structural_changes_wait_for_the_boundary() {
    let (mut ctx, e0, e1) = populated();
    ctx.despawn(e0);
    ctx.attach(e1, B, 7);
    ctx.detach(e1, A);
    ctx.spawn(vec![(B, 9)]);
    assert_eq!(ctx.pending(), 4);
    assert!(ctx.world().contains(e0));
    assert!(!ctx.world().has(e1, B));
    assert!(ctx.world().has(e1, A));
    assert_eq!(ctx.world().len(), 2);
    ctx.settle();
    assert_eq!(ctx.pending(), 0);
    assert!(!ctx.world().contains(e0));
    assert_eq!(ctx.world().get(e1, B), Some(&7));
    assert!(!ctx.world().has(e1, A));
    assert_eq!(ctx.world().len(), 2);
    let spawned = ctx.world().entity_at(1).unwrap();
    assert_eq!(spawned, Entity { index: 2, generation: 0 });
    assert_eq!(ctx.world().get(spawned, B), Some(&9));
}

#[test]
fn the_time_step_is_what_was_set() {
    let mut ctx: Context<u32, u64> = Context::new();
    ctx.set_delta(16_000_000);
    assert_eq!(ctx.delta(), 16_000_000);
}
