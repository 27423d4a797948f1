use hierarchy_children::{Children, Entity, EntityVec};

fn e(index: u32) -> Entity {
    Entity::new(index, 1)
}

fn ev(index: u32, generation: u32) -> Entity {
    Entity::new(index, generation)
}

fn index_key(entity: Entity) -> u64 {
    entity.index as u64
}

#[test]
fn entity_key_combines_index_and_generation() {
    assert_eq!(ev(1, 2).key(), 0x1_0000_0002);
    assert_eq!(ev(0, 0).key(), 0);
    assert_eq!(ev(0, 7).key(), 7);
}

#[test]
fn construction_yields_given_order() {
    let c = Children::from_entities(&[e(10), e(20), e(30)]);
    assert_eq!(c.iter_active(), vec![e(10), e(20), e(30)]);
    assert_eq!(c.all_entities(), vec![e(10), e(20), e(30)]);
    assert_eq!(c.len(), 3);
    assert_eq!(c.get(0), e(10));
    assert_eq!(c.get(2), e(30));
    assert!(c.active_entities().is_none());
    assert!(!c.is_zero_active());
}

#[test]
fn construction_keeps_duplicates() {
    let c = Children::from_entities(&[e(5), e(5), e(7), e(5)]);
    assert_eq!(c.all_entities(), vec![e(5), e(5), e(7), e(5)]);
    assert_eq!(c.len(), 4);
}

#[test]
fn construction_from_empty_slice() {
    let c = Children::from_entities(&[]);
    assert_eq!(c.len(), 0);
    assert!(c.iter_active().is_empty());
}

#[test]
fn default_container_is_empty() {
    let c = Children::default();
    assert_eq!(c.len(), 0);
    assert!(c.all_entities().is_empty());
    assert!(c.active_entities().is_none());
    assert!(!c.is_zero_active());
}

#[test]
fn swap_exchanges_positions() {
    let mut c = Children::from_entities(&[e(1), e(2), e(3), e(4)]);
    c.swap(1, 3);
    assert_eq!(c.all_entities(), vec![e(1), e(4), e(3), e(2)]);
}

#[test]
fn swap_same_index_is_noop_on_order() {
    let mut c = Children::from_entities(&[e(1), e(2)]);
    c.swap(1, 1);
    assert_eq!(c.all_entities(), vec![e(1), e(2)]);
}

#[test]
fn double_swap_restores_order() {
    let original = vec![e(9), e(8), e(7), e(6)];
    let mut c = Children::from_entities(&original);
    c.swap(0, 3);
    c.swap(0, 3);
    assert_eq!(c.all_entities(), original);
}

#[test]
fn swap_clears_active_list() {
    let mut c = Children::from_entities(&[e(1), e(2), e(3)]);
    c.set_active(&[e(2)]);
    assert!(c.active_entities().is_some());
    c.swap(0, 1);
    assert!(c.active_entities().is_none());
    assert_eq!(c.iter_active(), vec![e(2), e(1), e(3)]);
}

#[test]
fn zero_active_lifecycle() {
    let mut c = Children::from_entities(&[e(1), e(2)]);
    assert!(!c.is_zero_active());
    c.set_zero_active();
    assert!(c.is_zero_active());
    assert_eq!(c.iter_active(), vec![]);
    c.add_active(e(2));
    assert!(!c.is_zero_active());
    // the full list is untouched throughout
    assert_eq!(c.all_entities(), vec![e(1), e(2)]);
}

#[test]
fn active_round_trip_preserves_append_order() {
    let mut c = Children::from_entities(&[e(1), e(2), e(3)]);
    c.set_zero_active();
    c.add_active(e(3));
    c.add_active(e(1));
    c.add_active(e(3));
    assert_eq!(c.iter_active(), vec![e(3), e(1), e(3)]);
    assert_eq!(c.len(), 3);
    assert_eq!(c.get(1), e(1));
    assert_eq!(c.all_entities(), vec![e(1), e(2), e(3)]);
}

#[test]
fn add_active_creates_absent_list() {
    let mut c = Children::from_entities(&[e(1)]);
    c.add_active(e(5));
    assert_eq!(c.active_entities(), Some(vec![e(5)]));
}

#[test]
fn set_active_replaces_contents() {
    let mut c = Children::from_entities(&[e(1), e(2)]);
    c.add_active(e(9));
    c.set_active(&[e(2), e(1)]);
    assert_eq!(c.iter_active(), vec![e(2), e(1)]);
    c.set_active(&[]);
    assert!(c.is_zero_active());
}

#[test]
fn swap_active_exchanges_buffers() {
    let mut c = Children::from_entities(&[e(1), e(2)]);
    c.set_active(&[e(7), e(8)]);
    let mut buffer = EntityVec::from_entities(&[e(3), e(4)]);
    c.swap_active(&mut buffer);
    assert_eq!(c.iter_active(), vec![e(3), e(4)]);
    assert_eq!(buffer.entities(), vec![e(7), e(8)]);
}

#[test]
fn swap_active_with_absent_list_returns_empty() {
    let mut c = Children::from_entities(&[e(1), e(2)]);
    let mut buffer = EntityVec::new();
    buffer.push(e(6));
    assert_eq!(buffer.len(), 1);
    c.swap_active(&mut buffer);
    assert_eq!(c.iter_active(), vec![e(6)]);
    assert_eq!(buffer.entities(), vec![]);
}

#[test]
fn fallback_view_equals_full_list() {
    let c = Children::from_entities(&[e(4), e(2), e(9)]);
    assert_eq!(c.iter_active(), c.all_entities());
    let mut d = Children::from_entities(&[e(4), e(2)]);
    d.set_active(&[e(9)]);
    assert_ne!(d.iter_active(), d.all_entities());
}

#[test]
fn map_entities_rewrites_full_list_in_order() {
    let mut c = Children::from_entities(&[e(1), e(2), e(3)]);
    c.map_entities(|x: Entity| Entity::new(x.index + 100, x.generation));
    assert_eq!(c.all_entities(), vec![e(101), e(102), e(103)]);
}

#[test]
fn map_entities_leaves_active_untouched() {
    let mut c = Children::from_entities(&[e(1), e(2)]);
    c.set_active(&[e(2)]);
    c.map_entities(|x: Entity| Entity::new(x.index + 10, x.generation));
    assert_eq!(c.all_entities(), vec![e(11), e(12)]);
    assert_eq!(c.active_entities(), Some(vec![e(2)]));
}

#[test]
fn map_entities_keeps_duplicates() {
    let mut c = Children::from_entities(&[e(1), e(1), e(2)]);
    c.map_entities(|x: Entity| Entity::new(x.index + 1, x.generation));
    assert_eq!(c.all_entities(), vec![e(2), e(2), e(3)]);
}

#[test]
fn visit_entities_mut_rewrites_active_when_present() {
    let mut c = Children::from_entities(&[e(1), e(2)]);
    c.set_active(&[e(2), e(1)]);
    c.visit_entities_mut(|x: Entity| Entity::new(x.index * 2, x.generation));
    assert_eq!(c.active_entities(), Some(vec![e(4), e(2)]));
    assert_eq!(c.all_entities(), vec![e(1), e(2)]);
}

#[test]
fn visit_entities_mut_rewrites_full_list_when_active_absent() {
    let mut c = Children::from_entities(&[e(1), e(2)]);
    c.visit_entities_mut(|x: Entity| Entity::new(x.index * 2, x.generation));
    assert_eq!(c.all_entities(), vec![e(2), e(4)]);
    assert!(c.active_entities().is_none());
}

#[test]
fn scenario_swap_then_set_active_then_sort() {
    let a = e(1);
    let b = e(2);
    let c_ent = e(3);
    let mut c = Children::from_entities(&[a, b, c_ent]);
    c.swap(0, 2);
    assert_eq!(c.all_entities(), vec![c_ent, b, a]);
    c.set_active(&[b]);
    assert_eq!(c.iter_active(), vec![b]);
    c.sort_by_key(|x: Entity| x.key());
    assert_eq!(c.all_entities(), vec![a, b, c_ent]);
    assert_eq!(c.active_entities(), Some(vec![b]));
}

#[test]
fn stable_sort_preserves_equal_key_order() {
    let p = ev(2, 1);
    let q = ev(1, 1);
    let r = ev(2, 2);
    let s = ev(1, 2);
    let mut c = Children::from_entities(&[p, q, r, s]);
    c.sort_by_key(index_key);
    assert_eq!(c.all_entities(), vec![q, s, p, r]);
}

#[test]
fn sort_by_matches_stable_key_sort() {
    let p = ev(2, 1);
    let q = ev(1, 1);
    let r = ev(2, 2);
    let mut c = Children::from_entities(&[p, q, r]);
    c.sort_by(index_key);
    assert_eq!(c.all_entities(), vec![q, p, r]);
}

#[test]
fn sort_by_cached_key_matches_stable_key_sort() {
    let p = ev(3, 1);
    let q = ev(1, 1);
    let r = ev(3, 2);
    let s = ev(2, 1);
    let mut c = Children::from_entities(&[p, q, r, s]);
    c.sort_by_cached_key(index_key);
    assert_eq!(c.all_entities(), vec![q, s, p, r]);
}

#[test]
fn unstable_sort_orders_by_key_and_keeps_contents() {
    let mut c = Children::from_entities(&[ev(5, 1), ev(3, 1), ev(4, 1), ev(3, 2)]);
    c.sort_unstable_by_key(index_key);
    let sorted = c.all_entities();
    assert_eq!(sorted.len(), 4);
    for w in sorted.windows(2) {
        assert!(w[0].index <= w[1].index);
    }
    let mut contents: Vec<(u32, u32)> = sorted.iter().map(|x| (x.index, x.generation)).collect();
    contents.sort();
    assert_eq!(contents, vec![(3, 1), (3, 2), (4, 1), (5, 1)]);
}

#[test]
fn unstable_sort_with_distinct_keys_is_determined() {
    let mut c = Children::from_entities(&[ev(3, 9), ev(1, 4), ev(2, 6)]);
    c.sort_unstable_by(|x: Entity| x.key());
    assert_eq!(c.all_entities(), vec![ev(1, 4), ev(2, 6), ev(3, 9)]);
}

#[test]
fn sorting_applies_to_both_lists_independently() {
    let mut c = Children::from_entities(&[e(3), e(1), e(2)]);
    c.set_active(&[e(9), e(2), e(5)]);
    c.sort_by_key(index_key);
    assert_eq!(c.all_entities(), vec![e(1), e(2), e(3)]);
    assert_eq!(c.active_entities(), Some(vec![e(2), e(5), e(9)]));
}

#[test]
fn sorting_without_active_sorts_full_list_only() {
    let mut c = Children::from_entities(&[e(2), e(1)]);
    c.sort_unstable_by_key(index_key);
    assert_eq!(c.all_entities(), vec![e(1), e(2)]);
    assert!(c.active_entities().is_none());
}

#[test]
fn lists_grow_past_the_inline_capacity() {
    // the backing storage keeps eight handles inline; twelve forces a spill
    let handles: Vec<Entity> = (0..12).rev().map(e).collect();
    let mut c = Children::from_entities(&handles);
    assert_eq!(c.len(), 12);
    assert_eq!(c.all_entities(), handles);
    c.set_zero_active();
    for h in &handles {
        c.add_active(*h);
    }
    assert_eq!(c.iter_active(), handles);
    c.sort_by_key(|x: Entity| x.key());
    let expected: Vec<Entity> = (0..12).map(e).collect();
    assert_eq!(c.all_entities(), expected);
    assert_eq!(c.active_entities(), Some(expected));
}

#[test]
fn sorting_empty_lists_is_fine() {
    let mut c = Children::default();
    c.sort_by_key(index_key);
    assert!(c.all_entities().is_empty());
    c.set_zero_active();
    c.sort_by(index_key);
    assert!(c.is_zero_active());
}
