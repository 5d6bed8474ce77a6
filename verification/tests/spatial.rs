use mmo_net::quadtree::QuadTree;
use mmo_net::spatial::{
    parse_position_update, set_difference, shard_set, PlayerTracker, TAG_POSITION_UPDATE,
};

fn leaf(region: usize, shard: u32) -> QuadTree {
    QuadTree { region, depth: 1, max_depth: 1, children: None, shard_id: Some(shard) }
}

/// Root in region 4, four leaves in regions 0..4 with shards 0..4.
fn world() -> QuadTree {
    QuadTree {
        region: 4,
        depth: 0,
        max_depth: 1,
        children: Some(vec![leaf(0, 0), leaf(1, 1), leaf(2, 2), leaf(3, 3)]),
        shard_id: None,
    }
}

fn inside(regions: &[usize]) -> Vec<bool> {
    (0..5).map(|r| regions.contains(&r)).collect()
}

#[test]
fn shard_for_finds_leaf() {
    let t = world();
    assert_eq!(t.shard_for(&inside(&[4, 2])), Some(2));
    assert_eq!(t.shard_for(&inside(&[4, 1, 3])), Some(1));
    assert_eq!(t.shard_for(&inside(&[4])), None);
    assert_eq!(t.shard_for(&inside(&[1, 2])), None);
    assert_eq!(t.shard_for(&[]), None);
    assert_eq!(leaf(0, 7).shard_for(&[true]), Some(7));
}

#[test]
fn shards_near_lists_current_then_others() {
    let t = world();
    let mut probes = vec![inside(&[4, 0])];
    probes.push(inside(&[4, 1])); // right
    probes.push(inside(&[4, 0])); // left
    probes.push(inside(&[4, 2])); // up
    probes.push(inside(&[])); // down, off the world
    probes.push(inside(&[4, 3])); // up-right
    probes.push(inside(&[4, 1])); // down-right
    probes.push(inside(&[4, 0])); // up-left
    probes.push(inside(&[4, 0])); // down-left
    assert_eq!(t.shards_near(&probes), vec![0, 1, 2, 3]);
}

#[test]
fn shards_near_lists_each_shard_once() {
    // the position (495, 250) with margin 10 in the four-quadrant world
    let t = world();
    let probes = vec![
        inside(&[4, 0]), // (495, 250)
        inside(&[4, 1]), // right
        inside(&[4, 0]), // left
        inside(&[4, 0]), // up
        inside(&[4, 0]), // down
        inside(&[4, 1]), // up-right
        inside(&[4, 1]), // down-right
        inside(&[4, 0]), // up-left
        inside(&[4, 0]), // down-left
    ];
    assert_eq!(t.shards_near(&probes), vec![0, 1]);
}

#[test]
fn shards_near_outside_world_is_empty() {
    let t = world();
    let mut probes = vec![inside(&[])];
    for _ in 0..8 {
        probes.push(inside(&[4, 1]));
    }
    assert!(t.shards_near(&probes).is_empty());
}

#[test]
fn parse_position_update_reads_fields() {
    let mut d = vec![TAG_POSITION_UPDATE];
    d.extend_from_slice(&7u32.to_le_bytes());
    d.extend_from_slice(&12.5f32.to_le_bytes());
    d.extend_from_slice(&(-3.0f32).to_le_bytes());
    let u = parse_position_update(&d).unwrap();
    assert_eq!(u.client_id, 7);
    assert_eq!(f32::from_bits(u.pos.x), 12.5);
    assert_eq!(f32::from_bits(u.pos.y), -3.0);
    assert!(parse_position_update(&d[..12]).is_none());
    d[0] = 0x11;
    assert!(parse_position_update(&d).is_none());
}

fn sorted(mut v: Vec<u32>) -> Vec<u32> {
    v.sort();
    v
}

#[test]
fn position_updates_track_authority_and_subscriptions() {
    let mut t = PlayerTracker::new();
    let c = t.on_position_update(5, Some(0), &vec![0, 1, 1]);
    assert_eq!(c.authority_change, None);
    assert_eq!(sorted(c.subscribe), vec![0, 1]);
    assert!(c.unsubscribe.is_empty());

    let c = t.on_position_update(5, Some(1), &vec![1, 3]);
    assert_eq!(c.authority_change, Some((0, 1)));
    assert_eq!(sorted(c.subscribe), vec![3]);
    assert_eq!(sorted(c.unsubscribe), vec![0]);

    // outside every shard: authority stays, subscriptions drop
    let c = t.on_position_update(5, None, &vec![]);
    assert_eq!(c.authority_change, None);
    assert!(c.subscribe.is_empty());
    assert_eq!(sorted(c.unsubscribe), vec![1, 3]);
    assert_eq!(t.players.get(&5).unwrap().current_authority, 1);
}

#[test]
fn new_player_outside_world_starts_on_shard_zero() {
    let mut t = PlayerTracker::new();
    let c = t.on_position_update(9, None, &vec![]);
    assert_eq!(c.authority_change, None);
    assert_eq!(t.players.get(&9).unwrap().current_authority, 0);
    let c = t.on_position_update(9, Some(2), &vec![2]);
    assert_eq!(c.authority_change, Some((0, 2)));
    assert_eq!(t.players.len(), 1);
}

#[test]
fn shard_sets_and_their_difference() {
    let a = shard_set(&vec![3, 1, 3, 2]);
    let b = shard_set(&vec![2, 5]);
    assert_eq!(a.len(), 3);
    assert_eq!(sorted(set_difference(&a, &b)), vec![1, 3]);
    assert_eq!(sorted(set_difference(&b, &a)), vec![5]);
    assert!(set_difference(&a, &a).is_empty());
}

#[test]
fn subscriptions_alternate_over_a_run() {
    let mut t = PlayerTracker::new();
    let runs: [Vec<u32>; 4] = [vec![1], vec![1, 2], vec![2], vec![1, 2]];
    let mut net: i32 = 0;
    for wanted in runs.iter() {
        let c = t.on_position_update(4, Some(wanted[0]), wanted);
        net += c.subscribe.iter().filter(|&&s| s == 1).count() as i32;
        net -= c.unsubscribe.iter().filter(|&&s| s == 1).count() as i32;
        assert!(net == 0 || net == 1);
        assert_eq!(net == 1, wanted.contains(&1));
        assert_eq!(t.players.get(&4).unwrap().active_subscriptions.contains(&1), wanted.contains(&1));
    }
}
