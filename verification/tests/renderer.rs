use chora::model::{upload_mask, ALL_BUFFERS_CURRENT};
use chora::render_queue::{
    index_count, next_submission_slot, pick_surface_format, DrawCommand, QueueAction, RenderQueue, MAX_FRAMES_IN_FLIGHT,
};

#[test]
fn hello_world() {
    println!("Hello, World!");
}

/// Tests the mesh grouping of the render queue
///
/// This test verifies that:
/// 1. Single meshes are added as independent renders
/// 2. Multiple identical meshes are grouped into instanced renders
/// 3. Different meshes remain as separate render groups
/// 4. Mesh collection tracking works correctly
#[test]
fn independent_instanced_grouping_test() {
    let mut queue = RenderQueue::new();

    // Two handles on the same triangle share their vertex data (key 1); a
    // third triangle has vertex data of its own (key 2).
    let shared_key = 1u64;
    let (i_triangle0, i_triangle1) = (10u64, 11u64);
    let (s_key, s_triangle2) = (2u64, 20u64);

    // Test single mesh (should be independent)
    assert_eq!(queue.add(shared_key, i_triangle0, false), QueueAction::DrawIndependently);
    assert_eq!(queue.independent_count(), 1, "Single mesh should be independent");
    assert_eq!(queue.instanced_count(), 0, "No instanced renders should exist");
    assert_eq!(queue.group_count(), 1, "Should have one mesh collection");
    assert_eq!(queue.group_len(shared_key), 1, "Collection should have one mesh");

    // Test identical mesh (should become instanced)
    assert!(queue.accepts(shared_key));
    assert_eq!(queue.add(shared_key, i_triangle1, true), QueueAction::BecomeInstanced { older: i_triangle0 });
    assert_eq!(queue.independent_count(), 0, "No independent renders should remain");
    assert_eq!(queue.instanced_count(), 1, "Should have one instanced render");
    assert_eq!(queue.group_count(), 1, "Should have one mesh collection");
    assert_eq!(queue.group_len(shared_key), 2, "Collection should have two meshes");
    assert_eq!(queue.instance_count(shared_key), Some(2), "Instance count should be 2");

    // Test different mesh (should be independent)
    assert_eq!(queue.add(s_key, s_triangle2, false), QueueAction::DrawIndependently);
    assert_eq!(queue.independent_count(), 1, "Should have one independent render");
    assert_eq!(queue.instanced_count(), 1, "Should have one instanced render");
    assert_eq!(queue.group_count(), 2, "Should have two mesh collections");
    assert_eq!(queue.instance_count(shared_key), Some(2), "Instance count should remain 2");
}

#[test]
fn members_are_listed_newest_first() {
    let mut queue = RenderQueue::new();
    queue.add(7, 1, false);
    queue.add(7, 2, true);
    queue.add(7, 3, true);
    assert_eq!(queue.members(7), vec![3, 2, 1]);
    assert_eq!(queue.members(8), Vec::<u64>::new());
    assert_eq!(queue.instance_count(7), Some(3));
}

#[test]
fn a_group_whose_older_mesh_is_gone_counts_one_instance() {
    let mut queue = RenderQueue::new();
    queue.add(5, 1, false);
    assert_eq!(queue.add(5, 2, false), QueueAction::BecomeInstanced { older: 1 });
    assert_eq!(queue.instance_count(5), Some(1));
}

#[test]
fn joining_and_leaving_an_instanced_group_restores_its_count() {
    let mut queue = RenderQueue::new();
    queue.add(3, 1, false);
    queue.add(3, 2, true);
    assert_eq!(queue.add(3, 3, true), QueueAction::JoinInstanced { created: false });
    assert_eq!(queue.instance_count(3), Some(3));
    queue.remove(3);
    assert_eq!(queue.instance_count(3), Some(2));
}

#[test]
fn an_instanced_group_that_loses_every_instance_draws_on_its_own_again() {
    let mut queue = RenderQueue::new();
    queue.add(4, 1, false);
    queue.add(4, 2, true);
    queue.remove(4);
    queue.remove(4);
    assert_eq!(queue.instance_count(4), None);
    assert!(queue.is_independent(4));
    // The group keeps its meshes, so the next one joins a new instanced render.
    assert_eq!(queue.add(4, 3, true), QueueAction::JoinInstanced { created: true });
    assert_eq!(queue.instance_count(4), Some(1));
    assert!(queue.is_independent(4));
    assert_eq!(queue.draw_plan(), vec![DrawCommand::Instanced { key: 4, instances: 1 }]);
}

#[test]
fn a_group_whose_only_mesh_left_refuses_another() {
    let mut queue = RenderQueue::new();
    queue.add(9, 1, false);
    queue.remove(9);
    assert!(!queue.is_independent(9));
    assert!(!queue.accepts(9));
    assert!(queue.accepts(10));
}

#[test]
fn draw_plan_follows_the_order_groups_appeared_in() {
    let mut queue = RenderQueue::new();
    queue.add(30, 1, false);
    queue.add(10, 2, false);
    queue.add(10, 3, true);
    queue.add(20, 4, false);
    assert_eq!(
        queue.draw_plan(),
        vec![
            DrawCommand::Independent { key: 30 },
            DrawCommand::Instanced { key: 10, instances: 2 },
            DrawCommand::Independent { key: 20 },
        ]
    );
    assert_eq!(queue.keys(), &vec![30, 10, 20]);
}

#[test]
fn submission_slots_go_round() {
    let first = next_submission_slot(usize::MAX);
    assert_eq!(first, 0);
    let second = next_submission_slot(first);
    let third = next_submission_slot(second);
    assert_eq!((second, third), (1, 2));
    assert_eq!(next_submission_slot(third), 0);
    assert_eq!(MAX_FRAMES_IN_FLIGHT, 3);
}

#[test]
fn a_matrix_is_uploaded_once_per_buffer_until_it_changes() {
    // Right after the model is made every buffer is current.
    assert_eq!(upload_mask(false, ALL_BUFFERS_CURRENT, 0), None);
    // A change uploads and leaves only that buffer current.
    let mask = upload_mask(true, ALL_BUFFERS_CURRENT, 1).unwrap();
    assert_eq!(mask, 0b010);
    assert_eq!(upload_mask(false, mask, 1), None);
    let mask = upload_mask(false, mask, 2).unwrap();
    assert_eq!(mask, 0b110);
    let mask = upload_mask(false, mask, 0).unwrap();
    assert_eq!(mask, 0b111);
    assert_eq!(upload_mask(false, mask, 0), None);
    assert_eq!(upload_mask(false, mask, 2), None);
}

#[test]
fn index_buffers_count_four_bytes_per_index() {
    assert_eq!(index_count(12), 3);
    assert_eq!(index_count(14), 3);
    assert_eq!(index_count(0), 0);
    assert_eq!(index_count((1u64 << 32) + 8), 2);
}

#[test]
fn surfaces_prefer_an_srgb_format() {
    assert_eq!(pick_surface_format(&vec![false, true, true]), Some(1));
    assert_eq!(pick_surface_format(&vec![false, false]), Some(0));
    assert_eq!(pick_surface_format(&vec![]), None);
}

#[test]
fn groups_without_removals_follow_their_mesh_counts() {
    let mut queue = RenderQueue::new();
    let adds = [(1u64, 10u64), (2, 20), (1, 11), (3, 30), (1, 12), (2, 21)];
    for (key, mesh) in adds {
        assert!(queue.accepts(key));
        queue.add(key, mesh, true);
    }
    // Key 1: three meshes, one instanced draw of three instances.
    assert_eq!(queue.members(1), vec![12, 11, 10]);
    assert!(!queue.is_independent(1));
    assert_eq!(queue.instance_count(1), Some(3));
    // Key 2: two meshes, instanced with two instances.
    assert_eq!(queue.members(2), vec![21, 20]);
    assert_eq!(queue.instance_count(2), Some(2));
    // Key 3: one mesh, drawn on its own.
    assert_eq!(queue.members(3), vec![30]);
    assert!(queue.is_independent(3));
    assert_eq!(queue.instance_count(3), None);
    assert_eq!(
        queue.draw_plan(),
        vec![
            DrawCommand::Instanced { key: 1, instances: 3 },
            DrawCommand::Instanced { key: 2, instances: 2 },
            DrawCommand::Independent { key: 3 },
        ]
    );
}

#[test]
fn frame_k_takes_slot_k_mod_frames_in_flight() {
    let mut slot = usize::MAX;
    for k in 0..10usize {
        slot = next_submission_slot(slot);
        assert_eq!(slot, k % MAX_FRAMES_IN_FLIGHT);
    }
}

#[test]
fn the_mask_tracks_buffers_uploaded_since_the_last_change() {
    let mut mask = ALL_BUFFERS_CURRENT;
    let mut uploaded: Vec<usize> = Vec::new();
    let steps = [(true, 2usize), (false, 0), (false, 2), (false, 1), (true, 0), (false, 1)];
    for (changed, buffer) in steps {
        let r = upload_mask(changed, mask, buffer);
        if changed {
            uploaded = vec![buffer];
        } else if !uploaded.contains(&buffer) {
            uploaded.push(buffer);
        }
        if let Some(m) = r {
            mask = m;
        }
        for b in 0..3usize {
            assert_eq!(mask & (1 << b) != 0, uploaded.contains(&b));
        }
    }
}
