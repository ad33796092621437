use pi_slideshow::messages::{ImageInfo, SlideshowCommand, SlideshowConfig};
use pi_slideshow::playback::{
    ControllerConfig, ImageManager, SlideshowController, SlideshowState, sort_by_order,
};

fn entry(id: &str, order: u32) -> ImageInfo {
    ImageInfo {
        id: id.to_string(),
        path: format!("{}.png", id),
        order,
        url: None,
        extension: Some(".png".to_string()),
    }
}

fn config() -> ControllerConfig {
    ControllerConfig {
        image_dir: ".".to_string(),
        display_duration: 5000,
        transition_duration: 1500,
        couchdb_url: "http://localhost:5984".to_string(),
        couchdb_username: None,
        couchdb_password: None,
        tv_id: "unit".to_string(),
        orientation: "landscape".to_string(),
        transition_effect: "fade".to_string(),
    }
}

#[test]
fn controller_starts_stopped_and_empty() {
    let c = SlideshowController::new(config());
    assert_eq!(c.get_state(), SlideshowState::Stopped);
    assert_eq!(c.get_image_count(), 0);
    assert!(c.get_current_image_path().is_none());
}

#[test]
fn empty_playlist_forces_stopped() {
    let mut c = SlideshowController::new(config());
    c.update_images(vec![entry("a", 0)]);
    assert_eq!(c.get_state(), SlideshowState::Playing);
    c.update_images(vec![]);
    assert_eq!(c.get_state(), SlideshowState::Stopped);
    assert_eq!(c.get_image_count(), 0);
}

#[test]
fn first_nonempty_update_starts_playing() {
    let mut c = SlideshowController::new(config());
    assert_eq!(c.get_state(), SlideshowState::Stopped);
    c.update_images(vec![entry("a", 0), entry("b", 1)]);
    assert_eq!(c.get_state(), SlideshowState::Playing);
}

#[test]
fn previous_wraps_from_zero_to_last() {
    let mut c = SlideshowController::new(config());
    c.update_images(vec![entry("a", 0), entry("b", 1), entry("c", 2)]);
    assert_eq!(c.get_current_image_path(), Some("a.png".to_string()));
    c.advance_to_previous_image();
    assert_eq!(c.get_current_image_path(), Some("c.png".to_string()));
}

#[test]
fn next_wraps_from_last_to_zero() {
    let mut c = SlideshowController::new(config());
    c.update_images(vec![entry("a", 0), entry("b", 1), entry("c", 2)]);
    c.advance_to_next_image();
    c.advance_to_next_image();
    assert_eq!(c.get_current_image_path(), Some("c.png".to_string()));
    c.advance_to_next_image();
    assert_eq!(c.get_current_image_path(), Some("a.png".to_string()));
}

#[test]
fn auto_advance_after_display_duration() {
    // Playlist [A, B, C], display_duration 5 s, playing at index 0: after
    // 5 s with no commands the index moves to 1 and the emitted status
    // names B.
    let mut c = SlideshowController::new(config());
    c.update_images(vec![entry("A", 0), entry("B", 1), entry("C", 2)]);
    assert_eq!(c.get_state(), SlideshowState::Playing);
    assert!(!c.poll_advance(4999));
    assert_eq!(c.make_status(4, "t".to_string()).current_image, Some("A".to_string()));
    assert!(c.poll_advance(5000));
    let status = c.make_status(5, "t".to_string());
    assert_eq!(status.current_image, Some("B".to_string()));
    assert_eq!(status.current_index, 1);
    assert_eq!(status.status, "playing");
    assert_eq!(status.total_images, 3);
}

#[test]
fn pause_blocks_auto_advance() {
    let mut c = SlideshowController::new(config());
    c.update_images(vec![entry("a", 0), entry("b", 1)]);
    assert!(c.handle_command(SlideshowCommand::Pause) == false);
    assert_eq!(c.get_state(), SlideshowState::Paused);
    assert!(!c.should_advance_automatically(1_000_000));
    c.handle_command(SlideshowCommand::Play);
    assert_eq!(c.get_state(), SlideshowState::Playing);
    assert!(c.should_advance_automatically(5000));
}

#[test]
fn play_on_empty_playlist_stays_stopped() {
    let mut c = SlideshowController::new(config());
    c.handle_command(SlideshowCommand::Play);
    assert_eq!(c.get_state(), SlideshowState::Stopped);
}

#[test]
fn shutdown_stops_playback() {
    let mut c = SlideshowController::new(config());
    c.update_images(vec![entry("a", 0)]);
    let reboot = c.handle_command(SlideshowCommand::Shutdown);
    assert!(!reboot);
    assert_eq!(c.get_state(), SlideshowState::Stopped);
    assert_eq!(c.get_image_count(), 1);
}

#[test]
fn reboot_command_is_reported() {
    let mut c = SlideshowController::new(config());
    assert!(c.handle_command(SlideshowCommand::Reboot));
}

#[test]
fn nonempty_update_keeps_paused_state() {
    // only the two automatic edges change state: updating a non-empty
    // playlist while paused leaves it paused
    let mut c = SlideshowController::new(config());
    c.update_images(vec![entry("a", 0)]);
    c.handle_command(SlideshowCommand::Pause);
    c.update_images(vec![entry("b", 0), entry("c", 1)]);
    assert_eq!(c.get_state(), SlideshowState::Paused);
    // likewise a stopped non-empty playlist stays stopped
    c.handle_command(SlideshowCommand::Shutdown);
    c.update_images(vec![entry("d", 0)]);
    assert_eq!(c.get_state(), SlideshowState::Stopped);
    // only emptying and refilling restarts playback
    c.update_images(vec![]);
    c.update_images(vec![entry("e", 0)]);
    assert_eq!(c.get_state(), SlideshowState::Playing);
}

#[test]
fn update_images_sorts_by_order_and_clamps_index() {
    let mut c = SlideshowController::new(config());
    c.update_images(vec![entry("a", 0), entry("b", 1), entry("c", 2)]);
    c.advance_to_next_image();
    c.advance_to_next_image();
    assert_eq!(c.make_status(0, String::new()).current_index, 2);
    c.update_images(vec![entry("z", 9), entry("m", 3)]);
    let list = c.get_image_list();
    assert_eq!(list.len(), 2);
    assert_eq!(list[0].id, "m");
    assert_eq!(list[1].id, "z");
    // the index 2 no longer exists, so it clamps to 0
    assert_eq!(c.make_status(0, String::new()).current_index, 0);
}

#[test]
fn sort_by_order_is_stable_on_ties() {
    let sorted = sort_by_order(vec![
        entry("first", 2),
        entry("second", 1),
        entry("third", 2),
        entry("fourth", 1),
    ]);
    let ids: Vec<&str> = sorted.iter().map(|e| e.id.as_str()).collect();
    // equal orders keep their arrival order
    assert_eq!(ids, vec!["second", "fourth", "first", "third"]);
}

#[test]
fn sort_by_order_is_a_permutation() {
    let sorted = sort_by_order(vec![entry("x", 5), entry("y", 1), entry("z", 3)]);
    assert_eq!(sorted.len(), 3);
    assert_eq!(sorted[0].order, 1);
    assert_eq!(sorted[1].order, 3);
    assert_eq!(sorted[2].order, 5);
    assert_eq!(sorted[0].id, "y");
    assert_eq!(sorted[1].id, "z");
    assert_eq!(sorted[2].id, "x");
}

#[test]
fn update_config_applies_only_present_fields() {
    let mut c = SlideshowController::new(config());
    c.update_config(SlideshowConfig {
        transition_effect: None,
        display_duration: Some(9000),
        transition_duration: None,
        orientation: Some("portrait".to_string()),
    });
    assert_eq!(c.config.display_duration, 9000);
    assert_eq!(c.config.transition_duration, 1500);
    assert_eq!(c.get_orientation(), "portrait");
    assert_eq!(c.get_transition_effect(), "fade");
    assert_eq!(c.get_transition_duration(), 1500);
    assert_eq!(c.get_tv_id(), "unit");
}

#[test]
fn status_of_stopped_controller() {
    let c = SlideshowController::new(config());
    let s = c.make_status(42, "2024".to_string());
    assert_eq!(s.status, "stopped");
    assert_eq!(s.current_image, None);
    assert_eq!(s.total_images, 0);
    assert_eq!(s.current_index, 0);
    assert_eq!(s.uptime, 42);
    assert_eq!(s.timestamp, "2024");
}

#[test]
fn image_manager_keeps_paths_sorted() {
    let mut m = ImageManager::new();
    assert_eq!(m.images.len(), 0);
    assert_eq!(m.current_index, 0);
    assert_eq!(m.add_new_image("b.png".to_string()), Some(0));
    assert_eq!(m.add_new_image("a.png".to_string()), Some(0));
    assert_eq!(m.add_new_image("c.png".to_string()), Some(2));
    assert_eq!(m.add_new_image("b.png".to_string()), None);
    assert_eq!(
        m.images,
        vec!["a.png".to_string(), "b.png".to_string(), "c.png".to_string()]
    );
}

#[test]
fn image_manager_next_index_wraps() {
    let mut m = ImageManager::new();
    m.add_new_image("a".to_string());
    m.add_new_image("b".to_string());
    m.current_index = 1;
    assert_eq!(m.next_index(), 0);
}

#[test]
fn current_image_id_follows_index() {
    let mut c = SlideshowController::new(config());
    c.update_images(vec![entry("one", 0), entry("two", 1)]);
    assert_eq!(c.current_image_id(), Some("one".to_string()));
    c.advance_to_next_image();
    assert_eq!(c.current_image_id(), Some("two".to_string()));
}
