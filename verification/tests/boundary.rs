use pi_slideshow::api::{ApiResponse, config_command, control_command};
use pi_slideshow::canvas::{Canvas, Px};
use pi_slideshow::catalog::{
    Attachment, CouchImage, CouchTv, ImageMetadata, TvConfig, default_format,
    default_orientation, default_tv_config, first_attachment_name, images_for_tv,
    merged_tv_status_doc,
};
use pi_slideshow::messages::SlideshowCommand;
use pi_slideshow::remote::{
    command_topic, current_image_topic, error_topic, heartbeat_topic, is_command_topic,
    management_url, sanitize_tv_id, simple_command_from_action, status_topic,
};
use pi_slideshow::sink::{
    CHUNK_SIZE, DeviceError, DeviceSink, MAX_FRAMEBUFFER_SIZE, SinkMode, chunk_ranges,
};
use pi_slideshow::strutil::{ascii_lower, contains_str, parse_broker_url, parse_u16, str_eq, str_le};

#[test]
fn open_falls_back_to_file_when_device_fails() {
    // A device path that fails to open still yields a working sink, in
    // file-fallback mode, and a push hands over exactly the full buffer.
    let sink = DeviceSink::open(1920, 1080, false, None);
    assert_eq!(sink.mode, SinkMode::FileFallback);
    let buffer: Vec<u8> = (0..=255u8).collect();
    let written = sink.push_bytes(&buffer).unwrap();
    assert_eq!(written, buffer);
}

#[test]
fn open_prefers_nonempty_mapping() {
    let sink = DeviceSink::open(1920, 1080, true, Some(4096));
    assert_eq!(sink.mode, SinkMode::MemoryMapped);
    assert_eq!(sink.mapping_len, 4096);
    let sink = DeviceSink::open(1920, 1080, true, Some(0));
    assert_eq!(sink.mode, SinkMode::DirectWrite);
    let sink = DeviceSink::open(1920, 1080, true, None);
    assert_eq!(sink.mode, SinkMode::DirectWrite);
}

#[test]
fn push_clamps_to_mapping_length() {
    let sink = DeviceSink {
        mode: SinkMode::MemoryMapped,
        mapping_len: 3,
        width: 2,
        height: 2,
        max_buffer_size: MAX_FRAMEBUFFER_SIZE,
    };
    let written = sink.push_bytes(&vec![9, 8, 7, 6, 5]).unwrap();
    assert_eq!(written, vec![9, 8, 7]);
}

#[test]
fn push_rejects_oversized_buffers() {
    let sink = DeviceSink::open(1920, 1080, false, None);
    let buffer = vec![0u8; MAX_FRAMEBUFFER_SIZE + 1];
    match sink.push_bytes(&buffer) {
        Err(DeviceError::Oversized { size, max }) => {
            assert_eq!(size, MAX_FRAMEBUFFER_SIZE + 1);
            assert_eq!(max, MAX_FRAMEBUFFER_SIZE);
        }
        other => panic!("expected an oversized error, got {:?}", other),
    }
}

#[test]
fn bgra_buffer_swaps_channels() {
    let sink = DeviceSink::open(2, 1, false, None);
    let canvas = Canvas {
        width: 2,
        height: 1,
        data: vec![1, 2, 3, 4, 5, 6, 7, 8],
    };
    let out = sink.to_bgra_buffer(&canvas);
    assert_eq!(out, vec![3, 2, 1, 4, 7, 6, 5, 8]);
}

#[test]
fn bgra_buffer_truncates_at_capacity() {
    let sink = DeviceSink {
        mode: SinkMode::FileFallback,
        mapping_len: 0,
        width: 2,
        height: 2,
        max_buffer_size: 8,
    };
    let canvas = Canvas {
        width: 2,
        height: 2,
        data: vec![0; 16],
    };
    let out = sink.to_bgra_buffer(&canvas);
    assert_eq!(out.len(), 8);
}

#[test]
fn bgra_buffer_pads_uncovered_raster_with_black() {
    // a canvas smaller than the raster: covered pixels are swapped, the
    // rest of the raster is opaque black
    let sink = DeviceSink::open(2, 2, false, None);
    let canvas = Canvas { width: 1, height: 1, data: vec![10, 20, 30, 40] };
    let out = sink.to_bgra_buffer(&canvas);
    assert_eq!(
        out,
        vec![30, 20, 10, 40, 0, 0, 0, 255, 0, 0, 0, 255, 0, 0, 0, 255]
    );
}

#[test]
fn chunks_tile_the_buffer() {
    assert!(chunk_ranges(0).is_empty());
    let r = chunk_ranges(10_000);
    assert_eq!(r, vec![(0, 4096), (4096, 8192), (8192, 10_000)]);
    let r = chunk_ranges(CHUNK_SIZE);
    assert_eq!(r, vec![(0, 4096)]);
}

#[test]
fn action_words_map_to_commands() {
    assert!(matches!(simple_command_from_action("play"), Some(SlideshowCommand::Play)));
    assert!(matches!(simple_command_from_action("pause"), Some(SlideshowCommand::Pause)));
    assert!(matches!(simple_command_from_action("next"), Some(SlideshowCommand::Next)));
    assert!(matches!(
        simple_command_from_action("previous"),
        Some(SlideshowCommand::Previous)
    ));
    assert!(matches!(simple_command_from_action("reboot"), Some(SlideshowCommand::Reboot)));
    assert!(matches!(
        simple_command_from_action("shutdown"),
        Some(SlideshowCommand::Shutdown)
    ));
    assert!(simple_command_from_action("dance").is_none());
    assert!(simple_command_from_action("").is_none());
    assert!(control_command("play").is_some());
    assert!(control_command("update_images").is_none());
}

#[test]
fn config_request_carries_only_given_fields() {
    let cmd = config_command(Some(4000), None, Some("fade".to_string()), None);
    match cmd {
        SlideshowCommand::UpdateConfig { config } => {
            assert_eq!(config.display_duration, Some(4000));
            assert_eq!(config.transition_duration, None);
            assert_eq!(config.transition_effect, Some("fade".to_string()));
            assert_eq!(config.orientation, None);
        }
        other => panic!("expected a config update, got {:?}", other),
    }
}

#[test]
fn api_response_success_wraps_payload() {
    let r: ApiResponse<u32> = ApiResponse::success(7, "done");
    assert!(r.success);
    assert_eq!(r.data, Some(7));
    assert_eq!(r.message, "done");
}

#[test]
fn topics_name_the_display() {
    assert_eq!(command_topic("tv1"), "signage/tv/tv1/command");
    assert_eq!(status_topic("tv1"), "signage/tv/tv1/status");
    assert_eq!(error_topic("tv1"), "signage/tv/tv1/error");
    assert_eq!(heartbeat_topic("tv1"), "signage/tv/tv1/heartbeat");
    assert_eq!(current_image_topic("tv1"), "signage/tv/tv1/image/current");
    assert!(is_command_topic("signage/tv/tv1/command", "tv1"));
    assert!(!is_command_topic("signage/tv/tv2/command", "tv1"));
}

#[test]
fn broker_urls_parse_host_and_port() {
    assert_eq!(
        parse_broker_url("mqtt://192.168.1.215:1883"),
        ("192.168.1.215".to_string(), 1883)
    );
    assert_eq!(parse_broker_url("mqtt://broker.local:8883"), ("broker.local".to_string(), 8883));
    assert_eq!(parse_broker_url("mqtt://hostonly"), ("hostonly".to_string(), 1883));
    assert_eq!(parse_broker_url("10.0.0.5"), ("10.0.0.5".to_string(), 1883));
    // an unparsable or out-of-range port falls back to the default
    assert_eq!(parse_broker_url("mqtt://h:70000"), ("h".to_string(), 1883));
    assert_eq!(parse_broker_url("mqtt://h:12x"), ("h".to_string(), 1883));
}

#[test]
fn parse_u16_is_exact() {
    assert_eq!(parse_u16("1883"), Some(1883));
    assert_eq!(parse_u16("0"), Some(0));
    assert_eq!(parse_u16("65535"), Some(65535));
    assert_eq!(parse_u16("65536"), None);
    assert_eq!(parse_u16(""), None);
    assert_eq!(parse_u16("12a"), None);
}

#[test]
fn string_helpers_behave() {
    assert!(str_eq("abc", "abc"));
    assert!(!str_eq("abc", "abd"));
    assert_eq!(ascii_lower("JPeG-9"), "jpeg-9");
    assert!(contains_str("http://localhost:5984", "localhost"));
    assert!(!contains_str("http://db:5984", "localhost"));
}

#[test]
fn tv_ids_are_sanitized() {
    assert_eq!(sanitize_tv_id(" my host \n"), Some("tv_my_host".to_string()));
    assert_eq!(sanitize_tv_id("pi4"), Some("tv_pi4".to_string()));
    assert_eq!(sanitize_tv_id("localhost"), None);
    assert_eq!(sanitize_tv_id("   "), None);
    assert_eq!(sanitize_tv_id(""), None);
}

#[test]
fn management_address_follows_catalog_host() {
    assert_eq!(
        management_url("http://localhost:5984"),
        Some("http://localhost:3000".to_string())
    );
    assert_eq!(
        management_url("http://127.0.0.1:5984"),
        Some("http://localhost:3000".to_string())
    );
    // resolved through the address parser
    assert_eq!(
        management_url("http://db.example.com:5984"),
        Some("http://db.example.com:3000".to_string())
    );
    assert_eq!(management_url("not a url"), None);
}

fn image_doc(id: &str, format: &str, name: &str, tvs: Vec<&str>) -> CouchImage {
    CouchImage {
        id: id.to_string(),
        rev: None,
        doc_type: "image".to_string(),
        original_name: name.to_string(),
        size: 1000,
        metadata: ImageMetadata { width: 10, height: 10, format: format.to_string() },
        assigned_tvs: tvs.into_iter().map(|s| s.to_string()).collect(),
        created_at: "now".to_string(),
        attachments: None,
    }
}

#[test]
fn catalog_assignment_filters_and_orders() {
    let docs = vec![
        image_doc("a", "PNG", "a.orig", vec!["tv_1", "tv_2"]),
        image_doc("b", "JPG", "b.orig", vec!["tv_2"]),
        image_doc("c", "", "photo.JPEG", vec!["tv_1"]),
        CouchImage { doc_type: "tv".to_string(), ..image_doc("d", "png", "d", vec!["tv_1"]) },
        image_doc("e", "", "noext", vec!["tv_1"]),
    ];
    let list = images_for_tv(&docs, "tv_1");
    assert_eq!(list.len(), 3);
    assert_eq!(list[0].id, "a");
    assert_eq!(list[0].extension, Some(".png".to_string()));
    assert_eq!(list[0].path, "a.png");
    assert_eq!(list[0].order, 0);
    assert_eq!(list[1].id, "c");
    assert_eq!(list[1].extension, Some(".JPEG".to_string()));
    assert_eq!(list[1].order, 1);
    assert_eq!(list[2].id, "e");
    assert_eq!(list[2].extension, Some(".png".to_string()));
    assert_eq!(list[2].order, 2);
    assert!(images_for_tv(&docs, "tv_9").is_empty());
}

#[test]
fn first_attachment_is_reported() {
    let mut doc = image_doc("a", "png", "a", vec![]);
    assert_eq!(first_attachment_name(&doc), None);
    doc.attachments = Some(vec![
        (
            "img.png".to_string(),
            Attachment { content_type: "image/png".to_string(), length: 9, digest: None },
        ),
    ]);
    assert_eq!(first_attachment_name(&doc), Some("img.png".to_string()));
}

#[test]
fn status_doc_updates_or_creates() {
    let existing = CouchTv {
        id: "tv_1".to_string(),
        rev: Some("3-x".to_string()),
        doc_type: "tv".to_string(),
        name: "Lobby".to_string(),
        location: "Hall".to_string(),
        ip_address: "10.0.0.2".to_string(),
        status: "paused".to_string(),
        last_heartbeat: None,
        config: TvConfig {
            transition_effect: "wipe".to_string(),
            display_duration: 8000,
            orientation: "portrait".to_string(),
        },
        current_image: Some("old".to_string()),
    };
    let updated = merged_tv_status_doc(
        Some(existing),
        "tv_1",
        "playing",
        Some("img9".to_string()),
        "ts".to_string(),
    );
    assert_eq!(updated.status, "playing");
    assert_eq!(updated.last_heartbeat, Some("ts".to_string()));
    assert_eq!(updated.current_image, Some("img9".to_string()));
    assert_eq!(updated.rev, Some("3-x".to_string()));
    assert_eq!(updated.config.display_duration, 8000);

    let fresh = merged_tv_status_doc(None, "tv_2", "stopped", None, "ts2".to_string());
    assert_eq!(fresh.id, "tv_2");
    assert_eq!(fresh.doc_type, "tv");
    assert_eq!(fresh.status, "stopped");
    assert_eq!(fresh.config.transition_effect, "fade");
    assert_eq!(fresh.config.display_duration, 5000);
    assert_eq!(fresh.config.orientation, "landscape");
    assert_eq!(fresh.current_image, None);
}

#[test]
fn catalog_defaults() {
    assert_eq!(default_format(), "png");
    assert_eq!(default_orientation(), "landscape");
    let c = default_tv_config();
    assert_eq!(c.transition_effect, "fade");
    assert_eq!(c.display_duration, 5000);
    assert_eq!(c.orientation, "landscape");
}

#[test]
fn canvas_px_roundtrip() {
    let mut c = Canvas { width: 2, height: 2, data: vec![0; 16] };
    let p = Px { r: 9, g: 8, b: 7, a: 6 };
    c.set_px(1, 1, p);
    assert_eq!(c.get_px(1, 1), p);
    assert_eq!(c.get_px(0, 0), Px { r: 0, g: 0, b: 0, a: 0 });
}

#[test]
fn lexicographic_order_of_strings() {
    assert!(str_le("abc", "abd"));
    assert!(str_le("abc", "abc"));
    assert!(str_le("ab", "abc"));
    assert!(!str_le("abd", "abc"));
    assert!(!str_le("b", "ab"));
    assert!(str_le("", "a"));
}
