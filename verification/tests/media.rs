use bible_presenter::media::{
    classify_extension, default_header_enabled, default_media_fit_mode,
    default_reference_font_family, default_transition, default_verse_font_family,
    default_version_font, vbg_default_cover, vbg_default_true, CameraFeedData, CustomSlideData,
    DisplayItem, LiveState, MediaItemType, PresentationSlideData, SceneData, SongSlideData,
    TimerData,
};
use bible_presenter::media::sanitize_fit_mode;
use bible_presenter::remote::normalize_target;
use bible_presenter::store::Verse;

fn verse_item() -> DisplayItem {
    DisplayItem::Verse(Verse {
        book: "John".to_string(),
        chapter: 3,
        verse: 16,
        text: "For God so loved the world".to_string(),
        version: "KJV".to_string(),
    })
}

#[test]
fn verse_label() {
    assert_eq!(verse_item().to_label(), "John 3:16");
}

#[test]
fn slide_labels_are_one_based() {
    let p = DisplayItem::PresentationSlide(PresentationSlideData {
        presentation_id: "p1".to_string(),
        presentation_name: "Easter".to_string(),
        presentation_path: "/tmp/easter.pptx".to_string(),
        slide_index: 0,
        slide_count: 12,
    });
    assert_eq!(p.to_label(), "Easter – slide 1");
    let c = DisplayItem::CustomSlide(CustomSlideData {
        presentation_id: "c1".to_string(),
        presentation_name: "Announcements".to_string(),
        slide_index: 9,
        slide_count: 10,
        background_color: "#0a1628".to_string(),
        background_image: None,
    });
    assert_eq!(c.to_label(), "Announcements – slide 10");
}

#[test]
fn camera_label_fallbacks() {
    let full = DisplayItem::CameraFeed(CameraFeedData {
        device_id: "dev-1".to_string(),
        label: "Stage left".to_string(),
        lan: false,
        device_name: "Phone".to_string(),
    });
    assert_eq!(full.to_label(), "Stage left");
    let named = DisplayItem::CameraFeed(CameraFeedData {
        device_id: "dev-1".to_string(),
        label: "".to_string(),
        lan: true,
        device_name: "Phone".to_string(),
    });
    assert_eq!(named.to_label(), "Phone");
    let bare = DisplayItem::CameraFeed(CameraFeedData {
        device_id: "dev-1".to_string(),
        label: "".to_string(),
        lan: false,
        device_name: "".to_string(),
    });
    assert_eq!(bare.to_label(), "dev-1");
}

#[test]
fn scene_timer_and_song_labels() {
    let named = DisplayItem::Scene(SceneData { name: Some("Opening".to_string()) });
    assert_eq!(named.to_label(), "Opening");
    let unnamed = DisplayItem::Scene(SceneData { name: None });
    assert_eq!(unnamed.to_label(), "Scene");
    let labelled = DisplayItem::Timer(TimerData {
        timer_type: "countdown".to_string(),
        duration_secs: Some(300),
        label: Some("Offering".to_string()),
        started_at: None,
    });
    assert_eq!(labelled.to_label(), "Offering");
    let plain = DisplayItem::Timer(TimerData {
        timer_type: "clock".to_string(),
        duration_secs: None,
        label: None,
        started_at: None,
    });
    assert_eq!(plain.to_label(), "Timer: clock");
    let song = DisplayItem::Song(SongSlideData {
        song_id: "s1".to_string(),
        title: "Amazing Grace".to_string(),
        author: None,
        section_label: "Verse 1".to_string(),
        lines: vec!["Amazing grace, how sweet the sound".to_string()],
        slide_index: 0,
        total_slides: 4,
    });
    assert_eq!(song.to_label(), "Amazing Grace (Verse 1)");
}

#[test]
fn extension_classification() {
    assert_eq!(classify_extension("jpg"), Some(MediaItemType::Image));
    assert_eq!(classify_extension("webp"), Some(MediaItemType::Image));
    assert_eq!(classify_extension("svg"), Some(MediaItemType::Image));
    assert_eq!(classify_extension("mp4"), Some(MediaItemType::Video));
    assert_eq!(classify_extension("mkv"), Some(MediaItemType::Video));
    assert_eq!(classify_extension("txt"), None);
    assert_eq!(classify_extension(""), None);
    // The caller lower-cases extensions; an upper-case one is unsupported.
    assert_eq!(classify_extension("JPG"), None);
}

#[test]
fn defaults() {
    assert_eq!(default_media_fit_mode(), "contain");
    assert!(default_header_enabled());
    assert!(vbg_default_true());
    assert_eq!(vbg_default_cover(), "cover");
    assert_eq!(default_version_font(), "Arial, sans-serif");
    assert_eq!(default_transition(), "fade");
    assert_eq!(default_verse_font_family(), "Georgia, serif");
    assert_eq!(default_reference_font_family(), "Arial, sans-serif");
}

#[test]
fn fit_mode_sanitisation() {
    assert_eq!(sanitize_fit_mode(Some("cover")), "cover");
    assert_eq!(sanitize_fit_mode(Some("fill")), "fill");
    assert_eq!(sanitize_fit_mode(Some("stretch")), "contain");
    assert_eq!(sanitize_fit_mode(None), "contain");
}

#[test]
fn normalize_target_shorthands() {
    assert_eq!(normalize_target("operator"), "window:main");
    assert_eq!(normalize_target("output"), "window:output");
    assert_eq!(normalize_target("mobile:abc"), "mobile:abc");
}

#[test]
fn go_live_publishes_staged_item_with_manual_source() {
    let mut live = LiveState::new();
    assert!(live.go_live().is_none());
    live.stage_item(verse_item());
    let update = live.go_live().unwrap();
    assert_eq!(update.text, "John 3:16");
    assert_eq!(update.confidence_milli, 1000);
    assert_eq!(update.source, "manual");
    match update.item.unwrap() {
        DisplayItem::Verse(v) => assert_eq!(v.verse, 16),
        _ => panic!("expected a verse item"),
    }
    match live.get_current_item().unwrap() {
        DisplayItem::Verse(v) => assert_eq!(v.book, "John"),
        _ => panic!("expected a verse item"),
    }
    // Staging survives going live.
    assert!(live.get_staged_item().is_some());
}

#[test]
fn clear_live_emits_empty_manual_update() {
    let mut live = LiveState::new();
    live.stage_item(verse_item());
    live.go_live().unwrap();
    let update = live.clear_live();
    assert_eq!(update.text, "");
    assert!(update.item.is_none());
    assert_eq!(update.source, "manual");
    assert!(live.get_current_item().is_none());
}

#[test]
fn update_timer_restamps_only_a_live_timer() {
    let mut live = LiveState::new();
    live.stage_item(verse_item());
    live.go_live().unwrap();
    assert!(live.update_timer(Some(123)).is_none());
    live.stage_item(DisplayItem::Timer(TimerData {
        timer_type: "countdown".to_string(),
        duration_secs: Some(60),
        label: None,
        started_at: None,
    }));
    live.go_live().unwrap();
    let update = live.update_timer(Some(999)).unwrap();
    assert_eq!(update.text, "Timer: countdown");
    match update.item.unwrap() {
        DisplayItem::Timer(t) => assert_eq!(t.started_at, Some(999)),
        _ => panic!("expected a timer item"),
    }
}
