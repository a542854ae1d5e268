use moviebox_tui::catalog::quality::{best_within, rank};
use moviebox_tui::catalog::{QualityTier, SourceId, SourceOption};

fn option(height: u16, label: &str, size_gb: f64) -> SourceOption {
    SourceOption {
        id: SourceId::new(format!("{height}-{label}")),
        height,
        label: label.to_string(),
        size_bytes: Some((size_gb * 1024.0 * 1024.0 * 1024.0) as u64),
        language: None,
        recommended: false,
        quality: QualityTier::Good,
    }
}

#[test]
fn higher_resolution_wins_first() {
    let mut options = vec![
        option(720, "720p H264", 1.5),
        option(1080, "1080p H264", 2.0),
    ];
    rank(&mut options);
    assert_eq!(options[0].height, 1080);
    assert!(options[0].recommended);
    assert!(!options[1].recommended);
}

#[test]
fn bigger_file_wins_at_equal_resolution() {
    let mut options = vec![
        option(1080, "1080p H264", 1.8),
        option(1080, "1080p H264", 2.5),
    ];
    rank(&mut options);
    assert_eq!(options[0].size_bytes, Some(2684354560));
    assert!(options[0].recommended);
}

#[test]
fn efficient_codec_beats_a_larger_inefficient_one() {
    let mut options = vec![
        option(1080, "1080p H264", 2.5),
        option(1080, "1080p H265", 1.8),
    ];
    rank(&mut options);
    assert_eq!(options[0].label, "1080p H265");
    assert!(options[0].recommended);
}

#[test]
fn a_starved_encode_is_flagged_even_at_high_resolution() {
    let mut options = vec![
        option(1080, "1080p H264", 0.5),
        option(720, "720p H264", 2.0),
    ];
    rank(&mut options);
    let starved = options
        .iter()
        .find(|o| o.height == 1080)
        .expect("1080p source");
    assert_eq!(starved.quality, QualityTier::Lower);
}

#[test]
fn best_within_respects_the_ceiling() {
    let options = vec![
        option(2160, "2160p H265", 8.0),
        option(1080, "1080p H264", 2.5),
        option(720, "720p H264", 1.2),
    ];
    let picked = best_within(&options, 1080).expect("a source within the limit");
    assert_eq!(picked.height, 1080);
}

#[test]
fn best_within_prefers_the_richer_encode_at_the_same_height() {
    let options = vec![
        option(1080, "1080p H264", 1.2),
        option(1080, "1080p H264", 3.0),
    ];
    let picked = best_within(&options, 1080).expect("a source");
    assert_eq!(picked.size_bytes, Some(3221225472));
}

#[test]
fn missing_sizes_do_not_panic_or_flag_everything() {
    let mut options = vec![
        SourceOption {
            id: SourceId::new("no-size".to_string()),
            height: 1080,
            label: "1080p".to_string(),
            size_bytes: None,
            language: None,
            recommended: false,
            quality: QualityTier::Good,
        },
        option(720, "720p H264", 1.0),
    ];
    rank(&mut options);
    assert_eq!(options[0].height, 1080);
    assert!(options[0].recommended);
}

#[test]
fn best_within_returns_nothing_when_all_exceed_the_ceiling() {
    let options = vec![option(2160, "2160p H265", 8.0)];
    assert!(best_within(&options, 1080).is_none());
}

#[test]
fn rank_labels_every_tier_and_keeps_ties_in_order() {
    let mut options = vec![
        option(720, "720p H264", 1.0),
        option(1080, "1080p AV1", 1.0),
        option(1080, "1080p H264", 2.0),
        option(1080, "1080p VP9", 0.1),
    ];
    options[2].id = SourceId::new("second".to_string());
    rank(&mut options);
    // AV1 1.0 GiB weighs 20; H264 2.0 GiB weighs 20: a tie keeps input order.
    assert_eq!(options[0].label, "1080p AV1");
    assert_eq!(options[1].id.as_str(), "second");
    assert_eq!(options[0].quality, QualityTier::Best);
    assert_eq!(options[1].quality, QualityTier::Good);
    assert_eq!(options[2].label, "1080p VP9");
    assert_eq!(options[2].quality, QualityTier::Lower);
    assert_eq!(options[3].height, 720);
    assert_eq!(options[3].quality, QualityTier::Good);
}

#[test]
fn best_within_takes_the_last_of_equal_sources() {
    let mut options = vec![
        option(1080, "1080p H264", 2.0),
        option(1080, "1080p H264", 2.0),
    ];
    options[1].id = SourceId::new("later".to_string());
    let picked = best_within(&options, 1080).expect("a source");
    assert_eq!(picked.id.as_str(), "later");
}
