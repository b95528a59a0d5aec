use krabka_coordinator::metadata::{MetadataImage, TopicRecord};
use krabka_coordinator::ordmap::OrdMap;
use krabka_coordinator::partitioner::{
    java_string_hash, local_partition_for_group, partition_for_group,
    partition_for_group_with_count, GroupRoutingError, OFFSETS_TOPIC,
};

fn image_of(partitions: i32, leader: u64) -> MetadataImage {
    let mut image = MetadataImage::new();
    image
        .topics
        .insert(OFFSETS_TOPIC.into(), TopicRecord { topic_id: 1, partitions });
    let mut leaders = OrdMap::new();
    for p in 0..partitions {
        leaders.insert(p, leader);
    }
    image.leaders.insert(OFFSETS_TOPIC.into(), leaders);
    image
}

#[test]
fn java_hash_matches_known_jdk_values_including_utf16_surrogates() {
    assert!(java_string_hash("") == 0);
    assert!(java_string_hash("abc") == 96_354);
    assert!(java_string_hash("consumer-group") == -1_738_392_088);
    // Java hashes the two UTF-16 surrogate code units for this character.
    assert!(java_string_hash("🦀") == 1_772_802);
}

#[test]
fn the_hash_of_a_concatenation_follows_from_the_parts() {
    for (a, b, units) in [("", "abc", 3), ("consumer-", "group", 5), ("x", "\u{1F980}", 2), ("abc", "", 0)] {
        let mut power = 1i32;
        for _ in 0..units {
            power = power.wrapping_mul(31);
        }
        let whole = format!("{a}{b}");
        assert_eq!(java_string_hash(&whole), java_string_hash(a).wrapping_mul(power).wrapping_add(java_string_hash(b)));
    }
}

#[test]
fn group_partition_uses_java_hash_and_requested_count() {
    assert!(partition_for_group_with_count("consumer-group", 50) == 38);
    assert!(partition_for_group_with_count("abc", 7) == 6);
    assert!(partition_for_group_with_count("abc", 1) == 0);
    assert!(partition_for_group_with_count("polygenelubricants", 50) == 0);
}

#[test]
fn the_hash_without_an_absolute_value_maps_to_partition_zero() {
    assert!(java_string_hash("polygenelubricants") == i32::MIN);
    assert!(partition_for_group_with_count("polygenelubricants", 7) == 0);
}

#[test]
fn partition_for_group_falls_back_when_offsets_topic_is_unloaded() {
    let image = MetadataImage::new();
    assert!(partition_for_group(&image, "consumer-group") == 38);
}

#[test]
fn partition_for_group_uses_live_partition_count_when_present() {
    let image = image_of(10, 1);
    assert!(partition_for_group(&image, "consumer-group") == 8);
}

#[test]
fn local_partition_for_group_routes_or_reports_errors() {
    let empty = MetadataImage::new();
    assert!(
        local_partition_for_group(&empty, 1, "consumer-group")
            == Err(GroupRoutingError::Unavailable)
    );
    let image = image_of(10, 1);
    assert!(local_partition_for_group(&image, 1, "consumer-group") == Ok(8));
    assert!(
        local_partition_for_group(&image, 2, "consumer-group")
            == Err(GroupRoutingError::NotCoordinator)
    );
}
