use netai_cloud::image::{frame_message, frame_payload_name, frame_timestamp, FrameCounter, Image, ImageCodec, ImageSize};
use netai_cloud::kubegraph::{NetworkConnector, NetworkNodeKey};
use netai_cloud::tracer::debug_level;

#[test]
fn frame_names_are_padded() {
    assert_eq!(frame_payload_name(7, ImageCodec::Jpeg), "images/000007.jpeg");
    assert_eq!(frame_payload_name(0, ImageCodec::Jpeg), "images/000000.jpeg");
    assert_eq!(frame_payload_name(123456, ImageCodec::Jpeg), "images/123456.jpeg");
    assert_eq!(frame_payload_name(1234567, ImageCodec::Jpeg), "images/1234567.jpeg");
}

#[test]
fn codec_codes() {
    assert_eq!(&ImageCodec::Jpeg.as_fourcc(), b"MJPG");
    assert_eq!(ImageCodec::Jpeg.as_extension(), ".jpeg");
    assert_eq!(ImageCodec::default(), ImageCodec::Jpeg);
    assert_eq!(ImageSize::default(), ImageSize { width: 0, height: 0 });
    assert_eq!(Image::default().index, 0);
}

#[test]
fn frames_are_counted() {
    let mut c = FrameCounter::new();
    assert_eq!(c.next(), 0);
    assert_eq!(c.next(), 1);
    assert_eq!(c.0, 2);
}

#[test]
fn debug_levels() {
    assert_eq!(debug_level(0), "WARN");
    assert_eq!(debug_level(1), "INFO");
    assert_eq!(debug_level(2), "DEBUG");
    assert_eq!(debug_level(3), "TRACE");
}

#[test]
fn graph_node_text() {
    let key = NetworkNodeKey { kind: "pod".to_string(), name: "web".to_string(), namespace: "default".to_string() };
    assert_eq!(key.to_text(), "pod/default/web");
    assert_eq!(NetworkConnector::default().name(), "local");
}

#[test]
fn frame_timestamps() {
    assert_eq!(frame_timestamp(10, 500), Some(10_000_500_000));
    assert_eq!(frame_timestamp(-1, 0), Some(-1_000_000_000));
    assert_eq!(frame_timestamp(59, 1_500_000), Some(60_500_000_000));
    assert_eq!(frame_timestamp(58, 1_500_000), None);
    assert_eq!(frame_timestamp(10, -1), None);
    assert_eq!(frame_timestamp(i64::MAX, 0), None);
}

#[test]
fn frame_messages_follow_the_counter() {
    let mut c = FrameCounter::new();
    let size = ImageSize { width: 640, height: 480 };
    let first = frame_message(&mut c, ImageCodec::Jpeg, size, vec![1, 2], 10, 5);
    let second = frame_message(&mut c, ImageCodec::Jpeg, size, vec![3], 11, 0);
    assert_eq!(first.value, Image { codec: ImageCodec::Jpeg, index: 0, size });
    assert_eq!(first.payload_name, "images/000000.jpeg");
    assert_eq!(first.payload, vec![1, 2]);
    assert_eq!(first.timestamp, Some(10_000_005_000));
    assert_eq!(second.value.index, 1);
    assert_eq!(second.payload_name, "images/000001.jpeg");
    assert_eq!(c.0, 2);
}
