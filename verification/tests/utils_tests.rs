use bytes::Bytes;
use vstp::extensions::{ExtensionHandler, ExtensionRegistry};
use vstp::utils::{Buffer, Pool};
use vstp::{Frame, FrameType, Header, VstpError};

#[test]
fn test_buffer_write_read() {
    let mut buf = Buffer::new();

    buf.write(b"Hello");
    buf.write(b" World");

    assert_eq!(&buf.read(5).unwrap()[..], b"Hello");
    assert_eq!(&buf.read_all()[..], b" World");
}

#[test]
fn test_buffer_from_bytes() {
    let data = Bytes::from(&b"Test Data"[..]);
    let buf = Buffer::from_bytes(data);

    assert_eq!(&buf[..], b"Test Data");
}

#[test]
fn test_buffer_clear() {
    let mut buf = Buffer::with_capacity(100);
    buf.write(b"Test");

    assert_eq!(buf.len(), 4);
    buf.clear();
    assert_eq!(buf.len(), 0);
    assert!(buf.capacity() >= 100);
}

#[test]
fn buffer_read_past_the_end_changes_nothing() {
    let mut buf = Buffer::new();
    buf.write_str("abc");
    assert!(buf.read(4).is_none());
    assert_eq!(buf.len(), 3);
    assert!(!buf.is_empty());
    assert_eq!(buf.as_slice(), b"abc");
    assert_eq!(&buf.freeze()[..], b"abc");
}

#[test]
fn test_pool_basic() {
    let mut pool = Pool::new(2);

    let item1: Vec<i32> = pool.get(|| Vec::new());
    let item2: Vec<i32> = pool.get(|| Vec::new());

    pool.put(item1);
    pool.put(item2);

    assert_eq!(pool.len(), 2);
}

#[test]
fn test_pool_max_size() {
    let mut pool = Pool::new(1);

    let item1 = pool.get(|| 1);
    let item2 = pool.get(|| 2);

    pool.put(item1);
    pool.put(item2);

    assert_eq!(pool.len(), 1);
}

#[test]
fn pool_hands_out_the_oldest_first() {
    let mut pool = Pool::new(3);
    assert!(pool.is_empty());
    pool.put(10);
    pool.put(20);
    assert_eq!(pool.get(|| 0), 10);
    assert_eq!(pool.get(|| 0), 20);
    assert_eq!(pool.get(|| 7), 7);
}

struct TestHandler;

impl ExtensionHandler for TestHandler {
    fn should_handle(&self, frame: &Frame) -> bool {
        frame.typ == FrameType::Data
    }

    fn handle_frame(&self, frame: Frame) -> Result<Frame, VstpError> {
        let mut frame = frame;
        frame
            .headers
            .push(Header::from_str("test-extension", "processed"));
        Ok(frame)
    }
}

#[test]
fn test_extension_registry() {
    let mut registry = ExtensionRegistry::new();
    registry.register("test", TestHandler);

    let frame = Frame::new(FrameType::Data);
    let processed = registry.process_frame(frame).unwrap();

    assert_eq!(
        processed.get_header("test-extension").unwrap(),
        b"processed"
    );
}

#[test]
fn registry_leaves_other_frames_alone_and_forgets_handlers() {
    let mut registry = ExtensionRegistry::new();
    registry.register("test", TestHandler);
    assert!(registry.get_handler("test").is_some());
    assert!(registry.get_handler("other").is_none());

    let ping = registry.process_frame(Frame::new(FrameType::Ping)).unwrap();
    assert!(ping.headers.is_empty());

    assert!(registry.unregister("test").is_some());
    assert!(registry.unregister("test").is_none());
    let data = registry.process_frame(Frame::new(FrameType::Data)).unwrap();
    assert!(data.headers.is_empty());
}
