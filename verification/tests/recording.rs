use bambu_serve::stream_record::{copy_until, record_loop, CopyEnd, StreamPort, Tap};

/// A stream over canned readers. Each entry is one open: `None` fails, `Some` is
/// read to its end; after `fail_at_end` the end of a reader is an error.
struct Canned {
    entries: Vec<Option<Vec<u8>>>,
    opened: usize,
    current: Vec<u8>,
    pos: usize,
    fail_at_end: bool,
    cancel: bool,
    sink: Vec<u8>,
    /// How many bytes the sink takes before it fails.
    room: usize,
    backoffs: Vec<u32>,
}

impl Canned {
    fn new(entries: Vec<Option<Vec<u8>>>) -> Canned {
        Canned {
            entries,
            opened: 0,
            current: Vec::new(),
            pos: 0,
            fail_at_end: false,
            cancel: false,
            sink: Vec::new(),
            room: usize::MAX,
            backoffs: Vec::new(),
        }
    }

    /// With one reader already open.
    fn over(data: &[u8]) -> Canned {
        let mut c = Canned::new(vec![]);
        c.current = data.to_vec();
        c
    }
}

impl StreamPort for Canned {
    fn cancelled(&mut self) -> bool {
        self.cancel
    }
    fn backoff(&mut self, attempt: u32) {
        self.backoffs.push(attempt);
    }
    fn open(&mut self) -> bool {
        let entry = self.entries.get(self.opened).cloned().flatten();
        self.opened += 1;
        match entry {
            Some(data) => {
                self.current = data;
                self.pos = 0;
                true
            }
            None => false,
        }
    }
    fn read(&mut self, max: usize) -> Option<Vec<u8>> {
        if self.pos >= self.current.len() && self.fail_at_end {
            return None;
        }
        let n = max.min(self.current.len() - self.pos);
        let out = self.current[self.pos..self.pos + n].to_vec();
        self.pos += n;
        Some(out)
    }
    fn write(&mut self, bytes: &[u8]) -> usize {
        let n = bytes.len().min(self.room);
        self.sink.extend_from_slice(&bytes[..n]);
        self.room -= n;
        n
    }
}

#[test]
fn copy_until_writes_everything_then_reports_eof() {
    let mut tap = Tap::new(Canned::over(b"hello world"));
    let (end, n) = copy_until(&mut tap, 1_000, 4);
    assert_eq!(end, CopyEnd::Eof);
    assert_eq!(n, 11);
    assert_eq!(tap.into_port().sink, b"hello world");
}

#[test]
fn copy_until_stops_on_cancel_without_reading() {
    let mut port = Canned::over(b"data");
    port.cancel = true;
    let mut tap = Tap::new(port);
    let (end, n) = copy_until(&mut tap, 1_000, 8);
    assert_eq!(end, CopyEnd::Cancelled);
    assert_eq!(n, 0);
    assert!(tap.into_port().sink.is_empty());
}

#[test]
fn copy_until_keeps_bytes_written_before_a_read_error() {
    // A mid-stream error must still report the bytes already written, or a flaky
    // stream blows past the cap.
    let mut port = Canned::over(b"abc");
    port.fail_at_end = true;
    let mut tap = Tap::new(port);
    let (end, n) = copy_until(&mut tap, 1_000, 2);
    assert_eq!(end, CopyEnd::Errored);
    assert_eq!(n, 3);
    assert_eq!(tap.into_port().sink, b"abc");
}

#[test]
fn copy_until_never_writes_past_the_cap() {
    let mut tap = Tap::new(Canned::over(b"0123456789"));
    let (end, n) = copy_until(&mut tap, 4, 8);
    assert_eq!(end, CopyEnd::CapReached);
    assert_eq!(n, 4);
    assert_eq!(tap.into_port().sink, b"0123");
}

#[test]
fn record_loop_reconnects_after_each_eof() {
    let mut tap = Tap::new(Canned::new(vec![
        Some(b"aaa".to_vec()),
        Some(b"bbb".to_vec()),
    ]));
    let stats = record_loop(&mut tap, 6, 8);
    assert_eq!(stats.connections, 2);
    assert_eq!(stats.failures, 0);
    assert_eq!(tap.into_port().sink, b"aaabbb");
}

#[test]
fn record_loop_counts_a_failed_open_and_retries() {
    let mut tap = Tap::new(Canned::new(vec![None, Some(b"ok".to_vec())]));
    let stats = record_loop(&mut tap, 2, 8);
    assert_eq!(stats.failures, 1);
    assert_eq!(stats.connections, 1);
    assert_eq!(tap.into_port().sink, b"ok");
}

#[test]
fn record_loop_stops_immediately_when_cancelled_up_front() {
    let mut port = Canned::new(vec![Some(b"x".to_vec())]);
    port.cancel = true;
    let mut tap = Tap::new(port);
    let stats = record_loop(&mut tap, 1_000, 8);
    assert_eq!(stats.connections, 0);
    assert_eq!(stats.bytes, 0);
    assert!(tap.into_port().sink.is_empty());
}

#[test]
fn record_loop_honours_the_byte_cap() {
    let mut tap = Tap::new(Canned::new(vec![Some(vec![7u8; 100])]));
    let stats = record_loop(&mut tap, 10, 8);
    assert_eq!(stats.bytes, 10);
    assert_eq!(stats.connections, 1);
    assert_eq!(tap.into_port().sink.len(), 10);
}

#[test]
fn copy_until_counts_what_went_through_before_a_write_failed() {
    let mut port = Canned::over(b"abcd");
    port.room = 2;
    let mut tap = Tap::new(port);
    assert_eq!(copy_until(&mut tap, 10, 8), (CopyEnd::Errored, 2));
    assert_eq!(tap.into_port().sink, b"ab");
}

#[test]
fn record_loop_reads_at_least_a_byte_at_a_time() {
    let mut tap = Tap::new(Canned::new(vec![None, Some(b"ok".to_vec())]));
    let stats = record_loop(&mut tap, 2, 0);
    assert_eq!(stats.bytes, 2);
    assert_eq!(stats.connections, 1);
    assert_eq!(stats.failures, 1);
    let port = tap.into_port();
    assert_eq!(port.sink, b"ok");
    assert_eq!(port.backoffs, vec![1]);
}
