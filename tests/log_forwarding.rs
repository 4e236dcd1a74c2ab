use std::cell::RefCell;
use std::rc::Rc;
use wgi::cache::{after_lookup, warn_after_store, App, CacheLookup, CacheStep};
use wgi::logging::{LogForwarder, Logger};

#[derive(Clone, Default)]
struct Recorder(Rc<RefCell<Vec<Vec<u8>>>>);

impl Logger for Recorder {
    fn log(&self, message: &[u8]) {
        self.0.borrow_mut().push(message.to_vec());
    }
}

impl Recorder {
    fn lines(&self) -> Vec<Vec<u8>> {
        self.0.borrow().clone()
    }
}

fn v(s: &str) -> Vec<u8> {
    s.as_bytes().to_vec()
}

#[test]
fn each_newline_logs_one_line() {
    let rec = Recorder::default();
    let mut f = LogForwarder::new(rec.clone());
    assert_eq!(f.write(b"a\nbb\n\nc"), 7);
    assert_eq!(rec.lines(), vec![v("a"), v("bb"), v("")]);
    assert_eq!(f.size(), 1);
    f.finish();
    assert_eq!(rec.lines(), vec![v("a"), v("bb"), v(""), v("c")]);
    assert_eq!(f.size(), 0);
}

#[test]
fn partial_lines_join_across_writes() {
    let rec = Recorder::default();
    let mut f = LogForwarder::new(rec.clone());
    f.write(b"ab");
    f.write(b"c");
    assert!(rec.lines().is_empty());
    f.write(b"d\ne");
    assert_eq!(rec.lines(), vec![v("abcd")]);
    assert_eq!(f.size(), 1);
}

#[test]
fn finish_without_pending_logs_nothing() {
    let rec = Recorder::default();
    let mut f = LogForwarder::new(rec.clone());
    f.write(b"done\n");
    f.finish();
    assert_eq!(rec.lines(), vec![v("done")]);
    assert_eq!(f.write(b""), 0);
    f.finish();
    assert_eq!(rec.lines(), vec![v("done")]);
}

#[test]
fn cache_uses_a_loaded_artifact() {
    assert_eq!(after_lookup(CacheLookup::Loaded), CacheStep::UseCached);
    assert_eq!(
        after_lookup(CacheLookup::Missing),
        CacheStep::CompileAndStore { warn: false }
    );
    assert_eq!(
        after_lookup(CacheLookup::Unusable),
        CacheStep::CompileAndStore { warn: true }
    );
}

#[test]
fn cache_store_failure_only_warns() {
    assert!(warn_after_store(false));
    assert!(!warn_after_store(true));
}

#[test]
fn app_keeps_module_bytes() {
    let app = App::new(vec![0, 97, 115, 109]);
    assert_eq!(app.wasm(), &[0, 97, 115, 109]);
}

#[test]
fn set_len_truncates_or_pads() {
    let rec = Recorder::default();
    let mut f = LogForwarder::new(rec.clone());
    f.write(b"abcd");
    f.set_len(2);
    assert_eq!(f.size(), 2);
    f.set_len(4);
    f.finish();
    assert_eq!(rec.lines(), vec![vec![b'a', b'b', 0, 0]]);
}
