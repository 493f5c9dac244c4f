use wahoo::context::Options;
use wahoo::error::Error;
use wahoo::sink::{RenderCache, Sink, Updates};

#[test]
fn default_options_and_cache() {
    let options = Options::default();
    assert!(!options.server);
    assert!(!options.verbose);
    let sink = Sink::default();
    assert_eq!(sink.inner().scan, 0);
    assert!(!sink.inner().ready);
    assert!(sink.inner().migrate_files.is_empty());
    assert_eq!(RenderCache::default().hash, 0);
    let mut updates = Updates::new();
    updates.files.insert("a".to_string());
    updates.clear();
    assert!(updates.files.is_empty() && updates.folders.is_empty());
}

#[test]
fn error_messages() {
    assert_eq!(Error::String("bad".to_string()).message(), "bad");
    assert_eq!(Error::Glob("a[".to_string()).message(), "a[");
    assert_eq!(Error::Template("x\n".to_string()).message(), "x\n");
}
