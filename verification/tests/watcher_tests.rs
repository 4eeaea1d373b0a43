use hotreload_assets::assets::SimpleAsset;
use hotreload_assets::manager::watch_for_asset_changes;
use hotreload_assets::manager::AssetManager;
use hotreload_assets::manager::AssetManagerErrorKind;
use hotreload_assets::manager::CountingCallback;
use hotreload_assets::watcher::should_buffer_event;
use hotreload_assets::watcher::FsEventKind;
use hotreload_assets::watcher::StalePathBuffer;

fn fresh() -> AssetManager<SimpleAsset, CountingCallback> {
    AssetManager::new().unwrap()
}

#[test]
fn drain_twice_returns_same_contents() {
    let mut buf = StalePathBuffer::new();
    buf.push_stale_path(String::from("a.vert"));
    buf.push_stale_path(String::from("b.frag"));
    let first = buf.get_stale_paths();
    let second = buf.get_stale_paths();
    assert_eq!(first, second);
    assert_eq!(first, vec![String::from("a.vert"), String::from("b.frag")]);
}

#[test]
fn clear_empties_the_buffer() {
    let mut buf = StalePathBuffer::new();
    buf.push_stale_path(String::from("a.vert"));
    buf.clear_stale_paths();
    assert_eq!(buf.get_stale_paths().len(), 0);
}

#[test]
fn change_after_drain_is_in_next_drain() {
    let mut buf = StalePathBuffer::new();
    buf.push_stale_path(String::from("a.vert"));
    let first = buf.get_stale_paths();
    assert_eq!(first.len(), 1);
    // A change reported after the drain, before any clear, stays buffered.
    buf.push_stale_path(String::from("b.frag"));
    let second = buf.get_stale_paths();
    assert_eq!(second, vec![String::from("a.vert"), String::from("b.frag")]);
}

#[test]
fn duplicate_paths_are_kept_in_order() {
    let mut buf = StalePathBuffer::new();
    buf.push_stale_path(String::from("a.vert"));
    buf.push_stale_path(String::from("a.vert"));
    assert_eq!(buf.get_stale_paths().len(), 2);
}

#[test]
fn only_content_modifications_are_buffered() {
    assert!(should_buffer_event(FsEventKind::ContentModified));
    assert!(!should_buffer_event(FsEventKind::Created));
    assert!(!should_buffer_event(FsEventKind::Removed));
    assert!(!should_buffer_event(FsEventKind::Renamed));
    assert!(!should_buffer_event(FsEventKind::Other));
}

#[test]
fn coordinator_tick_reloads_only_the_changed_asset() {
    let mut mgr = fresh();
    let v = mgr.load_asset("v", "shaders/triangle.vert").unwrap();
    let f = mgr.load_asset("f", "shaders/triangle.frag").unwrap();
    mgr.register_asset_reload_callback("v", CountingCallback::new());
    mgr.register_asset_reload_callback("f", CountingCallback::new());
    let mut buf = StalePathBuffer::new();
    buf.push_stale_path(String::from("shaders/triangle.vert"));
    watch_for_asset_changes(&mut mgr, &mut buf).unwrap();
    assert_eq!(mgr.callbacks_for("v")[0].count(), 1);
    assert_eq!(mgr.callbacks_for("f")[0].count(), 0);
    assert_eq!(v.generation().unwrap(), 2);
    assert_eq!(f.generation().unwrap(), 1);
    assert_eq!(buf.get_stale_paths().len(), 0);
}

#[test]
fn coordinator_skips_paths_with_no_asset() {
    let mut mgr = fresh();
    let v = mgr.load_asset("v", "a.vert").unwrap();
    let mut buf = StalePathBuffer::new();
    buf.push_stale_path(String::from("unrelated.txt"));
    watch_for_asset_changes(&mut mgr, &mut buf).unwrap();
    assert_eq!(v.generation().unwrap(), 1);
    assert_eq!(buf.get_stale_paths().len(), 0);
}

#[test]
fn coordinator_resolves_uncanonical_event_paths() {
    let mut mgr = fresh();
    let v = mgr.load_asset("v", "./shaders//triangle.vert").unwrap();
    let mut buf = StalePathBuffer::new();
    buf.push_stale_path(String::from("shaders/./triangle.vert"));
    watch_for_asset_changes(&mut mgr, &mut buf).unwrap();
    assert_eq!(v.generation().unwrap(), 2);
}

#[test]
fn coordinator_error_names_the_asset_and_keeps_buffer() {
    let mut mgr = fresh();
    let v = mgr.load_asset("v", "a.vert").unwrap();
    v.set_fail_reloads(true).unwrap();
    let mut buf = StalePathBuffer::new();
    buf.push_stale_path(String::from("a.vert"));
    let err = watch_for_asset_changes(&mut mgr, &mut buf).unwrap_err();
    assert_eq!(err.kind(), AssetManagerErrorKind::AssetReloadError);
    assert_eq!(err.message(), "unable to reload asset v");
    assert!(err.source_message().is_some());
    // Nothing was cleared: the change stays for the next pass.
    assert_eq!(buf.get_stale_paths().len(), 1);
}

#[test]
fn batch_aborts_on_first_hard_error() {
    let mut mgr = fresh();
    let a = mgr.load_asset("a", "a.vert").unwrap();
    let b = mgr.load_asset("b", "b.frag").unwrap();
    a.set_fail_reloads(true).unwrap();
    let stale = vec![String::from("a.vert"), String::from("b.frag")];
    let err = mgr.watch_for_changes(&stale).unwrap_err();
    assert_eq!(err.kind(), AssetManagerErrorKind::AssetReloadError);
    // The failing asset aborted the batch before the second path.
    assert_eq!(b.generation().unwrap(), 1);
}
