use hotreload_assets::assets::Asset;
use hotreload_assets::assets::AssetErrorKind;
use hotreload_assets::assets::SimpleAsset;
use hotreload_assets::manager::AssetManager;
use hotreload_assets::manager::CountingCallback;

fn fresh() -> AssetManager<SimpleAsset, CountingCallback> {
    AssetManager::new().unwrap()
}

#[test]
fn load_then_get_round_trip() {
    let mut mgr = fresh();
    mgr.load_asset("a", "./dir//x.vert").unwrap();
    let handle = mgr.get_asset("a").unwrap();
    assert_eq!(handle.get_src_file_path().unwrap(), "dir/x.vert");
    assert_eq!(mgr.asset_path_for_id("a"), Some(String::from("dir/x.vert")));
    assert_eq!(mgr.asset_id_for_path("dir/x.vert"), Some(String::from("a")));
    assert_eq!(mgr.asset_id_for_path("./dir//x.vert"), Some(String::from("a")));
}

#[test]
fn get_unknown_id_is_none() {
    let mgr = fresh();
    assert!(mgr.get_asset("ghost").is_none());
}

#[test]
fn reload_unknown_id_is_soft() {
    let mut mgr = fresh();
    assert!(matches!(mgr.reload_asset("ghost"), Ok(None)));
}

#[test]
fn destroy_unknown_id_is_soft() {
    let mut mgr = fresh();
    assert!(matches!(mgr.destroy_asset("ghost"), Ok(None)));
}

#[test]
fn is_loaded_unknown_id_is_soft() {
    let mut mgr = fresh();
    mgr.load_asset("a", "x.vert").unwrap();
    assert!(matches!(mgr.is_asset_loaded("ghost"), Ok(None)));
    assert!(matches!(mgr.is_asset_loaded("a"), Ok(Some(true))));
}

#[test]
fn successful_reload_bumps_generation() {
    let mut mgr = fresh();
    let handle = mgr.load_asset("a", "x.vert").unwrap();
    assert_eq!(handle.generation().unwrap(), 1);
    assert!(matches!(mgr.reload_asset("a"), Ok(Some(()))));
    assert_eq!(handle.generation().unwrap(), 2);
    assert_eq!(handle.is_loaded().unwrap(), true);
}

#[test]
fn failed_reload_preserves_state() {
    let mut mgr = fresh();
    let handle = mgr.load_asset("a", "x.vert").unwrap();
    handle.set_fail_reloads(true).unwrap();
    let err = mgr.reload_asset("a").unwrap_err();
    assert_eq!(err.kind(), AssetErrorKind::ReloadingFailed);
    assert_eq!(handle.is_loaded().unwrap(), true);
    assert_eq!(handle.generation().unwrap(), 1);
}

#[test]
fn callbacks_fire_exactly_once_in_order() {
    let mut mgr = fresh();
    mgr.load_asset("a", "x.vert").unwrap();
    mgr.load_asset("b", "y.vert").unwrap();
    mgr.register_asset_reload_callback("a", CountingCallback::new());
    mgr.register_asset_reload_callback("b", CountingCallback::new());
    mgr.register_asset_reload_callback("a", CountingCallback::new());
    mgr.register_asset_reload_callback("a", CountingCallback::new());
    assert!(matches!(mgr.reload_asset("a"), Ok(Some(()))));
    let for_a = mgr.callbacks_for("a");
    let for_b = mgr.callbacks_for("b");
    assert_eq!(for_a.len(), 3);
    assert!(for_a.iter().all(|c| c.count() == 1));
    assert_eq!(for_b.len(), 1);
    assert_eq!(for_b[0].count(), 0);
    assert!(matches!(mgr.reload_asset("a"), Ok(Some(()))));
    assert!(mgr.callbacks_for("a").iter().all(|c| c.count() == 2));
}

#[test]
fn callbacks_for_unloaded_id_are_kept_silent() {
    let mut mgr = fresh();
    mgr.register_asset_reload_callback("later", CountingCallback::new());
    assert!(matches!(mgr.reload_asset("later"), Ok(None)));
    assert_eq!(mgr.callbacks_for("later")[0].count(), 0);
    mgr.load_asset("later", "z.vert").unwrap();
    assert!(matches!(mgr.reload_asset("later"), Ok(Some(()))));
    assert_eq!(mgr.callbacks_for("later")[0].count(), 1);
}

#[test]
fn load_under_existing_id_replaces_entry() {
    let mut mgr = fresh();
    mgr.load_asset("a", "x.vert").unwrap();
    mgr.load_asset("a", "y.vert").unwrap();
    assert_eq!(mgr.asset_id_for_path("x.vert"), None);
    assert_eq!(mgr.asset_id_for_path("y.vert"), Some(String::from("a")));
    assert_eq!(mgr.asset_path_for_id("a"), Some(String::from("y.vert")));
}

#[test]
fn load_under_existing_path_replaces_entry() {
    let mut mgr = fresh();
    mgr.load_asset("a", "x.vert").unwrap();
    mgr.load_asset("b", "x.vert").unwrap();
    assert_eq!(mgr.asset_id_for_path("x.vert"), Some(String::from("b")));
    assert_eq!(mgr.asset_path_for_id("a"), None);
}

#[test]
fn load_with_invalid_extension_fails() {
    let mut mgr = fresh();
    let err = match mgr.load_asset("a", "noext") {
        Err(e) => e,
        Ok(_) => panic!("loading a path without an extension must fail"),
    };
    assert_eq!(err.kind(), AssetErrorKind::InvalidFileExtension);
    assert!(mgr.get_asset("a").is_none());
}

#[test]
fn destroy_removes_entry_and_callbacks() {
    let mut mgr = fresh();
    let handle = mgr.load_asset("a", "x.vert").unwrap();
    mgr.register_asset_reload_callback("a", CountingCallback::new());
    assert!(matches!(mgr.destroy_asset("a"), Ok(Some(()))));
    assert!(mgr.get_asset("a").is_none());
    assert_eq!(mgr.asset_id_for_path("x.vert"), None);
    assert_eq!(mgr.callbacks_for("a").len(), 0);
    // The handle held before the destroy is still usable; the resource
    // reports itself unloaded.
    assert_eq!(handle.is_loaded().unwrap(), false);
}

#[test]
fn maps_stay_mutually_consistent_across_operations() {
    let mut mgr = fresh();
    mgr.load_asset("a", "p1.vert").unwrap();
    mgr.load_asset("b", "p2.vert").unwrap();
    mgr.load_asset("c", "p3.frag").unwrap();
    mgr.reload_asset("b").unwrap();
    mgr.destroy_asset("a").unwrap();
    mgr.load_asset("b", "p4.frag").unwrap();
    for id in ["b", "c"] {
        let path = mgr.asset_path_for_id(id).unwrap();
        assert_eq!(mgr.asset_id_for_path(&path), Some(String::from(id)));
    }
    for path in ["p3.frag", "p4.frag"] {
        let id = mgr.asset_id_for_path(path).unwrap();
        assert_eq!(mgr.asset_path_for_id(&id), Some(String::from(path)));
    }
    assert_eq!(mgr.asset_id_for_path("p1.vert"), None);
    assert_eq!(mgr.asset_id_for_path("p2.vert"), None);
}

#[test]
fn get_returns_the_registry_cell() {
    let mut mgr = fresh();
    let from_load = mgr.load_asset("a", "x.vert").unwrap();
    let from_get = mgr.get_asset("a").unwrap();
    // Both handles share the stored cell: a reload through the manager is
    // seen through each of them.
    assert!(matches!(mgr.reload_asset("a"), Ok(Some(()))));
    assert_eq!(from_load.generation().unwrap(), 2);
    assert_eq!(from_get.generation().unwrap(), 2);
}

#[test]
fn asset_file_paths_lists_canonical_paths_in_order() {
    let mut mgr = fresh();
    assert_eq!(mgr.asset_file_paths().len(), 0);
    mgr.load_asset("a", "./shaders//one.vert").unwrap();
    mgr.load_asset("b", "shaders/two.frag").unwrap();
    assert_eq!(
        mgr.asset_file_paths(),
        vec![String::from("shaders/one.vert"), String::from("shaders/two.frag")]
    );
    mgr.destroy_asset("a").unwrap();
    assert_eq!(mgr.asset_file_paths(), vec![String::from("shaders/two.frag")]);
}

#[test]
fn empty_batch_reload_succeeds() {
    let mut mgr = fresh();
    assert!(mgr.watch_for_changes(&Vec::new()).is_ok());
    mgr.load_asset("a", "x.vert").unwrap();
    let unmatched = vec![String::from("nobody/loaded/this.txt")];
    assert!(mgr.watch_for_changes(&unmatched).is_ok());
}

#[test]
fn reload_does_not_touch_another_assets_lock() {
    let mut mgr = fresh();
    let a = mgr.load_asset("a", "a.vert").unwrap();
    mgr.load_asset("b", "b.frag").unwrap();
    // Hold a's (non-reentrant) lock while reloading b: reloading one
    // resource acquires only that resource's own lock, so this returns
    // instead of deadlocking.
    let inner = a.read(|_| mgr.reload_asset("b")).unwrap();
    assert!(matches!(inner, Ok(Some(()))));
    // `get` takes no resource lock at all.
    let got = a.read(|_| mgr.get_asset("a").is_some()).unwrap();
    assert!(got);
}

#[test]
fn reload_not_loaded_resource_reports_not_loaded() {
    let mut asset = SimpleAsset::new("a", "x.vert").unwrap();
    assert!(asset.is_loaded());
    asset.destroy().unwrap();
    assert!(!asset.is_loaded());
    let err = asset.reload().unwrap_err();
    assert_eq!(err.kind(), AssetErrorKind::NotLoaded);
}

#[test]
fn simple_asset_reports_its_path() {
    let asset = SimpleAsset::new("a", "dir/x.vert").unwrap();
    assert_eq!(asset.get_src_file_path(), "dir/x.vert");
    assert_eq!(asset.generation(), 1);
}
