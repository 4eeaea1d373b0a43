use hotreload_assets::assets::AssetError;
use hotreload_assets::assets::AssetErrorKind;
use hotreload_assets::assets::ShaderError;
use hotreload_assets::assets::ShaderErrorKind;
use hotreload_assets::graphics::ProgramError;
use hotreload_assets::graphics::ProgramErrorKind;
use hotreload_assets::manager::AssetManagerError;
use hotreload_assets::manager::AssetManagerErrorKind;
use hotreload_assets::watcher::AssetsWatcherError;
use hotreload_assets::watcher::AssetsWatcherErrorKind;

#[test]
fn asset_error_carries_message_kind_and_cause() {
    let e = AssetError::new(
        "unable to load asset",
        AssetErrorKind::LoadingFailed,
        Some(String::from("read failed")),
    );
    assert_eq!(e.message(), "unable to load asset");
    assert_eq!(e.kind(), AssetErrorKind::LoadingFailed);
    assert_eq!(e.source_message(), Some(String::from("read failed")));
    let bare = AssetError::new("asset lock poisoned", AssetErrorKind::Poisoned, None);
    assert_eq!(bare.kind(), AssetErrorKind::Poisoned);
    assert_eq!(bare.source_message(), None);
}

#[test]
fn shader_error_carries_message_and_kind() {
    let e = ShaderError::new("malformed shader source", ShaderErrorKind::MalformedSource, None);
    assert_eq!(e.message(), "malformed shader source");
    assert_eq!(e.kind(), ShaderErrorKind::MalformedSource);
    let c = ShaderError::new(
        "compile log",
        ShaderErrorKind::CompilationError,
        Some(String::from("syntax error")),
    );
    assert_eq!(c.kind(), ShaderErrorKind::CompilationError);
}

#[test]
fn manager_error_carries_message_kind_and_cause() {
    let e = AssetManagerError::new(
        "unable to reload asset",
        AssetManagerErrorKind::AssetReloadError,
        Some(String::from("compile failed")),
    );
    assert_eq!(e.message(), "unable to reload asset");
    assert_eq!(e.kind(), AssetManagerErrorKind::AssetReloadError);
    assert_eq!(e.source_message(), Some(String::from("compile failed")));
    let w = AssetManagerError::new(
        "watcher not yet started",
        AssetManagerErrorKind::WatcherNotInitializedError,
        None,
    );
    assert_eq!(w.kind(), AssetManagerErrorKind::WatcherNotInitializedError);
    let we = AssetManagerError::new(
        "asset manager watcher error",
        AssetManagerErrorKind::WatcherError,
        None,
    );
    assert_eq!(we.kind(), AssetManagerErrorKind::WatcherError);
}

#[test]
fn watcher_error_carries_message_and_kind() {
    let e = AssetsWatcherError::new(
        "asset manager watcher error",
        AssetsWatcherErrorKind::InitializationError,
        Some(String::from("inotify limit reached")),
    );
    assert_eq!(e.message(), "asset manager watcher error");
    assert_eq!(e.kind(), AssetsWatcherErrorKind::InitializationError);
}

#[test]
fn program_error_carries_message_and_kind() {
    let e = ProgramError::new("shader asset is poisoned", ProgramErrorKind::ShaderAssetPoisoned, None);
    assert_eq!(e.message(), "shader asset is poisoned");
    assert_eq!(e.kind(), ProgramErrorKind::ShaderAssetPoisoned);
}
