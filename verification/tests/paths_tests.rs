use hotreload_assets::assets::shader_kind_for_path;
use hotreload_assets::assets::AssetErrorKind;
use hotreload_assets::assets::ShaderKind;
use hotreload_assets::paths::normalize_path;
use hotreload_assets::paths::path_extension;

#[test]
fn normalize_collapses_separators_and_dots() {
    assert_eq!(normalize_path("a//b/./c"), "a/b/c");
    assert_eq!(normalize_path("./x"), "x");
    assert_eq!(normalize_path("assets/shaders/triangle.vert"), "assets/shaders/triangle.vert");
    assert_eq!(normalize_path("a/b/"), "a/b");
}

#[test]
fn normalize_resolves_parent_segments() {
    assert_eq!(normalize_path("a/../b"), "b");
    assert_eq!(normalize_path("a/../../b"), "../b");
    assert_eq!(normalize_path("/../x/"), "/x");
    assert_eq!(normalize_path("../x"), "../x");
}

#[test]
fn normalize_degenerate_paths() {
    assert_eq!(normalize_path(""), ".");
    assert_eq!(normalize_path("."), ".");
    assert_eq!(normalize_path("/"), "/");
    assert_eq!(normalize_path("//"), "/");
    assert_eq!(normalize_path("/a"), "/a");
}

#[test]
fn extension_of_ordinary_names() {
    assert_eq!(path_extension("dir/a.vert"), Some(String::from("vert")));
    assert_eq!(path_extension("triangle.frag"), Some(String::from("frag")));
    assert_eq!(path_extension("archive.tar.gz"), Some(String::from("gz")));
    assert_eq!(path_extension("trailing."), Some(String::from("")));
}

#[test]
fn extension_missing_or_hidden() {
    assert_eq!(path_extension("noext"), None);
    assert_eq!(path_extension("dir/.hidden"), None);
    assert_eq!(path_extension("dir.with.dots/noext"), None);
    assert_eq!(path_extension("dir/"), None);
    assert_eq!(path_extension(""), None);
}

#[test]
fn shader_kind_selected_by_extension() {
    assert_eq!(shader_kind_for_path("a/b.vert").unwrap(), ShaderKind::Vertex);
    assert_eq!(shader_kind_for_path("a/b.frag").unwrap(), ShaderKind::Fragment);
}

#[test]
fn shader_kind_refuses_other_extensions() {
    let e = shader_kind_for_path("a/b.glsl").unwrap_err();
    assert_eq!(e.kind(), AssetErrorKind::InvalidFileExtension);
    let e = shader_kind_for_path("noext").unwrap_err();
    assert_eq!(e.kind(), AssetErrorKind::InvalidFileExtension);
}
