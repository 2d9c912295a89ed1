use deeper::assets::{AssetKind, AssetManager, DisplaySettings as AssetsDisplaySettings, Extensions as AssetsExtensions, PathSettings as AssetsPathSettings};
use deeper::assman::{
    AssetStorageInfo, AssetStore, DisplaySettings, DynamicModelRequest, Extensions, PathSettings,
    StorageInfo,
};
use deeper::loader::{
    AssetManager as LoaderAssetManager, DisplaySettings as LoaderDisplaySettings, ModelLoad,
};

fn store() -> AssetStore {
    let paths = PathSettings {
        display_settings_path: "settings/display.settings".to_string(),
        extensions_settings_path: "settings/extensions.settings".to_string(),
        assets_path: "assets/".to_string(),
        models_path: "assets/Models/".to_string(),
    };
    let mut extensions = Extensions::new();
    extensions.models.push("obj".to_string());
    extensions.models.push("glb".to_string());
    AssetStore::with_settings(paths, extensions)
}

#[test]
fn settings_defaults() {
    let d = DisplaySettings::default();
    assert_eq!((d.screen_width, d.screen_height, d.fps), (1024, 768, 60));
    let d = AssetsDisplaySettings::new();
    assert_eq!((d.screen_width, d.screen_height, d.fps), (1024, 768, 60));
    let d = LoaderDisplaySettings::new();
    assert_eq!((d.screen_width, d.screen_height, d.fps), (1024, 768, 60));
    let p = AssetsPathSettings::new();
    assert_eq!(p.display_settings_path, "settings/display.settings");
    assert_eq!(p.extensions_settings_path, "settings/extensions.settings");
    assert_eq!(p.assets_path, "assets/");
    assert_eq!(p.models_path, "assets/Models/");
    assert_eq!(p.entities_path, "entities/");
    assert_eq!(p.shaders_path, "shaders/");
    let e = AssetsExtensions::new();
    assert!(e.models.is_empty() && e.images.is_empty());
    assert!(Extensions::new().models.is_empty());
    assert_eq!(DynamicModelRequest::new("cube").label, "cube");
}

#[test]
fn extensions_decide_the_kind_of_asset() {
    let s = store();
    assert!(matches!(s.new_asset_storage_info_from_ext(&"obj".to_string()), AssetStorageInfo::Model(None)));
    assert!(matches!(s.new_asset_storage_info_from_ext(&"glb".to_string()), AssetStorageInfo::Model(None)));
    assert!(matches!(s.new_asset_storage_info_from_ext(&"png".to_string()), AssetStorageInfo::Unrecognized));
}

#[test]
fn a_registered_model_is_found_by_its_file_name() {
    let mut s = store();
    assert_eq!(s.get_model_index("cube.obj"), None);
    s.register_asset("assets/Models/cube.obj", AssetStorageInfo::Model(StorageInfo::now(3)));
    assert!(s.contains_asset("assets/Models/cube.obj"));
    assert!(!s.contains_asset("cube.obj"));
    assert_eq!(s.get_model_index("cube.obj"), Some(3));
    assert_eq!(s.get_model_index("assets/Models/cube.obj"), None);
    let a = s.get_asset_info("cube.obj").unwrap();
    assert_eq!(a.file_name, "cube.obj");
    assert_eq!(a.path, "assets/Models/cube.obj");
    // registering again under the same path replaces the asset
    s.register_asset("assets/Models/cube.obj", AssetStorageInfo::Model(None));
    assert_eq!(s.get_model_index("cube.obj"), None);
    assert_eq!(s.model_slot("assets/Models/cube.obj", 9), (9, true));
    s.register_asset("assets/Models/cube.obj", AssetStorageInfo::Model(StorageInfo::now(4)));
    assert_eq!(s.model_slot("assets/Models/cube.obj", 9), (4, false));
    assert_eq!(s.model_slot("assets/Models/plane.obj", 9), (9, true));
}

#[test]
fn unrecognized_files_are_not_registered() {
    let mut s = store();
    s.register_asset("assets/readme.txt", AssetStorageInfo::Unrecognized);
    assert!(!s.contains_asset("assets/readme.txt"));
    assert!(s.get_asset_info("readme.txt").is_none());
}

#[test]
fn a_path_without_a_file_name_is_refused() {
    let mut s = store();
    assert!(!s.try_register_asset("assets/..", AssetStorageInfo::Model(None)));
    assert!(!s.contains_asset("assets/.."));
    assert!(s.try_register_asset("assets/Models/plane.obj", AssetStorageInfo::Model(StorageInfo::now(0))));
    assert_eq!(s.get_model_index("plane.obj"), Some(0));
}

#[test]
fn asset_manager_finds_models_by_name() {
    let mut e = AssetsExtensions::new();
    e.models.push("obj".to_string());
    let mut m = AssetManager::with_settings(AssetsPathSettings::new(), e);
    assert!(m.is_model_extension(&"obj".to_string()));
    assert!(!m.is_model_extension(&"gltf".to_string()));
    m.register_asset("assets/Models/Wall.obj", AssetKind::Model(2));
    m.register_asset("settings/display.settings", AssetKind::Settings);
    assert_eq!(m.get_model_index("Wall.obj"), Some(2));
    assert_eq!(m.get_model_index("display.settings"), None);
    assert_eq!(m.get_model_index("Floor.obj"), None);
    assert!(!m.try_register_asset("/", AssetKind::Settings));
    assert_eq!(m.paths().models_path, "assets/Models/");
}

#[test]
fn loader_asset_manager_tracks_model_slots() {
    let mut m = LoaderAssetManager::with_extensions(vec!["obj".to_string()]);
    assert!(m.is_model_extension(&"obj".to_string()));
    assert_eq!(m.model_slot("assets/Models/cube.obj"), None);
    m.register_asset("assets/Models/cube.obj", AssetKind::Model(0));
    assert_eq!(m.model_slot("assets/Models/cube.obj"), Some(0));
    assert_eq!(m.get_model_index("cube.obj"), Some(0));
    assert!(m.try_register_asset("settings/paths.settings", AssetKind::Settings));
    assert_eq!(m.get_model_index("paths.settings"), None);
}

#[test]
fn loading_models_appends_new_files_and_reloads_changed_ones() {
    let mut m = LoaderAssetManager::with_extensions(vec!["obj".to_string()]);
    assert_eq!(m.loaded_at("assets/Models/cube.obj"), None);
    assert_eq!(m.book_model_load("assets/Models/cube.obj", false, 0), ModelLoad::Append);
    assert_eq!(m.model_slot("assets/Models/cube.obj"), Some(0));
    let first = m.loaded_at("assets/Models/cube.obj").unwrap();
    assert_eq!(m.book_model_load("assets/Models/plane.obj", false, 1), ModelLoad::Append);
    assert_eq!(m.model_slot("assets/Models/plane.obj"), Some(1));
    assert_eq!(m.book_model_load("assets/Models/cube.obj", false, 2), ModelLoad::Keep);
    assert_eq!(m.loaded_at("assets/Models/cube.obj"), Some(first));
    assert_eq!(m.book_model_load("assets/Models/cube.obj", true, 2), ModelLoad::Reload(0));
    assert!(m.loaded_at("assets/Models/cube.obj").unwrap() >= first);
    assert_eq!(m.get_model_index("cube.obj"), Some(0));
    assert_eq!(m.book_model_load("/", true, 2), ModelLoad::Keep);
}

#[test]
fn paths_are_compared_as_paths() {
    let mut s = store();
    s.register_asset("assets/Models/cube.obj", AssetStorageInfo::Model(StorageInfo::now(3)));
    assert!(s.contains_asset("assets//Models/cube.obj"));
    assert!(s.contains_asset("assets/./Models/cube.obj"));
    assert!(!s.contains_asset("assets/Models/cube.ob"));
    // the same file under another spelling replaces the asset
    s.register_asset("assets/Models//cube.obj", AssetStorageInfo::Model(StorageInfo::now(5)));
    assert_eq!(s.get_model_index("cube.obj"), Some(5));
    assert_eq!(s.model_slot("assets/Models/cube.obj", 9), (5, false));

    let mut m = LoaderAssetManager::with_extensions(vec!["obj".to_string()]);
    m.register_asset("assets/Models/", AssetKind::Settings);
    assert!(m.loaded_at("assets/Models").is_some());
    m.register_asset("a/b.obj", AssetKind::Model(0));
    assert_eq!(m.model_slot("a//b.obj"), Some(0));
}
