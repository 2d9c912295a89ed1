use std::time::SystemTime;
use vstd::prelude::*;

use crate::files::{
    components_of, contains_string, file_name_of, has_string, path_components, path_file_name,
    same_path, same_texts, system_time_now, texts,
};

verus! {

broadcast use vstd::string::group_string_axioms;

/// Where the settings, assets, entities and shaders are found.
pub struct PathSettings {
    pub display_settings_path: String,
    pub extensions_settings_path: String,
    pub assets_path: String,
    pub models_path: String,
    pub entities_path: String,
    pub shaders_path: String,
}

impl PathSettings {
    /// The default locations.
    pub fn new() -> (p: Self)
        ensures
            p.display_settings_path@ == "settings/display.settings"@,
            p.extensions_settings_path@ == "settings/extensions.settings"@,
            p.assets_path@ == "assets/"@,
            p.models_path@ == "assets/Models/"@,
            p.entities_path@ == "entities/"@,
            p.shaders_path@ == "shaders/"@,
    {
        Self {
            display_settings_path: "settings/display.settings".to_string(),
            extensions_settings_path: "settings/extensions.settings".to_string(),
            assets_path: "assets/".to_string(),
            models_path: "assets/Models/".to_string(),
            entities_path: "entities/".to_string(),
            shaders_path: "shaders/".to_string(),
        }
    }
}

/// The file extensions of models and of images.
pub struct Extensions {
    pub models: Vec<String>,
    pub images: Vec<String>,
}

impl Extensions {
    /// No extension of any kind.
    pub fn new() -> (e: Self)
        ensures
            e.models@.len() == 0,
            e.images@.len() == 0,
    {
        Self { models: Vec::new(), images: Vec::new() }
    }
}

/// The size of the window and the frame rate.
pub struct DisplaySettings {
    pub screen_width: i32,
    pub screen_height: i32,
    pub fps: u32,
}

impl DisplaySettings {
    /// A 1024 by 768 window at 60 frames per second.
    pub fn new() -> (d: Self)
        ensures
            d.screen_width == 1024,
            d.screen_height == 768,
            d.fps == 60,
    {
        Self { screen_width: 1024, screen_height: 768, fps: 60 }
    }
}

/// What an asset file holds.
#[derive(Copy, Clone, Debug, PartialEq, Eq, Structural)]
pub enum AssetKind {
    Settings,
    /// A model, by its index among the loaded models
    Model(usize),
}

/// A registered asset file.
pub struct Asset {
    pub file_name: String,
    pub path: String,
    pub loaded_at_time: SystemTime,
    pub asset_kind: AssetKind,
}

/// `i` is the first position of `assets` whose path names the same file as
/// `path` (see `same_path`).
pub open spec fn first_with_path(assets: Seq<Asset>, path: Seq<char>, i: int) -> bool {
    &&& 0 <= i < assets.len()
    &&& same_path(assets[i].path@, path)
    &&& forall|t: int| 0 <= t < i ==> !same_path((#[trigger] assets[t]).path@, path)
}

/// `i` is the first position of `assets` whose file name is `name`.
pub open spec fn first_with_name(assets: Seq<Asset>, name: Seq<char>, i: int) -> bool {
    &&& 0 <= i < assets.len()
    &&& assets[i].file_name@ == name
    &&& forall|t: int| 0 <= t < i ==> (#[trigger] assets[t]).file_name@ != name
}

/// `a` is the asset registered for the file at `path` as `kind`.
pub open spec fn registered_as(a: Asset, path: Seq<char>, kind: AssetKind) -> bool {
    &&& a.file_name@ == path_file_name(path)->Some_0
    &&& a.path@ == path
    &&& a.asset_kind == kind
}

/// `after` is `before` after registering the file at `path` as `kind`: the
/// asset replaces the first one registered under that path, or is appended if
/// there is none.
pub open spec fn after_register(
    before: Seq<Asset>,
    after: Seq<Asset>,
    path: Seq<char>,
    kind: AssetKind,
) -> bool {
    if exists|i: int| first_with_path(before, path, i) {
        exists|i: int, a: Asset|
            first_with_path(before, path, i) && registered_as(a, path, kind) && after
                == before.update(i, a)
    } else {
        exists|a: Asset| registered_as(a, path, kind) && after == before.push(a)
    }
}

/// The model index an asset stands for, if it is a model.
pub open spec fn model_index(a: Asset) -> Option<usize> {
    match a.asset_kind {
        AssetKind::Model(idx) => Some(idx),
        _ => None,
    }
}

/// The registered assets, and the settings they were found with.
pub struct AssetManager {
    assets: Vec<Asset>,
    paths: PathSettings,
    extensions: Extensions,
}

impl AssetManager {
    /// The registered assets, in the order in which their paths were first
    /// registered.
    pub closed spec fn assets(&self) -> Seq<Asset> {
        self.assets@
    }

    /// The model extensions the manager recognizes.
    pub closed spec fn model_extensions(&self) -> Seq<String> {
        self.extensions.models@
    }

    /// The image extensions the manager keeps.
    pub closed spec fn image_extensions(&self) -> Seq<String> {
        self.extensions.images@
    }

    /// The path settings the registry was made with.
    pub closed spec fn path_settings(&self) -> PathSettings {
        self.paths
    }

    /// A manager with no assets, for the given settings.
    pub fn with_settings(paths: PathSettings, extensions: Extensions) -> (m: Self)
        ensures
            m.assets() == Seq::<Asset>::empty(),
            m.model_extensions() == extensions.models@,
            m.image_extensions() == extensions.images@,
            m.path_settings() == paths,
    {
        Self { assets: Vec::new(), paths, extensions }
    }

    /// The settings the manager was made with.
    pub fn paths(&self) -> (p: &PathSettings)
        ensures
            *p == self.path_settings(),
    {
        &self.paths
    }

    /// Whether `ext` is a model extension.
    pub fn is_model_extension(&self, ext: &String) -> (b: bool)
        ensures
            b == has_string(self.model_extensions(), ext@),
    {
        contains_string(&self.extensions.models, ext)
    }

    /// The model that the first asset named `name` stands for, if that asset
    /// is a model.
    pub fn get_model_index(&self, name: &str) -> (r: Option<usize>)
        ensures
            match r {
                Some(idx) => exists|i: int|
                    first_with_name(self.assets(), name@, i) && model_index(self.assets()[i])
                        == Some(idx),
                None => forall|i: int|
                    first_with_name(self.assets(), name@, i) ==> model_index(self.assets()[i])
                        is None,
            },
    {
        let n = name.to_string();
        let mut i: usize = 0;
        while i < self.assets.len()
            invariant
                i <= self.assets@.len(),
                n@ == name@,
                forall|t: int| 0 <= t < i ==> (#[trigger] self.assets@[t]).file_name@ != name@,
            decreases self.assets@.len() - i,
        {
            if self.assets[i].file_name == n {
                assert(first_with_name(self.assets(), name@, i as int));
                return match self.assets[i].asset_kind {
                    AssetKind::Model(idx) => Some(idx),
                    _ => None,
                };
            }
            i = i + 1;
        }
        None
    }

    fn index_of_path(&self, path: &String) -> (r: Option<usize>)
        ensures
            match r {
                Some(i) => first_with_path(self.assets(), path@, i as int),
                None => forall|t: int|
                    0 <= t < self.assets().len() ==> !same_path(
                        (#[trigger] self.assets()[t]).path@,
                        path@,
                    ),
            },
    {
        let wanted = components_of(path.as_str());
        let mut i: usize = 0;
        while i < self.assets.len()
            invariant
                i <= self.assets@.len(),
                texts(wanted@) == path_components(path@),
                forall|t: int| 0 <= t < i ==> !same_path((#[trigger] self.assets@[t]).path@, path@),
            decreases self.assets@.len() - i,
        {
            let here = components_of(self.assets[i].path.as_str());
            if same_texts(&here, &wanted) {
                return Some(i);
            }
            i = i + 1;
        }
        None
    }

    /// Registers the file at `path` as `asset_kind`, loaded now, replacing what
    /// was registered under that path.
    pub fn register_asset(&mut self, path: &str, asset_kind: AssetKind)
        requires
            path_file_name(path@) is Some,
        ensures
            after_register(old(self).assets(), final(self).assets(), path@, asset_kind),
            final(self).model_extensions() == old(self).model_extensions(),
            final(self).image_extensions() == old(self).image_extensions(),
            final(self).path_settings() == old(self).path_settings(),
    {
        let file_name = match file_name_of(path) {
            Some(name) => name,
            None => {
                assert(false);
                String::new()
            },
        };
        let p = path.to_string();
        let found = self.index_of_path(&p);
        let asset = Asset { file_name, path: p, loaded_at_time: system_time_now(), asset_kind };
        let ghost a = asset;
        match found {
            Some(i) => {
                self.assets.set(i, asset);
                assert(first_with_path(old(self).assets(), path@, i as int));
                assert(self.assets() == old(self).assets().update(i as int, a));
                assert(registered_as(a, path@, asset_kind));
            },
            None => {
                self.assets.push(asset);
                assert forall|j: int| !first_with_path(old(self).assets(), path@, j) by {}
                assert(self.assets() == old(self).assets().push(a));
                assert(registered_as(a, path@, asset_kind));
            },
        }
    }

    /// Registers the file at `path` as `register_asset` does when the path has
    /// a file name, and returns whether it had one; a path without one changes
    /// nothing.
    pub fn try_register_asset(&mut self, path: &str, asset_kind: AssetKind) -> (b: bool)
        ensures
            b == path_file_name(path@) is Some,
            b ==> after_register(old(self).assets(), final(self).assets(), path@, asset_kind),
            !b ==> final(self).assets() == old(self).assets(),
            final(self).model_extensions() == old(self).model_extensions(),
            final(self).image_extensions() == old(self).image_extensions(),
            final(self).path_settings() == old(self).path_settings(),
    {
        match file_name_of(path) {
            Some(_) => {
                self.register_asset(path, asset_kind);
                true
            },
            None => false,
        }
    }
}

} // verus!
