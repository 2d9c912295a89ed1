use std::time::SystemTime;
use vstd::prelude::*;

use crate::files::{
    components_of, contains_string, file_name_of, has_string, path_components, path_file_name,
    same_path, same_texts, system_time_now, texts,
};

verus! {

broadcast use vstd::string::group_string_axioms;

/// The index of a loaded model among the graphics resources.
pub type ModelID = usize;

/// A request to draw a model that is looked up by its label.
pub struct DynamicModelRequest {
    pub label: String,
}

impl DynamicModelRequest {
    pub fn new(label: &str) -> (r: Self)
        ensures
            r.label@ == label@,
    {
        Self { label: label.to_string() }
    }
}

/// Where the settings and the assets are found.
pub struct PathSettings {
    pub display_settings_path: String,
    pub extensions_settings_path: String,
    pub assets_path: String,
    pub models_path: String,
}

/// The file extensions of each kind of asset.
pub struct Extensions {
    pub models: Vec<String>,
}

impl Extensions {
    /// No extension of any kind.
    pub fn new() -> (e: Self)
        ensures
            e.models@.len() == 0,
    {
        Self { models: Vec::new() }
    }
}

/// The size of the window and the frame rate.
pub struct DisplaySettings {
    pub screen_width: i32,
    pub screen_height: i32,
    pub fps: u32,
}

impl Default for DisplaySettings {
    fn default() -> (d: Self)
        ensures
            d.screen_width == 1024,
            d.screen_height == 768,
            d.fps == 60,
    {
        Self { screen_width: 1024, screen_height: 768, fps: 60 }
    }
}

/// Where a loaded asset is kept, and when it was loaded.
pub struct StorageInfo<T> {
    pub id: T,
    pub loaded_at_time: SystemTime,
}

impl<T> StorageInfo<T> {
    /// `id`, loaded now.
    pub fn now(id: T) -> (r: Option<Self>)
        ensures
            r matches Some(info) && info.id == id,
    {
        Some(Self { id, loaded_at_time: system_time_now() })
    }
}

/// What kind of asset a file is, and where it is kept once loaded.
pub enum AssetStorageInfo {
    Model(Option<StorageInfo<ModelID>>),
    Unrecognized,
}

/// A registered asset file.
pub struct Asset {
    pub file_name: String,
    pub path: String,
    pub storage_info: AssetStorageInfo,
}

/// `i` is the first position of `assets` whose path names the same file as
/// `path` (see `same_path`).
pub open spec fn first_with_path(assets: Seq<Asset>, path: Seq<char>, i: int) -> bool {
    &&& 0 <= i < assets.len()
    &&& same_path(assets[i].path@, path)
    &&& forall|t: int| 0 <= t < i ==> !same_path((#[trigger] assets[t]).path@, path)
}

/// `i` is the first position of `assets` whose file name is `name`.
pub open spec fn first_with_name(assets: Seq<Asset>, name: Seq<char>, i: int) -> bool {
    &&& 0 <= i < assets.len()
    &&& assets[i].file_name@ == name
    &&& forall|t: int| 0 <= t < i ==> (#[trigger] assets[t]).file_name@ != name
}

/// `a` is the asset registered for the file at `path` as `info`.
pub open spec fn registered_as(a: Asset, path: Seq<char>, info: AssetStorageInfo) -> bool {
    &&& a.file_name@ == path_file_name(path)->Some_0
    &&& a.path@ == path
    &&& a.storage_info == info
}

/// `after` is `before` after registering the file at `path` as `info`: an
/// unrecognized file changes nothing; otherwise the asset replaces the first
/// one registered under that path, or is appended if there is none.
pub open spec fn after_register(
    before: Seq<Asset>,
    after: Seq<Asset>,
    path: Seq<char>,
    info: AssetStorageInfo,
) -> bool {
    if (info matches AssetStorageInfo::Unrecognized) {
        after == before
    } else if exists|i: int| first_with_path(before, path, i) {
        exists|i: int, a: Asset|
            first_with_path(before, path, i) && registered_as(a, path, info) && after == before.update(i, a)
    } else {
        exists|a: Asset| registered_as(a, path, info) && after == before.push(a)
    }
}

/// No two assets name the same file.
pub open spec fn paths_distinct(assets: Seq<Asset>) -> bool {
    forall|i: int, j: int|
        0 <= i < assets.len() && 0 <= j < assets.len() && i != j ==> !same_path(
            (#[trigger] assets[i]).path@,
            (#[trigger] assets[j]).path@,
        )
}

/// The model that an asset holds, if it is a loaded model.
pub open spec fn loaded_model(a: Asset) -> Option<ModelID> {
    match a.storage_info {
        AssetStorageInfo::Model(Some(info)) => Some(info.id),
        _ => None,
    }
}

proof fn lemma_first_path_exists(assets: Seq<Asset>, path: Seq<char>, t: int)
    requires
        0 <= t < assets.len(),
        same_path(assets[t].path@, path),
    ensures
        exists|i: int| first_with_path(assets, path, i),
    decreases t,
{
    if exists|u: int| 0 <= u < t && same_path(assets[u].path@, path) {
        let u = choose|u: int| 0 <= u < t && same_path(assets[u].path@, path);
        lemma_first_path_exists(assets, path, u);
    } else {
        assert(first_with_path(assets, path, t));
    }
}

/// Once a loaded model is registered at a path whose file name no asset of
/// another file has, looking the model up by that name finds it.
pub proof fn lemma_registered_model_found(
    before: Seq<Asset>,
    after: Seq<Asset>,
    path: Seq<char>,
    info: StorageInfo<ModelID>,
)
    requires
        after_register(before, after, path, AssetStorageInfo::Model(Some(info))),
        forall|t: int|
            0 <= t < before.len() && !same_path((#[trigger] before[t]).path@, path)
                ==> before[t].file_name@ != path_file_name(path)->Some_0,
    ensures
        exists|i: int|
            first_with_name(after, path_file_name(path)->Some_0, i) && loaded_model(after[i])
                == Some(info.id),
{
    let name = path_file_name(path)->Some_0;
    if exists|i: int| first_with_path(before, path, i) {
        let (i, a) = choose|i: int, a: Asset|
            first_with_path(before, path, i) && registered_as(
                a,
                path,
                AssetStorageInfo::Model(Some(info)),
            ) && after == before.update(i, a);
        assert forall|t: int| 0 <= t < i implies (#[trigger] after[t]).file_name@ != name by {
            assert(after[t] == before[t]);
        }
        assert(first_with_name(after, name, i));
    } else {
        let a = choose|a: Asset|
            registered_as(a, path, AssetStorageInfo::Model(Some(info))) && after == before.push(a);
        assert forall|t: int| 0 <= t < before.len() implies (#[trigger] after[t]).file_name@
            != name by {
            assert(after[t] == before[t]);
            if same_path(before[t].path@, path) {
                lemma_first_path_exists(before, path, t);
            }
        }
        assert(first_with_name(after, name, before.len() as int));
    }
}

/// The registered assets, and the settings they were found with.
pub struct AssetStore {
    assets: Vec<Asset>,
    paths: PathSettings,
    extensions: Extensions,
}

impl AssetStore {
    /// The registered assets, in the order in which their paths were first
    /// registered.
    pub closed spec fn assets(&self) -> Seq<Asset> {
        self.assets@
    }

    /// The model extensions the store recognizes.
    pub closed spec fn model_extensions(&self) -> Seq<String> {
        self.extensions.models@
    }

    /// The path settings the registry was made with.
    pub closed spec fn path_settings(&self) -> PathSettings {
        self.paths
    }

    /// A store with no assets, for the given settings.
    pub fn with_settings(paths: PathSettings, extensions: Extensions) -> (s: Self)
        ensures
            s.assets() == Seq::<Asset>::empty(),
            s.model_extensions() == extensions.models@,
            s.path_settings() == paths,
    {
        Self { assets: Vec::new(), paths, extensions }
    }

    /// The settings the store was made with.
    pub fn paths(&self) -> (p: &PathSettings)
        ensures
            *p == self.path_settings(),
    {
        &self.paths
    }

    fn index_of_path(&self, path: &String) -> (r: Option<usize>)
        ensures
            match r {
                Some(i) => first_with_path(self.assets(), path@, i as int),
                None => forall|t: int|
                    0 <= t < self.assets().len() ==> !same_path(
                        (#[trigger] self.assets()[t]).path@,
                        path@,
                    ),
            },
    {
        let wanted = components_of(path.as_str());
        let mut i: usize = 0;
        while i < self.assets.len()
            invariant
                i <= self.assets@.len(),
                texts(wanted@) == path_components(path@),
                forall|t: int| 0 <= t < i ==> !same_path((#[trigger] self.assets@[t]).path@, path@),
            decreases self.assets@.len() - i,
        {
            let here = components_of(self.assets[i].path.as_str());
            if same_texts(&here, &wanted) {
                return Some(i);
            }
            i = i + 1;
        }
        None
    }

    fn index_of_name(&self, name: &String) -> (r: Option<usize>)
        ensures
            match r {
                Some(i) => first_with_name(self.assets(), name@, i as int),
                None => forall|t: int|
                    0 <= t < self.assets().len() ==> (#[trigger] self.assets()[t]).file_name@
                        != name@,
            },
    {
        let mut i: usize = 0;
        while i < self.assets.len()
            invariant
                i <= self.assets@.len(),
                forall|t: int| 0 <= t < i ==> (#[trigger] self.assets@[t]).file_name@ != name@,
            decreases self.assets@.len() - i,
        {
            if self.assets[i].file_name == *name {
                return Some(i);
            }
            i = i + 1;
        }
        None
    }

    /// Whether an asset is registered for the file at `path`.
    pub fn contains_asset(&self, path: &str) -> (b: bool)
        ensures
            b == exists|i: int|
                0 <= i < self.assets().len() && same_path((#[trigger] self.assets()[i]).path@, path@),
    {
        let p = path.to_string();
        match self.index_of_path(&p) {
            Some(i) => true,
            None => false,
        }
    }

    /// The first registered asset named `file_name`, if any.
    pub fn get_asset_info(&self, file_name: &str) -> (r: Option<&Asset>)
        ensures
            match r {
                Some(a) => exists|i: int|
                    first_with_name(self.assets(), file_name@, i) && *a == self.assets()[i],
                None => forall|t: int|
                    0 <= t < self.assets().len() ==> (#[trigger] self.assets()[t]).file_name@
                        != file_name@,
            },
    {
        let name = file_name.to_string();
        match self.index_of_name(&name) {
            Some(i) => Some(&self.assets[i]),
            None => None,
        }
    }

    /// The model held by the first registered asset named `name`, if that
    /// asset is a loaded model.
    pub fn get_model_index(&self, name: &str) -> (r: Option<ModelID>)
        ensures
            match r {
                Some(id) => exists|i: int|
                    first_with_name(self.assets(), name@, i) && loaded_model(self.assets()[i])
                        == Some(id),
                None => forall|i: int|
                    first_with_name(self.assets(), name@, i) ==> loaded_model(self.assets()[i])
                        is None,
            },
    {
        let n = name.to_string();
        match self.index_of_name(&n) {
            Some(i) => match &self.assets[i].storage_info {
                AssetStorageInfo::Model(Some(y)) => Some(y.id),
                _ => None,
            },
            None => None,
        }
    }

    /// Where the model at `path` goes when it is loaded, and whether that slot
    /// is new: the slot it holds if the first asset registered under `path`
    /// is a loaded model, and otherwise the next free slot, `models_len`.
    pub fn model_slot(&self, path: &str, models_len: usize) -> (r: (ModelID, bool))
        ensures
            (exists|i: int|
                first_with_path(self.assets(), path@, i) && loaded_model(self.assets()[i])
                    == Some(r.0)) && !r.1 || (r == (models_len, true) && forall|i: int|
                first_with_path(self.assets(), path@, i) ==> loaded_model(self.assets()[i])
                    is None),
    {
        let p = path.to_string();
        match self.index_of_path(&p) {
            Some(i) => match &self.assets[i].storage_info {
                AssetStorageInfo::Model(Some(info)) => (info.id, false),
                _ => (models_len, true),
            },
            None => (models_len, true),
        }
    }

    /// What an asset with extension `ext` is: a model if `ext` is one of the
    /// model extensions, unrecognized otherwise.
    pub fn new_asset_storage_info_from_ext(&self, ext: &String) -> (info: AssetStorageInfo)
        ensures
            has_string(self.model_extensions(), ext@) ==> info matches AssetStorageInfo::Model(None),
            !has_string(self.model_extensions(), ext@) ==> info matches AssetStorageInfo::Unrecognized,
    {
        if contains_string(&self.extensions.models, ext) {
            AssetStorageInfo::Model(None)
        } else {
            AssetStorageInfo::Unrecognized
        }
    }

    /// Registers the file at `path` as `register_asset` does when the path has
    /// a file name, and returns whether it had one; a path without one changes
    /// nothing.
    pub fn try_register_asset(&mut self, path: &str, asset_storage_info: AssetStorageInfo) -> (b:
        bool)
        ensures
            b == path_file_name(path@) is Some,
            b ==> after_register(old(self).assets(), final(self).assets(), path@, asset_storage_info),
            !b ==> final(self).assets() == old(self).assets(),
            final(self).model_extensions() == old(self).model_extensions(),
            final(self).path_settings() == old(self).path_settings(),
    {
        match file_name_of(path) {
            Some(_) => {
                self.register_asset(path, asset_storage_info);
                true
            },
            None => false,
        }
    }

    /// Registers the file at `path` as `asset_storage_info`, replacing what was
    /// registered under that path; unrecognized files are not registered.
    pub fn register_asset(&mut self, path: &str, asset_storage_info: AssetStorageInfo)
        requires
            path_file_name(path@) is Some,
        ensures
            after_register(old(self).assets(), final(self).assets(), path@, asset_storage_info),
            paths_distinct(old(self).assets()) ==> paths_distinct(final(self).assets()),
            final(self).model_extensions() == old(self).model_extensions(),
            final(self).path_settings() == old(self).path_settings(),
    {
        let file_name = match file_name_of(path) {
            Some(name) => name,
            None => {
                assert(false);
                String::new()
            },
        };
        match asset_storage_info {
            AssetStorageInfo::Unrecognized => {},
            _ => {
                let p = path.to_string();
                let found = self.index_of_path(&p);
                let asset = Asset { file_name, path: p, storage_info: asset_storage_info };
                let ghost a = asset;
                match found {
                    Some(i) => {
                        self.assets.set(i, asset);
                        assert(first_with_path(old(self).assets(), path@, i as int));
                        assert(self.assets() == old(self).assets().update(i as int, a));
                        assert(registered_as(a, path@, asset_storage_info));
                        assert forall|x: int, y: int|
                            0 <= x < self.assets().len() && 0 <= y < self.assets().len() && x != y
                                && paths_distinct(old(self).assets()) implies !same_path(
                            (#[trigger] self.assets()[x]).path@,
                            (#[trigger] self.assets()[y]).path@,
                        ) by {
                            if x == i {
                                assert(same_path(old(self).assets()[i as int].path@, path@));
                                assert(!same_path(old(self).assets()[i as int].path@, old(self).assets()[y].path@));
                            } else if y == i {
                                assert(same_path(old(self).assets()[i as int].path@, path@));
                                assert(!same_path(old(self).assets()[x].path@, old(self).assets()[i as int].path@));
                            }
                        }
                    },
                    None => {
                        self.assets.push(asset);
                        assert forall|i: int| !first_with_path(old(self).assets(), path@, i) by {}
                        assert(self.assets() == old(self).assets().push(a));
                        assert(registered_as(a, path@, asset_storage_info));
                        assert forall|x: int, y: int|
                            0 <= x < self.assets().len() && 0 <= y < self.assets().len() && x != y
                                && paths_distinct(old(self).assets()) implies !same_path(
                            (#[trigger] self.assets()[x]).path@,
                            (#[trigger] self.assets()[y]).path@,
                        ) by {
                            if x < old(self).assets().len() && y < old(self).assets().len() {
                                assert(old(self).assets()[x] == self.assets()[x]);
                                assert(old(self).assets()[y] == self.assets()[y]);
                            }
                        }
                    },
                }
                assert(a.path@ == path@ && a.file_name@ == path_file_name(path@)->Some_0);
            },
        }
    }
}

} // verus!
