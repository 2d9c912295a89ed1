use std::time::SystemTime;
use vstd::prelude::*;

use crate::assets::AssetKind;
use crate::files::{
    components_of, contains_string, file_name_of, has_string, path_components, path_file_name,
    same_path, same_texts, system_time_now, texts,
};

verus! {

broadcast use vstd::string::group_string_axioms;

/// The size of the window and the frame rate.
pub struct DisplaySettings {
    pub screen_width: i32,
    pub screen_height: i32,
    pub fps: u32,
}

impl DisplaySettings {
    /// A 1024 by 768 window at 60 frames per second.
    pub fn new() -> (d: Self)
        ensures
            d.screen_width == 1024,
            d.screen_height == 768,
            d.fps == 60,
    {
        Self { screen_width: 1024, screen_height: 768, fps: 60 }
    }
}

/// A registered file: its name, when it was loaded, and what it holds.
pub struct LoadedAsset {
    pub path: String,
    pub name: String,
    pub loaded_at_time: SystemTime,
    pub asset_kind: AssetKind,
}

/// What loading a model file asks of the caller.
#[derive(Copy, Clone, Debug, PartialEq, Eq, Structural)]
pub enum ModelLoad {
    /// Load the file again into model slot `idx`; it was changed since.
    Reload(usize),
    /// The loaded model is current: nothing to load.
    Keep,
    /// Load the file and push it as the next model.
    Append,
}

/// `b` is `a` loaded again: the same file, name and kind, at another time.
pub open spec fn reloaded(a: LoadedAsset, b: LoadedAsset) -> bool {
    b.path@ == a.path@ && b.name@ == a.name@ && b.asset_kind == a.asset_kind
}

/// The registered files and the model extensions.
pub struct AssetManager {
    assets: Vec<LoadedAsset>,
    model_extensions: Vec<String>,
}

/// `i` is the first position of `assets` whose name is `name`.
pub open spec fn first_named(assets: Seq<LoadedAsset>, name: Seq<char>, i: int) -> bool {
    &&& 0 <= i < assets.len()
    &&& assets[i].name@ == name
    &&& forall|t: int| 0 <= t < i ==> (#[trigger] assets[t]).name@ != name
}

/// `i` is the first position of `assets` whose path names the same file as
/// `path` (see `same_path`).
pub open spec fn first_at_path(assets: Seq<LoadedAsset>, path: Seq<char>, i: int) -> bool {
    &&& 0 <= i < assets.len()
    &&& same_path(assets[i].path@, path)
    &&& forall|t: int| 0 <= t < i ==> !same_path((#[trigger] assets[t]).path@, path)
}

/// `a` is the file registered at `path` as `kind`.
pub open spec fn loaded_as(a: LoadedAsset, path: Seq<char>, kind: AssetKind) -> bool {
    &&& a.name@ == path_file_name(path)->Some_0
    &&& a.path@ == path
    &&& a.asset_kind == kind
}

impl AssetManager {
    /// The registered files, in the order in which their paths were first
    /// registered.
    pub closed spec fn assets(&self) -> Seq<LoadedAsset> {
        self.assets@
    }

    /// The model extensions.
    pub closed spec fn extensions(&self) -> Seq<String> {
        self.model_extensions@
    }

    /// A manager with no files registered, recognizing `model_extensions`.
    pub fn with_extensions(model_extensions: Vec<String>) -> (m: Self)
        ensures
            m.assets() == Seq::<LoadedAsset>::empty(),
            m.extensions() == model_extensions@,
    {
        Self { assets: Vec::new(), model_extensions }
    }

    /// Whether `ext` is a model extension.
    pub fn is_model_extension(&self, ext: &String) -> (b: bool)
        ensures
            b == has_string(self.extensions(), ext@),
    {
        contains_string(&self.model_extensions, ext)
    }

    /// The model that the first file named `name` holds, if it holds one.
    pub fn get_model_index(&self, name: &str) -> (r: Option<usize>)
        ensures
            match r {
                Some(idx) => exists|i: int|
                    first_named(self.assets(), name@, i) && self.assets()[i].asset_kind
                        == AssetKind::Model(idx),
                None => forall|i: int|
                    first_named(self.assets(), name@, i) ==> !(self.assets()[i].asset_kind is Model),
            },
    {
        let n = name.to_string();
        let mut i: usize = 0;
        while i < self.assets.len()
            invariant
                i <= self.assets@.len(),
                n@ == name@,
                forall|t: int| 0 <= t < i ==> (#[trigger] self.assets@[t]).name@ != name@,
            decreases self.assets@.len() - i,
        {
            if self.assets[i].name == n {
                assert(first_named(self.assets(), name@, i as int));
                return match self.assets[i].asset_kind {
                    AssetKind::Model(idx) => Some(idx),
                    _ => None,
                };
            }
            i = i + 1;
        }
        None
    }

    /// The model slot of the file at `path`, if it is registered as a model.
    pub fn model_slot(&self, path: &str) -> (r: Option<usize>)
        ensures
            match r {
                Some(idx) => exists|i: int|
                    first_at_path(self.assets(), path@, i) && self.assets()[i].asset_kind
                        == AssetKind::Model(idx),
                None => forall|i: int|
                    first_at_path(self.assets(), path@, i) ==> !(self.assets()[i].asset_kind is Model),
            },
    {
        let p = path.to_string();
        match self.index_of_path(&p) {
            Some(i) => match self.assets[i].asset_kind {
                AssetKind::Model(idx) => Some(idx),
                _ => None,
            },
            None => None,
        }
    }

    fn index_of_path(&self, path: &String) -> (r: Option<usize>)
        ensures
            match r {
                Some(i) => first_at_path(self.assets(), path@, i as int),
                None => forall|t: int|
                    0 <= t < self.assets().len() ==> !same_path(
                        (#[trigger] self.assets()[t]).path@,
                        path@,
                    ),
            },
    {
        let wanted = components_of(path.as_str());
        let mut i: usize = 0;
        while i < self.assets.len()
            invariant
                i <= self.assets@.len(),
                texts(wanted@) == path_components(path@),
                forall|t: int| 0 <= t < i ==> !same_path((#[trigger] self.assets@[t]).path@, path@),
            decreases self.assets@.len() - i,
        {
            let here = components_of(self.assets[i].path.as_str());
            if same_texts(&here, &wanted) {
                return Some(i);
            }
            i = i + 1;
        }
        None
    }

    /// Registers the file at `path` as `register_asset` does when the path has
    /// a file name, and returns whether it had one; a path without one changes
    /// nothing.
    pub fn try_register_asset(&mut self, path: &str, asset_kind: AssetKind) -> (b: bool)
        ensures
            b == path_file_name(path@) is Some,
            b && (exists|i: int| first_at_path(old(self).assets(), path@, i)) ==> exists|
                i: int,
                a: LoadedAsset,
            |
                first_at_path(old(self).assets(), path@, i) && loaded_as(a, path@, asset_kind)
                    && final(self).assets() == old(self).assets().update(i, a),
            b && !(exists|i: int| first_at_path(old(self).assets(), path@, i)) ==> exists|
                a: LoadedAsset,
            | loaded_as(a, path@, asset_kind) && final(self).assets() == old(self).assets().push(a),
            !b ==> final(self).assets() == old(self).assets(),
            final(self).extensions() == old(self).extensions(),
    {
        match file_name_of(path) {
            Some(_) => {
                self.register_asset(path, asset_kind);
                true
            },
            None => false,
        }
    }

    /// Registers the file at `path` as `asset_kind`, loaded now, replacing what
    /// was registered at that path.
    pub fn register_asset(&mut self, path: &str, asset_kind: AssetKind)
        requires
            path_file_name(path@) is Some,
        ensures
            (exists|i: int| first_at_path(old(self).assets(), path@, i)) ==> exists|
                i: int,
                a: LoadedAsset,
            |
                first_at_path(old(self).assets(), path@, i) && loaded_as(a, path@, asset_kind)
                    && final(self).assets() == old(self).assets().update(i, a),
            !(exists|i: int| first_at_path(old(self).assets(), path@, i)) ==> exists|
                a: LoadedAsset,
            | loaded_as(a, path@, asset_kind) && final(self).assets() == old(self).assets().push(a),
            final(self).extensions() == old(self).extensions(),
    {
        let name = match file_name_of(path) {
            Some(name) => name,
            None => {
                assert(false);
                String::new()
            },
        };
        let p = path.to_string();
        let found = self.index_of_path(&p);
        let asset = LoadedAsset { path: p, name, loaded_at_time: system_time_now(), asset_kind };
        let ghost a = asset;
        match found {
            Some(i) => {
                self.assets.set(i, asset);
                assert(first_at_path(old(self).assets(), path@, i as int));
                assert(self.assets() == old(self).assets().update(i as int, a));
                assert(loaded_as(a, path@, asset_kind));
            },
            None => {
                self.assets.push(asset);
                assert forall|j: int| !first_at_path(old(self).assets(), path@, j) by {}
                assert(self.assets() == old(self).assets().push(a));
                assert(loaded_as(a, path@, asset_kind));
            },
        }
    }

    /// When the first file registered at `path` was loaded, if one is.
    pub fn loaded_at(&self, path: &str) -> (r: Option<SystemTime>)
        ensures
            r is Some <==> exists|i: int| first_at_path(self.assets(), path@, i),
            r matches Some(t) ==> exists|i: int|
                first_at_path(self.assets(), path@, i) && self.assets()[i].loaded_at_time == t,
    {
        let p = path.to_string();
        match self.index_of_path(&p) {
            Some(i) => Some(self.assets[i].loaded_at_time),
            None => None,
        }
    }

    /// Books in the model file found at `path` while models are loaded, and
    /// says what the caller must load. A file registered as model `idx` is
    /// loaded again into that slot, and its time renewed, when it was
    /// modified after it was loaded (`modified_after_load`, which the caller
    /// reads from the file system and `loaded_at`), and kept otherwise. Any
    /// other file is registered as the next model, `Model(models_len)`, and
    /// appended; a path without a file name, which no file found in a
    /// directory has, is left alone.
    pub fn book_model_load(&mut self, path: &str, modified_after_load: bool, models_len: usize) -> (r:
        ModelLoad)
        ensures
            final(self).extensions() == old(self).extensions(),
            forall|i: int|
                #[trigger] first_at_path(old(self).assets(), path@, i) && old(self).assets()[i].asset_kind
                    is Model ==> (if modified_after_load {
                    &&& r == ModelLoad::Reload(old(self).assets()[i].asset_kind->Model_0)
                    &&& final(self).assets() == old(self).assets().update(i, final(self).assets()[i])
                    &&& reloaded(old(self).assets()[i], final(self).assets()[i])
                } else {
                    r == ModelLoad::Keep && final(self).assets() == old(self).assets()
                }),
            !(exists|i: int|
                first_at_path(old(self).assets(), path@, i) && old(self).assets()[i].asset_kind
                    is Model) ==> (if path_file_name(path@) is Some {
                &&& r == ModelLoad::Append
                &&& (exists|i: int| first_at_path(old(self).assets(), path@, i)) ==> exists|i: int, a: LoadedAsset|
                    first_at_path(old(self).assets(), path@, i) && loaded_as(a, path@, AssetKind::Model(models_len))
                        && final(self).assets() == old(self).assets().update(i, a)
                &&& !(exists|i: int| first_at_path(old(self).assets(), path@, i)) ==> exists|a: LoadedAsset|
                    loaded_as(a, path@, AssetKind::Model(models_len)) && final(self).assets()
                        == old(self).assets().push(a)
            } else {
                r == ModelLoad::Keep && final(self).assets() == old(self).assets()
            }),
    {
        let p = path.to_string();
        match self.index_of_path(&p) {
            Some(i) => {
                if let AssetKind::Model(idx) = self.assets[i].asset_kind {
                    assert(first_at_path(old(self).assets(), path@, i as int));
                    if modified_after_load {
                        let renewed = LoadedAsset {
                            path: self.assets[i].path.clone(),
                            name: self.assets[i].name.clone(),
                            loaded_at_time: system_time_now(),
                            asset_kind: self.assets[i].asset_kind,
                        };
                        self.assets.set(i, renewed);
                        return ModelLoad::Reload(idx);
                    } else {
                        return ModelLoad::Keep;
                    }
                }
            },
            None => {},
        }
        if self.try_register_asset(path, AssetKind::Model(models_len)) {
            ModelLoad::Append
        } else {
            ModelLoad::Keep
        }
    }
}

} // verus!
