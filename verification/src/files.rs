use std::time::SystemTime;
use vstd::prelude::*;

verus! {

#[verifier::external_type_specification]
#[verifier::external_body]
pub struct ExSystemTime(SystemTime);

/// Calls `std::time::SystemTime::now`. Nothing is claimed of the time.
#[verifier::external_body]
pub(crate) fn system_time_now() -> SystemTime {
    SystemTime::now()
}

/// What `std::path::Path::file_name` gives for a path: its final component,
/// or nothing (for a path that ends in `..`, or that is empty or a root).
pub uninterp spec fn path_file_name(path: Seq<char>) -> Option<Seq<char>>;

/// Calls `std::path::Path::file_name` on `path`. The component is read back as
/// text with `OsStr::to_string_lossy`, which changes nothing here: a component
/// cut out of a `&str` at a separator is valid UTF-8. The result is named
/// `path_file_name`, a function of the path alone.
#[verifier::external_body]
pub(crate) fn file_name_of(path: &str) -> (r: Option<String>)
    ensures
        match r {
            Some(name) => path_file_name(path@) == Some(name@),
            None => path_file_name(path@) == None::<Seq<char>>,
        },
{
    match std::path::Path::new(path).file_name() {
        Some(name) => Some(name.to_string_lossy().into_owned()),
        None => None,
    }
}

/// What `std::path::Path::components` gives for a path, each component as
/// text: the path split at its separators, with repeated separators, a
/// trailing separator and inner `.` components dropped.
pub uninterp spec fn path_components(path: Seq<char>) -> Seq<Seq<char>>;

/// The texts of `v`.
pub open spec fn texts(v: Seq<String>) -> Seq<Seq<char>> {
    v.map_values(|s: String| s@)
}

/// Two paths name the same file as `Path` compares them: component by
/// component, so that `a//b`, `a/b/` and `a/./b` are all `a/b`.
pub open spec fn same_path(a: Seq<char>, b: Seq<char>) -> bool {
    path_components(a) == path_components(b)
}

/// Calls `std::path::Path::components` on `path` and reads each component
/// back as text (`Component::as_os_str`, then `to_string_lossy`, which changes
/// nothing in a part of a `&str`). The result is named `path_components`, a
/// function of the path alone.
#[verifier::external_body]
pub(crate) fn components_of(path: &str) -> (r: Vec<String>)
    ensures
        texts(r@) == path_components(path@),
{
    std::path::Path::new(path).components().map(
        |c| c.as_os_str().to_string_lossy().into_owned(),
    ).collect()
}

/// Whether two lists of components read the same.
pub(crate) fn same_texts(a: &Vec<String>, b: &Vec<String>) -> (r: bool)
    ensures
        r == (texts(a@) == texts(b@)),
{
    if a.len() != b.len() {
        proof {
            assert(texts(a@).len() != texts(b@).len());
        }
        return false;
    }
    let mut i: usize = 0;
    while i < a.len()
        invariant
            a@.len() == b@.len(),
            i <= a@.len(),
            forall|t: int| 0 <= t < i ==> (#[trigger] a@[t])@ == b@[t]@,
        decreases a@.len() - i,
    {
        if a[i] != b[i] {
            proof {
                assert(texts(a@)[i as int] != texts(b@)[i as int]);
            }
            return false;
        }
        i = i + 1;
    }
    proof {
        assert(texts(a@) =~= texts(b@));
    }
    true
}

/// Some string of `names` reads `name`.
pub open spec fn has_string(names: Seq<String>, name: Seq<char>) -> bool {
    exists|i: int| 0 <= i < names.len() && (#[trigger] names[i])@ == name
}

/// Whether `names` holds `name`.
pub fn contains_string(names: &Vec<String>, name: &String) -> (b: bool)
    ensures
        b == has_string(names@, name@),
{
    let mut i: usize = 0;
    while i < names.len()
        invariant
            i <= names@.len(),
            forall|t: int| 0 <= t < i ==> (#[trigger] names@[t])@ != name@,
        decreases names@.len() - i,
    {
        if names[i] == *name {
            return true;
        }
        i = i + 1;
    }
    false
}

} // verus!
