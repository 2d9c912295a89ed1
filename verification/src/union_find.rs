use ena::unify::{InPlace, UnificationTable, UnifyKey};
use vstd::prelude::*;

verus! {

/// The key of one room in the table of connected rooms: the room's index.
#[derive(Copy, Clone, Debug, PartialEq, Eq)]
pub struct UnitKey(pub u32);

impl UnifyKey for UnitKey {
    type Value = ();

    fn index(&self) -> (i: u32)
        ensures
            i == self.0,
    {
        self.0
    }

    fn from_index(u: u32) -> (k: UnitKey)
        ensures
            k == UnitKey(u),
    {
        UnitKey(u)
    }

    fn tag() -> (t: &'static str)
        ensures
            t@ == "UnitKey"@,
    {
        "UnitKey"
    }
}

/// An `ena` unification table over `UnitKey`s, recording which rooms have been
/// joined into one component.
#[verifier::external_body]
pub struct RoomUnions {
    table: UnificationTable<InPlace<UnitKey>>,
}

/// What the table holds: for each key, in the order in which the keys were
/// created, the index of the root key of its component.
pub uninterp spec fn union_roots(t: RoomUnions) -> Seq<u32>;

/// Calls `ena::unify::UnificationTable::new`: a table with no keys.
#[verifier::external_body]
pub(crate) fn unions_new() -> (t: RoomUnions)
    ensures
        union_roots(t) == Seq::<u32>::empty(),
{
    RoomUnions { table: UnificationTable::new() }
}

/// Calls `ena::unify::UnificationTable::new_key`. The source creates the key
/// with index equal to the number of keys so far (built by
/// `UnitKey::from_index`) and pushes it as a root of its own; nothing else
/// changes.
#[verifier::external_body]
pub(crate) fn unions_new_key(t: &mut RoomUnions) -> (k: UnitKey)
    requires
        union_roots(*old(t)).len() < u32::MAX,
    ensures
        k.0 == union_roots(*old(t)).len(),
        union_roots(*final(t)) == union_roots(*old(t)).push(k.0),
{
    t.table.new_key(())
}

/// Calls `ena::unify::UnificationTable::unioned`, which compares the roots
/// that `find` returns for the two keys. Path compression inside `find`
/// changes no key's root. Indexing a key that was never created panics, which
/// `requires` rules out.
#[verifier::external_body]
pub(crate) fn unions_unioned(t: &mut RoomUnions, a: UnitKey, b: UnitKey) -> (r: bool)
    requires
        a.0 < union_roots(*old(t)).len(),
        b.0 < union_roots(*old(t)).len(),
    ensures
        union_roots(*final(t)) == union_roots(*old(t)),
        r == (union_roots(*old(t))[a.0 as int] == union_roots(*old(t))[b.0 as int]),
{
    t.table.unioned(a, b)
}

/// Calls `ena::unify::UnificationTable::union`. When the two roots differ the
/// source points one of them at the other (which one depends on the ranks), so
/// every key whose root was either of them gets that one root; other keys keep
/// theirs. Indexing a key that was never created panics, which `requires`
/// rules out.
#[verifier::external_body]
pub(crate) fn unions_union(t: &mut RoomUnions, a: UnitKey, b: UnitKey)
    requires
        a.0 < union_roots(*old(t)).len(),
        b.0 < union_roots(*old(t)).len(),
    ensures
        union_roots(*final(t)).len() == union_roots(*old(t)).len(),
        union_roots(*final(t))[a.0 as int] == union_roots(*old(t))[a.0 as int]
            || union_roots(*final(t))[a.0 as int] == union_roots(*old(t))[b.0 as int],
        forall|i: int|
            0 <= i < union_roots(*old(t)).len() ==> #[trigger] union_roots(*final(t))[i] == (
            if union_roots(*old(t))[i] == union_roots(*old(t))[a.0 as int]
                || union_roots(*old(t))[i] == union_roots(*old(t))[b.0 as int] {
                union_roots(*final(t))[a.0 as int]
            } else {
                union_roots(*old(t))[i]
            }),
{
    t.table.union(a, b)
}

} // verus!
