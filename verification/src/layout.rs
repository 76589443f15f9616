//! Resource layouts: the resources one request fetches at once, and the
//! check that no resource is fetched twice where one of the handles would
//! be mutable.
use vstd::prelude::*;
use ahash::AHashSet;
use vstd::string::StringExecFns;

verus! {

#[verifier::external_type_specification]
#[verifier::external_body]
#[verifier::reject_recursive_types(T)]
#[verifier::reject_recursive_types(S)]
pub struct ExAHashSet<T, S>(AHashSet<T, S>);

/// What a set of resource types holds.
pub uninterp spec fn type_set(s: AHashSet<u64>) -> Set<u64>;

/// `AHashSet::new`: an empty set.
#[verifier::external_body]
fn type_set_new() -> (r: AHashSet<u64>)
    ensures
        type_set(r).is_empty(),
{
    AHashSet::new()
}

/// `HashSet::insert` (through `AHashSet`): adds `t`; returns whether it was
/// not there before.
#[verifier::external_body]
fn type_set_insert(s: &mut AHashSet<u64>, t: u64) -> (r: bool)
    ensures
        type_set(*final(s)) == type_set(*old(s)).insert(t),
        r == !type_set(*old(s)).contains(t),
{
    s.insert(t)
}

/// `HashSet::contains` (through `AHashSet`): whether `t` is in the set.
#[verifier::external_body]
fn type_set_contains(s: &AHashSet<u64>, t: u64) -> (r: bool)
    ensures
        r == type_set(*s).contains(t),
{
    s.contains(&t)
}

/// Why resources could not be fetched.
#[derive(Clone, PartialEq, Eq, Debug)]
pub enum ResourceError {
    /// The resource with this type name is not in the set.
    MissingResource(String),
    /// The resource with this type name is fetched more than once in one
    /// request, mutably at least once.
    Overlapping(String),
}

impl ResourceError {
    /// The message that describes the error.
    pub fn message(&self) -> (r: String)
        ensures
            r@ == match self {
                ResourceError::MissingResource(name) => "Tried fetching resource with name '"@ + name@
                    + "', but it currently does not exist in the world"@,
                ResourceError::Overlapping(name) => "Cannot access resource "@ + name@
                    + " multiple times in the same get_mut() call"@,
            },
    {
        match self {
            ResourceError::MissingResource(name) => {
                let mut s = String::from_str("Tried fetching resource with name '");
                s.append(name.as_str());
                s.append("', but it currently does not exist in the world");
                s
            },
            ResourceError::Overlapping(name) => {
                let mut s = String::from_str("Cannot access resource ");
                s.append(name.as_str());
                s.append(" multiple times in the same get_mut() call");
                s
            },
        }
    }
}

/// One handle of a layout: the resource's type (by a number that identifies
/// it), its type name, and whether the handle is mutable.
#[derive(Clone, Debug)]
pub struct HandleId {
    pub type_id: u64,
    pub name: String,
    pub mutable: bool,
}

/// Whether handle `k` clashes with an earlier handle: the same resource,
/// with one of the two handles mutable.
pub open spec fn clashes_at(types: Seq<HandleId>, k: int) -> bool {
    exists|j: int| 0 <= j < k && types[j].type_id == types[k].type_id && (types[j].mutable || types[k].mutable)
}

/// Whether no handle of `types` clashes with an earlier one.
pub open spec fn layout_valid(types: Seq<HandleId>) -> bool {
    forall|k: int| 0 <= k < types.len() ==> !clashes_at(types, k)
}

/// Checks a layout: the first handle that clashes with an earlier one (see
/// `clashes_at`) makes it overlapping, under that handle's type name.
pub fn validate(types: &Vec<HandleId>) -> (r: Result<(), ResourceError>)
    ensures
        r is Ok <==> layout_valid(types@),
        r matches Err(e) ==> exists|k: int|
            0 <= k < types@.len() && clashes_at(types@, k) && (forall|j: int| 0 <= j < k ==> !clashes_at(types@, j))
                && e == ResourceError::Overlapping(types@[k].name),
{
    let mut seen = type_set_new();
    let mut seen_mutably = type_set_new();
    let mut k: usize = 0;
    while k < types.len()
        invariant
            k <= types@.len(),
            forall|j: int| 0 <= j < k ==> !clashes_at(types@, j),
            forall|t: u64| #[trigger] type_set(seen).contains(t) <==> exists|j: int| 0 <= j < k && types@[j].type_id == t,
            forall|t: u64| #[trigger] type_set(seen_mutably).contains(t) <==> exists|j: int|
                0 <= j < k && types@[j].type_id == t && types@[j].mutable,
        decreases types@.len() - k,
    {
        let h = &types[k];
        let repeated = !type_set_insert(&mut seen, h.type_id);
        if repeated && (h.mutable || type_set_contains(&seen_mutably, h.type_id)) {
            proof {
                let j = choose|j: int| 0 <= j < k && types@[j].type_id == h.type_id && (h.mutable || types@[j].mutable);
                assert(clashes_at(types@, k as int));
            }
            return Err(ResourceError::Overlapping(h.name.clone()));
        }
        if h.mutable {
            type_set_insert(&mut seen_mutably, h.type_id);
        }
        proof {
            assert(!clashes_at(types@, k as int)) by {
                if clashes_at(types@, k as int) {
                    let j = choose|j: int| 0 <= j < k && types@[j].type_id == types@[k as int].type_id && (types@[j].mutable || types@[k as int].mutable);
                    assert(exists|jj: int| 0 <= jj < k && types@[jj].type_id == h.type_id);
                    if types@[j].mutable {
                        assert(exists|jj: int| 0 <= jj < k && types@[jj].type_id == h.type_id && types@[jj].mutable);
                    }
                }
            }
            assert forall|t: u64| #[trigger] type_set(seen).contains(t) <==> exists|j: int| 0 <= j < k + 1 && types@[j].type_id == t by {
                if t == h.type_id {
                    assert(types@[k as int].type_id == t);
                } else if exists|j: int| 0 <= j < k + 1 && types@[j].type_id == t {
                    let j = choose|j: int| 0 <= j < k + 1 && types@[j].type_id == t;
                    assert(j < k);
                }
            }
            assert forall|t: u64| #[trigger] type_set(seen_mutably).contains(t) <==> exists|j: int|
                0 <= j < k + 1 && types@[j].type_id == t && types@[j].mutable by {
                if t == h.type_id && h.mutable {
                    assert(types@[k as int].type_id == t && types@[k as int].mutable);
                } else if exists|j: int| 0 <= j < k + 1 && types@[j].type_id == t && types@[j].mutable {
                    let j = choose|j: int| 0 <= j < k + 1 && types@[j].type_id == t && types@[j].mutable;
                    assert(j < k);
                }
            }
        }
        k = k + 1;
    }
    Ok(())
}

} // verus!
