//! The Merkle-authenticated account store: a thin, trusted capability
//! over `monotree`'s sparse Merkle tree.
//!
//! The model is content-addressed, exactly as the store behaves: a tree
//! instance holds a family of roots, and each root it holds denotes one
//! key-to-leaf mapping. `tree_contents` names that family; every
//! operation is specified by what it does to the mapping denoted by the
//! root it is given. Old roots stay valid forever — the underlying
//! database only ever gains nodes — which is what lets the ledger read
//! and revert against historical roots.
use vstd::prelude::*;

verus! {

#[verifier::external_type_specification]
#[verifier::external_body]
#[verifier::reject_recursive_types(D)]
#[verifier::reject_recursive_types(H)]
pub struct ExMonotree<D, H>(monotree::Monotree<D, H>);

#[verifier::external_type_specification]
#[verifier::external_body]
pub struct ExMemoryDb(monotree::database::MemoryDB);

#[verifier::external_type_specification]
#[verifier::external_body]
pub struct ExBlake3(monotree::hasher::Blake3);

#[verifier::external_type_specification]
#[verifier::external_body]
pub struct ExErrors(monotree::Errors);

/// What a tree instance holds: for every 32-byte root the tree knows,
/// the key-to-leaf mapping that root denotes.
/// Applied by the trusted wrappers around `monotree::Monotree`'s methods.
pub uninterp spec fn tree_contents(t: monotree::Monotree) -> Map<Seq<u8>, Map<Seq<u8>, Seq<u8>>>;

/// The root that `monotree::Monotree::insert` returns for a given prior
/// root, key and leaf: a pure hash computation, the same in every
/// process. Applied by `tree_insert`.
pub uninterp spec fn root_after_insert(
    root: Option<Seq<u8>>,
    key: Seq<u8>,
    leaf: Seq<u8>,
) -> Seq<u8>;

/// The mathematical value of an optional root.
pub open spec fn root_view(root: Option<Vec<u8>>) -> Option<Seq<u8>> {
    match root {
        None => None,
        Some(h) => Some(h@),
    }
}

/// An optional root is 32 bytes when present.
pub open spec fn root_wf(root: Option<Seq<u8>>) -> bool {
    match root {
        None => true,
        Some(h) => h.len() == 32,
    }
}

/// Whether a root may be handed to the store: `None` (the empty tree)
/// always may; a hash only once this tree has produced it.
pub open spec fn root_known(t: monotree::Monotree, root: Option<Seq<u8>>) -> bool {
    match root {
        None => true,
        Some(h) => tree_contents(t).contains_key(h),
    }
}

/// The key-to-leaf mapping a known root denotes; `None` denotes the
/// empty mapping.
pub open spec fn map_at(t: monotree::Monotree, root: Option<Seq<u8>>) -> Map<Seq<u8>, Seq<u8>> {
    match root {
        None => Map::empty(),
        Some(h) => tree_contents(t)[h],
    }
}

/// A key-to-leaf mapping of the store: finitely many 32-byte keys, each
/// holding a 32-byte leaf.
pub open spec fn balances_wf(m: Map<Seq<u8>, Seq<u8>>) -> bool {
    &&& m.dom().finite()
    &&& forall|k: Seq<u8>| #[trigger] m.dom().contains(k) ==> k.len() == 32 && m[k].len() == 32
}

/// Updating one well-sized entry keeps a balances mapping well-formed.
pub proof fn lemma_balances_wf_insert(m: Map<Seq<u8>, Seq<u8>>, k: Seq<u8>, v: Seq<u8>)
    requires
        balances_wf(m),
        k.len() == 32,
        v.len() == 32,
    ensures
        balances_wf(m.insert(k, v)),
{
    assert(m.insert(k, v).dom() =~= m.dom().insert(k));
    assert forall|x: Seq<u8>| #[trigger] m.insert(k, v).dom().contains(x) implies x.len() == 32
        && m.insert(k, v)[x].len() == 32 by {
        if x != k {
            assert(m.dom().contains(x));
            assert(m.insert(k, v)[x] == m[x]);
        }
    }
}

/// A root the store already answers for keeps denoting the same mapping
/// when the store grows: the database only ever gains nodes.
pub proof fn lemma_map_at_preserved(t1: monotree::Monotree, t2: monotree::Monotree, r: Option<
    Seq<u8>,
>)
    requires
        tree_contents(t1).submap_of(tree_contents(t2)),
        root_known(t1, r),
    ensures
        root_known(t2, r),
        map_at(t2, r) == map_at(t1, r),
{
    match r {
        None => {
        },
        Some(h) => {
            assert(tree_contents(t1).dom().contains(h));
        },
    }
}

/// Growth of the store is transitive.
pub proof fn lemma_submap_trans(
    t1: monotree::Monotree,
    t2: monotree::Monotree,
    t3: monotree::Monotree,
)
    requires
        tree_contents(t1).submap_of(tree_contents(t2)),
        tree_contents(t2).submap_of(tree_contents(t3)),
    ensures
        tree_contents(t1).submap_of(tree_contents(t3)),
{
    vstd::map_lib::lemma_submap_of_trans(tree_contents(t1), tree_contents(t2), tree_contents(t3));
}

/// Relies on `monotree::Monotree::default`: a fresh tree over an empty
/// in-memory database, holding no roots yet.
#[verifier::external_body]
pub(crate) fn tree_new() -> (fresh: monotree::Monotree)
    ensures
        tree_contents(fresh).dom() == Set::<Seq<u8>>::empty(),
{
    monotree::Monotree::default()
}

/// Relies on `monotree::Monotree::get`: looks the key up in the mapping
/// the given root denotes, without changing the store.
#[verifier::external_body]
pub(crate) fn tree_get(
    t: &mut monotree::Monotree,
    root: &Option<Vec<u8>>,
    key: &[u8],
) -> (r: Result<Option<Vec<u8>>, monotree::Errors>)
    requires
        root_known(*old(t), root_view(*root)),
        root_wf(root_view(*root)),
        key@.len() == 32,
    ensures
        tree_contents(*final(t)) == tree_contents(*old(t)),
        (match r {
            Ok(found) => (match found {
                Some(leaf) => map_at(*old(t), root_view(*root)).contains_key(key@) && leaf@
                    == map_at(*old(t), root_view(*root))[key@] && leaf@.len() == 32,
                None => !map_at(*old(t), root_view(*root)).contains_key(key@),
            }),
            Err(_) => true,
        }),
{
    let rt: Option<monotree::Hash> = root.as_ref().map(|v| v.as_slice().try_into().unwrap());
    let k: monotree::Hash = key.try_into().unwrap();
    t.get(rt.as_ref(), &k).map(|found| found.map(|h| h.to_vec()))
}

/// Relies on `monotree::Monotree::insert`: returns the root of the
/// given mapping updated at one key, keeps every root the tree already
/// held, and on success always returns a root (an updated tree is never
/// empty).
#[verifier::external_body]
pub(crate) fn tree_insert(
    t: &mut monotree::Monotree,
    root: &Option<Vec<u8>>,
    key: &[u8],
    leaf: &[u8],
) -> (r: Result<Option<Vec<u8>>, monotree::Errors>)
    requires
        root_known(*old(t), root_view(*root)),
        root_wf(root_view(*root)),
        key@.len() == 32,
        leaf@.len() == 32,
    ensures
        tree_contents(*old(t)).submap_of(tree_contents(*final(t))),
        (match r {
            Ok(new_root) => (match new_root {
                Some(h) => h@ == root_after_insert(root_view(*root), key@, leaf@) && h@.len() == 32
                    && root_known(*final(t), Some(h@)) && map_at(*final(t), Some(h@)) == map_at(
                    *old(t),
                    root_view(*root),
                ).insert(key@, leaf@),
                None => false,
            }),
            Err(_) => true,
        }),
{
    let rt: Option<monotree::Hash> = root.as_ref().map(|v| v.as_slice().try_into().unwrap());
    let k: monotree::Hash = key.try_into().unwrap();
    let l: monotree::Hash = leaf.try_into().unwrap();
    t.insert(rt.as_ref(), &k, &l).map(|new_root| new_root.map(|h| h.to_vec()))
}

/// Relies on `monotree::Monotree::remove`: for a key present in the
/// mapping the given root denotes, returns the root of the mapping
/// without that key (`None` once nothing is left), and keeps every root
/// the tree already held.
#[verifier::external_body]
pub(crate) fn tree_remove(
    t: &mut monotree::Monotree,
    root: &Option<Vec<u8>>,
    key: &[u8],
) -> (r: Result<Option<Vec<u8>>, monotree::Errors>)
    requires
        root_known(*old(t), root_view(*root)),
        root_wf(root_view(*root)),
        key@.len() == 32,
    ensures
        tree_contents(*old(t)).submap_of(tree_contents(*final(t))),
        (match r {
            Ok(new_root) => map_at(*old(t), root_view(*root)).contains_key(key@) ==> (match
            new_root {
                Some(h) => h@.len() == 32 && root_known(*final(t), Some(h@)) && map_at(
                    *final(t),
                    Some(h@),
                ) == map_at(*old(t), root_view(*root)).remove(key@),
                None => map_at(*old(t), root_view(*root)).remove(key@) == Map::<
                    Seq<u8>,
                    Seq<u8>,
                >::empty(),
            }),
            Err(_) => true,
        }),
{
    let rt: Option<monotree::Hash> = root.as_ref().map(|v| v.as_slice().try_into().unwrap());
    let k: monotree::Hash = key.try_into().unwrap();
    t.remove(rt.as_ref(), &k).map(|new_root| new_root.map(|h| h.to_vec()))
}

} // verus!
