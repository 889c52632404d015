//! A cache of Reed-Solomon codecs, one for each shape that was asked for.

use crate::codec::{shape_error, shape_is_accepted_in_range_alone, ReedSolomon};
use reed_solomon_erasure::Error as RsError;
use std::collections::HashMap;
use std::sync::Arc;
use vstd::prelude::*;
use vstd::rwlock::{RwLock, RwLockPredicate};

verus! {

/// A codec, or the error that its shape was refused with; shared by all callers.
pub type Built = Result<Arc<ReedSolomon>, Arc<RsError>>;

/// Whether `built` is what a shape gives: a codec of that shape, or the error
/// that the shape is refused with.
pub open spec fn is_built_for(built: Built, data_shards: nat, parity_shards: nat) -> bool {
    match shape_error(data_shards, parity_shards) {
        None => built is Ok && built->Ok_0.data_shards() == data_shards
            && built->Ok_0.parity_shards() == parity_shards,
        Some(e) => built is Err && *built->Err_0 == e,
    }
}

/// What a cache answers depends on the shape alone: whichever caches are asked,
/// and however often, they all give codecs of that shape, or all refuse it with
/// the same error.
pub proof fn answers_depend_on_shape_alone(
    a: Built,
    b: Built,
    data_shards: nat,
    parity_shards: nat,
)
    requires
        is_built_for(a, data_shards, parity_shards),
        is_built_for(b, data_shards, parity_shards),
    ensures
        a is Ok <==> b is Ok,
        a is Ok ==> a->Ok_0.data_shards() == b->Ok_0.data_shards() && a->Ok_0.parity_shards()
            == b->Ok_0.parity_shards(),
        a is Err ==> *a->Err_0 == *b->Err_0,
{
}

/// A cache gives a codec of the shape that was asked for exactly where the shape has
/// data shards and parity shards, and not more than 256 of both together.
pub proof fn shapes_in_range_are_built(built: Built, data_shards: nat, parity_shards: nat)
    requires
        is_built_for(built, data_shards, parity_shards),
    ensures
        built is Ok <==> 0 < data_shards && 0 < parity_shards && data_shards + parity_shards <= 256,
        built is Ok ==> built->Ok_0.data_shards() == data_shards && built->Ok_0.parity_shards()
            == parity_shards,
        data_shards == 0 ==> *built->Err_0 == RsError::TooFewDataShards,
        data_shards > 0 && parity_shards == 0 ==> *built->Err_0 == RsError::TooFewParityShards,
        data_shards > 0 && parity_shards > 0 && data_shards + parity_shards > 256
            ==> *built->Err_0 == RsError::TooManyShards,
{
    shape_is_accepted_in_range_alone(data_shards, parity_shards);
}

/// A shape; as a lock's predicate, it admits an empty slot, and a slot that holds
/// what the shape gives.
struct Shape {
    data_shards: usize,
    parity_shards: usize,
}

impl RwLockPredicate<Option<Built>> for Shape {
    closed spec fn inv(self, slot: Option<Built>) -> bool {
        slot is Some ==> is_built_for(
            slot->0,
            self.data_shards as nat,
            self.parity_shards as nat,
        )
    }
}

/// Where the codec of one shape is kept once it has been built.
type Slot = RwLock<Option<Built>, Shape>;

/// The slots, by the key of their shape.
type Table = HashMap<u128, Arc<Slot>>;

/// The key of a shape.
spec fn key_of(shape: Shape) -> u128 {
    (shape.data_shards * 0x1_0000_0000_0000_0000 + shape.parity_shards) as u128
}

/// Whether the slot under a shape's key is one for that shape.
spec fn slots_match_keys(table: Table) -> bool {
    forall|shape: Shape| #[trigger]
        table@.contains_key(key_of(shape)) ==> table@[key_of(shape)].pred() == shape
}

/// The slots that a cache was made with; as a lock's predicate, admits the tables
/// that still hold those slots, and whose slots match their keys.
struct GrowsFrom {
    made_with: Map<u128, Arc<Slot>>,
}

impl RwLockPredicate<Table> for GrowsFrom {
    closed spec fn inv(self, table: Table) -> bool {
        &&& slots_match_keys(table)
        &&& self.made_with.submap_of(table@)
    }
}

/// Different shapes have different keys.
proof fn key_of_is_injective(a: Shape, b: Shape)
    requires
        key_of(a) == key_of(b),
    ensures
        a == b,
{
}

/// Calls `Arc::clone`, which is documented to give another pointer to the same
/// allocation. Claims that the new pointer points to the same value.
#[verifier::external_body]
fn share<T>(pointer: &Arc<T>) -> (r: Arc<T>)
    ensures
        r == *pointer,
{
    Arc::clone(pointer)
}

/// Another handle on the same codec or error.
fn share_built(built: &Built) -> (r: Built)
    ensures
        r == *built,
{
    match built {
        Ok(codec) => Ok(share(codec)),
        Err(e) => Err(share(e)),
    }
}

/// The key of a shape.
fn key(data_shards: usize, parity_shards: usize) -> (k: u128)
    ensures
        k == key_of((Shape { data_shards, parity_shards })),
{
    data_shards as u128 * 0x1_0000_0000_0000_0000 + parity_shards as u128
}

/// Looks the slot of a shape up.
fn find_slot(table: &Table, data_shards: usize, parity_shards: usize) -> (slot: Option<Arc<Slot>>)
    ensures
        slot is Some <==> table@.contains_key(key_of((Shape { data_shards, parity_shards }))),
        slot is Some ==> slot->0 == table@[key_of((Shape { data_shards, parity_shards }))],
{
    match table.get(&key(data_shards, parity_shards)) {
        Some(slot) => Some(share(slot)),
        None => None,
    }
}

/// The slot of a shape, which is put into the table if it is not there yet. What
/// is in the table stays.
fn find_or_insert_slot(table: &mut Table, data_shards: usize, parity_shards: usize) -> (slot: Arc<
    Slot,
>)
    requires
        slots_match_keys(*old(table)),
    ensures
        slots_match_keys(*final(table)),
        slot.pred() == (Shape { data_shards, parity_shards }),
        old(table)@.contains_key(key_of((Shape { data_shards, parity_shards }))) ==> final(table)@
            == old(table)@ && slot == old(table)@[key_of((Shape { data_shards, parity_shards }))],
        !old(table)@.contains_key(key_of((Shape { data_shards, parity_shards }))) ==> final(table)@
            == old(table)@.insert(key_of((Shape { data_shards, parity_shards })), slot),
{
    match find_slot(table, data_shards, parity_shards) {
        Some(slot) => slot,
        None => {
            let slot = Arc::new(
                Slot::new(None, Ghost(Shape { data_shards, parity_shards })),
            );
            table.insert(key(data_shards, parity_shards), share(&slot));
            proof {
                assert forall|shape: Shape| #[trigger]
                    table@.contains_key(key_of(shape)) implies table@[key_of(shape)].pred()
                    == shape by {
                    if key_of(shape) == key_of(Shape { data_shards, parity_shards }) {
                        key_of_is_injective(shape, Shape { data_shards, parity_shards });
                    }
                }
            }
            slot
        },
    }
}

/// Builds the codec of a shape.
fn build(data_shards: usize, parity_shards: usize) -> (built: Built)
    requires
        data_shards + parity_shards <= usize::MAX,
    ensures
        is_built_for(built, data_shards as nat, parity_shards as nat),
{
    match ReedSolomon::new(data_shards, parity_shards) {
        Ok(codec) => Ok(Arc::new(codec)),
        Err(e) => Err(Arc::new(e)),
    }
}

/// What a slot is left with: what it holds, which is kept as it is, or else what
/// is built for the shape.
fn fill(current: Option<Built>, data_shards: usize, parity_shards: usize) -> (built: Built)
    requires
        data_shards + parity_shards <= usize::MAX,
        current is Some ==> is_built_for(
            current->0,
            data_shards as nat,
            parity_shards as nat,
        ),
    ensures
        current is Some ==> built == current->0,
        is_built_for(built, data_shards as nat, parity_shards as nat),
{
    match current {
        Some(built) => built,
        None => build(data_shards, parity_shards),
    }
}

/// What a slot holds, which is built first if the slot is empty. Whoever comes
/// while the codec is being built waits at the slot.
fn get_or_build(slot: &Slot, data_shards: usize, parity_shards: usize) -> (built: Built)
    requires
        data_shards + parity_shards <= usize::MAX,
        slot.pred() == (Shape { data_shards, parity_shards }),
    ensures
        is_built_for(built, data_shards as nat, parity_shards as nat),
{
    let reader = slot.acquire_read();
    let ready: Option<Built> = match reader.borrow() {
        Some(built) => Some(share_built(built)),
        None => None,
    };
    reader.release_read();
    match ready {
        Some(built) => built,
        None => {
            let (current, writer) = slot.acquire_write();
            let built = fill(current, data_shards, parity_shards);
            let shared = share_built(&built);
            writer.release_write(Some(built));
            shared
        },
    }
}

/// Caches constructed codecs keyed by `(data_shards, parity_shards)`: matrix
/// construction is the expensive part, not encoding or decoding, so it is done at
/// most once per shape. Read-lock fast path; write-lock only on a cache miss, and
/// the construction happens under the lock of the shape's own slot, so that it
/// isn't done while holding the cache's write lock.
pub struct ReedSolomonCache(RwLock<Table, GrowsFrom>);

impl ReedSolomonCache {
    /// Whether the cache was made without any slot.
    pub closed spec fn starts_empty(&self) -> bool {
        self.0.pred().made_with == Map::<u128, Arc<Slot>>::empty()
    }

    /// A cache with the given slots.
    fn of_table(table: Table) -> (cache: Self)
        requires
            slots_match_keys(table),
        ensures
            cache.0.pred().made_with == table@,
    {
        let ghost made_with = table@;
        ReedSolomonCache(RwLock::new(table, Ghost(GrowsFrom { made_with })))
    }

    /// An empty cache.
    pub fn new() -> (cache: Self)
        ensures
            cache.starts_empty(),
    {
        Self::of_table(HashMap::new())
    }

    /// The codec of a shape, or the error that the shape is refused with. It is
    /// built at the first call for that shape, and shared by the later ones.
    pub fn get(&self, data_shards: usize, parity_shards: usize) -> (built: Result<
        Arc<ReedSolomon>,
        Arc<RsError>,
    >)
        requires
            data_shards + parity_shards <= usize::MAX,
        ensures
            is_built_for(built, data_shards as nat, parity_shards as nat),
            built is Ok <==> 0 < data_shards && 0 < parity_shards && data_shards + parity_shards
                <= 256,
            built is Ok ==> built->Ok_0.data_shards() == data_shards
                && built->Ok_0.parity_shards() == parity_shards,
            data_shards == 0 ==> built is Err && *built->Err_0 == RsError::TooFewDataShards,
            data_shards > 0 && parity_shards == 0 ==> built is Err && *built->Err_0
                == RsError::TooFewParityShards,
            data_shards > 0 && parity_shards > 0 && data_shards + parity_shards > 256
                ==> built is Err && *built->Err_0 == RsError::TooManyShards,
    {
        let reader = self.0.acquire_read();
        let found = find_slot(reader.borrow(), data_shards, parity_shards);
        reader.release_read();
        let slot = match found {
            Some(slot) => slot,
            None => {
                let (mut table, writer) = self.0.acquire_write();
                let slot = find_or_insert_slot(&mut table, data_shards, parity_shards);
                writer.release_write(table);
                slot
            },
        };
        get_or_build(&slot, data_shards, parity_shards)
    }
}

impl Default for ReedSolomonCache {
    fn default() -> (cache: Self)
        ensures
            cache.starts_empty(),
    {
        Self::new()
    }
}

} // verus!
