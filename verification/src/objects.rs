//! The object store of a connection, and what a queue reads from it.

use vstd::prelude::*;
use wayland_commons::map::{Object, ObjectMap};

verus! {

/// The object store of a connection: an `ObjectMap` of `wayland_commons` that
/// carries no metadata. Nothing of its inside is visible to the verifier; what
/// it holds is `live_objects`.
#[verifier::external_body]
pub struct Objects {
    inner: ObjectMap<()>,
}

/// The live objects of a store: each live id with the name of its interface.
pub uninterp spec fn live_objects(objects: Objects) -> Map<u32, Seq<char>>;

/// How many slots a store has made for the ids that the client gives out:
/// the slots of the ids from 1 up to this number, filled or empty.
pub uninterp spec fn client_slots(objects: Objects) -> nat;

/// How many slots a store has made for the ids that the server gives out:
/// the slots of that many ids from `SERVER_ID_LIMIT` on, filled or empty.
pub uninterp spec fn server_slots(objects: Objects) -> nat;

/// The first id that the server gives out; the ids below it are the client's.
pub const SERVER_ID_LIMIT: u32 = 0xFF00_0000;

/// The place of the slot of `id` among the slots of its side, counted from 0.
pub open spec fn slot_of(id: u32) -> nat
    recommends
        id != 0,
{
    if id >= SERVER_ID_LIMIT {
        (id - SERVER_ID_LIMIT) as nat
    } else {
        (id - 1) as nat
    }
}

/// How many slots a store has made on the side of `id`.
pub open spec fn slots_beside(objects: Objects, id: u32) -> nat {
    if id >= SERVER_ID_LIMIT {
        server_slots(objects)
    } else {
        client_slots(objects)
    }
}

/// The id can be taken: it is not 0, no live object has it, and its slot is
/// one that the store has made or the next one that it would make.
pub open spec fn vacant(objects: Objects, id: u32) -> bool {
    &&& id != 0
    &&& !live_objects(objects).contains_key(id)
    &&& slot_of(id) <= slots_beside(objects, id)
}

/// The number of slots of a side after the slot at `slot` was filled: one
/// more where that slot was the next to be made.
pub open spec fn slots_with(slots: nat, slot: nat) -> nat {
    if slot == slots {
        slots + 1
    } else {
        slots
    }
}

/// `after` is `before` with an object of `interface` registered under `id`:
/// the object is live, and the side of `id` has a slot for it.
pub open spec fn registered(
    before: Objects,
    after: Objects,
    id: u32,
    interface: Seq<char>,
) -> bool {
    &&& live_objects(after) == live_objects(before).insert(id, interface)
    &&& client_slots(after) == if id >= SERVER_ID_LIMIT {
        client_slots(before)
    } else {
        slots_with(client_slots(before), slot_of(id))
    }
    &&& server_slots(after) == if id >= SERVER_ID_LIMIT {
        slots_with(server_slots(before), slot_of(id))
    } else {
        server_slots(before)
    }
}

/// `after` holds what `before` holds, and has made the same slots.
pub open spec fn same_store(before: Objects, after: Objects) -> bool {
    &&& live_objects(after) == live_objects(before)
    &&& client_slots(after) == client_slots(before)
    &&& server_slots(after) == server_slots(before)
}

/// What a handler is told about the object whose message it receives.
#[derive(Debug)]
pub struct ObjectHandle {
    /// Id of the object.
    pub id: u32,
    /// Name of the object's interface.
    pub interface: String,
}

/// The interface of the live object `id`, if there is one. No object has id 0.
pub open spec fn lookup(live: Map<u32, Seq<char>>, id: u32) -> Option<Seq<char>> {
    if id != 0 && live.contains_key(id) {
        Some(live[id])
    } else {
        None
    }
}

/// Calls `ObjectMap::new`, which makes a store without objects and without
/// slots.
#[verifier::external_body]
fn new_store() -> (objects: Objects)
    ensures
        live_objects(objects).dom() == Set::<u32>::empty(),
        client_slots(objects) == 0,
        server_slots(objects) == 0,
{
    Objects { inner: ObjectMap::new() }
}

/// Calls `ObjectMap::find` and keeps the interface name of what it found.
///
/// `find` returns a copy of the object stored under `id`, if the slot of `id`
/// exists and is filled. It subtracts one from a client id, so 0 is left out.
#[verifier::external_body]
fn find_interface(objects: &Objects, id: u32) -> (found: Option<String>)
    requires
        id != 0,
    ensures
        found is Some <==> live_objects(*objects).contains_key(id),
        found matches Some(name) ==> name@ == live_objects(*objects)[id],
{
    match objects.inner.find(id) {
        Some(object) => Some(object.interface.to_string()),
        None => None,
    }
}

/// Calls `ObjectMap::insert_at` with a placeholder object of the given
/// interface.
///
/// `insert_at` takes the side of `id` (the server's from `SERVER_ID_LIMIT`
/// on, the client's below) and the place of its slot there. It fills the slot
/// where it is there and empty, makes and fills it where it is the next one,
/// and refuses where it is filled or lies further on. On a refusal the store
/// is as it was. 0 is left out as for `find_interface`.
#[verifier::external_body]
fn store_at(objects: &mut Objects, id: u32, interface: &'static str) -> (stored: Result<(), ()>)
    requires
        id != 0,
    ensures
        stored is Ok <==> vacant(*old(objects), id),
        stored is Ok ==> registered(*old(objects), *final(objects), id, interface@),
        stored is Err ==> same_store(*old(objects), *final(objects)),
{
    let mut object = Object::placeholder(());
    object.interface = interface;
    objects.inner.insert_at(id, object)
}

/// Calls `ObjectMap::remove`, which empties the slot of `id` if there is one
/// and keeps every slot that was made. 0 is left out as for `find_interface`.
#[verifier::external_body]
fn clear_slot(objects: &mut Objects, id: u32)
    requires
        id != 0,
    ensures
        live_objects(*final(objects)) == live_objects(*old(objects)).remove(id),
        client_slots(*final(objects)) == client_slots(*old(objects)),
        server_slots(*final(objects)) == server_slots(*old(objects)),
{
    objects.inner.remove(id)
}

impl Objects {
    /// A store without objects and without slots.
    pub fn new() -> (objects: Objects)
        ensures
            live_objects(objects).dom() == Set::<u32>::empty(),
            client_slots(objects) == 0,
            server_slots(objects) == 0,
    {
        new_store()
    }

    /// Registers an object of the given interface under `id`, exactly where
    /// the id is vacant: not 0, not the id of a live object, and with a slot
    /// that the store has made or would make next. Where it is refused
    /// nothing changes.
    pub fn insert_at(&mut self, id: u32, interface: &'static str) -> (stored: Result<(), ()>)
        ensures
            stored is Ok <==> vacant(*old(self), id),
            stored is Ok ==> registered(*old(self), *final(self), id, interface@),
            stored is Err ==> same_store(*old(self), *final(self)),
    {
        if id == 0 {
            Err(())
        } else {
            store_at(self, id, interface)
        }
    }

    /// Destroys the object `id`; nothing happens where there is none. The
    /// slot stays, so that the id can be taken again.
    pub fn remove(&mut self, id: u32)
        ensures
            id != 0 ==> live_objects(*final(self)) == live_objects(*old(self)).remove(id),
            id == 0 ==> live_objects(*final(self)) == live_objects(*old(self)),
            client_slots(*final(self)) == client_slots(*old(self)),
            server_slots(*final(self)) == server_slots(*old(self)),
    {
        if id != 0 {
            clear_slot(self, id);
        }
    }

    /// Looks up the object that a message names as its sender.
    pub fn find(&self, id: u32) -> (found: Option<ObjectHandle>)
        ensures
            found is Some <==> lookup(live_objects(*self), id) is Some,
            found matches Some(handle) ==> handle.id == id && Some(handle.interface@) == lookup(
                live_objects(*self),
                id,
            ),
    {
        if id == 0 {
            None
        } else {
            match find_interface(self, id) {
                Some(interface) => Some(ObjectHandle { id, interface }),
                None => None,
            }
        }
    }
}

} // verus!
