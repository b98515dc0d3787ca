//! Heap objects and the heap that owns them: an append-only store of
//! objects under stable keys, an interner that gives equal strings one key,
//! and the table of global variables.

use super::store::{
    bindings, bindings_get, bindings_insert, bindings_new, byte_len, eco_clone, eco_text, interned,
    interner_get, interner_insert, interner_new, is_slot_key, slot_entries, slots_get, slots_insert,
    slots_len, slots_new, Slots, SLOT_LIMIT,
};
use super::value::Value;
use ahash::AHashMap;
use ecow::EcoString;
use vstd::prelude::*;

verus! {

/// An object on the heap.
#[derive(Debug)]
pub struct Object {
    pub kind: ObjectKind,
}

/// What an object is. Strings are the only kind so far.
#[derive(Debug)]
pub enum ObjectKind {
    String(EcoString),
}

impl Object {
    pub fn new(kind: ObjectKind) -> (r: Self)
        ensures
            r.kind == kind,
    {
        Self { kind }
    }

    /// The characters of a string object.
    pub open spec fn text(self) -> Seq<char> {
        match self.kind {
            ObjectKind::String(s) => eco_text(s),
        }
    }

    /// The string of a string object.
    pub fn as_str(&self) -> (r: &str)
        ensures
            r@ == self.text(),
    {
        match &self.kind {
            ObjectKind::String(s) => s.as_str(),
        }
    }
}

/// What the heap could not find.
#[derive(Debug, Clone, Copy, PartialEq, Eq, Structural)]
pub enum HeapError {
    ObjectNotFound,
    GlobalVariableNotFound,
}

/// A stable handle to an object of a heap. Two handles are equal when they
/// name the same object.
#[derive(Debug, Clone, Copy, PartialEq, Eq, Structural, Hash)]
pub struct ObjectKey {
    id: u64,
}

impl ObjectKey {
    /// The integer that identifies the object in its heap.
    pub closed spec fn id(self) -> u64 {
        self.id
    }

    /// Handles are told apart by their integers alone.
    pub proof fn same_id_same_key(self, other: ObjectKey)
        ensures
            (self.id() == other.id()) == (self == other),
    {
    }
}

/// The counter of a heap after a string of `added` bytes was allocated. It
/// stops at the largest value it can hold.
pub open spec fn memory_after(used: usize, added: usize) -> usize {
    if used + added <= usize::MAX {
        (used + added) as usize
    } else {
        usize::MAX
    }
}

/// What a heap holds.
pub struct HeapView {
    /// The live objects, by the integer of their key.
    pub objects: Map<u64, Object>,
    /// The interner: the key of the canonical string object of each text.
    pub strings: Map<Seq<char>, u64>,
    /// The global variables, by the key of their interned name.
    pub globals: Map<u64, Value>,
    /// The bytes of string data allocated so far.
    pub memory: usize,
}

impl HeapView {
    /// The heap's invariant: it has finitely many objects, each under a
    /// proper key; what the interner records for a text is a live string
    /// object with that text; and every global is named by a live object.
    pub open spec fn wf(self) -> bool {
        &&& self.objects.dom().finite()
        &&& forall|id: u64| #[trigger] self.objects.contains_key(id) ==> is_slot_key(id)
        &&& forall|text: Seq<char>| #[trigger]
            self.strings.contains_key(text) ==> self.objects.contains_key(self.strings[text])
                && self.objects[self.strings[text]].text() == text
        &&& forall|id: u64| #[trigger]
            self.globals.contains_key(id) ==> self.objects.contains_key(id)
    }

    /// Whether `after` is what interning `text` makes of `self`, with `id`
    /// the key that the call returns. A text that the interner knows keeps
    /// its key and the heap stays as it is. Any other text gets a new string
    /// object under a key that was not in use, and the interner records it.
    pub open spec fn interns(self, text: Seq<char>, after: HeapView, id: u64) -> bool {
        if self.strings.contains_key(text) {
            after == self && id == self.strings[text]
        } else {
            &&& !self.objects.contains_key(id)
            &&& after.objects == self.objects.insert(id, after.objects[id])
            &&& after.objects[id].text() == text
            &&& after.strings == self.strings.insert(text, id)
            &&& after.globals == self.globals
            &&& after.memory == memory_after(self.memory, byte_len(text))
        }
    }

    /// The heap with the global named by `id` bound to `value`.
    pub open spec fn bind(self, id: u64, value: Value) -> HeapView {
        HeapView { globals: self.globals.insert(id, value), ..self }
    }

    /// Interning is idempotent: a text that was interned gets the same key
    /// when it is interned again, and the heap stays as the first time left
    /// it.
    pub proof fn intern_again(
        self,
        text: Seq<char>,
        first: HeapView,
        id: u64,
        second: HeapView,
        again: u64,
    )
        requires
            self.interns(text, first, id),
            first.interns(text, second, again),
        ensures
            again == id,
            second == first,
    {
    }

    /// Interned strings are equal exactly when their keys are: two texts
    /// that the interner knows have one key only if they are one text.
    pub proof fn one_key_one_text(self, a: Seq<char>, b: Seq<char>)
        requires
            self.wf(),
            self.strings.contains_key(a),
            self.strings.contains_key(b),
        ensures
            (self.strings[a] == self.strings[b]) == (a == b),
    {
    }

    /// What a heap grows into grows on.
    pub proof fn grows_on(self, middle: HeapView, after: HeapView)
        requires
            self.grows_into(middle),
            middle.grows_into(after),
        ensures
            self.grows_into(after),
    {
        vstd::map_lib::lemma_submap_of_trans(self.objects, middle.objects, after.objects);
        vstd::map_lib::lemma_submap_of_trans(self.strings, middle.strings, after.strings);
    }

    /// Interning keeps what the heap holds: every object stays under its
    /// key, and every text that was interned keeps its key.
    pub proof fn interning_keeps(self, text: Seq<char>, after: HeapView, id: u64)
        requires
            self.interns(text, after, id),
        ensures
            self.grows_into(after),
            after.globals == self.globals,
    {
    }

    /// A global that is defined again is bound to the later value, as if
    /// the earlier definition had not been made.
    pub proof fn later_binding_wins(self, id: u64, earlier: Value, later: Value)
        ensures
            self.bind(id, earlier).bind(id, later) == self.bind(id, later),
            self.bind(id, earlier).bind(id, later).globals[id] == later,
    {
        assert(self.globals.insert(id, earlier).insert(id, later) =~= self.globals.insert(
            id,
            later,
        ));
    }

    /// Whether `after` holds everything that `self` holds: each object under
    /// its key, each interned text with its key.
    pub open spec fn grows_into(self, after: HeapView) -> bool {
        &&& self.objects.submap_of(after.objects)
        &&& self.strings.submap_of(after.strings)
    }
}

/// The heap: its objects, its interner and its globals.
#[derive(Debug)]
pub struct ObjectHeap {
    heap: Slots,
    interner: AHashMap<EcoString, u64>,
    globals: AHashMap<u64, Value>,
    dynamic_memory_used: usize,
}

impl View for ObjectHeap {
    type V = HeapView;

    closed spec fn view(&self) -> HeapView {
        HeapView {
            objects: slot_entries(self.heap),
            strings: interned(self.interner),
            globals: bindings(self.globals),
            memory: self.dynamic_memory_used,
        }
    }
}

impl ObjectHeap {
    /// Whether the heap's invariant holds.
    pub open spec fn wf(&self) -> bool {
        self@.wf()
    }

    pub fn new() -> (r: Self)
        ensures
            r.wf(),
            r@.objects == Map::<u64, Object>::empty(),
            r@.strings == Map::<Seq<char>, u64>::empty(),
            r@.globals == Map::<u64, Value>::empty(),
            r@.memory == 0,
    {
        Self {
            heap: slots_new(),
            interner: interner_new(),
            globals: bindings_new(),
            dynamic_memory_used: 0,
        }
    }

    /// Puts an object on the heap and returns its key. The interner is not
    /// told of it.
    pub fn alloc_object(&mut self, object: Object) -> (key: ObjectKey)
        requires
            old(self).wf(),
            old(self)@.objects.len() < SLOT_LIMIT,
        ensures
            final(self).wf(),
            !old(self)@.objects.contains_key(key.id()),
            final(self)@.objects == old(self)@.objects.insert(key.id(), object),
            final(self)@.strings == old(self)@.strings,
            final(self)@.globals == old(self)@.globals,
            final(self)@.memory == memory_after(old(self)@.memory, byte_len(object.text())),
    {
        let added: usize = object.as_str().len();
        let id: u64 = slots_insert(&mut self.heap, object);
        self.dynamic_memory_used = self.dynamic_memory_used.saturating_add(added);
        proof {
            let before = old(self)@;
            let after = self@;
            assert(before.wf());
            assert(after.globals == before.globals);
            assert(after.strings == before.strings);
            assert forall|text: Seq<char>| #[trigger] after.strings.contains_key(text) implies {
                &&& after.objects.contains_key(after.strings[text])
                &&& after.objects[after.strings[text]].text() == text
            } by {
                assert(before.objects.contains_key(before.strings[text]));
            }
            assert forall|other: u64| #[trigger] after.globals.contains_key(other) implies
                after.objects.contains_key(other) by {
                assert(before.objects.contains_key(other));
            }
        }
        ObjectKey { id }
    }

    /// Returns the key of the canonical string object with the text of
    /// `string`, allocating that object if the text is new.
    pub fn intern_string(&mut self, string: EcoString) -> (key: ObjectKey)
        requires
            old(self).wf(),
            old(self)@.strings.contains_key(eco_text(string)) || old(self)@.objects.len()
                < SLOT_LIMIT,
        ensures
            final(self).wf(),
            old(self)@.interns(eco_text(string), final(self)@, key.id()),
            final(self)@.strings.contains_key(eco_text(string)),
            final(self)@.strings[eco_text(string)] == key.id(),
    {
        match interner_get(&self.interner, string.as_str()) {
            Some(id) => ObjectKey { id },
            None => {
                let object = Object::new(ObjectKind::String(eco_clone(&string)));
                let key = self.alloc_object(object);
                interner_insert(&mut self.interner, string, key.id);
                assert(final(self)@.objects[key.id] == object);
                key
            },
        }
    }

    /// Whether `string` can be interned: its text is known already, or there
    /// is room for one more object.
    pub fn can_intern(&self, string: &EcoString) -> (r: bool)
        requires
            self.wf(),
        ensures
            r == (self@.strings.contains_key(eco_text(*string)) || self@.objects.len()
                < SLOT_LIMIT),
    {
        interner_get(&self.interner, string.as_str()).is_some() || slots_len(&self.heap)
            < SLOT_LIMIT
    }

    /// Binds the global named by `identifier` to `value`, whether or not it
    /// was bound before.
    pub fn put_as_global(&mut self, identifier: ObjectKey, value: Value)
        requires
            old(self).wf(),
            old(self)@.objects.contains_key(identifier.id()),
        ensures
            final(self).wf(),
            final(self)@ == old(self)@.bind(identifier.id(), value),
    {
        bindings_insert(&mut self.globals, identifier.id, value);
        proof {
            let before = old(self)@;
            let after = self@;
            assert(before.wf());
            assert(after.objects == before.objects);
            assert(after.strings == before.strings);
            assert forall|other: u64| #[trigger] after.globals.contains_key(other) implies
                after.objects.contains_key(other) by {
                if other != identifier.id {
                    assert(before.globals.contains_key(other));
                }
            }
        }
    }

    /// The value bound to the global named by `identifier`.
    pub fn get_global(&self, identifier: ObjectKey) -> (r: Result<Value, HeapError>)
        ensures
            r == (if self@.globals.contains_key(identifier.id()) {
                Ok::<Value, HeapError>(self@.globals[identifier.id()])
            } else {
                Err(HeapError::GlobalVariableNotFound)
            }),
    {
        match bindings_get(&self.globals, identifier.id) {
            Some(value) => Ok(value),
            None => Err(HeapError::GlobalVariableNotFound),
        }
    }

    /// The object under `key`.
    pub fn get_object(&self, key: ObjectKey) -> (r: Result<&Object, HeapError>)
        requires
            self.wf(),
        ensures
            r == (if self@.objects.contains_key(key.id()) {
                Ok::<&Object, HeapError>(&self@.objects[key.id()])
            } else {
                Err(HeapError::ObjectNotFound)
            }),
    {
        if (key.id >> 32) & 1 != 1 {
            return Err(HeapError::ObjectNotFound);
        }
        match slots_get(&self.heap, key.id) {
            Some(object) => Ok(object),
            None => Err(HeapError::ObjectNotFound),
        }
    }

    /// The number of objects on the heap.
    pub fn live_count(&self) -> (r: usize)
        ensures
            r == self@.objects.len(),
    {
        slots_len(&self.heap)
    }

    /// The bytes of string data allocated so far.
    pub fn dynamic_memory_used(&self) -> (r: usize)
        ensures
            r == self@.memory,
    {
        self.dynamic_memory_used
    }
}

impl Default for ObjectHeap {
    fn default() -> (r: Self)
        ensures
            r.wf(),
            r@.objects == Map::<u64, Object>::empty(),
            r@.strings == Map::<Seq<char>, u64>::empty(),
            r@.globals == Map::<u64, Value>::empty(),
            r@.memory == 0,
    {
        Self::new()
    }
}

} // verus!
