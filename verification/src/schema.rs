//! A registry of message types and the fields they declare.
use std::collections::BTreeMap;
use vstd::prelude::*;

verus! {

/// One declared field: its name, its tag, and a description of how it is encoded.
pub struct FieldDescription {
    pub name: String,
    pub tag: u32,
    pub repr: String,
}

/// The fields declared by one message type, in declaration order.
pub struct MessageFields {
    fields: Vec<FieldDescription>,
}

impl View for MessageFields {
    type V = Seq<(Seq<char>, u32, Seq<char>)>;

    /// The (name, tag, representation) of each declared field, in declaration order.
    closed spec fn view(&self) -> Seq<(Seq<char>, u32, Seq<char>)> {
        self.fields@.map_values(|f: FieldDescription| (f.name@, f.tag, f.repr@))
    }
}

impl MessageFields {
    /// A description declaring no fields.
    pub fn new() -> (r: Self)
        ensures
            r@ == Seq::<(Seq<char>, u32, Seq<char>)>::empty(),
    {
        let r = MessageFields { fields: Vec::new() };
        assert(r@ =~= Seq::<(Seq<char>, u32, Seq<char>)>::empty());
        r
    }

    /// Declares one more field.
    pub fn add_field(&mut self, name: &str, tag: u32, repr: String)
        ensures
            final(self)@ == old(self)@.push((name@, tag, repr@)),
    {
        self.fields.push(FieldDescription { name: name.to_owned(), tag, repr });
        assert(self@ =~= old(self)@.push((name@, tag, repr@)));
    }

    /// Returns the number of declared fields.
    pub fn len(&self) -> (r: usize)
        ensures
            r == self@.len(),
    {
        self.fields.len()
    }
}

/// A registry of message types, each known by a key that identifies its type, with the fields it
/// declares.
///
/// A type is registered in two steps, so that a message whose fields mention its own type can be
/// described: `reserve_message` marks the type registered (with no fields yet), so that a nested
/// registration of the same type stops at once, and `set_fields` then gives it its fields.
pub struct Schema {
    types: BTreeMap<u64, MessageFields>,
}

impl View for Schema {
    type V = Map<u64, Seq<(Seq<char>, u32, Seq<char>)>>;

    /// The registered types and the fields each declares.
    closed spec fn view(&self) -> Map<u64, Seq<(Seq<char>, u32, Seq<char>)>> {
        self.types@.map_values(|f: MessageFields| f@)
    }
}

impl Schema {
    /// An empty registry.
    pub fn new() -> (r: Self)
        ensures
            r@ == Map::<u64, Seq<(Seq<char>, u32, Seq<char>)>>::empty(),
    {
        let r = Schema { types: BTreeMap::new() };
        assert(r@ =~= Map::<u64, Seq<(Seq<char>, u32, Seq<char>)>>::empty());
        r
    }

    /// Marks a message type registered, declaring no fields yet, and returns `true`; a type that
    /// is already registered is left as it is, and `false` is returned.
    pub fn reserve_message(&mut self, type_key: u64) -> (newly: bool)
        ensures
            newly == !old(self)@.contains_key(type_key),
            newly ==> final(self)@ == old(self)@.insert(
                type_key,
                Seq::<(Seq<char>, u32, Seq<char>)>::empty(),
            ),
            !newly ==> final(self)@ == old(self)@,
    {
        broadcast use vstd::std_specs::btree::axiom_contains_deref_key;
        broadcast use vstd::laws_cmp::group_laws_cmp;

        if self.types.contains_key(&type_key) {
            return false;
        }
        let empty = MessageFields::new();
        self.types.insert(type_key, empty);
        assert(self@ =~= old(self)@.insert(type_key, Seq::<(Seq<char>, u32, Seq<char>)>::empty()));
        true
    }

    /// Gives a registered message type its fields, replacing those it declared, and returns
    /// `true`; for a type that is not registered nothing changes, and `false` is returned.
    pub fn set_fields(&mut self, type_key: u64, fields: MessageFields) -> (found: bool)
        ensures
            found == old(self)@.contains_key(type_key),
            found ==> final(self)@ == old(self)@.insert(type_key, fields@),
            !found ==> final(self)@ == old(self)@,
    {
        broadcast use vstd::std_specs::btree::axiom_contains_deref_key;
        broadcast use vstd::laws_cmp::group_laws_cmp;

        if !self.types.contains_key(&type_key) {
            return false;
        }
        let ghost declared = fields@;
        self.types.insert(type_key, fields);
        assert(self@ =~= old(self)@.insert(type_key, declared));
        true
    }

    /// Registers a message type with its field descriptions: reserves it, then gives it its
    /// fields. A type that is already registered keeps its description, and `false` is returned.
    pub fn register_message(&mut self, type_key: u64, fields: MessageFields) -> (newly: bool)
        ensures
            newly == !old(self)@.contains_key(type_key),
            newly ==> final(self)@ == old(self)@.insert(type_key, fields@),
            !newly ==> final(self)@ == old(self)@,
    {
        let newly = self.reserve_message(type_key);
        if newly {
            let found = self.set_fields(type_key, fields);
            assert(found);
            assert(self@ =~= old(self)@.insert(type_key, fields@));
        }
        newly
    }

    /// Returns whether a type is registered.
    pub fn is_registered(&self, type_key: u64) -> (r: bool)
        ensures
            r == self@.contains_key(type_key),
    {
        broadcast use vstd::std_specs::btree::axiom_contains_deref_key;
        broadcast use vstd::laws_cmp::group_laws_cmp;

        self.types.contains_key(&type_key)
    }

    /// Returns the fields a registered type declares, or `None` for a type not registered.
    pub fn fields_of(&self, type_key: u64) -> (r: Option<&MessageFields>)
        ensures
            match r {
                Some(f) => self@.contains_key(type_key) && f@ == self@[type_key],
                None => !self@.contains_key(type_key),
            },
    {
        broadcast use vstd::std_specs::btree::axiom_contains_deref_key;
        broadcast use vstd::std_specs::btree::axiom_maps_deref_key_to_value;
        broadcast use vstd::laws_cmp::group_laws_cmp;

        self.types.get(&type_key)
    }
}

} // verus!
