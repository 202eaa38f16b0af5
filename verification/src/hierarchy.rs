//! What is known of each class, and the way up from a class to its root.
//!
//! A class is known from two records that come in either order: its
//! definition, which gives its layout and its superclass, and its load
//! record, which gives its name. It is complete when both have been seen.

use vstd::prelude::*;
use std::collections::{HashMap, HashSet};
use crate::capture::{Class, FieldDescriptor};
use crate::error::LoadError;

verus! {

broadcast use vstd::std_specs::hash::group_hash_axioms;

/// What is known of one class.
#[derive(Debug)]
pub struct ClassInfo {
    /// The key of the class.
    pub id: i64,
    /// The fields that the class declares, in the order of their
    /// declaration; empty until the definition is seen.
    pub fields: Vec<FieldDescriptor>,
    /// `None` until the definition is seen.
    pub instance_size: Option<u32>,
    /// The key of the name; `None` until the load record is seen.
    pub name_id: Option<i64>,
    /// The identifier of the superclass, if the class has one.
    pub super_id: Option<u64>,
}

/// A `ClassInfo` as a mathematical value.
pub struct ClassInfoView {
    pub id: i64,
    pub fields: Seq<FieldDescriptor>,
    pub instance_size: Option<u32>,
    pub name_id: Option<i64>,
    pub super_id: Option<u64>,
}

impl View for ClassInfo {
    type V = ClassInfoView;

    open spec fn view(&self) -> ClassInfoView {
        ClassInfoView {
            id: self.id,
            fields: self.fields@,
            instance_size: self.instance_size,
            name_id: self.name_id,
            super_id: self.super_id,
        }
    }
}

impl ClassInfoView {
    /// The definition has been seen.
    pub open spec fn defined(self) -> bool {
        self.instance_size is Some
    }

    /// The load record has been seen.
    pub open spec fn named(self) -> bool {
        self.name_id is Some
    }

    /// Both have been seen.
    pub open spec fn complete(self) -> bool {
        self.defined() && self.named()
    }
}

/// The classes after the definition of class `id` has been seen. Of a class
/// that is defined already, a second definition changes nothing.
pub open spec fn with_definition(
    classes: Map<u64, ClassInfoView>,
    id: u64,
    key: i64,
    super_id: Option<u64>,
    instance_size: u32,
    fields: Seq<FieldDescriptor>,
) -> Map<u64, ClassInfoView> {
    if classes.contains_key(id) && classes[id].defined() {
        classes
    } else {
        classes.insert(
            id,
            ClassInfoView {
                id: key,
                fields,
                instance_size: Some(instance_size),
                name_id: if classes.contains_key(id) {
                    classes[id].name_id
                } else {
                    None
                },
                super_id,
            },
        )
    }
}

/// The classes after the load record of class `id` has been seen. Of a class
/// that is named already, a second load record changes nothing.
pub open spec fn with_name(
    classes: Map<u64, ClassInfoView>,
    id: u64,
    key: i64,
    name_key: i64,
) -> Map<u64, ClassInfoView> {
    if classes.contains_key(id) && classes[id].named() {
        classes
    } else if classes.contains_key(id) {
        classes.insert(
            id,
            ClassInfoView {
                id: key,
                fields: classes[id].fields,
                instance_size: classes[id].instance_size,
                name_id: Some(name_key),
                super_id: classes[id].super_id,
            },
        )
    } else {
        classes.insert(
            id,
            ClassInfoView {
                id: key,
                fields: Seq::empty(),
                instance_size: None,
                name_id: Some(name_key),
                super_id: None,
            },
        )
    }
}

/// Class `id` is complete in `after` and was not in `before`.
pub open spec fn completed(
    before: Map<u64, ClassInfoView>,
    after: Map<u64, ClassInfoView>,
    id: u64,
) -> bool {
    &&& after.contains_key(id) && after[id].complete()
    &&& !(before.contains_key(id) && before[id].complete())
}

/// The classes that are not on `chain`.
pub open spec fn off_chain(classes: Map<u64, ClassInfoView>, chain: Seq<u64>) -> Set<u64> {
    classes.dom().difference(chain.to_set())
}

/// Goes on from `chain` with class `next` and its superclasses, up to the
/// class that has none. It is an error to come to a class that is not
/// defined, or to one that is on the chain already.
pub open spec fn chain_from(
    classes: Map<u64, ClassInfoView>,
    next: Option<u64>,
    chain: Seq<u64>,
) -> Result<Seq<u64>, LoadError>
    decreases off_chain(classes, chain).len(),
    when classes.dom().finite()
    via chain_from_decreases
{
    match next {
        None => Ok(chain),
        Some(id) => if chain.contains(id) {
            Err(LoadError::SuperclassCycle(id))
        } else if !classes.contains_key(id) || !classes[id].defined() {
            Err(LoadError::UnknownClass(id))
        } else {
            chain_from(classes, classes[id].super_id, chain.push(id))
        },
    }
}

#[via_fn]
proof fn chain_from_decreases(
    classes: Map<u64, ClassInfoView>,
    next: Option<u64>,
    chain: Seq<u64>,
) {
    if let Some(id) = next {
        if !chain.contains(id) && classes.contains_key(id) && classes[id].defined() {
            lemma_off_chain_shrinks(classes, chain, id);
        }
    }
}

/// A class that joins the chain leaves the classes off it.
pub proof fn lemma_off_chain_shrinks(classes: Map<u64, ClassInfoView>, chain: Seq<u64>, id: u64)
    requires
        classes.dom().finite(),
        classes.contains_key(id),
        !chain.contains(id),
    ensures
        off_chain(classes, chain).finite(),
        off_chain(classes, chain.push(id)).len() < off_chain(classes, chain).len(),
{
    chain.lemma_push_to_set_commute(id);
    assert(off_chain(classes, chain.push(id)) =~= off_chain(classes, chain).remove(id));
    assert(off_chain(classes, chain).contains(id));
}

/// The chain of a class: the class, its superclass, and so on up to the
/// class that has no superclass.
pub open spec fn spec_resolve_chain(classes: Map<u64, ClassInfoView>, class_id: u64) -> Result<
    Seq<u64>,
    LoadError,
> {
    chain_from(classes, Some(class_id), Seq::empty())
}

/// What a chain is made of: it goes on from where it started, every class
/// that joined it is defined, and each is the superclass of the one before
/// it. The class it was to go on with comes first.
pub proof fn lemma_chain_from(classes: Map<u64, ClassInfoView>, next: Option<u64>, chain: Seq<u64>)
    requires
        classes.dom().finite(),
        chain_from(classes, next, chain) is Ok,
    ensures
        ({
            let full = chain_from(classes, next, chain)->Ok_0;
            &&& chain.len() <= full.len()
            &&& full.take(chain.len() as int) == chain
            &&& next matches Some(id) ==> chain.len() < full.len() && full[chain.len() as int] == id
            &&& next is None ==> full == chain
            &&& forall|i: int|
                chain.len() <= i < full.len() ==> classes.contains_key(#[trigger] full[i])
                    && classes[full[i]].defined()
            &&& forall|i: int|
                chain.len() <= i < full.len() - 1 ==> classes[#[trigger] full[i]].super_id == Some(
                    full[i + 1],
                )
            &&& chain.len() < full.len() ==> classes[full.last()].super_id is None
        }),
    decreases off_chain(classes, chain).len(),
{
    let full = chain_from(classes, next, chain)->Ok_0;
    match next {
        None => {
            assert(full.take(chain.len() as int) =~= chain);
        },
        Some(id) => {
            lemma_off_chain_shrinks(classes, chain, id);
            let longer = chain.push(id);
            lemma_chain_from(classes, classes[id].super_id, longer);
            assert(full.take(longer.len() as int) == longer);
            assert(full[chain.len() as int] == longer[chain.len() as int]);
            assert(full.take(chain.len() as int) =~= chain) by {
                assert forall|i: int| 0 <= i < chain.len() implies full[i] == chain[i] by {
                    assert(full.take(longer.len() as int)[i] == longer[i]);
                }
            }
            if classes[id].super_id is None {
                assert(full == longer);
            }
        },
    }
}

/// The classes seen so far, by their identifiers.
pub struct Hierarchy {
    pub classes: HashMap<u64, ClassInfo>,
}

impl View for Hierarchy {
    type V = Map<u64, ClassInfoView>;

    open spec fn view(&self) -> Map<u64, ClassInfoView> {
        Map::new(|id: u64| self.classes@.contains_key(id), |id: u64| self.classes@[id]@)
    }
}

/// A copy of a list of field descriptors.
fn copy_fields(fields: &Vec<FieldDescriptor>) -> (copy: Vec<FieldDescriptor>)
    ensures
        copy@ == fields@,
{
    let mut copy: Vec<FieldDescriptor> = Vec::new();
    let mut i: usize = 0;
    while i < fields.len()
        invariant
            i <= fields.len(),
            copy@ == fields@.take(i as int),
        decreases fields.len() - i,
    {
        copy.push(fields[i]);
        i = i + 1;
        assert(copy@ =~= fields@.take(i as int));
    }
    assert(fields@.take(fields@.len() as int) =~= fields@);
    copy
}

impl Hierarchy {
    /// No class has been seen.
    pub fn new() -> (hierarchy: Hierarchy)
        ensures
            hierarchy@ == Map::<u64, ClassInfoView>::empty(),
    {
        let hierarchy = Hierarchy { classes: HashMap::new() };
        assert(hierarchy@ =~= Map::<u64, ClassInfoView>::empty());
        hierarchy
    }

    /// The classes are finitely many.
    pub proof fn lemma_finite(&self)
        ensures
            self@.dom().finite(),
    {
        assert(self@.dom() =~= self.classes@.dom());
    }

    /// What is known of class `id`, if it has been seen.
    pub fn get(&self, id: u64) -> (info: Option<&ClassInfo>)
        ensures
            match info {
                Some(found) => self@.contains_key(id) && found@ == self@[id],
                None => !self@.contains_key(id),
            },
    {
        self.classes.get(&id)
    }

    /// Sees the definition of a class, whose key is `key`. Returns whether
    /// the class has become complete by it.
    pub fn observe_class_definition(&mut self, class: &Class, key: i64) -> (now_complete: bool)
        ensures
            final(self)@ == with_definition(
                old(self)@,
                class.obj_id,
                key,
                class.super_class_obj_id,
                class.instance_size_bytes,
                class.instance_fields@,
            ),
            now_complete == completed(old(self)@, final(self)@, class.obj_id),
    {
        let name_id = match self.classes.get(&class.obj_id) {
            Some(info) => {
                if info.instance_size.is_some() {
                    return false;
                }
                info.name_id
            },
            None => None,
        };
        let info = ClassInfo {
            id: key,
            fields: copy_fields(&class.instance_fields),
            instance_size: Some(class.instance_size_bytes),
            name_id,
            super_id: class.super_class_obj_id,
        };
        self.classes.insert(class.obj_id, info);
        assert(self@ =~= with_definition(
            old(self)@,
            class.obj_id,
            key,
            class.super_class_obj_id,
            class.instance_size_bytes,
            class.instance_fields@,
        ));
        name_id.is_some()
    }

    /// Sees the load record of class `id`, whose key is `key` and whose name
    /// has the key `name_key`. Returns whether the class has become complete
    /// by it.
    pub fn observe_class_load(&mut self, id: u64, key: i64, name_key: i64) -> (now_complete: bool)
        ensures
            final(self)@ == with_name(old(self)@, id, key, name_key),
            now_complete == completed(old(self)@, final(self)@, id),
    {
        match self.classes.remove(&id) {
            Some(info) => {
                if info.name_id.is_some() {
                    self.classes.insert(id, info);
                    assert(self@ =~= old(self)@);
                    false
                } else {
                    let defined = info.instance_size.is_some();
                    let named = ClassInfo {
                        id: key,
                        fields: info.fields,
                        instance_size: info.instance_size,
                        name_id: Some(name_key),
                        super_id: info.super_id,
                    };
                    self.classes.insert(id, named);
                    assert(self@ =~= with_name(old(self)@, id, key, name_key));
                    defined
                }
            },
            None => {
                let named = ClassInfo {
                    id: key,
                    fields: Vec::new(),
                    instance_size: None,
                    name_id: Some(name_key),
                    super_id: None,
                };
                self.classes.insert(id, named);
                assert(self@ =~= with_name(old(self)@, id, key, name_key));
                false
            },
        }
    }

    /// The chain of class `class_id`: the identifiers of the class, of its
    /// superclass, and so on up to the class that has no superclass.
    pub fn resolve_chain(&self, class_id: u64) -> (r: Result<Vec<u64>, LoadError>)
        ensures
            match spec_resolve_chain(self@, class_id) {
                Ok(chain) => r matches Ok(found) && found@ == chain,
                Err(e) => r matches Err(f) && f == e,
            },
    {
        let mut chain: Vec<u64> = Vec::new();
        let mut visited: HashSet<u64> = HashSet::new();
        let mut next: Option<u64> = Some(class_id);
        proof {
            self.lemma_finite();
            assert(visited@ =~= chain@.to_set());
        }
        loop
            invariant
                self@.dom().finite(),
                visited@ == chain@.to_set(),
                spec_resolve_chain(self@, class_id) == chain_from(self@, next, chain@),
            decreases off_chain(self@, chain@).len(),
        {
            let id = match next {
                None => {
                    return Ok(chain);
                },
                Some(id) => id,
            };
            if visited.contains(&id) {
                return Err(LoadError::SuperclassCycle(id));
            }
            let info = match self.get(id) {
                None => {
                    return Err(LoadError::UnknownClass(id));
                },
                Some(info) => info,
            };
            if info.instance_size.is_none() {
                return Err(LoadError::UnknownClass(id));
            }
            proof {
                lemma_off_chain_shrinks(self@, chain@, id);
                chain@.lemma_push_to_set_commute(id);
            }
            chain.push(id);
            visited.insert(id);
            next = info.super_id;
        }
    }
}

} // verus!
