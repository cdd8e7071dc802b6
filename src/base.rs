//! The base: a catalog of parts that tokens are composed from, with, for
//! each slot part, the collections allowed to equip into it.
use crate::types::{AccountId, CollectionId, PartId, RmrkError};
use vstd::prelude::*;

verus! {

/// The kind of a part.
#[derive(Clone, Copy, Debug, PartialEq, Eq, Structural)]
pub enum PartType {
    Unspecified,
    Slot,
    Fixed,
}

/// A part of the base.
#[derive(Debug)]
pub struct Part {
    /// `Unspecified`, `Slot` or `Fixed`.
    pub part_type: PartType,
    /// Depth used when composing parts.
    pub z: u8,
    /// Collections that may be equipped into this part.
    pub equippable: Vec<CollectionId>,
    /// Uri of the part's metadata.
    pub metadata_uri: String,
    /// Whether any collection may be equipped into this part.
    pub is_equippable_by_all: bool,
}

/// A fixed part is never an equip target, so it carries no equip data.
pub open spec fn badly_configured(p: Part) -> bool {
    p.part_type == PartType::Fixed && (p.equippable@.len() != 0 || p.is_equippable_by_all)
}

/// `after` is `before` with its other fields, and its list of equippable
/// collections replaced by `equippable`.
pub open spec fn same_but_equip(before: Part, after: Part, equippable: Seq<CollectionId>, by_all: bool) -> bool {
    &&& after.part_type == before.part_type
    &&& after.z == before.z
    &&& after.metadata_uri == before.metadata_uri
    &&& after.equippable@ == equippable
    &&& after.is_equippable_by_all == by_all
}

/// What an equip-list operation on `part_id` returns: the caller must own
/// the collection and the part must be a slot.
pub open spec fn slot_outcome(parts: Seq<Part>, caller: AccountId, collection_owner: AccountId, part_id: PartId) -> Result<
    (),
    RmrkError,
> {
    if caller != collection_owner {
        Err(RmrkError::CallerIsNotOwner)
    } else if part_id >= parts.len() {
        Err(RmrkError::UnknownPartId)
    } else if parts[part_id as int].part_type != PartType::Slot {
        Err(RmrkError::PartIsNotSlot)
    } else {
        Ok(())
    }
}

/// The parts of the base, each under its index as id, and the base's
/// metadata uri.
pub struct BaseData {
    parts: Vec<Part>,
    base_metadata_uri: String,
}

impl BaseData {
    /// The parts, the id of each being its index.
    pub closed spec fn parts(&self) -> Seq<Part> {
        self.parts@
    }

    /// The base's metadata uri.
    pub closed spec fn metadata(&self) -> Seq<char> {
        self.base_metadata_uri@
    }

    /// Whether part `part_id` exists and lists collection `c` as allowed to
    /// equip into it.
    pub open spec fn allows(&self, part_id: PartId, c: CollectionId) -> bool {
        part_id < self.parts().len() && self.parts()[part_id as int].equippable@.contains(c)
    }

    /// Whether part `part_id` exists and any collection may equip into it.
    pub open spec fn allows_all(&self, part_id: PartId) -> bool {
        part_id < self.parts().len() && self.parts()[part_id as int].is_equippable_by_all
    }

    /// Equip-list operations on a part that does not exist, or that is
    /// fixed, fail.
    pub proof fn lemma_equip_needs_slot(&self, caller: AccountId, collection_owner: AccountId, part_id: PartId)
        requires
            caller == collection_owner,
            part_id >= self.parts().len() || self.parts()[part_id as int].part_type == PartType::Fixed,
        ensures
            slot_outcome(self.parts(), caller, collection_owner, part_id) == Err::<(), RmrkError>(
                if part_id >= self.parts().len() {
                    RmrkError::UnknownPartId
                } else {
                    RmrkError::PartIsNotSlot
                },
            ),
    {
    }

    /// After collections are added to the list of a slot, each of them, and
    /// each collection allowed before, is allowed.
    pub proof fn lemma_added_addresses_allowed(before: BaseData, after: BaseData, part_id: PartId, added: Seq<CollectionId>)
        requires
            part_id < before.parts().len(),
            after.parts().len() == before.parts().len(),
            same_but_equip(
                before.parts()[part_id as int],
                after.parts()[part_id as int],
                before.parts()[part_id as int].equippable@ + added,
                before.parts()[part_id as int].is_equippable_by_all,
            ),
        ensures
            forall|c: CollectionId| added.contains(c) ==> after.allows(part_id, c),
            forall|c: CollectionId| before.allows(part_id, c) ==> after.allows(part_id, c),
            after.allows_all(part_id) == before.allows_all(part_id),
    {
        let old_list = before.parts()[part_id as int].equippable@;
        assert forall|c: CollectionId| added.contains(c) implies after.allows(part_id, c) by {
            let j = choose|j: int| 0 <= j < added.len() && added[j] == c;
            assert((old_list + added)[old_list.len() + j] == c);
        }
        assert forall|c: CollectionId| before.allows(part_id, c) implies after.allows(part_id, c) by {
            let j = choose|j: int| 0 <= j < old_list.len() && old_list[j] == c;
            assert((old_list + added)[j] == c);
        }
    }

    /// After a slot's list is reset, no collection is allowed to equip into
    /// it, by name or by the flag for all.
    pub proof fn lemma_reset_allows_none(before: BaseData, after: BaseData, part_id: PartId, c: CollectionId)
        requires
            part_id < before.parts().len(),
            after.parts().len() == before.parts().len(),
            same_but_equip(before.parts()[part_id as int], after.parts()[part_id as int], Seq::empty(), false),
        ensures
            !after.allows(part_id, c),
            !after.allows_all(part_id),
    {
    }

    /// After a slot is opened to all collections, the flag reports it, and
    /// the collections allowed by name stay allowed.
    pub proof fn lemma_by_all_allows_all(before: BaseData, after: BaseData, part_id: PartId, c: CollectionId)
        requires
            part_id < before.parts().len(),
            after.parts().len() == before.parts().len(),
            same_but_equip(
                before.parts()[part_id as int],
                after.parts()[part_id as int],
                before.parts()[part_id as int].equippable@,
                true,
            ),
        ensures
            after.allows_all(part_id),
            after.allows(part_id, c) == before.allows(part_id, c),
    {
    }

    /// Part ids fit their type, and no fixed part carries equip data.
    pub closed spec fn wf(&self) -> bool {
        &&& self.parts@.len() <= u32::MAX
        &&& forall|i: int| 0 <= i < self.parts@.len() ==> !badly_configured(#[trigger] self.parts@[i])
    }

    /// A base with no parts and an empty metadata uri.
    pub fn new() -> (r: BaseData)
        ensures
            r.wf(),
            r.parts().len() == 0,
            r.metadata().len() == 0,
    {
        BaseData { parts: Vec::new(), base_metadata_uri: String::new() }
    }

    /// Append `parts` under the next free ids. Only the collection owner
    /// may. A batch that holds a badly configured part is refused whole.
    pub fn add_part_list(&mut self, caller: &AccountId, collection_owner: &AccountId, parts: Vec<Part>) -> (r:
        Result<(), RmrkError>)
        requires
            old(self).wf(),
            old(self).parts().len() + parts@.len() <= u32::MAX,
        ensures
            final(self).wf(),
            r == (if *caller != *collection_owner {
                Err(RmrkError::CallerIsNotOwner)
            } else if exists|i: int| 0 <= i < parts@.len() && badly_configured(#[trigger] parts@[i]) {
                Err(RmrkError::BadConfig)
            } else {
                Ok(())
            }),
            r is Err ==> *final(self) == *old(self),
            r is Ok ==> final(self).parts() == old(self).parts() + parts@,
            final(self).metadata() == old(self).metadata(),
    {
        if *caller != *collection_owner {
            return Err(RmrkError::CallerIsNotOwner);
        }
        let mut i: usize = 0;
        while i < parts.len()
            invariant
                *self == *old(self),
                old(self).wf(),
                *caller == *collection_owner,
                0 <= i <= parts@.len(),
                forall|j: int| 0 <= j < i ==> !badly_configured(#[trigger] parts@[j]),
            decreases parts@.len() - i,
        {
            let p = &parts[i];
            if p.part_type == PartType::Fixed && (p.equippable.len() != 0 || p.is_equippable_by_all) {
                assert(badly_configured(parts@[i as int]));
                return Err(RmrkError::BadConfig);
            }
            i = i + 1;
        }
        let ghost added = parts@;
        let mut parts = parts;
        self.parts.append(&mut parts);
        assert forall|j: int| 0 <= j < self.parts@.len() implies !badly_configured(#[trigger] self.parts@[j]) by {
            if j >= old(self).parts@.len() {
                assert(self.parts@[j] == added[j - old(self).parts@.len()]);
            }
        }
        Ok(())
    }

    /// The part `part_id`, where it is a slot.
    pub fn ensure_only_slot(&self, part_id: PartId) -> (r: Result<&Part, RmrkError>)
        ensures
            match r {
                Ok(p) => part_id < self.parts().len() && *p == self.parts()[part_id as int] && p.part_type
                    == PartType::Slot,
                Err(e) => if part_id >= self.parts().len() {
                    e == RmrkError::UnknownPartId
                } else {
                    self.parts()[part_id as int].part_type != PartType::Slot && e == RmrkError::PartIsNotSlot
                },
            },
    {
        if part_id as usize >= self.parts.len() {
            return Err(RmrkError::UnknownPartId);
        }
        let p = &self.parts[part_id as usize];
        if p.part_type != PartType::Slot {
            return Err(RmrkError::PartIsNotSlot);
        }
        Ok(p)
    }

    /// Allow the collections `equippable_address` to equip into slot
    /// `part_id`, after those already allowed. Only the collection owner may.
    pub fn add_equippable_addresses(
        &mut self,
        caller: &AccountId,
        collection_owner: &AccountId,
        part_id: PartId,
        equippable_address: Vec<CollectionId>,
    ) -> (r: Result<(), RmrkError>)
        requires
            old(self).wf(),
        ensures
            final(self).wf(),
            r == slot_outcome(old(self).parts(), *caller, *collection_owner, part_id),
            r is Err ==> *final(self) == *old(self),
            final(self).parts().len() == old(self).parts().len(),
            forall|j: int| 0 <= j < old(self).parts().len() && j != part_id ==> #[trigger] final(self).parts()[j] == old(self).parts()[j],
            r is Ok ==> same_but_equip(
                old(self).parts()[part_id as int],
                final(self).parts()[part_id as int],
                old(self).parts()[part_id as int].equippable@ + equippable_address@,
                old(self).parts()[part_id as int].is_equippable_by_all,
            ),
            final(self).metadata() == old(self).metadata(),
    {
        if *caller != *collection_owner {
            return Err(RmrkError::CallerIsNotOwner);
        }
        self.ensure_only_slot(part_id)?;
        let mut added = equippable_address;
        self.parts[part_id as usize].equippable.append(&mut added);
        assert forall|j: int| 0 <= j < self.parts@.len() implies !badly_configured(#[trigger] self.parts@[j]) by {
            assert(!badly_configured(old(self).parts@[j]));
        }
        Ok(())
    }

    /// Allow no collection to equip into slot `part_id` any more, and clear
    /// its flag for all collections. Only the collection owner may.
    pub fn reset_equippable_addresses(&mut self, caller: &AccountId, collection_owner: &AccountId, part_id: PartId) -> (r:
        Result<(), RmrkError>)
        requires
            old(self).wf(),
        ensures
            final(self).wf(),
            r == slot_outcome(old(self).parts(), *caller, *collection_owner, part_id),
            r is Err ==> *final(self) == *old(self),
            final(self).parts().len() == old(self).parts().len(),
            forall|j: int| 0 <= j < old(self).parts().len() && j != part_id ==> #[trigger] final(self).parts()[j] == old(self).parts()[j],
            r is Ok ==> same_but_equip(
                old(self).parts()[part_id as int],
                final(self).parts()[part_id as int],
                Seq::empty(),
                false,
            ),
            final(self).metadata() == old(self).metadata(),
    {
        if *caller != *collection_owner {
            return Err(RmrkError::CallerIsNotOwner);
        }
        self.ensure_only_slot(part_id)?;
        self.parts[part_id as usize].is_equippable_by_all = false;
        self.parts[part_id as usize].equippable.clear();
        assert forall|j: int| 0 <= j < self.parts@.len() implies !badly_configured(#[trigger] self.parts@[j]) by {
            assert(!badly_configured(old(self).parts@[j]));
        }
        Ok(())
    }

    /// Allow every collection to equip into slot `part_id`. Only the
    /// collection owner may.
    pub fn set_equippable_by_all(&mut self, caller: &AccountId, collection_owner: &AccountId, part_id: PartId) -> (r:
        Result<(), RmrkError>)
        requires
            old(self).wf(),
        ensures
            final(self).wf(),
            r == slot_outcome(old(self).parts(), *caller, *collection_owner, part_id),
            r is Err ==> *final(self) == *old(self),
            final(self).parts().len() == old(self).parts().len(),
            forall|j: int| 0 <= j < old(self).parts().len() && j != part_id ==> #[trigger] final(self).parts()[j] == old(self).parts()[j],
            r is Ok ==> same_but_equip(
                old(self).parts()[part_id as int],
                final(self).parts()[part_id as int],
                old(self).parts()[part_id as int].equippable@,
                true,
            ),
            final(self).metadata() == old(self).metadata(),
    {
        if *caller != *collection_owner {
            return Err(RmrkError::CallerIsNotOwner);
        }
        self.ensure_only_slot(part_id)?;
        self.parts[part_id as usize].is_equippable_by_all = true;
        assert forall|j: int| 0 <= j < self.parts@.len() implies !badly_configured(#[trigger] self.parts@[j]) by {
            assert(!badly_configured(old(self).parts@[j]));
        }
        Ok(())
    }

    /// Set the base's metadata uri. Only the collection owner may.
    pub fn setup_base(&mut self, caller: &AccountId, collection_owner: &AccountId, base_metadata: String) -> (r: Result<
        (),
        RmrkError,
    >)
        requires
            old(self).wf(),
        ensures
            final(self).wf(),
            r == (if *caller != *collection_owner {
                Err(RmrkError::CallerIsNotOwner)
            } else {
                Ok(())
            }),
            r is Err ==> *final(self) == *old(self),
            r is Ok ==> final(self).metadata() == base_metadata@,
            final(self).parts() == old(self).parts(),
    {
        if *caller != *collection_owner {
            return Err(RmrkError::CallerIsNotOwner);
        }
        self.base_metadata_uri = base_metadata;
        Ok(())
    }

    /// The base's metadata uri.
    pub fn get_base_metadata(&self) -> (r: String)
        ensures
            r@ == self.metadata(),
    {
        self.base_metadata_uri.clone()
    }

    /// The number of parts, which is also the id the next part will get.
    pub fn get_parts_count(&self) -> (r: PartId)
        requires
            self.wf(),
        ensures
            r == self.parts().len(),
    {
        self.parts.len() as PartId
    }

    /// The part `part_id`, if there is one.
    pub fn get_part(&self, part_id: PartId) -> (r: Option<&Part>)
        ensures
            match r {
                Some(p) => part_id < self.parts().len() && *p == self.parts()[part_id as int],
                None => part_id >= self.parts().len(),
            },
    {
        if (part_id as usize) < self.parts.len() {
            Some(&self.parts[part_id as usize])
        } else {
            None
        }
    }

    /// Whether `target_address` is among the collections allowed to equip
    /// into part `part_id`; false where there is no such part.
    pub fn is_equippable(&self, part_id: PartId, target_address: &CollectionId) -> (r: bool)
        ensures
            r == self.allows(part_id, *target_address),
    {
        if part_id as usize >= self.parts.len() {
            return false;
        }
        let allowed = &self.parts[part_id as usize].equippable;
        let mut i: usize = 0;
        while i < allowed.len()
            invariant
                part_id < self.parts@.len(),
                *allowed == self.parts@[part_id as int].equippable,
                0 <= i <= allowed@.len(),
                forall|j: int| 0 <= j < i ==> allowed@[j] != *target_address,
            decreases allowed@.len() - i,
        {
            if allowed[i] == *target_address {
                assert(allowed@[i as int] == *target_address);
                return true;
            }
            i = i + 1;
        }
        false
    }

    /// Whether any collection may equip into part `part_id`; false where
    /// there is no such part.
    pub fn is_equippable_by_all(&self, part_id: PartId) -> (r: bool)
        ensures
            r == self.allows_all(part_id),
    {
        if (part_id as usize) < self.parts.len() {
            self.parts[part_id as usize].is_equippable_by_all
        } else {
            false
        }
    }
}

} // verus!
