//! Items of the tree and their mathematical models.
//!
//! An [`ItemMetadata`] record describes one node of the hierarchy: a file or a
//! folder, its name, its place in the tree, its owner, timestamps, and — for
//! files whose upload has begun — the content descriptors.  Ghost model
//! structs mirror each record so that contracts can speak of sequences of
//! characters and bytes rather than of heap values.

use crate::principal::PrincipalId;
use crate::ItemId;
use vstd::prelude::*;

verus! {

/// Whether an item is a file or a folder.
#[derive(Debug, Clone, Copy, PartialEq, Eq, Structural)]
pub enum ItemType {
    File,
    Folder,
}

/// The ghost model of an [`ItemMetadata`] record.
#[verifier::ext_equal]
pub ghost struct ItemModel {
    pub id: ItemId,
    pub name: Seq<char>,
    pub item_type: ItemType,
    pub parent_id: Option<ItemId>,
    pub owner: Seq<u8>,
    pub created_at: u64,
    pub modified_at: u64,
    pub content_type: Option<Seq<char>>,
    pub size: Option<u64>,
    pub num_chunks: Option<u64>,
}

/// One node of the item tree.
#[derive(Debug, Eq)]
pub struct ItemMetadata {
    pub id: ItemId,
    pub name: String,
    pub item_type: ItemType,
    pub parent_id: Option<ItemId>,
    pub owner_principal: PrincipalId,
    pub created_at: u64,
    pub modified_at: u64,
    pub content_type: Option<String>,
    pub size: Option<u64>,
    pub num_chunks: Option<u64>,
}

impl View for ItemMetadata {
    type V = ItemModel;

    open spec fn view(&self) -> ItemModel {
        ItemModel {
            id: self.id,
            name: self.name@,
            item_type: self.item_type,
            parent_id: self.parent_id,
            owner: self.owner_principal@,
            created_at: self.created_at,
            modified_at: self.modified_at,
            content_type: match self.content_type {
                Some(ct) => Some(ct@),
                None => None,
            },
            size: self.size,
            num_chunks: self.num_chunks,
        }
    }
}

/// True when two optional strings hold the same characters.
pub fn opt_string_eq(a: &Option<String>, b: &Option<String>) -> (r: bool)
    ensures
        r == (match (a, b) {
            (Some(x), Some(y)) => x@ == y@,
            (None, None) => true,
            _ => false,
        }),
{
    match (a, b) {
        (Some(x), Some(y)) => *x == *y,
        (None, None) => true,
        _ => false,
    }
}

/// True when two optional integers are equal.
pub fn opt_u64_eq(a: &Option<u64>, b: &Option<u64>) -> (r: bool)
    ensures
        r == (*a == *b),
{
    match (a, b) {
        (Some(x), Some(y)) => *x == *y,
        (None, None) => true,
        _ => false,
    }
}

impl PartialEq for ItemMetadata {
    fn eq(&self, other: &ItemMetadata) -> (r: bool) {
        let r = self.id == other.id && self.name == other.name && self.item_type
            == other.item_type && opt_u64_eq(&self.parent_id, &other.parent_id)
            && self.owner_principal == other.owner_principal && self.created_at == other.created_at
            && self.modified_at == other.modified_at && opt_string_eq(
            &self.content_type,
            &other.content_type,
        ) && opt_u64_eq(&self.size, &other.size) && opt_u64_eq(&self.num_chunks, &other.num_chunks);
        proof {
            if r {
                assert(self@ =~= other@);
            }
        }
        r
    }
}

impl vstd::std_specs::cmp::PartialEqSpecImpl for ItemMetadata {
    open spec fn obeys_eq_spec() -> bool {
        true
    }

    open spec fn eq_spec(&self, other: &ItemMetadata) -> bool {
        self@ == other@
    }
}

impl Clone for ItemMetadata {
    fn clone(&self) -> (r: ItemMetadata)
        ensures
            r@ == self@,
    {
        ItemMetadata {
            id: self.id,
            name: clone_string(&self.name),
            item_type: self.item_type,
            parent_id: self.parent_id,
            owner_principal: self.owner_principal.clone(),
            created_at: self.created_at,
            modified_at: self.modified_at,
            content_type: clone_opt_string(&self.content_type),
            size: self.size,
            num_chunks: self.num_chunks,
        }
    }
}

/// Copies a string, keeping its characters.
pub fn clone_string(s: &String) -> (r: String)
    ensures
        r@ == s@,
{
    s.clone()
}

/// Copies an optional string, keeping its characters.
pub fn clone_opt_string(s: &Option<String>) -> (r: Option<String>)
    ensures
        (match (s, r) {
            (Some(x), Some(y)) => x@ == y@,
            (None, None) => true,
            _ => false,
        }),
{
    match s {
        Some(x) => Some(x.clone()),
        None => None,
    }
}

/// The ghost model of a [`PublicItemMetadata`] record.
#[verifier::ext_equal]
pub ghost struct PublicItemModel {
    pub id: ItemId,
    pub name: Seq<char>,
    pub item_type: ItemType,
    pub parent_id: Option<ItemId>,
    pub modified_at: u64,
    pub size: Option<u64>,
}

/// The caller-visible projection of an item record.
#[derive(Debug, Eq)]
pub struct PublicItemMetadata {
    pub id: ItemId,
    pub name: String,
    pub item_type: ItemType,
    pub parent_id: Option<ItemId>,
    pub modified_at: u64,
    pub size: Option<u64>,
}

impl View for PublicItemMetadata {
    type V = PublicItemModel;

    open spec fn view(&self) -> PublicItemModel {
        PublicItemModel {
            id: self.id,
            name: self.name@,
            item_type: self.item_type,
            parent_id: self.parent_id,
            modified_at: self.modified_at,
            size: self.size,
        }
    }
}

impl PartialEq for PublicItemMetadata {
    fn eq(&self, other: &PublicItemMetadata) -> (r: bool) {
        let r = self.id == other.id && self.name == other.name && self.item_type
            == other.item_type && opt_u64_eq(&self.parent_id, &other.parent_id)
            && self.modified_at == other.modified_at && opt_u64_eq(&self.size, &other.size);
        proof {
            if r {
                assert(self@ =~= other@);
            }
        }
        r
    }
}

impl vstd::std_specs::cmp::PartialEqSpecImpl for PublicItemMetadata {
    open spec fn obeys_eq_spec() -> bool {
        true
    }

    open spec fn eq_spec(&self, other: &PublicItemMetadata) -> bool {
        self@ == other@
    }
}

impl Clone for PublicItemMetadata {
    fn clone(&self) -> (r: PublicItemMetadata)
        ensures
            r@ == self@,
    {
        PublicItemMetadata {
            id: self.id,
            name: clone_string(&self.name),
            item_type: self.item_type,
            parent_id: self.parent_id,
            modified_at: self.modified_at,
            size: self.size,
        }
    }
}

/// The character sequences of a vector of strings.
pub open spec fn strings_view(v: Seq<String>) -> Seq<Seq<char>> {
    v.map_values(|s: String| s@)
}

/// The public projection of an item model.
pub open spec fn public_of(m: ItemModel) -> PublicItemModel {
    PublicItemModel {
        id: m.id,
        name: m.name,
        item_type: m.item_type,
        parent_id: m.parent_id,
        modified_at: m.modified_at,
        size: m.size,
    }
}

impl ItemMetadata {
    /// Projects the record onto its caller-visible part.
    pub fn to_public(&self) -> (r: PublicItemMetadata)
        ensures
            r@ == public_of(self@),
    {
        let r = PublicItemMetadata {
            id: self.id,
            name: clone_string(&self.name),
            item_type: self.item_type,
            parent_id: self.parent_id,
            modified_at: self.modified_at,
            size: self.size,
        };
        proof {
            assert(r@ =~= public_of(self@));
        }
        r
    }
}

} // verus!
