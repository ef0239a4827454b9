//! The players of a new save: each player's inventory of twelve slots and
//! sanity, stored in the map `PlayerData` from Steam id to player struct.

use crate::editor::{first_slot, has_slot, is_slot, set_slot, text_is};
use crate::model::{
    FStr, Guid, MapEntry, Properties, Property, PropertyInner, PropertyKey, PropertyTag,
    PropertyValue, StructValue, TagData, ValueType,
};
use crate::names::{item_name, map_item_id_to_name};
use vstd::prelude::*;
use vstd::string::StringSliceAdditionalSpecFns;
use vstd::utf8::encode_utf8;

verus! {

/// A player of a new save: the Steam id and the item ids of the inventory.
#[derive(Debug, Clone)]
pub struct PlayerData {
    pub steam_id: String,
    pub inventory: Vec<i32>,
}

/// Slots in an inventory.
pub const INVENTORY_SLOTS: usize = 12;

/// Full sanity, 100.0 in single precision.
pub const FULL_SANITY_BITS: u32 = 0x42c8_0000;

/// Slot `i` of the inventory made from item ids `ids`: the item of the id,
/// for the first twelve ids, and `None` for the slots after the last id.
pub open spec fn slot_item(ids: Seq<i32>, i: int) -> Seq<u8> {
    if i < ids.len() {
        encode_utf8(item_name(ids[i]))
    } else {
        encode_utf8("None"@)
    }
}

/// `slots` is the inventory made from `ids`.
pub open spec fn is_inventory(slots: Seq<PropertyValue>, ids: Seq<i32>) -> bool {
    &&& slots.len() == INVENTORY_SLOTS
    &&& forall|i: int|
        0 <= i < INVENTORY_SLOTS ==> (#[trigger] slots[i] matches PropertyValue::Name(s) && text_is(
            s,
            slot_item(ids, i),
        ))
}

/// The twelve inventory slots for the item ids `ids`.
pub fn inventory_slots(ids: &[i32]) -> (r: Vec<PropertyValue>)
    ensures
        is_inventory(r@, ids@),
{
    let mut r: Vec<PropertyValue> = Vec::new();
    let mut i: usize = 0;
    while i < INVENTORY_SLOTS
        invariant
            i <= INVENTORY_SLOTS,
            r@.len() == i,
            forall|j: int|
                0 <= j < i ==> (#[trigger] r@[j] matches PropertyValue::Name(s) && text_is(
                    s,
                    slot_item(ids@, j),
                )),
        decreases INVENTORY_SLOTS - i,
    {
        let name = if i < ids.len() {
            map_item_id_to_name(ids[i])
        } else {
            "None"
        };
        r.push(PropertyValue::Name(FStr::narrow(name)));
        i += 1;
    }
    r
}

/// The name of the sanity field of a player struct.
pub open spec fn sanity_field() -> Seq<u8> {
    "Sanity_6_A5AFAB454F51CC63745A669BD7E629F6".spec_bytes()
}

/// The name of the inventory field of a player struct.
pub open spec fn inventory_field() -> Seq<u8> {
    "Inventory_12_EFA3897B4BF0E95A13FE30BACF8B1DB4".spec_bytes()
}

/// `p` is the struct of a player with item ids `ids` and the given sanity:
/// the sanity field, then the inventory field, an array of names.
pub open spec fn is_player_bag(p: Seq<(PropertyKey, Property)>, ids: Seq<i32>, sanity: u32) -> bool {
    &&& p.len() == 2
    &&& is_slot(p[0].0, "Sanity_6_A5AFAB454F51CC63745A669BD7E629F6".spec_bytes())
    &&& p[0].1 == (Property {
        tag: PropertyTag { id: None, data: TagData::Float },
        inner: PropertyInner::Float(sanity),
    })
    &&& is_slot(p[1].0, "Inventory_12_EFA3897B4BF0E95A13FE30BACF8B1DB4".spec_bytes())
    &&& p[1].1.tag == PropertyTag { id: None, data: TagData::Array(ValueType::Name) }
    &&& p[1].1.inner matches PropertyInner::Array(vs) && is_inventory(vs@, ids)
}

/// The struct of a player with item ids `ids` and the sanity with bit pattern `sanity`.
pub fn player_struct(ids: &[i32], sanity: u32) -> (r: Properties)
    ensures
        is_player_bag(r.0@, ids@, sanity),
{
    let sanity_prop = Property {
        tag: PropertyTag { id: None, data: TagData::Float },
        inner: PropertyInner::Float(sanity),
    };
    let inventory_prop = Property {
        tag: PropertyTag { id: None, data: TagData::Array(ValueType::Name) },
        inner: PropertyInner::Array(inventory_slots(ids)),
    };
    let mut p = Properties::new();
    p.0.push((PropertyKey::named(0, "Sanity_6_A5AFAB454F51CC63745A669BD7E629F6"), sanity_prop));
    p.0.push(
        (PropertyKey::named(0, "Inventory_12_EFA3897B4BF0E95A13FE30BACF8B1DB4"), inventory_prop),
    );
    p
}

/// The struct type under which player structs are stored.
pub open spec fn player_struct_type(t: FStr) -> bool {
    text_is(t, "Struct".spec_bytes())
}

/// `m` is the player map for `players`, all at full sanity, in their order.
pub open spec fn is_player_map(m: Property, players: Seq<PlayerData>) -> bool {
    &&& m.tag.id is None
    &&& m.tag.data matches TagData::MapOf { key_type, value_type } && key_type == ValueType::Str
        && (value_type matches ValueType::Struct { struct_type, id } && player_struct_type(
        struct_type,
    ) && id == (Guid { a: 0, b: 0, c: 0, d: 0 }))
    &&& m.inner matches PropertyInner::MapOf(es) && es@.len() == players.len() && forall|j: int|
        0 <= j < players.len() ==> {
            &&& (#[trigger] es@[j]).key matches PropertyValue::Str(k) && text_is(
                k,
                encode_utf8(players[j].steam_id@),
            )
            &&& es@[j].value matches PropertyValue::Struct(StructValue::Struct(b)) && is_player_bag(
                b.0@,
                players[j].inventory@,
                FULL_SANITY_BITS,
            )
        }
}

/// Stores the players of a new save in slot `PlayerData`, each at full sanity;
/// with no players the bag is left alone.
pub fn update_player_data(root: &mut Properties, players: &[PlayerData])
    ensures
        players@.len() == 0 ==> final(root).0@ == old(root).0@,
        players@.len() > 0 ==> forall|i: int|
            first_slot(old(root).0@, "PlayerData".spec_bytes(), i) ==> final(root).0@.len()
                == old(root).0@.len() && final(root).0@[i].0 == old(root).0@[i].0 && is_player_map(
                final(root).0@[i].1,
                players@,
            ),
        players@.len() > 0 && !has_slot(old(root).0@, "PlayerData".spec_bytes())
            ==> final(root).0@.drop_last() == old(root).0@ && is_slot(
            final(root).0@.last().0,
            "PlayerData".spec_bytes(),
        ) && is_player_map(final(root).0@.last().1, players@),
{
    if players.len() == 0 {
        return;
    }
    let mut entries: Vec<MapEntry> = Vec::new();
    let mut j: usize = 0;
    while j < players.len()
        invariant
            j <= players@.len(),
            entries@.len() == j,
            forall|x: int|
                0 <= x < j ==> {
                    &&& (#[trigger] entries@[x]).key matches PropertyValue::Str(k) && text_is(
                        k,
                        encode_utf8(players@[x].steam_id@),
                    )
                    &&& entries@[x].value matches PropertyValue::Struct(StructValue::Struct(b))
                        && is_player_bag(b.0@, players@[x].inventory@, FULL_SANITY_BITS)
                },
        decreases players@.len() - j,
    {
        let player = &players[j];
        let bag = player_struct(player.inventory.as_slice(), FULL_SANITY_BITS);
        entries.push(
            MapEntry {
                key: PropertyValue::Str(FStr::narrow(player.steam_id.as_str())),
                value: PropertyValue::Struct(StructValue::Struct(bag)),
            },
        );
        j += 1;
    }
    let map = Property {
        tag: PropertyTag {
            id: None,
            data: TagData::MapOf {
                key_type: ValueType::Str,
                value_type: ValueType::Struct { struct_type: FStr::narrow("Struct"), id: Guid::nil() },
            },
        },
        inner: PropertyInner::MapOf(entries),
    };
    set_slot(root, "PlayerData", map);
}

} // verus!
