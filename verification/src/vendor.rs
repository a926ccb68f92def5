//! The chip families that are known, with the USB identifiers under which
//! their bootloaders show up.

use vstd::prelude::*;
use vstd::string::StringExecFns;

verus! {

/// The vendor and product identifiers of one device.
pub type DeviceId = (u16, u16);

/// The known chip families in the order in which they are listed: the
/// family's name, then the identifiers of its bootloaders.
pub open spec fn known_chips() -> Seq<(Seq<char>, Seq<DeviceId>)> {
    seq![
        ("stm32"@, seq![(0x0483u16, 0xdf11u16)]),
        ("gd32vf103"@, seq![(0x28e9u16, 0x0189u16)]),
    ]
}

/// A table of chips as plain sequences.
pub open spec fn table_view(table: Seq<(String, Vec<DeviceId>)>) -> Seq<(Seq<char>, Seq<DeviceId>)> {
    Seq::new(table.len(), |i: int| (table[i].0@, table[i].1@))
}

/// The identifiers listed for `chip` in `table`, from the first entry of
/// that name.
pub open spec fn products_in(table: Seq<(Seq<char>, Seq<DeviceId>)>, chip: Seq<char>) -> Option<
    Seq<DeviceId>,
>
    decreases table.len(),
{
    if table.len() == 0 {
        None
    } else if table[0].0 == chip {
        Some(table[0].1)
    } else {
        products_in(table.skip(1), chip)
    }
}

/// Some entry of `table` lists `id`.
pub open spec fn listed_in(table: Seq<(Seq<char>, Seq<DeviceId>)>, id: DeviceId) -> bool {
    exists|i: int, j: int|
        0 <= i < table.len() && 0 <= j < table[i].1.len() && #[trigger] table[i].1[j] == id
}

/// The table of known chips.
pub fn vendor_map() -> (table: Vec<(String, Vec<DeviceId>)>)
    ensures
        table_view(table@) == known_chips(),
{
    let mut table: Vec<(String, Vec<DeviceId>)> = Vec::new();
    let mut stm32: Vec<DeviceId> = Vec::new();
    stm32.push((0x0483, 0xdf11));
    table.push((String::from_str("stm32"), stm32));
    let mut gd32: Vec<DeviceId> = Vec::new();
    gd32.push((0x28e9, 0x0189));
    table.push((String::from_str("gd32vf103"), gd32));
    proof {
        assert(table@[0].1@ =~= seq![(0x0483u16, 0xdf11u16)]);
        assert(table@[1].1@ =~= seq![(0x28e9u16, 0x0189u16)]);
        assert(table_view(table@) =~= known_chips());
    }
    table
}

/// The identifiers under which the bootloader of `chip` shows up, if the
/// chip is in the table.
pub fn products_of<'a>(table: &'a Vec<(String, Vec<DeviceId>)>, chip: &String) -> (products: Option<
    &'a Vec<DeviceId>,
>)
    ensures
        match products {
            Some(ids) => products_in(table_view(table@), chip@) == Some(ids@),
            None => products_in(table_view(table@), chip@) is None,
        },
{
    let mut i: usize = 0;
    let ghost all = table_view(table@);
    proof {
        assert(all.skip(0) =~= all);
    }
    while i < table.len()
        invariant
            i <= table.len(),
            all == table_view(table@),
            products_in(all, chip@) == products_in(all.skip(i as int), chip@),
        decreases table.len() - i,
    {
        proof {
            assert(all.skip(i as int)[0] == all[i as int]);
            assert(all.skip(i as int).skip(1) =~= all.skip(i + 1));
        }
        if table[i].0 == *chip {
            return Some(&table[i].1);
        }
        i += 1;
    }
    None
}

/// Whether a device with these identifiers is the bootloader of some chip
/// in the table.
pub fn is_known_device(table: &Vec<(String, Vec<DeviceId>)>, vendor_id: u16, product_id: u16) -> (known:
    bool)
    ensures
        known == listed_in(table_view(table@), (vendor_id, product_id)),
{
    let ghost all = table_view(table@);
    let ghost id = (vendor_id, product_id);
    let mut i: usize = 0;
    while i < table.len()
        invariant
            i <= table.len(),
            all == table_view(table@),
            id == (vendor_id, product_id),
            forall|a: int, b: int| 0 <= a < i && 0 <= b < all[a].1.len() ==> #[trigger] all[a].1[b] != id,
        decreases table.len() - i,
    {
        let ids = &table[i].1;
        let mut j: usize = 0;
        while j < ids.len()
            invariant
                i < table.len(),
                j <= ids.len(),
                all == table_view(table@),
                ids@ == all[i as int].1,
                id == (vendor_id, product_id),
                forall|b: int| 0 <= b < j ==> #[trigger] ids@[b] != id,
            decreases ids.len() - j,
        {
            let entry = ids[j];
            if entry.0 == vendor_id && entry.1 == product_id {
                assert(all[i as int].1[j as int] == id);
                return true;
            }
            j += 1;
        }
        i += 1;
    }
    false
}

/// Where to look for the device to flash.
#[derive(Debug, PartialEq, Eq)]
pub enum Search {
    /// The device with exactly these vendor and product identifiers.
    Device(u16, u16),
    /// The bootloader of the chip family of this name.
    Chip(String),
    /// Any connected device that the table knows.
    AnyKnown,
}

/// Decides where to look: identifiers win when both are given, then the
/// chip's name, else any known device.
pub fn search_for(vendor_id: Option<u16>, product_id: Option<u16>, chip: Option<String>) -> (search:
    Search)
    ensures
        search == match (vendor_id, product_id, chip) {
            (Some(v), Some(p), _) => Search::Device(v, p),
            (_, _, Some(c)) => Search::Chip(c),
            _ => Search::AnyKnown,
        },
{
    match (vendor_id, product_id) {
        (Some(v), Some(p)) => Search::Device(v, p),
        _ => match chip {
            Some(c) => Search::Chip(c),
            None => Search::AnyKnown,
        },
    }
}

} // verus!
