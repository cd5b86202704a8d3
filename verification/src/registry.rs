//! Reserved internal-contract slots: a read-only table, keyed by symbolic
//! name, of addresses set aside for contracts activated in the future.
use vstd::prelude::*;

verus! {

/// The symbolic names of the reserved slots.
#[derive(Clone, Copy, PartialEq, Eq, Structural, Debug)]
pub enum ReservedSlot {
    AntiReentrancyConfig,
    Reserved8,
    Reserved9,
    Reserved10,
    Reserved11,
}

pub open spec fn slot_tag(slot: ReservedSlot) -> u8 {
    match slot {
        ReservedSlot::AntiReentrancyConfig => 0x07,
        ReservedSlot::Reserved8 => 0x08,
        ReservedSlot::Reserved9 => 0x09,
        ReservedSlot::Reserved10 => 0x0a,
        ReservedSlot::Reserved11 => 0x0b,
    }
}

/// The reserved address of a slot: the internal-contract prefix with the
/// slot's tag in the last byte.
pub open spec fn reserved_address_spec(slot: ReservedSlot) -> Seq<u8> {
    Seq::new(
        20,
        |i: int|
            if i == 0 {
                0x08u8
            } else if i == 1 {
                0x88u8
            } else if i == 19 {
                slot_tag(slot)
            } else {
                0u8
            },
    )
}

/// Looks a reserved slot's address up; exactly `reserved_address_spec`.
pub fn reserved_address(slot: ReservedSlot) -> (r: Vec<u8>)
    ensures
        r@ == reserved_address_spec(slot),
{
    let tag: u8 = match slot {
        ReservedSlot::AntiReentrancyConfig => 0x07,
        ReservedSlot::Reserved8 => 0x08,
        ReservedSlot::Reserved9 => 0x09,
        ReservedSlot::Reserved10 => 0x0a,
        ReservedSlot::Reserved11 => 0x0b,
    };
    let mut out: Vec<u8> = Vec::new();
    out.push(0x08);
    out.push(0x88);
    crate::bytes::push_zeros(&mut out, 17);
    out.push(tag);
    proof {
        assert(out@ =~= reserved_address_spec(slot));
    }
    out
}

} // verus!
