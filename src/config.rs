use vstd::prelude::*;

verus! {

/// USB vendor id of the serial bridges these supplies ship with.
pub const SUPPLY_USB_VENDOR: u16 = 1046;

/// A serial port whose USB vendor id is this one is probably a supply.
pub fn is_likely_supply(vendor_id: u16) -> (r: bool)
    ensures
        r == (vendor_id == SUPPLY_USB_VENDOR),
{
    vendor_id == SUPPLY_USB_VENDOR
}

/// Splits the startup list `name port name port ...` into (name, port) pairs.
/// A list of odd length is rejected.
pub fn supply_pairs(args: &Vec<String>) -> (r: Option<Vec<(String, String)>>)
    ensures
        args@.len() % 2 == 1 ==> r is None,
        args@.len() % 2 == 0 ==> match r {
            Some(pairs) => {
                &&& pairs@.len() * 2 == args@.len()
                &&& forall|i: int|
                    0 <= i < pairs@.len() ==> (#[trigger] pairs@[i]).0@ == args@[2 * i]@
                        && pairs@[i].1@ == args@[2 * i + 1]@
            },
            None => false,
        },
{
    if args.len() % 2 == 1 {
        return None;
    }
    let mut pairs: Vec<(String, String)> = Vec::new();
    let mut i: usize = 0;
    while i < args.len()
        invariant
            args@.len() % 2 == 0,
            i % 2 == 0,
            i <= args@.len(),
            pairs@.len() * 2 == i,
            forall|k: int|
                0 <= k < pairs@.len() ==> (#[trigger] pairs@[k]).0@ == args@[2 * k]@
                    && pairs@[k].1@ == args@[2 * k + 1]@,
        decreases args@.len() - i,
    {
        pairs.push((args[i].clone(), args[i + 1].clone()));
        i = i + 2;
    }
    Some(pairs)
}

} // verus!
