//! Changing the variant of an enum behind a `&mut` without cloning what it
//! owns: the owned value is swapped out for an empty one and moved into the
//! new variant.

use vstd::prelude::*;

verus! {

#[derive(Debug, PartialEq, Eq)]
pub enum MyEnum {
    A { name: String, x: u8 },
    B { name: String },
}

#[derive(Debug, PartialEq, Eq)]
pub enum MultiVariateEnum {
    A { name: String },
    B { name: String },
    C,
    D,
}

/// `A` with `x` zero becomes `B` with the same name; anything else stays.
pub open spec fn a_to_b_of(e: MyEnum) -> MyEnum {
    match e {
        MyEnum::A { name, x } => if x == 0 {
            MyEnum::B { name }
        } else {
            e
        },
        MyEnum::B { .. } => e,
    }
}

/// `A` and `B` trade places and keep the name; so do `C` and `D`.
pub open spec fn swizzle_of(e: MultiVariateEnum) -> MultiVariateEnum {
    match e {
        MultiVariateEnum::A { name } => MultiVariateEnum::B { name },
        MultiVariateEnum::B { name } => MultiVariateEnum::A { name },
        MultiVariateEnum::C => MultiVariateEnum::D,
        MultiVariateEnum::D => MultiVariateEnum::C,
    }
}

/// Takes the string out of `slot` and leaves the empty string there.
fn take(slot: &mut String) -> (taken: String)
    ensures
        taken == *old(slot),
        final(slot)@ == Seq::<char>::empty(),
{
    let mut taken = String::new();
    core::mem::swap(slot, &mut taken);
    taken
}

/// Turns `A` with `x` zero into `B` in place, moving the name.
pub fn a_to_b(e: &mut MyEnum)
    ensures
        *final(e) == a_to_b_of(*old(e)),
{
    if let MyEnum::A { name, x: 0 } = e {
        *e = MyEnum::B { name: take(name) }
    }
}

/// Lets `A` and `B`, and `C` and `D`, trade places, moving the name.
pub fn swizzle(e: &mut MultiVariateEnum)
    ensures
        *final(e) == swizzle_of(*old(e)),
{
    *e = match e {
        MultiVariateEnum::A { name } => MultiVariateEnum::B { name: take(name) },
        MultiVariateEnum::B { name } => MultiVariateEnum::A { name: take(name) },
        MultiVariateEnum::C => MultiVariateEnum::D,
        MultiVariateEnum::D => MultiVariateEnum::C,
    }
}

} // verus!
