//! Storage slots of the register-based IR: temporaries, locals and captured values.
use vstd::prelude::*;
use crate::text::{push_str, push_usize_decimal, nat_digits};

verus! {

/// A storage location of the IR.
#[derive(Debug, Clone, Copy, PartialEq, Eq, Hash, Structural)]
pub enum Slot {
    /// A value captured from an enclosing scope.
    Captured(usize),
    /// A compiler temporary.
    Temp(usize),
    /// A local variable.
    Local(usize),
}

/// The index of a slot within its kind.
pub open spec fn slot_index(s: Slot) -> usize {
    match s {
        Slot::Captured(i) => i,
        Slot::Temp(i) => i,
        Slot::Local(i) => i,
    }
}

/// The text form of a slot, such as `temp[3]`.
pub open spec fn slot_text(s: Slot) -> Seq<char> {
    match s {
        Slot::Captured(i) => "captured["@ + nat_digits(i as nat) + "]"@,
        Slot::Temp(i) => "temp["@ + nat_digits(i as nat) + "]"@,
        Slot::Local(i) => "local["@ + nat_digits(i as nat) + "]"@,
    }
}

impl View for Slot {
    type V = Slot;

    open spec fn view(&self) -> Slot {
        *self
    }
}

impl Slot {
    /// The index of the slot within its kind.
    pub fn index(&self) -> (r: usize)
        ensures
            r == slot_index(*self),
    {
        match self {
            Slot::Captured(i) => *i,
            Slot::Temp(i) => *i,
            Slot::Local(i) => *i,
        }
    }

    /// The text form of the slot, such as `temp[3]`.
    pub fn to_string(&self) -> (r: String)
        ensures
            r@ == slot_text(*self),
    {
        let mut s = String::new();
        match self {
            Slot::Captured(i) => {
                push_str(&mut s, "captured[");
                push_usize_decimal(&mut s, *i);
            },
            Slot::Temp(i) => {
                push_str(&mut s, "temp[");
                push_usize_decimal(&mut s, *i);
            },
            Slot::Local(i) => {
                push_str(&mut s, "local[");
                push_usize_decimal(&mut s, *i);
            },
        }
        push_str(&mut s, "]");
        s
    }
}

} // verus!
