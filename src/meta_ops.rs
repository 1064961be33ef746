use vstd::prelude::*;
use crate::value::{Primitive, RucketVal, ValView};

verus! {

/// Constructors of the introspection and box primitives. What each one does
/// when applied is `prim_spec` of its `Primitive`.
pub struct MetaOperations {}

impl MetaOperations {
    /// `(inspect-bytecode f)`: void for a closure `f`, a type error for any
    /// other value. Showing the body is left to the host.
    pub fn inspect_bytecode() -> (r: RucketVal)
        ensures
            r@ == ValView::Prim(Primitive::InspectBytecode),
    {
        RucketVal::FuncV(Primitive::InspectBytecode)
    }

    /// `(active-object-count)`: how many frames and boxes the arena holds.
    pub fn active_objects() -> (r: RucketVal)
        ensures
            r@ == ValView::Prim(Primitive::ActiveObjects),
    {
        RucketVal::FuncV(Primitive::ActiveObjects)
    }

    /// `(memory-address v)`: for any single value, the host's pointer text
    /// (`0x` and hex digits) of the arena storage that the program's values
    /// live in (see `EnvView::address`).
    pub fn memory_address() -> (r: RucketVal)
        ensures
            r@ == ValView::Prim(Primitive::MemoryAddress),
    {
        RucketVal::FuncV(Primitive::MemoryAddress)
    }

    /// `(assert! v)`: void when `v` is `#true`, an error otherwise.
    pub fn assert_truthy() -> (r: RucketVal)
        ensures
            r@ == ValView::Prim(Primitive::AssertTruthy),
    {
        RucketVal::FuncV(Primitive::AssertTruthy)
    }

    /// `(box v)`: a new mutable cell holding `v`.
    pub fn new_box() -> (r: RucketVal)
        ensures
            r@ == ValView::Prim(Primitive::NewBox),
    {
        RucketVal::FuncV(Primitive::NewBox)
    }

    /// `(unbox b)`: what cell `b` holds.
    pub fn unbox() -> (r: RucketVal)
        ensures
            r@ == ValView::Prim(Primitive::Unbox),
    {
        RucketVal::FuncV(Primitive::Unbox)
    }

    /// `(set-box! b v)`: puts `v` in cell `b`, returns what it held.
    pub fn set_box() -> (r: RucketVal)
        ensures
            r@ == ValView::Prim(Primitive::SetBox),
    {
        RucketVal::FuncV(Primitive::SetBox)
    }
}

} // verus!
