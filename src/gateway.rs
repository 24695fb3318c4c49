use vstd::prelude::*;

verus! {

#[verifier::external_type_specification]
#[verifier::external_body]
pub struct ExSpin(spin::relax::Spin);

#[verifier::external_type_specification]
#[verifier::external_body]
#[verifier::reject_recursive_types(T)]
#[verifier::reject_recursive_types(R)]
pub struct ExMutex<T: ?Sized, R>(spin::mutex::Mutex<T, R>);

/// Whether the flag held by a gateway's lock is set, that is, whether the
/// gateway is open.
pub uninterp spec fn gate_open(m: spin::mutex::Mutex<bool>) -> bool;

/// Relies on `spin::mutex::Mutex::new`: the new lock holds the given value.
#[verifier::external_body]
pub(crate) fn new_gate(open: bool) -> (r: spin::mutex::Mutex<bool>)
    ensures
        gate_open(r) == open,
{
    spin::mutex::Mutex::new(open)
}

/// Relies on `spin::mutex::Mutex::lock`: it returns once the lock is held,
/// and the guard reads and writes the held value. Stores `v` and returns the
/// value held before, both under one acquisition.
#[verifier::external_body]
pub(crate) fn swap_gate(m: &mut spin::mutex::Mutex<bool>, v: bool) -> (r: bool)
    ensures
        r == gate_open(*old(m)),
        gate_open(*final(m)) == v,
{
    core::mem::replace(&mut *m.lock(), v)
}


/// Relies on `spin::mutex::Mutex::lock`: it returns once the lock is held,
/// and the guard reads the held value.
#[verifier::external_body]
pub(crate) fn read_gate(m: &spin::mutex::Mutex<bool>) -> (r: bool)
    ensures
        r == gate_open(*m),
{
    *m.lock()
}

} // verus!
