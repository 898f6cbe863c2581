use vstd::prelude::*;

verus! {

/// A callback that takes the new value of a signal by reference. It can be
/// invoked any number of times.
pub struct Slot<F> {
    pub(crate) callback: F,
}

impl<F> Slot<F> {
    /// The wrapped callback.
    pub closed spec fn callback(&self) -> F {
        self.callback
    }

    /// Wraps `callback`.
    pub fn new(callback: F) -> (r: Self)
        ensures
            r.callback() == callback,
    {
        Slot { callback }
    }

    /// Invokes the callback with `with`.
    pub fn invoke<T>(&self, with: &T)
        where
            F: Fn(&T),
        requires
            call_requires(self.callback(), (with,)),
        ensures
            call_ensures(self.callback(), (with,), ()),
    {
        (self.callback)(with)
    }
}

/// A callback that takes no argument: it is told only that something changed.
pub struct NotifSlot<F> {
    pub(crate) callback: F,
}

impl<F: Fn()> NotifSlot<F> {
    /// The wrapped callback.
    pub closed spec fn callback(&self) -> F {
        self.callback
    }

    /// Wraps `callback`.
    pub fn new(callback: F) -> (r: Self)
        ensures
            r.callback() == callback,
    {
        NotifSlot { callback }
    }

    /// Invokes the callback.
    pub fn invoke(&self)
        requires
            call_requires(self.callback(), ()),
        ensures
            call_ensures(self.callback(), (), ()),
    {
        (self.callback)()
    }
}

/// A callback run on the owning thread, such as a click handler.
pub struct BlockingCallback<F> {
    pub(crate) closure: F,
}

impl<F: Fn()> BlockingCallback<F> {
    /// The wrapped closure.
    pub closed spec fn closure(&self) -> F {
        self.closure
    }

    /// Wraps `closure`.
    pub fn new(closure: F) -> (r: Self)
        ensures
            r.closure() == closure,
    {
        BlockingCallback { closure }
    }

    /// Runs the closure.
    pub fn invoke(&self)
        requires
            call_requires(self.closure(), ()),
        ensures
            call_ensures(self.closure(), (), ()),
    {
        (self.closure)()
    }
}

} // verus!
