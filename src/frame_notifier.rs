use vstd::prelude::*;

verus! {

/// A callback to run on every frame until a moment in time; the callback is
/// named by its key and times are ticks of the owner's clock.
#[derive(Clone, Copy, PartialEq, Eq, Structural, Debug)]
pub struct FrameListener {
    pub callback: u64,
    pub expires: u64,
}

impl FrameListener {
    /// A listener for callback `callback` that stays until `expires`.
    pub fn new(callback: u64, expires: u64) -> (r: Self)
        ensures
            r.callback == callback,
            r.expires == expires,
    {
        FrameListener { callback, expires }
    }
}

/// The listeners of `ls` that are still to run after a frame at `time`.
pub open spec fn still_active(ls: Seq<FrameListener>, time: u64) -> Seq<FrameListener>
    decreases ls.len(),
{
    if ls.len() == 0 {
        ls
    } else {
        let rest = still_active(ls.drop_last(), time);
        if ls.last().expires > time {
            rest.push(ls.last())
        } else {
            rest
        }
    }
}

/// The callbacks of `ls`, in order.
pub open spec fn callbacks_of(ls: Seq<FrameListener>) -> Seq<u64> {
    ls.map_values(|l: FrameListener| l.callback)
}

/// The listeners that run on every frame.
pub struct FrameNotifier {
    pub listeners: Vec<FrameListener>,
}

impl FrameNotifier {
    /// A notifier without listeners.
    pub fn new() -> (r: Self)
        ensures
            r.listeners@.len() == 0,
    {
        FrameNotifier { listeners: Vec::new() }
    }

    /// The listeners, to change in place.
    pub fn get_mut(&mut self) -> (r: &mut Vec<FrameListener>)
        ensures
            *r == old(self).listeners,
            final(self).listeners == *final(r),
    {
        &mut self.listeners
    }

    /// Adds `listener` after the others.
    pub fn add(&mut self, listener: FrameListener)
        ensures
            final(self).listeners@ == old(self).listeners@.push(listener),
    {
        self.listeners.push(listener);
    }

    /// A frame at `time`: returns the callbacks of all listeners, in order, to
    /// run with `time`, then keeps only the listeners that expire after `time`.
    /// The flag tells whether any listener is left.
    pub fn run(&mut self, time: u64) -> (r: (Vec<u64>, bool))
        ensures
            r.0@ == callbacks_of(old(self).listeners@),
            final(self).listeners@ == still_active(old(self).listeners@, time),
            r.1 == (final(self).listeners@.len() > 0),
    {
        let mut calls: Vec<u64> = Vec::new();
        let mut kept: Vec<FrameListener> = Vec::new();
        let mut i: usize = 0;
        while i < self.listeners.len()
            invariant
                i <= self.listeners@.len(),
                self.listeners == old(self).listeners,
                calls@ == callbacks_of(self.listeners@.take(i as int)),
                kept@ == still_active(self.listeners@.take(i as int), time),
            decreases self.listeners@.len() - i,
        {
            let l = self.listeners[i];
            calls.push(l.callback);
            if l.expires > time {
                kept.push(l);
            }
            proof {
                let ls = self.listeners@;
                assert(ls.take(i + 1).drop_last() =~= ls.take(i as int));
                assert(callbacks_of(ls.take(i + 1)) =~= callbacks_of(ls.take(i as int)).push(l.callback));
            }
            i = i + 1;
        }
        proof {
            assert(self.listeners@.take(i as int) =~= self.listeners@);
        }
        self.listeners = kept;
        let active = self.listeners.len() > 0;
        (calls, active)
    }
}

} // verus!
