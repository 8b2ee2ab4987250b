//! The two pieces of user code a pool carries: how to make a buffer, and how
//! to bring a returned one into a known state.

use vstd::prelude::*;

verus! {

/// What makes the buffers of a pool: a closure, or anything that makes a buffer
/// and in doing so moves a state on.
///
/// The pools run an initializer on a state that is theirs to pass on, and say in
/// their contracts which state a run leaves behind. So a contract tells one run
/// from none and from two: it says that there is a run exactly where an
/// allocation is counted. A closure that takes nothing runs on the empty state.
pub trait Initializer {
    /// The buffers that are made.
    type Buffer;

    /// What a run reads and moves on.
    type State;

    /// The initializer may run on `state`.
    spec fn can_run(&self, state: Self::State) -> bool;

    /// One run on the state `before` may make the buffer `made` and leave the
    /// state `after`.
    spec fn runs(&self, before: Self::State, after: Self::State, made: Self::Buffer) -> bool;

    /// Makes a buffer.
    fn run(&self, state: &mut Self::State) -> (made: Self::Buffer)
        requires
            self.can_run(*old(state)),
        ensures
            self.runs(*old(state), *final(state), made),
    ;
}

impl<T, F: Fn() -> T> Initializer for F {
    type Buffer = T;

    type State = ();

    open spec fn can_run(&self, state: ()) -> bool {
        call_requires(*self, ())
    }

    open spec fn runs(&self, before: (), after: (), made: T) -> bool {
        call_ensures(*self, (), made)
    }

    fn run(&self, state: &mut ()) -> (made: T) {
        self()
    }
}

/// `gauge` counts the runs of `init`: each run moves it up by one.
pub open spec fn counts_runs<I: Initializer>(init: I, gauge: spec_fn(I::State) -> int) -> bool {
    forall|before: I::State, after: I::State, made: I::Buffer| #[trigger]
        init.runs(before, after, made) ==> gauge(after) == gauge(before) + 1
}

/// A pool's initializer and, where one is registered, its reset hook.
///
/// Neither touches the pool's buffers, so both can run while the state behind
/// the pool is not held.
pub struct Hooks<I, R> {
    init: I,
    reset: Option<R>,
}

/// No hook, of the type of `hook`.
pub(crate) fn absent<R>(hook: R) -> (none: Option<R>)
    ensures
        none is None,
{
    None
}

impl<T, S, I: Initializer<Buffer = T, State = S>, R: Fn(&mut T)> Hooks<I, R> {
    /// The initializer.
    pub closed spec fn init(&self) -> I {
        self.init
    }

    /// The reset hook, where there is one.
    pub closed spec fn reset(&self) -> Option<R> {
        self.reset
    }

    /// The reset hook, where there is one, may be run on `buffer`.
    pub open spec fn can_reset(&self, buffer: T) -> bool {
        self.reset() matches Some(reset) ==> forall|m: &mut T|
            *m == buffer ==> #[trigger] call_requires(reset, (m,))
    }

    /// A pool's hooks: `init` makes buffers, `reset` runs on returned ones.
    pub fn new(init: I, reset: Option<R>) -> (hooks: Self)
        ensures
            hooks.init() == init,
            hooks.reset() == reset,
    {
        Hooks { init, reset }
    }

    /// The same initializer with `reset` as the reset hook.
    pub fn with_reset<F: Fn(&mut T)>(self, reset: F) -> (hooks: Hooks<I, F>)
        ensures
            hooks.init() == self.init(),
            hooks.reset() == Some(reset),
    {
        Hooks { init: self.init, reset: Some(reset) }
    }

    /// The buffer of a lease: the idle one that was `found`, or else one that
    /// the initializer makes, in a single run on `state`.
    pub fn provide(&self, found: Option<T>, state: &mut S) -> (buffer: T)
        requires
            found is None ==> self.init().can_run(*old(state)),
        ensures
            match found {
                Some(idle) => buffer == idle && *final(state) == *old(state),
                None => self.init().runs(*old(state), *final(state), buffer),
            },
    {
        match found {
            Some(idle) => idle,
            None => self.init.run(state),
        }
    }

    /// Brings a returned buffer into the state in which it is parked: runs the
    /// reset hook on it, where there is one.
    pub fn refresh(&self, buffer: T) -> (clean: T)
        requires
            self.can_reset(buffer),
        ensures
            match self.reset() {
                Some(reset) => exists|m: &mut T|
                    *m == buffer && *final(m) == clean && #[trigger] call_ensures(reset, (m,), ()),
                None => clean == buffer,
            },
    {
        let mut buffer = buffer;
        if let Some(reset) = &self.reset {
            reset(&mut buffer);
        }
        buffer
    }
}

impl<T, I: Fn() -> T, R: Fn(&mut T)> Hooks<I, R> {
    /// The initializer may be run.
    pub open spec fn can_init(&self) -> bool {
        call_requires(self.init(), ())
    }

    /// The buffer of a lease: the idle one that was `found`, or else a fresh
    /// one from the initializer.
    pub fn supply(&self, found: Option<T>) -> (buffer: T)
        requires
            found is None ==> self.can_init(),
        ensures
            match found {
                Some(idle) => buffer == idle,
                None => call_ensures(self.init(), (), buffer),
            },
    {
        self.provide(found, &mut ())
    }
}

} // verus!
