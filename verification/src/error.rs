use vstd::prelude::*;

verus! {

/// The unified invocation contract for user transforms, argument taken
/// by reference. A transform may be plain (it cannot fail) or fallible
/// (it reports success or failure); every operator invokes it through
/// this one interface and obtains a success-or-failure result, so one
/// operator body serves both flavours. This version takes the argument
/// by reference.
pub trait WithErrByRef<T, R>: Sized {
    type E;

    /// What the wrapped transform demands of its argument.
    spec fn pre(&self, v: &T) -> bool;

    /// What holds of the result the invocation produced.
    spec fn post(&self, v: &T, r: &Result<R, Self::E>) -> bool;

    fn call_with_err(&self, v: &T) -> (r: Result<R, Self::E>)
        requires
            self.pre(v),
        ensures
            self.post(v, &r),
    ;
}

/// The same unified invocation contract, argument taken by value.
pub trait WithErr<T, R>: Sized {
    type E;

    spec fn pre(&self, v: T) -> bool;

    spec fn post(&self, v: T, r: &Result<R, Self::E>) -> bool;

    fn call_with_err(&self, v: T) -> (r: Result<R, Self::E>)
        requires
            self.pre(v),
        ensures
            self.post(v, &r),
    ;
}

/// Adapter for a plain transform that cannot fail: its outcome is always
/// reported as success, under the unit error type, so a chain built from
/// it never sees the error channel at all.
pub struct NextWhitoutError<N>(pub N);

impl<T, R, N: Fn(&T) -> R> WithErrByRef<T, R> for NextWhitoutError<N> {
    type E = ();

    open spec fn pre(&self, v: &T) -> bool {
        call_requires(self.0, (v,))
    }

    /// Success always, and the payload is whatever the transform itself
    /// promises of its input.
    open spec fn post(&self, v: &T, r: &Result<R, ()>) -> bool {
        match *r {
            Ok(out) => call_ensures(self.0, (v,), out),
            Err(_) => false,
        }
    }

    fn call_with_err(&self, v: &T) -> (r: Result<R, ()>) {
        Ok((self.0)(v))
    }
}

impl<T, R, N: Fn(T) -> R> WithErr<T, R> for NextWhitoutError<N> {
    type E = ();

    open spec fn pre(&self, v: T) -> bool {
        call_requires(self.0, (v,))
    }

    open spec fn post(&self, v: T, r: &Result<R, ()>) -> bool {
        match *r {
            Ok(out) => call_ensures(self.0, (v,), out),
            Err(_) => false,
        }
    }

    fn call_with_err(&self, v: T) -> (r: Result<R, ()>) {
        Ok((self.0)(v))
    }
}

/// Adapter for a fallible transform: its own success-or-failure result
/// is passed through unchanged, and a failure is what the surrounding
/// operator folds into the stream's error channel.
pub struct NextWithError<NE>(pub NE);

impl<T, R, F, N: Fn(&T) -> Result<R, F>> WithErrByRef<T, R> for NextWithError<N> {
    type E = F;

    open spec fn pre(&self, v: &T) -> bool {
        call_requires(self.0, (v,))
    }

    open spec fn post(&self, v: &T, r: &Result<R, F>) -> bool {
        call_ensures(self.0, (v,), *r)
    }

    fn call_with_err(&self, v: &T) -> (r: Result<R, F>) {
        (self.0)(v)
    }
}

impl<T, R, F, N: Fn(T) -> Result<R, F>> WithErr<T, R> for NextWithError<N> {
    type E = F;

    open spec fn pre(&self, v: T) -> bool {
        call_requires(self.0, (v,))
    }

    open spec fn post(&self, v: T, r: &Result<R, F>) -> bool {
        call_ensures(self.0, (v,), *r)
    }

    fn call_with_err(&self, v: T) -> (r: Result<R, F>) {
        (self.0)(v)
    }
}

} // verus!
