//! Callbacks that receive the user object of the context.

use vstd::prelude::*;
use std::marker::PhantomData;
use crate::command::CommandCallback;
use crate::context::Context;
use crate::error::ClickError;
use crate::types::FromValue;

verus! {

/// Makes callbacks that are handed the nearest user object of type `T`.
pub struct PassDecorator<T> {
    pub marker: PhantomData<T>,
}

/// A decorator for objects of type `T`.
pub fn make_pass_decorator<T>() -> (r: PassDecorator<T>) {
    PassDecorator { marker: PhantomData }
}

/// A callback that is handed the nearest user object of type `T`.
pub struct PassCallback<T, F> {
    pub f: F,
    pub marker: PhantomData<T>,
}

/// Calls a user's closure with the object (std's `Fn::call`): where the arguments meet the closure's own precondition, what comes back
/// is what the closure returns for these arguments.
#[verifier::external_body]
fn call_with_obj<T, F: Fn(&T, &Context) -> Result<(), ClickError>>(f: &F, obj: &T, ctx: &Context) -> (r: Result<
    (),
    ClickError,
>)
    ensures
        call_requires(*f, (obj, ctx)) ==> call_ensures(*f, (obj, ctx), r),
{
    f(obj, ctx)
}

/// What running a callback that is handed the nearest object of type `T` may
/// give: what `f` returns for that object; without one, a usage error.
pub open spec fn pass_runs<T: FromValue, F: Fn(&T, &Context) -> Result<(), ClickError>>(
    f: F,
    ctx: Context,
    r: Result<(), ClickError>,
) -> bool {
    if ctx.obj_in_chain::<T>() {
        call_requires(f, (&ctx.nearest_obj::<T>(), &ctx)) ==> call_ensures(f, (&ctx.nearest_obj::<T>(), &ctx), r)
    } else {
        r matches Err(ClickError::UsageError { message: m, ctx: None }) && m@ == missing_obj_message()
    }
}

/// The error when no context has an object of the type.
pub open spec fn missing_obj_message() -> Seq<char> {
    "Missing context object for make_pass_decorator()."@
}

impl<T: FromValue, F: Fn(&T, &Context) -> Result<(), ClickError>> PassCallback<T, F> {
    /// Run the closure with the nearest object of type `T`; without one, a usage
    /// error.
    pub fn run(&self, ctx: &Context) -> (r: Result<(), ClickError>)
        ensures
            pass_runs::<T, F>(self.f, *ctx, r),
    {
        match ctx.find_obj::<T>() {
            Some(o) => call_with_obj(&self.f, o, ctx),
            None => {
                proof {
                    reveal_strlit("Missing context object for make_pass_decorator().");
                }
                Err(ClickError::usage("Missing context object for make_pass_decorator()."))
            },
        }
    }
}

impl<T: FromValue, F: Fn(&T, &Context) -> Result<(), ClickError>> CommandCallback for PassCallback<T, F> {
    open spec fn spec_returns(&self, ctx: Context, r: Result<(), ClickError>) -> bool {
        pass_runs::<T, F>(self.f, ctx, r)
    }

    fn call(&self, ctx: &Context) -> (r: Result<(), ClickError>) {
        self.run(ctx)
    }
}

impl<T> PassDecorator<T> {
    /// A callback that runs `f` with the nearest object of type `T`.
    pub fn decorate<F: Fn(&T, &Context) -> Result<(), ClickError>>(self, f: F) -> (r: PassCallback<T, F>)
        ensures
            r.f == f,
    {
        PassCallback { f, marker: PhantomData }
    }
}

} // verus!
