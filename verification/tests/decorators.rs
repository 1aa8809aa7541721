//! Tests of the decorators module.

use click::context::{ContextBuilder};
use click::types::Value;
use click::decorators::{make_pass_decorator};

use std::sync::Arc;
#[allow(unused_imports)]
use click::parameter::Parameter;
#[allow(unused_imports)]
use click::argument::AnyTypeConverter;
#[allow(unused_imports)]
use click::types::{TypeConverter, FromValue};
#[allow(unused_imports)]
use click::group::CommandLike;
#[allow(unused_imports)]
use click::completion::ShellComplete;

#[test]
fn test_make_pass_decorator_passes_obj() {
    let cb = make_pass_decorator::<i32>().decorate(|state: &i32, _ctx| {
        assert_eq!(*state, 7);
        Ok(())
    });

    let ctx = ContextBuilder::new().obj(Value::I32(7)).build();
    cb.run(&ctx).unwrap();
}

#[test]
fn test_make_pass_decorator_finds_obj_from_parent() {
    let cb = make_pass_decorator::<i32>().decorate(|state: &i32, _ctx| {
        assert_eq!(*state, 9);
        Ok(())
    });

    let parent = Arc::new(ContextBuilder::new().obj(Value::I32(9)).build());
    let child = ContextBuilder::new().parent(parent).build();
    cb.run(&child).unwrap();
}

#[test]
fn test_make_pass_decorator_without_obj_is_usage_error() {
    let cb = make_pass_decorator::<i32>().decorate(|_state: &i32, _ctx| Ok(()));
    let ctx = ContextBuilder::new().build();
    let err = cb.run(&ctx).err().unwrap();
    assert_eq!(err.to_string(), "Missing context object for make_pass_decorator().");
}
