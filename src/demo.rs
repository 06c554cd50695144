//! A sample capability with two implementations, and the union that
//! forwards to them: the shape that generation produces for the directive
//! `Wrapper, [One, Two], add(..), say_hello(..), call_to_get_code(..)`.
use vstd::prelude::*;
use vstd::string::*;

verus! {

/// The greeting that `say_hello` gives for `name`, from the implementation
/// tagged `tag`.
pub open spec fn greeting(name: Seq<char>, tag: Seq<char>) -> Seq<char> {
    "hello "@ + name + " from "@ + tag
}

pub trait UtilTrait {
    fn add(&self, one: i32, two: i32) -> (r: i32)
        requires
            i32::MIN <= one + two <= i32::MAX,
        ensures
            r == one + two,
    ;

    fn say_hello(&self, name: String) -> (r: String);

    fn call_to_get_code(&self, url: String) -> (r: i32);
}

pub struct One;

pub struct Two;

impl UtilTrait for One {
    fn add(&self, one: i32, two: i32) -> (r: i32) {
        one + two
    }

    fn say_hello(&self, name: String) -> (r: String)
        ensures
            r@ == greeting(name@, "one"@),
    {
        let mut r = String::from_str("hello ");
        r.append(name.as_str());
        r.append(" from ");
        r.append("one");
        r
    }

    fn call_to_get_code(&self, url: String) -> (r: i32)
        ensures
            r == 1,
    {
        1
    }
}

impl UtilTrait for Two {
    fn add(&self, one: i32, two: i32) -> (r: i32) {
        one + two
    }

    fn say_hello(&self, name: String) -> (r: String)
        ensures
            r@ == greeting(name@, "two"@),
    {
        let mut r = String::from_str("hello ");
        r.append(name.as_str());
        r.append(" from ");
        r.append("two");
        r
    }

    fn call_to_get_code(&self, url: String) -> (r: i32)
        ensures
            r == 2,
    {
        2
    }
}

/// Holds one implementation and forwards each call to it.
pub enum Wrapper {
    One(One),
    Two(Two),
}

impl Wrapper {
    /// The tag of the held implementation.
    pub open spec fn tag(&self) -> Seq<char> {
        match self {
            Wrapper::One(_) => "one"@,
            Wrapper::Two(_) => "two"@,
        }
    }

    /// The code of the held implementation.
    pub open spec fn code(&self) -> i32 {
        match self {
            Wrapper::One(_) => 1,
            Wrapper::Two(_) => 2,
        }
    }

    pub fn add(&self, one: i32, two: i32) -> (r: i32)
        requires
            i32::MIN <= one + two <= i32::MAX,
        ensures
            r == one + two,
    {
        match self {
            Wrapper::One(inner) => inner.add(one, two),
            Wrapper::Two(inner) => inner.add(one, two),
        }
    }

    pub fn say_hello(&self, name: String) -> (r: String)
        ensures
            r@ == greeting(name@, self.tag()),
    {
        match self {
            Wrapper::One(inner) => inner.say_hello(name),
            Wrapper::Two(inner) => inner.say_hello(name),
        }
    }

    pub fn call_to_get_code(&self, url: String) -> (r: i32)
        ensures
            r == self.code(),
    {
        match self {
            Wrapper::One(inner) => inner.call_to_get_code(url),
            Wrapper::Two(inner) => inner.call_to_get_code(url),
        }
    }
}

} // verus!
