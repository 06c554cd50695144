use static_wrapper::{One, Two, UtilTrait, Wrapper};

#[test]
fn wrapped_one_adds() {
    let w = Wrapper::One(One);
    assert_eq!(w.add(2, 3), 5);
    assert_eq!(w.add(-7, 3), -4);
}

#[test]
fn wrapped_two_says_hello_like_two() {
    let w = Wrapper::Two(Two);
    assert_eq!(w.say_hello("x".to_string()), Two.say_hello("x".to_string()));
    assert_eq!(w.say_hello("x".to_string()), "hello x from two");
}

#[test]
fn wrapped_codes_follow_the_variant() {
    assert_eq!(Wrapper::One(One).call_to_get_code("some url".to_string()), 1);
    assert_eq!(Wrapper::Two(Two).call_to_get_code("some url".to_string()), 2);
    assert_eq!(Wrapper::One(One).say_hello("test name".to_string()), "hello test name from one");
}
