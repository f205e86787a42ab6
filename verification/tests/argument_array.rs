use static_args::{static_args, StaticArgs};

#[test]
fn yields_every_entry_in_order() {
    let argv = ["prog", "--flag", "value", "last"];
    let mut args = static_args(4, Some(&argv[..]));
    assert_eq!(args.len(), 4);
    assert_eq!(args.next(), Some(&"prog"));
    assert_eq!(args.next(), Some(&"--flag"));
    assert_eq!(args.next(), Some(&"value"));
    assert_eq!(args.next(), Some(&"last"));
    assert_eq!(args.next(), None);
    assert_eq!(args.next(), None);
}

#[test]
fn length_is_what_is_left() {
    let argv: [&[u8]; 3] = [b"a", b"bc", b"def"];
    let mut args = StaticArgs::new(3, &argv);
    let mut expected = 3;
    loop {
        assert_eq!(args.len(), expected);
        assert_eq!(args.size_hint(), (expected, Some(expected)));
        if args.next().is_none() {
            break;
        }
        expected -= 1;
    }
    assert_eq!(expected, 0);
    assert_eq!(args.len(), 0);
}

#[test]
fn count_bounds_the_walk() {
    let argv = [10_u8, 20, 30, 0, 99];
    let mut args = StaticArgs::new(3, &argv);
    assert_eq!(args.size_hint(), (3, Some(3)));
    assert_eq!(args.next(), Some(&10));
    assert_eq!(args.next(), Some(&20));
    assert_eq!(args.next(), Some(&30));
    assert_eq!(args.next(), None);
}

#[test]
fn count_of_zero_yields_nothing() {
    let argv = [1_u32, 2];
    let mut args = static_args(0, Some(&argv[..]));
    assert_eq!(args.len(), 0);
    assert_eq!(args.next(), None);
}

#[test]
fn missing_capture_yields_nothing() {
    let mut args = static_args::<u8>(0, None);
    assert_eq!(args.len(), 0);
    assert_eq!(args.size_hint(), (0, Some(0)));
    assert_eq!(args.next(), None);
    let mut counted = static_args::<u8>(7, None);
    assert_eq!(counted.len(), 0);
    assert_eq!(counted.next(), None);
}

#[test]
fn empty_iterator_yields_nothing() {
    let mut args = StaticArgs::<&str>::empty();
    assert_eq!(args.len(), 0);
    assert_eq!(args.size_hint(), (0, Some(0)));
    assert_eq!(args.next(), None);
}

#[test]
fn entries_are_views_into_the_array() {
    let argv = [String::from("prog"), String::from("x")];
    let mut args = StaticArgs::new(2, &argv);
    let first = args.next().unwrap();
    let second = args.next().unwrap();
    assert!(std::ptr::eq(first, &argv[0]));
    assert!(std::ptr::eq(second, &argv[1]));
}

#[test]
fn walking_can_be_started_over() {
    let argv = ["prog", "a", "b"];
    let mut first = static_args(3, Some(&argv[..]));
    assert_eq!(first.next(), Some(&"prog"));
    assert_eq!(first.next(), Some(&"a"));
    let mut second = static_args(3, Some(&argv[..]));
    assert_eq!(second.len(), 3);
    assert_eq!(first.len(), 1);
    assert_eq!(second.next(), Some(&"prog"));
    assert_eq!(first.next(), Some(&"b"));
    assert_eq!(second.next(), Some(&"a"));
    assert_eq!(second.next(), Some(&"b"));
    assert_eq!(first.next(), None);
    assert_eq!(second.next(), None);
}
