use columnar::array::primitive_array::{PrimitiveArray, PrimitiveBuilder};
use columnar::array::string_array::{StringArray, StringBuilder};
use columnar::array::{build_array_from_vec, try_build_array_from_vec, Array, ArrayBuilder};

fn assert_array_eq<'a, T: Array>(array: &'a T, items: &[Option<T::RefItem<'a>>])
where
    T::RefItem<'a>: PartialEq,
{
    let mut it = array.iter();
    for b in items.iter() {
        let a = it.next().unwrap();
        assert_eq!(&a, b);
    }
}

#[test]
fn test_primitive() {
    let array: PrimitiveArray<i32> =
        build_array_from_vec::<PrimitiveBuilder<i32>>(&[None, Some(3), Some(2)]);
    assert_array_eq(&array, &[None, Some(3), Some(2)]);
}

#[test]
fn test_string() {
    let items = &[None, Some("abc"), Some("ab"), Some("abb")];
    let array: StringArray = build_array_from_vec::<StringBuilder>(items);
    assert_array_eq(&array, items);
}

#[test]
fn primitive_scenario_reads_back() {
    let array = build_array_from_vec::<PrimitiveBuilder<i32>>(&[None, Some(3), Some(2)]);
    assert_eq!(array.len(), 3);
    assert!(!array.is_empty());
    assert_eq!(array.get(0), None);
    assert_eq!(array.get(1), Some(3));
    assert_eq!(array.get(2), Some(2));
    assert_eq!(array.iter().collect(), vec![None, Some(3), Some(2)]);
}

#[test]
fn string_scenario_layout() {
    let items = [None, Some("abc"), Some("ab"), Some("abb")];
    let array = build_array_from_vec::<StringBuilder>(&items);
    assert_eq!(array.len(), 4);
    assert_eq!(array.get(0), None);
    assert_eq!(array.get(1), Some("abc"));
    assert_eq!(array.get(2), Some("ab"));
    assert_eq!(array.get(3), Some("abb"));
    assert_eq!(array.data(), "abcababb".as_bytes());
    assert_eq!(array.offsets(), &[0u32, 0, 3, 5, 8][..]);
    assert_eq!(array.iter().collect(), items.to_vec());
}

#[test]
fn round_trip_of_nothing() {
    let numbers = build_array_from_vec::<PrimitiveBuilder<i64>>(&[]);
    assert_eq!(numbers.len(), 0);
    assert!(numbers.is_empty());
    assert_eq!(numbers.iter().collect(), Vec::<Option<i64>>::new());
    assert_eq!(numbers.iter().next(), None);

    let texts = build_array_from_vec::<StringBuilder>(&[]);
    assert_eq!(texts.len(), 0);
    assert!(texts.is_empty());
    assert_eq!(texts.iter().collect(), Vec::<Option<&str>>::new());
    assert_eq!(texts.data(), &[0u8; 0][..]);
    assert_eq!(texts.offsets(), &[0u32][..]);
}

#[test]
fn round_trip_of_nulls_only() {
    let items: [Option<i32>; 3] = [None, None, None];
    let numbers = build_array_from_vec::<PrimitiveBuilder<i32>>(&items);
    assert_eq!(numbers.len(), 3);
    assert_eq!(numbers.iter().collect(), items.to_vec());

    let words: [Option<&str>; 2] = [None, None];
    let texts = build_array_from_vec::<StringBuilder>(&words);
    assert_eq!(texts.len(), 2);
    assert_eq!(texts.iter().collect(), words.to_vec());
    assert_eq!(texts.data().len(), 0);
    assert_eq!(texts.offsets(), &[0u32, 0, 0][..]);
}

#[test]
fn round_trip_with_nulls_at_both_ends() {
    let items = [None, Some(7i64), None, Some(-1), Some(i64::MAX), None];
    let numbers = build_array_from_vec::<PrimitiveBuilder<i64>>(&items);
    assert_eq!(numbers.len(), 6);
    assert_eq!(numbers.iter().collect(), items.to_vec());

    let words = [None, Some("x"), None, None, Some("yz"), None];
    let texts = build_array_from_vec::<StringBuilder>(&words);
    assert_eq!(texts.len(), 6);
    assert_eq!(texts.iter().collect(), words.to_vec());
}

#[test]
fn length_counts_every_push_and_reads_keep_it() {
    let mut builder = PrimitiveBuilder::<i32>::with_capacity(0);
    for n in 0..100 {
        builder.push(if n % 3 == 0 { None } else { Some(n) });
    }
    let array = builder.finish();
    assert_eq!(array.len(), 100);
    for idx in 0..100 {
        let _ = array.get(idx);
    }
    let _ = array.iter().collect();
    assert_eq!(array.len(), 100);
    assert_eq!(array.get(0), None);
    assert_eq!(array.get(1), Some(1));
    assert_eq!(array.get(99), None);
    assert_eq!(array.get(98), Some(98));
}

#[test]
fn null_differs_from_a_present_default() {
    let numbers = build_array_from_vec::<PrimitiveBuilder<i32>>(&[Some(0), None, Some(0)]);
    assert_eq!(numbers.get(0), Some(0));
    assert_eq!(numbers.get(1), None);
    assert_eq!(numbers.get(2), Some(0));

    let texts = build_array_from_vec::<StringBuilder>(&[Some(""), None, Some("")]);
    assert_eq!(texts.get(0), Some(""));
    assert_eq!(texts.get(1), None);
    assert_eq!(texts.get(2), Some(""));
    assert_eq!(texts.offsets(), &[0u32, 0, 0, 0][..]);
}

#[test]
fn offsets_never_decrease() {
    let words = [Some("ab"), None, None, Some(""), Some("cde"), None, Some("f"), None];
    let texts = build_array_from_vec::<StringBuilder>(&words);
    let offsets = texts.offsets();
    assert_eq!(offsets.len(), texts.len() + 1);
    assert_eq!(offsets[0], 0);
    assert_eq!(offsets[texts.len()] as usize, texts.data().len());
    for i in 0..texts.len() {
        assert!(offsets[i] <= offsets[i + 1]);
    }
    assert_eq!(offsets, &[0u32, 2, 2, 2, 2, 5, 5, 6, 6][..]);
    assert_eq!(texts.data(), "abcdef".as_bytes());
}

#[test]
fn offsets_count_bytes_of_wide_characters() {
    let words = [Some("h\u{e9}"), None, Some("\u{65e5}\u{672c}"), Some("\u{1f600}!")];
    let texts = build_array_from_vec::<StringBuilder>(&words);
    assert_eq!(texts.offsets(), &[0u32, 3, 3, 9, 14][..]);
    assert_eq!(texts.get(0), Some("h\u{e9}"));
    assert_eq!(texts.get(1), None);
    assert_eq!(texts.get(2), Some("\u{65e5}\u{672c}"));
    assert_eq!(texts.get(3), Some("\u{1f600}!"));
    assert_eq!(texts.iter().collect(), words.to_vec());
}

#[test]
fn iterating_twice_gives_the_same() {
    let numbers = build_array_from_vec::<PrimitiveBuilder<i32>>(&[Some(5), None, Some(6)]);
    let first = numbers.iter().collect();
    let second = numbers.iter().collect();
    assert_eq!(first, second);
    assert_eq!(first, vec![Some(5), None, Some(6)]);

    let texts = build_array_from_vec::<StringBuilder>(&[None, Some("a"), Some("bc")]);
    let first = texts.iter().collect();
    let second = texts.iter().collect();
    assert_eq!(first, second);
    assert_eq!(second, vec![None, Some("a"), Some("bc")]);
}

#[test]
fn cursor_stops_at_the_end_and_stays_there() {
    let numbers = build_array_from_vec::<PrimitiveBuilder<i32>>(&[None, Some(1)]);
    let mut it = numbers.iter();
    assert_eq!(it.next(), Some(None));
    assert_eq!(it.next(), Some(Some(1)));
    assert_eq!(it.next(), None);
    assert_eq!(it.next(), None);
}

#[test]
fn collect_gives_what_is_left() {
    let texts = build_array_from_vec::<StringBuilder>(&[Some("a"), None, Some("b")]);
    let mut it = texts.iter();
    assert_eq!(it.next(), Some(Some("a")));
    assert_eq!(it.collect(), vec![None, Some("b")]);
}

#[test]
fn pushing_past_the_capacity_grows() {
    let mut builder = StringBuilder::with_capacity(1);
    assert!(builder.can_push(Some("one")));
    builder.push(Some("one"));
    assert!(builder.can_push(None));
    builder.push(None);
    assert!(builder.can_push(Some("three")));
    builder.push(Some("three"));
    let texts = builder.finish();
    assert_eq!(texts.len(), 3);
    assert_eq!(texts.iter().collect(), vec![Some("one"), None, Some("three")]);

    let mut builder = PrimitiveBuilder::<i64>::with_capacity(0);
    assert!(builder.can_push(Some(1)));
    builder.push(Some(1));
    assert!(builder.can_push(None));
    builder.push(None);
    let numbers = builder.finish();
    assert_eq!(numbers.iter().collect(), vec![Some(1), None]);
}

#[test]
fn checked_build_gives_the_same_array() {
    let items = [Some(4), None, Some(-4)];
    let numbers = try_build_array_from_vec::<PrimitiveBuilder<i32>>(&items).unwrap();
    assert_eq!(numbers.len(), 3);
    assert_eq!(numbers.iter().collect(), items.to_vec());

    let words = [None, Some("abc"), Some("ab"), Some("abb")];
    let texts = try_build_array_from_vec::<StringBuilder>(&words).unwrap();
    assert_eq!(texts.iter().collect(), words.to_vec());
    assert_eq!(texts.offsets(), &[0u32, 0, 3, 5, 8][..]);
}
