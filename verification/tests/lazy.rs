use lazy_static::initialize;
use lazy_static::lazy::Lazy;
use lazy_static::storage::Boxed;
use lazy_static::LazyStatic;
use std::cell::Cell;

#[test]
fn lazy_value_is_produced_on_first_get() {
    let runs = Cell::new(0u32);
    let mut number = Lazy::<u32, _>::new(|| {
        runs.set(runs.get() + 1);
        21 * 2
    });
    assert!(!number.is_initialized());
    assert_eq!(number.peek(), None);
    assert_eq!(runs.get(), 0);
    assert_eq!(*number.get(), 42);
    assert!(number.is_initialized());
    assert_eq!(number.peek(), Some(&42));
    for _ in 0..10 {
        assert_eq!(*number.get(), 42);
    }
    assert_eq!(runs.get(), 1);
}

#[test]
fn initialize_forces_the_value() {
    let runs = Cell::new(0u32);
    let mut buffer = Lazy::<Vec<u32>, _>::new(|| {
        runs.set(runs.get() + 1);
        (0..65537).collect()
    });
    initialize(&mut buffer);
    assert_eq!(runs.get(), 1);
    assert!(buffer.is_initialized());
    assert_eq!(buffer.peek().map(|v| v.len()), Some(65537));
    let forced = buffer.peek().map(|v| std::ptr::from_ref(v).addr());
    let got = std::ptr::from_ref(buffer.get()).addr();
    assert_eq!(Some(got), forced);
    assert_eq!(buffer.get().len(), 65537);
    assert_eq!(runs.get(), 1);
}

#[test]
fn initialize_is_idempotent() {
    let runs = Cell::new(0u32);
    let mut text = Lazy::<String, _, Boxed<String>>::new(|| {
        runs.set(runs.get() + 1);
        String::from("hello")
    });
    initialize(&mut text);
    let first = text.peek().map(|s| std::ptr::from_ref(s).addr());
    initialize(&mut text);
    LazyStatic::initialize(&mut text);
    assert_eq!(text.peek().map(|s| std::ptr::from_ref(s).addr()), first);
    assert_eq!(text.get(), "hello");
    assert_eq!(runs.get(), 1);
}

#[test]
fn initialize_after_get_does_nothing() {
    let runs = Cell::new(0u32);
    let mut number = Lazy::<u8, _>::new(|| {
        runs.set(runs.get() + 1);
        42
    });
    assert_eq!(*number.get(), 42);
    initialize(&mut number);
    assert_eq!(*number.get(), 42);
    assert_eq!(runs.get(), 1);
}
