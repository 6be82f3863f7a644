use lazy_static::cell::LazyCell;
use lazy_static::storage::{Boxed, Inline, Storage};
use std::cell::Cell;
use std::rc::Rc;

struct Noisy {
    drops: Rc<Cell<u32>>,
    tag: u32,
}

impl Drop for Noisy {
    fn drop(&mut self) {
        self.drops.set(self.drops.get() + 1);
    }
}

#[test]
fn inline_storage_is_written_once_and_read() {
    let mut storage: Inline<String> = Inline::empty();
    assert!(!storage.is_filled());
    storage.write(String::from("foo"));
    assert!(storage.is_filled());
    assert_eq!(storage.read(), "foo");
    assert_eq!(storage.read(), "foo");
}

#[test]
fn boxed_storage_is_written_once_and_read() {
    let mut storage: Boxed<Vec<u8>> = Boxed::empty();
    assert!(!storage.is_filled());
    storage.write(vec![1, 2, 3]);
    assert!(storage.is_filled());
    assert_eq!(storage.read(), &vec![1, 2, 3]);
}

#[test]
fn stored_value_keeps_its_address() {
    let mut inline: Inline<u64> = Inline::empty();
    inline.write(5);
    assert_eq!(
        std::ptr::from_ref(inline.read()).addr(),
        std::ptr::from_ref(inline.read()).addr()
    );
    let mut boxed: Boxed<u64> = Boxed::empty();
    boxed.write(5);
    let before = std::ptr::from_ref(boxed.read()).addr();
    let moved = boxed;
    assert_eq!(std::ptr::from_ref(moved.read()).addr(), before);
}

#[test]
fn inline_storage_never_drops_its_value() {
    let drops = Rc::new(Cell::new(0));
    {
        let mut storage: Inline<Noisy> = Inline::empty();
        storage.write(Noisy { drops: drops.clone(), tag: 1 });
        assert_eq!(storage.read().tag, 1);
    }
    assert_eq!(drops.get(), 0);
}

#[test]
fn boxed_storage_never_drops_its_value() {
    let drops = Rc::new(Cell::new(0));
    {
        let mut storage: Boxed<Noisy> = Boxed::empty();
        storage.write(Noisy { drops: drops.clone(), tag: 2 });
        assert_eq!(storage.read().tag, 2);
    }
    assert_eq!(drops.get(), 0);
}

#[test]
fn cell_never_runs_the_destructor_of_its_value() {
    let drops = Rc::new(Cell::new(0));
    {
        let mut cell: LazyCell<Noisy> = LazyCell::new();
        for _ in 0..10 {
            let value = cell.get_or_init(|| Noisy { drops: drops.clone(), tag: 3 });
            assert_eq!(value.tag, 3);
        }
        cell.initialize(|| Noisy { drops: drops.clone(), tag: 4 });
        assert_eq!(cell.get().map(|noisy| noisy.tag), Some(3));
    }
    assert_eq!(drops.get(), 0);
    {
        let mut cell: LazyCell<Noisy, Boxed<Noisy>> = LazyCell::new();
        let value = cell.get_or_init(|| Noisy { drops: drops.clone(), tag: 5 });
        assert_eq!(value.tag, 5);
    }
    assert_eq!(drops.get(), 0);
}
