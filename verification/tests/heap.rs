use rlox::memory::joined;
use rlox::memory::same_bytes;
use rlox::memory::Heap;
use rlox::object::Obj;

#[test]
fn managed_strings_get_fresh_handles() {
    let mut heap = Heap::new();
    let a = heap.manage(b"one".to_vec());
    let b = heap.manage(b"one".to_vec());
    assert_eq!(a.index, 0);
    assert_eq!(b.index, 1);
    assert_ne!(a, b);
    assert_eq!(a.obj(&heap), b.obj(&heap));
    assert_eq!(heap.len(), 2);
}

#[test]
fn interning_the_same_text_gives_the_same_handle() {
    let mut heap = Heap::new();
    let a = heap.manage_str(b"one".to_vec());
    let b = heap.manage_str(b"two".to_vec());
    let c = heap.manage_str(b"one".to_vec());
    assert_eq!(a, c);
    assert_ne!(a, b);
    assert_eq!(heap.len(), 2);
    assert_eq!(a.obj(&heap).as_slice(), b"one");
    assert_eq!(b.obj(&heap).as_slice(), b"two");
}

#[test]
fn interning_does_not_find_strings_that_were_only_managed() {
    let mut heap = Heap::new();
    let a = heap.manage(b"one".to_vec());
    let b = heap.manage_str(b"one".to_vec());
    let c = heap.manage_str(b"one".to_vec());
    assert_ne!(a, b);
    assert_eq!(b, c);
    assert_eq!(heap.len(), 2);
}

#[test]
fn handles_stay_valid_while_the_heap_grows() {
    let mut heap = Heap::new();
    let first = heap.manage_str(b"first".to_vec());
    for i in 0..1000u32 {
        heap.manage(i.to_string().into_bytes());
    }
    assert_eq!(first.obj(&heap).as_slice(), b"first");
    assert_eq!(heap.manage_str(b"first".to_vec()), first);
}

#[test]
fn clear_releases_everything() {
    let mut heap = Heap::new();
    heap.manage(b"a".to_vec());
    heap.manage_str(b"b".to_vec());
    heap.clear();
    assert_eq!(heap.len(), 0);
    let again = heap.manage_str(b"b".to_vec());
    assert_eq!(again.index, 0);
}

#[test]
fn empty_string_can_be_interned() {
    let mut heap = Heap::new();
    let a = heap.manage_str(Vec::new());
    let b = heap.manage_str(Vec::new());
    assert_eq!(a, b);
    assert!(a.obj(&heap).is_empty());
}

#[test]
fn bytes_are_compared_and_joined() {
    assert!(same_bytes(&b"abc".to_vec(), &b"abc".to_vec()));
    assert!(!same_bytes(&b"abc".to_vec(), &b"abd".to_vec()));
    assert!(!same_bytes(&b"abc".to_vec(), &b"ab".to_vec()));
    assert!(same_bytes(&Vec::new(), &Vec::new()));
    assert_eq!(joined(&b"st".to_vec(), &b"r".to_vec()), b"str".to_vec());
    assert_eq!(joined(&Vec::new(), &b"r".to_vec()), b"r".to_vec());
}

#[test]
fn object_is_listed_between_quotes() {
    let mut heap = Heap::new();
    let r = heap.manage_str(b"hi".to_vec());
    assert_eq!(Obj::LString(r).print_obj(&heap), b"\"hi\"".to_vec());
}

#[test]
fn handles_compare_by_place_and_the_heap_by_text() {
    let mut heap = Heap::new();
    let a = heap.manage(b"one".to_vec());
    let b = heap.manage(b"one".to_vec());
    let c = heap.manage_str(b"one".to_vec());
    let d = heap.manage_str(b"two".to_vec());
    assert_ne!(a, b);
    assert!(heap.same(a, b));
    assert!(heap.same(a, c));
    assert!(heap.same(a, a));
    assert!(!heap.same(a, d));
    assert!(!heap.same(c, d));
    assert_ne!(Obj::LString(a), Obj::LString(b));
    assert_eq!(Obj::LString(c), Obj::LString(c));
}
