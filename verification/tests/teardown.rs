use std::cell::RefCell;
use std::rc::Rc;

use myvec::MyVec;

/// An element whose destructor records its own index in a shared log.
struct Counted {
    id: usize,
    log: Rc<RefCell<Vec<usize>>>,
}

impl Drop for Counted {
    fn drop(&mut self) {
        self.log.borrow_mut().push(self.id);
    }
}

#[test]
fn teardown_destructs_each_live_element_once_in_order() {
    let log: Rc<RefCell<Vec<usize>>> = Rc::new(RefCell::new(Vec::new()));
    let mut v: MyVec<Counted> = MyVec::new();
    for id in 0..6usize {
        v.push(Counted { id, log: Rc::clone(&log) });
    }
    // Insertions, including the two reallocations on the way to capacity 8,
    // must not run any element's destructor.
    assert_eq!(log.borrow().len(), 0);
    drop(v);
    assert_eq!(*log.borrow(), vec![0, 1, 2, 3, 4, 5]);
}

#[test]
fn teardown_of_an_empty_array_destructs_nothing() {
    let log: Rc<RefCell<Vec<usize>>> = Rc::new(RefCell::new(Vec::new()));
    let v: MyVec<Counted> = MyVec::new();
    drop(v);
    assert_eq!(log.borrow().len(), 0);
}
