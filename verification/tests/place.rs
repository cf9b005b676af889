use ioc::error::{Error, Violation};
use ioc::life::{InitPhase, Latch, Place};
use ioc::place::StaticPlace;
use std::cell::Cell;
use std::rc::Rc;

struct Noisy(Rc<Cell<u32>>);

impl Drop for Noisy {
    fn drop(&mut self) {
        self.0.set(self.0.get() + 1);
    }
}

struct TestStruct(u32, String, &'static str);

impl Drop for TestStruct {
    fn drop(&mut self) {
        println!("Dropping TestStruct({}, {}, {})", self.0, self.1, self.2);
    }
}

#[test]
fn lib_test() {}

#[test]
fn test_static_place() {}

#[test]
fn lifecycle_management() {
    let mut latch = Latch::new();
    let mut storage: StaticPlace<TestStruct> = StaticPlace::uninit();

    let mut init_phase = InitPhase::take(&mut latch).expect("should get init token once");

    // Initialize during init phase
    let value_ref = storage
        .initialize(&mut init_phase)
        .unwrap()
        .write(TestStruct(42, "Hello".to_string(), "world"));
    assert_eq!(value_ref.0, 42);

    // Transition to active phase
    let mut active_phase = init_phase.complete();

    // Access during active phase
    let shared_ref: &TestStruct = storage.get(&active_phase).unwrap();
    assert_eq!(shared_ref.1, "Hello");

    let exclusive_ref: &mut TestStruct = storage.get_mut(&mut active_phase).unwrap();
    exclusive_ref.0 += 1;
    exclusive_ref.1.push_str(", universe!");

    // Tear down
    storage.deinitialize(&mut active_phase).unwrap();

    assert!(InitPhase::take(&mut latch).is_err());
}

#[test]
fn place_refuses_second_teardown() {
    let mut latch = Latch::new();
    let init = InitPhase::take(&mut latch).unwrap();
    let mut active = init.complete();
    let mut place = StaticPlace::new(7u32);
    assert!(place.deinitialize(&mut active).is_ok());
    assert!(matches!(
        place.deinitialize(&mut active),
        Err(Error::ContractViolation(Violation::AlreadyDropped))
    ));
}

#[test]
fn vacant_place_refuses_access() {
    let mut latch = Latch::new();
    let init = InitPhase::take(&mut latch).unwrap();
    let mut active = init.complete();
    let mut place: StaticPlace<u32> = StaticPlace::uninit();
    assert!(!place.is_initialized());
    assert!(!place.is_dropped());
    assert!(matches!(
        place.get(&active),
        Err(Error::ContractViolation(Violation::NotInitialized))
    ));
    assert!(matches!(
        place.get_mut(&mut active),
        Err(Error::ContractViolation(Violation::NotInitialized))
    ));
    assert!(matches!(
        place.deinitialize(&mut active),
        Err(Error::ContractViolation(Violation::NotInitialized))
    ));
    assert!(!place.is_dropped());
}

#[test]
fn place_is_written_once() {
    let mut latch = Latch::new();
    let mut init = InitPhase::take(&mut latch).unwrap();
    let mut place: StaticPlace<u32> = StaticPlace::uninit();
    *place.initialize(&mut init).unwrap().write(5) += 1;
    assert!(place.is_initialized());
    assert!(matches!(
        place.initialize(&mut init),
        Err(Error::ContractViolation(Violation::AlreadyInitialized))
    ));
    let mut active = init.complete();
    assert_eq!(*place.get(&active).unwrap(), 6);
    place.deinitialize(&mut active).unwrap();
    assert!(place.is_dropped());
    assert!(matches!(
        place.get(&active),
        Err(Error::ContractViolation(Violation::AlreadyDropped))
    ));
}

#[test]
fn unwritten_handle_leaves_the_place_vacant() {
    let mut latch = Latch::new();
    let mut init = InitPhase::take(&mut latch).unwrap();
    let mut place: StaticPlace<u32> = StaticPlace::uninit();
    drop(place.initialize(&mut init).unwrap());
    assert!(!place.is_initialized());
    place.initialize(&mut init).unwrap().write(9);
    assert!(place.is_initialized());
}

#[test]
fn dropped_place_is_not_written_again() {
    let mut latch = Latch::new();
    let mut place = StaticPlace::new(1u32);
    let mut active = InitPhase::take(&mut latch).unwrap().complete();
    place.deinitialize(&mut active).unwrap();
    let mut other = Latch::new();
    let mut init = InitPhase::take(&mut other).unwrap();
    assert!(matches!(
        place.initialize(&mut init),
        Err(Error::ContractViolation(Violation::AlreadyDropped))
    ));
}

#[test]
fn teardown_drops_the_value() {
    let drops = Rc::new(Cell::new(0));
    let mut latch = Latch::new();
    let mut active = InitPhase::take(&mut latch).unwrap().complete();
    let mut place = StaticPlace::new(Noisy(drops.clone()));
    assert_eq!(drops.get(), 0);
    place.deinitialize(&mut active).unwrap();
    assert_eq!(drops.get(), 1);
    assert!(place.deinitialize(&mut active).is_err());
    assert_eq!(drops.get(), 1);
}
