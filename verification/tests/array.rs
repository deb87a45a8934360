use funcmap::array::try_map;

use std::cell::RefCell;

#[derive(Debug, PartialEq)]
enum T1 {
    Mappable,
    NotMappable(&'static str),
}

#[derive(Debug, PartialEq)]
struct T2;

impl TryFrom<T1> for T2 {
    type Error = MappingError;

    fn try_from(value: T1) -> Result<Self, Self::Error> {
        match value {
            T1::Mappable => Ok(T2),
            T1::NotMappable(message) => Err(MappingError(message)),
        }
    }
}

#[derive(Debug, PartialEq)]
struct MappingError(&'static str);

#[test]
fn mapping_empty_array_succeeds_even_when_function_always_fails() {
    let array: [T1; 0] = [];

    let result: Result<[T2; 0], _> = try_map(array, |_| Err(MappingError("")));

    assert!(result.is_ok());
}

#[test]
fn mapping_non_empty_array_succeeds_when_function_succeeds() {
    let array = [T1::Mappable, T1::Mappable, T1::Mappable];

    let result: Result<[T2; 3], _> = try_map(array, TryInto::try_into);

    assert_eq!(result, Ok([T2, T2, T2]));
}

#[test]
fn mapping_non_empty_array_fails_with_first_error_when_function_fails() {
    let array = [
        T1::NotMappable("First Error"),
        T1::Mappable,
        T1::NotMappable("Second Error"),
    ];

    let result: Result<[T2; 3], _> = try_map(array, TryInto::try_into);

    assert_eq!(result, Err(MappingError("First Error")));
}

#[derive(Debug)]
enum MappingState {
    Mappable,
    MappingPanics,
    NotMappable,
}

#[derive(Debug)]
struct DropTrace(RefCell<Vec<&'static str>>);

#[derive(Debug)]
struct DropTraceGuard<'a> {
    drop_trace: &'a DropTrace,
    payload: Option<&'static str>,
}

impl Drop for DropTraceGuard<'_> {
    fn drop(&mut self) {
        self.drop_trace
            .0
            .borrow_mut()
            .push(self.payload.take().unwrap());
    }
}

#[derive(Debug)]
struct Item<'a> {
    mapping_state: MappingState,
    _guard: DropTraceGuard<'a>,
}

#[derive(Debug)]
struct ItemMappingError;

impl<'a> Item<'a> {
    fn new(payload: &'static str, mapping_state: MappingState, drop_trace: &'a DropTrace) -> Self {
        Self {
            mapping_state,
            _guard: DropTraceGuard {
                drop_trace,
                payload: Some(payload),
            },
        }
    }

    fn map(self) -> Result<Self, ItemMappingError> {
        match self.mapping_state {
            MappingState::Mappable => Ok(Self {
                mapping_state: MappingState::MappingPanics,
                ..self
            }),
            MappingState::MappingPanics => panic!("panic during mapping"),
            MappingState::NotMappable => Err(ItemMappingError),
        }
    }
}

#[test]
fn all_elements_are_dropped_when_all_are_mapped_successfully() {
    let drop_trace = DropTrace(RefCell::new(Vec::new()));

    let array = [
        Item::new("Mappable 1", MappingState::Mappable, &drop_trace),
        Item::new("Mappable 2", MappingState::Mappable, &drop_trace),
        Item::new("Mappable 3", MappingState::Mappable, &drop_trace),
    ];

    let result = try_map(array, Item::map);

    assert!(result.is_ok());
    drop(result);

    assert_eq!(
        drop_trace.0.into_inner(),
        ["Mappable 1", "Mappable 2", "Mappable 3"]
    );
}

#[test]
fn all_elements_are_dropped_when_mapping_for_some_fails() {
    let drop_trace = DropTrace(RefCell::new(Vec::new()));

    let array = [
        Item::new("Mappable 1", MappingState::Mappable, &drop_trace),
        Item::new("Not Mappable", MappingState::NotMappable, &drop_trace),
        Item::new("Mappable 2", MappingState::Mappable, &drop_trace),
    ];

    let result = try_map(array, Item::map);

    assert!(result.is_err());
    drop(result);

    assert_eq!(
        drop_trace.0.into_inner(),
        ["Not Mappable", "Mappable 2", "Mappable 1"]
    );
}
