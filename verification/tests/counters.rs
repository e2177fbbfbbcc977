use ssa_lower::generate_code::get_initial_state;
use ssa_lower::{CompileError, Label, Name};

#[test]
fn labels_run_out_at_the_end_of_the_range() {
    let mut state = get_initial_state();
    let mut last = Label { id: 0 };
    let mut count: u64 = 0;
    while let Ok(label) = state.generate_label() {
        last = label;
        count += 1;
    }
    assert_eq!(last, Label { id: 0xFFFF_FFFE });
    assert_eq!(count, 0xFFFF_FFFE);
    assert_eq!(state.generate_label(), Err(CompileError::CounterOverflow));
}

#[test]
fn numbers_run_out_at_the_end_of_the_range() {
    let mut state = get_initial_state();
    let mut last = Name::IName(0);
    let mut count: u64 = 0;
    while let Ok(name) = state.generate_name(None) {
        last = name;
        count += 1;
    }
    assert_eq!(last, Name::IName(0xFFFF_FFFE));
    assert_eq!(count, 0xFFFF_FFFF);
    assert_eq!(state.generate_name(None), Err(CompileError::CounterOverflow));
}
