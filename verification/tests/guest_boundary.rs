use circom_witness::{exception_handler, protocol_version, Action, WitnessError};

#[test]
fn export_names_are_those_of_the_guest() {
    assert_eq!(Action::Load.export_name(), None);
    assert_eq!(Action::Finish.export_name(), None);
    assert_eq!(
        Action::GetFieldNumLen32.export_name(),
        Some("getFieldNumLen32")
    );
    assert_eq!(Action::GetRawPrime.export_name(), Some("getRawPrime"));
    assert_eq!(
        Action::ReadSharedRwMemory { index: 3 }.export_name(),
        Some("readSharedRWMemory")
    );
    assert_eq!(
        Action::Init { sanity_check: true }.export_name(),
        Some("init")
    );
    assert_eq!(
        Action::WriteSharedRwMemory { index: 1, value: 2 }.export_name(),
        Some("writeSharedRWMemory")
    );
    assert_eq!(
        Action::SetInputSignal {
            msb: 1,
            lsb: 2,
            pos: 3
        }
        .export_name(),
        Some("setInputSignal")
    );
    assert_eq!(Action::GetWitnessSize.export_name(), Some("getWitnessSize"));
    assert_eq!(
        Action::GetWitness { index: 0 }.export_name(),
        Some("getWitness")
    );
}

#[test]
fn arguments_are_in_the_order_of_the_guest_function() {
    assert_eq!(Action::Load.arguments(), Vec::<u32>::new());
    assert_eq!(Action::GetFieldNumLen32.arguments(), Vec::<u32>::new());
    assert_eq!(Action::GetRawPrime.arguments(), Vec::<u32>::new());
    assert_eq!(Action::GetWitnessSize.arguments(), Vec::<u32>::new());
    assert_eq!(Action::Finish.arguments(), Vec::<u32>::new());
    assert_eq!(Action::ReadSharedRwMemory { index: 3 }.arguments(), vec![3]);
    assert_eq!(Action::Init { sanity_check: true }.arguments(), vec![1]);
    assert_eq!(Action::Init { sanity_check: false }.arguments(), vec![0]);
    assert_eq!(
        Action::WriteSharedRwMemory { index: 4, value: 9 }.arguments(),
        vec![4, 9]
    );
    assert_eq!(
        Action::SetInputSignal {
            msb: 7,
            lsb: 8,
            pos: 9
        }
        .arguments(),
        vec![7, 8, 9]
    );
    assert_eq!(Action::GetWitness { index: 5 }.arguments(), vec![5]);
}

#[test]
fn three_guest_functions_return_an_integer() {
    assert!(Action::GetFieldNumLen32.returns_value());
    assert!(Action::ReadSharedRwMemory { index: 0 }.returns_value());
    assert!(Action::GetWitnessSize.returns_value());
    assert!(!Action::Load.returns_value());
    assert!(!Action::GetRawPrime.returns_value());
    assert!(!Action::Init { sanity_check: true }.returns_value());
    assert!(!Action::WriteSharedRwMemory { index: 0, value: 0 }.returns_value());
    assert!(!Action::SetInputSignal {
        msb: 0,
        lsb: 0,
        pos: 0
    }
    .returns_value());
    assert!(!Action::GetWitness { index: 0 }.returns_value());
    assert!(!Action::Finish.returns_value());
}

#[test]
fn exception_callback_is_a_trap_whatever_the_code() {
    assert_eq!(exception_handler(0), Err(WitnessError::GuestTrap));
    assert_eq!(exception_handler(1), Err(WitnessError::GuestTrap));
    assert_eq!(exception_handler(-1), Err(WitnessError::GuestTrap));
    assert_eq!(exception_handler(i32::MAX), Err(WitnessError::GuestTrap));
}

#[test]
fn guest_without_a_version_has_version_one() {
    assert_eq!(protocol_version(Err(WitnessError::MissingExport)), Ok(1));
}

#[test]
fn guest_with_a_version_reports_it() {
    assert_eq!(protocol_version(Ok(2)), Ok(2));
    assert_eq!(protocol_version(Ok(0)), Ok(0));
}

#[test]
fn version_query_that_traps_is_a_failure() {
    assert_eq!(
        protocol_version(Err(WitnessError::GuestTrap)),
        Err(WitnessError::GuestTrap)
    );
}
