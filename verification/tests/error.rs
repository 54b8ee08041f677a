use quip_solver_core::error::SampleError;
use quip_solver_core::message::RejectReason;

#[test]
fn capacity_maps_to_too_large() {
    assert_eq!(
        SampleError::Capacity.to_reject_reason(),
        RejectReason::TooLarge
    );
}

#[test]
fn busy_and_fault_both_map_to_overloaded() {
    assert_eq!(
        SampleError::DeviceBusy.to_reject_reason(),
        RejectReason::Overloaded
    );
    assert_eq!(
        SampleError::DeviceFault("nvml: GPU 0 lost".to_owned()).to_reject_reason(),
        RejectReason::Overloaded
    );
}

#[test]
fn only_a_fault_ends_the_session() {
    assert!(!SampleError::Capacity.is_fatal());
    assert!(!SampleError::DeviceBusy.is_fatal());
    assert!(SampleError::DeviceFault(String::new()).is_fatal());
}

#[test]
fn every_error_reads_as_its_condition() {
    assert_eq!(SampleError::Capacity.to_string(), "capacity");
    assert_eq!(SampleError::DeviceBusy.to_string(), "device busy");
    assert_eq!(
        SampleError::DeviceFault("nvml: GPU 0 lost".to_owned()).to_string(),
        "device fault: nvml: GPU 0 lost"
    );
}
