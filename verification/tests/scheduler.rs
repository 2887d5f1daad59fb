use nodestat::scheduler::{scheduler_type_from_name, ConfigError, FetchError, SchedulerType};

#[test]
fn known_backend_names_resolve() {
    assert_eq!(scheduler_type_from_name("slurm").unwrap(), SchedulerType::Slurm);
    assert_eq!(scheduler_type_from_name("torque").unwrap(), SchedulerType::Torque);
    assert_eq!(scheduler_type_from_name("mock").unwrap(), SchedulerType::Mock);
}

#[test]
fn unknown_backend_name_is_a_fatal_configuration_error() {
    match scheduler_type_from_name("pbspro") {
        Err(ConfigError::UnknownScheduler { name }) => assert_eq!(name, "pbspro"),
        _ => panic!("expected a configuration error"),
    }
    assert!(scheduler_type_from_name("SLURM").is_err());
    assert!(scheduler_type_from_name("").is_err());
}

#[test]
fn fetch_error_messages_read_like_the_tools() {
    let e = FetchError::CommandFailed {
        command: "scontrol".to_string(),
        detail: "no such file".to_string(),
    };
    assert_eq!(e.message(), "scontrol command failed: no such file");
    let p = FetchError::NoNodesInPartition {
        partition: "gpu_q".to_string(),
    };
    assert_eq!(p.message(), "No nodes found in partition: gpu_q");
}
