use seej::commands::{CreateWorldCmd, CreateZoneCmd, SimCommand};
use seej::errors::{SimError, ValidationError};
use seej::types::{RngSeed, ZoneId};
use seej::validation::{validate_sim_command, validate_world_id, validate_world_id_result};

#[test]
fn validate_empty_world_name() {
    let cmd = SimCommand::CreateWorld(CreateWorldCmd { name: String::new(), seed: RngSeed::new(42) });
    let result = validate_sim_command(&cmd);
    assert!(result.is_err());
}

#[test]
fn validate_tick_zero() {
    let result = validate_sim_command(&SimCommand::TickN(0));
    assert!(result.is_err());
}

#[test]
fn validate_world_id_rejects_path_input() {
    for id in ["..", "../world", r"..\world", "/abs", r"C:\world", "world/1"] {
        assert!(!validate_world_id(id).is_empty(), "{id} must be rejected");
    }
}

#[test]
fn validate_world_id_accepts_storage_key() {
    assert!(validate_world_id("world_42").is_empty());
    assert!(validate_world_id("world-42_A").is_empty());
}

#[test]
fn world_id_errors_are_reported_in_order() {
    assert_eq!(validate_world_id(""), vec![ValidationError::WorldIdEmpty]);
    assert_eq!(
        validate_world_id("../a"),
        vec![ValidationError::WorldIdPathTraversal, ValidationError::WorldIdSeparator, ValidationError::WorldIdCharset]
    );
    assert_eq!(
        validate_world_id(r"C:\w"),
        vec![ValidationError::WorldIdSeparator, ValidationError::WorldIdDriveSeparator, ValidationError::WorldIdCharset]
    );
    assert_eq!(validate_world_id("a b"), vec![ValidationError::WorldIdCharset]);
    assert_eq!(validate_world_id("."), vec![ValidationError::WorldIdPathTraversal, ValidationError::WorldIdCharset]);
}

#[test]
fn world_id_result_wraps_errors() {
    assert_eq!(validate_world_id_result("world_1"), Ok(()));
    match validate_world_id_result("a/b") {
        Err(SimError::InvalidWorldId { world_id, errors }) => {
            assert_eq!(world_id, "a/b");
            assert_eq!(errors, vec![ValidationError::WorldIdSeparator, ValidationError::WorldIdCharset]);
        },
        other => panic!("unexpected {other:?}"),
    }
}

#[test]
fn command_validation_limits() {
    assert_eq!(validate_sim_command(&SimCommand::TickN(10000)), Ok(()));
    assert_eq!(validate_sim_command(&SimCommand::TickN(10001)), Err(vec![ValidationError::TickCountTooLarge]));
    assert_eq!(validate_sim_command(&SimCommand::TickN(0)), Err(vec![ValidationError::TickCountZero]));
    let long = "x".repeat(65);
    assert_eq!(
        validate_sim_command(&SimCommand::CreateWorld(CreateWorldCmd { name: long.clone(), seed: RngSeed::new(1) })),
        Err(vec![ValidationError::WorldNameTooLong])
    );
    assert_eq!(
        validate_sim_command(&SimCommand::CreateWorld(CreateWorldCmd { name: "x".repeat(64), seed: RngSeed::new(1) })),
        Ok(())
    );
    assert_eq!(
        validate_sim_command(&SimCommand::CreateZone(CreateZoneCmd { zone_id: ZoneId::new(1), name: Some(long) })),
        Err(vec![ValidationError::ZoneNameTooLong])
    );
    assert_eq!(validate_sim_command(&SimCommand::Tick), Ok(()));
}

#[test]
fn validation_error_fields_and_messages() {
    assert_eq!(ValidationError::WorldIdEmpty.field(), "world_id");
    assert_eq!(ValidationError::WorldIdEmpty.message(), "World ID cannot be empty");
    assert_eq!(ValidationError::TickCountZero.field(), "n");
    assert_eq!(ValidationError::TickCountTooLarge.message(), "Tick count too large (max 10000)");
    assert_eq!(ValidationError::WorldNameTooLong.field(), "name");
}
