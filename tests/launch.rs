use launcher_core::commands::{
    launch_arguments, plan_from_words, plan_pre_launch, pre_launch_exit, uses_working_directory,
    LaunchError,
};
use launcher_core::discord_rpc::Presence;
use launcher_core::types::LaunchData;
use std::collections::HashMap;

#[test]
fn pre_launch_plan_splits_program_and_arguments() {
    let plan = plan_pre_launch("run.sh --fast 'two words'").unwrap().unwrap();
    assert_eq!(plan.program, "run.sh");
    assert_eq!(plan.args, vec!["--fast".to_string(), "two words".to_string()]);
}

#[test]
fn pre_launch_plan_of_blank_command_is_empty() {
    assert!(plan_pre_launch("   ").unwrap().is_none());
}

#[test]
fn pre_launch_plan_rejects_bad_quoting() {
    assert_eq!(plan_pre_launch("echo 'open").unwrap_err(), LaunchError::InvalidCommandFormat);
}

#[test]
fn plan_from_words_cases() {
    assert_eq!(plan_from_words(None).unwrap_err(), LaunchError::InvalidCommandFormat);
    assert!(plan_from_words(Some(vec![])).unwrap().is_none());
    let p = plan_from_words(Some(vec!["prog".to_string()])).unwrap().unwrap();
    assert_eq!(p.program, "prog");
    assert!(p.args.is_empty());
}

#[test]
fn pre_launch_exit_codes() {
    assert_eq!(pre_launch_exit(Some(0)), Ok(()));
    assert_eq!(pre_launch_exit(Some(2)), Err(LaunchError::PreLaunchExit(Some(2))));
    assert_eq!(pre_launch_exit(None), Err(LaunchError::PreLaunchExit(None)));
}

#[test]
fn launch_arguments_keep_their_order() {
    let data = LaunchData {
        game_id: "g".to_string(),
        game_parameters: vec!["-a".to_string(), "-b".to_string()],
        game_executable: "game.exe".to_string(),
        game_directory: "/games".to_string(),
        egl_parameters: vec!["-egl".to_string()],
        launch_command: vec![],
        working_directory: String::new(),
        user_parameters: vec!["-user".to_string()],
        environment: HashMap::new(),
        pre_launch_command: String::new(),
        pre_launch_wait: false,
    };
    assert_eq!(launch_arguments(&data), vec!["-a", "-b", "-user", "-egl"]);
}

#[test]
fn working_directory_only_when_named_and_present() {
    assert!(uses_working_directory("/games", true));
    assert!(!uses_working_directory("/games", false));
    assert!(!uses_working_directory("", true));
}

#[test]
fn presence_session_lifecycle() {
    let mut p: Presence<u8> = Presence::new();
    assert!(p.update_activity(Some("menu"), None).is_none());
    p.connect(1, 1000);
    p.connect(2, 2000);
    assert!(p.is_connected());
    let plan = p.update_activity(Some("menu"), Some("idle")).unwrap();
    assert_eq!(plan.details.as_deref(), Some("menu"));
    assert_eq!(plan.state.as_deref(), Some("idle"));
    assert_eq!(plan.start_timestamp, Some(1000));
    assert_eq!(p.disconnect(), Some(1));
    assert!(!p.is_connected());
    assert_eq!(p.start_timestamp, None);
    assert_eq!(p.disconnect(), None);
}
