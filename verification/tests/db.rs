use clockrust::command::{create_command, Command, CommandType};
use clockrust::db::ClockRuster;
use clockrust::identity::identity_of;
use clockrust::output::write_tracking_report;
use clockrust::timestamp::Timestamp;

const TEST_DB_STRING: &str = "./clock_rust_test";
const TEST_TASK: &str = "Test test data";
const TEST_TASK_2: &str = "Test test data of another kind";

fn instant(text: &str) -> Timestamp {
    Timestamp::parse_from_rfc3339(text).ok().unwrap()
}

fn create_test_cmd(command: CommandType, task_str: &str, dt: &str) -> Command {
    Command::new(command, instant(dt), task_str.to_string())
}

fn summary(cmds: &Vec<Command>) -> Vec<(String, CommandType, i64)> {
    cmds.iter().map(|c| (c.task.clone(), c.command, c.cmd_datetime.secs())).collect()
}

#[test]
fn test_run_clock_in_command() {
    let mut cr = ClockRuster::init(TEST_DB_STRING);
    let cmd = Command::new(CommandType::ClockIn, instant("2022-01-31T17:00:28Z"), "Test test data".to_string());
    cr.run_clock_command(&cmd);
    println!("Successfully ran clock in command: {} ", cmd.to_string());
    assert_eq!(cr.len(), 1);
}

#[test]
fn test_curently_tracking() {
    let mut cr = ClockRuster::init(TEST_DB_STRING);
    let cmd = Command::new(CommandType::ClockIn, instant("2022-01-31T17:00:28Z"), TEST_TASK.to_string());
    cr.run_clock_command(&cmd);
    assert!(cr.currently_tracking(TEST_TASK));
    let cmd = Command::new(CommandType::ClockOut, instant("2022-01-31T18:00:28Z"), TEST_TASK.to_string());
    cr.run_clock_command(&cmd);
    assert!(!cr.currently_tracking(TEST_TASK));
}

#[test]
fn test_command_list() {
    let mut cr = ClockRuster::init(TEST_DB_STRING);
    let ci = create_test_cmd(CommandType::ClockIn, TEST_TASK, "2022-01-31 17:00:28.974008356+00:00");
    let co = create_test_cmd(CommandType::ClockOut, TEST_TASK, "2022-01-31 17:00:28.974008356+00:00");
    cr.run_clock_command(&ci);
    cr.run_clock_command(&co);
    let cmds = cr.command_list(None, None, None);
    assert!(cmds.len() == 2);
    assert_eq!(
        summary(&cmds),
        vec![
            (TEST_TASK.to_string(), CommandType::ClockIn, 1643648428),
            (TEST_TASK.to_string(), CommandType::ClockOut, 1643648428),
        ]
    );
}

#[test]
fn test_command_list_with_args() {
    let mut cr = ClockRuster::init(TEST_DB_STRING);
    let ci = create_test_cmd(CommandType::ClockIn, TEST_TASK, "2022-01-31 17:00:28.974008356+00:00");
    let co = create_test_cmd(CommandType::ClockOut, TEST_TASK_2, "2022-02-04 17:00:28.974008356+00:00");
    cr.run_clock_command(&ci);
    cr.run_clock_command(&co);

    let start_date = instant("2022-02-01 17:00:28.000000000+00:00");
    let cmds = cr.command_list(Option::Some(start_date), None, None);
    assert!(cmds.len() == 1);
    assert_eq!(summary(&cmds), vec![(TEST_TASK_2.to_string(), CommandType::ClockOut, 1643994028)]);

    let end_date = instant("2022-02-01 17:00:28.000000000+00:00");
    let cmds = cr.command_list(None, Option::Some(end_date), None);
    assert!(cmds.len() == 1);
    assert_eq!(summary(&cmds), vec![(TEST_TASK.to_string(), CommandType::ClockIn, 1643648428)]);

    let cmds = cr.command_list(None, None, Option::Some(TEST_TASK_2));
    assert!(cmds.len() == 1);
    assert_eq!(summary(&cmds), vec![(TEST_TASK_2.to_string(), CommandType::ClockOut, 1643994028)]);
}

#[test]
fn test_write_tracking_report() {
    let mut cr = ClockRuster::init(TEST_DB_STRING);
    let ci = create_test_cmd(CommandType::ClockIn, TEST_TASK, "2022-01-31 17:00:28.974008356+00:00");
    let co = create_test_cmd(CommandType::ClockOut, TEST_TASK, "2022-01-31 18:31:28.974008356+00:00");
    cr.run_clock_command(&ci);
    cr.run_clock_command(&co);
    let cmds = cr.command_list(None, None, None);
    let mut report = String::from("what was in the file before");
    write_tracking_report(&mut report, &cmds);
    let expected = "\
+----------------+-----------+-------------------------------------+
| Task           | Command   | Timestamp                           |
+==================================================================+
| Test test data | clock-in  | 2022-01-31T17:00:28.974008356+00:00 |
|----------------+-----------+-------------------------------------|
| Test test data | clock-out | 2022-01-31T18:31:28.974008356+00:00 |
+----------------+-----------+-------------------------------------+";
    assert_eq!(report, expected);
}

#[test]
fn report_of_no_events_is_the_header_alone() {
    let mut report = String::new();
    write_tracking_report(&mut report, &Vec::new());
    let expected = "\
+------+---------+-----------+
| Task | Command | Timestamp |
+============================+
+------+---------+-----------+";
    assert_eq!(report, expected);
}

#[test]
fn a_new_ledger_is_empty() {
    let cr = ClockRuster::new();
    assert_eq!(cr.connection_string(), "./.clockrust");
    assert_eq!(cr.len(), 0);
    assert!(cr.command_list(None, None, None).is_empty());
    assert!(!cr.currently_tracking("write report"));
    let cr = ClockRuster::init("./somewhere else");
    assert_eq!(cr.connection_string(), "./somewhere else");
    assert_eq!(cr.len(), 0);
    cr.check_log();
}

#[test]
fn stored_events_are_numbered_and_carry_the_identity() {
    let mut cr = ClockRuster::new();
    assert!(cr.stored_events().is_empty());
    for (i, task) in ["write report", "draft spec", "write report"].iter().enumerate() {
        let cmd = Command::new(CommandType::ClockIn, Timestamp::new(100 + i as i64, 7).unwrap(), task.to_string());
        cr.run_clock_command(&cmd);
    }
    let stored = cr.stored_events();
    assert_eq!(stored.len(), 3);
    let ids: Vec<u64> = stored.iter().map(|e| e.id).collect();
    assert_eq!(ids, vec![0, 1, 2]);
    assert_eq!(stored[0].hash.value, 4770030938151645462);
    assert_eq!(stored[1].hash.value, 17784915182014964791);
    assert_eq!(stored[2].hash.value, 4770030938151645462);
    for event in stored.iter() {
        assert_eq!(event.hash, identity_of(&event.command.task));
    }
    assert_eq!(stored[1].command.task, "draft spec");
    assert_eq!(stored[2].command.cmd_datetime.secs(), 102);
    assert_eq!(stored[2].command.cmd_datetime.nanos(), 7);
    assert_eq!(stored[2].command.command, CommandType::ClockIn);
    cr.check_log();
}

#[test]
fn write_report_scenario() {
    let mut cr = ClockRuster::new();
    let ci = create_command("clock-in::2022-01-31T17:00:28Z::write report").unwrap();
    let co = create_command("clock-out::2022-01-31T18:31:28Z::write report").unwrap();
    cr.run_clock_command(&ci);
    cr.run_clock_command(&co);
    assert!(!cr.currently_tracking("write report"));
    let cmds = cr.command_list(None, None, None);
    assert_eq!(
        summary(&cmds),
        vec![
            ("write report".to_string(), CommandType::ClockIn, 1643648428),
            ("write report".to_string(), CommandType::ClockOut, 1643653888),
        ]
    );
}

#[test]
fn draft_spec_scenario() {
    let mut cr = ClockRuster::new();
    let first = create_command("clock-in::2022-01-31T17:00:28Z::draft spec").unwrap();
    let second = create_command("clock-in::2022-01-31T19:00:28Z::draft spec").unwrap();
    cr.run_clock_command(&first);
    cr.run_clock_command(&second);
    assert!(cr.currently_tracking("draft spec"));
    assert!(!cr.currently_tracking("write report"));
}

#[test]
fn tracking_is_a_balance_of_counts() {
    let kinds = [
        CommandType::ClockOut,
        CommandType::ClockOut,
        CommandType::ClockIn,
        CommandType::ClockIn,
        CommandType::ClockIn,
        CommandType::ClockOut,
        CommandType::ClockOut,
    ];
    let mut cr = ClockRuster::new();
    let hash = identity_of("write report");
    let mut ins: usize = 0;
    let mut outs: usize = 0;
    for (i, kind) in kinds.iter().enumerate() {
        let cmd = Command::new(*kind, Timestamp::new(1643648428 - i as i64, 0).unwrap(), "write report".to_string());
        cr.run_clock_command(&cmd);
        let other = Command::new(CommandType::ClockIn, Timestamp::new(5, 0).unwrap(), "something else".to_string());
        cr.run_clock_command(&other);
        match kind {
            CommandType::ClockIn => ins += 1,
            CommandType::ClockOut => outs += 1,
        }
        assert_eq!(cr.count_command(CommandType::ClockIn, hash), ins);
        assert_eq!(cr.count_command(CommandType::ClockOut, hash), outs);
        assert_eq!(cr.currently_tracking("write report"), ins > outs);
        assert!(cr.currently_tracking("something else"));
    }
    assert_eq!(cr.len(), 14);
    assert_eq!(cr.count_command(CommandType::ClockIn, identity_of("nothing")), 0);
}

#[test]
fn listing_is_by_task_and_then_by_time() {
    let mut cr = ClockRuster::new();
    let given = [
        ("b", CommandType::ClockOut, 300),
        ("a", CommandType::ClockOut, 200),
        ("b", CommandType::ClockIn, 100),
        ("B", CommandType::ClockIn, 900),
        ("a", CommandType::ClockIn, 100),
        ("ab", CommandType::ClockIn, 50),
        ("a", CommandType::ClockIn, 200),
        ("", CommandType::ClockIn, 1000),
    ];
    for (task, kind, secs) in given {
        cr.run_clock_command(&Command::new(kind, Timestamp::new(secs, 0).unwrap(), task.to_string()));
    }
    let cmds = cr.command_list(None, None, None);
    assert_eq!(
        summary(&cmds),
        vec![
            ("".to_string(), CommandType::ClockIn, 1000),
            ("B".to_string(), CommandType::ClockIn, 900),
            ("a".to_string(), CommandType::ClockIn, 100),
            ("a".to_string(), CommandType::ClockOut, 200),
            ("a".to_string(), CommandType::ClockIn, 200),
            ("ab".to_string(), CommandType::ClockIn, 50),
            ("b".to_string(), CommandType::ClockIn, 100),
            ("b".to_string(), CommandType::ClockOut, 300),
        ]
    );
}

#[test]
fn listing_orders_by_nanoseconds_within_a_second() {
    let mut cr = ClockRuster::new();
    for nanos in [500, 2, 999_999_999, 0] {
        cr.run_clock_command(&Command::new(CommandType::ClockIn, Timestamp::new(7, nanos).unwrap(), "t".to_string()));
    }
    let cmds = cr.command_list(None, None, None);
    let nanos: Vec<u32> = cmds.iter().map(|c| c.cmd_datetime.nanos()).collect();
    assert_eq!(nanos, vec![0, 2, 500, 999_999_999]);
}

#[test]
fn time_bounds_are_inclusive_and_independent() {
    let mut cr = ClockRuster::new();
    for secs in [100, 200, 300, 400] {
        cr.run_clock_command(&Command::new(CommandType::ClockIn, Timestamp::new(secs, 0).unwrap(), "t".to_string()));
    }
    let at = |secs: i64| Some(Timestamp::new(secs, 0).unwrap());
    let times = |cmds: Vec<Command>| -> Vec<i64> { cmds.iter().map(|c| c.cmd_datetime.secs()).collect() };
    assert_eq!(times(cr.command_list(None, None, None)), vec![100, 200, 300, 400]);
    assert_eq!(times(cr.command_list(at(200), None, None)), vec![200, 300, 400]);
    assert_eq!(times(cr.command_list(None, at(300), None)), vec![100, 200, 300]);
    assert_eq!(times(cr.command_list(at(200), at(300), None)), vec![200, 300]);
    assert_eq!(times(cr.command_list(at(201), at(299), None)), Vec::<i64>::new());
    assert_eq!(times(cr.command_list(at(300), at(200), None)), Vec::<i64>::new());
    assert_eq!(times(cr.command_list(at(400), None, None)), vec![400]);
    assert_eq!(times(cr.command_list(None, at(100), None)), vec![100]);
    assert_eq!(times(cr.command_list(at(401), None, None)), Vec::<i64>::new());
    assert_eq!(times(cr.command_list(None, at(99), None)), Vec::<i64>::new());
    assert_eq!(
        times(cr.command_list(Some(Timestamp::new(199, 999_999_999).unwrap()), Some(Timestamp::new(300, 1).unwrap()), None)),
        vec![200, 300]
    );
}

#[test]
fn filters_are_joined_by_and() {
    let mut cr = ClockRuster::new();
    for (task, secs) in [("a", 100), ("b", 200), ("a", 300), ("b", 400), ("a", 500)] {
        cr.run_clock_command(&Command::new(CommandType::ClockIn, Timestamp::new(secs, 0).unwrap(), task.to_string()));
    }
    let at = |secs: i64| Some(Timestamp::new(secs, 0).unwrap());
    let cmds = cr.command_list(at(200), at(400), Some("a"));
    assert_eq!(summary(&cmds), vec![("a".to_string(), CommandType::ClockIn, 300)]);
    let cmds = cr.command_list(at(150), None, Some("b"));
    assert_eq!(summary(&cmds).len(), 2);
    let cmds = cr.command_list(None, at(300), Some("a"));
    assert_eq!(summary(&cmds).len(), 2);
    let cmds = cr.command_list(None, None, Some("c"));
    assert!(cmds.is_empty());
    let cmds = cr.command_list(None, None, Some("A"));
    assert!(cmds.is_empty());
}

#[test]
fn listing_does_not_change_the_ledger() {
    let mut cr = ClockRuster::init("kept");
    cr.run_clock_command(&Command::new(CommandType::ClockIn, Timestamp::new(1, 0).unwrap(), "t".to_string()));
    let first = summary(&cr.command_list(None, None, None));
    let second = summary(&cr.command_list(None, None, None));
    assert_eq!(first, second);
    assert_eq!(cr.len(), 1);
    assert_eq!(cr.connection_string(), "kept");
}
