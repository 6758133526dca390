use parallels::app::{App, AppEvent, Mode};
use parallels::buffer::{OutputKind, OutputLine};
use parallels::tab::CommandStatus;

#[test]
fn app_new_initializes_correctly() {
    let app = App::new(vec!["cmd1".into(), "cmd2".into()], 100);

    assert_eq!(app.tab_manager().len(), 2);
    assert_eq!(app.mode(), Mode::Normal);
    assert!(!app.should_quit());
}

#[test]
fn app_mode_transition_works() {
    let mut app = App::new(vec!["cmd".into()], 100);

    assert_eq!(app.mode(), Mode::Normal);

    app.set_mode(Mode::Search);
    assert_eq!(app.mode(), Mode::Search);

    app.set_mode(Mode::Normal);
    assert_eq!(app.mode(), Mode::Normal);
}

#[test]
fn app_quit_sets_flag() {
    let mut app = App::new(vec!["cmd".into()], 100);

    assert!(!app.should_quit());

    app.quit();
    assert!(app.should_quit());
}

#[test]
fn app_request_restart_sets_pending() {
    let mut app = App::new(vec!["cmd".into()], 100);

    // Initially no pending restart
    assert!(app.take_pending_restart().is_none());

    // Request restart for tab 0
    app.request_restart(0);

    // Should have pending restart
    assert_eq!(app.take_pending_restart(), Some(0));

    // After taking, should be None again
    assert!(app.take_pending_restart().is_none());
}

#[test]
fn output_events_reach_their_tab_in_order() {
    let mut app = App::new(vec!["a".into(), "b".into()], 100);
    app.handle_app_event(AppEvent::Output {
        tab_index: 1,
        line: OutputLine::new(OutputKind::Stdout, "first".into()),
    });
    app.handle_app_event(AppEvent::Output {
        tab_index: 1,
        line: OutputLine::new(OutputKind::Stderr, "second".into()),
    });
    app.handle_app_event(AppEvent::Output {
        tab_index: 7,
        line: OutputLine::new(OutputKind::Stdout, "nowhere".into()),
    });
    let tabs = app.tab_manager();
    assert!(tabs.get_tab(0).unwrap().buffer().is_empty());
    let lines: Vec<String> = tabs.get_tab(1).unwrap().buffer().iter().map(|l| l.plain()).collect();
    assert_eq!(lines, vec!["first", "second"]);
}

#[test]
fn exit_and_failure_only_end_a_running_command() {
    let mut app = App::new(vec!["a".into(), "b".into()], 100);
    app.record_spawn(0, Ok(70));
    app.handle_app_event(AppEvent::Exited { tab_index: 0, pid: 70, exit_code: 3 });
    assert_eq!(app.process_of(0), None);
    app.handle_app_event(AppEvent::Failed { tab_index: 0, reason: "late".into() });
    assert_eq!(
        app.tab_manager().get_tab(0).unwrap().status(),
        &CommandStatus::Finished { exit_code: 3 }
    );
    app.handle_app_event(AppEvent::Failed { tab_index: 1, reason: "no shell".into() });
    app.handle_app_event(AppEvent::Exited { tab_index: 1, pid: 71, exit_code: 0 });
    assert_eq!(
        app.tab_manager().get_tab(1).unwrap().status(),
        &CommandStatus::Failed { reason: "no shell".into() }
    );
}

#[test]
fn spawn_outcomes_are_recorded() {
    let mut app = App::new(vec!["a".into(), "b".into()], 100);
    let cmds = app.commands();
    assert_eq!(cmds, vec!["a".to_string(), "b".to_string()]);
    assert!(app.record_spawn(0, Ok(4242)).is_none());
    assert_eq!(app.process_of(0), Some(4242));
    match app.record_spawn(1, Err("cannot start".into())) {
        Some(AppEvent::Failed { tab_index, reason }) => {
            assert_eq!(tab_index, 1);
            assert_eq!(reason, "cannot start");
        }
        _ => panic!("expected a failure event"),
    }
    assert_eq!(app.process_of(1), None);
    assert_eq!(app.process_of(9), None);
}

#[test]
fn kill_list_then_reaping_leaves_no_process() {
    let mut app = App::new(vec!["a".into(), "b".into(), "c".into()], 100);
    app.record_spawn(0, Ok(11));
    app.record_spawn(2, Ok(33));
    let list = app.kill_list();
    assert_eq!(list, vec![(0, 11), (2, 33)]);
    for (tab, _pid) in list {
        app.mark_reaped(tab);
    }
    assert!(app.kill_list().is_empty());
    for i in 0..3 {
        assert_eq!(app.process_of(i), None);
    }
}

#[test]
fn restart_waits_for_the_old_process_then_resets_the_tab() {
    let mut app = App::new(vec!["sleep 100".into()], 100);
    app.record_spawn(0, Ok(100));
    app.tab_manager_mut().get_tab_mut(0).unwrap().push_output(
        OutputLine::new(OutputKind::Stdout, "test".into()),
    );
    // The old process is still held: nothing is reset yet.
    assert!(app.reset_for_restart(0).is_none());
    assert_eq!(app.tab_manager().get_tab(0).unwrap().buffer().len(), 1);

    app.mark_reaped(0);
    assert_eq!(app.reset_for_restart(0), Some("sleep 100".to_string()));
    let tab = app.tab_manager().get_tab(0).unwrap();
    assert!(tab.buffer().is_empty());
    assert_eq!(tab.status(), &CommandStatus::Running);
    assert!(app.record_spawn(0, Ok(101)).is_none());
    assert_eq!(app.process_of(0), Some(101));
    assert!(app.reset_for_restart(5).is_none());
}

#[test]
fn search_in_current_tab_uses_active_buffer() {
    let mut app = App::new(vec!["a".into(), "b".into()], 100);
    app.tab_manager_mut().get_tab_mut(1).unwrap().push_output(
        OutputLine::new(OutputKind::Stdout, "needle here".into()),
    );
    app.search_in_current_tab("needle");
    assert_eq!(app.search_state().match_count(), 0);
    app.tab_manager_mut().next_tab();
    app.search_in_current_tab("needle");
    assert_eq!(app.search_state().match_count(), 1);
    assert_eq!(app.search_state().query(), "needle");
    app.search_state_mut().clear();
    assert!(!app.search_state().is_active());
}

#[test]
fn stale_exit_of_a_replaced_process_is_ignored() {
    let mut app = App::new(vec!["server".into()], 100);
    app.record_spawn(0, Ok(200));
    // The first process is killed and reaped, and the tab restarted.
    app.mark_reaped(0);
    assert!(app.reset_for_restart(0).is_some());
    app.record_spawn(0, Ok(201));
    // An exit of the first process arrives late: it changes nothing.
    app.handle_app_event(AppEvent::Exited { tab_index: 0, pid: 200, exit_code: 137 });
    assert_eq!(app.process_of(0), Some(201));
    assert_eq!(app.tab_manager().get_tab(0).unwrap().status(), &CommandStatus::Running);
    assert_eq!(app.kill_list(), vec![(0, 201)]);
    // The exit of the current process counts.
    app.handle_app_event(AppEvent::Exited { tab_index: 0, pid: 201, exit_code: 1 });
    assert_eq!(app.process_of(0), None);
    assert_eq!(
        app.tab_manager().get_tab(0).unwrap().status(),
        &CommandStatus::Finished { exit_code: 1 }
    );
}
