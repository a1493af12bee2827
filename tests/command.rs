use ncmdump::command::{Command, Error};

#[test]
fn command_test_empty_input_files_err() {
    let command = Command {
        matchers: vec![],
        worker: 1,
        ..Default::default()
    };
    let result = command.invalid();
    assert!(result.is_err_and(|err| err == Error::NoFile));
}

#[test]
fn test_invalid_worker_ok() {
    let works = [1, 2, 3, 4, 5, 6, 7, 8];
    for worker in works {
        let command = Command {
            matchers: vec![String::new()],
            worker,
            ..Default::default()
        };
        let result = command.invalid();
        assert!(result.is_ok());
    }
}

#[test]
fn command_test_invalid_worker_err() {
    let works = [0, 9, 10, 15, 100, 199];
    for worker in works {
        let command = Command {
            matchers: vec![String::new()],
            worker,
            ..Default::default()
        };
        let result = command.invalid();
        assert!(result.is_err_and(|err| err == Error::Worker));
    }
}

#[test]
fn command_worker_checked_before_files() {
    let command = Command {
        matchers: vec![],
        worker: 0,
        ..Default::default()
    };
    assert_eq!(command.invalid(), Err(Error::Worker));
}

#[test]
fn command_default_values() {
    let command = Command::default();
    assert!(command.matchers.is_empty());
    assert_eq!(command.output, None);
    assert!(!command.verbose);
    assert_eq!(command.worker, 0);
}
