use swole::regimen::{Assessment, Entry, Exercise, Regimen, RegimenError};

#[test]
fn add_then_list_reports_zero() {
    let mut reg = Regimen::new_on(10);
    assert_eq!(reg.add("squats", "12"), Ok(()));
    let report = reg.list();
    assert_eq!(report.len(), 1);
    assert_eq!(report[0].name, "squats");
    assert_eq!(report[0].current, 0);
    assert_eq!(report[0].desired, 12);
}

#[test]
fn done_twice_accumulates() {
    let mut reg = Regimen::new_on(10);
    assert_eq!(reg.add("squats", "20"), Ok(()));
    let first = reg.done("squats", "7").unwrap();
    assert_eq!(first.total, 7);
    let second = reg.done("squats", "8").unwrap();
    assert_eq!(second.total, 15);
    assert_eq!(reg.entries[0].exercise.history, vec![15]);
    let report = reg.list();
    assert_eq!(report[0].current, 15);
}

#[test]
fn update_history_backfills_missed_days() {
    let mut reg = Regimen::new_on(1);
    assert_eq!(reg.add("rows", "5"), Ok(()));
    assert_eq!(reg.done("rows", "3").map(|r| r.total), Ok(3));
    reg.update_history(4);
    assert_eq!(reg.entries[0].exercise.history, vec![3, 0, 0, 0]);
    assert_eq!(reg.last_updated, 4);
}

#[test]
fn update_history_is_idempotent_within_a_day() {
    let mut reg = Regimen::new_on(1);
    assert_eq!(reg.add("rows", "5"), Ok(()));
    reg.update_history(3);
    let before = reg.entries[0].exercise.history.clone();
    reg.update_history(3);
    assert_eq!(reg.entries[0].exercise.history, before);
}

#[test]
fn update_history_before_creation_changes_nothing() {
    let mut reg = Regimen::new_on(5);
    assert_eq!(reg.add("rows", "5"), Ok(()));
    reg.update_history(2);
    assert_eq!(reg.entries[0].exercise.history, vec![0]);
    assert_eq!(reg.last_updated, 2);
}

#[test]
fn delete_then_any_reference_is_unknown() {
    let mut reg = Regimen::new_on(1);
    assert_eq!(reg.add("dips", "10"), Ok(()));
    assert_eq!(reg.delete("dips"), Ok(()));
    assert!(reg.list().is_empty());
    assert_eq!(reg.done("dips", "3"), Err(RegimenError::UnknownExercise));
    assert_eq!(reg.goal("dips", "4"), Err(RegimenError::UnknownExercise));
    assert_eq!(reg.delete("dips"), Err(RegimenError::UnknownExercise));
}

#[test]
fn add_twice_fails_with_already_exists() {
    let mut reg = Regimen::new_on(1);
    assert_eq!(reg.add("dips", "10"), Ok(()));
    assert_eq!(reg.add("dips", "15"), Err(RegimenError::AlreadyExists));
    assert_eq!(reg.entries.len(), 1);
    assert_eq!(reg.entries[0].exercise.desired, 10);
}

#[test]
fn existing_name_is_refused_before_the_goal_is_read() {
    let mut reg = Regimen::new_on(1);
    assert_eq!(reg.add("dips", "10"), Ok(()));
    assert_eq!(reg.add("dips", "oops"), Err(RegimenError::AlreadyExists));
}

#[test]
fn unknown_name_is_refused_before_the_count_is_read() {
    let mut reg = Regimen::new_on(1);
    assert_eq!(reg.done("ghosts", "oops"), Err(RegimenError::UnknownExercise));
    assert_eq!(reg.goal("ghosts", "oops"), Err(RegimenError::UnknownExercise));
}

#[test]
fn pushups_scenario() {
    let mut reg = Regimen::new_on(1);
    reg.update_history(1);
    assert_eq!(reg.add("pushups", "20"), Ok(()));
    assert_eq!(reg.done("pushups", "15").map(|r| r.total), Ok(15));
    let report = reg.list();
    assert_eq!(report.len(), 1);
    assert_eq!(report[0].name, "pushups");
    assert_eq!(report[0].current, 15);
    assert_eq!(report[0].desired, 20);

    reg.update_history(3);
    assert_eq!(reg.entries[0].exercise.history, vec![15, 0, 0]);

    assert_eq!(reg.done("pushups", "5").map(|r| r.total), Ok(5));
    let report = reg.list();
    assert_eq!(report[0].current, 5);
    assert_eq!(report[0].desired, 20);
}

#[test]
fn done_reports_the_three_way_comparison() {
    let mut reg = Regimen::new_on(1);
    assert_eq!(reg.add("curls", "20"), Ok(()));
    let below = reg.done("curls", "15").unwrap();
    assert_eq!(below.assessment, Assessment::Remaining(5));
    let exact = reg.done("curls", "5").unwrap();
    assert_eq!(exact.assessment, Assessment::Complete);
    let over = reg.done("curls", "3").unwrap();
    assert_eq!(over.assessment, Assessment::Exceeded(3));
    assert_eq!(over.total, 23);
    assert_eq!(over.desired, 20);
}

#[test]
fn done_saturates_at_the_largest_count() {
    let mut reg = Regimen::new_on(1);
    assert_eq!(reg.add("curls", "20"), Ok(()));
    assert_eq!(reg.done("curls", "4294967295").map(|r| r.total), Ok(u32::MAX));
    assert_eq!(reg.done("curls", "1").map(|r| r.total), Ok(u32::MAX));
    assert_eq!(reg.entries[0].exercise.history, vec![u32::MAX]);
}

#[test]
fn goal_overwrites_the_daily_goal() {
    let mut reg = Regimen::new_on(1);
    assert_eq!(reg.add("curls", "20"), Ok(()));
    assert_eq!(reg.goal("curls", "30"), Ok(()));
    let report = reg.list();
    assert_eq!(report[0].desired, 30);
    assert_eq!(reg.goal("curls", "thirty"), Err(RegimenError::InvalidNumber));
    assert_eq!(reg.list()[0].desired, 30);
}

#[test]
fn list_keeps_the_order_of_addition() {
    let mut reg = Regimen::new_on(1);
    assert_eq!(reg.add("a", "1"), Ok(()));
    assert_eq!(reg.add("b", "2"), Ok(()));
    assert_eq!(reg.add("c", "3"), Ok(()));
    let names: Vec<String> = reg.list().into_iter().map(|e| e.name).collect();
    assert_eq!(names, vec!["a", "b", "c"]);
}

#[test]
fn a_new_regimen_is_empty_and_well_formed() {
    let reg = Regimen::new();
    assert!(reg.entries.is_empty());
    assert!(reg.is_wf());
    assert!(reg.list().is_empty());
}

#[test]
fn update_history_now_keeps_the_invariant() {
    let mut reg = Regimen::new();
    assert_eq!(reg.add("curls", "20"), Ok(()));
    reg.update_history_now();
    assert!(reg.is_wf());
    assert_eq!(reg.entries[0].exercise.history.len(), 1);
}

#[test]
fn is_wf_rejects_duplicate_names_and_empty_histories() {
    let good = Regimen {
        entries: vec![Entry {
            name: String::from("x"),
            exercise: Exercise { history: vec![0], desired: 1, created: 0 },
        }],
        last_updated: 0,
    };
    assert!(good.is_wf());

    let duplicated = Regimen {
        entries: vec![
            Entry {
                name: String::from("x"),
                exercise: Exercise { history: vec![0], desired: 1, created: 0 },
            },
            Entry {
                name: String::from("x"),
                exercise: Exercise { history: vec![0], desired: 2, created: 0 },
            },
        ],
        last_updated: 0,
    };
    assert!(!duplicated.is_wf());

    let hollow = Regimen {
        entries: vec![Entry {
            name: String::from("x"),
            exercise: Exercise { history: vec![], desired: 1, created: 0 },
        }],
        last_updated: 0,
    };
    assert!(!hollow.is_wf());
}
