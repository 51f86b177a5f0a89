use std::collections::HashMap;

use flakreate::apply::{Applier, Event, Step};
use flakreate::flake_template::{plan_operations, FlakeTemplate};
use flakreate::param::Param;
use flakreate::replace::ReplaceOp;

/// Runs the applier against files held in memory; returns the last step and
/// the steps that touched a file.
fn drive(fs: &mut HashMap<String, String>, ops: Vec<(String, ReplaceOp)>) -> (Step, Vec<String>) {
    let (mut applier, mut step) = Applier::start(ops);
    let mut log = Vec::new();
    loop {
        let event = match &step {
            Step::Read(p) => {
                log.push(format!("read {}", p));
                match fs.get(p) {
                    Some(t) => Event::Read(t.clone()),
                    None => Event::Failed,
                }
            }
            Step::Write(p, t) => {
                log.push(format!("write {}", p));
                if fs.contains_key(p) {
                    fs.insert(p.clone(), t.clone());
                    Event::Done
                } else {
                    Event::Failed
                }
            }
            Step::Rename(a, b) => {
                log.push(format!("rename {} {}", a, b));
                match fs.remove(a) {
                    Some(t) => {
                        fs.insert(b.clone(), t);
                        Event::Done
                    }
                    None => Event::Failed,
                }
            }
            Step::Finished | Step::Stopped(_) => return (step, log),
        };
        step = applier.resume(event);
    }
}

fn labelled(ops: Vec<ReplaceOp>) -> Vec<(String, ReplaceOp)> {
    ops.into_iter().map(|o| ("p".to_string(), o)).collect()
}

#[test]
fn empty_plan_touches_nothing() {
    let mut fs = HashMap::new();
    fs.insert("/tmp/a.txt".to_string(), "my-app".to_string());
    let before = fs.clone();
    let ops = ReplaceOp::ops_for_replacing("my-app", "my-app", &["/tmp/a.txt".to_string()]);
    let (last, log) = drive(&mut fs, labelled(ops));
    assert!(matches!(last, Step::Finished));
    assert!(log.is_empty());
    assert_eq!(fs, before);
}

#[test]
fn content_replace_rewrites_file() {
    let mut fs = HashMap::new();
    fs.insert("/tmp/a.txt".to_string(), "x foo y foo z".to_string());
    let ops = vec![ReplaceOp::ContentReplace(
        "/tmp/a.txt".to_string(),
        "foo".to_string(),
        "bar".to_string(),
    )];
    let (last, log) = drive(&mut fs, labelled(ops));
    assert!(matches!(last, Step::Finished));
    assert_eq!(log, vec!["read /tmp/a.txt", "write /tmp/a.txt"]);
    let text = &fs["/tmp/a.txt"];
    assert_eq!(text, "x bar y bar z");
    assert_eq!(text.matches("bar").count(), 2);
    assert_eq!(text.matches("foo").count(), 0);
}

#[test]
fn fail_stop_on_first_error() {
    let mut fs = HashMap::new();
    fs.insert("/tmp/one.txt".to_string(), "old".to_string());
    fs.insert("/tmp/three.txt".to_string(), "old".to_string());
    let op = |p: &str| ReplaceOp::ContentReplace(p.to_string(), "old".to_string(), "new".to_string());
    let ops = vec![op("/tmp/one.txt"), op("/tmp/missing.txt"), op("/tmp/three.txt")];
    let (last, log) = drive(&mut fs, labelled(ops));
    match last {
        Step::Stopped(e) => {
            assert_eq!(e.index, 1);
            assert_eq!(e.name, "p");
            match e.op {
                ReplaceOp::ContentReplace(p, _, _) => assert_eq!(p, "/tmp/missing.txt"),
                other => panic!("unexpected operation {:?}", other),
            }
        }
        other => panic!("expected a stop, got {:?}", other),
    }
    assert_eq!(
        log,
        vec!["read /tmp/one.txt", "write /tmp/one.txt", "read /tmp/missing.txt"]
    );
    assert_eq!(fs["/tmp/one.txt"], "new");
    assert_eq!(fs["/tmp/three.txt"], "old");
}

#[test]
fn stopped_applier_stays_stopped() {
    let ops = vec![ReplaceOp::FileRename("/a".to_string(), "/b".to_string())];
    let (mut applier, first) = Applier::start(labelled(ops));
    assert!(matches!(first, Step::Rename(_, _)));
    let step = applier.resume(Event::Failed);
    assert!(matches!(step, Step::Stopped(ref e) if e.index == 0));
    let again = applier.resume(Event::Done);
    assert!(matches!(again, Step::Stopped(ref e) if e.index == 0));
    assert_eq!(applier.position(), 0);
}

#[test]
fn unexpected_event_stops() {
    let ops = vec![ReplaceOp::ContentReplace("/a".to_string(), "x".to_string(), "y".to_string())];
    let (mut applier, first) = Applier::start(labelled(ops));
    assert!(matches!(first, Step::Read(ref p) if p == "/a"));
    let step = applier.resume(Event::Done);
    assert!(matches!(step, Step::Stopped(ref e) if e.index == 0));
}

#[test]
fn end_to_end_scenario() {
    let mut fs = HashMap::new();
    fs.insert("/tmp/t/my-app.txt".to_string(), "Hello my-app!".to_string());
    let p = Param::new(
        "name".to_string(),
        "Name of the project".to_string(),
        "my-app".to_string(),
        None,
        vec!["/tmp/t/my-app.txt".to_string()],
        true,
    )
    .unwrap();
    let t = FlakeTemplate::new(
        "demo".to_string(),
        "./demo".to_string(),
        None,
        vec![("name".to_string(), p)],
    )
    .unwrap();
    let plan = t.prompt_replacements(&["super-app".to_string()]).unwrap();
    let (last, _) = drive(&mut fs, plan_operations(&plan));
    assert!(matches!(last, Step::Finished));
    assert_eq!(fs.len(), 1);
    assert_eq!(fs["/tmp/t/super-app.txt"], "Hello super-app!");
}
