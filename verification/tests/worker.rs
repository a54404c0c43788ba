use zrsh::shell::{cd_target, CmdAction, Diag, ShellMsg, WaitEvent, Worker};

const SHELL_PGID: usize = 4000;

/// Sends a command line to the worker and, when it asks for a spawn,
/// registers the given pids as the new foreground job. Returns the job id.
fn spawn_job(w: &mut Worker, line: &str, pids: &[usize]) -> usize {
    let line = line.to_string();
    match w.on_cmd(&line) {
        CmdAction::Spawn(job_id, stages) => {
            assert!(!stages.is_empty());
            let pgid = pids[0];
            assert!(!w.knows_job(job_id));
            assert!(!w.knows_group(pgid));
            for p in pids {
                assert!(!w.knows_pid(*p));
            }
            w.insert_job(job_id, pgid, pids.to_vec(), &line);
            w.set_foreground(pgid);
            job_id
        },
        other => panic!("expected a spawn, got {}", action_name(&other)),
    }
}

fn action_name(a: &CmdAction) -> &'static str {
    match a {
        CmdAction::Reply(_) => "reply",
        CmdAction::Fail(_, _) => "fail",
        CmdAction::Jobs(_, _) => "jobs",
        CmdAction::Spawn(_, _) => "spawn",
        CmdAction::ChangeDir(_) => "chdir",
        CmdAction::Resume(_, _, _) => "resume",
    }
}

/// Jobs spawned one after the other get ids 0, 1, 2; after id 1 is
/// removed, the next job reuses id 1.
#[test]
fn job_ids_count_up_and_are_reused() {
    let mut w = Worker::new(SHELL_PGID);
    assert_eq!(spawn_job(&mut w, "sleep 100", &[100]), 0);
    assert_eq!(spawn_job(&mut w, "sleep 101", &[101]), 1);
    assert_eq!(spawn_job(&mut w, "sleep 102", &[102]), 2);

    // job 1's only process exits: the job disappears
    let (announce, reply) = w.on_wait_event(WaitEvent::Exited(101, 0));
    let a = announce.expect("job end must be announced");
    assert_eq!(a.job_id, 1);
    assert!(a.finished);
    assert!(reply.is_none(), "a background job's end sends no reply");
    assert!(!w.knows_job(1));

    // the smallest free id is 1 again
    assert_eq!(spawn_job(&mut w, "sleep 103", &[103]), 1);
}

/// `exit` while a job is registered refuses, leaves the table untouched,
/// and replies `Continue` with a failure status; with an empty table and
/// no argument it quits with the last recorded status.
#[test]
fn exit_refused_while_jobs_exist() {
    let mut w = Worker::new(SHELL_PGID);
    let id = spawn_job(&mut w, "sleep 100", &[100]);

    match w.on_cmd(&"exit".to_string()) {
        CmdAction::Fail(Diag::ExitWithJobs, ShellMsg::Continue(1)) => {},
        other => panic!("expected the busy failure, got {}", action_name(&other)),
    }
    assert!(w.knows_job(id), "the job table must be untouched");
    assert_eq!(w.exit_val, 1);

    // the job exits with status 7; the shell records it and replies
    let (_, reply) = w.on_wait_event(WaitEvent::Exited(100, 7));
    assert_eq!(reply, Some(ShellMsg::Continue(7)));
    assert!(!w.knows_job(id));

    // `exit` without an argument reuses the last recorded status
    match w.on_cmd(&"exit".to_string()) {
        CmdAction::Reply(ShellMsg::Quit(7)) => {},
        other => panic!("expected quit with the last status, got {}", action_name(&other)),
    }
}

#[test]
fn exit_with_argument_and_bad_argument() {
    let mut w = Worker::new(SHELL_PGID);
    match w.on_cmd(&"exit 42".to_string()) {
        CmdAction::Reply(ShellMsg::Quit(42)) => {},
        other => panic!("expected quit 42, got {}", action_name(&other)),
    }
    match w.on_cmd(&"exit abc".to_string()) {
        CmdAction::Fail(Diag::BadExitArg, ShellMsg::Continue(1)) => {},
        other => panic!("expected the bad-argument failure, got {}", action_name(&other)),
    }
    assert_eq!(w.exit_val, 1);
}

/// `fg` on a missing id leaves the foreground pointer unchanged and
/// replies `Continue` with a failure status; on a stopped job it resumes
/// the job, hands it the foreground, and defers the reply.
#[test]
fn fg_unknown_and_fg_stopped() {
    let mut w = Worker::new(SHELL_PGID);
    let id = spawn_job(&mut w, "cat", &[100]);
    assert_eq!(w.fg, Some(100));

    // the foreground job stops: the shell takes the terminal back
    let (announce, reply) = w.on_wait_event(WaitEvent::Stopped(100));
    assert!(announce.is_some());
    assert_eq!(reply, Some(ShellMsg::Continue(0)));
    assert_eq!(w.fg, None);

    // unknown id: failure, foreground pointer untouched
    match w.on_cmd(&"fg 9".to_string()) {
        CmdAction::Fail(Diag::FgUnknown, ShellMsg::Continue(1)) => {},
        other => panic!("expected the unknown-job failure, got {}", action_name(&other)),
    }
    assert_eq!(w.fg, None);

    // missing argument: usage failure
    match w.on_cmd(&"fg".to_string()) {
        CmdAction::Fail(Diag::FgUsage, ShellMsg::Continue(1)) => {},
        other => panic!("expected the usage failure, got {}", action_name(&other)),
    }

    // valid id: the job goes back to the foreground, no reply yet
    match w.on_cmd(&"fg 0".to_string()) {
        CmdAction::Resume(job_id, pgid, cmd) => {
            assert_eq!(job_id, id);
            assert_eq!(pgid, 100);
            assert_eq!(cmd, "cat");
        },
        other => panic!("expected a resume, got {}", action_name(&other)),
    }
    assert_eq!(w.fg, Some(100));

    // it runs again, then exits: only now does the reply come
    let (_, reply) = w.on_wait_event(WaitEvent::Continued(100));
    assert!(reply.is_none());
    let (_, reply) = w.on_wait_event(WaitEvent::Exited(100, 0));
    assert_eq!(reply, Some(ShellMsg::Continue(0)));
    assert_eq!(w.fg, None);
}

/// A job whose two member processes are both stopped lists as stopped;
/// with only one member stopped it lists as running.
#[test]
fn jobs_listing_stopped_and_running() {
    let mut w = Worker::new(SHELL_PGID);
    let id = spawn_job(&mut w, "cat | wc", &[100, 101]);

    // one member stops; the other still runs
    let (_, reply) = w.on_wait_event(WaitEvent::Stopped(100));
    assert!(reply.is_none(), "one running member keeps the shell blocked");

    // the worker replies only when the whole group is stopped
    let (_, reply) = w.on_wait_event(WaitEvent::Stopped(101));
    assert_eq!(reply, Some(ShellMsg::Continue(0)));

    match w.on_cmd(&"jobs".to_string()) {
        CmdAction::Jobs(list, ShellMsg::Continue(0)) => {
            assert_eq!(list.len(), 1);
            assert_eq!(list[0].job_id, id);
            assert!(list[0].stopped);
            assert_eq!(list[0].cmd, "cat | wc");
        },
        other => panic!("expected a listing, got {}", action_name(&other)),
    }

    // one member resumes: the job lists as running again
    let (_, _) = w.on_wait_event(WaitEvent::Continued(100));
    match w.on_cmd(&"jobs".to_string()) {
        CmdAction::Jobs(list, ShellMsg::Continue(0)) => {
            assert_eq!(list.len(), 1);
            assert!(!list[0].stopped);
        },
        other => panic!("expected a listing, got {}", action_name(&other)),
    }
}

#[test]
fn empty_and_malformed_lines_fail() {
    let mut w = Worker::new(SHELL_PGID);
    match w.on_cmd(&"".to_string()) {
        CmdAction::Fail(Diag::EmptyCommand, ShellMsg::Continue(0)) => {},
        other => panic!("expected the empty-command failure, got {}", action_name(&other)),
    }
    match w.on_cmd(&"echo a | ".to_string()) {
        CmdAction::Fail(Diag::EmptyCommand, ShellMsg::Continue(0)) => {},
        other => panic!("expected the empty-stage failure, got {}", action_name(&other)),
    }
    match w.on_cmd(&"a | b | c".to_string()) {
        CmdAction::Fail(Diag::TooManyStages, ShellMsg::Continue(0)) => {},
        other => panic!("expected the pipe-length failure, got {}", action_name(&other)),
    }
    match w.on_cmd(&"echo a | exit".to_string()) {
        CmdAction::Spawn(_, stages) => {
            assert_eq!(stages.len(), 2);
        },
        other => panic!("expected a spawn, got {}", action_name(&other)),
    }
    match w.on_cmd(&"exit | echo a".to_string()) {
        CmdAction::Fail(Diag::BuiltinInPipe, ShellMsg::Continue(1)) => {},
        other => panic!("expected the builtin-in-pipe failure, got {}", action_name(&other)),
    }
}

#[test]
fn spawn_parses_stages_and_tokens() {
    let mut w = Worker::new(SHELL_PGID);
    match w.on_cmd(&"echo abc def".to_string()) {
        CmdAction::Spawn(job_id, stages) => {
            assert_eq!(job_id, 0);
            assert_eq!(stages.len(), 1);
            let prog: String = stages[0].0.iter().collect();
            assert_eq!(prog, "echo");
            let args: Vec<String> = stages[0].1.iter().map(|t| t.iter().collect()).collect();
            assert_eq!(args, vec!["echo", "abc", "def"]);
        },
        other => panic!("expected a spawn, got {}", action_name(&other)),
    }
    match w.on_cmd(&"echo  abc | less".to_string()) {
        CmdAction::Spawn(_, stages) => {
            assert_eq!(stages.len(), 2);
            let p0: String = stages[0].0.iter().collect();
            let p1: String = stages[1].0.iter().collect();
            assert_eq!(p0, "echo");
            assert_eq!(p1, "less");
            assert_eq!(stages[0].1.len(), 2);
            assert_eq!(stages[1].1.len(), 1);
        },
        other => panic!("expected a spawn, got {}", action_name(&other)),
    }
}

#[test]
fn cd_picks_argument_and_reports_result() {
    let mut w = Worker::new(SHELL_PGID);
    match w.on_cmd(&"cd /tmp".to_string()) {
        CmdAction::ChangeDir(path) => {
            let p: String = path.iter().collect();
            assert_eq!(p, "/tmp");
        },
        other => panic!("expected a directory change, got {}", action_name(&other)),
    }
    assert_eq!(w.cd_result(true), ShellMsg::Continue(0));
    assert_eq!(w.exit_val, 0);
    assert_eq!(w.cd_result(false), ShellMsg::Continue(1));
    assert_eq!(w.exit_val, 1);

    // without an argument some directory is still chosen
    match w.on_cmd(&"cd".to_string()) {
        CmdAction::ChangeDir(path) => {
            assert!(!path.is_empty());
        },
        other => panic!("expected a directory change, got {}", action_name(&other)),
    }
}

/// A signal-terminated child records 128 plus the signal number.
#[test]
fn signaled_child_records_status() {
    let mut w = Worker::new(SHELL_PGID);
    let _ = spawn_job(&mut w, "cat", &[100]);
    let (_, reply) = w.on_wait_event(WaitEvent::Signaled(100, 9));
    assert_eq!(reply, Some(ShellMsg::Continue(137)));
    assert_eq!(w.exit_val, 137);
}

/// A bare `cd` goes to the home directory the lookup gave, or to the root
/// directory when it gave none.
#[test]
fn cd_target_picks_home_or_root() {
    let p = cd_target(Some("/home/someone".to_string()));
    let s: String = p.iter().collect();
    assert_eq!(s, "/home/someone");

    let p = cd_target(None);
    let s: String = p.iter().collect();
    assert_eq!(s, "/");
}
