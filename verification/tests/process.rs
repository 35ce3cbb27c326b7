use zeus::exception::TrapFrame;
use zeus::process::{schedule, spawn, Context, Process, Processes, State};

#[test]
fn spawn_adds_a_runnable_process() {
    let mut p = Processes::new();
    spawn(&mut p, "init", 0x8020_0000);
    assert_eq!(p.len(), 1);
    assert_eq!(p.state_of(0), State::Runable);
}

#[test]
fn schedule_round_robin() {
    let mut p = Processes::new();
    spawn(&mut p, "a", 0x100);
    spawn(&mut p, "b", 0x200);
    spawn(&mut p, "c", 0x300);
    // nothing runs yet: the front process is skipped over and the next one starts
    let ctx = Context::new(TrapFrame::new(), 0x999);
    let c = schedule(&mut p, ctx);
    assert_eq!(c.epc, 0x200);
    assert_eq!(p.state_of(0), State::Running);
    let c = schedule(&mut p, Context::new(TrapFrame::new(), 0x204));
    assert_eq!(c.epc, 0x300);
    let c = schedule(&mut p, Context::new(TrapFrame::new(), 0x304));
    assert_eq!(c.epc, 0x100);
    // b was saved where it stopped
    let c = schedule(&mut p, Context::new(TrapFrame::new(), 0x104));
    assert_eq!(c.epc, 0x204);
    assert_eq!(p.state_of(2), State::Runable);
}

#[test]
fn a_single_running_process_resumes_itself() {
    let mut p = Processes::new();
    spawn(&mut p, "only", 0x100);
    let c = schedule(&mut p, Context::new(TrapFrame::new(), 0x500));
    assert_eq!(c.epc, 0x100);
    let c = schedule(&mut p, Context::new(TrapFrame::new(), 0x500));
    assert_eq!(c.epc, 0x500);
}

#[test]
fn save_context_only_touches_a_running_process() {
    let mut p = Processes::new();
    p.push(Process::new(String::from("x"), State::Sleeping, Context::new(TrapFrame::new(), 1), vec![]));
    p.save_context(Context::new(TrapFrame::new(), 2));
    assert_eq!(p.state_of(0), State::Sleeping);
    let c = p.next();
    assert_eq!(c.epc, 1);
    assert_eq!(p.state_of(0), State::Running);
}
