//! Processes and the round-robin scheduler.
//!
//! The process at the front of the list is the one running. On each timer tick the
//! scheduler saves its context, moves it to the back, and starts the new front.
use vstd::prelude::*;
use crate::exception::TrapFrame;

verus! {

/// Bytes of stack a new process gets.
pub const STACK_SIZE: usize = 131072;

#[derive(Debug, Clone, Copy, PartialEq, Eq, Structural)]
pub enum State {
    Running,
    Runable,
    Sleeping,
    Zombie,
}

/// Where a process resumes: its registers and program counter.
#[derive(Debug, Clone, Copy)]
pub struct Context {
    pub frame: TrapFrame,
    pub epc: u64,
}

impl Context {
    pub fn new(frame: TrapFrame, epc: u64) -> (c: Context)
        ensures
            c.frame == frame,
            c.epc == epc,
    {
        Context { frame, epc }
    }
}

pub struct Process {
    name: String,
    state: State,
    context: Context,
    stack: Vec<u8>,
}

impl Process {
    pub closed spec fn name(&self) -> Seq<char> {
        self.name@
    }

    pub closed spec fn state(&self) -> State {
        self.state
    }

    pub closed spec fn context(&self) -> Context {
        self.context
    }

    pub closed spec fn stack(&self) -> Seq<u8> {
        self.stack@
    }

    pub fn new(name: String, state: State, context: Context, stack: Vec<u8>) -> (p: Process)
        ensures
            p.name() == name@,
            p.state() == state,
            p.context() == context,
            p.stack() == stack@,
    {
        Process { name, state, context, stack }
    }

    /// The process's state.
    pub fn get_state(&self) -> (s: State)
        ensures
            s == self.state(),
    {
        self.state
    }

    /// The process's saved context.
    pub fn get_context(&self) -> (c: Context)
        ensures
            c == self.context(),
    {
        self.context
    }
}

/// The same process in another state.
pub open spec fn same_but_state(p: Process, q: Process, state: State) -> bool {
    &&& q.name() == p.name()
    &&& q.context() == p.context()
    &&& q.stack() == p.stack()
    &&& q.state() == state
}

/// The same process in another state and context.
pub open spec fn same_but_state_context(p: Process, q: Process, state: State, context: Context) -> bool {
    &&& q.name() == p.name()
    &&& q.stack() == p.stack()
    &&& q.state() == state
    &&& q.context() == context
}

/// The same process, whatever its state.
pub open spec fn alike(p: Process, q: Process) -> bool {
    &&& q.name() == p.name()
    &&& q.context() == p.context()
    &&& q.stack() == p.stack()
}

/// `t` is the list after one switch from `s`: rotated left by one place, the new front
/// running.
pub open spec fn is_switch(s: Seq<Process>, t: Seq<Process>) -> bool {
    &&& s.len() > 0
    &&& t.len() == s.len()
    &&& same_but_state(rotate(s, 1)[0], t[0], State::Running)
    &&& forall|i: int| 0 < i < s.len() ==> t[i] == rotate(s, 1)[i]
}

/// `s` rotated left by `k` places.
pub open spec fn rotate<A>(s: Seq<A>, k: nat) -> Seq<A> {
    let m = (k % s.len()) as int;
    s.subrange(m, s.len() as int) + s.subrange(0, m)
}

/// The names of a list of processes.
pub open spec fn names(s: Seq<Process>) -> Seq<Seq<char>> {
    s.map_values(|p: Process| p.name())
}

/// The list of processes.
pub struct Processes {
    processes: Vec<Process>,
}

impl View for Processes {
    type V = Seq<Process>;

    closed spec fn view(&self) -> Seq<Process> {
        self.processes@
    }
}

impl Processes {
    pub fn new() -> (p: Processes)
        ensures
            p@ == Seq::<Process>::empty(),
    {
        Processes { processes: Vec::new() }
    }

    /// Number of processes.
    pub fn len(&self) -> (n: usize)
        ensures
            n == self@.len(),
    {
        self.processes.len()
    }

    /// The state of the `i`-th process.
    pub fn state_of(&self, i: usize) -> (s: State)
        requires
            i < self@.len(),
        ensures
            s == self@[i as int].state(),
    {
        self.processes[i].get_state()
    }

    /// Adds a process at the back.
    pub fn push(&mut self, p: Process)
        ensures
            final(self)@ == old(self)@.push(p),
    {
        self.processes.push(p);
    }

    /// Stores `context` in the front process and makes it runnable, if it is running.
    pub fn save_context(&mut self, context: Context)
        requires
            old(self)@.len() > 0,
        ensures
            final(self)@.len() == old(self)@.len(),
            forall|i: int| 0 < i < old(self)@.len() ==> final(self)@[i] == old(self)@[i],
            old(self)@[0].state() == State::Running ==> same_but_state_context(
                old(self)@[0],
                final(self)@[0],
                State::Runable,
                context,
            ),
            old(self)@[0].state() != State::Running ==> final(self)@[0] == old(self)@[0],
    {
        if self.processes[0].state == State::Running {
            let mut p = self.processes.remove(0);
            p.context = context;
            p.state = State::Runable;
            self.processes.insert(0, p);
            proof {
                assert forall|i: int| 0 < i < old(self)@.len() implies self@[i] == old(self)@[i] by {}
            }
        }
    }

    /// Moves the front process to the back, marks the new front running and returns its
    /// context.
    pub fn next(&mut self) -> (c: Context)
        requires
            old(self)@.len() > 0,
        ensures
            final(self)@.len() == old(self)@.len(),
            same_but_state(rotate(old(self)@, 1)[0], final(self)@[0], State::Running),
            forall|i: int| 0 < i < old(self)@.len() ==> final(self)@[i] == rotate(old(self)@, 1)[i],
            c == rotate(old(self)@, 1)[0].context(),
            names(final(self)@) == rotate(names(old(self)@), 1),
            is_switch(old(self)@, final(self)@),
    {
        let ghost s = self@;
        let first = self.processes.remove(0);
        self.processes.push(first);
        let ghost r = self@;
        proof {
            let n = s.len();
            if n == 1 {
                assert(r =~= rotate(s, 1));
            } else {
                vstd::arithmetic::div_mod::lemma_small_mod(1, n);
                assert(r =~= rotate(s, 1));
            }
        }
        let mut front = self.processes.remove(0);
        front.state = State::Running;
        let c = front.context;
        self.processes.insert(0, front);
        proof {
            assert(names(self@) =~= names(r)) by {
                assert forall|i: int| 0 <= i < names(self@).len() implies names(self@)[i] == names(r)[i] by {}
            }
            let n = s.len();
            assert(names(r) =~= rotate(names(s), 1)) by {
                if n == 1 {
                } else {
                    vstd::arithmetic::div_mod::lemma_small_mod(1, n);
                }
            }
        }
        c
    }
}

/// Address of the first byte of a stack (`Vec::as_ptr`). Nothing is stated about the address.
#[verifier::external_body]
fn stack_address(stack: &Vec<u8>) -> (addr: u64) {
    stack.as_ptr() as u64
}

/// Adds a runnable process named `name` that starts at `entry` on `stack`, with every
/// register zero but the stack pointer, which is `sp`.
pub fn spawn_on(processes: &mut Processes, name: &str, entry: u64, stack: Vec<u8>, sp: u64)
    ensures
        final(processes)@.len() == old(processes)@.len() + 1,
        final(processes)@.subrange(0, old(processes)@.len() as int) == old(processes)@,
        ({
            let p = final(processes)@.last();
            &&& p.name() == name@
            &&& p.state() == State::Runable
            &&& p.context().epc == entry
            &&& p.context().frame.regs[1] == sp
            &&& forall|i: int| 0 <= i < 32 && i != 1 ==> p.context().frame.regs[i] == 0
            &&& p.stack() == stack@
        }),
{
    let mut frame = TrapFrame::new();
    frame.regs[1] = sp;
    let process = Process::new(name.to_owned(), State::Runable, Context::new(frame, entry), stack);
    processes.push(process);
    proof {
        assert(processes@.subrange(0, old(processes)@.len() as int) =~= old(processes)@);
    }
}

/// Adds a runnable process named `name` that starts at `entry` on a fresh zeroed stack of
/// `STACK_SIZE` bytes; its stack pointer is the address of that stack, which the allocator
/// chooses, so nothing more is stated of it here (see `spawn_on`).
pub fn spawn(processes: &mut Processes, name: &str, entry: u64)
    ensures
        final(processes)@.len() == old(processes)@.len() + 1,
        final(processes)@.subrange(0, old(processes)@.len() as int) == old(processes)@,
        ({
            let p = final(processes)@.last();
            &&& p.name() == name@
            &&& p.state() == State::Runable
            &&& p.context().epc == entry
            &&& forall|i: int| 0 <= i < 32 && i != 1 ==> p.context().frame.regs[i] == 0
            &&& p.stack() == Seq::new(STACK_SIZE as nat, |i: int| 0u8)
        }),
{
    let stack: Vec<u8> = vec![0u8; STACK_SIZE];
    let sp = stack_address(&stack);
    spawn_on(processes, name, entry, stack, sp);
}

/// Saves the running process's context and switches to the next process; returns the context
/// to resume.
pub fn schedule(processes: &mut Processes, context: Context) -> (c: Context)
    requires
        old(processes)@.len() > 0,
    ensures
        final(processes)@.len() == old(processes)@.len(),
        names(final(processes)@) == rotate(names(old(processes)@), 1),
        final(processes)@[0].state() == State::Running,
        old(processes)@.len() > 1 ==> c == old(processes)@[1].context(),
        old(processes)@.len() == 1 && old(processes)@[0].state() == State::Running ==> c == context,
        old(processes)@.len() == 1 && old(processes)@[0].state() != State::Running ==> c
            == old(processes)@[0].context(),
        old(processes)@.len() > 1 ==> same_but_state(old(processes)@[1], final(processes)@[0], State::Running),
        forall|i: int| 0 < i < old(processes)@.len() - 1 ==> final(processes)@[i] == old(processes)@[i + 1],
        old(processes)@.len() > 1 && old(processes)@[0].state() == State::Running ==> same_but_state_context(
            old(processes)@[0],
            final(processes)@[old(processes)@.len() - 1],
            State::Runable,
            context,
        ),
        old(processes)@.len() > 1 && old(processes)@[0].state() != State::Running ==> final(processes)@[old(
            processes,
        )@.len() - 1] == old(processes)@[0],
        old(processes)@.len() == 1 && old(processes)@[0].state() == State::Running ==> same_but_state_context(
            old(processes)@[0],
            final(processes)@[0],
            State::Running,
            context,
        ),
        old(processes)@.len() == 1 && old(processes)@[0].state() != State::Running ==> same_but_state(
            old(processes)@[0],
            final(processes)@[0],
            State::Running,
        ),
{
    let ghost s = processes@;
    processes.save_context(context);
    let ghost t = processes@;
    proof {
        assert(names(t) =~= names(s)) by {
            assert forall|i: int| 0 <= i < names(t).len() implies names(t)[i] == names(s)[i] by {}
        }
    }
    let c = processes.next();
    proof {
        let n = s.len();
        if n > 1 {
            vstd::arithmetic::div_mod::lemma_small_mod(1, n);
            assert(rotate(t, 1)[0] == t[1]);
            assert(rotate(t, 1)[n - 1] == t[0]);
            assert forall|i: int| 0 < i < n - 1 implies processes@[i] == s[i + 1] by {
                assert(rotate(t, 1)[i] == t[i + 1]);
            }
        } else {
            assert(rotate(t, 1)[0] == t[0]);
        }
    }
    c
}

/// Rotating by one more place is rotating the rotation by one.
pub proof fn lemma_rotate_step<A>(s: Seq<A>, k: nat)
    requires
        s.len() > 0,
    ensures
        rotate(rotate(s, k), 1) == rotate(s, k + 1),
{
    let n = s.len();
    let m = (k % n) as int;
    let r = rotate(s, k);
    assert(r.len() == n);
    vstd::arithmetic::div_mod::lemma_add_mod_noop(k as int, 1, n as int);
    vstd::arithmetic::div_mod::lemma_mod_bound(k as int, n as int);
    if n == 1 {
        assert(rotate(r, 1) =~= rotate(s, k + 1));
    } else {
        vstd::arithmetic::div_mod::lemma_small_mod(1, n);
        if m + 1 < n {
            vstd::arithmetic::div_mod::lemma_small_mod((m + 1) as nat, n);
            assert(((k + 1) as int) % (n as int) == m + 1);
        } else {
            vstd::arithmetic::div_mod::lemma_mod_self_0(n as int);
            assert(((k + 1) as int) % (n as int) == 0);
        }
        assert(rotate(r, 1) =~= rotate(s, k + 1));
    }
}

/// Round-robin scheduling: after `k` switches the front of the list is the process that was
/// `k mod n` places from the front, and after `n` switches the order is back where it began.
pub proof fn lemma_round_robin<A>(s: Seq<A>, k: nat)
    requires
        s.len() > 0,
    ensures
        rotate(s, k)[0] == s[(k % s.len()) as int],
        rotate(s, s.len()) == s,
        rotate(s, k).len() == s.len(),
{
    let n = s.len();
    vstd::arithmetic::div_mod::lemma_mod_bound(k as int, n as int);
    vstd::arithmetic::div_mod::lemma_mod_self_0(n as int);
    assert(rotate(s, n) =~= s);
}

/// Rotating two lists whose processes are alike place by place gives lists whose processes
/// are alike place by place.
proof fn lemma_rotate_alike(a: Seq<Process>, b: Seq<Process>)
    requires
        a.len() > 0,
        b.len() == a.len(),
        forall|i: int| 0 <= i < a.len() ==> alike(#[trigger] a[i], b[i]),
    ensures
        forall|i: int| 0 <= i < a.len() ==> alike(#[trigger] rotate(a, 1)[i], rotate(b, 1)[i]),
{
    let n = a.len() as int;
    let m = (1nat % a.len()) as int;
    vstd::arithmetic::div_mod::lemma_mod_bound(1, n);
    assert forall|i: int| 0 <= i < a.len() implies alike(#[trigger] rotate(a, 1)[i], rotate(b, 1)[i]) by {
        if i < n - m {
            assert(rotate(a, 1)[i] == a[i + m]);
            assert(rotate(b, 1)[i] == b[i + m]);
        } else {
            assert(rotate(a, 1)[i] == a[i - (n - m)]);
            assert(rotate(b, 1)[i] == b[i - (n - m)]);
        }
    }
}

/// Round-robin over successive switches: after `k` switches from the list `runs[0]`, every
/// place holds the process (in some state) that `runs[0]` rotated left by `k` places holds
/// there, and the front process runs. With `lemma_round_robin`, the front is then the process
/// `k mod n` places from the old front, and after `n` switches the order is back where it
/// began.
pub proof fn lemma_switches(runs: Seq<Seq<Process>>, k: nat)
    requires
        runs.len() == k + 1,
        runs[0].len() > 0,
        forall|j: int| 0 <= j < k ==> is_switch(#[trigger] runs[j], runs[j + 1]),
    ensures
        runs[k as int].len() == runs[0].len(),
        forall|i: int| 0 <= i < runs[0].len() ==> alike(#[trigger] runs[k as int][i], rotate(runs[0], k)[i]),
        k > 0 ==> runs[k as int][0].state() == State::Running,
    decreases k,
{
    let s = runs[0];
    let n = s.len();
    if k == 0 {
        assert(rotate(s, 0) =~= s) by {
            vstd::arithmetic::div_mod::lemma_small_mod(0, n);
        }
    } else {
        let prev = runs.take(k as int);
        assert forall|j: int| 0 <= j < k - 1 implies is_switch(#[trigger] prev[j], prev[j + 1]) by {
            assert(is_switch(runs[j], runs[j + 1]));
        }
        lemma_switches(prev, (k - 1) as nat);
        let a = runs[k - 1];
        let t = runs[k as int];
        assert(is_switch(a, t));
        let r = rotate(s, (k - 1) as nat);
        lemma_round_robin(s, (k - 1) as nat);
        lemma_rotate_alike(a, r);
        lemma_rotate_step(s, (k - 1) as nat);
        assert forall|i: int| 0 <= i < n implies alike(#[trigger] t[i], rotate(s, k)[i]) by {
            assert(alike(rotate(a, 1)[i], rotate(r, 1)[i]));
            if i > 0 {
                assert(t[i] == rotate(a, 1)[i]);
            }
        }
    }
}

} // verus!
