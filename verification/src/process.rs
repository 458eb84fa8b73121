pub mod processor;
pub mod scheduler;
pub mod structs;
pub mod thread_pool;

use vstd::prelude::*;

use crate::consts::MAX_THREADS;
use crate::consts::TICKS_PER_SEC;
use crate::consts::TIMEBASE;
use crate::consts::USER_BASE;
use crate::consts::USER_STACK_BOTTOM;
use crate::fs::rootfs::Filesystem;
use crate::fs::stdio::Stdin;
use crate::fs::pipe::Pipes;
use crate::kernel::kernel_wf;
use crate::kernel::Kernel;
use crate::memory::memory_set::layout_wf;
use crate::memory::memory_set::KernelLayout;
use crate::memory::memory_set::MemorySet;
use crate::memory::page_replace::FifoPageReplace;
use crate::memory::paging::PageTables;
use crate::memory::phys::PhysMemory;
use crate::process::processor::Processor;
use crate::process::scheduler::StrideScheduler;
use crate::process::structs::thread_wf;
use crate::process::structs::Thread;
use crate::process::thread_pool::SchedulerKind;
use crate::process::thread_pool::Status;
use crate::process::thread_pool::ThreadPool;
use crate::timer::clock_set_next_event;
use crate::timer::Timer;

verus! {

/// A thread keeps its obligations when the file, table and frame stores
/// only grow.
pub proof fn lemma_thread_wf_grow(
    t: Thread,
    nf0: int,
    nf1: int,
    ts0: PageTables,
    ts1: PageTables,
    mem0: PhysMemory,
    mem1: PhysMemory,
)
    requires
        thread_wf(t, nf0, ts0, mem0),
        nf1 >= nf0,
        ts1.tables@.len() >= ts0.tables@.len(),
        forall|tt: int| 0 <= tt < ts0.tables@.len() ==> ts1.tables@[tt] == ts0.tables@[tt],
        mem1.frames@.len() >= mem0.frames@.len(),
    ensures
        thread_wf(t, nf1, ts1, mem1),
{
    match t.memory_set {
        Some(ms) => {
            crate::memory::memory_set::lemma_set_wf_preserved(ms, ts0, ts1, mem0, mem1);
        },
        None => {},
    }
}

/// After the table, frame and file stores grew — the rest untouched —
/// every stored thread, the idle thread and the kernel set keep their
/// obligations.
pub proof fn lemma_grow_all(k0: Kernel, k1: Kernel)
    requires
        kernel_wf(k0),
        k1.mem.wf(),
        k1.tables.tables@.len() >= k0.tables.tables@.len(),
        forall|tt: int|
            0 <= tt < k0.tables.tables@.len() ==> k1.tables.tables@[tt] == k0.tables.tables@[tt],
        k1.mem.frames@.len() >= k0.mem.frames@.len(),
        k1.files == k0.files,
        k1.fs == k0.fs,
        k1.pipes == k0.pipes,
        k1.cpu == k0.cpu,
        k1.kernel_set == k0.kernel_set,
        k1.timer == k0.timer,
        k1.layout == k0.layout,
    ensures
        kernel_wf(k1),
{
    crate::memory::memory_set::lemma_set_wf_preserved(
        k0.kernel_set,
        k0.tables,
        k1.tables,
        k0.mem,
        k1.mem,
    );
    assert forall|i: int|
        0 <= i < k1.cpu.pool.slots@.len() implies ((#[trigger] k1.cpu.pool.slots@[i]).thread
        matches Some(t) ==> thread_wf(t, k1.files@.len() as int, k1.tables, k1.mem)) by {
        match k1.cpu.pool.slots@[i].thread {
            Some(t) => {
                lemma_thread_wf_grow(
                    t,
                    k0.files@.len() as int,
                    k1.files@.len() as int,
                    k0.tables,
                    k1.tables,
                    k0.mem,
                    k1.mem,
                );
            },
            None => {},
        }
    }
    match k1.cpu.current {
        Some((_, t)) => {
            lemma_thread_wf_grow(
                t,
                k0.files@.len() as int,
                k1.files@.len() as int,
                k0.tables,
                k1.tables,
                k0.mem,
                k1.mem,
            );
        },
        None => {},
    }
    match k1.cpu.idle {
        Some(t) => {
            lemma_thread_wf_grow(
                t,
                k0.files@.len() as int,
                k1.files@.len() as int,
                k0.tables,
                k1.tables,
                k0.mem,
                k1.mem,
            );
        },
        None => {},
    }
}

/// Whether `path` names a root-filesystem entry whose image fits the
/// user window, so that boot enqueues it.
pub open spec fn shell_loaded(fs: Filesystem, path: Seq<u8>) -> bool {
    exists|ino: int|
        {
            &&& 0 <= ino < fs.nodes@.len()
            &&& (#[trigger] fs.nodes@[ino]).path@ == path
            &&& forall|j: int| 0 <= j < ino ==> fs.nodes@[j].path@ != path
            &&& fs.nodes@[ino].data@.len() <= USER_STACK_BOTTOM - USER_BASE
        }
}

/// Boot: frame allocator, kernel address space built and activated,
/// filesystem mounted, stride scheduler and idle thread wired up, and the
/// initial user program enqueued.
pub fn init(layout: KernelLayout, fs: Filesystem, shell_path: &Vec<u8>) -> (k: Kernel)
    requires
        layout_wf(layout),
    ensures
        kernel_wf(k),
        k.cpu.current is None,
        k.layout == layout,
        k.satp == k.tables.tables@[k.kernel_set.page_table as int].spec_token(),
        k.ticks == 0,
        k.kernel_set.areas@ == crate::memory::memory_set::kernel_areas(layout),
        k.cpu.idle matches Some(t) && t.memory_set is None,
        k.cpu.pool.slots@.len() == MAX_THREADS,
        k.cpu.pool.scheduler is Stride,
        k.timer.events@.len() == 0,
        shell_loaded(k.fs, shell_path@) ==> k.cpu.pool.slots@[0].present
            && k.cpu.pool.slots@[0].status is Ready && (k.cpu.pool.slots@[0].thread
            matches Some(t) && t.tf.sepc == USER_BASE && t.wait is None && t.memory_set is Some)
            && k.cpu.scheduler_queued(0),
        !shell_loaded(k.fs, shell_path@) ==> forall|s: int|
            0 <= s < MAX_THREADS ==> !(#[trigger] k.cpu.pool.slots@[s]).present,
{
    let mut mem = PhysMemory::new();
    let mut tables = PageTables::new();
    let kernel_set = MemorySet::new(&mut tables, &mut mem, &layout);
    let mut satp: u64 = 0;
    kernel_set.activate(&tables, &mut satp);
    let scheduler = StrideScheduler::new();
    let pool = ThreadPool::new(MAX_THREADS, SchedulerKind::Stride(scheduler));
    let idle = Thread::new_kernel(0, 0);
    let cpu = Processor::init(idle, pool);
    let mut k = Kernel {
        mem,
        tables,
        fs,
        pipes: Pipes::new(),
        files: Vec::new(),
        stdin: Stdin::new(),
        stdout: Vec::new(),
        cpu,
        timer: Timer::new(),
        page_replace: FifoPageReplace::new(),
        ticks: 0,
        cycle: 0,
        satp,
        layout,
        kernel_set,
        next_kstack: 1,
    };
    proof {
        assert(kernel_wf(k));
    }
    let ghost pre = k;
    let loaded = execute(&mut k, shell_path, None);
    proof {
        if loaded {
            let tid = choose|tid: int|
                {
                    &&& 0 <= tid < pre.cpu.pool.slots@.len()
                    &&& !(#[trigger] pre.cpu.pool.slots@[tid]).present
                    &&& (forall|j: int|
                        0 <= j < tid ==> (#[trigger] pre.cpu.pool.slots@[j]).present)
                    &&& k.cpu.pool.slots@ == pre.cpu.pool.slots@.update(
                        tid,
                        crate::process::thread_pool::Slot {
                            present: true,
                            status: Status::Ready,
                            thread: k.cpu.pool.slots@[tid].thread,
                        },
                    )
                    &&& k.cpu.pool.slots@[tid].status is Ready
                    &&& k.cpu.scheduler_queued(tid as usize)
                    &&& (k.cpu.pool.slots@[tid].thread matches Some(t) && t.wait
                        == None::<usize> && t.tf.sepc == USER_BASE && t.memory_set is Some)
                };
            assert(!pre.cpu.pool.slots@[0].present);
            assert(tid == 0);
        }
    }
    k
}

/// Load the program at `path` from the root filesystem as a new user
/// thread whose host is `host_tid`. True exactly when the path resolves,
/// the image fits the user window, and a pool slot is free.
pub fn execute(k: &mut Kernel, path: &Vec<u8>, host_tid: Option<usize>) -> (r: bool)
    requires
        kernel_wf(*old(k)),
    ensures
        kernel_wf(*final(k)),
        *final(k) == (Kernel {
            cpu: final(k).cpu,
            tables: final(k).tables,
            mem: final(k).mem,
            next_kstack: final(k).next_kstack,
            ..*old(k)
        }),
        final(k).cpu.current == old(k).cpu.current,
        final(k).cpu.idle == old(k).cpu.idle,
        (final(k).cpu.pool.scheduler is Stride <==> old(k).cpu.pool.scheduler is Stride),
        final(k).fs == old(k).fs,
        final(k).files == old(k).files,
        final(k).pipes == old(k).pipes,
        final(k).timer == old(k).timer,
        final(k).ticks == old(k).ticks,
        final(k).stdout == old(k).stdout,
        final(k).stdin == old(k).stdin,
        final(k).layout == old(k).layout,
        final(k).satp == old(k).satp,
        final(k).cycle == old(k).cycle,
        final(k).kernel_set == old(k).kernel_set,
        final(k).tables.tables@.len() >= old(k).tables.tables@.len(),
        forall|tt: int|
            0 <= tt < old(k).tables.tables@.len() ==> final(k).tables.tables@[tt] == old(k).tables.tables@[tt],
        final(k).cpu.pool.slots@.len() == old(k).cpu.pool.slots@.len(),
        r <==> exists|ino: int|
            {
                &&& 0 <= ino < old(k).fs.nodes@.len()
                &&& (#[trigger] old(k).fs.nodes@[ino]).path@ == path@
                &&& forall|j: int| 0 <= j < ino ==> old(k).fs.nodes@[j].path@ != path@
                &&& old(k).fs.nodes@[ino].data@.len() <= USER_STACK_BOTTOM - USER_BASE
                &&& exists|s: int|
                    0 <= s < old(k).cpu.pool.slots@.len() && !(#[trigger] old(k).cpu.pool.slots@[s]).present
            },
        !r ==> final(k).cpu.pool.slots == old(k).cpu.pool.slots,
        r ==> exists|tid: int|
            {
                &&& 0 <= tid < old(k).cpu.pool.slots@.len()
                &&& !(#[trigger] old(k).cpu.pool.slots@[tid]).present
                &&& forall|j: int| 0 <= j < tid ==> (#[trigger] old(k).cpu.pool.slots@[j]).present
                &&& final(k).cpu.pool.slots@ == old(k).cpu.pool.slots@.update(
                    tid,
                    crate::process::thread_pool::Slot {
                        present: true,
                        status: Status::Ready,
                        thread: final(k).cpu.pool.slots@[tid].thread,
                    },
                )
                &&& final(k).cpu.pool.slots@[tid].status is Ready
                &&& final(k).cpu.scheduler_queued(tid as usize)
                &&& (final(k).cpu.pool.slots@[tid].thread matches Some(t) && t.wait == host_tid
                    && t.tf.sepc == USER_BASE && t.memory_set is Some)
            },
{
    let ino = match k.fs.lookup(path) {
        Some(ino) => ino,
        None => {
            return false;
        },
    };
    let len = k.fs.nodes[ino].data.len();
    if len > USER_STACK_BOTTOM - USER_BASE {
        return false;
    }
    let data = k.fs.read_at(ino, 0, len);
    let kstack = k.next_kstack;
    if k.next_kstack < usize::MAX {
        k.next_kstack = k.next_kstack + 1;
    }
    let th = Thread::new_user(&data, host_tid, &mut k.tables, &mut k.mem, &k.layout, kstack);
    proof {
        lemma_grow_all(*old(k), *k);
    }
    match k.cpu.add_thread(th) {
        Some(tid) => {
            true
        },
        None => {
            proof {
                assert forall|s: int|
                    0 <= s < old(k).cpu.pool.slots@.len() implies (#[trigger] old(k).cpu.pool.slots@[s]).present by {
                    assert(k.cpu.pool.slots@[s].present);
                }
            }
            false
        },
    }
}

/// One pass of the idle loop: pick the next ready thread, activate its
/// address space, and make it current. `None` is wait-for-interrupt.
pub fn run(k: &mut Kernel) -> (r: Option<usize>)
    requires
        kernel_wf(*old(k)),
        old(k).cpu.current is None,
    ensures
        kernel_wf(*final(k)),
        *final(k) == (Kernel { cpu: final(k).cpu, satp: final(k).satp, ..*old(k) }),
        match r {
            Some(tid) => {
                &&& (final(k).cpu.current matches Some((t, _)) && t == tid)
        
                &&& (final(k).cpu.current->Some_0.1.memory_set matches Some(ms) ==> final(k).satp
                    == final(k).tables.tables@[ms.page_table as int].spec_token())
            },
            None => {
                &&& final(k).cpu.current is None
                &&& forall|t: usize| !(#[trigger] old(k).cpu.scheduler_queued(t))
            },
        },
{
    match k.cpu.acquire_next() {
        Some(tid) => {
            let tok = match &k.cpu.current {
                Some((_, th)) => match &th.memory_set {
                    Some(ms) => Some(ms.token(&k.tables)),
                    None => None,
                },
                None => {
                    proof {
                        assert(false);
                    }
                    unreached()
                },
            };
            if let Some(tok) = tok {
                k.satp = tok;
            }
            Some(tid)
        },
        None => None,
    }
}

/// The running thread terminates: free its slot and resources and wake
/// its host, if `exec` parked one.
pub fn exit(k: &mut Kernel, code: usize)
    requires
        kernel_wf(*old(k)),
        old(k).cpu.current is Some,
    ensures
        kernel_wf(*final(k)),
        *final(k) == (Kernel { cpu: final(k).cpu, ..*old(k) }),
        final(k).cpu.current is None,
        !final(k).cpu.pool.slots@[old(k).cpu.current_tid_spec() as int].present,
        match old(k).cpu.current->Some_0.1.wait {
            Some(h) => h != old(k).cpu.current_tid_spec() && old(k).cpu.wakeable(h) ==> final(k).cpu.pool.slots@[h as int] == (crate::process::thread_pool::Slot {
                status: Status::Ready,
                ..old(k).cpu.pool.slots@[h as int]
            }) && final(k).cpu.scheduler_queued(h),
            None => forall|i: int|
                0 <= i < old(k).cpu.pool.slots@.len() && i != old(k).cpu.current_tid_spec()
                    ==> final(k).cpu.pool.slots@[i] == old(k).cpu.pool.slots@[i],
        },
{
    k.cpu.exit_current(code);
}

/// The running thread gives up its quantum.
pub fn yield_now(k: &mut Kernel)
    requires
        kernel_wf(*old(k)),
        old(k).cpu.current is Some,
    ensures
        kernel_wf(*final(k)),
        *final(k) == (Kernel { cpu: final(k).cpu, ..*old(k) }),
        final(k).cpu.current is None,
        final(k).cpu.pool.slots@[old(k).cpu.current_tid_spec() as int].status is Ready,
        final(k).cpu.pool.slots@[old(k).cpu.current_tid_spec() as int].thread == Some(
            old(k).cpu.current->Some_0.1,
        ),
        final(k).cpu.scheduler_queued(old(k).cpu.current_tid_spec()),
        forall|i: int|
            0 <= i < old(k).cpu.pool.slots@.len() && i != old(k).cpu.current_tid_spec()
                ==> final(k).cpu.pool.slots@[i] == old(k).cpu.pool.slots@[i],
{
    k.cpu.yield_now();
}

/// The running thread parks until somebody wakes it.
pub fn park(k: &mut Kernel)
    requires
        kernel_wf(*old(k)),
        old(k).cpu.current is Some,
    ensures
        kernel_wf(*final(k)),
        *final(k) == (Kernel { cpu: final(k).cpu, ..*old(k) }),
        final(k).cpu.current is None,
        final(k).cpu.pool.slots@[old(k).cpu.current_tid_spec() as int].status is Sleeping,
        final(k).cpu.pool.slots@[old(k).cpu.current_tid_spec() as int].thread == Some(
            old(k).cpu.current->Some_0.1,
        ),
        forall|i: int|
            0 <= i < old(k).cpu.pool.slots@.len() && i != old(k).cpu.current_tid_spec()
                ==> final(k).cpu.pool.slots@[i] == old(k).cpu.pool.slots@[i],
{
    k.cpu.park();
}

/// Wake `tid` if it sleeps; waking a thread that is not sleeping is a
/// no-op.
pub fn wake_up(k: &mut Kernel, tid: usize)
    requires
        kernel_wf(*old(k)),
    ensures
        kernel_wf(*final(k)),
        *final(k) == (Kernel { cpu: final(k).cpu, ..*old(k) }),
        final(k).cpu.current == old(k).cpu.current,
        old(k).cpu.wakeable(tid) ==> final(k).cpu.pool.slots@[tid as int]
            == (crate::process::thread_pool::Slot {
            status: Status::Ready,
            ..old(k).cpu.pool.slots@[tid as int]
        }) && final(k).cpu.scheduler_queued(tid),
        !old(k).cpu.wakeable(tid) ==> *final(k) == *old(k),
        forall|i: int|
            0 <= i < old(k).cpu.pool.slots@.len() && i != tid ==> final(k).cpu.pool.slots@[i]
                == old(k).cpu.pool.slots@[i],
{
    k.cpu.wake_up(tid);
}

pub fn current_tid(k: &Kernel) -> (tid: usize)
    requires
        k.cpu.current is Some,
    ensures
        tid == k.cpu.current_tid_spec(),
{
    k.cpu.current_tid()
}

/// Mutable access to the running thread. The caller owes `kernel_wf`
/// again afterwards; touching only the trap frame preserves it.
pub fn current_thread_mut(k: &mut Kernel) -> (t: &mut Thread)
    requires
        kernel_wf(*old(k)),
        old(k).cpu.current is Some,
    ensures
        *t == old(k).cpu.current->Some_0.1,
        final(k).cpu.current matches Some((tid, th)) && tid == old(k).cpu.current_tid_spec() && th
            == *final(t),
        final(k).cpu.pool == old(k).cpu.pool,
        final(k).cpu.idle == old(k).cpu.idle,
        final(k).mem == old(k).mem,
        final(k).tables == old(k).tables,
        final(k).fs == old(k).fs,
        final(k).pipes == old(k).pipes,
        final(k).files == old(k).files,
        final(k).stdin == old(k).stdin,
        final(k).stdout == old(k).stdout,
        final(k).timer == old(k).timer,
        final(k).ticks == old(k).ticks,
        final(k).cycle == old(k).cycle,
        final(k).satp == old(k).satp,
        final(k).layout == old(k).layout,
        final(k).kernel_set == old(k).kernel_set,
        final(k).page_replace == old(k).page_replace,
        final(k).next_kstack == old(k).next_kstack,
{
    k.cpu.current_thread_mut()
}

/// Register a thread with the pool; its tid is the slot index.
pub fn add_thread(k: &mut Kernel, thread: Thread) -> (r: Option<usize>)
    requires
        kernel_wf(*old(k)),
        thread_wf(thread, old(k).files@.len() as int, old(k).tables, old(k).mem),
    ensures
        kernel_wf(*final(k)),
        *final(k) == (Kernel { cpu: final(k).cpu, ..*old(k) }),
        final(k).cpu.current == old(k).cpu.current,
        match r {
            Some(tid) => {
                &&& tid < old(k).cpu.pool.slots@.len()
                &&& !old(k).cpu.pool.slots@[tid as int].present
                &&& forall|j: int| 0 <= j < tid ==> (#[trigger] old(k).cpu.pool.slots@[j]).present
                &&& final(k).cpu.pool.slots@ == old(k).cpu.pool.slots@.update(
                    tid as int,
                    crate::process::thread_pool::Slot {
                        present: true,
                        status: Status::Ready,
                        thread: Some(thread),
                    },
                )
                &&& final(k).cpu.scheduler_queued(tid)
            },
            None => final(k).cpu.pool.slots == old(k).cpu.pool.slots,
        },
{
    k.cpu.add_thread(thread)
}

/// Spawn a new kernel thread that starts at `entry` in the boot address
/// space, with `arg` staged in its first argument register.
pub fn spawn(k: &mut Kernel, entry: usize, arg: usize) -> (r: Option<usize>)
    requires
        kernel_wf(*old(k)),
    ensures
        kernel_wf(*final(k)),
        final(k).cpu.current == old(k).cpu.current,
        match r {
            Some(tid) => {
                &&& tid < old(k).cpu.pool.slots@.len()
                &&& !old(k).cpu.pool.slots@[tid as int].present
                &&& final(k).cpu.pool.slots@[tid as int].present
                &&& final(k).cpu.pool.slots@[tid as int].status is Ready
                &&& (final(k).cpu.pool.slots@[tid as int].thread matches Some(t) && t.tf.sepc
                    == entry && t.tf.a0 == arg && t.memory_set is None)
            },
            None => final(k).cpu.pool.slots == old(k).cpu.pool.slots,
        },
{
    let kstack = k.next_kstack;
    if k.next_kstack < usize::MAX {
        k.next_kstack = k.next_kstack + 1;
    }
    let mut th = Thread::new_kernel(entry, kstack);
    th.append_initial_arguments([arg, 0, 0]);
    k.cpu.add_thread(th)
}

/// A timer interrupt: count the tick, re-arm the timer, account the tick
/// to the policy, and wake every sleeper whose deadline passed. True when
/// the running quantum expired and the trap return should yield.
pub fn tick(k: &mut Kernel) -> (expired: bool)
    requires
        kernel_wf(*old(k)),
        old(k).ticks < u64::MAX,
        old(k).cycle + TIMEBASE <= u64::MAX,
    ensures
        kernel_wf(*final(k)),
        *final(k) == (Kernel {
            cpu: final(k).cpu,
            timer: final(k).timer,
            ticks: final(k).ticks,
            cycle: final(k).cycle,
            ..*old(k)
        }),
        final(k).ticks == old(k).ticks + 1,
        final(k).cycle == old(k).cycle + TIMEBASE,
        final(k).cpu.current == old(k).cpu.current,
        final(k).cpu.pool.slots@.len() == old(k).cpu.pool.slots@.len(),
        forall|i: int|
            0 <= i < old(k).cpu.pool.slots@.len() ==> final(k).cpu.pool.slots@[i].thread == old(k).cpu.pool.slots@[i].thread && final(k).cpu.pool.slots@[i].present == old(k).cpu.pool.slots@[i].present,
        forall|i: int|
            0 <= i < final(k).timer.events@.len() ==> (#[trigger] final(k).timer.events@[i]).deadline > old(k).ticks + 1,
        forall|j: int|
            0 <= j < old(k).timer.events@.len() && (#[trigger] old(k).timer.events@[j]).deadline
                <= old(k).ticks + 1 && old(k).cpu.wakeable(old(k).timer.events@[j].tid)
                ==> final(k).cpu.pool.slots@[old(k).timer.events@[j].tid as int].status is Ready,
        forall|s: int|
            0 <= s < old(k).cpu.pool.slots@.len() && (forall|j: int|
                0 <= j < old(k).timer.events@.len() && (#[trigger] old(k).timer.events@[j]).deadline
                    <= old(k).ticks + 1 ==> old(k).timer.events@[j].tid != s) ==> final(k).cpu.pool.slots@[s] == old(k).cpu.pool.slots@[s],
{
    k.ticks = k.ticks + 1;
    k.cycle = clock_set_next_event(k.cycle);
    let expired = k.cpu.tick();
    let fired = k.timer.tick(k.ticks);
    proof {
        assert forall|j: int|
            fired@.len() <= j < old(k).timer.events@.len() implies (#[trigger] old(k).timer.events@[j]).deadline > old(k).ticks + 1 by {
            assert(k.timer.events@[j - fired@.len()] == old(k).timer.events@[j]);
        }
    }
    let n = fired.len();
    let mut i: usize = 0;
    while i < n
        invariant
            kernel_wf(*k),
            n == fired@.len(),
            0 <= i <= n,
            n <= old(k).timer.events@.len(),
            forall|j: int|
                0 <= j < n ==> #[trigger] fired@[j] == old(k).timer.events@[j].tid,
            forall|j: int|
                n <= j < old(k).timer.events@.len() ==> (#[trigger] old(k).timer.events@[j]).deadline > old(k).ticks + 1,
            forall|s: int|
                0 <= s < old(k).cpu.pool.slots@.len() && (forall|j: int|
                    0 <= j < i ==> fired@[j] != s) ==> k.cpu.pool.slots@[s] == old(k).cpu.pool.slots@[s],
            forall|j: int|
                0 <= j < i && old(k).cpu.wakeable(#[trigger] fired@[j]) ==> k.cpu.pool.slots@[
                    fired@[j] as int
                ].status is Ready,
            *k == (Kernel {
                cpu: k.cpu,
                timer: k.timer,
                ticks: k.ticks,
                cycle: k.cycle,
                ..*old(k)
            }),
            k.cpu.current == old(k).cpu.current,
            k.cpu.pool.slots@.len() == old(k).cpu.pool.slots@.len(),
            forall|j: int|
                0 <= j < old(k).cpu.pool.slots@.len() ==> k.cpu.pool.slots@[j].thread == old(k).cpu.pool.slots@[j].thread && k.cpu.pool.slots@[j].present == old(k).cpu.pool.slots@[j].present,
            k.ticks == old(k).ticks + 1,
            k.cycle == old(k).cycle + TIMEBASE,
            k.timer.wf(),
            forall|j: int|
                0 <= j < k.timer.events@.len() ==> (#[trigger] k.timer.events@[j]).deadline > old(k).ticks + 1,
        decreases n - i,
    {
        let t = fired[i];
        k.cpu.wake_up(t);
        i += 1;
    }
    proof {
        assert forall|j: int|
            0 <= j < old(k).timer.events@.len() && (#[trigger] old(k).timer.events@[j]).deadline
                <= old(k).ticks + 1 && old(k).cpu.wakeable(old(k).timer.events@[j].tid) implies k.cpu.pool.slots@[
            old(k).timer.events@[j].tid as int
        ].status is Ready by {
            assert(j < n);
            assert(fired@[j] == old(k).timer.events@[j].tid);
        }
    }
    expired
}

/// Sleep the running thread for `sec` seconds: schedule a wakeup
/// `sec * 100` ticks out and park. The thread sleeps at least that long:
/// the timer fires no entry before its deadline.
pub fn sleep(k: &mut Kernel, sec: usize)
    requires
        kernel_wf(*old(k)),
        old(k).cpu.current is Some,
        sec <= usize::MAX / TICKS_PER_SEC,
        old(k).ticks + sec * TICKS_PER_SEC <= u64::MAX,
    ensures
        kernel_wf(*final(k)),
        *final(k) == (Kernel { cpu: final(k).cpu, timer: final(k).timer, ..*old(k) }),
        final(k).cpu.current is None,
        final(k).cpu.pool.slots@[old(k).cpu.current_tid_spec() as int].status is Sleeping,
        final(k).timer.events@.len() == old(k).timer.events@.len() + 1,
        exists|i: int|
            0 <= i < final(k).timer.events@.len() && (#[trigger] final(k).timer.events@[i])
                == (crate::timer::TimerEvent {
                deadline: (old(k).ticks + (sec * TICKS_PER_SEC) as u64) as u64,
                tid: old(k).cpu.current_tid_spec(),
            }),
{
    let tid = current_tid(k);
    let deadline = k.ticks + (sec * TICKS_PER_SEC) as u64;
    k.timer.add(deadline, tid);
    proof {
        let ev = crate::timer::TimerEvent { deadline, tid };
        let pos = choose|p: int|
            0 <= p <= old(k).timer.events@.len() && k.timer.events@ == old(k).timer.events@.insert(
                p,
                ev,
            ) && (forall|j: int| 0 <= j < p ==> old(k).timer.events@[j].deadline <= deadline) && (
        forall|j: int|
            p <= j < old(k).timer.events@.len() ==> old(k).timer.events@[j].deadline > deadline);
        assert(k.timer.events@[pos] == ev);
    }
    park(k);
}

} // verus!
