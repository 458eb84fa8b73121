// End-to-end scenarios: boot, fork, pipes, scheduling, sleep, exec.

use kernel_core::consts::FD_TABLE_SIZE;
use kernel_core::consts::MAX_THREADS;
use kernel_core::consts::USER_BASE;
use kernel_core::consts::USER_STACK_BOTTOM;
use kernel_core::fs::rootfs::Filesystem;
use kernel_core::kernel::Kernel;
use kernel_core::memory::memory_set::KernelLayout;
use kernel_core::process;
use kernel_core::process::thread_pool::Status;
use kernel_core::syscall;
use kernel_core::syscall::SyscallOutcome;

fn layout() -> KernelLayout {
    KernelLayout {
        stext: 0x100000,
        etext: 0x101000,
        srodata: 0x101000,
        erodata: 0x102000,
        sdata: 0x102000,
        edata: 0x103000,
        sbss: 0x103000,
        ebss: 0x104000,
        kernel_end: 0x104000,
        physical_memory_end: 0x6000,
        offset: 0x100000,
    }
}

fn path(s: &str) -> Vec<u8> {
    s.as_bytes().to_vec()
}

fn boot(entries: &[(&str, &[u8])], shell: &str) -> Kernel {
    let mut fs = Filesystem::new();
    for (p, data) in entries {
        fs.add_node(path(p), data.to_vec());
    }
    process::init(layout(), fs, &path(shell))
}

fn slot_status(k: &Kernel, tid: usize) -> Option<Status> {
    let s = &k.cpu.pool.slots[tid];
    if s.present {
        Some(s.status)
    } else {
        None
    }
}

#[test]
fn boot_to_shell() {
    // After init the pool holds the `rust/user_shell` thread beside the
    // processor's idle thread, and the first idle pass dispatches it.
    let mut k = boot(&[("rust/user_shell", b"\x13\x00\x00\x00")], "rust/user_shell");
    assert!(k.cpu.idle.is_some());
    assert!(k.cpu.current.is_none());
    assert_eq!(slot_status(&k, 0), Some(Status::Ready));
    assert_eq!(k.cpu.pool.slots.len(), MAX_THREADS);
    let picked = process::run(&mut k);
    assert_eq!(picked, Some(0));
    assert_eq!(slot_status(&k, 0), Some(Status::Running));
    // The activated address space is the shell's, not the boot one.
    let sh_ms = k.cpu.current.as_ref().unwrap().1.memory_set.as_ref().unwrap();
    assert_eq!(k.satp, sh_ms.token(&k.tables));
}

#[test]
fn boot_without_shell_binary() {
    let k = boot(&[("rust/hello", b"\x01")], "rust/user_shell");
    // Lookup failed: no thread was enqueued.
    assert_eq!(slot_status(&k, 0), None);
}

// The `fork` demo: two successive forks make four processes; each then
// prints one of two lines plus the tid the second fork returned.
#[test]
fn fork_print() {
    // The image carries every character the program prints.
    let image: &[u8] = b"I am child\nI am father\nret tid is: 0123456789\n\0";
    let mut k = boot(&[("fork", image)], "fork");

    let find = |c: u8| -> usize {
        let off = image.iter().position(|&b| b == c).unwrap();
        USER_BASE + off
    };
    let write_line = |k: &mut Kernel, s: &str| {
        for c in s.bytes() {
            let r = syscall::syscall(k, syscall::SYS_WRITE, [1, find(c), 1]);
            assert!(matches!(r, SyscallOutcome::Ret(1)));
        }
    };

    // Per-process program counter: how many forks it has done.
    let mut forks_done = [0usize; 8];
    let mut live = [false; 8];
    live[0] = true;
    let mut printed: Vec<String> = Vec::new();
    let mut second_ret = [0isize; 8];
    let mut steps = 0;
    while let Some(tid) = process::run(&mut k) {
        steps += 1;
        assert!(steps < 200);
        let forks_pending = (0..8).any(|t| live[t] && forks_done[t] < 2);
        if forks_done[tid] < 2 {
            let r = syscall::syscall(&mut k, syscall::SYS_FORK, [0, 0, 0]);
            let v = match r {
                SyscallOutcome::Ret(v) => v,
                _ => panic!("fork did not return"),
            };
            assert!(v >= 0);
            // The child resumes after the same fork.
            forks_done[v as usize] = forks_done[tid] + 1;
            live[v as usize] = true;
            forks_done[tid] += 1;
            if forks_done[tid] == 2 {
                second_ret[tid] = v;
            }
            process::tick(&mut k);
            process::yield_now(&mut k);
        } else if forks_pending {
            // Somebody still has a fork to do; spin one quantum.
            process::tick(&mut k);
            process::yield_now(&mut k);
        } else {
            // The child observed a0 == 0 from its creating fork.
            let a0 = k.cpu.current.as_ref().unwrap().1.tf.a0;
            let v = if second_ret[tid] != 0 {
                second_ret[tid]
            } else {
                a0 as isize
            };
            let line = if v == 0 {
                format!("I am child\nret tid is: {}\n", v)
            } else {
                format!("I am father\nret tid is: {}\n", v)
            };
            write_line(&mut k, &line);
            printed.push(line);
            live[tid] = false;
            syscall::syscall(&mut k, syscall::SYS_EXIT, [0, 0, 0]);
        }
    }
    assert_eq!(printed.len(), 4);
    let children = printed.iter().filter(|l| l.starts_with("I am child")).count();
    let fathers = printed.iter().filter(|l| l.starts_with("I am father")).count();
    assert_eq!(children, 2);
    assert_eq!(fathers, 2);
    // Exactly one father reported the smallest child tid.
    let tids: Vec<isize> = printed
        .iter()
        .filter(|l| l.starts_with("I am father"))
        .map(|l| l.split(": ").nth(1).unwrap().trim().parse::<isize>().unwrap())
        .collect();
    let min = tids.iter().min().unwrap();
    assert_eq!(tids.iter().filter(|t| *t == min).count(), 1);
    // The console carries all four lines' bytes.
    let out = String::from_utf8(k.stdout.clone()).unwrap();
    assert_eq!(out.matches("I am child").count(), 2);
    assert_eq!(out.matches("I am father").count(), 2);
}

#[test]
fn pipe_echo() {
    // pipe(fds); write(fds[1], 'A'); read(fds[0], buf, 1) yields 'A'.
    let mut k = boot(&[("p", b"\x13")], "p");
    process::run(&mut k).unwrap();
    let fds_ptr = USER_STACK_BOTTOM;
    let r = syscall::syscall(&mut k, syscall::SYS_PIPE, [fds_ptr, 0, 0]);
    assert!(matches!(r, SyscallOutcome::Ret(0)));
    let fd0 = k.try_user_read(fds_ptr).unwrap() as usize;
    let fd1 = k.try_user_read(fds_ptr + 4).unwrap() as usize;
    assert_ne!(fd0, fd1);
    // Stage an 'A' in the user stack and send it through the pipe.
    let a_ptr = USER_STACK_BOTTOM + 64;
    k.user_write_byte(a_ptr, b'A');
    let r = syscall::syscall(&mut k, syscall::SYS_WRITE, [fd1, a_ptr, 1]);
    assert!(matches!(r, SyscallOutcome::Ret(1)));
    let buf_ptr = USER_STACK_BOTTOM + 128;
    let r = syscall::syscall(&mut k, syscall::SYS_READ, [fd0, buf_ptr, 1]);
    assert!(matches!(r, SyscallOutcome::Ret(1)));
    assert_eq!(k.try_user_read(buf_ptr), Some(b'A'));
}

#[test]
fn pipe_empty_read_blocks() {
    let mut k = boot(&[("p", b"\x13")], "p");
    process::run(&mut k).unwrap();
    let fds_ptr = USER_STACK_BOTTOM;
    syscall::syscall(&mut k, syscall::SYS_PIPE, [fds_ptr, 0, 0]);
    let fd0 = k.try_user_read(fds_ptr).unwrap() as usize;
    let buf_ptr = USER_STACK_BOTTOM + 128;
    let r = syscall::syscall(&mut k, syscall::SYS_READ, [fd0, buf_ptr, 1]);
    assert!(matches!(r, SyscallOutcome::SleepRetry));
    // The reader sleeps one tick; the next timer interrupt readies it.
    assert_eq!(slot_status(&k, 0), Some(Status::Sleeping));
    process::tick(&mut k);
    assert_eq!(slot_status(&k, 0), Some(Status::Ready));
}

#[test]
fn stride_priority_ratio() {
    // Two cpu-bound threads; the one with half the pass runs twice as
    // often over any longer window.
    let mut k = boot(&[], "none");
    let t1 = process::add_thread(
        &mut k,
        kernel_core::process::structs::Thread::new_kernel(0x100000, 100),
    )
    .unwrap();
    let t2 = process::add_thread(
        &mut k,
        kernel_core::process::structs::Thread::new_kernel(0x100000, 101),
    )
    .unwrap();
    match &mut k.cpu.pool.scheduler {
        kernel_core::process::thread_pool::SchedulerKind::Stride(s) => {
            s.set_pass(t1, 65536);
            s.set_pass(t2, 32768);
        },
        _ => panic!("stride scheduler expected"),
    }
    let mut c1 = 0;
    let mut c2 = 0;
    for _ in 0..30 {
        let tid = process::run(&mut k).unwrap();
        if tid == t1 {
            c1 += 1;
        } else {
            assert_eq!(tid, t2);
            c2 += 1;
        }
        process::tick(&mut k);
        process::yield_now(&mut k);
    }
    // 1:2 ratio within +-1 over the 30 decisions.
    assert!(c1 + c2 == 30);
    assert!((c2 as i64 - 2 * c1 as i64).abs() <= 1, "c1={} c2={}", c1, c2);
}

#[test]
fn sleep_wakes_after_hundred_ticks() {
    let mut k = boot(&[("p", b"\x13")], "p");
    let tid = process::run(&mut k).unwrap();
    process::sleep(&mut k, 1);
    assert_eq!(slot_status(&k, tid), Some(Status::Sleeping));
    for _ in 0..99 {
        process::tick(&mut k);
        assert_eq!(slot_status(&k, tid), Some(Status::Sleeping));
    }
    process::tick(&mut k);
    assert_eq!(slot_status(&k, tid), Some(Status::Ready));
}

#[test]
fn exec_parks_host_until_child_exits() {
    // The shell image carries the path of the program it execs.
    let image: &[u8] = b"\x13\x00rust/hello\0";
    let mut k = boot(&[("shell", image), ("rust/hello", b"\x13")], "shell");
    let shell = process::run(&mut k).unwrap();
    let path_ptr = USER_BASE + 2;
    let r = syscall::syscall(&mut k, syscall::SYS_EXEC, [path_ptr, 0, 0]);
    assert!(matches!(r, SyscallOutcome::Park(0)));
    assert_eq!(slot_status(&k, shell), Some(Status::Sleeping));
    // The next pass runs `hello`; its exit readies the shell again.
    let hello = process::run(&mut k).unwrap();
    assert_ne!(hello, shell);
    let wait = k.cpu.current.as_ref().unwrap().1.wait;
    assert_eq!(wait, Some(shell));
    let r = syscall::syscall(&mut k, syscall::SYS_EXIT, [0, 0, 0]);
    assert!(matches!(r, SyscallOutcome::Exit(0)));
    assert_eq!(slot_status(&k, hello), None);
    assert_eq!(slot_status(&k, shell), Some(Status::Ready));
}

#[test]
fn fork_copies_user_pages_to_distinct_frames() {
    // Parent and child have byte-identical user pages in distinct frames.
    let image: &[u8] = b"\x13\x37\x42\x99abcdef";
    let mut k = boot(&[("p", image)], "p");
    process::run(&mut k).unwrap();
    let parent_frames = k.mem.frames.len();
    let r = syscall::syscall(&mut k, syscall::SYS_FORK, [0, 0, 0]);
    let child = match r {
        SyscallOutcome::Ret(v) => v as usize,
        _ => panic!("fork failed"),
    };
    // Find the code page in both address spaces.
    let vpn = USER_BASE / kernel_core::consts::PAGE_SIZE;
    let parent_ms = k.cpu.current.as_ref().unwrap().1.memory_set.as_ref().unwrap();
    let child_slot = &k.cpu.pool.slots[child];
    let child_ms = child_slot.thread.as_ref().unwrap().memory_set.as_ref().unwrap();
    let ppt = &k.tables.tables[parent_ms.page_table];
    let cpt = &k.tables.tables[child_ms.page_table];
    let pf = match ppt.entries[ppt.find(vpn).unwrap()].target {
        kernel_core::memory::paging::PteTarget::Frame(f) => f,
        _ => panic!("parent code page not frame-backed"),
    };
    let cf = match cpt.entries[cpt.find(vpn).unwrap()].target {
        kernel_core::memory::paging::PteTarget::Frame(f) => f,
        _ => panic!("child code page not frame-backed"),
    };
    assert_ne!(pf, cf);
    assert!(cf >= parent_frames);
    assert_eq!(k.mem.frames[pf], k.mem.frames[cf]);
    // The child observes fork returning 0.
    assert_eq!(child_slot.thread.as_ref().unwrap().tf.a0, 0);
    // Kernel segments stay linearly mapped and shared.
    let kvpn = 0x100000 / kernel_core::consts::PAGE_SIZE;
    let pk = ppt.entries[ppt.find(kvpn).unwrap()].target;
    let ck = cpt.entries[cpt.find(kvpn).unwrap()].target;
    assert_eq!(pk, ck);
}

#[test]
fn open_close_round_trip() {
    // Opening then closing a path leaves the fd table as it was.
    let image: &[u8] = b"\x13\x00rust/data\0";
    let mut k = boot(&[("shell", image), ("rust/data", b"hello")], "shell");
    process::run(&mut k).unwrap();
    let before: Vec<Option<usize>> = k.cpu.current.as_ref().unwrap().1.ofile.clone();
    let path_ptr = USER_BASE + 2;
    let r = syscall::syscall(&mut k, syscall::SYS_OPEN, [path_ptr, 0, 0]);
    let fd = match r {
        SyscallOutcome::Ret(v) => v,
        _ => panic!("open failed"),
    };
    assert!(fd >= 0 && (fd as usize) < FD_TABLE_SIZE);
    assert!(k.cpu.current.as_ref().unwrap().1.ofile[fd as usize].is_some());
    let r = syscall::syscall(&mut k, syscall::SYS_CLOSE, [fd as usize, 0, 0]);
    assert!(matches!(r, SyscallOutcome::Ret(0)));
    let after: Vec<Option<usize>> = k.cpu.current.as_ref().unwrap().1.ofile.clone();
    assert_eq!(before, after);
}

#[test]
fn open_missing_path_fails() {
    let image: &[u8] = b"\x13\x00nosuch\0";
    let mut k = boot(&[("shell", image)], "shell");
    process::run(&mut k).unwrap();
    let r = syscall::syscall(&mut k, syscall::SYS_OPEN, [USER_BASE + 2, 0, 0]);
    assert!(matches!(r, SyscallOutcome::Ret(-1)));
}

#[test]
fn stdin_read_blocks_then_delivers() {
    let mut k = boot(&[("p", b"\x13")], "p");
    let tid = process::run(&mut k).unwrap();
    let buf_ptr = USER_STACK_BOTTOM;
    let r = syscall::syscall(&mut k, syscall::SYS_READ, [0, buf_ptr, 1]);
    assert!(matches!(r, SyscallOutcome::WaitStdin));
    assert_eq!(slot_status(&k, tid), Some(Status::Sleeping));
    // A console byte arrives; the waiter is woken and retries.
    let woken = k.stdin.push_byte(b'x');
    assert_eq!(woken, Some(tid));
    process::wake_up(&mut k, tid);
    assert_eq!(slot_status(&k, tid), Some(Status::Ready));
    process::run(&mut k).unwrap();
    let r = syscall::syscall(&mut k, syscall::SYS_READ, [0, buf_ptr, 1]);
    assert!(matches!(r, SyscallOutcome::Ret(1)));
    assert_eq!(k.try_user_read(buf_ptr), Some(b'x'));
}

#[test]
fn write_to_console_and_times() {
    let mut k = boot(&[("p", b"Z\x13")], "p");
    process::run(&mut k).unwrap();
    let r = syscall::syscall(&mut k, syscall::SYS_WRITE, [1, USER_BASE, 1]);
    assert!(matches!(r, SyscallOutcome::Ret(1)));
    assert_eq!(k.stdout, b"Z".to_vec());
    // times scales the cycle counter down by 200000.
    for _ in 0..3 {
        process::tick(&mut k);
    }
    let r = syscall::syscall(&mut k, syscall::SYS_TIMES, [0, 0, 0]);
    assert!(matches!(r, SyscallOutcome::Ret(1)));
}

#[test]
fn setpriority_sets_stride_pass() {
    let mut k = boot(&[("p", b"\x13")], "p");
    let tid = process::run(&mut k).unwrap();
    let r = syscall::syscall(&mut k, syscall::SYS_SETPRIORITY, [4, 0, 0]);
    assert!(matches!(r, SyscallOutcome::Ret(0)));
    match &k.cpu.pool.scheduler {
        kernel_core::process::thread_pool::SchedulerKind::Stride(s) => {
            assert_eq!(s.threads[tid].pass, 65536 / 4);
        },
        _ => panic!("stride scheduler expected"),
    }
}

#[test]
fn file_read_write_advance_offset() {
    let image: &[u8] = b"\x13\x00rust/data\0";
    let mut k = boot(&[("shell", image), ("rust/data", b"hello world")], "shell");
    process::run(&mut k).unwrap();
    // Open read-write (flags 2: readable and writable).
    let r = syscall::syscall(&mut k, syscall::SYS_OPEN, [USER_BASE + 2, 2, 0]);
    let fd = match r {
        SyscallOutcome::Ret(v) => v as usize,
        _ => panic!("open failed"),
    };
    let buf = USER_STACK_BOTTOM;
    let r = syscall::syscall(&mut k, syscall::SYS_READ, [fd, buf, 5]);
    assert!(matches!(r, SyscallOutcome::Ret(5)));
    for (i, c) in b"hello".iter().enumerate() {
        assert_eq!(k.try_user_read(buf + i), Some(*c));
    }
    // Write 3 bytes at the advanced offset: " wor" becomes "XYZ"...
    k.user_write_byte(buf + 16, b'X');
    k.user_write_byte(buf + 17, b'Y');
    k.user_write_byte(buf + 18, b'Z');
    let r = syscall::syscall(&mut k, syscall::SYS_WRITE, [fd, buf + 16, 3]);
    assert!(matches!(r, SyscallOutcome::Ret(3)));
    let node = &k.fs.nodes[k.fs.lookup(&path("rust/data")).unwrap()];
    assert_eq!(node.data, b"helloXYZrld".to_vec());
}

#[test]
fn exec_missing_path_fails_without_parking() {
    let image: &[u8] = b"\x13\x00no/such\0";
    let mut k = boot(&[("shell", image)], "shell");
    let shell = process::run(&mut k).unwrap();
    let r = syscall::syscall(&mut k, syscall::SYS_EXEC, [USER_BASE + 2, 0, 0]);
    assert!(matches!(r, SyscallOutcome::Ret(-1)));
    // The caller was not parked: it is still the current thread.
    assert_eq!(k.cpu.current.as_ref().unwrap().0, shell);
    assert_eq!(slot_status(&k, shell), Some(Status::Running));
}

#[test]
fn spawn_kernel_thread() {
    let mut k = boot(&[], "none");
    let tid = process::spawn(&mut k, 0x100000, 7).unwrap();
    assert_eq!(slot_status(&k, tid), Some(Status::Ready));
    let got = process::run(&mut k).unwrap();
    assert_eq!(got, tid);
    let th = &k.cpu.current.as_ref().unwrap().1;
    assert_eq!(th.tf.sepc, 0x100000);
    assert_eq!(th.tf.a0, 7);
    assert!(th.memory_set.is_none());
    // A kernel thread runs in the boot address space: satp is unchanged.
    assert_eq!(k.satp, k.kernel_set.token(&k.tables));
    // It exits through the processor like any other thread.
    process::exit(&mut k, 0);
    assert_eq!(slot_status(&k, tid), None);
}

#[test]
fn at_most_one_slot_runs_at_a_time() {
    let mut k = boot(&[("p", b"\x13")], "p");
    let count_running = |k: &Kernel| {
        k.cpu
            .pool
            .slots
            .iter()
            .filter(|s| s.present && matches!(s.status, Status::Running))
            .count()
    };
    assert_eq!(count_running(&k), 0);
    process::run(&mut k).unwrap();
    assert_eq!(count_running(&k), 1);
    assert!(k.cpu.current.is_some());
    process::yield_now(&mut k);
    assert_eq!(count_running(&k), 0);
    assert!(k.cpu.current.is_none());
}
