// Unit tests for the components: schedulers, pipes, timer, condvar,
// files, paging, and page replacement.

use kernel_core::fs::file::File;
use kernel_core::fs::file::FileDescriptorType;
use kernel_core::fs::pipe::Pipe;
use kernel_core::fs::rootfs::Filesystem;
use kernel_core::memory::attr::MemoryAttr;
use kernel_core::memory::memory_set::MemorySet;
use kernel_core::memory::page_replace::FifoPageReplace;
use kernel_core::memory::paging::PageTables;
use kernel_core::memory::paging::PteTarget;
use kernel_core::memory::phys::PhysMemory;
use kernel_core::process::scheduler::RRScheduler;
use kernel_core::process::scheduler::Scheduler;
use kernel_core::process::scheduler::StrideScheduler;
use kernel_core::sync::condvar::Condvar;
use kernel_core::timer::clock_set_next_event;
use kernel_core::timer::Timer;

#[test]
fn rr_scheduler_round_robin_order() {
    let mut s = RRScheduler::new(2);
    s.push(3);
    s.push(1);
    s.push(2);
    assert_eq!(s.pop(), Some(3));
    assert_eq!(s.pop(), Some(1));
    assert_eq!(s.pop(), Some(2));
    assert_eq!(s.pop(), None);
}

#[test]
fn rr_ready_time_never_exceeds_slice_budget() {
    let mut s = RRScheduler::new(4);
    for t in 0..5 {
        s.push(t);
    }
    let total: usize = s.queue.iter().map(|&t| s.times[t]).sum();
    assert!(total <= 4 * s.queue.len());
    assert_eq!(total, 20);
}

#[test]
fn rr_tick_spends_the_quantum() {
    let mut s = RRScheduler::new(2);
    s.push(0);
    assert_eq!(s.pop(), Some(0));
    assert!(!s.tick());
    assert!(s.tick());
}

#[test]
fn rr_partial_remainder_kept() {
    // A thread re-enqueued mid-quantum resumes with its remainder.
    let mut s = RRScheduler::new(3);
    s.push(0);
    s.pop();
    s.tick();
    s.push(0);
    assert_eq!(s.times[0], 2);
}

#[test]
fn stride_prefers_lowest_stride_and_lowest_tid() {
    let mut s = StrideScheduler::new();
    s.push(0);
    s.push(1);
    assert_eq!(s.pop(), Some(0));
    s.tick();
    s.push(0);
    assert_eq!(s.pop(), Some(1));
}

#[test]
fn stride_set_pass_changes_accumulation() {
    let mut s = StrideScheduler::new();
    s.push(0);
    s.set_pass(0, 100);
    assert_eq!(s.pop(), Some(0));
    s.tick();
    assert_eq!(s.threads[0].stride, 100);
}

#[test]
fn pipe_is_first_in_first_out() {
    let mut p = Pipe::new();
    p.push_byte(10);
    p.push_byte(20);
    p.push_byte(30);
    assert_eq!(p.pop_byte(), Some(10));
    p.push_byte(40);
    assert_eq!(p.pop_byte(), Some(20));
    assert_eq!(p.pop_byte(), Some(30));
    assert_eq!(p.pop_byte(), Some(40));
    assert_eq!(p.pop_byte(), None);
}

#[test]
fn timer_fires_due_entries_in_deadline_order() {
    let mut t = Timer::new();
    t.add(30, 3);
    t.add(10, 1);
    t.add(20, 2);
    let fired = t.tick(25);
    assert_eq!(fired, vec![1, 2]);
    assert_eq!(t.tick(25), Vec::<usize>::new());
    assert_eq!(t.tick(30), vec![3]);
}

#[test]
fn clock_next_event_adds_timebase() {
    assert_eq!(clock_set_next_event(0), 100000);
    assert_eq!(clock_set_next_event(100000), 200000);
}

#[test]
fn condvar_wakes_in_fifo_order() {
    let mut c = Condvar::new();
    assert_eq!(c.notify(), None);
    c.wait(7);
    c.wait(3);
    assert_eq!(c.notify(), Some(7));
    assert_eq!(c.notify(), Some(3));
    assert_eq!(c.notify(), None);
}

#[test]
fn file_open_flags() {
    // flags bit 0 set: write-only; bits 0..2 nonzero: writable.
    let mut f = File::default();
    f.open_file(0, 0);
    assert!(f.get_readable() && !f.get_writable());
    f.open_file(0, 1);
    assert!(!f.get_readable() && f.get_writable());
    f.open_file(0, 2);
    assert!(f.get_readable() && f.get_writable());
    assert!(matches!(f.get_fdtype(), FileDescriptorType::FdInode));
    assert_eq!(f.get_offset(), 0);
}

#[test]
fn rootfs_lookup_first_match_and_reads() {
    let mut fs = Filesystem::new();
    fs.add_node(b"a".to_vec(), b"one".to_vec());
    fs.add_node(b"b".to_vec(), b"two".to_vec());
    fs.add_node(b"a".to_vec(), b"three".to_vec());
    assert_eq!(fs.lookup(&b"a".to_vec()), Some(0));
    assert_eq!(fs.lookup(&b"b".to_vec()), Some(1));
    assert_eq!(fs.lookup(&b"c".to_vec()), None);
    assert_eq!(fs.read_at(0, 0, 10), b"one".to_vec());
    assert_eq!(fs.read_at(0, 1, 1), b"n".to_vec());
    assert_eq!(fs.read_at(0, 3, 1), Vec::<u8>::new());
}

#[test]
fn rootfs_write_at_replaces_and_grows() {
    let mut fs = Filesystem::new();
    fs.add_node(b"f".to_vec(), b"abcdef".to_vec());
    assert_eq!(fs.write_at(0, 2, &b"XY".to_vec()), 2);
    assert_eq!(fs.nodes[0].data, b"abXYef".to_vec());
    assert_eq!(fs.write_at(0, 5, &b"1234".to_vec()), 4);
    assert_eq!(fs.nodes[0].data, b"abXYe1234".to_vec());
}

#[test]
fn memory_set_maps_kernel_and_physical_window() {
    let mut mem = PhysMemory::new();
    let mut ts = PageTables::new();
    let l = kernel_core::memory::memory_set::KernelLayout {
        stext: 0x100000,
        etext: 0x101000,
        srodata: 0x101000,
        erodata: 0x102000,
        sdata: 0x102000,
        edata: 0x103000,
        sbss: 0x103000,
        ebss: 0x104000,
        kernel_end: 0x104000,
        physical_memory_end: 0x6000,
        offset: 0x100000,
    };
    let ms = MemorySet::new(&mut ts, &mut mem, &l);
    assert_eq!(ms.areas.len(), 5);
    // .text is linearly mapped: page 0x100 maps physical page 0.
    let pt = &ts.tables[ms.page_table];
    let i = pt.find(0x100000 / 4096).unwrap();
    assert_eq!(pt.entries[i].target, PteTarget::Linear(0));
    assert!(pt.entries[i].attr.execute && pt.entries[i].attr.readonly);
    // The physical window page is linear too.
    let i = pt.find(0x105000 / 4096).unwrap();
    assert_eq!(pt.entries[i].target, PteTarget::Linear(5));
    // Nothing outside the areas is mapped.
    assert!(pt.find(0x10).is_none());
    // The token names the root frame with the Sv39 mode bits.
    assert_eq!(ms.token(&ts), (8u64 << 60) | (pt.root_ppn as u64));
}

#[test]
fn fifo_replacement_gives_second_chances() {
    let mut mem = PhysMemory::new();
    let mut ts = PageTables::new();
    let mut pt = kernel_core::memory::paging::PageTableImpl::new_bare(&mut mem);
    let attr = MemoryAttr::new();
    pt.map_entry(1, PteTarget::Frame(0), attr);
    pt.map_entry(2, PteTarget::Frame(0), attr);
    pt.set_accessed(1, true);
    ts.tables.push(pt);
    let mut fifo = FifoPageReplace::new();
    fifo.push_frame(1 * 4096, 0);
    fifo.push_frame(2 * 4096, 0);
    // Page 1 was accessed: it gets a second chance, page 2 is evicted.
    let victim = fifo.choose_victim(&mut ts);
    assert_eq!(victim, Some((2 * 4096, 0)));
    // The pass cleared page 1's accessed bit; next round it is chosen.
    let i = ts.tables[0].find(1).unwrap();
    assert!(!ts.tables[0].entries[i].accessed);
    assert_eq!(fifo.choose_victim(&mut ts), Some((1 * 4096, 0)));
    assert_eq!(fifo.choose_victim(&mut ts), None);
    fifo.tick();
}

#[test]
fn empty_fifo_has_no_victim() {
    let mut ts = PageTables::new();
    let mut fifo = FifoPageReplace::new();
    assert_eq!(fifo.choose_victim(&mut ts), None);
}

#[test]
fn every_mapped_page_lies_in_exactly_one_area() {
    let mut mem = PhysMemory::new();
    let mut ts = PageTables::new();
    let l = kernel_core::memory::memory_set::KernelLayout {
        stext: 0x100000,
        etext: 0x101000,
        srodata: 0x101000,
        erodata: 0x102000,
        sdata: 0x102000,
        edata: 0x103000,
        sbss: 0x103000,
        ebss: 0x104000,
        kernel_end: 0x104000,
        physical_memory_end: 0x6000,
        offset: 0x100000,
    };
    let ms = MemorySet::new(&mut ts, &mut mem, &l);
    let pt = &ts.tables[ms.page_table];
    for e in &pt.entries {
        let addr = e.vpn * 4096;
        let covering = ms
            .areas
            .iter()
            .filter(|a| a.start <= addr && addr < a.end)
            .count();
        assert_eq!(covering, 1, "page {:#x} covered by {} areas", addr, covering);
    }
}
