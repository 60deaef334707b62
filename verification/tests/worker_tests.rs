use dirload::stat::ThreadStat;
use dirload::worker;
use dirload::worker::{EndPass, MonitorAct, PathIter, RecvOutcome, Thread};
use dirload::Error;
use dirload::Opt;

#[test]
fn test_get_path_iter_is_xxx() {
    assert!(PathIter::Walk.is_walk());
    assert!(PathIter::Ordered.is_ordered());
    assert!(PathIter::Reverse.is_reverse());
    assert!(PathIter::Random.is_random());
}

#[test]
fn test_worker_roles() {
    let mut opt = Opt::default();
    opt.num_reader = 2;
    opt.num_writer = 1;
    let r = Thread::newread(1, 8);
    assert!(r.is_reader(&opt));
    assert!(!r.is_writer(&opt));
    let w = Thread::newwrite(2, 8);
    assert!(!w.is_reader(&opt));
    assert!(w.is_writer(&opt));
}

#[test]
fn test_build_threads() {
    let mut opt = Opt::default();
    opt.num_reader = 2;
    opt.num_writer = 2;
    opt.read_buffer_size = 32;
    opt.write_buffer_size = 64;
    let thrv = worker::build_threads(&opt);
    assert_eq!(thrv.len(), 4);
    for (i, t) in thrv.iter().enumerate() {
        assert_eq!(t.gid, i);
        if i < 2 {
            assert!(t.stat.is_reader);
            assert_eq!(t.dir.read_buffer.len(), 32);
        } else {
            assert!(!t.stat.is_reader);
            assert_eq!(t.dir.write_buffer.len(), 64);
            assert!(t.dir.write_buffer.iter().all(|b| *b == 0x41));
        }
    }
}

#[test]
fn test_worker_step_index_ordered_and_reverse() {
    // reverse visits [f1, f2, f3] as exactly f3, f2, f1
    let mut ordered = vec![];
    let mut reverse = vec![];
    for i in 0..3 {
        ordered.push(worker::worker_step_index(&PathIter::Ordered, i, 3).unwrap());
        reverse.push(worker::worker_step_index(&PathIter::Reverse, i, 3).unwrap());
    }
    assert_eq!(ordered, vec![0, 1, 2]);
    assert_eq!(reverse, vec![2, 1, 0]);
}

#[test]
fn test_worker_step_index_random_in_range() {
    for i in 0..100 {
        let k = worker::worker_step_index(&PathIter::Random, i % 3, 3).unwrap();
        assert!(k < 3, "{k}");
    }
}

#[test]
fn test_worker_step_index_walk_is_invalid() {
    assert_eq!(
        worker::worker_step_index(&PathIter::Walk, 0, 3),
        Err(Error::InvalidInput)
    );
}

#[test]
fn test_worker_post_entry_interrupt() {
    // an interrupt ends the pass cooperatively and is counted once
    let opt = Opt::default();
    let mut thr = Thread::newread(0, 8);
    let mut timer = dirload::util::Timer::new(0, 100);
    let stop = worker::worker_post_entry(&mut thr, &mut timer, true, &opt).unwrap();
    assert!(stop);
    assert_eq!(thr.num_interrupted, 1);
    assert_eq!(thr.num_complete, 0);
}

#[test]
fn test_worker_post_entry_no_time_budget() {
    let opt = Opt::default();
    let mut thr = Thread::newread(0, 8);
    let mut timer = dirload::util::Timer::new(0, 100);
    let stop = worker::worker_post_entry(&mut thr, &mut timer, false, &opt).unwrap();
    assert!(!stop);
    assert_eq!(thr.num_interrupted, 0);
    assert_eq!(thr.num_complete, 0);
}

#[test]
fn test_worker_end_pass_repeat_cap() {
    let mut opt = Opt::default();
    opt.num_reader = 1;
    opt.num_repeat = 2;
    let mut thr = Thread::newread(0, 8);
    let mut repeat: isize = 0;
    assert_eq!(worker::worker_end_pass(&mut thr, &mut repeat, &opt).unwrap(), EndPass::Continue);
    assert_eq!(repeat, 1);
    assert_eq!(thr.stat.num_repeat, 1);
    assert_eq!(worker::worker_end_pass(&mut thr, &mut repeat, &opt).unwrap(), EndPass::Break);
    assert_eq!(repeat, 2);
    assert_eq!(thr.stat.num_repeat, 2);
}

#[test]
fn test_worker_end_pass_writer_budget() {
    let mut opt = Opt::default();
    opt.num_writer = 1;
    opt.num_write_paths = 1;
    let mut thr = Thread::newwrite(0, 8);
    thr.dir.write_paths = vec!["/r/p".to_string()];
    let mut repeat: isize = 0;
    assert_eq!(worker::worker_end_pass(&mut thr, &mut repeat, &opt).unwrap(), EndPass::Break);
}

#[test]
fn test_worker_end_pass_finished_after_interrupt() {
    let opt = Opt::default();
    let mut thr = Thread::newread(0, 8);
    thr.num_interrupted = 1;
    let mut repeat: isize = 5;
    assert_eq!(worker::worker_end_pass(&mut thr, &mut repeat, &opt).unwrap(), EndPass::Finished);
    assert_eq!(repeat, 5);
    assert_eq!(thr.stat.num_repeat, 0);
}

#[test]
fn test_worker_begin_and_channel() {
    let mut thr = Thread::newread(0, 8);
    let (tx, rx) = std::sync::mpsc::channel::<(usize, ThreadStat)>();
    thr.txc = Some(tx);
    worker::worker_begin(&mut thr, "/r").unwrap();
    let (gid, ts) = rx.try_recv().unwrap();
    assert_eq!(gid, 0);
    assert_eq!(ts.input_path, *"/r");
    assert!(!ts.done);
    thr.send_done().unwrap();
    let (_, ts) = rx.try_recv().unwrap();
    assert!(ts.done);
}

#[test]
fn test_worker_finish() {
    let mut opt = Opt::default();
    opt.num_reader = 1;
    opt.num_repeat = 1;
    let mut thr = Thread::newread(0, 8);
    worker::worker_finish(&mut thr, 1, &opt).unwrap();
    assert_eq!(thr.num_complete, 1);
}

#[test]
fn test_collect_results() {
    let mut t0 = Thread::newread(0, 4);
    t0.num_complete = 1;
    let mut t1 = Thread::newread(1, 4);
    t1.num_interrupted = 2;
    let mut t2 = Thread::newwrite(2, 4);
    t2.num_error = 3;
    let (nc, ni, ne) = worker::collect_results(&vec![t0, t1, t2]);
    assert_eq!((nc, ni, ne), (1, 2, 3));
}

#[test]
fn test_setup_flist_impl_buckets() {
    let input = vec!["/a".to_string(), "/b".to_string()];
    let lines = vec![
        "/a/1".to_string(),
        "/b/2".to_string(),
        "/a/3".to_string(),
    ];
    let fls = worker::setup_flist_impl(&input, &lines).unwrap();
    assert_eq!(fls.len(), 2);
    assert_eq!(fls[0], vec!["/a/1", "/a/3"]);
    assert_eq!(fls[1], vec!["/b/2"]);
}

#[test]
fn test_setup_flist_impl_no_prefix() {
    let input = vec!["/a".to_string()];
    let lines = vec!["/a/1".to_string(), "/c/2".to_string()];
    assert_eq!(worker::setup_flist_impl(&input, &lines), Err(Error::InvalidInput));
}

#[test]
fn test_setup_flist_impl_empty_bucket() {
    let input = vec!["/a".to_string(), "/b".to_string()];
    let lines = vec!["/a/1".to_string()];
    assert_eq!(worker::setup_flist_impl(&input, &lines), Err(Error::InvalidInput));
}

#[test]
fn test_check_flists_nonempty() {
    let input = vec!["/a".to_string(), "/b".to_string()];
    let full = vec![vec!["/a/1".to_string()], vec!["/b/2".to_string()]];
    assert_eq!(worker::check_flists_nonempty(&input, &full), Ok(()));
    let hole = vec![vec!["/a/1".to_string()], vec![]];
    assert_eq!(worker::check_flists_nonempty(&input, &hole), Err(Error::InvalidInput));
}

#[test]
fn test_monitor_runs_until_all_done() {
    let mut opt = Opt::default();
    opt.monitor_int_second = 1;
    let mut st = worker::monitor_new(2, &opt);
    assert_eq!(st.tsv.len(), 2);

    let mut ts0 = ThreadStat::newread();
    ts0.set_input_path("/r");
    ts0.done = true;
    assert_eq!(
        worker::monitor_handler(&mut st, RecvOutcome::Msg(0, ts0), &opt),
        MonitorAct::Continue
    );
    assert_eq!(
        worker::monitor_handler(&mut st, RecvOutcome::TimedOut, &opt),
        MonitorAct::Continue
    );
    let mut ts1 = ThreadStat::newread();
    ts1.set_input_path("/r");
    ts1.done = true;
    assert_eq!(
        worker::monitor_handler(&mut st, RecvOutcome::Msg(1, ts1), &opt),
        MonitorAct::Exit
    );
}

#[test]
fn test_monitor_fails_on_disconnect() {
    let mut opt = Opt::default();
    opt.monitor_int_second = 1;
    let mut st = worker::monitor_new(1, &opt);
    assert_eq!(
        worker::monitor_handler(&mut st, RecvOutcome::Disconnected, &opt),
        MonitorAct::Fail
    );
}

#[test]
fn test_opt_default() {
    let o = Opt::default();
    assert_eq!(o.num_set, 1);
    assert_eq!(o.num_reader, 0);
    assert_eq!(o.num_writer, 0);
    assert_eq!(o.num_repeat, -1);
    assert_eq!(o.time_second, 0);
    assert_eq!(o.monitor_int_second, 0);
    assert!(!o.stat_only);
    assert!(!o.ignore_dot);
    assert!(!o.follow_symlink);
    assert_eq!(o.read_buffer_size, 65536);
    assert_eq!(o.read_size, -1);
    assert_eq!(o.write_buffer_size, 65536);
    assert_eq!(o.write_size, -1);
    assert_eq!(o.num_write_paths, 1024);
    assert_eq!(o.write_paths_base, *"x");
    assert_eq!(o.write_paths_type.len(), 2);
    assert!(o.write_paths_type[0].is_dir());
    assert!(o.write_paths_type[1].is_reg());
    assert!(o.path_iter.is_ordered());
    assert_eq!(o.flist_file, *"");
    assert!(!o.force);
    assert!(!o.verbose);
    assert!(!o.debug);
}
