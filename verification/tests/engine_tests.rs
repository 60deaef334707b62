use dirload::dir;
use dirload::dir::{CleanupOutcome, Dir, ReadPlan, UnlinkOp, WriteBodyPlan, WritePathsType, WritePlan};
use dirload::util::FileType;
use dirload::worker::Thread;
use dirload::Error;
use dirload::Opt;

fn fixed_dir(ts: &str) -> Dir {
    Dir {
        random_write_data: Vec::new(),
        write_paths_ts: ts.to_string(),
    }
}

#[test]
fn test_get_write_paths_type_is_xxx() {
    assert!(WritePathsType::Dir.is_dir());
    assert!(WritePathsType::Reg.is_reg());
    assert!(WritePathsType::Symlink.is_symlink());
    assert!(WritePathsType::Link.is_link());
}

#[test]
fn test_assert_file_path() {
    assert!(dir::assert_file_path("/a/b"));
    assert!(!dir::assert_file_path("a/b"));
    assert!(!dir::assert_file_path("/a/b/"));
    assert!(!dir::assert_file_path(""));
}

#[test]
fn test_read_entry_dispatch() {
    let opt = Opt::default();
    let mut thr = Thread::newread(0, 16);
    assert_eq!(dir::read_entry("/r/f", dirload::util::FileType::Reg, &mut thr, &opt), ReadPlan::ReadFile);
    assert_eq!(dir::read_entry("/r/d", dirload::util::FileType::Dir, &mut thr, &opt), ReadPlan::Skip);
    assert_eq!(
        dir::read_entry("/r/s", dirload::util::FileType::Symlink, &mut thr, &opt),
        ReadPlan::ResolveLink
    );
    assert_eq!(
        dir::read_entry("/r/v", dirload::util::FileType::Device, &mut thr, &opt),
        ReadPlan::Skip
    );
    assert_eq!(thr.stat.num_stat, 4);
    assert_eq!(thr.stat.num_read, 0);
}

#[test]
fn test_read_entry_stat_only() {
    let mut opt = Opt::default();
    opt.stat_only = true;
    let mut thr = Thread::newread(0, 16);
    assert_eq!(dir::read_entry("/r/f", dirload::util::FileType::Reg, &mut thr, &opt), ReadPlan::Skip);
    assert_eq!(thr.stat.num_stat, 1);
    assert_eq!(thr.stat.num_read, 0);
    assert_eq!(thr.stat.num_read_bytes, 0);
}

#[test]
fn test_read_entry_ignore_dot() {
    let mut opt = Opt::default();
    opt.ignore_dot = true;
    let mut thr = Thread::newread(0, 16);
    assert_eq!(
        dir::read_entry("/r/.hidden", dirload::util::FileType::Reg, &mut thr, &opt),
        ReadPlan::Skip
    );
    // a dot directory is still walked
    assert_ne!(
        dir::read_entry("/r/f", dirload::util::FileType::Reg, &mut thr, &opt),
        ReadPlan::Skip
    );
    assert_eq!(thr.stat.num_stat, 2);
    assert_eq!(thr.stat.num_read, 0);
    assert_eq!(thr.stat.num_read_bytes, 0);
}

#[test]
fn test_symlink_two_stats_no_follow() {
    let mut opt = Opt::default();
    opt.follow_symlink = false;
    let mut thr = Thread::newread(0, 16);
    let plan = dir::read_entry("/r/s", dirload::util::FileType::Symlink, &mut thr, &opt);
    assert_eq!(plan, ReadPlan::ResolveLink);
    assert_eq!(thr.stat.num_stat, 1);
    let x = match dir::read_entry_link("/r/s", "a.txt", &mut thr, &opt) {
        Ok(v) => v,
        Err(e) => panic!("{e:?}"),
    };
    assert_eq!(x, "/r/a.txt");
    assert_eq!(thr.stat.num_read_bytes, 5);
    let plan = dir::read_entry_resolved(&x, dirload::util::FileType::Reg, &mut thr, &opt);
    assert_eq!(plan, ReadPlan::Skip);
    assert_eq!(thr.stat.num_stat, 2);
    assert_eq!(thr.stat.num_read, 0);
}

#[test]
fn test_symlink_followed_reads_target() {
    let mut opt = Opt::default();
    opt.follow_symlink = true;
    let mut thr = Thread::newread(0, 16);
    dir::read_entry("/r/s", dirload::util::FileType::Symlink, &mut thr, &opt);
    let x = dir::read_entry_link("/r/s", "/q/a.txt", &mut thr, &opt).unwrap();
    assert_eq!(x, "/q/a.txt");
    let plan = dir::read_entry_resolved(&x, dirload::util::FileType::Reg, &mut thr, &opt);
    assert_eq!(plan, ReadPlan::ReadFile);
    assert_eq!(thr.stat.num_stat, 2);
}

#[test]
fn test_read_accounting_unbounded() {
    // two regular files of 10 and 20 bytes, read to the end
    let opt = Opt::default();
    let mut thr = Thread::newread(0, 65536);
    for file_size in [10usize, 20usize] {
        let plan = dir::read_entry("/r/f", dirload::util::FileType::Reg, &mut thr, &opt);
        assert_eq!(plan, ReadPlan::ReadFile);
        let mut resid = dir::read_file_begin(opt.read_buffer_size, opt.read_size);
        assert_eq!(resid, -1);
        let mut remaining = file_size;
        loop {
            let k = dir::chunk_len(resid, opt.read_buffer_size);
            let siz = if k < remaining { k } else { remaining };
            remaining -= siz;
            if dir::read_file_step(&mut thr, &mut resid, siz) {
                break;
            }
        }
    }
    assert_eq!(thr.stat.num_read_bytes, 30);
    assert_eq!(thr.stat.num_stat, 2);
    assert_eq!(thr.stat.num_read, 4);
}

#[test]
fn test_read_accounting_fixed_size() {
    // a fixed read size caps the bytes taken from a large file
    let mut opt = Opt::default();
    opt.read_size = 100;
    let mut thr = Thread::newread(0, 65536);
    let mut resid = dir::read_file_begin(opt.read_buffer_size, opt.read_size);
    assert_eq!(resid, 100);
    let k = dir::chunk_len(resid, opt.read_buffer_size);
    assert_eq!(k, 100);
    let done = dir::read_file_step(&mut thr, &mut resid, k);
    assert!(done);
    assert_eq!(thr.stat.num_read_bytes, 100);
    assert_eq!(thr.stat.num_read, 1);
}

#[test]
fn test_read_file_begin_random_range() {
    for _ in 0..100 {
        let r = dir::read_file_begin(7, 0);
        assert!((1..=7).contains(&r), "{r}");
    }
}

#[test]
fn test_chunk_len() {
    assert_eq!(dir::chunk_len(5, 10), 5);
    assert_eq!(dir::chunk_len(20, 10), 10);
    assert_eq!(dir::chunk_len(-1, 10), 10);
    assert_eq!(dir::chunk_len(0, 10), 10);
}

#[test]
fn test_write_entry_dispatch() {
    let opt = Opt::default();
    let mut thr = Thread::newwrite(0, 16);
    match dir::write_entry("/r/d", dirload::util::FileType::Dir, &mut thr, &opt) {
        Ok(WritePlan::WriteHere) => {}
        x => panic!("{x:?}"),
    }
    match dir::write_entry("/r/f", dirload::util::FileType::Reg, &mut thr, &opt) {
        Ok(WritePlan::WriteUnder(d)) => assert_eq!(d, "/r"),
        x => panic!("{x:?}"),
    }
    match dir::write_entry("/r/s", dirload::util::FileType::Symlink, &mut thr, &opt) {
        Ok(WritePlan::Skip) => {}
        x => panic!("{x:?}"),
    }
    assert_eq!(thr.stat.num_stat, 3);
}

#[test]
fn test_write_paths_naming_and_budget() {
    let mut opt = Opt::default();
    opt.num_writer = 1;
    opt.num_write_paths = 3;
    opt.write_paths_type = vec![WritePathsType::Reg];
    let d = fixed_dir("20240101000000");
    let mut thr = Thread::newwrite(0, 16);
    let mut names = vec![];
    loop {
        match dir::write_file_begin("/r", &mut thr, &d, &opt) {
            Some((newf, kind)) => {
                assert_eq!(kind, WritePathsType::Reg);
                names.push(newf.clone());
                let cont = dir::write_file_commit(&mut thr, newf, kind, &opt);
                assert!(cont);
            }
            None => break,
        }
    }
    assert_eq!(
        names,
        vec![
            "/r/dirload_x_gid0_20240101000000_0",
            "/r/dirload_x_gid0_20240101000000_1",
            "/r/dirload_x_gid0_20240101000000_2",
        ]
    );
    assert_eq!(thr.dir.write_paths.len(), 3);
    assert_eq!(thr.dir.write_paths_counter, 3);
    assert!(dir::is_write_done(&thr, &opt));
}

#[test]
fn test_write_names_unique_across_workers() {
    let mut opt = Opt::default();
    opt.num_writer = 2;
    opt.write_paths_type = vec![WritePathsType::Dir];
    let d = fixed_dir("20240101000000");
    let mut all = vec![];
    for gid in 0..2usize {
        let mut thr = Thread::newwrite(gid, 16);
        for _ in 0..3 {
            let (newf, kind) = dir::write_file_begin("/r", &mut thr, &d, &opt).unwrap();
            all.push(newf.clone());
            dir::write_file_commit(&mut thr, newf, kind, &opt);
        }
    }
    for i in 0..all.len() {
        for j in 0..all.len() {
            assert!(i == j || all[i] != all[j], "{} {}", all[i], all[j]);
        }
    }
}

#[test]
fn test_write_file_commit_non_regular_counts_one_write() {
    let opt = Opt::default();
    let mut thr = Thread::newwrite(0, 16);
    let cont = dir::write_file_commit(&mut thr, "/r/p".to_string(), WritePathsType::Dir, &opt);
    assert!(!cont);
    assert_eq!(thr.stat.num_write, 1);
    assert_eq!(thr.dir.write_paths, vec!["/r/p"]);
}

#[test]
fn test_create_inode_plan_hardlink_degrades() {
    let e = dir::create_inode_plan(FileType::Reg, WritePathsType::Link);
    assert!(e.is_link());
    // over anything but a regular source the hardlink becomes a directory
    for t in [FileType::Dir, FileType::Symlink, FileType::Device, FileType::Unsupported] {
        let e = dir::create_inode_plan(t, WritePathsType::Link);
        assert!(e.is_dir(), "{t:?}");
    }
    let e = dir::create_inode_plan(FileType::Dir, WritePathsType::Symlink);
    assert!(e.is_symlink());
}

#[test]
fn test_write_file_body_plan_modes() {
    let mut thr = Thread::newwrite(0, 16);
    let mut opt = Opt::default();
    opt.write_size = -1;
    match dir::write_file_body_plan(&mut thr, &opt) {
        WriteBodyPlan::NoWrite => {}
        x => panic!("{x:?}"),
    }
    assert_eq!(thr.stat.num_write, 1);

    opt.write_size = 100;
    opt.truncate_write_paths = true;
    match dir::write_file_body_plan(&mut thr, &opt) {
        WriteBodyPlan::Truncate(r) => assert_eq!(r, 100),
        x => panic!("{x:?}"),
    }
    opt.truncate_write_paths = false;
    match dir::write_file_body_plan(&mut thr, &opt) {
        WriteBodyPlan::Stream(r) => assert_eq!(r, 100),
        x => panic!("{x:?}"),
    }
    opt.write_size = 0;
    match dir::write_file_body_plan(&mut thr, &opt) {
        WriteBodyPlan::Stream(r) => assert!((1..=16).contains(&r), "{r}"),
        x => panic!("{x:?}"),
    }
    assert_eq!(thr.stat.num_write, 1);
}

#[test]
fn test_write_file_step() {
    let mut thr = Thread::newwrite(0, 16);
    let mut resid: isize = 20;
    assert!(!dir::write_file_step(&mut thr, &mut resid, 16));
    assert_eq!(resid, 4);
    assert!(dir::write_file_step(&mut thr, &mut resid, 4));
    assert_eq!(resid, 0);
    assert_eq!(thr.stat.num_write, 2);
    assert_eq!(thr.stat.num_write_bytes, 20);
}

#[test]
fn test_write_accounting_streamed() {
    // a streamed write path of 100 bytes through a 16-byte buffer carries
    // exactly 100 bytes over seven writes
    let mut thr = Thread::newwrite(0, 16);
    let mut resid: isize = 100;
    let mut writes = 0;
    loop {
        let k = dir::chunk_len(resid, 16);
        writes += 1;
        if dir::write_file_step(&mut thr, &mut resid, k) {
            break;
        }
    }
    assert_eq!(thr.stat.num_write_bytes, 100);
    assert_eq!(thr.stat.num_write, writes);
    assert_eq!(writes, 7);
    assert_eq!(resid, 0);
}

#[test]
fn test_fill_random_buffer() {
    let d = Dir::new(true);
    assert_eq!(d.random_write_data.len(), 2 * dir::MAX_BUFFER_SIZE);
    for b in &d.random_write_data {
        assert!((32..128).contains(b), "{b}");
    }
    let mut thr = Thread::newwrite(0, 8);
    dir::fill_random_buffer(&mut thr, 8, &d);
    assert_eq!(thr.dir.write_buffer.len(), 8);
    for b in &thr.dir.write_buffer {
        assert!((32..128).contains(b), "{b}");
    }
}

#[test]
fn test_dir_new_without_random_data() {
    let d = Dir::new(false);
    assert!(d.random_write_data.is_empty());
    assert!(!d.write_paths_ts.contains('_'));
}

#[test]
fn test_cleanup_write_paths_keep() {
    let mut opt = Opt::default();
    opt.keep_write_paths = true;
    let mut t0 = Thread::newwrite(0, 4);
    t0.dir.write_paths = vec!["/r/a".to_string(), "/r/b".to_string()];
    let mut t1 = Thread::newwrite(1, 4);
    t1.dir.write_paths = vec!["/r/c".to_string()];
    match dir::cleanup_write_paths(&vec![t0, t1], &opt) {
        CleanupOutcome::Kept(n) => assert_eq!(n, 3),
        CleanupOutcome::Unlink(l) => panic!("{l:?}"),
    }
}

#[test]
fn test_cleanup_write_paths_unlink_union() {
    let opt = Opt::default();
    let mut t0 = Thread::newwrite(0, 4);
    t0.dir.write_paths = vec!["/r/b".to_string(), "/r/a".to_string()];
    let mut t1 = Thread::newwrite(1, 4);
    t1.dir.write_paths = vec!["/r/c".to_string()];
    match dir::cleanup_write_paths(&vec![t0, t1], &opt) {
        CleanupOutcome::Kept(n) => panic!("{n}"),
        CleanupOutcome::Unlink(l) => assert_eq!(l, vec!["/r/b", "/r/a", "/r/c"]),
    }
}

#[test]
fn test_unlink_write_paths_plan_sorts_children_last() {
    let mut l = vec![
        "/r/dirload_x_gid0_1_0".to_string(),
        "/r/dirload_x_gid0_1_0/dirload_x_gid0_1_1".to_string(),
        "/r/a".to_string(),
    ];
    let n = dirload::dir::unlink_write_paths_plan(&mut l, -1);
    assert_eq!(n, 3);
    assert_eq!(
        l,
        vec![
            "/r/a",
            "/r/dirload_x_gid0_1_0",
            "/r/dirload_x_gid0_1_0/dirload_x_gid0_1_1",
        ]
    );
    // the tail is the deepest path, so popping deletes children first
    assert!(l[2].starts_with(l[1].as_str()));
}

#[test]
fn test_unlink_write_paths_plan_count() {
    let mut l = vec!["/b".to_string(), "/a".to_string()];
    assert_eq!(dirload::dir::unlink_write_paths_plan(&mut l, 1), 1);
    let mut l = vec!["/b".to_string(), "/a".to_string()];
    assert_eq!(dirload::dir::unlink_write_paths_plan(&mut l, 5), 2);
    let mut l: Vec<String> = vec![];
    assert_eq!(dirload::dir::unlink_write_paths_plan(&mut l, -1), 0);
}

#[test]
fn test_unlink_op() {
    assert_eq!(dir::unlink_op(FileType::Dir), Ok(UnlinkOp::Rmdir));
    assert_eq!(dir::unlink_op(FileType::Reg), Ok(UnlinkOp::Unlink));
    assert_eq!(dir::unlink_op(FileType::Symlink), Ok(UnlinkOp::Unlink));
    assert_eq!(dir::unlink_op(FileType::Device), Err(Error::InvalidInput));
    assert_eq!(dir::unlink_op(FileType::Unsupported), Err(Error::InvalidInput));
}

#[test]
fn test_unlink_pop() {
    let mut l = vec!["/a".to_string(), "/b".to_string()];
    let mut n: usize = 2;
    dir::unlink_pop(&mut l, &mut n);
    assert_eq!(l, vec!["/a"]);
    assert_eq!(n, 1);
}

#[test]
fn test_collect_write_paths_filter() {
    let opt = Opt::default();
    assert_eq!(
        dir::collect_write_paths_filter("/r/dirload_x_gid0_20240101_5", FileType::Reg, &opt),
        Ok(true)
    );
    assert_eq!(
        dir::collect_write_paths_filter("/r/dirload_y", FileType::Dir, &opt),
        Ok(false)
    );
    assert_eq!(
        dir::collect_write_paths_filter("/r/other", FileType::Symlink, &opt),
        Ok(false)
    );
    assert_eq!(
        dir::collect_write_paths_filter("/r/dirload_x", FileType::Device, &opt),
        Ok(false)
    );
    assert_eq!(
        dir::collect_write_paths_filter("/", FileType::Dir, &opt),
        Err(Error::NotFound)
    );
}

#[test]
fn test_get_write_paths_base() {
    let mut opt = Opt::default();
    assert_eq!(dir::get_write_paths_base(&opt), "dirload_x");
    opt.write_paths_base = "yy".to_string();
    assert_eq!(dir::get_write_paths_base(&opt), "dirload_yy");
}

#[test]
fn test_is_write_done() {
    let mut opt = Opt::default();
    opt.num_reader = 1;
    opt.num_writer = 1;
    opt.num_write_paths = 2;
    let mut reader = Thread::newread(0, 4);
    reader.dir.write_paths = vec!["/a".to_string(), "/b".to_string()];
    assert!(!dir::is_write_done(&reader, &opt));
    let mut writer = Thread::newwrite(1, 4);
    assert!(!dir::is_write_done(&writer, &opt));
    writer.dir.write_paths = vec!["/a".to_string(), "/b".to_string()];
    assert!(dir::is_write_done(&writer, &opt));
    opt.num_write_paths = -1;
    assert!(!dir::is_write_done(&writer, &opt));
}
