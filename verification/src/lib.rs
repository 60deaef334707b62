//! Core logic of a filesystem load generator: path handling, worker
//! accounting, write-path naming and cleanup planning, file-list handling,
//! and the per-entry read/write engine, all with verified contracts.
//! Filesystem access itself is performed by a thin driver around this crate.
use vstd::prelude::*;

pub mod dir;
pub mod flist;
pub mod stat;
pub mod util;
pub mod worker;

verus! {

/// Error kinds surfaced by the library, mirroring the I/O error kinds the
/// driver maps them to.
#[derive(Clone, Copy, Debug, PartialEq, Eq, Structural)]
pub enum Error {
    InvalidInput,
    NotFound,
    AlreadyExists,
    NotConnected,
}

/// Process-wide options, immutable after startup.
pub struct Opt {
    pub num_set: usize,
    pub num_reader: usize,
    pub num_writer: usize,
    pub num_repeat: isize,
    pub time_minute: u64,
    pub time_second: u64,
    pub monitor_int_minute: u64,
    pub monitor_int_second: u64,
    pub stat_only: bool,
    pub ignore_dot: bool,
    pub follow_symlink: bool,
    pub read_buffer_size: usize,
    pub read_size: isize,
    pub write_buffer_size: usize,
    pub write_size: isize,
    pub random_write_data: bool,
    pub num_write_paths: isize,
    pub truncate_write_paths: bool,
    pub fsync_write_paths: bool,
    pub dirsync_write_paths: bool,
    pub keep_write_paths: bool,
    pub clean_write_paths: bool,
    pub write_paths_base: String,
    pub write_paths_type: Vec<dir::WritePathsType>,
    pub path_iter: worker::PathIter,
    pub flist_file: String,
    pub flist_file_create: bool,
    pub force: bool,
    pub verbose: bool,
    pub debug: bool,
}

/// The bounds the front end enforces on options before the core runs.
pub open spec fn spec_opt_wf(o: Opt) -> bool {
    &&& o.read_buffer_size <= dir::MAX_BUFFER_SIZE
    &&& o.write_buffer_size <= dir::MAX_BUFFER_SIZE
    &&& (o.read_size == -1 || (0 <= o.read_size && o.read_size <= dir::MAX_BUFFER_SIZE as int))
    &&& (o.write_size == -1 || (0 <= o.write_size && o.write_size <= dir::MAX_BUFFER_SIZE as int))
    &&& o.num_repeat >= -1
    &&& o.num_write_paths >= -1
    &&& o.write_paths_type@.len() > 0
}

impl Default for Opt {
    /// The defaults the front end starts from.
    fn default() -> (r: Opt)
        ensures
            r.num_set == 1,
            r.num_reader == 0,
            r.num_writer == 0,
            r.num_repeat == -1,
            r.time_minute == 0,
            r.time_second == 0,
            r.monitor_int_minute == 0,
            r.monitor_int_second == 0,
            r.stat_only == false,
            r.ignore_dot == false,
            r.follow_symlink == false,
            r.read_buffer_size == 65536,
            r.read_size == -1,
            r.write_buffer_size == 65536,
            r.write_size == -1,
            r.random_write_data == false,
            r.num_write_paths == 1024,
            r.truncate_write_paths == false,
            r.fsync_write_paths == false,
            r.dirsync_write_paths == false,
            r.keep_write_paths == false,
            r.clean_write_paths == false,
            r.write_paths_base@ == "x"@,
            r.write_paths_type@ == seq![
                dir::WritePathsType::Dir,
                dir::WritePathsType::Reg,
            ],
            r.path_iter == worker::PathIter::Ordered,
            r.flist_file@ == Seq::<char>::empty(),
            r.flist_file_create == false,
            r.force == false,
            r.verbose == false,
            r.debug == false,
            spec_opt_wf(r),
    {
        let mut wpt: Vec<dir::WritePathsType> = Vec::new();
        wpt.push(dir::WritePathsType::Dir);
        wpt.push(dir::WritePathsType::Reg);
        proof {
            assert(wpt@ =~= seq![dir::WritePathsType::Dir, dir::WritePathsType::Reg]);
        }
        Opt {
            num_set: 1,
            num_reader: 0,
            num_writer: 0,
            num_repeat: -1,
            time_minute: 0,
            time_second: 0,
            monitor_int_minute: 0,
            monitor_int_second: 0,
            stat_only: false,
            ignore_dot: false,
            follow_symlink: false,
            read_buffer_size: 65536,
            read_size: -1,
            write_buffer_size: 65536,
            write_size: -1,
            random_write_data: false,
            num_write_paths: 1024,
            truncate_write_paths: false,
            fsync_write_paths: false,
            dirsync_write_paths: false,
            keep_write_paths: false,
            clean_write_paths: false,
            write_paths_base: String::from_str("x"),
            write_paths_type: wpt,
            path_iter: worker::PathIter::Ordered,
            flist_file: String::new(),
            flist_file_create: false,
            force: false,
            verbose: false,
            debug: false,
        }
    }
}

pub const VERSION_MAJOR: u64 = 0;

pub const VERSION_MINOR: u64 = 1;

pub const VERSION_PATCH: u64 = 4;

/// The version triple rendered as "major.minor.patch".
pub fn get_version_string() -> (r: String)
    ensures
        r@ == util::spec_dec(VERSION_MAJOR as nat) + "."@ + util::spec_dec(VERSION_MINOR as nat)
            + "."@ + util::spec_dec(VERSION_PATCH as nat),
{
    let mut s = String::new();
    util::push_dec(&mut s, VERSION_MAJOR);
    s.append(".");
    util::push_dec(&mut s, VERSION_MINOR);
    s.append(".");
    util::push_dec(&mut s, VERSION_PATCH);
    s
}

} // verus!
